//! Facts about sequences and the sets of their elements.

use vstd::prelude::*;

verus! {

/// Taking one more element of a sequence adds that element to the set of
/// elements taken.
pub proof fn lemma_take_insert<A>(s: Seq<A>, i: int)
    requires
        0 <= i < s.len(),
    ensures
        s.take(i + 1).to_set() == s.take(i).to_set().insert(s[i]),
        s.take(i + 1) == s.take(i).push(s[i]),
{
    assert(s.take(i + 1) =~= s.take(i).push(s[i]));
    assert forall|x: A| s.take(i + 1).to_set().contains(x) <==> s.take(i).to_set().insert(s[i]).contains(x) by {
        if s.take(i + 1).contains(x) {
            let a = choose|a: int| 0 <= a < i + 1 && #[trigger] s.take(i + 1)[a] == x;
            if a < i {
                assert(s.take(i)[a] == x);
            }
        }
        if s.take(i).contains(x) {
            let a = choose|a: int| 0 <= a < i && #[trigger] s.take(i)[a] == x;
            assert(s.take(i + 1)[a] == x);
        }
        if x == s[i] {
            assert(s.take(i + 1)[i] == x);
        }
    }
    assert(s.take(i + 1).to_set() =~= s.take(i).to_set().insert(s[i]));
}

/// In a sequence without duplicates, an element is not among those before it.
pub proof fn lemma_not_in_prefix<A>(s: Seq<A>, i: int)
    requires
        s.no_duplicates(),
        0 <= i < s.len(),
    ensures
        !s.take(i).to_set().contains(s[i]),
{
    if s.take(i).contains(s[i]) {
        let a = choose|a: int| 0 <= a < i && #[trigger] s.take(i)[a] == s[i];
        assert(s[a] == s[i]);
    }
}

/// Appending an element that is not present keeps a sequence free of
/// duplicates and adds it to the set of elements.
pub proof fn lemma_push_fresh<A>(s: Seq<A>, x: A)
    requires
        s.no_duplicates(),
        !s.contains(x),
    ensures
        s.push(x).no_duplicates(),
        s.push(x).to_set() == s.to_set().insert(x),
{
    let t = s.push(x);
    assert forall|a: int, b: int| 0 <= a < t.len() && 0 <= b < t.len() && a != b implies t[a] != t[b] by {
        if a < s.len() && b < s.len() {
        } else if a < s.len() {
            assert(s.contains(t[a]));
        } else {
            assert(s.contains(t[b]));
        }
    }
    assert forall|y: A| t.to_set().contains(y) <==> s.to_set().insert(x).contains(y) by {
        if t.to_set().contains(y) {
            let a = choose|a: int| 0 <= a < t.len() && t[a] == y;
            if a < s.len() {
                assert(s.contains(y));
            }
        }
        if s.to_set().contains(y) {
            let a = choose|a: int| 0 <= a < s.len() && s[a] == y;
            assert(t[a] == y);
        }
        if y == x {
            assert(t[s.len() as int] == x);
        }
    }
    assert(t.to_set() =~= s.to_set().insert(x));
}

/// The empty sequence has no duplicates and no elements.
pub proof fn lemma_empty_seq<A>(s: Seq<A>)
    requires
        s.len() == 0,
    ensures
        s.no_duplicates(),
        s.to_set() == Set::<A>::empty(),
{
    assert(s.to_set() =~= Set::<A>::empty());
}

} // verus!

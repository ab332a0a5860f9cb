//! Inverted-index full-text search.
//!
//! Text is split into lowercase terms; each document's term counts are kept,
//! together with an inverted index from each term to the documents that
//! hold it. Queries select documents holding every query term
//! (`And`, and `Phrase`, which is matched the same simplified way) or any
//! query term (`Or`); ranking by TF-IDF is left to the caller, which reads
//! the term and document frequencies from the index.

use vstd::prelude::*;
use vstd::string::{StrSliceExecFns, StringExecFns};
use crate::strmap::StrMap;
use crate::text::{is_alphanumeric, push_char, to_lowercase, unicode_alphanumeric, unicode_lowercase, word_views};

verus! {

// ── Tokenization ──────────────────────────────────────────────

/// Whether a character belongs to a term: alphanumeric or an apostrophe.
pub open spec fn is_term_char(c: char) -> bool {
    unicode_alphanumeric(c) || c == '\''
}

/// The stop words a tokenizer filters, as a set of character sequences.
pub open spec fn stop_set(stop: Option<Seq<String>>) -> Option<Set<Seq<char>>> {
    match stop {
        Some(s) => Some(word_views(s).to_set()),
        None => None,
    }
}

/// The stop words of an optional list.
pub open spec fn stop_option(stop_words: Option<&Vec<String>>) -> Option<Set<Seq<char>>> {
    match stop_words {
        Some(v) => stop_set(Some(v@)),
        None => None,
    }
}

/// Whether `w` is a stop word.
pub open spec fn is_stop(stop: Option<Set<Seq<char>>>, w: Seq<char>) -> bool {
    match stop {
        Some(st) => st.contains(w),
        None => false,
    }
}

/// The tokens after emitting the finished term `cur`, unless it is a stop
/// word.
pub open spec fn emit(toks: Seq<Seq<char>>, cur: Seq<char>, stop: Option<Set<Seq<char>>>) -> Seq<
    Seq<char>,
> {
    match stop {
        Some(st) => if st.contains(cur) {
            toks
        } else {
            toks.push(cur)
        },
        None => toks.push(cur),
    }
}

/// The tokens emitted and the term in progress after the first `n`
/// characters of `s`.
pub open spec fn scan(s: Seq<char>, n: int, stop: Option<Set<Seq<char>>>) -> (Seq<Seq<char>>, Seq<char>)
    decreases n,
{
    if n <= 0 {
        (Seq::empty(), Seq::empty())
    } else {
        let (toks, cur) = scan(s, n - 1, stop);
        let c = s[n - 1];
        if is_term_char(c) {
            (toks, cur + unicode_lowercase(seq![c]))
        } else if cur.len() > 0 {
            (emit(toks, cur, stop), Seq::empty())
        } else {
            (toks, cur)
        }
    }
}

/// The terms of `s`: maximal runs of term characters, each character
/// lowercased, stop words left out, in order of appearance.
pub open spec fn tokens(s: Seq<char>, stop: Option<Set<Seq<char>>>) -> Seq<Seq<char>> {
    let (toks, cur) = scan(s, s.len() as int, stop);
    if cur.len() > 0 {
        emit(toks, cur, stop)
    } else {
        toks
    }
}

/// How many times `t` occurs in `toks`.
pub open spec fn occurrences(toks: Seq<Seq<char>>, t: Seq<char>) -> nat
    decreases toks.len(),
{
    if toks.len() == 0 {
        0
    } else {
        occurrences(toks.drop_last(), t) + if toks.last() == t {
            1nat
        } else {
            0nat
        }
    }
}

/// The count of each term of `toks`.
pub open spec fn term_counts(toks: Seq<Seq<char>>) -> Map<Seq<char>, usize> {
    Map::new(|t: Seq<char>| toks.contains(t), |t: Seq<char>| occurrences(toks, t) as usize)
}

proof fn lemma_occurrences_bound(toks: Seq<Seq<char>>, t: Seq<char>)
    ensures
        occurrences(toks, t) <= toks.len(),
        occurrences(toks, t) > 0 <==> toks.contains(t),
    decreases toks.len(),
{
    if toks.len() > 0 {
        lemma_occurrences_bound(toks.drop_last(), t);
        if toks.drop_last().contains(t) {
            let i = choose|i: int| 0 <= i < toks.drop_last().len() && toks.drop_last()[i] == t;
            assert(toks[i] == t);
        }
        if toks.contains(t) && toks.last() != t {
            let i = choose|i: int| 0 <= i < toks.len() && toks[i] == t;
            assert(toks.drop_last()[i] == t);
        }
    }
}

fn is_stop_word(word: &String, stop_words: Option<&Vec<String>>) -> (r: bool)
    ensures
        r == is_stop(stop_option(stop_words), word@),
{
    match stop_words {
        None => false,
        Some(v) => {
            let ghost views = word_views(v@);
            let mut i: usize = 0;
            while i < v.len()
                invariant
                    i <= v@.len(),
                    views == word_views(v@),
                    stop_words == Some(v),
                    forall|j: int| 0 <= j < i ==> v@[j]@ != word@,
                decreases v@.len() - i,
            {
                if v[i] == *word {
                    assert(views[i as int] == word@);
                    assert(views.contains(word@));
                    assert(views.to_set().contains(word@));
                    assert(stop_set(Some(v@)) == Some(views.to_set()));

                    return true;
                }
                i = i + 1;
            }
            proof {
                if views.to_set().contains(word@) {
                    let j = choose|j: int| 0 <= j < views.len() && views[j] == word@;
                    assert(v@[j]@ == word@);
                }
            }
            false
        },
    }
}


/// Splits `text` into terms as `tokens` describes.
fn tokenize_text(text: &str, stop_words: Option<&Vec<String>>) -> (r: Vec<String>)
    ensures
        word_views(r@) == tokens(text@, stop_option(stop_words)),
{
    let ghost stop = stop_option(stop_words);
    let mut toks: Vec<String> = Vec::new();
    let mut current = String::new();
    let n = text.unicode_len();
    let mut i: usize = 0;
    while i < n
        invariant
            n == text@.len(),
            i <= n,
            stop == stop_option(stop_words),
            (word_views(toks@), current@) == scan(text@, i as int, stop),
        decreases n - i,
    {
        let ch = text.get_char(i);
        let ghost before = toks@;
        if is_alphanumeric(ch) || ch == '\'' {
            let mut one = String::new();
            push_char(&mut one, ch);
            let low = to_lowercase(one.as_str());
            assert(one@ =~= seq![ch]);
            current.append(low.as_str());
        } else {
            if !current.as_str().is_empty() {
                if !is_stop_word(&current, stop_words) {
                    toks.push(current.clone());
                    assert(word_views(toks@) =~= word_views(before).push(current@));
                }
                current = String::new();
            }
        }
        i = i + 1;
    }
    let ghost before = toks@;
    if !current.as_str().is_empty() {
        if !is_stop_word(&current, stop_words) {
            toks.push(current);
            assert(word_views(toks@) =~= word_views(before).push(current@));
        }
    }
    toks
}

// ── The index ─────────────────────────────────────────────────

/// Search mode for full-text queries.
#[derive(Debug, Clone, Copy, PartialEq, Eq, Structural)]
pub enum SearchMode {
    /// Every query term must match (intersection).
    And,
    /// Any term must match (union).
    Or,
    /// Phrase match, simplified: every phrase term must appear.
    Phrase,
}

/// No two entries share a document id.
pub open spec fn doc_ids_distinct(s: Seq<(u64, StrMap<usize>)>) -> bool {
    forall|i: int, j: int| 0 <= i < s.len() && 0 <= j < s.len() && i != j ==> #[trigger] s[i].0 != #[trigger] s[j].0
}

/// The term counts of each document.
pub open spec fn doc_map(s: Seq<(u64, StrMap<usize>)>) -> Map<u64, Map<Seq<char>, usize>> {
    Map::new(
        |d: u64| exists|i: int| 0 <= i < s.len() && s[i].0 == d,
        |d: u64| s[choose|i: int| 0 <= i < s.len() && s[i].0 == d].1@,
    )
}

/// The terms held by some document.
pub open spec fn terms_of(docs: Map<u64, Map<Seq<char>, usize>>) -> Set<Seq<char>> {
    Set::new(|t: Seq<char>| exists|d: u64| docs.contains_key(d) && #[trigger] docs[d].contains_key(t))
}

/// The documents that hold term `t`.
pub open spec fn docs_with(docs: Map<u64, Map<Seq<char>, usize>>, t: Seq<char>) -> Set<u64> {
    Set::new(|d: u64| docs.contains_key(d) && docs[d].contains_key(t))
}

/// The documents holding at least one of `terms`.
pub open spec fn any_set(docs: Map<u64, Map<Seq<char>, usize>>, terms: Seq<Seq<char>>) -> Set<u64> {
    Set::new(
        |d: u64|
            docs.contains_key(d) && exists|i: int|
                0 <= i < terms.len() && #[trigger] docs[d].contains_key(terms[i]),
    )
}

/// The documents holding every one of `terms`.
pub open spec fn all_set(docs: Map<u64, Map<Seq<char>, usize>>, terms: Seq<Seq<char>>) -> Set<u64> {
    Set::new(
        |d: u64|
            docs.contains_key(d) && forall|i: int| 0 <= i < terms.len() ==> #[trigger] docs[d].contains_key(terms[i]),
    )
}

/// The documents a query selects: none for an empty query or index; for
/// `Or` those holding any query term; otherwise those holding every query
/// term, so none when some query term is held by no document.
pub open spec fn candidate_set(
    docs: Map<u64, Map<Seq<char>, usize>>,
    terms: Seq<Seq<char>>,
    mode: SearchMode,
) -> Set<u64> {
    if terms.len() == 0 || docs.len() == 0 {
        Set::empty()
    } else {
        match mode {
            SearchMode::Or => any_set(docs, terms),
            _ => all_set(docs, terms),
        }
    }
}

/// The posting sets of an inverted index.
pub open spec fn posting_sets(m: Map<Seq<char>, Vec<u64>>) -> Map<Seq<char>, Set<u64>> {
    m.map_values(|v: Vec<u64>| v@.to_set())
}

/// The inverted index agrees with the documents: a term lists a document
/// exactly when that document holds the term.
pub open spec fn postings_agree(
    p: Map<Seq<char>, Set<u64>>,
    docs: Map<u64, Map<Seq<char>, usize>>,
) -> bool {
    forall|t: Seq<char>, d: u64|
        #![trigger p[t].contains(d)]
        #![trigger docs[d].contains_key(t)]
        (p.contains_key(t) && p[t].contains(d)) <==> (docs.contains_key(d) && docs[d].contains_key(t))
}

/// Every posting list is non-empty and lists a document once.
pub open spec fn postings_tidy(m: Map<Seq<char>, Vec<u64>>) -> bool {
    forall|t: Seq<char>| #[trigger] m.contains_key(t) ==> m[t]@.len() > 0 && m[t]@.no_duplicates()
}

proof fn lemma_seq_remove_set(s: Seq<u64>, i: int)
    requires
        s.no_duplicates(),
        0 <= i < s.len(),
    ensures
        s.remove(i).no_duplicates(),
        s.remove(i).to_set() == s.to_set().remove(s[i]),
        s.remove(i).len() == s.len() - 1,
{
    let t = s.remove(i);
    assert forall|a: int| 0 <= a < t.len() implies #[trigger] t[a] == s[if a < i {
        a
    } else {
        a + 1
    }] by {}
    assert forall|a: int, b: int| 0 <= a < t.len() && 0 <= b < t.len() && a != b implies t[a] != t[b] by {
        let a2 = if a < i { a } else { a + 1 };
        let b2 = if b < i { b } else { b + 1 };
        assert(t[a] == s[a2] && t[b] == s[b2]);
    }
    assert forall|x: u64| t.to_set().contains(x) <==> s.to_set().remove(s[i]).contains(x) by {
        if t.to_set().contains(x) {
            let a = choose|a: int| 0 <= a < t.len() && t[a] == x;
            let a2 = if a < i { a } else { a + 1 };
            assert(t[a] == s[a2]);
            assert(s.contains(x));
        }
        if s.to_set().remove(s[i]).contains(x) {
            let b = choose|b: int| 0 <= b < s.len() && s[b] == x;
            assert(b != i);
            let b2 = if b < i { b } else { b - 1 };
            assert(t[b2] == s[b]);
            assert(t.contains(x));
        }
    }
    assert(t.to_set() =~= s.to_set().remove(s[i]));
}

proof fn lemma_seq_push_set(s: Seq<u64>, x: u64)
    requires
        s.no_duplicates(),
        !s.contains(x),
    ensures
        s.push(x).no_duplicates(),
        s.push(x).to_set() == s.to_set().insert(x),
{
    let t = s.push(x);
    assert forall|a: int, b: int| 0 <= a < t.len() && 0 <= b < t.len() && a != b implies t[a] != t[b] by {
        if a < s.len() && b < s.len() {
        } else if a < s.len() {
            assert(s.contains(t[a]));
        } else {
            assert(s.contains(t[b]));
        }
    }
    assert forall|y: u64| t.to_set().contains(y) <==> s.to_set().insert(x).contains(y) by {
        if t.to_set().contains(y) {
            let a = choose|a: int| 0 <= a < t.len() && t[a] == y;
            if a < s.len() {
                assert(s.contains(y));
            }
        }
        if s.to_set().contains(y) {
            let a = choose|a: int| 0 <= a < s.len() && s[a] == y;
            assert(t[a] == y);
        }
        if y == x {
            assert(t[s.len() as int] == x);
        }
    }
    assert(t.to_set() =~= s.to_set().insert(x));
}

proof fn lemma_empty_seq_set(s: Seq<u64>)
    ensures
        s.len() == 0 <==> s.to_set() == Set::<u64>::empty(),
{
    if s.len() > 0 {
        assert(s.to_set().contains(s[0]));
    } else {
        assert(s.to_set() =~= Set::<u64>::empty());
    }
}

fn vec_position(v: &Vec<u64>, x: u64) -> (r: Option<usize>)
    ensures
        r is None <==> !v@.contains(x),
        r matches Some(i) ==> i < v@.len() && v@[i as int] == x,
{
    let mut i: usize = 0;
    while i < v.len()
        invariant
            i <= v@.len(),
            forall|j: int| 0 <= j < i ==> v@[j] != x,
        decreases v@.len() - i,
    {
        if v[i] == x {
            return Some(i);
        }
        i = i + 1;
    }
    None
}

/// A full-text search index for a single collection.
pub struct FullTextIndex {
    /// Term to the documents that hold it.
    inverted_index: StrMap<Vec<u64>>,
    /// Document to its term counts.
    doc_frequencies: Vec<(u64, StrMap<usize>)>,
    /// Number of indexed documents.
    total_docs: u64,
    /// Words left out when tokenizing.
    stop_words: Option<Vec<String>>,
}

impl View for FullTextIndex {
    type V = Map<u64, Map<Seq<char>, usize>>;

    /// Each indexed document's term counts.
    closed spec fn view(&self) -> Map<u64, Map<Seq<char>, usize>> {
        doc_map(self.doc_frequencies@)
    }
}

impl FullTextIndex {
    /// The inverted index, as a map from term to document set.
    pub closed spec fn postings(&self) -> Map<Seq<char>, Set<u64>> {
        posting_sets(self.inverted_index@)
    }

    /// The stop words the index filters.
    pub closed spec fn stop(&self) -> Option<Set<Seq<char>>> {
        match self.stop_words {
            Some(v) => stop_set(Some(v@)),
            None => None,
        }
    }

    pub closed spec fn wf(&self) -> bool {
        &&& self.inverted_index.wf()
        &&& doc_ids_distinct(self.doc_frequencies@)
        &&& forall|i: int|
            0 <= i < self.doc_frequencies@.len() ==> (#[trigger] self.doc_frequencies@[i]).1.wf()
        &&& self.total_docs == self.doc_frequencies@.len()
        &&& postings_tidy(self.inverted_index@)
        &&& postings_agree(self.postings(), self@)
    }

    proof fn lemma_doc_map(&self, i: int)
        requires
            doc_ids_distinct(self.doc_frequencies@),
            0 <= i < self.doc_frequencies@.len(),
        ensures
            self@.contains_key(self.doc_frequencies@[i].0),
            self@[self.doc_frequencies@[i].0] == self.doc_frequencies@[i].1@,
    {
        let s = self.doc_frequencies@;
        let d = s[i].0;
        let j = choose|j: int| 0 <= j < s.len() && s[j].0 == d;
        if j != i {
            assert(s[j].0 != s[i].0);
        }
    }

    proof fn lemma_doc_len(&self)
        requires
            doc_ids_distinct(self.doc_frequencies@),
        ensures
            self@.dom() == self.doc_frequencies@.map_values(|e: (u64, StrMap<usize>)| e.0).to_set(),
            self@.len() == self.doc_frequencies@.len(),
    {
        let s = self.doc_frequencies@;
        let ks = s.map_values(|e: (u64, StrMap<usize>)| e.0);
        assert forall|d: u64| self@.dom().contains(d) <==> ks.to_set().contains(d) by {
            if self@.dom().contains(d) {
                let i = choose|i: int| 0 <= i < s.len() && s[i].0 == d;
                assert(ks[i] == d);
            }
            if ks.to_set().contains(d) {
                let i = choose|i: int| 0 <= i < ks.len() && ks[i] == d;
                assert(s[i].0 == d);
            }
        }
        assert(self@.dom() =~= ks.to_set());
        assert(ks.no_duplicates()) by {
            assert forall|a: int, b: int| 0 <= a < ks.len() && 0 <= b < ks.len() && a != b implies ks[a] != ks[b] by {
                assert(s[a].0 != s[b].0);
            }
        }
        ks.unique_seq_to_set();
    }

    /// An empty index with no stop words.
    pub fn new() -> (idx: Self)
        ensures
            idx.wf(),
            idx@ == Map::<u64, Map<Seq<char>, usize>>::empty(),
            idx.stop() is None,
    {
        let idx = FullTextIndex {
            inverted_index: StrMap::new(),
            doc_frequencies: Vec::new(),
            total_docs: 0,
            stop_words: None,
        };
        assert(idx@ =~= Map::<u64, Map<Seq<char>, usize>>::empty());
        assert(idx.postings() =~= Map::<Seq<char>, Set<u64>>::empty());
        idx
    }

    /// An empty index that leaves out the given stop words.
    pub fn with_stop_words(stop_words: Vec<String>) -> (idx: Self)
        ensures
            idx.wf(),
            idx@ == Map::<u64, Map<Seq<char>, usize>>::empty(),
            idx.stop() == stop_set(Some(stop_words@)),
    {
        let idx = FullTextIndex {
            inverted_index: StrMap::new(),
            doc_frequencies: Vec::new(),
            total_docs: 0,
            stop_words: Some(stop_words),
        };
        assert(idx@ =~= Map::<u64, Map<Seq<char>, usize>>::empty());
        assert(idx.postings() =~= Map::<Seq<char>, Set<u64>>::empty());
        idx
    }

    /// Splits `text` into lowercase terms, leaving out stop words.
    pub fn tokenize(text: &str, stop_words: Option<&Vec<String>>) -> (r: Vec<String>)
        ensures
            word_views(r@) == tokens(text@, stop_option(stop_words)),
    {
        tokenize_text(text, stop_words)
    }

    /// A well-formed index holds finitely many documents.
    pub proof fn lemma_documents_finite(&self)
        requires
            self.wf(),
        ensures
            self@.dom().finite(),
    {
        self.lemma_doc_len();
        broadcast use vstd::seq_lib::seq_to_set_is_finite;
    }

    /// Number of indexed documents.
    pub fn len(&self) -> (n: u64)
        requires
            self.wf(),
        ensures
            n == self@.len(),
    {
        proof {
            self.lemma_doc_len();
        }
        self.total_docs
    }

    /// Whether no document is indexed.
    pub fn is_empty(&self) -> (b: bool)
        requires
            self.wf(),
        ensures
            b == (self@.len() == 0),
    {
        proof {
            self.lemma_doc_len();
        }
        self.total_docs == 0
    }

    fn find_doc(&self, doc_id: u64) -> (r: Option<usize>)
        requires
            doc_ids_distinct(self.doc_frequencies@),
        ensures
            r is None <==> !self@.contains_key(doc_id),
            r matches Some(i) ==> i < self.doc_frequencies@.len() && self.doc_frequencies@[i as int].0
                == doc_id,
    {
        let mut i: usize = 0;
        while i < self.doc_frequencies.len()
            invariant
                i <= self.doc_frequencies@.len(),
                forall|j: int| 0 <= j < i ==> self.doc_frequencies@[j].0 != doc_id,
            decreases self.doc_frequencies@.len() - i,
        {
            if self.doc_frequencies[i].0 == doc_id {
                return Some(i);
            }
            i = i + 1;
        }
        None
    }
}

/// The inverted index after taking document `d` out of the postings of the
/// terms in `ks`; a term whose posting becomes empty goes away.
pub open spec fn strip_doc(p: Map<Seq<char>, Set<u64>>, d: u64, ks: Set<Seq<char>>) -> Map<
    Seq<char>,
    Set<u64>,
> {
    Map::new(
        |t: Seq<char>| p.contains_key(t) && !(ks.contains(t) && p[t].remove(d) == Set::<u64>::empty()),
        |t: Seq<char>| if ks.contains(t) {
            p[t].remove(d)
        } else {
            p[t]
        },
    )
}

/// The inverted index after adding document `d` to the postings of the
/// terms in `ks`.
pub open spec fn add_doc(p: Map<Seq<char>, Set<u64>>, d: u64, ks: Set<Seq<char>>) -> Map<
    Seq<char>,
    Set<u64>,
> {
    Map::new(
        |t: Seq<char>| p.contains_key(t) || ks.contains(t),
        |t: Seq<char>| if ks.contains(t) {
            (if p.contains_key(t) {
                p[t]
            } else {
                Set::<u64>::empty()
            }).insert(d)
        } else {
            p[t]
        },
    )
}

proof fn lemma_strip_agrees(p: Map<Seq<char>, Set<u64>>, docs: Map<u64, Map<Seq<char>, usize>>, d: u64)
    requires
        postings_agree(p, docs),
        docs.contains_key(d),
    ensures
        postings_agree(strip_doc(p, d, docs[d].dom()), docs.remove(d)),
{
    let q = strip_doc(p, d, docs[d].dom());
    let nd = docs.remove(d);
    let ks = docs[d].dom();
    assert forall|t: Seq<char>, d2: u64|
        #![trigger q[t].contains(d2)]
        #![trigger nd[d2].contains_key(t)]
        (q.contains_key(t) && q[t].contains(d2)) <==> (nd.contains_key(d2) && nd[d2].contains_key(t)) by {
        assert((p.contains_key(t) && p[t].contains(d2)) <==> (docs.contains_key(d2)
            && docs[d2].contains_key(t)));
        assert((p.contains_key(t) && p[t].contains(d)) <==> (docs.contains_key(d)
            && docs[d].contains_key(t)));
        if d2 != d {
            if nd.contains_key(d2) {
                assert(nd[d2] == docs[d2]);
            }
            if ks.contains(t) && p.contains_key(t) && p[t].contains(d2) {
                assert(p[t].remove(d).contains(d2));
            }
        }
    }
}

proof fn lemma_add_agrees(p: Map<Seq<char>, Set<u64>>, docs: Map<u64, Map<Seq<char>, usize>>, d: u64, counts: Map<Seq<char>, usize>)
    requires
        postings_agree(p, docs),
        !docs.contains_key(d),
    ensures
        postings_agree(add_doc(p, d, counts.dom()), docs.insert(d, counts)),
{
    let q = add_doc(p, d, counts.dom());
    let nd = docs.insert(d, counts);
    assert forall|t: Seq<char>, d2: u64|
        #![trigger q[t].contains(d2)]
        #![trigger nd[d2].contains_key(t)]
        (q.contains_key(t) && q[t].contains(d2)) <==> (nd.contains_key(d2) && nd[d2].contains_key(t)) by {
        assert((p.contains_key(t) && p[t].contains(d2)) <==> (docs.contains_key(d2)
            && docs[d2].contains_key(t)));
        assert((p.contains_key(t) && p[t].contains(d)) <==> (docs.contains_key(d)
            && docs[d].contains_key(t)));
        if d2 != d {
            if nd.contains_key(d2) {
                assert(nd[d2] == docs[d2]);
            }
        } else {
            assert(nd[d] == counts);
        }
    }
}

proof fn lemma_doc_map_remove(s: Seq<(u64, StrMap<usize>)>, i: int)
    requires
        doc_ids_distinct(s),
        0 <= i < s.len(),
    ensures
        doc_ids_distinct(s.remove(i)),
        doc_map(s.remove(i)) == doc_map(s).remove(s[i].0),
        forall|a: int| 0 <= a < s.remove(i).len() ==> #[trigger] s.remove(i)[a] == s[if a < i {
            a
        } else {
            a + 1
        }],
{
    let t = s.remove(i);
    assert forall|a: int| 0 <= a < t.len() implies #[trigger] t[a] == s[if a < i {
        a
    } else {
        a + 1
    }] by {}
    assert forall|a: int, b: int| 0 <= a < t.len() && 0 <= b < t.len() && a != b implies #[trigger] t[a].0
        != #[trigger] t[b].0 by {
        let a2 = if a < i { a } else { a + 1 };
        let b2 = if b < i { b } else { b + 1 };
        assert(t[a] == s[a2] && t[b] == s[b2]);
    }
    let d = s[i].0;
    assert forall|x: u64| #[trigger] doc_map(t).contains_key(x) <==> doc_map(s).remove(d).contains_key(x) by {
        if doc_map(t).contains_key(x) {
            let a = choose|a: int| 0 <= a < t.len() && t[a].0 == x;
            let a2 = if a < i { a } else { a + 1 };
            assert(t[a] == s[a2]);
            assert(s[a2].0 != s[i].0);
        }
        if doc_map(s).remove(d).contains_key(x) {
            let b = choose|b: int| 0 <= b < s.len() && s[b].0 == x;
            assert(b != i);
            let b2 = if b < i { b } else { b - 1 };
            assert(t[b2] == s[b]);
        }
    }
    assert forall|x: u64| #[trigger] doc_map(t).contains_key(x) implies doc_map(t)[x] == doc_map(s)[x] by {
        let a = choose|a: int| 0 <= a < t.len() && t[a].0 == x;
        let a2 = if a < i { a } else { a + 1 };
        assert(t[a] == s[a2]);
        let b = choose|b: int| 0 <= b < s.len() && s[b].0 == x;
        if b != a2 {
            assert(s[b].0 != s[a2].0);
        }
    }
    assert(doc_map(t) =~= doc_map(s).remove(d));
}

proof fn lemma_doc_map_push(s: Seq<(u64, StrMap<usize>)>, e: (u64, StrMap<usize>))
    requires
        doc_ids_distinct(s),
        !doc_map(s).contains_key(e.0),
    ensures
        doc_ids_distinct(s.push(e)),
        doc_map(s.push(e)) == doc_map(s).insert(e.0, e.1@),
{
    let t = s.push(e);
    let n = s.len() as int;
    assert forall|a: int, b: int| 0 <= a < t.len() && 0 <= b < t.len() && a != b implies #[trigger] t[a].0
        != #[trigger] t[b].0 by {
        if a < n && b < n {
            assert(t[a] == s[a] && t[b] == s[b]);
        } else if a < n {
            assert(t[a] == s[a]);
        } else {
            assert(t[b] == s[b]);
        }
    }
    assert forall|x: u64| #[trigger] doc_map(t).contains_key(x) <==> doc_map(s).insert(e.0, e.1@).contains_key(x) by {
        if doc_map(t).contains_key(x) && x != e.0 {
            let a = choose|a: int| 0 <= a < t.len() && t[a].0 == x;
            assert(a < n);
            assert(t[a] == s[a]);
        }
        if doc_map(s).contains_key(x) {
            let b = choose|b: int| 0 <= b < s.len() && s[b].0 == x;
            assert(t[b] == s[b]);
        }
        if x == e.0 {
            assert(t[n].0 == x);
        }
    }
    assert forall|x: u64| #[trigger] doc_map(t).contains_key(x) implies doc_map(t)[x] == doc_map(s).insert(
        e.0,
        e.1@,
    )[x] by {
        let a = choose|a: int| 0 <= a < t.len() && t[a].0 == x;
        if x == e.0 {
            if a != n {
                assert(t[a].0 != t[n].0);
            }
        } else {
            assert(a < n);
            assert(t[a] == s[a]);
            let b = choose|b: int| 0 <= b < s.len() && s[b].0 == x;
            if b != a {
                assert(s[b].0 != s[a].0);
            }
        }
    }
    assert(doc_map(t) =~= doc_map(s).insert(e.0, e.1@));
}

fn copy_ids(v: &Vec<u64>) -> (r: Vec<u64>)
    ensures
        r@ == v@,
{
    let mut r: Vec<u64> = Vec::new();
    let mut i: usize = 0;
    while i < v.len()
        invariant
            i <= v@.len(),
            r@ == v@.take(i as int),
        decreases v@.len() - i,
    {
        r.push(v[i]);
        assert(v@.take(i + 1) =~= v@.take(i as int).push(v@[i as int]));
        i = i + 1;
    }
    assert(v@.take(i as int) =~= v@);
    r
}

impl FullTextIndex {
    /// Removes a document and all its term associations; nothing happens
    /// when it is not indexed.
    pub fn remove_document(&mut self, doc_id: u64)
        requires
            old(self).wf(),
        ensures
            final(self).wf(),
            final(self)@ == old(self)@.remove(doc_id),
            final(self)@.len() == old(self)@.len() - (if old(self)@.contains_key(doc_id) {
                1int
            } else {
                0int
            }),
            final(self).stop() == old(self).stop(),
    {
        proof {
            old(self).lemma_documents_finite();
        }
        match self.find_doc(doc_id) {
            None => {
                assert(old(self)@.remove(doc_id) =~= old(self)@);
            },
            Some(i) => {
                let ghost docs0 = self@;
                let ghost p0 = self.postings();
                let ghost s0 = self.doc_frequencies@;
                proof {
                    self.lemma_doc_map(i as int);
                    lemma_doc_map_remove(s0, i as int);
                }
                let entry = self.doc_frequencies.remove(i);
                let counts = entry.1;
                assert(counts.wf());
                assert(counts@ == docs0[doc_id]);
                assert(self@ == docs0.remove(doc_id));
                let n = counts.entry_count();
                let ghost keys = counts.key_seq();
                proof {
                    counts.lemma_view();
                    assert(strip_doc(p0, doc_id, keys.take(0).to_set()) =~= p0);
                }
                let mut k: usize = 0;
                while k < n
                    invariant
                        counts.wf(),
                        n == counts.entry_seq().len(),
                        keys == counts.key_seq(),
                        keys.no_duplicates(),
                        keys.len() == n,
                        k <= n,
                        self.inverted_index.wf(),
                        postings_tidy(self.inverted_index@),
                        self.postings() == strip_doc(p0, doc_id, keys.take(k as int).to_set()),
                        self.doc_frequencies@ == s0.remove(i as int),
                        self.stop_words == old(self).stop_words,
                        i < s0.len(),
                        doc_ids_distinct(s0),
                        forall|a: int| 0 <= a < s0.len() ==> (#[trigger] s0[a]).1.wf(),
                        docs0 == doc_map(s0),
                    decreases n - k,
                {
                    let term = counts.key_at(k);
                    let ghost ks = keys.take(k as int).to_set();
                    let ghost t = term@;
                    let ghost cur = self.postings();
                    assert(keys[k as int] == t);
                    assert(!ks.contains(t)) by {
                        if ks.contains(t) {
                            let j = choose|j: int| 0 <= j < k && #[trigger] keys.take(k as int)[j] == t;
                            assert(keys[j] == keys[k as int]);
                        }
                    }
                    assert(keys.take(k + 1).to_set() =~= ks.insert(t)) by {
                        assert(keys.take(k + 1) =~= keys.take(k as int).push(t));
                        assert forall|x: Seq<char>| keys.take(k + 1).to_set().contains(x) <==> ks.insert(t).contains(x) by {
                            if keys.take(k + 1).to_set().contains(x) {
                                let j = choose|j: int| 0 <= j < k + 1 && #[trigger] keys.take(k + 1)[j] == x;
                                if j < k {
                                    assert(keys.take(k as int)[j] == x);
                                }
                            }
                            if ks.contains(x) {
                                let j = choose|j: int| 0 <= j < k && #[trigger] keys.take(k as int)[j] == x;
                                assert(keys.take(k + 1)[j] == x);
                            }
                            if x == t {
                                assert(keys.take(k + 1)[k as int] == x);
                            }
                        }
                    }
                    let ghost target = strip_doc(p0, doc_id, ks.insert(t));
                    match self.inverted_index.find(term) {
                        Some(j) => {
                            assert(self.inverted_index@.contains_key(t));
                            assert(cur.contains_key(t));
                            assert(p0.contains_key(t));
                            let mut docs = copy_ids(self.inverted_index.value_at(j));
                            proof {
                                self.inverted_index.lemma_view();
                                assert(docs@ == self.inverted_index@[t]@);
                                assert(cur[t] == docs@.to_set());
                                assert(cur[t] == p0[t]);
                            }
                            let ghost before_docs = docs@;
                            match vec_position(&docs, doc_id) {
                                Some(pos) => {
                                    proof {
                                        lemma_seq_remove_set(before_docs, pos as int);
                                    }
                                    docs.remove(pos);
                                },
                                None => {
                                    assert(before_docs.to_set().remove(doc_id) =~= before_docs.to_set());
                                },
                            }
                            assert(docs@.to_set() == p0[t].remove(doc_id));
                            assert(docs@.no_duplicates());
                            proof {
                                lemma_empty_seq_set(docs@);
                            }
                            if docs.len() == 0 {
                                let ghost m0 = self.inverted_index@;
                                self.inverted_index.remove(term);
                                assert(posting_sets(m0.remove(t)) =~= posting_sets(m0).remove(t));
                                assert(p0[t].remove(doc_id) == Set::<u64>::empty());
                                assert(self.postings() =~= target);
                            } else {
                                let ghost dv = docs@;
                                let ghost m0 = self.inverted_index@;
                                self.inverted_index.set_value_at(j, docs);
                                assert(self.inverted_index@ == m0.insert(t, self.inverted_index@[t]));
                                assert(self.inverted_index@[t]@ == dv);
                                assert(posting_sets(self.inverted_index@) =~= posting_sets(m0).insert(t, dv.to_set()));
                                assert(dv.to_set() != Set::<u64>::empty());
                                assert(p0.contains_key(t));
                                assert(target.contains_key(t));
                                assert(target[t] == dv.to_set());
                                assert(posting_sets(m0) == cur);
                                assert(self.postings() =~= target);
                            }
                        },
                        None => {
                            assert(!self.inverted_index@.contains_key(t));
                            assert(!cur.contains_key(t));
                            assert(!p0.contains_key(t));
                            assert(self.postings() =~= target);
                        },
                    }
                    k = k + 1;
                }
                proof {
                    assert(keys.take(n as int) =~= keys);
                    counts.lemma_view();
                    assert(keys.to_set() == docs0[doc_id].dom());
                    lemma_strip_agrees(p0, docs0, doc_id);
                    let t = self.doc_frequencies@;
                    assert forall|a: int| 0 <= a < t.len() implies (#[trigger] t[a]).1.wf() by {
                        let a2 = if a < i { a } else { a + 1 };
                        assert(t[a] == s0[a2]);
                    }
                }
                self.total_docs = self.doc_frequencies.len() as u64;
            },
        }
    }
}

proof fn lemma_term_counts_push(s: Seq<Seq<char>>, t: Seq<char>)
    requires
        occurrences(s, t) + 1 <= usize::MAX,
    ensures
        term_counts(s.push(t)) == term_counts(s).insert(t, (occurrences(s, t) + 1) as usize),
{
    let u = s.push(t);
    assert(u.drop_last() =~= s);
    assert forall|x: Seq<char>| u.contains(x) <==> (s.contains(x) || x == t) by {
        if u.contains(x) {
            let a = choose|a: int| 0 <= a < u.len() && u[a] == x;
            if a < s.len() {
                assert(s[a] == x);
            }
        }
        if s.contains(x) {
            let a = choose|a: int| 0 <= a < s.len() && s[a] == x;
            assert(u[a] == x);
        }
        if x == t {
            assert(u[s.len() as int] == x);
        }
    }
    assert(term_counts(u) =~= term_counts(s).insert(t, (occurrences(s, t) + 1) as usize));
}

proof fn lemma_take_push_set(s: Seq<Seq<char>>, i: int)
    requires
        0 <= i < s.len(),
    ensures
        s.take(i + 1).to_set() == s.take(i).to_set().insert(s[i]),
{
    assert(s.take(i + 1) =~= s.take(i).push(s[i]));
    assert forall|x: Seq<char>| s.take(i + 1).to_set().contains(x) <==> s.take(i).to_set().insert(s[i]).contains(x) by {
        if s.take(i + 1).contains(x) {
            let a = choose|a: int| 0 <= a < i + 1 && #[trigger] s.take(i + 1)[a] == x;
            if a < i {
                assert(s.take(i)[a] == x);
            }
        }
        if s.take(i).contains(x) {
            let a = choose|a: int| 0 <= a < i && #[trigger] s.take(i)[a] == x;
            assert(s.take(i + 1)[a] == x);
        }
        if x == s[i] {
            assert(s.take(i + 1)[i] == x);
        }
    }
    assert(s.take(i + 1).to_set() =~= s.take(i).to_set().insert(s[i]));
}

/// Counts how often each token occurs.
fn count_terms(toks: &Vec<String>) -> (counts: StrMap<usize>)
    ensures
        counts.wf(),
        counts@ == term_counts(word_views(toks@)),
{
    let ghost views = word_views(toks@);
    let mut counts: StrMap<usize> = StrMap::new();
    let mut i: usize = 0;
    assert(views.take(0) =~= Seq::<Seq<char>>::empty());
    assert(counts@ =~= term_counts(views.take(0)));
    while i < toks.len()
        invariant
            i <= toks@.len(),
            views == word_views(toks@),
            counts.wf(),
            counts@ == term_counts(views.take(i as int)),
        decreases toks@.len() - i,
    {
        let tok = &toks[i];
        let ghost pre = views.take(i as int);
        assert(views[i as int] == tok@);
        proof {
            lemma_occurrences_bound(pre, tok@);
            lemma_term_counts_push(pre, tok@);
            assert(views.take(i + 1) =~= pre.push(tok@));
        }
        let c = match counts.get(tok) {
            Some(c) => *c,
            None => 0,
        };
        counts.insert(tok.clone(), c + 1);
        i = i + 1;
    }
    assert(views.take(toks@.len() as int) =~= views);
    counts
}

impl FullTextIndex {
    /// The index's stop words as an optional reference.
    fn stop_ref(&self) -> (r: Option<&Vec<String>>)
        ensures
            stop_option(r) == self.stop(),
    {
        match &self.stop_words {
            Some(v) => Some(v),
            None => None,
        }
    }

    /// Indexes `text` as document `doc_id`: its terms and their counts
    /// replace whatever the document held before.
    pub fn index_document(&mut self, doc_id: u64, text: &str)
        requires
            old(self).wf(),
        ensures
            final(self).wf(),
            final(self)@ == old(self)@.insert(doc_id, term_counts(tokens(text@, old(self).stop()))),
            final(self).stop() == old(self).stop(),
    {
        if self.find_doc(doc_id).is_some() {
            self.remove_document(doc_id);
        } else {
            assert(old(self)@.remove(doc_id) =~= old(self)@);
        }
        assert(!self@.contains_key(doc_id));
        let toks = Self::tokenize(text, self.stop_ref());
        let ghost views = word_views(toks@);
        let counts = count_terms(&toks);
        let ghost p0 = self.postings();
        let ghost docs0 = self@;
        let ghost s0 = self.doc_frequencies@;
        proof {
            assert(add_doc(p0, doc_id, views.take(0).to_set()) =~= p0);
        }
        let mut i: usize = 0;
        while i < toks.len()
            invariant
                i <= toks@.len(),
                views == word_views(toks@),
                self.inverted_index.wf(),
                postings_tidy(self.inverted_index@),
                self.postings() == add_doc(p0, doc_id, views.take(i as int).to_set()),
                self.doc_frequencies@ == s0,
                self.total_docs == s0.len(),
                self.stop() == old(self).stop(),
                docs0 == doc_map(s0),
                docs0 == old(self)@.remove(doc_id),
                doc_ids_distinct(s0),
                forall|a: int| 0 <= a < s0.len() ==> (#[trigger] s0[a]).1.wf(),
                counts.wf(),
                counts@ == term_counts(views),
                !docs0.contains_key(doc_id),
                postings_agree(p0, docs0),
            decreases toks@.len() - i,
        {
            let tok = &toks[i];
            let ghost t = tok@;
            let ghost ks = views.take(i as int).to_set();
            let ghost cur = self.postings();
            let ghost target = add_doc(p0, doc_id, ks.insert(t));
            proof {
                assert(views[i as int] == t);
                lemma_take_push_set(views, i as int);
                if p0.contains_key(t) {
                    assert(!p0[t].contains(doc_id));
                }
            }
            match self.inverted_index.find(tok) {
                Some(j) => {
                    proof {
                        self.inverted_index.lemma_view();
                    }
                    assert(self.inverted_index@.contains_key(t));
                    assert(cur.contains_key(t));
                    let mut docs = copy_ids(self.inverted_index.value_at(j));
                    assert(docs@ == self.inverted_index@[t]@);
                    assert(cur[t] == docs@.to_set());
                    let ghost before_docs = docs@;
                    if vec_position(&docs, doc_id).is_none() {
                        proof {
                            lemma_seq_push_set(before_docs, doc_id);
                        }
                        docs.push(doc_id);
                    } else {
                        assert(ks.contains(t));
                        assert(before_docs.to_set().insert(doc_id) =~= before_docs.to_set());
                    }
                    assert(docs@.to_set() == before_docs.to_set().insert(doc_id));
                    let ghost dv = docs@;
                    let ghost m0 = self.inverted_index@;
                    self.inverted_index.set_value_at(j, docs);
                    assert(self.inverted_index@ == m0.insert(t, self.inverted_index@[t]));
                    assert(posting_sets(self.inverted_index@) =~= posting_sets(m0).insert(t, dv.to_set()));
                    assert(posting_sets(m0) == cur);
                    assert(target[t] == dv.to_set());
                    assert(self.postings() =~= target);
                },
                None => {
                    assert(!self.inverted_index@.contains_key(t));
                    assert(!cur.contains_key(t));
                    assert(!p0.contains_key(t));
                    let mut v: Vec<u64> = Vec::new();
                    v.push(doc_id);
                    assert(v@.to_set() =~= Set::<u64>::empty().insert(doc_id)) by {
                        assert(v@[0] == doc_id);
                    }
                    let ghost m0 = self.inverted_index@;
                    let ghost vv = v@;
                    self.inverted_index.insert(tok.clone(), v);
                    assert(posting_sets(self.inverted_index@) =~= posting_sets(m0).insert(t, vv.to_set()));
                    assert(self.postings() =~= target);
                },
            }
            i = i + 1;
        }
        proof {
            assert(views.take(toks@.len() as int) =~= views);
            assert(views.to_set() =~= counts@.dom());
            lemma_add_agrees(p0, docs0, doc_id, counts@);
            lemma_doc_map_push(s0, (doc_id, counts));
        }
        let ghost cv = counts@;
        self.doc_frequencies.push((doc_id, counts));
        self.total_docs = self.doc_frequencies.len() as u64;
        proof {
            let t = self.doc_frequencies@;
            assert forall|a: int| 0 <= a < t.len() implies (#[trigger] t[a]).1.wf() by {
                if a < s0.len() {
                    assert(t[a] == s0[a]);
                }
            }
            assert(old(self)@.insert(doc_id, cv) =~= docs0.insert(doc_id, cv));
        }
    }
}

proof fn lemma_any_step(docs: Map<u64, Map<Seq<char>, usize>>, terms: Seq<Seq<char>>, i: int)
    requires
        0 <= i < terms.len(),
    ensures
        any_set(docs, terms.take(0)) == Set::<u64>::empty(),
        any_set(docs, terms.take(i + 1)) == any_set(docs, terms.take(i)).union(docs_with(docs, terms[i])),
{
    assert(any_set(docs, terms.take(0)) =~= Set::<u64>::empty());
    let a = terms.take(i);
    let b = terms.take(i + 1);
    assert forall|d: u64| any_set(docs, b).contains(d) <==> any_set(docs, a).union(docs_with(docs, terms[i])).contains(d) by {
        if any_set(docs, b).contains(d) {
            let j = choose|j: int| 0 <= j < b.len() && #[trigger] docs[d].contains_key(b[j]);
            if j < i {
                assert(a[j] == b[j]);
            } else {
                assert(b[j] == terms[i]);
            }
        }
        if any_set(docs, a).contains(d) {
            let j = choose|j: int| 0 <= j < a.len() && #[trigger] docs[d].contains_key(a[j]);
            assert(b[j] == a[j]);
        }
        if docs_with(docs, terms[i]).contains(d) {
            assert(b[i] == terms[i]);
        }
    }
    assert(any_set(docs, b) =~= any_set(docs, a).union(docs_with(docs, terms[i])));
}

proof fn lemma_all_step(docs: Map<u64, Map<Seq<char>, usize>>, terms: Seq<Seq<char>>, i: int)
    requires
        0 <= i < terms.len(),
    ensures
        all_set(docs, terms.take(0)) == docs.dom(),
        all_set(docs, terms.take(i + 1)) == all_set(docs, terms.take(i)).intersect(docs_with(docs, terms[i])),
{
    let a = terms.take(i);
    let b = terms.take(i + 1);
    assert(all_set(docs, terms.take(0)) =~= docs.dom());
    assert forall|d: u64|
        all_set(docs, b).contains(d) <==> all_set(docs, a).intersect(docs_with(docs, terms[i])).contains(d) by {
        if all_set(docs, b).contains(d) {
            assert(b[i] == terms[i]);
            assert(docs[d].contains_key(b[i]));
            assert forall|j: int| 0 <= j < a.len() implies #[trigger] docs[d].contains_key(a[j]) by {
                assert(b[j] == a[j]);
                assert(docs[d].contains_key(b[j]));
            }
        }
        if all_set(docs, a).intersect(docs_with(docs, terms[i])).contains(d) {
            assert forall|j: int| 0 <= j < b.len() implies #[trigger] docs[d].contains_key(b[j]) by {
                if j < i {
                    assert(a[j] == b[j]);
                    assert(docs[d].contains_key(a[j]));
                }
            }
        }
    }
    assert(all_set(docs, b) =~= all_set(docs, a).intersect(docs_with(docs, terms[i])));
}

/// Adds to `r` each id of `v` that it does not hold yet.
fn extend_unique(r: &mut Vec<u64>, v: &Vec<u64>)
    requires
        old(r)@.no_duplicates(),
    ensures
        final(r)@.no_duplicates(),
        final(r)@.to_set() == old(r)@.to_set().union(v@.to_set()),
{
    let ghost r0 = r@.to_set();
    let mut k: usize = 0;
    assert(v@.take(0).to_set() =~= Set::<u64>::empty());
    assert(r@.to_set() =~= r0.union(v@.take(0).to_set()));
    while k < v.len()
        invariant
            k <= v@.len(),
            r@.no_duplicates(),
            r@.to_set() == r0.union(v@.take(k as int).to_set()),
        decreases v@.len() - k,
    {
        let x = v[k];
        assert(v@.take(k + 1) =~= v@.take(k as int).push(x));
        assert(v@.take(k + 1).to_set() =~= v@.take(k as int).to_set().insert(x)) by {
            assert forall|y: u64| v@.take(k + 1).to_set().contains(y) <==> v@.take(k as int).to_set().insert(x).contains(y) by {
                if v@.take(k + 1).contains(y) {
                    let a = choose|a: int| 0 <= a < k + 1 && #[trigger] v@.take(k + 1)[a] == y;
                    if a < k {
                        assert(v@.take(k as int)[a] == y);
                    }
                }
                if v@.take(k as int).contains(y) {
                    let a = choose|a: int| 0 <= a < k && #[trigger] v@.take(k as int)[a] == y;
                    assert(v@.take(k + 1)[a] == y);
                }
                if y == x {
                    assert(v@.take(k + 1)[k as int] == y);
                }
            }
        }
        if vec_position(r, x).is_none() {
            proof {
                lemma_seq_push_set(r@, x);
            }
            r.push(x);
        } else {
            assert(r@.to_set().contains(x));
            assert(r@.to_set().insert(x) =~= r@.to_set());
        }
        assert(r@.to_set() =~= r0.union(v@.take(k + 1).to_set()));
        k = k + 1;
    }
    assert(v@.take(v@.len() as int) =~= v@);
}

/// The ids of `r` that `v` also holds, in the order of `r`.
fn keep_common(r: &Vec<u64>, v: &Vec<u64>) -> (out: Vec<u64>)
    requires
        r@.no_duplicates(),
    ensures
        out@.no_duplicates(),
        out@.to_set() == r@.to_set().intersect(v@.to_set()),
{
    let mut out: Vec<u64> = Vec::new();
    let mut k: usize = 0;
    assert(r@.take(0).to_set() =~= Set::<u64>::empty());
    assert(out@.to_set() =~= Set::<u64>::empty());
    while k < r.len()
        invariant
            k <= r@.len(),
            r@.no_duplicates(),
            out@.no_duplicates(),
            out@.to_set() == r@.take(k as int).to_set().intersect(v@.to_set()),
        decreases r@.len() - k,
    {
        let x = r[k];
        let ghost pre = r@.take(k as int);
        assert(r@.take(k + 1) =~= pre.push(x));
        assert(!pre.contains(x)) by {
            if pre.contains(x) {
                let a = choose|a: int| 0 <= a < k && #[trigger] pre[a] == x;
                assert(r@[a] == r@[k as int]);
            }
        }
        assert(r@.take(k + 1).to_set() =~= pre.to_set().insert(x)) by {
            assert forall|y: u64| r@.take(k + 1).to_set().contains(y) <==> pre.to_set().insert(x).contains(y) by {
                if r@.take(k + 1).contains(y) {
                    let a = choose|a: int| 0 <= a < k + 1 && #[trigger] r@.take(k + 1)[a] == y;
                    if a < k {
                        assert(pre[a] == y);
                    }
                }
                if pre.contains(y) {
                    let a = choose|a: int| 0 <= a < k && #[trigger] pre[a] == y;
                    assert(r@.take(k + 1)[a] == y);
                }
                if y == x {
                    assert(r@.take(k + 1)[k as int] == y);
                }
            }
        }
        if vec_position(v, x).is_some() {
            assert(!out@.contains(x)) by {
                if out@.contains(x) {
                    assert(out@.to_set().contains(x));
                }
            }
            proof {
                lemma_seq_push_set(out@, x);
            }
            out.push(x);
            assert(out@.to_set() =~= r@.take(k + 1).to_set().intersect(v@.to_set()));
        } else {
            assert(out@.to_set() =~= r@.take(k + 1).to_set().intersect(v@.to_set()));
        }
        k = k + 1;
    }
    assert(r@.take(r@.len() as int) =~= r@);
    out
}

impl FullTextIndex {
    /// What the inverted index says of a term: it lists the term exactly
    /// when some document holds it, and then lists the documents that do.
    proof fn lemma_postings(&self, t: Seq<char>)
        requires
            self.wf(),
        ensures
            self.postings().contains_key(t) <==> terms_of(self@).contains(t),
            self.postings().contains_key(t) ==> self.postings()[t] == docs_with(self@, t),
            !self.postings().contains_key(t) ==> docs_with(self@, t) == Set::<u64>::empty(),
    {
        let p = self.postings();
        let docs = self@;
        if p.contains_key(t) {
            let v = self.inverted_index@[t]@;
            assert(v.len() > 0);
            assert(p[t] == v.to_set());
            assert(p[t].contains(v[0]));
            assert(docs[v[0]].contains_key(t));
            assert(p[t] =~= docs_with(docs, t));
        } else {
            assert forall|d: u64| docs.contains_key(d) implies !(#[trigger] docs[d].contains_key(t)) by {
                if docs[d].contains_key(t) {
                    assert(p.contains_key(t) && p[t].contains(d));
                }
            }
            assert(docs_with(docs, t) =~= Set::<u64>::empty());
        }
    }

    fn union_candidates(&self, terms: &Vec<String>) -> (r: Vec<u64>)
        requires
            self.wf(),
        ensures
            r@.no_duplicates(),
            r@.to_set() == any_set(self@, word_views(terms@)),
    {
        let ghost tv = word_views(terms@);
        let mut r: Vec<u64> = Vec::new();
        let mut i: usize = 0;
        proof {
            if tv.len() > 0 {
                lemma_any_step(self@, tv, 0);
            } else {
                assert(any_set(self@, tv.take(0)) =~= Set::<u64>::empty());
            }
            lemma_empty_seq_set(r@);
        }
        while i < terms.len()
            invariant
                self.wf(),
                i <= terms@.len(),
                tv == word_views(terms@),
                r@.no_duplicates(),
                r@.to_set() == any_set(self@, tv.take(i as int)),
            decreases terms@.len() - i,
        {
            let ghost t = terms@[i as int]@;
            proof {
                assert(tv[i as int] == t);
                lemma_any_step(self@, tv, i as int);
                self.lemma_postings(t);
            }
            match self.inverted_index.get(&terms[i]) {
                Some(docs) => {
                    assert(self.postings()[t] == docs@.to_set());
                    extend_unique(&mut r, docs);
                },
                None => {
                    assert(r@.to_set().union(Set::<u64>::empty()) =~= r@.to_set());
                },
            }
            i = i + 1;
        }
        assert(tv.take(terms@.len() as int) =~= tv);
        r
    }

    fn intersect_candidates(&self, terms: &Vec<String>) -> (r: Vec<u64>)
        requires
            self.wf(),
            terms@.len() > 0,
        ensures
            r@.no_duplicates(),
            r@.to_set() == all_set(self@, word_views(terms@)),
    {
        let ghost tv = word_views(terms@);
        let mut r: Vec<u64> = Vec::new();
        let mut i: usize = 0;
        while i < terms.len()
            invariant
                self.wf(),
                i <= terms@.len(),
                tv == word_views(terms@),
                r@.no_duplicates(),
                i > 0 ==> r@.to_set() == all_set(self@, tv.take(i as int)),
            decreases terms@.len() - i,
        {
            let ghost t = terms@[i as int]@;
            proof {
                assert(tv[i as int] == t);
                lemma_all_step(self@, tv, i as int);
                self.lemma_postings(t);
            }
            match self.inverted_index.get(&terms[i]) {
                Some(docs) => {
                    assert(self.postings()[t] == docs@.to_set());
                    if i > 0 {
                        r = keep_common(&r, docs);
                    } else {
                        assert(docs@.no_duplicates());
                        r = copy_ids(docs);
                        assert(docs_with(self@, t).subset_of(self@.dom()));
                        assert(self@.dom().intersect(docs_with(self@, t)) =~= docs_with(self@, t));
                    }
                },
                None => {
                    let empty: Vec<u64> = Vec::new();
                    proof {
                        lemma_empty_seq_set(empty@);
                        assert forall|d: u64| !all_set(self@, tv).contains(d) by {
                            if all_set(self@, tv).contains(d) {
                                assert(self@[d].contains_key(tv[i as int]));
                                assert(docs_with(self@, t).contains(d));
                            }
                        }
                        assert(all_set(self@, tv) =~= Set::<u64>::empty());
                    }
                    return empty;
                },
            }
            i = i + 1;
        }
        assert(tv.take(terms@.len() as int) =~= tv);
        r
    }

    /// The documents that `query` selects under `mode`, each once, in no
    /// particular order; ranking them is left to the caller.
    pub fn search_candidates(&self, query: &str, mode: SearchMode) -> (r: Vec<u64>)
        requires
            self.wf(),
        ensures
            r@.no_duplicates(),
            r@.to_set() == candidate_set(self@, tokens(query@, self.stop()), mode),
    {
        let terms = Self::tokenize(query, self.stop_ref());
        proof {
            self.lemma_doc_len();
        }
        if terms.len() == 0 || self.total_docs == 0 {
            let r: Vec<u64> = Vec::new();
            proof {
                lemma_empty_seq_set(r@);
            }
            return r;
        }
        match mode {
            SearchMode::Or => self.union_candidates(&terms),
            _ => self.intersect_candidates(&terms),
        }
    }
}

impl FullTextIndex {
    /// The terms of a query, as the index tokenizes it (with its own stop
    /// words): the terms a search scores.
    pub fn query_terms(&self, query: &str) -> (r: Vec<String>)
        ensures
            word_views(r@) == tokens(query@, self.stop()),
    {
        Self::tokenize(query, self.stop_ref())
    }

    /// Number of distinct terms in the index.
    pub fn unique_term_count(&self) -> (n: usize)
        requires
            self.wf(),
        ensures
            n == terms_of(self@).len(),
    {
        proof {
            lemma_index_terms(self);
            assert(self.postings().dom() =~= self.inverted_index@.dom());
        }
        self.inverted_index.len()
    }

    /// How often `term` occurs in document `doc_id`; `None` when the
    /// document is not indexed or does not hold the term.
    pub fn term_count(&self, doc_id: u64, term: &String) -> (r: Option<usize>)
        requires
            self.wf(),
        ensures
            r == (if self@.contains_key(doc_id) && self@[doc_id].contains_key(term@) {
                Some(self@[doc_id][term@])
            } else {
                None::<usize>
            }),
    {
        match self.find_doc(doc_id) {
            None => None,
            Some(i) => {
                proof {
                    self.lemma_doc_map(i as int);
                }
                match self.doc_frequencies[i].1.get(term) {
                    Some(c) => Some(*c),
                    None => None,
                }
            },
        }
    }

    /// Number of documents that hold `term`.
    pub fn document_frequency(&self, term: &String) -> (n: usize)
        requires
            self.wf(),
        ensures
            n == docs_with(self@, term@).len(),
    {
        proof {
            self.lemma_postings(term@);
        }
        match self.inverted_index.get(term) {
            Some(docs) => {
                proof {
                    docs@.unique_seq_to_set();
                }
                docs.len()
            },
            None => {
                0
            },
        }
    }
}

/// The inverted index holds exactly the terms of the indexed documents, and
/// lists for each term exactly the documents that hold it.
pub proof fn lemma_index_terms(idx: &FullTextIndex)
    requires
        idx.wf(),
    ensures
        idx.postings().dom() == terms_of(idx@),
        forall|t: Seq<char>| #[trigger] idx.postings().contains_key(t) ==> idx.postings()[t] == docs_with(idx@, t),
{
    assert forall|t: Seq<char>| idx.postings().contains_key(t) <==> terms_of(idx@).contains(t) by {
        idx.lemma_postings(t);
    }
    assert forall|t: Seq<char>| #[trigger] idx.postings().contains_key(t) implies idx.postings()[t] == docs_with(idx@, t) by {
        idx.lemma_postings(t);
    }
    assert(idx.postings().dom() =~= terms_of(idx@));
}

impl Default for FullTextIndex {
    fn default() -> (idx: Self)
        ensures
            idx.wf(),
            idx@ == Map::<u64, Map<Seq<char>, usize>>::empty(),
            idx.stop() is None,
    {
        Self::new()
    }
}

/// Once a text is indexed as document `d`, a query for any one of its
/// terms selects `d`, whatever the mode.
pub proof fn lemma_indexed_term_selects_document(
    docs: Map<u64, Map<Seq<char>, usize>>,
    d: u64,
    toks: Seq<Seq<char>>,
    t: Seq<char>,
    mode: SearchMode,
)
    requires
        docs.dom().finite(),
        toks.contains(t),
    ensures
        candidate_set(docs.insert(d, term_counts(toks)), seq![t], mode).contains(d),
{
    let after = docs.insert(d, term_counts(toks));
    let q = seq![t];
    assert(after.contains_key(d));
    assert(after.dom().contains(d));
    assert(after.dom().remove(d).len() == after.dom().len() - 1);
    assert(after[d].contains_key(q[0]));
    assert(terms_of(after).contains(q[0]));
}

/// A removed document is selected by no query.
pub proof fn lemma_removed_document_never_selected(
    docs: Map<u64, Map<Seq<char>, usize>>,
    d: u64,
    terms: Seq<Seq<char>>,
    mode: SearchMode,
)
    ensures
        !candidate_set(docs.remove(d), terms, mode).contains(d),
{
}
} // verus!

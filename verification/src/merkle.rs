//! Merkle roots over hexadecimal SHA-256 digests.
//!
//! Leaves are paired left to right; a pair's hash is the digest of the two
//! hex hashes written one after the other, and an odd leaf at the end of a
//! level is carried up unchanged. Levels are built until one hash is left.

use vstd::prelude::*;
use vstd::string::StrSliceExecFns;
use vstd::utf8::encode_utf8;
use crate::cluster::sync::reconciliation::MerkleNode;
use crate::cluster::sync::RowVersion;
use crate::format::{decimal, decimal_string};
use vstd::string::StringExecFns;
use crate::hyperledger::identity::{hex_encode, hex_of, sha256, sha256_digest};

verus! {

/// The lowercase hexadecimal SHA-256 digest of a byte string.
pub open spec fn sha256_hex_of(data: Seq<u8>) -> Seq<char> {
    hex_of(sha256(data))
}

/// The lowercase hexadecimal SHA-256 digest of `data`.
pub fn sha256_hex(data: &[u8]) -> (r: String)
    ensures
        r@ == sha256_hex_of(data@),
{
    let d = sha256_digest(data);
    hex_encode(d.as_slice())
}

/// The lowercase hexadecimal SHA-256 digest of the UTF-8 bytes of `text`.
pub fn sha256_hex_text(text: &str) -> (r: String)
    ensures
        r@ == sha256_hex_of(encode_utf8(text@)),
{
    let bytes = text.as_bytes_vec();
    sha256_hex(bytes.as_slice())
}

/// The hash of two adjacent hashes: the digest of their concatenation.
pub open spec fn pair_hash(a: Seq<char>, b: Seq<char>) -> Seq<char> {
    sha256_hex_of(encode_utf8(a + b))
}

/// The `j`-th hash of the level above `hs`.
pub open spec fn level_item(hs: Seq<Seq<char>>, j: int) -> Seq<char> {
    if 2 * j + 1 < hs.len() {
        pair_hash(hs[2 * j], hs[2 * j + 1])
    } else {
        hs[2 * j]
    }
}

/// The level above `hs`: adjacent hashes paired, an odd last one carried.
pub open spec fn merkle_level(hs: Seq<Seq<char>>) -> Seq<Seq<char>> {
    Seq::new(((hs.len() + 1) / 2) as nat, |j: int| level_item(hs, j))
}

/// The root over a non-empty sequence of hashes.
pub open spec fn merkle_root(hs: Seq<Seq<char>>) -> Seq<char>
    decreases hs.len(),
{
    if hs.len() <= 1 {
        hs[0]
    } else {
        merkle_root(merkle_level(hs))
    }
}

/// The hash of the hashes of a level, in order.
pub open spec fn node_hashes(ns: Seq<MerkleNode>) -> Seq<Seq<char>> {
    ns.map_values(|n: MerkleNode| n.hash@)
}

/// Whether a node was made from a pair: an internal node whose hash is the
/// pair hash of its two children.
pub open spec fn is_pair_node(n: MerkleNode) -> bool {
    &&& !n.is_leaf
    &&& n.children matches Some(c) && c@.len() == 2 && n.hash@ == pair_hash(c@[0]@, c@[1]@)
}

/// The start and end keys of a node's range.
pub open spec fn range_of(n: MerkleNode) -> Option<(Seq<char>, Seq<char>)> {
    match n.key_range {
        Some((a, b)) => Some((a@, b@)),
        None => None,
    }
}

/// The first key of a node's range.
pub open spec fn range_start(n: MerkleNode) -> Seq<char> {
    match n.key_range {
        Some((a, _)) => a@,
        None => Seq::empty(),
    }
}

/// The last key of a node's range.
pub open spec fn range_end(n: MerkleNode) -> Seq<char> {
    match n.key_range {
        Some((_, b)) => b@,
        None => Seq::empty(),
    }
}

/// The root hash over a non-empty sequence of hashes.
pub fn root_of_hashes(hashes: &Vec<String>) -> (r: String)
    requires
        hashes@.len() >= 1,
    ensures
        r@ == merkle_root(hashes@.map_values(|h: String| h@)),
{
    let ghost hs0 = hashes@.map_values(|h: String| h@);
    let mut current: Vec<String> = Vec::new();
    let mut i: usize = 0;
    while i < hashes.len()
        invariant
            hs0 == hashes@.map_values(|h: String| h@),
            i <= hashes@.len(),
            current@.map_values(|h: String| h@) == hs0.take(i as int),
        decreases hashes@.len() - i,
    {
        let ghost before = current@.map_values(|h: String| h@);
        current.push(hashes[i].clone());
        assert(current@.map_values(|h: String| h@) =~= before.push(hs0[i as int]));
        assert(hs0.take(i + 1) =~= hs0.take(i as int).push(hs0[i as int]));
        i = i + 1;
    }
    assert(hs0.take(hs0.len() as int) =~= hs0);
    while current.len() > 1
        invariant
            current@.len() >= 1,
            merkle_root(current@.map_values(|h: String| h@)) == merkle_root(hs0),
        decreases current@.len(),
    {
        let ghost hs = current@.map_values(|h: String| h@);
        let mut next: Vec<String> = Vec::new();
        let mut k: usize = 0;
        while k < current.len()
            invariant
                hs == current@.map_values(|h: String| h@),
                k <= current@.len(),
                k % 2 == 0 || k == current@.len(),
                next@.len() == (k + 1) / 2,
                forall|j: int| 0 <= j < next@.len() ==> (#[trigger] next@[j])@ == level_item(hs, j),
            decreases current@.len() - k,
        {
            if k + 1 < current.len() {
                let mut combined = current[k].clone();
                combined.append(current[k + 1].as_str());
                let h = sha256_hex_text(combined.as_str());
                next.push(h);
                proof {
                    assert(next@[next@.len() - 1]@ == level_item(hs, (k / 2) as int));
                }
                k = k + 2;
            } else {
                next.push(current[k].clone());
                proof {
                    assert(next@[next@.len() - 1]@ == level_item(hs, (k / 2) as int));
                }
                k = k + 1;
            }
        }
        assert(next@.map_values(|h: String| h@) =~= merkle_level(hs));
        current = next;
    }
    current[0].clone()
}

/// The Merkle tree over non-empty `(key, hash)` leaves, as its root node:
/// the root's hash is the root over the leaf hashes and its range runs from
/// the first key to the last. One leaf is its own root; otherwise the root
/// is an internal node made from a pair.
pub fn build_merkle_tree(leaves: &Vec<(String, String)>) -> (root: MerkleNode)
    requires
        leaves@.len() >= 1,
    ensures
        root.hash@ == merkle_root(leaves@.map_values(|l: (String, String)| l.1@)),
        range_of(root) == Some((leaves@[0].0@, leaves@.last().0@)),
        leaves@.len() == 1 ==> root.is_leaf && root.children is None,
        leaves@.len() > 1 ==> is_pair_node(root),
{
    let ghost hs0 = leaves@.map_values(|l: (String, String)| l.1@);
    let ghost first = leaves@[0].0@;
    let ghost last = leaves@.last().0@;
    let mut current: Vec<MerkleNode> = Vec::new();
    let mut i: usize = 0;
    while i < leaves.len()
        invariant
            hs0 == leaves@.map_values(|l: (String, String)| l.1@),
            i <= leaves@.len(),
            current@.len() == i,
            node_hashes(current@) == hs0.take(i as int),
            forall|j: int|
                0 <= j < i ==> (#[trigger] current@[j]).is_leaf && current@[j].children is None && range_of(
                    current@[j],
                ) == Some((leaves@[j].0@, leaves@[j].0@)),
        decreases leaves@.len() - i,
    {
        let (key, hash) = &leaves[i];
        let ghost before = node_hashes(current@);
        current.push(
            MerkleNode {
                hash: hash.clone(),
                children: None,
                key_range: Some((key.clone(), key.clone())),
                is_leaf: true,
            },
        );
        assert(node_hashes(current@) =~= before.push(hs0[i as int]));
        assert(hs0.take(i + 1) =~= hs0.take(i as int).push(hs0[i as int]));
        i = i + 1;
    }
    assert(hs0.take(hs0.len() as int) =~= hs0);
    let ghost mut rounds: nat = 0;
    while current.len() > 1
        invariant
            current@.len() >= 1,
            merkle_root(node_hashes(current@)) == merkle_root(hs0),
            forall|j: int| 0 <= j < current@.len() ==> (#[trigger] range_of(current@[j])) is Some,
            range_start(current@[0]) == first,
            range_end(current@.last()) == last,
            rounds == 0 ==> current@.len() == leaves@.len() && current@[0].is_leaf && current@[0].children is None,
            rounds > 0 ==> is_pair_node(current@[0]),
            rounds > 0 ==> leaves@.len() > 1,
            first == leaves@[0].0@,
            last == leaves@.last().0@,
        decreases current@.len(),
    {
        let ghost hs = node_hashes(current@);
        let mut next: Vec<MerkleNode> = Vec::new();
        let mut k: usize = 0;
        while k < current.len()
            invariant
                hs == node_hashes(current@),
                current@.len() > 1,
                forall|j: int| 0 <= j < current@.len() ==> (#[trigger] range_of(current@[j])) is Some,
                range_start(current@[0]) == first,
                k <= current@.len(),
                k % 2 == 0 || k == current@.len(),
                next@.len() == (k + 1) / 2,
                forall|j: int| 0 <= j < next@.len() ==> (#[trigger] next@[j]).hash@ == level_item(hs, j),
                forall|j: int| 0 <= j < next@.len() ==> (#[trigger] range_of(next@[j])) is Some,
                k > 0 ==> range_start(next@[0]) == first && is_pair_node(next@[0]),
                k > 0 ==> range_end(next@.last()) == range_end(current@[k - 1]),
            decreases current@.len() - k,
        {
            if k + 1 < current.len() {
                let a = &current[k];
                let b = &current[k + 1];
                let mut combined = a.hash.clone();
                combined.append(b.hash.as_str());
                let h = sha256_hex_text(combined.as_str());
                let start = match &a.key_range {
                    Some((s, _)) => s.clone(),
                    None => String::new(),
                };
                let end = match &b.key_range {
                    Some((_, e)) => e.clone(),
                    None => String::new(),
                };
                let mut children: Vec<String> = Vec::new();
                children.push(a.hash.clone());
                children.push(b.hash.clone());
                let ghost nb = next@;
                next.push(MerkleNode { hash: h, children: Some(children), key_range: Some((start, end)), is_leaf: false });
                proof {
                    assert forall|j: int| 0 <= j < next@.len() implies (#[trigger] range_of(next@[j])) is Some by {
                        if j < nb.len() {
                            assert(next@[j] == nb[j]);
                        }
                    }
                    assert(next@[next@.len() - 1].hash@ == level_item(hs, (k / 2) as int));
                }
                k = k + 2;
            } else {
                let a = &current[k];
                let copy = MerkleNode {
                    hash: a.hash.clone(),
                    children: match &a.children {
                        Some(c) => Some(crate::text::copy_strings(c)),
                        None => None,
                    },
                    key_range: match &a.key_range {
                        Some((s, e)) => Some((s.clone(), e.clone())),
                        None => None,
                    },
                    is_leaf: a.is_leaf,
                };
                let ghost nb = next@;
                next.push(copy);
                proof {
                    assert(range_of(current@[k as int]) is Some);
                    assert forall|j: int| 0 <= j < next@.len() implies (#[trigger] range_of(next@[j])) is Some by {
                        if j < nb.len() {
                            assert(next@[j] == nb[j]);
                        }
                    }
                    assert(next@[next@.len() - 1].hash@ == level_item(hs, (k / 2) as int));
                }
                k = k + 1;
            }
        }
        proof {
            assert(node_hashes(next@) =~= merkle_level(hs));
        }
        current = next;
        proof {
            rounds = rounds + 1;
        }
    }
    let root = current.remove(0);
    root
}

/// The leaf hash of a table row: the digest of `id:checksum:version`.
pub open spec fn row_leaf_hash(r: RowVersion) -> Seq<char> {
    sha256_hex_of(encode_utf8(r.0@ + ":"@ + r.3@ + ":"@ + decimal(r.2 as nat)))
}

/// The Merkle tree over a table's rows, leaves keyed by row id in the given
/// order: for no rows, a single leaf holding the digest of nothing.
pub fn build_table_merkle_tree(rows: &Vec<RowVersion>) -> (root: MerkleNode)
    ensures
        rows@.len() == 0 ==> root.hash@ == sha256_hex_of(Seq::empty()) && root.children is None
            && root.key_range is None && root.is_leaf,
        rows@.len() > 0 ==> root.hash@ == merkle_root(rows@.map_values(|r: RowVersion| row_leaf_hash(r)))
            && range_of(root) == Some((rows@[0].0@, rows@.last().0@)),
        rows@.len() == 1 ==> root.is_leaf,
        rows@.len() > 1 ==> is_pair_node(root),
{
    if rows.len() == 0 {
        let empty: Vec<u8> = Vec::new();
        assert(empty@ =~= Seq::<u8>::empty());
        return MerkleNode { hash: sha256_hex(empty.as_slice()), children: None, key_range: None, is_leaf: true };
    }
    let mut leaves: Vec<(String, String)> = Vec::new();
    let mut i: usize = 0;
    while i < rows.len()
        invariant
            i <= rows@.len(),
            leaves@.len() == i,
            forall|j: int|
                0 <= j < i ==> (#[trigger] leaves@[j]).0@ == rows@[j].0@ && leaves@[j].1@ == row_leaf_hash(rows@[j]),
        decreases rows@.len() - i,
    {
        let (id, _clock, version, checksum) = &rows[i];
        let mut text = id.clone();
        text.append(":");
        text.append(checksum.as_str());
        text.append(":");
        text.append(decimal_string(*version).as_str());
        let h = sha256_hex_text(text.as_str());
        leaves.push((id.clone(), h));
        i = i + 1;
    }
    assert(leaves@.map_values(|l: (String, String)| l.1@) =~= rows@.map_values(|r: RowVersion| row_leaf_hash(r)));
    build_merkle_tree(&leaves)
}

/// The Merkle root of a block's transactions, from their hashes in order:
/// the digest of nothing when there are none.
pub fn transactions_merkle_root(tx_hashes: &Vec<String>) -> (r: String)
    ensures
        tx_hashes@.len() == 0 ==> r@ == sha256_hex_of(Seq::empty()),
        tx_hashes@.len() > 0 ==> r@ == merkle_root(tx_hashes@.map_values(|h: String| h@)),
{
    if tx_hashes.len() == 0 {
        let empty: Vec<u8> = Vec::new();
        assert(empty@ =~= Seq::<u8>::empty());
        return sha256_hex(empty.as_slice());
    }
    root_of_hashes(tx_hashes)
}

} // verus!

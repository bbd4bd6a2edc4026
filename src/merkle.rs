use vstd::prelude::*;

use crate::hash::{blake2s, blake2s_of};
use crate::trace::two_pow;

verus! {

/// The byte strings held by a vector of byte vectors.
pub open spec fn strs(v: Seq<Vec<u8>>) -> Seq<Seq<u8>> {
    v.map_values(|x: Vec<u8>| x@)
}

/// The hash of an inner node over its two children.
pub open spec fn node_of(l: Seq<u8>, r: Seq<u8>) -> Seq<u8> {
    blake2s_of(l + r)
}

/// The layer above `l`: one node per pair of neighbours.
pub open spec fn next_layer(l: Seq<Seq<u8>>) -> Seq<Seq<u8>> {
    Seq::new(l.len() / 2, |i: int| node_of(l[2 * i], l[2 * i + 1]))
}

/// The root of the tree of height `k` over the layer `l`.
pub open spec fn root_of(l: Seq<Seq<u8>>, k: nat) -> Seq<u8>
    decreases k,
{
    if k == 0 {
        l[0]
    } else {
        root_of(next_layer(l), (k - 1) as nat)
    }
}

/// The index of the neighbour of `i` in its pair.
pub open spec fn sibling(i: nat) -> nat {
    if i % 2 == 0 {
        i + 1
    } else {
        (i - 1) as nat
    }
}

/// The authentication path of leaf `i`: its sibling on each layer, bottom up.
pub open spec fn path_of(l: Seq<Seq<u8>>, i: nat, k: nat) -> Seq<Seq<u8>>
    decreases k,
{
    if k == 0 {
        Seq::empty()
    } else {
        seq![l[sibling(i) as int]] + path_of(next_layer(l), i / 2, (k - 1) as nat)
    }
}

/// The root reached from `h` at index `i` by hashing in the path bottom up.
pub open spec fn fold_path(h: Seq<u8>, i: nat, path: Seq<Seq<u8>>) -> Seq<u8>
    decreases path.len(),
{
    if path.len() == 0 {
        h
    } else {
        let up = if i % 2 == 0 {
            node_of(h, path[0])
        } else {
            node_of(path[0], h)
        };
        fold_path(up, i / 2, path.drop_first())
    }
}

/// An authentication path has one node per layer.
pub proof fn lemma_path_len(l: Seq<Seq<u8>>, i: nat, k: nat)
    ensures
        path_of(l, i, k).len() == k,
    decreases k,
{
    if k > 0 {
        lemma_path_len(next_layer(l), i / 2, (k - 1) as nat);
    }
}

/// Opening leaf `i` and hashing back up along its path gives the root.
pub proof fn lemma_path_reaches_root(l: Seq<Seq<u8>>, i: nat, k: nat)
    requires
        l.len() == two_pow(k),
        i < l.len(),
    ensures
        fold_path(l[i as int], i, path_of(l, i, k)) == root_of(l, k),
    decreases k,
{
    if k > 0 {
        let nl = next_layer(l);
        let rest = path_of(nl, i / 2, (k - 1) as nat);
        let p = path_of(l, i, k);
        assert(p.drop_first() =~= rest);
        assert(p[0] == l[sibling(i) as int]);
        if i % 2 == 0 {
            assert(nl[(i / 2) as int] == node_of(l[i as int], l[i + 1 as int]));
        } else {
            assert(nl[(i / 2) as int] == node_of(l[i - 1 as int], l[i as int]));
        }
        lemma_path_reaches_root(nl, i / 2, (k - 1) as nat);
    }
}

/// The hash of the node over `l` and `r`.
pub fn hash_node(l: &Vec<u8>, r: &Vec<u8>) -> (h: Vec<u8>)
    ensures
        h@ == node_of(l@, r@),
{
    let mut buf: Vec<u8> = l.clone();
    let mut j: usize = 0;
    while j < r.len()
        invariant
            j <= r@.len(),
            buf@ == l@ + r@.take(j as int),
        decreases r@.len() - j,
    {
        buf.push(r[j]);
        j = j + 1;
        assert(buf@ =~= l@ + r@.take(j as int));
    }
    assert(r@.take(j as int) =~= r@);
    blake2s(&buf)
}

/// The layer above `l`.
pub fn build_next_layer(l: &Vec<Vec<u8>>) -> (r: Vec<Vec<u8>>)
    ensures
        strs(r@) == next_layer(strs(l@)),
{
    let n: usize = l.len();
    let half = n / 2;
    let mut out: Vec<Vec<u8>> = Vec::with_capacity(half);
    let mut i: usize = 0;
    while i < half
        invariant
            n == l@.len(),
            half == n / 2,
            i <= half,
            out@.len() == i,
            forall|j: int| 0 <= j < i ==> (#[trigger] out@[j])@ == node_of(l@[2 * j]@, l@[2 * j + 1]@),
        decreases half - i,
    {
        let left: usize = i + i;
        let h = hash_node(&l[left], &l[left + 1]);
        out.push(h);
        i = i + 1;
    }
    assert(strs(out@) =~= next_layer(strs(l@)));
    out
}

/// The Merkle root over `2^k` leaves.
pub fn merkle_root(leaves: &Vec<Vec<u8>>, k: u32) -> (r: Vec<u8>)
    requires
        leaves@.len() == two_pow(k as nat),
    ensures
        r@ == root_of(strs(leaves@), k as nat),
{
    let mut cur: Vec<Vec<u8>> = leaves.clone();
    assert(strs(cur@) =~= strs(leaves@));
    let mut j: u32 = 0;
    while j < k
        invariant
            j <= k,
            cur@.len() == two_pow((k - j) as nat),
            root_of(strs(cur@), (k - j) as nat) == root_of(strs(leaves@), k as nat),
        decreases k - j,
    {
        assert(two_pow((k - j) as nat) == 2 * two_pow((k - j - 1) as nat));
        let nxt = build_next_layer(&cur);
        assert(strs(nxt@).len() == nxt@.len() && strs(cur@).len() == cur@.len());
        cur = nxt;
        j = j + 1;
    }
    cur[0].clone()
}

/// The authentication path of leaf `i` among `2^k` leaves.
pub fn merkle_path(leaves: &Vec<Vec<u8>>, i: usize, k: u32) -> (r: Vec<Vec<u8>>)
    requires
        leaves@.len() == two_pow(k as nat),
        i < leaves@.len(),
    ensures
        strs(r@) == path_of(strs(leaves@), i as nat, k as nat),
{
    let mut cur: Vec<Vec<u8>> = leaves.clone();
    assert(strs(cur@) =~= strs(leaves@));
    let mut idx: usize = i;
    let mut path: Vec<Vec<u8>> = Vec::new();
    let mut j: u32 = 0;
    while j < k
        invariant
            j <= k,
            cur@.len() == two_pow((k - j) as nat),
            idx < cur@.len(),
            strs(path@) + path_of(strs(cur@), idx as nat, (k - j) as nat) == path_of(
                strs(leaves@),
                i as nat,
                k as nat,
            ),
        decreases k - j,
    {
        let sib = if idx % 2 == 0 {
            idx + 1
        } else {
            idx - 1
        };
        let s = cur[sib].clone();
        let ghost old_path = path@;
        let ghost rest = path_of(next_layer(strs(cur@)), (idx / 2) as nat, (k - j - 1) as nat);
        path.push(s);
        assert(strs(path@) =~= strs(old_path).push(s@));
        assert(strs(old_path) + path_of(strs(cur@), idx as nat, (k - j) as nat) =~= strs(path@)
            + rest);
        assert(two_pow((k - j) as nat) == 2 * two_pow((k - j - 1) as nat));
        let nxt = build_next_layer(&cur);
        cur = nxt;
        idx = idx / 2;
        j = j + 1;
    }
    assert(strs(path@) + Seq::<Seq<u8>>::empty() =~= strs(path@));
    path
}

/// Whether `path` leads from the leaf hash `leaf` at index `i` to `root`.
pub fn verify_path(root: &Vec<u8>, leaf: &Vec<u8>, i: usize, path: &Vec<Vec<u8>>) -> (r: bool)
    ensures
        r == (fold_path(leaf@, i as nat, strs(path@)) == root@),
{
    let mut h: Vec<u8> = leaf.clone();
    let mut idx: usize = i;
    let mut j: usize = 0;
    assert(strs(path@).skip(0) =~= strs(path@));
    while j < path.len()
        invariant
            j <= path@.len(),
            fold_path(h@, idx as nat, strs(path@).skip(j as int)) == fold_path(
                leaf@,
                i as nat,
                strs(path@),
            ),
        decreases path@.len() - j,
    {
        assert(strs(path@).skip(j as int).drop_first() =~= strs(path@).skip(j + 1));
        let up = if idx % 2 == 0 {
            hash_node(&h, &path[j])
        } else {
            hash_node(&path[j], &h)
        };
        h = up;
        idx = idx / 2;
        j = j + 1;
    }
    assert(strs(path@).skip(j as int) =~= Seq::<Seq<u8>>::empty());
    crate::hash::bytes_eq(&h, root)
}

} // verus!

//! What the Merkle tree guarantees across operations: loading finds the
//! peaks that pushes built, every proof verifies against the root, and the
//! root is the Merkle root over the leaf hashes.
use crate::hash::{empty_hash, leaf_hash, node_hash};
use crate::merkle::{
    exp2, fold_peaks, inner_path, lemma_exp2_63, lemma_exp2_mono, lemma_exp2_pos,
    lemma_peaks_descend, lemma_start_mono, leaf_key, loaded_peaks, node_index, peak_index_list,
    peak_indices, peak_ok, peaks_ok, proof_path, pushed, start_of, subtree_ok, MerkleTree, Node,
    MAX_LEAF_INDEX,
};
use vstd::prelude::*;

verus! {

/// The leaves after the `j`-th peak number fewer than `2^hb` when every
/// peak from the `j`-th on is lower than `hb`.
proof fn lemma_rest_bound(st: Map<u64, Node>, stack: Seq<Node>, n: nat, j: int, hb: nat)
    requires
        peaks_ok(st, stack, n),
        0 <= j <= stack.len(),
        j < stack.len() ==> stack[j].height < hb,
    ensures
        start_of(stack, j) <= n,
        n - start_of(stack, j) < exp2(hb),
    decreases stack.len() - j,
{
    lemma_start_mono(stack, j, stack.len() as int);
    lemma_exp2_pos(hb);
    if j < stack.len() {
        let h = stack[j].height as nat;
        if j + 1 < stack.len() {
            lemma_peaks_descend(st, stack, n, j);
        }
        lemma_rest_bound(st, stack, n, j + 1, h);
        assert(start_of(stack, j + 1) == start_of(stack, j) + exp2(h));
        assert(exp2(h + 1) == 2 * exp2(h));
        lemma_exp2_mono(h + 1, hb);
    }
}

/// The predicted peak indices of the leaves from the `j`-th peak on are the
/// indices of those peaks.
proof fn lemma_peak_list_matches(st: Map<u64, Node>, stack: Seq<Node>, n: nat, j: int, hb: nat)
    requires
        peaks_ok(st, stack, n),
        0 <= j <= stack.len(),
        j < stack.len() ==> stack[j].height < hb,
    ensures
        peak_index_list((n - start_of(stack, j)) as nat, start_of(stack, j), hb) == stack.subrange(
            j,
            stack.len() as int,
        ).map_values(|x: Node| x.index),
    decreases hb,
{
    let len = stack.len() as int;
    lemma_rest_bound(st, stack, n, j, hb);
    if hb == 0 {
        assert(j == len);
        assert(stack.subrange(j, len).map_values(|x: Node| x.index) =~= Seq::<u64>::empty());
    } else {
        let c = (hb - 1) as nat;
        let rem = (n - start_of(stack, j)) as nat;
        if j < len && stack[j].height == c {
            if j + 1 < len {
                lemma_peaks_descend(st, stack, n, j);
            }
            lemma_rest_bound(st, stack, n, j + 1, c);
            assert(start_of(stack, j + 1) == start_of(stack, j) + exp2(c));
            lemma_peak_list_matches(st, stack, n, j + 1, c);
            assert(peak_ok(st, stack, j));
            assert(stack.subrange(j, len).map_values(|x: Node| x.index) =~= seq![stack[j].index]
                + stack.subrange(j + 1, len).map_values(|x: Node| x.index));
        } else {
            lemma_rest_bound(st, stack, n, j, c);
            lemma_peak_list_matches(st, stack, n, j, c);
        }
    }
}

/// Loading the storage of a tree built by pushes, with its leaf count,
/// finds exactly its peaks, so the loaded tree has the same root.
pub proof fn lemma_load_round_trip(t: MerkleTree)
    requires
        t.wf(),
        t.count() <= MAX_LEAF_INDEX,
    ensures
        loaded_peaks(t.store(), t.count()) == Some(t.peaks()),
        fold_peaks(loaded_peaks(t.store(), t.count()).unwrap()) == fold_peaks(t.peaks()),
{
    let st = t.store();
    let stack = t.peaks();
    let n = t.count();
    if stack.len() > 0 {
        assert(peak_ok(st, stack, 0));
        lemma_start_mono(stack, 1, stack.len() as int);
        lemma_exp2_63();
        if stack[0].height >= 64 {
            lemma_exp2_mono(64, stack[0].height as nat);
        }
    }
    lemma_peak_list_matches(st, stack, n, 0, 64);
    let ks = peak_indices(n);
    assert(stack.subrange(0, stack.len() as int) =~= stack);
    assert forall|i: int| 0 <= i < ks.len() implies st.contains_key(#[trigger] ks[i]) by {
        assert(peak_ok(st, stack, i));
    }
    assert forall|i: int| 0 <= i < ks.len() implies st[ks[i]] == stack[i] by {
        assert(peak_ok(st, stack, i));
    }
    assert(Seq::new(ks.len(), |i: int| st[ks[i]]) =~= stack);
}

/// The largest power of two, at most `2^h`, that is below `m`; 1 when none is.
pub open spec fn split_from(m: nat, h: nat) -> nat
    decreases h,
{
    if h == 0 {
        1
    } else if exp2(h) < m {
        exp2(h)
    } else {
        split_from(m, (h - 1) as nat)
    }
}

/// The number of leaves in the left subtree of a tree of `m` leaves: the
/// largest power of two below `m`.
pub open spec fn split_point(m: nat) -> nat {
    split_from(m, 64)
}

/// The root that `proof`, listed from the leaf upwards, yields for the leaf
/// hash `leaf` at position `p` of a tree of `m` leaves, in which the left
/// subtree of every node holds the largest power of two below its leaf
/// count; `None` when the proof does not fit the tree.
pub open spec fn path_root(leaf: Seq<u8>, proof: Seq<Seq<u8>>, p: nat, m: nat) -> Option<Seq<u8>>
    decreases m,
{
    if m <= 1 {
        if proof.len() == 0 && p == 0 {
            Some(leaf)
        } else {
            None
        }
    } else if proof.len() == 0 {
        None
    } else {
        let k = split_point(m);
        let top = proof.last();
        let rest = proof.drop_last();
        if !(1 <= k < m) {
            None
        } else if p < k {
            match path_root(leaf, rest, p, k) {
                Some(h) => Some(node_hash(h, top)),
                None => None,
            }
        } else {
            match path_root(leaf, rest, (p - k) as nat, (m - k) as nat) {
                Some(h) => Some(node_hash(top, h)),
                None => None,
            }
        }
    }
}

/// `proof` proves that leaf `p` of a tree of `n` leaves has hash `leaf`
/// under `root`.
pub open spec fn verifies(root: Seq<u8>, leaf: Seq<u8>, proof: Seq<Seq<u8>>, p: nat, n: nat) -> bool {
    p < n && path_root(leaf, proof, p, n) == Some(root)
}

proof fn lemma_split(m: nat, h: nat, top: nat)
    requires
        exp2(h) < m <= exp2(h + 1),
        h <= top <= 64,
    ensures
        split_from(m, top) == exp2(h),
    decreases top,
{
    if top > h {
        lemma_exp2_mono(h + 1, top);
        lemma_split(m, h, (top - 1) as nat);
    } else {
        if h == 0 {
            assert(exp2(0) == 1);
        }
    }
}

/// Within a fully stored perfect subtree, the inner path of a leaf climbs
/// to the subtree's root.
proof fn lemma_inner_path_root(st: Map<u64, Node>, s: nat, h: nat, p: nat)
    requires
        subtree_ok(st, s, h),
        s <= p < s + exp2(h),
        h <= 63,
    ensures
        path_root(
            st[(2 * p) as u64].hash@,
            inner_path(st, s, h, p),
            (p - s) as nat,
            exp2(h),
        ) == Some(st[node_index(s, h) as u64].hash@),
    decreases h,
{
    lemma_exp2_pos(h);
    if h == 0 {
        assert(p == s);
    } else {
        let c = (h - 1) as nat;
        let half = exp2(c);
        lemma_exp2_pos(c);
        lemma_split(exp2(h), c, 64);
        let proof = inner_path(st, s, h, p);
        if p < s + half {
            lemma_inner_path_root(st, s, c, p);
            assert(proof.drop_last() =~= inner_path(st, s, c, p));
        } else {
            lemma_inner_path_root(st, s + half, c, p);
            assert(proof.drop_last() =~= inner_path(st, s + half, c, p));
        }
    }
}

/// The proof of leaf `p` under the `j`-th peak within the peaks from the
/// `j0`-th on: the inner path, the fold of the peaks to the right, and the
/// peaks from the `j - 1`-th down to the `j0`-th.
pub open spec fn peak_proof(st: Map<u64, Node>, stack: Seq<Node>, j0: int, j: int, p: nat) -> Seq<
    Seq<u8>,
> {
    let len = stack.len() as int;
    let inner = inner_path(st, start_of(stack, j), stack[j].height as nat, p);
    let right = if j + 1 < len {
        seq![fold_peaks(stack.subrange(j + 1, len))]
    } else {
        Seq::empty()
    };
    inner + right + Seq::new((j - j0) as nat, |i: int| stack[j - 1 - i].hash@)
}

proof fn lemma_peak_proof_root(st: Map<u64, Node>, stack: Seq<Node>, n: nat, j0: int, j: int, p: nat)
    requires
        peaks_ok(st, stack, n),
        0 <= j0 <= j < stack.len(),
        start_of(stack, j) <= p < start_of(stack, j + 1),
    ensures
        path_root(
            st[(2 * p) as u64].hash@,
            peak_proof(st, stack, j0, j, p),
            (p - start_of(stack, j0)) as nat,
            (n - start_of(stack, j0)) as nat,
        ) == Some(fold_peaks(stack.subrange(j0, stack.len() as int))),
    decreases j - j0,
{
    let len = stack.len() as int;
    let sj0 = start_of(stack, j0);
    let h0 = stack[j0].height as nat;
    let m = (n - sj0) as nat;
    let proof = peak_proof(st, stack, j0, j, p);
    let sub = stack.subrange(j0, len);
    lemma_start_mono(stack, j0, j);
    lemma_start_mono(stack, j + 1, len);
    lemma_start_mono(stack, j0 + 1, len);
    assert(start_of(stack, j0 + 1) == sj0 + exp2(h0));
    assert(peak_ok(st, stack, j0));
    lemma_exp2_63();
    if h0 >= 64 {
        lemma_exp2_mono(64, h0);
    }
    lemma_exp2_pos(h0);
    if j0 + 1 < len {
        lemma_peaks_descend(st, stack, n, j0);
        lemma_rest_bound(st, stack, n, j0 + 1, h0);
        lemma_start_mono(stack, j0 + 2, len);
        assert(start_of(stack, j0 + 2) == start_of(stack, j0 + 1) + exp2(
            stack[j0 + 1].height as nat,
        ));
        lemma_exp2_pos(stack[j0 + 1].height as nat);
        assert(exp2(h0 + 1) == 2 * exp2(h0));
        lemma_split(m, h0, 64);
        assert(sub.drop_first() =~= stack.subrange(j0 + 1, len));
    }
    if j0 == j {
        let inner = inner_path(st, sj0, h0, p);
        lemma_inner_path_root(st, sj0, h0, p);
        if j + 1 < len {
            assert(proof.drop_last() =~= inner);
            assert(proof.last() == fold_peaks(stack.subrange(j + 1, len)));
        } else {
            assert(proof =~= inner);
            assert(sub =~= seq![stack[j]]);
        }
    } else {
        lemma_peak_proof_root(st, stack, n, j0 + 1, j, p);
        lemma_start_mono(stack, j0 + 1, j);
        assert(proof.drop_last() =~= peak_proof(st, stack, j0 + 1, j, p));
        assert(proof.last() == stack[j0].hash@);
    }
}

/// Every leaf's proof, as `prove` returns it, verifies against the root,
/// with the leaf hash stored for that leaf.
pub proof fn lemma_proof_verifies(t: MerkleTree, p: nat, j: int)
    requires
        t.wf(),
        0 <= j < t.peaks().len(),
        start_of(t.peaks(), j) <= p < start_of(t.peaks(), j + 1),
    ensures
        verifies(
            fold_peaks(t.peaks()),
            t.store()[(2 * p) as u64].hash@,
            proof_path(t.store(), t.peaks(), j, p),
            p,
            t.count(),
        ),
{
    let stack = t.peaks();
    lemma_start_mono(stack, j + 1, stack.len() as int);
    lemma_peak_proof_root(t.store(), stack, t.count(), 0, j, p);
    assert(peak_proof(t.store(), stack, 0, j, p) =~= proof_path(t.store(), stack, j, p));
    assert(stack.subrange(0, stack.len() as int) =~= stack);
}

/// The Merkle root over a sequence of leaf hashes: the empty root, the one
/// leaf hash, or the node over the root of the largest power-of-two prefix
/// and the root of the rest.
pub open spec fn mmr_root(hashes: Seq<Seq<u8>>) -> Seq<u8>
    decreases hashes.len(),
{
    if hashes.len() == 0 {
        empty_hash()
    } else if hashes.len() == 1 {
        hashes[0]
    } else {
        let k = split_point(hashes.len());
        if 1 <= k < hashes.len() {
            node_hash(
                mmr_root(hashes.subrange(0, k as int)),
                mmr_root(hashes.subrange(k as int, hashes.len() as int)),
            )
        } else {
            empty_hash()
        }
    }
}

/// The hashes stored for leaves `s` to `s + len - 1`.
pub open spec fn stored_leaves(st: Map<u64, Node>, s: nat, len: nat) -> Seq<Seq<u8>> {
    Seq::new(len, |i: int| st[leaf_key((s + i) as nat)].hash@)
}

/// A fully stored perfect subtree hashes to the Merkle root of its leaves.
proof fn lemma_subtree_root(st: Map<u64, Node>, s: nat, h: nat)
    requires
        subtree_ok(st, s, h),
        h <= 63,
    ensures
        st[node_index(s, h) as u64].hash@ == mmr_root(stored_leaves(st, s, exp2(h))),
    decreases h,
{
    lemma_exp2_pos(h);
    let leaves = stored_leaves(st, s, exp2(h));
    if h == 0 {
        assert(leaves.len() == 1);
    } else {
        let c = (h - 1) as nat;
        let half = exp2(c);
        lemma_exp2_pos(c);
        lemma_split(exp2(h), c, 64);
        lemma_subtree_root(st, s, c);
        lemma_subtree_root(st, s + half, c);
        assert(leaves.subrange(0, half as int) =~= stored_leaves(st, s, half));
        assert(leaves.subrange(half as int, exp2(h) as int) =~= stored_leaves(st, s + half, half));
    }
}

proof fn lemma_fold_is_root(st: Map<u64, Node>, stack: Seq<Node>, n: nat, j0: int)
    requires
        peaks_ok(st, stack, n),
        0 <= j0 < stack.len(),
    ensures
        fold_peaks(stack.subrange(j0, stack.len() as int)) == mmr_root(
            stored_leaves(st, start_of(stack, j0), (n - start_of(stack, j0)) as nat),
        ),
    decreases stack.len() - j0,
{
    let len = stack.len() as int;
    let s0 = start_of(stack, j0);
    let h0 = stack[j0].height as nat;
    let m = (n - s0) as nat;
    let sub = stack.subrange(j0, len);
    let leaves = stored_leaves(st, s0, m);
    assert(peak_ok(st, stack, j0));
    lemma_start_mono(stack, j0 + 1, len);
    assert(start_of(stack, j0 + 1) == s0 + exp2(h0));
    lemma_exp2_63();
    if h0 >= 64 {
        lemma_exp2_mono(64, h0);
    }
    lemma_exp2_pos(h0);
    lemma_subtree_root(st, s0, h0);
    if j0 + 1 == len {
        assert(sub =~= seq![stack[j0]]);
        assert(leaves =~= stored_leaves(st, s0, exp2(h0)));
    } else {
        lemma_peaks_descend(st, stack, n, j0);
        lemma_rest_bound(st, stack, n, j0 + 1, h0);
        lemma_start_mono(stack, j0 + 2, len);
        assert(start_of(stack, j0 + 2) == start_of(stack, j0 + 1) + exp2(
            stack[j0 + 1].height as nat,
        ));
        lemma_exp2_pos(stack[j0 + 1].height as nat);
        assert(exp2(h0 + 1) == 2 * exp2(h0));
        lemma_split(m, h0, 64);
        lemma_fold_is_root(st, stack, n, j0 + 1);
        assert(sub.drop_first() =~= stack.subrange(j0 + 1, len));
        assert(leaves.subrange(0, exp2(h0) as int) =~= stored_leaves(st, s0, exp2(h0)));
        assert(leaves.subrange(exp2(h0) as int, m as int) =~= stored_leaves(
            st,
            start_of(stack, j0 + 1),
            (n - start_of(stack, j0 + 1)) as nat,
        ));
    }
}

/// The root of a tree built by pushes, its peaks folded right to left, is
/// the Merkle root over the hashes of its leaves.
pub proof fn lemma_root_is_mmr_root(t: MerkleTree)
    requires
        t.wf(),
    ensures
        fold_peaks(t.peaks()) == mmr_root(stored_leaves(t.store(), 0, t.count())),
{
    let stack = t.peaks();
    if stack.len() == 0 {
        assert(stored_leaves(t.store(), 0, t.count()) =~= Seq::<Seq<u8>>::empty());
    } else {
        lemma_fold_is_root(t.store(), stack, t.count(), 0);
        assert(stack.subrange(0, stack.len() as int) =~= stack);
    }
}

/// Every leaf of a fully stored perfect subtree is stored.
proof fn lemma_subtree_leaves(st: Map<u64, Node>, s: nat, h: nat, i: nat)
    requires
        subtree_ok(st, s, h),
        s <= i < s + exp2(h),
    ensures
        st.contains_key(leaf_key(i)),
    decreases h,
{
    if h > 0 {
        let c = (h - 1) as nat;
        if i < s + exp2(c) {
            lemma_subtree_leaves(st, s, c, i);
        } else {
            lemma_subtree_leaves(st, s + exp2(c), c, i);
        }
    }
}

/// Every leaf of a tree built by pushes is stored.
proof fn lemma_leaves_stored(st: Map<u64, Node>, stack: Seq<Node>, n: nat, j: int, i: nat)
    requires
        peaks_ok(st, stack, n),
        0 <= j <= stack.len(),
        start_of(stack, j) <= i < n,
    ensures
        st.contains_key(leaf_key(i)),
    decreases stack.len() - j,
{
    if j == stack.len() {
        assert(false);
    } else if i < start_of(stack, j + 1) {
        assert(peak_ok(st, stack, j));
        lemma_subtree_leaves(st, start_of(stack, j), stack[j].height as nat, i);
    } else {
        lemma_leaves_stored(st, stack, n, j + 1, i);
    }
}

/// Pushing a leaf onto a tree built by pushes keeps its earlier leaves and
/// adds the new one, so the root is the Merkle root over the leaf hashes,
/// the new one last.
pub proof fn lemma_push_then_root(a: MerkleTree, b: MerkleTree, data: Seq<u8>)
    requires
        a.wf(),
        pushed(a, b, data),
    ensures
        stored_leaves(b.store(), 0, b.count()) == stored_leaves(a.store(), 0, a.count()).push(
            leaf_hash(data),
        ),
        fold_peaks(b.peaks()) == mmr_root(
            stored_leaves(a.store(), 0, a.count()).push(leaf_hash(data)),
        ),
{
    let n = a.count();
    assert forall|i: nat| i < n implies b.store()[leaf_key(i)] == a.store()[leaf_key(i)] by {
        lemma_leaves_stored(a.store(), a.peaks(), n, 0, i);
        let k = leaf_key(i);
        lemma_exp2_63();
        assert(k == 2 * i);
        assert(k < 2 * n && k % 2 == 0);
        assert(a.store().contains_key(k));
        assert(b.store().contains_key(k) == a.store().contains_key(k));
    }
    assert(stored_leaves(b.store(), 0, b.count()) =~= stored_leaves(a.store(), 0, n).push(
        leaf_hash(data),
    ));
    lemma_root_is_mmr_root(b);
}

} // verus!

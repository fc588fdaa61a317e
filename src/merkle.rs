//! Append-only binary Merkle tree laid out as a Merkle mountain range.
//!
//! Nodes are addressed by in-order index: leaf `k` sits at `2k`, and the
//! root of the perfect subtree of height `h` whose first leaf is `s` sits at
//! `2s + 2^h - 1`. The tree keeps the stack of its peaks, tallest first, and
//! persists every leaf and every node of a perfect subtree in its storage.
use crate::hash::{empty_hash, empty_sum, leaf_hash, leaf_sum, node_hash, node_sum, Bytes32};
use std::collections::HashMap;
use vstd::prelude::*;

verus! {

broadcast use vstd::std_specs::hash::group_hash_axioms;

/// Largest leaf number whose in-order index fits in a `u64`.
pub const MAX_LEAF_INDEX: u64 = 0x7fff_ffff_ffff_ffff;

/// A node of the tree as it is persisted.
#[derive(Clone, Copy, Debug, Default, PartialEq, Eq)]
pub struct Node {
    pub height: u32,
    pub index: u64,
    pub hash: Bytes32,
}

/// Failures of the tree operations.
#[derive(Clone, Copy, Debug, PartialEq, Eq)]
pub enum MerkleTreeError {
    /// The requested leaf is not in the tree.
    InvalidProofIndex(u64),
    /// A node that the leaf count predicts is missing from storage.
    LoadError(u64),
    /// The tree would exceed the addressable index space.
    TooLarge,
}

/// Node storage keyed by in-order index.
pub struct StorageMap {
    map: HashMap<u64, Node>,
}

impl View for StorageMap {
    type V = Map<u64, Node>;

    closed spec fn view(&self) -> Map<u64, Node> {
        self.map@
    }
}

impl StorageMap {
    pub fn new() -> (r: Self)
        ensures
            r@ == Map::<u64, Node>::empty(),
    {
        StorageMap { map: HashMap::new() }
    }

    /// The node stored under `key`, if any.
    pub fn get(&self, key: u64) -> (r: Option<Node>)
        ensures
            r == (if self@.contains_key(key) {
                Some(self@[key])
            } else {
                None::<Node>
            }),
    {
        match self.map.get(&key) {
            Some(n) => Some(*n),
            None => None,
        }
    }

    /// Stores `node` under `key`, replacing what was there.
    pub fn insert(&mut self, key: u64, node: Node)
        ensures
            final(self)@ == old(self)@.insert(key, node),
    {
        self.map.insert(key, node);
    }
}

/// `2^h`.
pub open spec fn exp2(h: nat) -> nat
    decreases h,
{
    if h == 0 {
        1
    } else {
        2 * exp2((h - 1) as nat)
    }
}

/// In-order index of the root of the perfect subtree of height `h` whose
/// first leaf is `s`.
pub open spec fn node_index(s: nat, h: nat) -> nat {
    (2 * s + exp2(h) - 1) as nat
}

/// The perfect subtree of height `h` starting at leaf `s` is fully stored:
/// every node sits under its own index, and each internal node hashes its
/// two children.
pub open spec fn subtree_ok(st: Map<u64, Node>, s: nat, h: nat) -> bool
    decreases h,
{
    let k = node_index(s, h);
    &&& k <= u64::MAX
    &&& st.contains_key(k as u64)
    &&& st[k as u64].height == h
    &&& st[k as u64].index == k
    &&& h > 0 ==> {
        let c = (h - 1) as nat;
        let l = node_index(s, c);
        let r = node_index(s + exp2(c), c);
        &&& subtree_ok(st, s, c)
        &&& subtree_ok(st, s + exp2(c), c)
        &&& st[k as u64].hash@ == node_hash(st[l as u64].hash@, st[r as u64].hash@)
    }
}

/// First leaf covered by the `i`-th peak of `stack`.
pub open spec fn start_of(stack: Seq<Node>, i: int) -> nat
    decreases i,
{
    if i <= 0 || i > stack.len() {
        0
    } else {
        start_of(stack, i - 1) + exp2(stack[i - 1].height as nat)
    }
}

/// The `i`-th peak sits at its place and its subtree is fully stored.
pub open spec fn peak_ok(st: Map<u64, Node>, stack: Seq<Node>, i: int) -> bool {
    let s = start_of(stack, i);
    let h = stack[i].height as nat;
    &&& stack[i].index == node_index(s, h)
    &&& subtree_ok(st, s, h)
    &&& st.contains_key(stack[i].index)
    &&& st[stack[i].index] == stack[i]
}

/// `stack` is the peak stack of a tree of `n` leaves over storage `st`.
pub open spec fn peaks_ok(st: Map<u64, Node>, stack: Seq<Node>, n: nat) -> bool {
    &&& n <= exp2(63)
    &&& start_of(stack, stack.len() as int) == n
    &&& forall|i: int| 0 <= i < stack.len() ==> #[trigger] peak_ok(st, stack, i)
    &&& forall|i: int|
        0 <= i < stack.len() - 1 ==> #[trigger] stack[i + 1].height < stack[i].height
}

/// `a` and `b` hold the same entries under every key below `lo` or above `hi`.
pub open spec fn same_outside(a: Map<u64, Node>, b: Map<u64, Node>, lo: nat, hi: nat) -> bool {
    forall|k: u64|
        k < lo || k > hi ==> (#[trigger] a.contains_key(k) == b.contains_key(k) && (b.contains_key(k)
            ==> a[k] == b[k]))
}

/// `a` and `b` hold the same entries under every even key below `hi`: the
/// keys of leaves.
pub open spec fn same_leaves_below(a: Map<u64, Node>, b: Map<u64, Node>, hi: nat) -> bool {
    forall|k: u64|
        k < hi && k % 2 == 0 ==> (#[trigger] a.contains_key(k) == b.contains_key(k) && (
        b.contains_key(k) ==> a[k] == b[k]))
}

/// The root over a peak stack: the peaks folded right to left.
pub open spec fn fold_peaks(stack: Seq<Node>) -> Seq<u8>
    decreases stack.len(),
{
    if stack.len() == 0 {
        empty_hash()
    } else if stack.len() == 1 {
        stack[0].hash@
    } else {
        node_hash(stack[0].hash@, fold_peaks(stack.drop_first()))
    }
}

pub proof fn lemma_exp2_pos(h: nat)
    ensures
        exp2(h) >= 1,
    decreases h,
{
    if h > 0 {
        lemma_exp2_pos((h - 1) as nat);
    }
}

pub proof fn lemma_exp2_mono(a: nat, b: nat)
    requires
        a <= b,
    ensures
        exp2(a) <= exp2(b),
    decreases b,
{
    if a < b {
        lemma_exp2_mono(a, (b - 1) as nat);
        lemma_exp2_pos((b - 1) as nat);
    }
}

pub proof fn lemma_exp2_63()
    ensures
        exp2(63) == 0x8000_0000_0000_0000,
        exp2(64) == 0x1_0000_0000_0000_0000,
{
    reveal_with_fuel(exp2, 65);
}

/// `2^h` as a machine integer.
fn pow2_u64(h: u32) -> (r: u64)
    requires
        h < 64,
    ensures
        r == exp2(h as nat),
{
    let mut r: u64 = 1;
    let mut i: u32 = 0;
    while i < h
        invariant
            i <= h < 64,
            r == exp2(i as nat),
        decreases h - i,
    {
        proof {
            lemma_exp2_mono((i + 1) as nat, 63);
            lemma_exp2_63();
        }
        r = r * 2;
        i = i + 1;
    }
    r
}

/// Storing a node outside the index range of a stored subtree keeps it stored.
proof fn lemma_subtree_insert(st: Map<u64, Node>, s: nat, h: nat, k: u64, v: Node)
    requires
        subtree_ok(st, s, h),
        k < 2 * s || k >= 2 * s + 2 * exp2(h) - 1,
    ensures
        subtree_ok(st.insert(k, v), s, h),
    decreases h,
{
    lemma_exp2_pos(h);
    if h > 0 {
        let c = (h - 1) as nat;
        lemma_subtree_insert(st, s, c, k, v);
        lemma_subtree_insert(st, s + exp2(c), c, k, v);
    }
}

proof fn lemma_start_push(stack: Seq<Node>, x: Node, i: int)
    requires
        0 <= i <= stack.len(),
    ensures
        start_of(stack.push(x), i) == start_of(stack, i),
    decreases i,
{
    if i > 0 {
        lemma_start_push(stack, x, i - 1);
    }
}

proof fn lemma_start_prefix(stack: Seq<Node>, m: int, i: int)
    requires
        0 <= i <= m <= stack.len(),
    ensures
        start_of(stack.subrange(0, m), i) == start_of(stack, i),
    decreases i,
{
    if i > 0 {
        lemma_start_prefix(stack, m, i - 1);
    }
}

pub(crate) proof fn lemma_start_mono(stack: Seq<Node>, i: int, j: int)
    requires
        0 <= i <= j <= stack.len(),
    ensures
        start_of(stack, i) <= start_of(stack, j),
    decreases j,
{
    if i < j {
        lemma_start_mono(stack, i, j - 1);
    }
}

pub(crate) proof fn lemma_peaks_descend(st: Map<u64, Node>, stack: Seq<Node>, n: nat, i: int)
    requires
        peaks_ok(st, stack, n),
        0 <= i < stack.len() - 1,
    ensures
        stack[i + 1].height < stack[i].height,
{
}

/// In-order indices of the peaks that cover `rem` leaves starting at leaf
/// `start`, considering heights below `h`, tallest first: a peak of height
/// `c` is taken wherever `2^c` of the remaining leaves are left.
pub open spec fn peak_index_list(rem: nat, start: nat, h: nat) -> Seq<u64>
    decreases h,
{
    if h == 0 {
        Seq::empty()
    } else {
        let c = (h - 1) as nat;
        if rem >= exp2(c) {
            seq![node_index(start, c) as u64] + peak_index_list(
                (rem - exp2(c)) as nat,
                start + exp2(c),
                c,
            )
        } else {
            peak_index_list(rem, start, c)
        }
    }
}

/// In-order indices of the peaks of a tree of `n` leaves, tallest first.
pub open spec fn peak_indices(n: nat) -> Seq<u64> {
    peak_index_list(n, 0, 64)
}

/// The peak stack that loading `n` leaves from `st` yields: the nodes stored
/// under the predicted peak indices, or `None` when the count is too large
/// or one of them is missing.
pub open spec fn loaded_peaks(st: Map<u64, Node>, n: nat) -> Option<Seq<Node>> {
    let ks = peak_indices(n);
    if n > MAX_LEAF_INDEX {
        None
    } else if forall|i: int| 0 <= i < ks.len() ==> st.contains_key(#[trigger] ks[i]) {
        Some(Seq::new(ks.len(), |i: int| st[ks[i]]))
    } else {
        None
    }
}

/// The in-order index of the root of a tree whose leaf count rounds up to `2^k`.
pub open spec fn is_root_position(r: u64, n: nat) -> bool {
    exists|k: nat|
        #![trigger exp2(k)]
        r + 1 == exp2(k) && exp2(k) >= n + 1 && (k == 0 || exp2((k - 1) as nat) < n + 1)
}

/// The root position of the tree of `leaves_count + 1` leaves: `2^k - 1`
/// with `2^k` the least power of two not below `leaves_count + 1`. `None`
/// when that does not fit the leaf index space.
pub fn root_position(leaves_count: u64) -> (r: Option<u64>)
    ensures
        r is None <==> leaves_count > MAX_LEAF_INDEX,
        r matches Some(x) ==> is_root_position(x, leaves_count as nat),
{
    if leaves_count > MAX_LEAF_INDEX {
        return None;
    }
    let target = leaves_count + 1;
    let mut p: u64 = 1;
    let ghost mut k: nat = 0;
    proof {
        lemma_exp2_63();
    }
    while p < target
        invariant
            target == leaves_count + 1,
            target <= exp2(63),
            p == exp2(k),
            p <= exp2(63),
            k == 0 || exp2((k - 1) as nat) < target,
        decreases exp2(63) - p,
    {
        proof {
            lemma_exp2_63();
            if k >= 63 {
                lemma_exp2_mono(63, k);
            }
            lemma_exp2_mono(k + 1, 63);
            lemma_exp2_pos(k);
        }
        p = p * 2;
        proof {
            k = k + 1;
        }
    }
    Some(p - 1)
}

/// In-order indices of the peaks of a tree of `leaves_count` leaves,
/// tallest first; `None` when the tree is too large.
pub fn peak_positions(leaves_count: u64) -> (r: Option<Vec<u64>>)
    ensures
        r is None <==> leaves_count > MAX_LEAF_INDEX,
        r matches Some(v) ==> v@ == peak_indices(leaves_count as nat),
{
    if root_position(leaves_count).is_none() {
        return None;
    }
    let mut out: Vec<u64> = Vec::new();
    let mut rem: u64 = leaves_count;
    let mut start: u64 = 0;
    let mut h: u32 = 64;
    proof {
        lemma_exp2_63();
    }
    while h > 0
        invariant
            h <= 64,
            rem + start == leaves_count,
            leaves_count <= MAX_LEAF_INDEX,
            rem < exp2(h as nat),
            out@ + peak_index_list(rem as nat, start as nat, h as nat) == peak_indices(
                leaves_count as nat,
            ),
        decreases h,
    {
        let c = h - 1;
        let step = pow2_u64(c);
        let ghost rest = peak_index_list(rem as nat, start as nat, h as nat);
        if rem >= step {
            let idx = 2 * start + step - 1;
            proof {
                lemma_exp2_pos(c as nat);
                assert(rest == seq![idx] + peak_index_list(
                    (rem - step) as nat,
                    (start + step) as nat,
                    c as nat,
                ));
                assert(out@.push(idx) + peak_index_list(
                    (rem - step) as nat,
                    (start + step) as nat,
                    c as nat,
                ) =~= out@ + rest);
            }
            out.push(idx);
            rem = rem - step;
            start = start + step;
        }
        h = c;
    }
    assert(out@ =~= out@ + peak_index_list(rem as nat, start as nat, 0));
    Some(out)
}

/// Sibling hashes from leaf `p` up to the root of the perfect subtree of
/// height `h` starting at leaf `s`, read from storage, lowest first.
pub open spec fn inner_path(st: Map<u64, Node>, s: nat, h: nat, p: nat) -> Seq<Seq<u8>>
    decreases h,
{
    if h == 0 {
        Seq::empty()
    } else {
        let c = (h - 1) as nat;
        let half = exp2(c);
        if p < s + half {
            inner_path(st, s, c, p).push(st[node_index(s + half, c) as u64].hash@)
        } else {
            inner_path(st, s + half, c, p).push(st[node_index(s, c) as u64].hash@)
        }
    }
}

/// The hashes held in a sequence of digests.
pub open spec fn hashes(v: Seq<Bytes32>) -> Seq<Seq<u8>> {
    v.map_values(|b: Bytes32| b@)
}

proof fn lemma_hashes_push(v: Seq<Bytes32>, x: Bytes32)
    ensures
        hashes(v.push(x)) == hashes(v).push(x@),
{
    assert(hashes(v.push(x)) =~= hashes(v).push(x@));
}

/// The proof of leaf `p`, which lies under the `j`-th peak: the siblings
/// inside that peak, then the fold of the peaks to its right if any, then
/// the peaks to its left, nearest first.
pub open spec fn proof_path(st: Map<u64, Node>, stack: Seq<Node>, j: int, p: nat) -> Seq<Seq<u8>> {
    let len = stack.len() as int;
    let inner = inner_path(st, start_of(stack, j), stack[j].height as nat, p);
    let right = if j + 1 < len {
        seq![fold_peaks(stack.subrange(j + 1, len))]
    } else {
        Seq::empty()
    };
    inner + right + Seq::new(j as nat, |i: int| stack[j - 1 - i].hash@)
}

pub struct MerkleTree {
    storage: StorageMap,
    nodes: Vec<Node>,
    leaves_count: u64,
}

/// The in-order index of leaf `k`.
pub open spec fn leaf_key(k: nat) -> u64 {
    (2 * k) as u64
}

/// `st` holds, under the key of each leaf, a node whose hash is the leaf
/// hash of that leaf's data.
pub open spec fn holds_leaves(st: Map<u64, Node>, leaves: Seq<Seq<u8>>) -> bool {
    forall|k: nat|
        k < leaves.len() ==> st.contains_key(#[trigger] leaf_key(k)) && st[leaf_key(k)].hash@
            == leaf_hash(leaves[k as int])
}

/// `r` is the root of the tree whose leaves hold `leaves`: the peaks of a
/// storage that holds those leaves, folded right to left.
pub open spec fn is_leaves_root(r: Seq<u8>, leaves: Seq<Seq<u8>>) -> bool {
    exists|st: Map<u64, Node>, stack: Seq<Node>|
        #![trigger peaks_ok(st, stack, leaves.len()), fold_peaks(stack)]
        peaks_ok(st, stack, leaves.len()) && r == fold_peaks(stack) && holds_leaves(st, leaves)
}

/// The root of a tree built in scratch storage from `leaves`, in order.
pub fn ephemeral_merkle_root(leaves: &Vec<Vec<u8>>) -> (r: Bytes32)
    requires
        leaves@.len() <= MAX_LEAF_INDEX,
    ensures
        is_leaves_root(r@, leaves@.map_values(|l: Vec<u8>| l@)),
{
    let ghost data = leaves@.map_values(|l: Vec<u8>| l@);
    let mut tree = MerkleTree::new(StorageMap::new());
    let mut i: usize = 0;
    while i < leaves.len()
        invariant
            data == leaves@.map_values(|l: Vec<u8>| l@),
            leaves@.len() <= MAX_LEAF_INDEX,
            i <= leaves@.len(),
            tree.wf(),
            tree.count() == i,
            holds_leaves(tree.store(), data.subrange(0, i as int)),
        decreases leaves@.len() - i,
    {
        let ghost before = tree.store();
        let res = tree.push(leaves[i].as_slice());
        assert(res is Ok);
        assert forall|k: nat| k < i + 1 implies tree.store().contains_key(#[trigger] leaf_key(k))
            && tree.store()[leaf_key(k)].hash@ == leaf_hash(data.subrange(0, i + 1)[k as int]) by {
            let key = leaf_key(k);
            assert(key == 2 * k);
            if k < i {
                assert(data.subrange(0, i as int)[k as int] == data.subrange(0, i + 1)[k as int]);
                assert(before.contains_key(key));
                assert(key < 2 * i && key % 2 == 0);
                assert(tree.store().contains_key(key) == before.contains_key(key));
                assert(tree.store()[key] == before[key]);
            }
        }
        i = i + 1;
    }
    let r = tree.root();
    assert(data.subrange(0, i as int) =~= data);
    assert(peaks_ok(tree.store(), tree.peaks(), data.len()));
    r
}

impl MerkleTree {
    /// The peak stack, tallest first.
    pub closed spec fn peaks(&self) -> Seq<Node> {
        self.nodes@
    }

    /// The nodes held in the tree's storage.
    pub closed spec fn store(&self) -> Map<u64, Node> {
        self.storage@
    }

    /// The number of leaves.
    pub closed spec fn count(&self) -> nat {
        self.leaves_count as nat
    }

    /// The tree is what pushes from an empty tree over its storage build:
    /// its peaks are the perfect subtrees that cover its leaves, each fully
    /// stored.
    pub open spec fn wf(&self) -> bool {
        peaks_ok(self.store(), self.peaks(), self.count())
    }

    /// The root of the empty tree.
    pub fn empty_root() -> (r: Bytes32)
        ensures
            r@ == empty_hash(),
    {
        empty_sum()
    }

    /// An empty tree over `storage`.
    pub fn new(storage: StorageMap) -> (r: Self)
        ensures
            r.peaks() == Seq::<Node>::empty(),
            r.count() == 0,
            r.store() == storage@,
            r.wf(),
    {
        proof {
            lemma_exp2_pos(63);
        }
        MerkleTree { storage, nodes: Vec::new(), leaves_count: 0 }
    }

    pub fn leaves_count(&self) -> (r: u64)
        ensures
            r == self.count(),
    {
        self.leaves_count
    }

    /// Hands back the storage.
    pub fn into_storage(self) -> (r: StorageMap)
        ensures
            r@ == self.store(),
    {
        self.storage
    }

    /// Rebuilds a tree of `leaves_count` leaves over `storage` by reading the
    /// peaks that the count predicts. Fails with `TooLarge` when the count is
    /// too large, and with `LoadError` naming the first predicted peak that
    /// is not stored.
    pub fn load(storage: StorageMap, leaves_count: u64) -> (r: Result<Self, MerkleTreeError>)
        ensures
            leaves_count > MAX_LEAF_INDEX ==> r == Err::<Self, MerkleTreeError>(
                MerkleTreeError::TooLarge,
            ),
            r is Ok <==> loaded_peaks(storage@, leaves_count as nat) is Some,
            r matches Ok(t) ==> {
                &&& t.peaks() == loaded_peaks(storage@, leaves_count as nat).unwrap()
                &&& t.count() == leaves_count
                &&& t.store() == storage@
            },
            r matches Err(e) ==> leaves_count > MAX_LEAF_INDEX || {
                let ks = peak_indices(leaves_count as nat);
                exists|i: int|
                    0 <= i < ks.len() && e == MerkleTreeError::LoadError(ks[i])
                        && !storage@.contains_key(#[trigger] ks[i]) && forall|j: int|
                        0 <= j < i ==> storage@.contains_key(#[trigger] ks[j])
            },
    {
        let peaks = match peak_positions(leaves_count) {
            Some(p) => p,
            None => return Err(MerkleTreeError::TooLarge),
        };
        let ghost ks = peaks@;
        let mut nodes: Vec<Node> = Vec::new();
        let mut i: usize = 0;
        while i < peaks.len()
            invariant
                ks == peaks@,
                ks == peak_indices(leaves_count as nat),
                leaves_count <= MAX_LEAF_INDEX,
                i <= ks.len(),
                nodes@.len() == i,
                forall|j: int| 0 <= j < i ==> storage@.contains_key(#[trigger] ks[j]),
                forall|j: int| 0 <= j < i ==> nodes@[j] == storage@[#[trigger] ks[j]],
            decreases ks.len() - i,
        {
            let key = peaks[i];
            match storage.get(key) {
                Some(node) => nodes.push(node),
                None => {
                    proof {
                        assert(!(loaded_peaks(storage@, leaves_count as nat) is Some));
                    }
                    return Err(MerkleTreeError::LoadError(key));
                },
            }
            i = i + 1;
        }
        proof {
            assert(nodes@ =~= Seq::new(ks.len(), |j: int| storage@[ks[j]]));
        }
        Ok(MerkleTree { storage, nodes, leaves_count })
    }

    /// The peaks from the `from`-th on, folded right to left.
    fn fold_from(&self, from: usize) -> (r: Bytes32)
        requires
            from < self.peaks().len(),
        ensures
            r@ == fold_peaks(self.peaks().subrange(from as int, self.peaks().len() as int)),
    {
        let len = self.nodes.len();
        let ghost s = self.nodes@;
        let mut head: Bytes32 = self.nodes[len - 1].hash;
        let mut i: usize = len - 1;
        assert(s.subrange(i as int, len as int) =~= seq![s[i as int]]);
        while i > from
            invariant
                from <= i < len,
                len == s.len(),
                s == self.nodes@,
                head@ == fold_peaks(s.subrange(i as int, len as int)),
            decreases i,
        {
            i = i - 1;
            let h = node_sum(&self.nodes[i].hash, &head);
            assert(s.subrange(i as int, len as int).drop_first() =~= s.subrange(
                i + 1,
                len as int,
            ));
            head = h;
        }
        head
    }

    /// The root and the proof of membership of leaf `proof_index`: the
    /// sibling hashes from the leaf towards the root, the root excluded.
    /// Fails with `InvalidProofIndex` when the leaf is not in the tree;
    /// otherwise, on a tree that is not well formed, `LoadError` names a
    /// missing node or `TooLarge` an index out of range.
    pub fn prove(&self, proof_index: u64) -> (r: Result<(Bytes32, Vec<Bytes32>), MerkleTreeError>)
        ensures
            proof_index >= self.count() <==> r == Err::<(Bytes32, Vec<Bytes32>), MerkleTreeError>(
                MerkleTreeError::InvalidProofIndex(proof_index),
            ),
            self.wf() && proof_index < self.count() ==> r is Ok,
            r matches Ok((root, set)) ==> {
                &&& root@ == fold_peaks(self.peaks())
                &&& exists|j: int|
                    0 <= j < self.peaks().len() && start_of(self.peaks(), j) <= proof_index
                        < start_of(self.peaks(), j + 1) && hashes(set@)
                        == #[trigger] proof_path(self.store(), self.peaks(), j, proof_index as nat)
            },
            r matches Err(e) ==> proof_index >= self.count() || e is LoadError || e is TooLarge,
    {
        if proof_index >= self.leaves_count {
            return Err(MerkleTreeError::InvalidProofIndex(proof_index));
        }
        let ghost stack = self.nodes@;
        let ghost st = self.storage@;
        let ghost wf = self.wf();
        let len = self.nodes.len();
        // Find the peak that covers the leaf.
        let mut j: usize = 0;
        let mut start: u64 = 0;
        let mut found = false;
        while j < len && !found
            invariant
                len == stack.len(),
                stack == self.nodes@,
                st == self.storage@,
                wf == self.wf(),
                proof_index < self.count(),
                j <= len,
                start == start_of(stack, j as int),
                found ==> j < len && proof_index < start_of(stack, j + 1),
                found ==> stack[j as int].height < 64 && start_of(stack, j + 1) <= exp2(63),
                proof_index >= start,
                start <= exp2(63),
            decreases len - j + (if found { 0int } else { 1int }),
        {
            let h = self.nodes[j].height;
            if h >= 64 {
                proof {
                    if wf {
                        assert(start_of(stack, j + 1) == start + exp2(h as nat));
                        lemma_start_mono(stack, j + 1, len as int);
                        lemma_exp2_63();
                        lemma_exp2_mono(64, h as nat);
                    }
                }
                return Err(MerkleTreeError::TooLarge);
            }
            let step = pow2_u64(h);
            proof {
                lemma_exp2_63();
                assert(start_of(stack, j + 1) == start + step);
            }
            if step > MAX_LEAF_INDEX + 1 - start {
                proof {
                    if wf {
                        lemma_start_mono(stack, j + 1, len as int);
                    }
                }
                return Err(MerkleTreeError::TooLarge);
            }
            if proof_index < start + step {
                found = true;
            } else {
                start = start + step;
                j = j + 1;
            }
        }
        if !found {
            return Err(MerkleTreeError::TooLarge);
        }
        proof {
            lemma_exp2_63();
        }
        // Siblings inside the peak, collected from the top down.
        let ghost s0 = start as nat;
        let ghost h0 = stack[j as int].height as nat;
        let mut s: u64 = start;
        let mut h: u32 = self.nodes[j].height;
        let mut down: Vec<Bytes32> = Vec::new();
        let ghost mut acc: Seq<Seq<u8>> = Seq::empty();
        proof {
            assert(start_of(stack, j + 1) == start + exp2(h0));
            if wf {
                assert(peak_ok(st, stack, j as int));
                lemma_start_mono(stack, j + 1, len as int);
            }
        }
        while h > 0
            invariant
                stack == self.nodes@,
                st == self.storage@,
                wf == self.wf(),
                j < len == stack.len(),
                proof_index < self.count(),
                s0 == start_of(stack, j as int),
                h0 == stack[j as int].height,
                start_of(stack, j as int + 1) == s0 + exp2(h0),
                h <= h0 < 64,
                s <= proof_index < s + exp2(h as nat),
                s + exp2(h as nat) <= s0 + exp2(h0),
                s0 + exp2(h0) <= exp2(63),
                exp2(63) == 0x8000_0000_0000_0000,
                wf ==> subtree_ok(st, s as nat, h as nat),
                wf ==> s0 + exp2(h0) <= self.count() <= exp2(63),
                inner_path(st, s0, h0, proof_index as nat) == inner_path(
                    st,
                    s as nat,
                    h as nat,
                    proof_index as nat,
                ) + acc,
                acc == Seq::new(down@.len(), |t: int| down@[down@.len() - 1 - t]@),
            decreases h,
        {
            let c = h - 1;
            let half = pow2_u64(c);
            proof {
                lemma_exp2_pos(c as nat);
                lemma_exp2_mono(h as nat, 63);
                lemma_exp2_63();
            }
            let key: u64;
            let ghost sib_start: nat;
            if proof_index < s + half {
                key = 2 * (s + half) + half - 1;
                proof {
                    sib_start = (s + half) as nat;
                }
            } else {
                key = 2 * s + half - 1;
                proof {
                    sib_start = s as nat;
                }
                s = s + half;
            }
            let node = match self.storage.get(key) {
                Some(nd) => nd,
                None => {
                    proof {
                        if wf {
                            assert(subtree_ok(st, sib_start, c as nat));
                        }
                    }
                    return Err(MerkleTreeError::LoadError(key));
                },
            };
            let ghost old_down = down@;
            down.push(node.hash);
            proof {
                assert(key == node_index(sib_start, c as nat));
                let sib = st[key].hash@;
                acc = seq![sib] + acc;
                assert(acc =~= Seq::new(down@.len(), |t: int| down@[down@.len() - 1 - t]@));
            }
            h = c;
        }
        // The fold of the peaks to the right, then the peaks to the left.
        let mut set: Vec<Bytes32> = Vec::new();
        let mut k: usize = down.len();
        while k > 0
            invariant
                k <= down@.len(),
                hashes(set@) == acc.subrange(0, down@.len() - k),
                acc == Seq::new(down@.len(), |t: int| down@[down@.len() - 1 - t]@),
            decreases k,
        {
            k = k - 1;
            proof {
                lemma_hashes_push(set@, down@[k as int]);
                assert(acc.subrange(0, down@.len() - k) =~= acc.subrange(
                    0,
                    down@.len() - k - 1,
                ).push(down@[k as int]@));
            }
            set.push(down[k]);
        }
        let ghost inner = inner_path(st, s0, h0, proof_index as nat);
        assert(inner =~= acc);
        assert(hashes(set@) =~= inner);
        let ghost mid = hashes(set@);
        if j + 1 < len {
            let f = self.fold_from(j + 1);
            proof {
                lemma_hashes_push(set@, f);
            }
            set.push(f);
            assert(hashes(set@) =~= mid.push(f@));
        }
        let ghost mid2 = hashes(set@);
        let mut i: usize = j;
        while i > 0
            invariant
                i <= j < len,
                len == stack.len(),
                stack == self.nodes@,
                hashes(set@) == mid2 + Seq::new(
                    (j - i) as nat,
                    |t: int| stack[j - 1 - t].hash@,
                ),
            decreases i,
        {
            i = i - 1;
            proof {
                lemma_hashes_push(set@, stack[i as int].hash);
            }
            set.push(self.nodes[i].hash);
            assert(hashes(set@) =~= mid2 + Seq::new(
                (j - i) as nat,
                |t: int| stack[j - 1 - t].hash@,
            ));
        }
        let root = self.root();
        proof {
            let right = if j + 1 < len {
                seq![fold_peaks(stack.subrange(j + 1, len as int))]
            } else {
                Seq::empty()
            };
            assert(mid2 =~= inner + right);
            assert(hashes(set@) =~= proof_path(st, stack, j as int, proof_index as nat));
            assert(hashes(set@) == proof_path(
                self.store(),
                self.peaks(),
                j as int,
                proof_index as nat,
            ));
            assert(start_of(self.peaks(), j as int) <= proof_index < start_of(self.peaks(), j + 1));
        }
        Ok((root, set))
    }

    /// The hash of the root node: the peaks folded right to left, or `None`
    /// for the empty tree.
    fn root_node(&self) -> (r: Option<Bytes32>)
        ensures
            r is None <==> self.peaks().len() == 0,
            r matches Some(h) ==> h@ == fold_peaks(self.peaks()),
    {
        let len = self.nodes.len();
        if len == 0 {
            return None;
        }
        let ghost s = self.nodes@;
        let mut head: Bytes32 = self.nodes[len - 1].hash;
        let mut i: usize = len - 1;
        assert(s.subrange(i as int, len as int) =~= seq![s[i as int]]);
        while i > 0
            invariant
                0 <= i < len,
                len == s.len(),
                s == self.nodes@,
                head@ == fold_peaks(s.subrange(i as int, len as int)),
            decreases i,
        {
            i = i - 1;
            let h = node_sum(&self.nodes[i].hash, &head);
            assert(s.subrange(i as int, len as int).drop_first() =~= s.subrange(
                i + 1,
                len as int,
            ));
            head = h;
        }
        assert(s.subrange(0, len as int) =~= s);
        Some(head)
    }

    /// The Merkle root: the peaks folded right to left, or the empty root.
    pub fn root(&self) -> (r: Bytes32)
        ensures
            r@ == fold_peaks(self.peaks()),
    {
        match self.root_node() {
            Some(h) => h,
            None => Self::empty_root(),
        }
    }

    /// Appends a leaf holding `data`: the leaf is stored under `2 * n`, then
    /// peaks of equal height merge into their parent, which is stored too.
    /// Fails with `TooLarge` when the leaf index would not fit; on a tree
    /// that is not well formed the storage may have changed by then.
    pub fn push(&mut self, data: &[u8]) -> (r: Result<(), MerkleTreeError>)
        ensures
            old(self).count() > MAX_LEAF_INDEX ==> r == Err::<(), MerkleTreeError>(
                MerkleTreeError::TooLarge,
            ) && *final(self) == *old(self),
            r is Err ==> r == Err::<(), MerkleTreeError>(MerkleTreeError::TooLarge),
            old(self).wf() ==> (r is Ok <==> old(self).count() <= MAX_LEAF_INDEX),
            old(self).wf() && r is Ok ==> pushed(*old(self), *final(self), data@),
    {
        if self.leaves_count > MAX_LEAF_INDEX {
            return Err(MerkleTreeError::TooLarge);
        }
        let ghost wf0 = self.wf();
        let ghost st0 = self.storage@;
        let ghost stack0 = self.nodes@;
        let n = self.leaves_count;
        let leaf = Node { height: 0, index: n * 2, hash: leaf_sum(data) };
        self.storage.insert(leaf.index, leaf);
        self.leaves_count = n + 1;
        let mut cur = leaf;
        proof {
            if wf0 {
                lemma_exp2_63();
                assert forall|i: int| 0 <= i < stack0.len() implies #[trigger] peak_ok(
                    self.storage@,
                    stack0,
                    i,
                ) by {
                    assert(peak_ok(st0, stack0, i));
                    lemma_start_mono(stack0, i + 1, stack0.len() as int);
                    lemma_subtree_insert(
                        st0,
                        start_of(stack0, i),
                        stack0[i].height as nat,
                        leaf.index,
                        leaf,
                    );
                }
            }
        }
        while self.nodes.len() > 0 && self.nodes[self.nodes.len() - 1].height == cur.height
            invariant
                self.leaves_count == n + 1,
                n <= MAX_LEAF_INDEX,
                n == old(self).count(),
                wf0 == old(self).wf(),
                st0 == old(self).store(),
                stack0 == old(self).peaks(),
                wf0 ==> {
                    let m = self.nodes@.len() as int;
                    let c = start_of(stack0, m);
                    let hc = cur.height as nat;
                    &&& m <= stack0.len()
                    &&& self.nodes@ == stack0.subrange(0, m)
                    &&& peaks_ok(st0, stack0, n as nat)
                    &&& forall|i: int| 0 <= i < m ==> #[trigger] peak_ok(self.storage@, stack0, i)
                    &&& c + exp2(hc) == n + 1
                    &&& cur.index == node_index(c, hc)
                    &&& subtree_ok(self.storage@, c, hc)
                    &&& self.storage@.contains_key(cur.index)
                    &&& self.storage@[cur.index] == cur
                    &&& m > 0 ==> stack0[m - 1].height >= cur.height
                    &&& self.storage@.contains_key((2 * n) as u64)
                    &&& self.storage@[(2 * n) as u64] == leaf
                    &&& same_outside(self.storage@, st0, 2 * c, 2 * n as nat)
                    &&& same_leaves_below(self.storage@, st0, 2 * n as nat)
                },
            decreases self.nodes@.len(),
        {
            let ghost store = self.storage@;
            let ghost m = self.nodes@.len() as int;
            let left = self.nodes[self.nodes.len() - 1];
            self.nodes.pop();
            if left.height >= 63 {
                proof {
                    if wf0 {
                        let h = left.height as nat;
                        assert(stack0[m - 1] == left);
                        assert(start_of(stack0, m) == start_of(stack0, m - 1) + exp2(h));
                        lemma_exp2_mono(63, h);
                        lemma_exp2_63();
                        assert(false);
                    }
                }
                return Err(MerkleTreeError::TooLarge);
            }
            let step = pow2_u64(left.height);
            if left.index > u64::MAX - step {
                proof {
                    if wf0 {
                        let h = left.height as nat;
                        assert(stack0[m - 1] == left);
                        assert(peak_ok(store, stack0, m - 1));
                        assert(start_of(stack0, m) == start_of(stack0, m - 1) + exp2(h));
                        lemma_exp2_63();
                        assert(false);
                    }
                }
                return Err(MerkleTreeError::TooLarge);
            }
            let parent = Node {
                height: left.height + 1,
                index: left.index + step,
                hash: node_sum(&left.hash, &cur.hash),
            };
            let ghost prev0 = cur;
            self.storage.insert(parent.index, parent);
            let ghost prev = cur;
            cur = parent;
            proof {
                if wf0 {
                    let h = left.height as nat;
                    let sl = start_of(stack0, m - 1);
                    lemma_exp2_pos(h);
                    assert(peak_ok(store, stack0, m - 1));
                    assert(stack0[m - 1] == left);
                    assert(prev.height == left.height);
                    assert(exp2(h + 1) == 2 * exp2(h));
                    assert(start_of(stack0, m) == sl + exp2(h));
                    assert(parent.index == node_index(sl, h + 1));
                    assert(parent.index < 2 * n);
                    lemma_subtree_insert(store, sl, h, parent.index, parent);
                    lemma_subtree_insert(store, sl + exp2(h), h, parent.index, parent);
                    assert(subtree_ok(self.storage@, sl, h + 1));
                    assert forall|i: int| 0 <= i < m - 1 implies #[trigger] peak_ok(
                        self.storage@,
                        stack0,
                        i,
                    ) by {
                        assert(peak_ok(store, stack0, i));
                        lemma_start_mono(stack0, i + 1, m - 1);
                        lemma_subtree_insert(
                            store,
                            start_of(stack0, i),
                            stack0[i].height as nat,
                            parent.index,
                            parent,
                        );
                    }
                    assert(self.nodes@ =~= stack0.subrange(0, m - 1));
                    if m - 1 > 0 {
                        lemma_peaks_descend(st0, stack0, n as nat, m - 2);
                    }
                    let m2 = m - 1;
                    assert(start_of(stack0, m2) == sl);
                    assert(sl + exp2((h + 1) as nat) == n + 1);
                    assert(cur.index == node_index(sl, (h + 1) as nat));
                    assert(self.storage@.contains_key(cur.index));
                    assert(self.storage@[cur.index] == cur);
                    assert(self.storage@.contains_key((2 * n) as u64));
                    assert(self.storage@[(2 * n) as u64] == leaf);
                    assert(same_outside(store, st0, 2 * start_of(stack0, m), 2 * n as nat));
                    assert forall|k: u64| k < 2 * sl || k > 2 * n implies (
                    self.storage@.contains_key(k) == st0.contains_key(k) && (st0.contains_key(k)
                        ==> self.storage@[k] == st0[k])) by {
                        assert(k < 2 * start_of(stack0, m) || k > 2 * n);
                        assert(store.contains_key(k) == st0.contains_key(k));
                        assert(k != parent.index);
                        if st0.contains_key(k) {
                            assert(store[k] == st0[k]);
                        }
                    }
                    assert(same_outside(self.storage@, st0, 2 * sl, 2 * n as nat));
                    assert(parent.index % 2 == 1);
                    assert(same_leaves_below(store, st0, 2 * n as nat));
                    assert forall|k: u64| k < 2 * n && k % 2 == 0 implies (
                    self.storage@.contains_key(k) == st0.contains_key(k) && (st0.contains_key(k)
                        ==> self.storage@[k] == st0[k])) by {
                        assert(store.contains_key(k) == st0.contains_key(k));
                        assert(k != parent.index);
                        if st0.contains_key(k) {
                            assert(store[k] == st0[k]);
                        }
                    }
                    assert(same_leaves_below(self.storage@, st0, 2 * n as nat));
                }
            }
        }
        let ghost pre = self.nodes@;
        self.nodes.push(cur);
        proof {
            if wf0 {
                let m = pre.len() as int;
                let p = self.nodes@;
                assert(p =~= stack0.subrange(0, m).push(cur));
                assert forall|i: int| 0 <= i <= m implies #[trigger] start_of(p, i) == start_of(
                    stack0,
                    i,
                ) by {
                    lemma_start_push(stack0.subrange(0, m), cur, i);
                    lemma_start_prefix(stack0, m, i);
                }
                assert(start_of(p, m + 1) == start_of(p, m) + exp2(cur.height as nat));
                assert forall|i: int| 0 <= i < p.len() implies #[trigger] peak_ok(
                    self.storage@,
                    p,
                    i,
                ) by {
                    if i < m {
                        assert(peak_ok(self.storage@, stack0, i));
                        assert(start_of(p, i) == start_of(stack0, i));
                    }
                }
                assert forall|i: int| 0 <= i < p.len() - 1 implies #[trigger] p[i + 1].height
                    < p[i].height by {
                    if i + 1 < m {
                        assert(stack0[i + 1].height < stack0[i].height);
                    }
                }
                lemma_exp2_63();
                assert(start_of(p, m) == start_of(stack0, m));
                assert(forall|i: int| 0 <= i < m ==> p[i] == stack0[i]);
                assert(peaks_ok(self.storage@, p, (n + 1) as nat));
            }
        }
        Ok(())
    }

    /// Drops the peak stack; the storage keeps its nodes.
    pub fn reset(&mut self)
        ensures
            final(self).peaks() == Seq::<Node>::empty(),
            final(self).count() == old(self).count(),
            final(self).store() == old(self).store(),
    {
        self.nodes.clear();
    }
}

/// `b` is `a` with a leaf holding `data` pushed: `b` is well formed and
/// counts one leaf more, its peaks but the last are those of `a`, the new
/// leaf is stored under `2 * n` with the hash of `data`, and the storage is
/// unchanged below the last peak, above the new leaf and at every earlier
/// leaf.
pub open spec fn pushed(a: MerkleTree, b: MerkleTree, data: Seq<u8>) -> bool {
    let n = a.count();
    let p = b.peaks();
    let last = p.len() - 1;
    &&& b.wf()
    &&& b.count() == n + 1
    &&& p.len() >= 1
    &&& forall|i: int| 0 <= i < last ==> p[i] == a.peaks()[i]
    &&& b.store().contains_key((2 * n) as u64)
    &&& b.store()[(2 * n) as u64] == (Node {
        height: 0,
        index: (2 * n) as u64,
        hash: b.store()[(2 * n) as u64].hash,
    })
    &&& b.store()[(2 * n) as u64].hash@ == leaf_hash(data)
    &&& same_outside(b.store(), a.store(), 2 * start_of(p, last), 2 * n)
    &&& same_leaves_below(b.store(), a.store(), 2 * n)
}

} // verus!

//! In-memory contract storage with three snapshot layers: the live state
//! that execution mutates, the state of the last committed transaction,
//! and the persisted state.
use crate::contract::Contract;
use crate::gtf::be_value;
use crate::hash::{sha256, sha256_of, Bytes32};
use crate::merkle::{ephemeral_merkle_root, is_leaves_root, MAX_LEAF_INDEX};
use vstd::prelude::*;

verus! {

broadcast use vstd::array::group_array_axioms;

pub type ContractId = [u8; 32];

pub type AssetId = [u8; 32];

pub type Salt = [u8; 32];

pub type Address = [u8; 32];


/// Keys whose equality can be decided.
pub trait KeyEq: Copy {
    fn key_eq(&self, other: &Self) -> (r: bool)
        ensures
            r == (*self == *other);
}

impl KeyEq for [u8; 32] {
    fn key_eq(&self, other: &Self) -> (r: bool) {
        let mut i: usize = 0;
        while i < 32
            invariant
                i <= 32,
                forall|j: int| 0 <= j < i ==> self@[j] == other@[j],
            decreases 32 - i,
        {
            if self[i] != other[i] {
                return false;
            }
            i = i + 1;
        }
        assert(*self =~= *other);
        true
    }
}

impl KeyEq for u32 {
    fn key_eq(&self, other: &Self) -> (r: bool) {
        *self == *other
    }
}

impl KeyEq for u64 {
    fn key_eq(&self, other: &Self) -> (r: bool) {
        *self == *other
    }
}

/// A key made of two words: a contract id and a word under it.
#[derive(Clone, Copy)]
pub struct PairKey(pub [u8; 32], pub [u8; 32]);

impl KeyEq for PairKey {
    fn key_eq(&self, other: &Self) -> (r: bool) {
        self.0.key_eq(&other.0) && self.1.key_eq(&other.1)
    }
}

/// The value of the latest write to `k` in `log`, if any.
pub open spec fn lookup<K, V>(log: Seq<(K, Option<V>)>, k: K) -> Option<V>
    decreases log.len(),
{
    if log.len() == 0 {
        None
    } else if log.last().0 == k {
        log.last().1
    } else {
        lookup(log.drop_last(), k)
    }
}

/// Some write to `k` sits at or after position `i` of `log`.
pub open spec fn written_from<K, V>(log: Seq<(K, Option<V>)>, k: K, i: int) -> bool {
    exists|t: int| i <= t < log.len() && log[t].0 == k
}

proof fn lemma_lookup_last_write<K, V>(log: Seq<(K, Option<V>)>, k: K, p: int)
    requires
        0 <= p < log.len(),
        log[p].0 == k,
        forall|t: int| p < t < log.len() ==> log[t].0 != k,
    ensures
        lookup(log, k) == log[p].1,
    decreases log.len(),
{
    if p < log.len() - 1 {
        lemma_lookup_last_write(log.drop_last(), k, p);
    }
}

proof fn lemma_lookup_absent<K, V>(log: Seq<(K, Option<V>)>, k: K)
    requires
        forall|t: int| 0 <= t < log.len() ==> log[t].0 != k,
    ensures
        lookup(log, k) is None,
    decreases log.len(),
{
    if log.len() > 0 {
        lemma_lookup_absent(log.drop_last(), k);
    }
}

/// Whether `k` is among `keys`.
fn contains_key_in<K: KeyEq>(keys: &Vec<K>, k: &K) -> (r: bool)
    ensures
        r == keys@.contains(*k),
{
    let mut i: usize = 0;
    while i < keys.len()
        invariant
            i <= keys@.len(),
            forall|j: int| 0 <= j < i ==> keys@[j] != *k,
        decreases keys@.len() - i,
    {
        if keys[i].key_eq(k) {
            assert(keys@[i as int] == *k);
            return true;
        }
        i = i + 1;
    }
    false
}

/// A map kept as the log of its writes; a removal writes `None`.
pub struct LogMap<K, V> {
    log: Vec<(K, Option<V>)>,
}

impl<K: KeyEq, V: Copy> View for LogMap<K, V> {
    type V = Map<K, V>;

    closed spec fn view(&self) -> Map<K, V> {
        Map::new(|k: K| lookup(self.log@, k) is Some, |k: K| lookup(self.log@, k)->Some_0)
    }
}

impl<K: KeyEq, V: Copy> LogMap<K, V> {
    pub fn new() -> (r: Self)
        ensures
            r@ == Map::<K, V>::empty(),
    {
        let r = LogMap { log: Vec::new() };
        assert(r@ =~= Map::<K, V>::empty());
        r
    }

    pub fn get(&self, k: &K) -> (r: Option<V>)
        ensures
            r == (if self@.contains_key(*k) {
                Some(self@[*k])
            } else {
                None::<V>
            }),
    {
        let mut i: usize = self.log.len();
        assert(self.log@.subrange(0, i as int) =~= self.log@);
        while i > 0
            invariant
                i <= self.log@.len(),
                lookup(self.log@, *k) == lookup(self.log@.subrange(0, i as int), *k),
            decreases i,
        {
            let e = self.log[i - 1];
            if e.0.key_eq(k) {
                return e.1;
            }
            assert(self.log@.subrange(0, i as int).drop_last() =~= self.log@.subrange(
                0,
                i - 1,
            ));
            i = i - 1;
        }
        None
    }

    pub fn insert(&mut self, k: K, v: V)
        ensures
            final(self)@ == old(self)@.insert(k, v),
    {
        let ghost before = self.log@;
        self.log.push((k, Some(v)));
        assert(self.log@.drop_last() =~= before);
        assert(self@ =~= old(self)@.insert(k, v));
    }

    pub fn remove(&mut self, k: K)
        ensures
            final(self)@ == old(self)@.remove(k),
    {
        let ghost before = self.log@;
        self.log.push((k, None));
        assert(self.log@.drop_last() =~= before);
        assert(self@ =~= old(self)@.remove(k));
    }

    /// Each entry of the map once, in no particular order.
    pub fn entries(&self) -> (r: Vec<(K, V)>)
        ensures
            forall|i: int|
                0 <= i < r@.len() ==> self@.contains_key(#[trigger] r@[i].0) && self@[r@[i].0]
                    == r@[i].1,
            forall|i: int, j: int| 0 <= i < j < r@.len() ==> r@[i].0 != r@[j].0,
            forall|k: K| self@.contains_key(k) ==> exists|i: int| 0 <= i < r@.len() && r@[i].0 == k,
    {
        let ghost log = self.log@;
        let mut seen: Vec<K> = Vec::new();
        let mut out: Vec<(K, V)> = Vec::new();
        let mut i: usize = self.log.len();
        while i > 0
            invariant
                log == self.log@,
                i <= log.len(),
                forall|k: K| seen@.contains(k) <==> written_from(log, k, i as int),
                forall|e: int|
                    0 <= e < out@.len() ==> seen@.contains(#[trigger] out@[e].0) && lookup(
                        log,
                        out@[e].0,
                    ) == Some(out@[e].1),
                forall|a: int, b: int| 0 <= a < b < out@.len() ==> out@[a].0 != out@[b].0,
                forall|k: K|
                    seen@.contains(k) && lookup(log, k) is Some ==> exists|e: int|
                        0 <= e < out@.len() && out@[e].0 == k,
            decreases i,
        {
            let (k, vo) = self.log[i - 1];
            if !contains_key_in(&seen, &k) {
                proof {
                    assert forall|t: int| i - 1 < t < log.len() implies log[t].0 != k by {
                        if log[t].0 == k {
                            assert(written_from(log, k, i as int));
                        }
                    }
                    lemma_lookup_last_write(log, k, i - 1);
                }
                let ghost seen0 = seen@;
                let ghost out0 = out@;
                seen.push(k);
                match vo {
                    Some(v) => {
                        out.push((k, v));
                        proof {
                            assert(out@[out@.len() - 1].0 == k);
                        }
                    },
                    None => {},
                }
                proof {
                    assert forall|kk: K| seen@.contains(kk) <==> written_from(log, kk, i - 1) by {
                        if seen@.contains(kk) && kk != k {
                            assert(seen0.contains(kk));
                        }
                        if written_from(log, kk, i - 1) && kk != k {
                            let t = choose|t: int| i - 1 <= t < log.len() && log[t].0 == kk;
                            assert(written_from(log, kk, i as int));
                            assert(seen0.contains(kk));
                            let w = choose|w: int| 0 <= w < seen0.len() && seen0[w] == kk;
                            assert(seen@[w] == kk);
                        }
                        if kk == k {
                            assert(seen@[seen@.len() - 1] == k);
                            assert(log[i - 1].0 == k);
                        }
                    }
                    assert forall|e: int| 0 <= e < out@.len() implies seen@.contains(
                        #[trigger] out@[e].0,
                    ) && lookup(log, out@[e].0) == Some(out@[e].1) by {
                        if e < out0.len() {
                            assert(out@[e] == out0[e]);
                            assert(seen0.contains(out0[e].0));
                            let w = choose|w: int| 0 <= w < seen0.len() && seen0[w] == out0[e].0;
                            assert(seen@[w] == out0[e].0);
                        } else {
                            assert(seen@[seen@.len() - 1] == k);
                        }
                    }
                    assert forall|a: int, b: int| 0 <= a < b < out@.len() implies out@[a].0
                        != out@[b].0 by {
                        if b >= out0.len() {
                            assert(out@[a] == out0[a]);
                            assert(seen0.contains(out0[a].0));
                        }
                    }
                    assert forall|kk: K| seen@.contains(kk) && lookup(log, kk) is Some implies exists|
                        e: int,
                    | 0 <= e < out@.len() && out@[e].0 == kk by {
                        if kk != k {
                            let w = choose|w: int| 0 <= w < seen@.len() && seen@[w] == kk;
                            assert(w < seen0.len());
                            assert(seen0.contains(kk));
                            let e = choose|e: int| 0 <= e < out0.len() && out0[e].0 == kk;
                            assert(out@[e] == out0[e]);
                        } else {
                            assert(out@[out@.len() - 1].0 == k);
                        }
                    }
                }
            } else {
                proof {
                    assert forall|kk: K| seen@.contains(kk) <==> written_from(log, kk, i - 1) by {
                        if written_from(log, kk, i - 1) && kk != k {
                            let t = choose|t: int| i - 1 <= t < log.len() && log[t].0 == kk;
                            assert(written_from(log, kk, i as int));
                        }
                    }
                }
            }
            i = i - 1;
        }
        proof {
            assert forall|k: K| self@.contains_key(k) implies exists|e: int|
                0 <= e < out@.len() && out@[e].0 == k by {
                if !written_from(log, k, 0) {
                    lemma_lookup_absent(log, k);
                }
            }
            assert forall|e: int| 0 <= e < out@.len() implies self@.contains_key(
                #[trigger] out@[e].0,
            ) && self@[out@[e].0] == out@[e].1 by {
                assert(lookup(log, out@[e].0) == Some(out@[e].1));
            }
        }
        out
    }

    /// An independent copy.
    pub fn snapshot(&self) -> (r: Self)
        ensures
            r@ == self@,
    {
        let mut log: Vec<(K, Option<V>)> = Vec::new();
        let mut i: usize = 0;
        while i < self.log.len()
            invariant
                i <= self.log@.len(),
                log@ == self.log@.subrange(0, i as int),
            decreases self.log@.len() - i,
        {
            log.push(self.log[i]);
            i = i + 1;
            assert(log@ =~= self.log@.subrange(0, i as int));
        }
        assert(log@ =~= self.log@);
        let r = LogMap { log };
        assert(r@ =~= self@);
        r
    }
}

/// What one snapshot layer holds.
pub struct LayerView {
    /// Contract id to the slot of its bytecode.
    pub contracts: Map<ContractId, usize>,
    pub balances: Map<PairKey, u64>,
    pub contract_state: Map<PairKey, Bytes32>,
    pub code_roots: Map<ContractId, (Salt, Bytes32)>,
}

/// One snapshot layer.
pub struct Layer {
    contracts: LogMap<ContractId, usize>,
    balances: LogMap<PairKey, u64>,
    contract_state: LogMap<PairKey, Bytes32>,
    code_roots: LogMap<ContractId, (Salt, Bytes32)>,
}

impl View for Layer {
    type V = LayerView;

    closed spec fn view(&self) -> LayerView {
        LayerView {
            contracts: self.contracts@,
            balances: self.balances@,
            contract_state: self.contract_state@,
            code_roots: self.code_roots@,
        }
    }
}

impl Layer {
    pub fn new() -> (r: Self)
        ensures
            r@ == empty_layer(),
    {
        Layer {
            contracts: LogMap::new(),
            balances: LogMap::new(),
            contract_state: LogMap::new(),
            code_roots: LogMap::new(),
        }
    }

    pub fn snapshot(&self) -> (r: Self)
        ensures
            r@ == self@,
    {
        Layer {
            contracts: self.contracts.snapshot(),
            balances: self.balances.snapshot(),
            contract_state: self.contract_state.snapshot(),
            code_roots: self.code_roots.snapshot(),
        }
    }
}

/// The layer with no entries.
pub open spec fn empty_layer() -> LayerView {
    LayerView {
        contracts: Map::empty(),
        balances: Map::empty(),
        contract_state: Map::empty(),
        code_roots: Map::empty(),
    }
}

/// What the storage holds: the three layers and the bytecode slots, which
/// are only ever appended to and so are shared by the layers.
pub struct StorageView {
    pub block_height: u32,
    pub coinbase: Address,
    pub live: LayerView,
    pub transacted: LayerView,
    pub persisted: LayerView,
    pub codes: Seq<Seq<u8>>,
}

/// Every layer maps contracts to bytecode slots that exist.
pub open spec fn slots_ok(layer: LayerView, codes: Seq<Seq<u8>>) -> bool {
    forall|k: ContractId| #[trigger] layer.contracts.contains_key(k) ==> layer.contracts[k] < codes.len()
}

impl StorageView {
    /// The bytecode slot of every contract of every layer exists.
    pub open spec fn wf(self) -> bool {
        &&& slots_ok(self.live, self.codes)
        &&& slots_ok(self.transacted, self.codes)
        &&& slots_ok(self.persisted, self.codes)
    }
}

/// `commit`: the live layer becomes the committed one.
pub open spec fn committed(a: StorageView, b: StorageView) -> bool {
    b == StorageView { transacted: a.live, ..a }
}

/// `revert`: the live layer goes back to the committed one.
pub open spec fn reverted(a: StorageView, b: StorageView) -> bool {
    b == StorageView { live: a.transacted, ..a }
}

/// `persist`: the committed layer is persisted and becomes live.
pub open spec fn persisted(a: StorageView, b: StorageView) -> bool {
    b == StorageView { live: a.transacted, persisted: a.transacted, ..a }
}

/// `rollback`: every layer goes back to the persisted one.
pub open spec fn rolled_back(a: StorageView, b: StorageView) -> bool {
    b == StorageView { live: a.persisted, transacted: a.persisted, ..a }
}

pub struct MemoryStorage {
    block_height: u32,
    coinbase: Address,
    memory: Layer,
    transacted: Layer,
    persisted: Layer,
    codes: Vec<Contract>,
}

impl View for MemoryStorage {
    type V = StorageView;

    closed spec fn view(&self) -> StorageView {
        StorageView {
            block_height: self.block_height,
            coinbase: self.coinbase,
            live: self.memory@,
            transacted: self.transacted@,
            persisted: self.persisted@,
            codes: self.codes@.map_values(|c: Contract| c@),
        }
    }
}

impl MemoryStorage {
    /// An empty storage at `block_height` with the given coinbase.
    pub fn new(block_height: u32, coinbase: Address) -> (r: Self)
        ensures
            r@ == (StorageView {
                block_height,
                coinbase,
                live: empty_layer(),
                transacted: empty_layer(),
                persisted: empty_layer(),
                codes: Seq::empty(),
            }),
    {
        let r = MemoryStorage {
            block_height,
            coinbase,
            memory: Layer::new(),
            transacted: Layer::new(),
            persisted: Layer::new(),
            codes: Vec::new(),
        };
        assert(r@.codes =~= Seq::<Seq<u8>>::empty());
        r
    }

    pub fn block_height(&self) -> (r: u32)
        ensures
            r == self@.block_height,
    {
        self.block_height
    }

    pub fn coinbase(&self) -> (r: Address)
        ensures
            r == self@.coinbase,
    {
        self.coinbase
    }

    /// The live state word of `key` in `contract`, zero when unset.
    pub fn contract_state(&self, contract: &ContractId, key: &Bytes32) -> (r: Bytes32)
        ensures
            self@.live.contract_state.contains_key(PairKey(*contract, *key)) ==> r
                == self@.live.contract_state[PairKey(*contract, *key)],
            !self@.live.contract_state.contains_key(PairKey(*contract, *key)) ==> r@ == Seq::new(
                32,
                |_i: int| 0u8,
            ),
    {
        match self.memory.contract_state.get(&PairKey(*contract, *key)) {
            Some(v) => v,
            None => {
                let z: [u8; 32] = [0u8; 32];
                assert(z@ =~= Seq::new(32, |_i: int| 0u8));
                z
            },
        }
    }

    /// Sets the live state word of `key` in `contract`; returns the former one.
    pub fn insert_state(&mut self, contract: &ContractId, key: &Bytes32, value: &Bytes32) -> (r:
        Option<Bytes32>)
        ensures
            final(self)@ == (StorageView {
                live: LayerView {
                    contract_state: old(self)@.live.contract_state.insert(
                        PairKey(*contract, *key),
                        *value,
                    ),
                    ..old(self)@.live
                },
                ..old(self)@
            }),
            r == (if old(self)@.live.contract_state.contains_key(PairKey(*contract, *key)) {
                Some(old(self)@.live.contract_state[PairKey(*contract, *key)])
            } else {
                None::<Bytes32>
            }),
    {
        let prev = self.memory.contract_state.get(&PairKey(*contract, *key));
        self.memory.contract_state.insert(PairKey(*contract, *key), *value);
        prev
    }

    /// Removes the live state word of `key` in `contract`; returns it.
    pub fn remove_state(&mut self, contract: &ContractId, key: &Bytes32) -> (r: Option<Bytes32>)
        ensures
            final(self)@ == (StorageView {
                live: LayerView {
                    contract_state: old(self)@.live.contract_state.remove(PairKey(*contract, *key)),
                    ..old(self)@.live
                },
                ..old(self)@
            }),
            r == (if old(self)@.live.contract_state.contains_key(PairKey(*contract, *key)) {
                Some(old(self)@.live.contract_state[PairKey(*contract, *key)])
            } else {
                None::<Bytes32>
            }),
    {
        let prev = self.memory.contract_state.get(&PairKey(*contract, *key));
        self.memory.contract_state.remove(PairKey(*contract, *key));
        prev
    }

    /// The live balance of `asset` held by `contract`, zero when unset.
    pub fn balance(&self, contract: &ContractId, asset: &AssetId) -> (r: u64)
        ensures
            r == (if self@.live.balances.contains_key(PairKey(*contract, *asset)) {
                self@.live.balances[PairKey(*contract, *asset)]
            } else {
                0u64
            }),
    {
        match self.memory.balances.get(&PairKey(*contract, *asset)) {
            Some(v) => v,
            None => 0,
        }
    }

    /// Sets the live balance of `asset` held by `contract`; returns the former one.
    pub fn insert_balance(&mut self, contract: &ContractId, asset: &AssetId, value: u64) -> (r:
        Option<u64>)
        ensures
            final(self)@ == (StorageView {
                live: LayerView {
                    balances: old(self)@.live.balances.insert(PairKey(*contract, *asset), value),
                    ..old(self)@.live
                },
                ..old(self)@
            }),
            r == (if old(self)@.live.balances.contains_key(PairKey(*contract, *asset)) {
                Some(old(self)@.live.balances[PairKey(*contract, *asset)])
            } else {
                None::<u64>
            }),
    {
        let prev = self.memory.balances.get(&PairKey(*contract, *asset));
        self.memory.balances.insert(PairKey(*contract, *asset), value);
        prev
    }

    /// The live salt and code root of `contract`.
    pub fn code_root(&self, contract: &ContractId) -> (r: Option<(Salt, Bytes32)>)
        ensures
            r == (if self@.live.code_roots.contains_key(*contract) {
                Some(self@.live.code_roots[*contract])
            } else {
                None::<(Salt, Bytes32)>
            }),
    {
        self.memory.code_roots.get(contract)
    }

    /// Sets the live salt and code root of `contract`.
    pub fn insert_code_root(&mut self, contract: &ContractId, salt: &Salt, root: &Bytes32)
        ensures
            final(self)@ == (StorageView {
                live: LayerView {
                    code_roots: old(self)@.live.code_roots.insert(*contract, (*salt, *root)),
                    ..old(self)@.live
                },
                ..old(self)@
            }),
    {
        self.memory.code_roots.insert(*contract, (*salt, *root));
    }

    /// Removes the live salt and code root of `contract`; returns them.
    pub fn remove_code_root(&mut self, contract: &ContractId) -> (r: Option<(Salt, Bytes32)>)
        ensures
            final(self)@ == (StorageView {
                live: LayerView {
                    code_roots: old(self)@.live.code_roots.remove(*contract),
                    ..old(self)@.live
                },
                ..old(self)@
            }),
            r == (if old(self)@.live.code_roots.contains_key(*contract) {
                Some(old(self)@.live.code_roots[*contract])
            } else {
                None::<(Salt, Bytes32)>
            }),
    {
        let prev = self.memory.code_roots.get(contract);
        self.memory.code_roots.remove(*contract);
        prev
    }

    /// Removes the live balance of `asset` held by `contract`; returns it.
    pub fn remove_balance(&mut self, contract: &ContractId, asset: &AssetId) -> (r: Option<u64>)
        ensures
            final(self)@ == (StorageView {
                live: LayerView {
                    balances: old(self)@.live.balances.remove(PairKey(*contract, *asset)),
                    ..old(self)@.live
                },
                ..old(self)@
            }),
            r == (if old(self)@.live.balances.contains_key(PairKey(*contract, *asset)) {
                Some(old(self)@.live.balances[PairKey(*contract, *asset)])
            } else {
                None::<u64>
            }),
    {
        let prev = self.memory.balances.get(&PairKey(*contract, *asset));
        self.memory.balances.remove(PairKey(*contract, *asset));
        prev
    }

    /// Removes the live bytecode of `contract`; the bytecode slot stays.
    pub fn remove_contract(&mut self, contract: &ContractId)
        ensures
            final(self)@ == (StorageView {
                live: LayerView {
                    contracts: old(self)@.live.contracts.remove(*contract),
                    ..old(self)@.live
                },
                ..old(self)@
            }),
    {
        self.memory.contracts.remove(*contract);
    }

    /// Whether live storage holds bytecode for `contract`.
    pub fn contains_contract(&self, contract: &ContractId) -> (r: bool)
        ensures
            r == self@.live.contracts.contains_key(*contract),
    {
        self.memory.contracts.get(contract).is_some()
    }

    /// Stores the bytecode of `contract` in the live layer.
    pub fn insert_contract(&mut self, contract: &ContractId, code: Contract)
        requires
            old(self)@.codes.len() < usize::MAX,
        ensures
            final(self)@ == (StorageView {
                live: LayerView {
                    contracts: old(self)@.live.contracts.insert(
                        *contract,
                        old(self)@.codes.len() as usize,
                    ),
                    ..old(self)@.live
                },
                codes: old(self)@.codes.push(code@),
                ..old(self)@
            }),
    {
        let slot = self.codes.len();
        let ghost before = self.codes@;
        self.codes.push(code);
        self.memory.contracts.insert(*contract, slot);
        assert(self.codes@.map_values(|c: Contract| c@) =~= before.map_values(|c: Contract| c@).push(
            code@,
        ));
    }

    /// The live bytecode of `contract`.
    pub fn contract(&self, contract: &ContractId) -> (r: Option<Contract>)
        requires
            self@.wf(),
        ensures
            self@.live.contracts.contains_key(*contract) ==> (r matches Some(c) && c@
                == self@.codes[self@.live.contracts[*contract] as int]),
            !self@.live.contracts.contains_key(*contract) ==> r is None,
    {
        match self.memory.contracts.get(contract) {
            Some(slot) => {
                if slot < self.codes.len() {
                    Some(self.codes[slot].duplicate())
                } else {
                    None
                }
            },
            None => None,
        }
    }

    /// Accepts the current transaction: the live layer becomes the committed one.
    pub fn commit(&mut self)
        ensures
            committed(old(self)@, final(self)@),
    {
        self.transacted = self.memory.snapshot();
    }

    /// Discards the current transaction: the live layer goes back to the committed one.
    pub fn revert(&mut self)
        ensures
            reverted(old(self)@, final(self)@),
    {
        self.memory = self.transacted.snapshot();
    }

    /// Discards all unflushed work: every layer goes back to the persisted one.
    pub fn rollback(&mut self)
        ensures
            rolled_back(old(self)@, final(self)@),
    {
        self.memory = self.persisted.snapshot();
        self.transacted = self.persisted.snapshot();
    }

    /// Flushes: the committed layer is persisted and becomes live.
    pub fn persist(&mut self)
        ensures
            persisted(old(self)@, final(self)@),
    {
        self.memory = self.transacted.snapshot();
        self.persisted = self.transacted.snapshot();
    }
}

/// The bytes of the word `coinbase`, whose hash is the default coinbase.
pub const COINBASE_SEED: [u8; 8] = [0x63, 0x6f, 0x69, 0x6e, 0x62, 0x61, 0x73, 0x65];

/// The four big-endian bytes of `h`.
pub open spec fn be_bytes_u32(h: u32) -> Seq<u8> {
    seq![
        (h / 0x100_0000) as u8,
        ((h / 0x1_0000) % 256) as u8,
        ((h / 256) % 256) as u8,
        (h % 256) as u8,
    ]
}

/// `a` comes before `b`, or equals it, in lexicographic byte order.
pub open spec fn lex_le(a: Seq<u8>, b: Seq<u8>) -> bool
    decreases a.len(),
{
    if a.len() == 0 {
        true
    } else if b.len() == 0 {
        false
    } else if a[0] != b[0] {
        a[0] < b[0]
    } else {
        lex_le(a.drop_first(), b.drop_first())
    }
}

/// Relies on `itertools::Itertools::sorted_by_key`: the same entries, in
/// ascending order of their keys, which as byte arrays compare
/// lexicographically.
#[verifier::external_body]
fn sorted_by_key<V: Copy>(v: Vec<([u8; 32], V)>) -> (r: Vec<([u8; 32], V)>)
    ensures
        r@.len() == v@.len(),
        forall|i: int| 0 <= i < r@.len() ==> v@.contains(#[trigger] r@[i]),
        forall|i: int| 0 <= i < v@.len() ==> r@.contains(#[trigger] v@[i]),
        forall|i: int, j: int| 0 <= i < j < r@.len() ==> lex_le(r@[i].0@, r@[j].0@),
{
    itertools::Itertools::sorted_by_key(v.into_iter(), |e| e.0).collect()
}

/// Relies on `u64::to_be_bytes`: the eight bytes of `v`, most significant first.
#[verifier::external_body]
fn word_be_bytes(v: u64) -> (r: [u8; 8])
    ensures
        be_value(r@) == v,
{
    v.to_be_bytes()
}

/// `s` lists each entry of `m` under `parent` once, by its inner key, in
/// ascending order of that key.
pub open spec fn lists_under<V>(m: Map<PairKey, V>, parent: ContractId, s: Seq<([u8; 32], V)>) -> bool {
    &&& forall|i: int|
        0 <= i < s.len() ==> m.contains_key(PairKey(parent, #[trigger] s[i].0)) && m[PairKey(
            parent,
            s[i].0,
        )] == s[i].1
    &&& forall|k: [u8; 32]|
        m.contains_key(PairKey(parent, k)) ==> exists|i: int| 0 <= i < s.len() && s[i].0 == k
    &&& forall|i: int, j: int|
        0 <= i < j < s.len() ==> s[i].0 != s[j].0 && lex_le(s[i].0@, s[j].0@)
}

/// The entries of `m` under `parent`, by inner key, in ascending order.
fn sorted_under<V: KeyEq>(m: &LogMap<PairKey, V>, parent: &ContractId) -> (r: Vec<([u8; 32], V)>)
    ensures
        lists_under(m@, *parent, r@),
{
    let entries = m.entries();
    let mut under: Vec<([u8; 32], V)> = Vec::new();
    let mut i: usize = 0;
    while i < entries.len()
        invariant
            i <= entries@.len(),
            forall|t: int|
                0 <= t < entries@.len() ==> m@.contains_key(#[trigger] entries@[t].0)
                    && m@[entries@[t].0] == entries@[t].1,
            forall|a: int, b: int| 0 <= a < b < entries@.len() ==> entries@[a].0 != entries@[b].0,
            forall|e: int|
                0 <= e < under@.len() ==> m@.contains_key(PairKey(*parent, #[trigger] under@[e].0))
                    && m@[PairKey(*parent, under@[e].0)] == under@[e].1,
            forall|a: int, b: int| 0 <= a < b < under@.len() ==> under@[a].0 != under@[b].0,
            forall|e: int|
                0 <= e < under@.len() ==> exists|t: int|
                    0 <= t < i && entries@[t].0 == PairKey(*parent, #[trigger] under@[e].0),
            forall|t: int|
                0 <= t < i && (#[trigger] entries@[t].0).0 == *parent ==> exists|e: int|
                    0 <= e < under@.len() && under@[e].0 == entries@[t].0.1,
        decreases entries@.len() - i,
    {
        let e = entries[i];
        if e.0.0.key_eq(parent) {
            let ghost under0 = under@;
            under.push((e.0.1, e.1));
            proof {
                assert(e.0 == PairKey(*parent, e.0.1));
                assert forall|a: int, b: int| 0 <= a < b < under@.len() implies under@[a].0
                    != under@[b].0 by {
                    if b == under@.len() - 1 {
                        let t = choose|t: int|
                            0 <= t < i && entries@[t].0 == PairKey(*parent, under0[a].0);
                        assert(entries@[t].0 != entries@[i as int].0);
                    }
                }
                assert forall|e2: int| 0 <= e2 < under@.len() implies exists|t: int|
                    0 <= t < i + 1 && entries@[t].0 == PairKey(*parent, #[trigger] under@[e2].0) by {
                    if e2 < under0.len() {
                        let t = choose|t: int|
                            0 <= t < i && entries@[t].0 == PairKey(*parent, under0[e2].0);
                        assert(entries@[t].0 == PairKey(*parent, under@[e2].0));
                    } else {
                        assert(entries@[i as int].0 == PairKey(*parent, under@[e2].0));
                    }
                }
                assert forall|t: int|
                    0 <= t < i + 1 && (#[trigger] entries@[t].0).0 == *parent implies exists|
                    e2: int,
                | 0 <= e2 < under@.len() && under@[e2].0 == entries@[t].0.1 by {
                    if t < i {
                        let e2 = choose|e2: int|
                            0 <= e2 < under0.len() && under0[e2].0 == entries@[t].0.1;
                        assert(under@[e2] == under0[e2]);
                    } else {
                        assert(under@[under@.len() - 1].0 == entries@[t].0.1);
                    }
                }
                assert forall|e2: int| 0 <= e2 < under@.len() implies m@.contains_key(
                    PairKey(*parent, #[trigger] under@[e2].0),
                ) && m@[PairKey(*parent, under@[e2].0)] == under@[e2].1 by {
                    if e2 < under0.len() {
                        assert(under@[e2] == under0[e2]);
                    }
                }
            }
        }
        i = i + 1;
    }
    let sorted = sorted_by_key(under);
    proof {
        let s = sorted@;
        assert forall|k: [u8; 32]| m@.contains_key(PairKey(*parent, k)) implies exists|x: int|
            0 <= x < s.len() && s[x].0 == k by {
            let t = choose|t: int| 0 <= t < entries@.len() && entries@[t].0 == PairKey(*parent, k);
            assert(entries@[t].0.0 == *parent);
            let e2 = choose|e2: int| 0 <= e2 < under@.len() && under@[e2].0 == entries@[t].0.1;
            assert(s.contains(under@[e2]));
        }
        assert forall|x: int| 0 <= x < s.len() implies m@.contains_key(
            PairKey(*parent, #[trigger] s[x].0),
        ) && m@[PairKey(*parent, s[x].0)] == s[x].1 by {
            assert(under@.contains(s[x]));
        }
        assert forall|x: int, y: int| 0 <= x < y < s.len() implies s[x].0 != s[y].0 by {
            assert(under@.contains(s[x]));
            assert(under@.contains(s[y]));
            let a = choose|a: int| 0 <= a < under@.len() && under@[a] == s[x];
            let b = choose|b: int| 0 <= b < under@.len() && under@[b] == s[y];
            if s[x].0 == s[y].0 {
                if a != b {
                    if a < b {
                        assert(under@[a].0 != under@[b].0);
                    } else {
                        assert(under@[b].0 != under@[a].0);
                    }
                }
                lemma_sorted_distinct(under@, s, x, y);
            }
        }
    }
    sorted
}

/// A permutation of entries with distinct keys holds no entry twice.
proof fn lemma_sorted_distinct<V>(v: Seq<([u8; 32], V)>, s: Seq<([u8; 32], V)>, x: int, y: int)
    requires
        s.len() == v.len(),
        forall|i: int| 0 <= i < v.len() ==> s.contains(#[trigger] v[i]),
        forall|a: int, b: int| 0 <= a < b < v.len() ==> v[a].0 != v[b].0,
        0 <= x < y < s.len(),
    ensures
        s[x] != s[y],
{
    if s[x] == s[y] {
        // Sending each entry of `v` to a position of `s` that holds it, and `y`
        // to `x`, maps `len` positions one to one into `len - 1` positions.
        let n = v.len() as int;
        let g = |i: int|
            {
                let j = choose|j: int| 0 <= j < s.len() && s[j] == v[i];
                if j == y {
                    x
                } else {
                    j
                }
            };
        let dom = vstd::set_lib::set_int_range(0, n);
        let img = vstd::set_lib::set_int_range(0, n).remove(y);
        vstd::set_lib::lemma_int_range(0, n);
        assert(img.len() == n - 1);
        assert forall|i1: int, i2: int|
            dom.contains(i1) && dom.contains(i2) && #[trigger] g(i1) == #[trigger] g(i2) implies i1
            == i2 by {
            assert(s.contains(v[i1]));
            assert(s.contains(v[i2]));
            if i1 != i2 {
                if i1 < i2 {
                    assert(v[i1].0 != v[i2].0);
                } else {
                    assert(v[i2].0 != v[i1].0);
                }
            }
        }
        assert(vstd::relations::injective_on(g, dom));
        vstd::set_lib::lemma_map_size(dom, dom.map(g), g);
        assert forall|j: int| dom.map(g).contains(j) implies img.contains(j) by {
            let i = choose|i: int| dom.contains(i) && g(i) == j;
            assert(s.contains(v[i]));
        }
        vstd::set_lib::lemma_len_subset(dom.map(g), img);
    }
}

impl Default for MemoryStorage {
    /// Empty storage at block height 1, whose coinbase is the hash of the
    /// word `coinbase`.
    fn default() -> (r: Self)
        ensures
            r@.block_height == 1,
            r@.coinbase@ == sha256_of(COINBASE_SEED@),
            r@.live == empty_layer(),
            r@.transacted == empty_layer(),
            r@.persisted == empty_layer(),
            r@.codes == Seq::<Seq<u8>>::empty(),
    {
        let coinbase = sha256(&COINBASE_SEED);
        MemoryStorage::new(1, coinbase)
    }
}

impl MemoryStorage {
    /// The hash of block `block_height`: SHA-256 of its four big-endian bytes.
    pub fn block_hash(&self, block_height: u32) -> (r: Bytes32)
        ensures
            r@ == sha256_of(be_bytes_u32(block_height)),
    {
        let bytes: [u8; 4] = [
            (block_height / 0x100_0000) as u8,
            ((block_height / 0x1_0000) % 256) as u8,
            ((block_height / 256) % 256) as u8,
            (block_height % 256) as u8,
        ];
        assert(bytes@ =~= be_bytes_u32(block_height));
        sha256(&bytes)
    }
}

/// Each of `leaves` holds the eight big-endian bytes of the balance of the
/// matching entry of `s`.
pub open spec fn words_of(s: Seq<([u8; 32], u64)>, leaves: Seq<Seq<u8>>) -> bool {
    &&& leaves.len() == s.len()
    &&& forall|i: int|
        0 <= i < s.len() ==> (#[trigger] leaves[i]).len() == 8 && be_value(leaves[i]) == s[i].1
}

impl MemoryStorage {
    /// The Merkle root over the live balances of `contract`: one leaf per
    /// asset, in ascending order of asset id, holding the balance as eight
    /// big-endian bytes. `None` when the assets are too many for a tree.
    pub fn balances_root(&self, contract: &ContractId) -> (r: Option<Bytes32>)
        ensures
            r matches Some(root) ==> exists|s: Seq<([u8; 32], u64)>, leaves: Seq<Seq<u8>>|
                lists_under(self@.live.balances, *contract, s) && words_of(s, leaves)
                    && is_leaves_root(root@, leaves),
            r is None ==> exists|s: Seq<([u8; 32], u64)>|
                lists_under(self@.live.balances, *contract, s) && s.len() > MAX_LEAF_INDEX,
    {
        let sorted = sorted_under(&self.memory.balances, contract);
        assert(lists_under(self@.live.balances, *contract, sorted@));
        if sorted.len() as u64 > MAX_LEAF_INDEX {
            return None;
        }
        let mut leaves: Vec<Vec<u8>> = Vec::new();
        let mut i: usize = 0;
        while i < sorted.len()
            invariant
                i <= sorted@.len(),
                leaves@.len() == i,
                forall|t: int|
                    0 <= t < i ==> (#[trigger] leaves@[t])@.len() == 8 && be_value(leaves@[t]@)
                        == sorted@[t].1,
            decreases sorted@.len() - i,
        {
            let bytes = word_be_bytes(sorted[i].1);
            let mut v: Vec<u8> = Vec::new();
            crate::hash::append_bytes(&mut v, &bytes);
            assert(v@ =~= bytes@);
            leaves.push(v);
            i = i + 1;
        }
        let root = ephemeral_merkle_root(&leaves);
        let ghost data = leaves@.map_values(|l: Vec<u8>| l@);
        assert(lists_under(self@.live.balances, *contract, sorted@));
        assert(is_leaves_root(root@, data));
        assert forall|t: int| 0 <= t < sorted@.len() implies (#[trigger] data[t]).len() == 8
            && be_value(data[t]) == sorted@[t].1 by {
            assert(data[t] == leaves@[t]@);
        }
        assert(words_of(sorted@, data));
        assert(lists_under(self@.live.balances, *contract, sorted@) && words_of(sorted@, data)
            && is_leaves_root(root@, data));
        Some(root)
    }

    /// The Merkle root over the live state of `contract`: one leaf per key,
    /// in ascending order of key, holding the 32-byte value. `None` when the
    /// keys are too many for a tree.
    pub fn state_root(&self, contract: &ContractId) -> (r: Option<Bytes32>)
        ensures
            r matches Some(root) ==> exists|s: Seq<([u8; 32], Bytes32)>|
                #![trigger lists_under(self@.live.contract_state, *contract, s)]
                lists_under(self@.live.contract_state, *contract, s) && is_leaves_root(
                    root@,
                    Seq::new(s.len(), |i: int| s[i].1@),
                ),
            r is None ==> exists|s: Seq<([u8; 32], Bytes32)>|
                lists_under(self@.live.contract_state, *contract, s) && s.len() > MAX_LEAF_INDEX,
    {
        let sorted = sorted_under(&self.memory.contract_state, contract);
        assert(lists_under(self@.live.contract_state, *contract, sorted@));
        if sorted.len() as u64 > MAX_LEAF_INDEX {
            return None;
        }
        let mut leaves: Vec<Vec<u8>> = Vec::new();
        let mut i: usize = 0;
        while i < sorted.len()
            invariant
                i <= sorted@.len(),
                leaves@.len() == i,
                forall|t: int| 0 <= t < i ==> (#[trigger] leaves@[t])@ == sorted@[t].1@,
            decreases sorted@.len() - i,
        {
            let mut v: Vec<u8> = Vec::new();
            crate::hash::append_bytes(&mut v, &sorted[i].1);
            leaves.push(v);
            i = i + 1;
        }
        let root = ephemeral_merkle_root(&leaves);
        assert(leaves@.map_values(|l: Vec<u8>| l@) =~= Seq::new(
            sorted@.len(),
            |t: int| sorted@[t].1@,
        ));
        assert(lists_under(self@.live.contract_state, *contract, sorted@));
        Some(root)
    }
}

/// Committing and then reverting leaves the live layer as it was.
pub proof fn lemma_commit_then_revert(s0: StorageView, s1: StorageView, s2: StorageView)
    requires
        committed(s0, s1),
        reverted(s1, s2),
    ensures
        s2.live == s0.live,
        s2 == (StorageView { transacted: s0.live, ..s0 }),
{
}

/// Persisting and then rolling back leaves every layer at the committed
/// layer from before the persist, which is then also the persisted one.
pub proof fn lemma_persist_then_rollback(s0: StorageView, s1: StorageView, s2: StorageView)
    requires
        persisted(s0, s1),
        rolled_back(s1, s2),
    ensures
        s2.live == s0.transacted,
        s2.transacted == s0.transacted,
        s2.persisted == s0.transacted,
        s2 == s1,
{
}

/// Reverting restores the last committed layer, whatever happened to the
/// live layer since the commit.
pub proof fn lemma_revert_restores_commit(
    s0: StorageView,
    s1: StorageView,
    s2: StorageView,
    s3: StorageView,
)
    requires
        committed(s0, s1),
        s2.transacted == s1.transacted,
        reverted(s2, s3),
    ensures
        s3.live == s0.live,
{
}

} // verus!

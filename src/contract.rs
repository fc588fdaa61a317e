//! Contract bytecode, its code root and its id.
use crate::gtf::TxKind;
use crate::hash::{append_bytes, sha256, sha256_of, Bytes32};
use crate::merkle::{ephemeral_merkle_root, is_leaves_root};
use vstd::prelude::*;

verus! {

/// Seed hashed in front of the salt and code root to derive a contract id.
pub const CONTRACT_ID_SEED: [u8; 4] = [0x46, 0x55, 0x45, 0x4c];

/// Contract bytecode.
pub struct Contract(pub Vec<u8>);

impl View for Contract {
    type V = Seq<u8>;

    open spec fn view(&self) -> Seq<u8> {
        self.0@
    }
}

impl From<Vec<u8>> for Contract {
    fn from(code: Vec<u8>) -> (r: Contract) {
        Contract(code)
    }
}

impl vstd::std_specs::convert::FromSpecImpl<Vec<u8>> for Contract {
    open spec fn obeys_from_spec() -> bool {
        true
    }

    open spec fn from_spec(code: Vec<u8>) -> Contract {
        Contract(code)
    }
}

/// Why a transaction yields no contract.
#[derive(Clone, Copy, Debug, PartialEq, Eq)]
pub enum ContractFromTxError {
    /// The bytecode witness index of a create transaction names no witness.
    BytecodeWitnessIndex,
    /// The transaction does not create a contract.
    NotCreate,
}

/// Number of 8-byte words that cover `len` bytes.
pub open spec fn word_count(len: nat) -> nat {
    (len + 7) / 8
}

/// The `i`-th 8-byte word of `code`, zero padded at the end.
pub open spec fn code_word(code: Seq<u8>, i: nat) -> Seq<u8> {
    Seq::new(8, |j: int| if 8 * i + j < code.len() { code[8 * i + j] } else { 0u8 })
}

/// The words of `code`, zero padded at the end: the leaves of its code root.
pub open spec fn code_words(code: Seq<u8>) -> Seq<Seq<u8>> {
    Seq::new(word_count(code.len()), |i: int| code_word(code, i as nat))
}

/// The contract id derived from a salt and a code root: SHA-256 over the
/// seed, the salt and the root.
pub open spec fn contract_id_of(salt: Seq<u8>, root: Seq<u8>) -> Seq<u8> {
    sha256_of(CONTRACT_ID_SEED@ + salt + root)
}

impl Contract {
    pub fn from_bytes(code: &[u8]) -> (r: Self)
        ensures
            r@ == code@,
    {
        let mut v: Vec<u8> = Vec::new();
        append_bytes(&mut v, code);
        Contract(v)
    }

    /// An independent copy.
    pub fn duplicate(&self) -> (r: Self)
        ensures
            r@ == self@,
    {
        Contract::from_bytes(self.0.as_slice())
    }

    pub fn into_bytes(self) -> (r: Vec<u8>)
        ensures
            r@ == self@,
    {
        self.0
    }

    /// The `i`-th 8-byte word of the code, zero padded.
    fn word(&self, i: usize) -> (r: [u8; 8])
        requires
            8 * i < self@.len(),
        ensures
            r@ == code_word(self@, i as nat),
    {
        let mut w: [u8; 8] = [0u8; 8];
        let mut j: usize = 0;
        while j < 8
            invariant
                8 * i < self@.len(),
                j <= 8,
                forall|t: int| 0 <= t < j ==> w@[t] == code_word(self@, i as nat)[t],
                forall|t: int| j <= t < 8 ==> w@[t] == 0u8,
            decreases 8 - j,
        {
            if j < self.0.len() - 8 * i {
                w[j] = self.0[8 * i + j];
            }
            j = j + 1;
        }
        assert(w@ =~= code_word(self@, i as nat));
        w
    }

    /// The code root: the Merkle root over the 8-byte words of the code, the
    /// last one zero padded.
    pub fn root(&self) -> (r: Bytes32)
        ensures
            is_leaves_root(r@, code_words(self@)),
    {
        let len = self.0.len();
        let n: usize = len / 8 + if len % 8 == 0 { 0 } else { 1 };
        assert(n == word_count(len as nat));
        let mut words: Vec<Vec<u8>> = Vec::new();
        let mut i: usize = 0;
        while i < n
            invariant
                n == word_count(self@.len()),
                n <= len / 8 + 1,
                len == self@.len(),
                i <= n,
                words@.len() == i,
                forall|k: int| 0 <= k < i ==> (#[trigger] words@[k])@ == code_word(self@, k as nat),
            decreases n - i,
        {
            let w = self.word(i);
            let mut v: Vec<u8> = Vec::new();
            append_bytes(&mut v, &w);
            words.push(v);
            i = i + 1;
        }
        assert(words@.map_values(|l: Vec<u8>| l@) =~= code_words(self@));
        ephemeral_merkle_root(&words)
    }

    /// The contract that a transaction creates: the witness that a create
    /// transaction names as its bytecode.
    pub fn from_transaction(
        kind: TxKind,
        bytecode_witness_index: u64,
        witnesses: &Vec<Vec<u8>>,
    ) -> (r: Result<Contract, ContractFromTxError>)
        ensures
            kind != TxKind::Create ==> r == Err::<Contract, ContractFromTxError>(
                ContractFromTxError::NotCreate,
            ),
            kind == TxKind::Create && bytecode_witness_index >= witnesses@.len() ==> r == Err::<
                Contract,
                ContractFromTxError,
            >(ContractFromTxError::BytecodeWitnessIndex),
            kind == TxKind::Create && bytecode_witness_index < witnesses@.len() ==> (r matches Ok(
                c,
            ) && c@ == witnesses@[bytecode_witness_index as int]@),
    {
        if kind != TxKind::Create {
            return Err(ContractFromTxError::NotCreate);
        }
        if bytecode_witness_index >= witnesses.len() as u64 {
            return Err(ContractFromTxError::BytecodeWitnessIndex);
        }
        Ok(Contract::from_bytes(witnesses[bytecode_witness_index as usize].as_slice()))
    }

    /// The contract id for this code under `salt` and code root `root`.
    pub fn id(&self, salt: &[u8; 32], root: &Bytes32) -> (r: [u8; 32])
        ensures
            r@ == contract_id_of(salt@, root@),
    {
        let mut buf: Vec<u8> = Vec::new();
        append_bytes(&mut buf, &CONTRACT_ID_SEED);
        append_bytes(&mut buf, salt);
        append_bytes(&mut buf, root);
        sha256(buf.as_slice())
    }
}

} // verus!

//! The `GTF` instruction: fields of the transaction under execution, either
//! as values or as memory offsets into its serialized form.
//!
//! The transaction is seen through the values and offsets that its codec
//! lays out: each input, output and witness starts at a known offset, and
//! each of their fields either holds a value or sits at a known offset from
//! that start.
use crate::memory::{VmMemory, VM_MAX_RAM};
use crate::merkle::exp2;
use crate::registers::{PanicReason, Registers, REG_PC, SYSTEM_REGISTER_COUNT};
use vstd::prelude::*;

verus! {

/// Width of a word in bytes.
pub const WORD_SIZE: u64 = 8;

#[derive(Clone, Copy, Debug, PartialEq, Eq, Structural)]
pub enum TxKind {
    Script,
    Create,
    Mint,
    Upgrade,
    Upload,
    Blob,
}

/// The type tag of a transaction kind.
pub open spec fn tx_kind_tag(k: TxKind) -> u64 {
    match k {
        TxKind::Script => 0,
        TxKind::Create => 1,
        TxKind::Mint => 2,
        TxKind::Upgrade => 3,
        TxKind::Upload => 4,
        TxKind::Blob => 5,
    }
}

#[derive(Clone, Copy, Debug, PartialEq, Eq, Structural)]
pub enum InputKind {
    Coin,
    Contract,
    Message,
}

pub open spec fn input_kind_tag(k: InputKind) -> u64 {
    match k {
        InputKind::Coin => 0,
        InputKind::Contract => 1,
        InputKind::Message => 2,
    }
}

#[derive(Clone, Copy, Debug, PartialEq, Eq, Structural)]
pub enum OutputKind {
    Coin,
    Contract,
    Change,
    Variable,
    ContractCreated,
}

pub open spec fn output_kind_tag(k: OutputKind) -> u64 {
    match k {
        OutputKind::Coin => 0,
        OutputKind::Contract => 1,
        OutputKind::Change => 2,
        OutputKind::Variable => 3,
        OutputKind::ContractCreated => 4,
    }
}

/// A field of an input, an output or the transaction itself.
#[derive(Clone, Copy, Debug, PartialEq, Eq, Structural)]
pub enum Field {
    TxId,
    OutputIndex,
    Owner,
    Amount,
    AssetId,
    TxPointer,
    WitnessIndex,
    PredicateLength,
    PredicateDataLength,
    PredicateGasUsed,
    Predicate,
    PredicateData,
    ContractId,
    Sender,
    Recipient,
    Nonce,
    DataLength,
    Data,
    To,
    InputIndex,
    StateRoot,
    ScriptGasLimit,
    ScriptLength,
    ScriptDataLength,
    Script,
    ScriptData,
    BytecodeWitnessIndex,
    StorageSlotsCount,
    Salt,
    BlobId,
    BytecodeRoot,
    SubsectionIndex,
    SubsectionsNumber,
    ProofSetCount,
    UpgradePurpose,
}

/// The fields that an entry holds: values, and offsets from its start.
pub struct Entry<K> {
    pub kind: K,
    /// Offset of the entry from the start of the transaction.
    pub offset: u64,
    pub values: Vec<(Field, u64)>,
    pub offsets: Vec<(Field, u64)>,
}

/// What the `GTF` instruction can see of a transaction.
pub struct TxView {
    pub kind: TxKind,
    pub inputs: Vec<Entry<InputKind>>,
    pub outputs: Vec<Entry<OutputKind>>,
    /// Offset of each witness from the start of the transaction.
    pub witness_offsets: Vec<u64>,
    pub witness_lengths: Vec<u64>,
    /// The set policies, as a bit mask, and the value of each.
    pub policy_bits: u64,
    pub tip: Option<u64>,
    pub witness_limit: Option<u64>,
    pub maturity: Option<u64>,
    pub expiration: Option<u64>,
    pub max_fee: Option<u64>,
    /// Transaction-specific fields: values, and offsets from the start.
    pub values: Vec<(Field, u64)>,
    pub offsets: Vec<(Field, u64)>,
    pub storage_slot_offsets: Vec<u64>,
    pub proof_set_offsets: Vec<u64>,
    /// For each contract input, the index of the output that it maps to.
    pub input_contract_output_index: Vec<(u16, u16)>,
}

/// What a `GTF` instruction asks for.
#[derive(Clone, Copy, Debug, PartialEq, Eq, Structural)]
pub enum GTFArgs {
    Type,
    ScriptGasLimit,
    PolicyTypes,
    PolicyTip,
    PolicyWitnessLimit,
    PolicyMaturity,
    PolicyExpiration,
    PolicyMaxFee,
    ScriptInputsCount,
    CreateInputsCount,
    TxInputsCount,
    ScriptOutputsCount,
    CreateOutputsCount,
    TxOutputsCount,
    ScriptWitnessesCount,
    CreateWitnessesCount,
    TxWitnessesCount,
    ScriptInputAtIndex,
    CreateInputAtIndex,
    TxInputAtIndex,
    ScriptOutputAtIndex,
    CreateOutputAtIndex,
    TxOutputAtIndex,
    ScriptWitnessAtIndex,
    CreateWitnessAtIndex,
    TxWitnessAtIndex,
    TxLength,
    InputType,
    InputCoinTxId,
    InputCoinOutputIndex,
    InputCoinOwner,
    InputCoinAmount,
    InputCoinAssetId,
    InputCoinTxPointer,
    InputCoinWitnessIndex,
    InputCoinPredicateLength,
    InputCoinPredicateDataLength,
    InputCoinPredicateGasUsed,
    InputCoinPredicate,
    InputCoinPredicateData,
    InputContractTxId,
    InputContractOutputIndex,
    InputContractId,
    InputMessageSender,
    InputMessageRecipient,
    InputMessageAmount,
    InputMessageNonce,
    InputMessageWitnessIndex,
    InputMessageDataLength,
    InputMessagePredicateLength,
    InputMessagePredicateDataLength,
    InputMessagePredicateGasUsed,
    InputMessageData,
    InputMessagePredicate,
    InputMessagePredicateData,
    OutputType,
    OutputCoinTo,
    OutputCoinAmount,
    OutputCoinAssetId,
    OutputContractInputIndex,
    OutputContractCreatedContractId,
    OutputContractCreatedStateRoot,
    WitnessDataLength,
    WitnessData,
    ScriptLength,
    ScriptDataLength,
    Script,
    ScriptData,
    CreateBytecodeWitnessIndex,
    CreateStorageSlotsCount,
    CreateSalt,
    CreateStorageSlotAtIndex,
    BlobId,
    BlobWitnessIndex,
    UploadRoot,
    UploadWitnessIndex,
    UploadSubsectionIndex,
    UploadSubsectionsCount,
    UploadProofSetCount,
    UploadProofSetAtIndex,
    UpgradePurpose,
}

/// `a + b`, or the largest word when that does not fit.
pub open spec fn sat_add(a: u64, b: u64) -> u64 {
    if a + b > u64::MAX {
        u64::MAX
    } else {
        (a + b) as u64
    }
}

fn saturating_add(a: u64, b: u64) -> (r: u64)
    ensures
        r == sat_add(a, b),
{
    if a > u64::MAX - b {
        u64::MAX
    } else {
        a + b
    }
}

/// The first entry for `f` in `s`.
pub open spec fn lookup_field(s: Seq<(Field, u64)>, f: Field) -> Option<u64>
    decreases s.len(),
{
    if s.len() == 0 {
        None
    } else if s[0].0 == f {
        Some(s[0].1)
    } else {
        lookup_field(s.drop_first(), f)
    }
}

fn find_field(s: &Vec<(Field, u64)>, f: Field) -> (r: Option<u64>)
    ensures
        r == lookup_field(s@, f),
{
    let mut i: usize = 0;
    assert(s@.subrange(0, s@.len() as int) =~= s@);
    while i < s.len()
        invariant
            i <= s@.len(),
            lookup_field(s@, f) == lookup_field(s@.subrange(i as int, s@.len() as int), f),
        decreases s@.len() - i,
    {
        assert(s@.subrange(i as int, s@.len() as int).drop_first() =~= s@.subrange(
            i + 1,
            s@.len() as int,
        ));
        if s[i].0 == f {
            return Some(s[i].1);
        }
        i = i + 1;
    }
    None
}

/// The entry under `b` in `s`, when `b` is in range.
pub open spec fn entry_at<T>(s: Seq<T>, b: u64) -> Option<T> {
    if b < s.len() {
        Some(s[b as int])
    } else {
        None
    }
}

/// The value of field `f` of input `b`, which must be of kind `k`.
pub open spec fn input_value(tx: TxView, b: u64, k: InputKind, f: Field) -> Result<u64, PanicReason> {
    match entry_at(tx.inputs@, b) {
        Some(e) => if e.kind == k {
            match lookup_field(e.values@, f) {
                Some(v) => Ok(v),
                None => Err(PanicReason::InputNotFound),
            }
        } else {
            Err(PanicReason::InputNotFound)
        },
        None => Err(PanicReason::InputNotFound),
    }
}

/// Where field `f` of input `b`, which must be of kind `k`, sits in memory.
pub open spec fn input_offset(tx: TxView, ofs: u64, b: u64, k: InputKind, f: Field) -> Result<
    u64,
    PanicReason,
> {
    match entry_at(tx.inputs@, b) {
        Some(e) => if e.kind == k {
            match lookup_field(e.offsets@, f) {
                Some(v) => Ok(sat_add(ofs, sat_add(e.offset, v))),
                None => Err(PanicReason::InputNotFound),
            }
        } else {
            Err(PanicReason::InputNotFound)
        },
        None => Err(PanicReason::InputNotFound),
    }
}

/// Output `b` is of kind `k`, or also of kind change when `change` is set.
pub open spec fn output_matches(kind: OutputKind, k: OutputKind, change: bool) -> bool {
    kind == k || (change && kind == OutputKind::Change)
}

/// The value of field `f` of output `b`, which must match `k`; `err` when not.
pub open spec fn output_value(
    tx: TxView,
    b: u64,
    k: OutputKind,
    change: bool,
    f: Field,
    err: PanicReason,
) -> Result<u64, PanicReason> {
    match entry_at(tx.outputs@, b) {
        Some(e) => if output_matches(e.kind, k, change) {
            match lookup_field(e.values@, f) {
                Some(v) => Ok(v),
                None => Err(err),
            }
        } else {
            Err(err)
        },
        None => Err(err),
    }
}

/// Where field `f` of output `b`, which must match `k`, sits in memory.
pub open spec fn output_offset(
    tx: TxView,
    ofs: u64,
    b: u64,
    k: OutputKind,
    change: bool,
    f: Field,
) -> Result<u64, PanicReason> {
    match entry_at(tx.outputs@, b) {
        Some(e) => if output_matches(e.kind, k, change) {
            match lookup_field(e.offsets@, f) {
                Some(v) => Ok(sat_add(ofs, sat_add(e.offset, v))),
                None => Err(PanicReason::OutputNotFound),
            }
        } else {
            Err(PanicReason::OutputNotFound)
        },
        None => Err(PanicReason::OutputNotFound),
    }
}

/// A transaction-specific value, only for transactions of kind `k`.
pub open spec fn specific_value(tx: TxView, k: TxKind, f: Field) -> Result<u64, PanicReason> {
    if tx.kind == k {
        match lookup_field(tx.values@, f) {
            Some(v) => Ok(v),
            None => Err(PanicReason::InvalidMetadataIdentifier),
        }
    } else {
        Err(PanicReason::InvalidMetadataIdentifier)
    }
}

/// Where a transaction-specific field sits, only for transactions of kind `k`.
pub open spec fn specific_offset(tx: TxView, ofs: u64, k: TxKind, f: Field) -> Result<
    u64,
    PanicReason,
> {
    if tx.kind == k {
        match lookup_field(tx.offsets@, f) {
            Some(v) => Ok(sat_add(ofs, v)),
            None => Err(PanicReason::InvalidMetadataIdentifier),
        }
    } else {
        Err(PanicReason::InvalidMetadataIdentifier)
    }
}

/// Where the `b`-th element of a list of offsets sits, only for
/// transactions of kind `k`.
pub open spec fn listed_offset(
    tx: TxView,
    ofs: u64,
    k: TxKind,
    list: Seq<u64>,
    b: u64,
    err: PanicReason,
) -> Result<u64, PanicReason> {
    if tx.kind != k {
        Err(PanicReason::InvalidMetadataIdentifier)
    } else {
        match entry_at(list, b) {
            Some(o) => Ok(sat_add(ofs, o)),
            None => Err(err),
        }
    }
}

/// The value of a policy, when set.
pub open spec fn policy(p: Option<u64>) -> Result<u64, PanicReason> {
    match p {
        Some(v) => Ok(v),
        None => Err(PanicReason::PolicyIsNotSet),
    }
}

/// The output that contract input `b` maps to.
pub open spec fn contract_output_index(m: Seq<(u16, u16)>, b: u64) -> Result<u64, PanicReason>
    decreases m.len(),
{
    if b > u16::MAX {
        Err(PanicReason::InvalidMetadataIdentifier)
    } else if m.len() == 0 {
        Err(PanicReason::InputNotFound)
    } else if m[0].0 == b {
        Ok(m[0].1 as u64)
    } else {
        contract_output_index(m.drop_first(), b)
    }
}

/// The word that `GTF` yields for `args` and index `b` on `tx`, which sits
/// at `ofs` in memory and is `tx_size` bytes long; or why it panics.
pub open spec fn gtf_value(tx: TxView, ofs: u64, tx_size: u64, b: u64, args: GTFArgs) -> Result<
    u64,
    PanicReason,
> {
    let ins = tx.inputs@;
    let outs = tx.outputs@;
    let wits = tx.witness_offsets@;
    match args {
        GTFArgs::Type => Ok(tx_kind_tag(tx.kind)),
        GTFArgs::ScriptGasLimit => if tx.kind == TxKind::Script {
            match lookup_field(tx.values@, Field::ScriptGasLimit) {
                Some(v) => Ok(v),
                None => Ok(0),
            }
        } else {
            Ok(0)
        },
        GTFArgs::PolicyTypes => Ok(tx.policy_bits),
        GTFArgs::PolicyTip => policy(tx.tip),
        GTFArgs::PolicyWitnessLimit => policy(tx.witness_limit),
        GTFArgs::PolicyMaturity => policy(tx.maturity),
        GTFArgs::PolicyExpiration => policy(tx.expiration),
        GTFArgs::PolicyMaxFee => policy(tx.max_fee),
        GTFArgs::ScriptInputsCount | GTFArgs::CreateInputsCount | GTFArgs::TxInputsCount => Ok(
            ins.len() as u64,
        ),
        GTFArgs::ScriptOutputsCount | GTFArgs::CreateOutputsCount | GTFArgs::TxOutputsCount => Ok(
            outs.len() as u64,
        ),
        GTFArgs::ScriptWitnessesCount
        | GTFArgs::CreateWitnessesCount
        | GTFArgs::TxWitnessesCount => Ok(wits.len() as u64),
        GTFArgs::ScriptInputAtIndex | GTFArgs::CreateInputAtIndex | GTFArgs::TxInputAtIndex => {
            match entry_at(ins, b) {
                Some(e) => Ok(sat_add(ofs, e.offset)),
                None => Err(PanicReason::InputNotFound),
            }
        },
        GTFArgs::ScriptOutputAtIndex
        | GTFArgs::CreateOutputAtIndex
        | GTFArgs::TxOutputAtIndex => match entry_at(outs, b) {
            Some(e) => Ok(sat_add(ofs, e.offset)),
            None => Err(PanicReason::OutputNotFound),
        },
        GTFArgs::ScriptWitnessAtIndex
        | GTFArgs::CreateWitnessAtIndex
        | GTFArgs::TxWitnessAtIndex => match entry_at(wits, b) {
            Some(o) => Ok(sat_add(ofs, o)),
            None => Err(PanicReason::WitnessNotFound),
        },
        GTFArgs::TxLength => Ok(tx_size),
        GTFArgs::InputType => match entry_at(ins, b) {
            Some(e) => Ok(input_kind_tag(e.kind)),
            None => Err(PanicReason::InputNotFound),
        },
        GTFArgs::InputCoinTxId => input_offset(tx, ofs, b, InputKind::Coin, Field::TxId),
        GTFArgs::InputCoinOutputIndex => input_value(tx, b, InputKind::Coin, Field::OutputIndex),
        GTFArgs::InputCoinOwner => input_offset(tx, ofs, b, InputKind::Coin, Field::Owner),
        GTFArgs::InputCoinAmount => input_value(tx, b, InputKind::Coin, Field::Amount),
        GTFArgs::InputCoinAssetId => input_offset(tx, ofs, b, InputKind::Coin, Field::AssetId),
        GTFArgs::InputCoinTxPointer => input_offset(tx, ofs, b, InputKind::Coin, Field::TxPointer),
        GTFArgs::InputCoinWitnessIndex => input_value(tx, b, InputKind::Coin, Field::WitnessIndex),
        GTFArgs::InputCoinPredicateLength => input_value(
            tx,
            b,
            InputKind::Coin,
            Field::PredicateLength,
        ),
        GTFArgs::InputCoinPredicateDataLength => input_value(
            tx,
            b,
            InputKind::Coin,
            Field::PredicateDataLength,
        ),
        GTFArgs::InputCoinPredicateGasUsed => input_value(
            tx,
            b,
            InputKind::Coin,
            Field::PredicateGasUsed,
        ),
        GTFArgs::InputCoinPredicate => input_offset(tx, ofs, b, InputKind::Coin, Field::Predicate),
        GTFArgs::InputCoinPredicateData => input_offset(
            tx,
            ofs,
            b,
            InputKind::Coin,
            Field::PredicateData,
        ),
        GTFArgs::InputContractTxId => input_offset(tx, ofs, b, InputKind::Contract, Field::TxId),
        GTFArgs::InputContractOutputIndex => contract_output_index(
            tx.input_contract_output_index@,
            b,
        ),
        GTFArgs::InputContractId => input_offset(
            tx,
            ofs,
            b,
            InputKind::Contract,
            Field::ContractId,
        ),
        GTFArgs::InputMessageSender => input_offset(tx, ofs, b, InputKind::Message, Field::Sender),
        GTFArgs::InputMessageRecipient => input_offset(
            tx,
            ofs,
            b,
            InputKind::Message,
            Field::Recipient,
        ),
        GTFArgs::InputMessageAmount => input_value(tx, b, InputKind::Message, Field::Amount),
        GTFArgs::InputMessageNonce => input_offset(tx, ofs, b, InputKind::Message, Field::Nonce),
        GTFArgs::InputMessageWitnessIndex => input_value(
            tx,
            b,
            InputKind::Message,
            Field::WitnessIndex,
        ),
        GTFArgs::InputMessageDataLength => input_value(
            tx,
            b,
            InputKind::Message,
            Field::DataLength,
        ),
        GTFArgs::InputMessagePredicateLength => input_value(
            tx,
            b,
            InputKind::Message,
            Field::PredicateLength,
        ),
        GTFArgs::InputMessagePredicateDataLength => input_value(
            tx,
            b,
            InputKind::Message,
            Field::PredicateDataLength,
        ),
        GTFArgs::InputMessagePredicateGasUsed => input_value(
            tx,
            b,
            InputKind::Message,
            Field::PredicateGasUsed,
        ),
        GTFArgs::InputMessageData => input_offset(tx, ofs, b, InputKind::Message, Field::Data),
        GTFArgs::InputMessagePredicate => input_offset(
            tx,
            ofs,
            b,
            InputKind::Message,
            Field::Predicate,
        ),
        GTFArgs::InputMessagePredicateData => input_offset(
            tx,
            ofs,
            b,
            InputKind::Message,
            Field::PredicateData,
        ),
        GTFArgs::OutputType => match entry_at(outs, b) {
            Some(e) => Ok(output_kind_tag(e.kind)),
            None => Err(PanicReason::OutputNotFound),
        },
        GTFArgs::OutputCoinTo => output_offset(tx, ofs, b, OutputKind::Coin, true, Field::To),
        GTFArgs::OutputCoinAmount => output_value(
            tx,
            b,
            OutputKind::Coin,
            false,
            Field::Amount,
            PanicReason::OutputNotFound,
        ),
        GTFArgs::OutputCoinAssetId => output_offset(
            tx,
            ofs,
            b,
            OutputKind::Coin,
            true,
            Field::AssetId,
        ),
        GTFArgs::OutputContractInputIndex => output_value(
            tx,
            b,
            OutputKind::Contract,
            false,
            Field::InputIndex,
            PanicReason::InputNotFound,
        ),
        GTFArgs::OutputContractCreatedContractId => output_offset(
            tx,
            ofs,
            b,
            OutputKind::ContractCreated,
            false,
            Field::ContractId,
        ),
        GTFArgs::OutputContractCreatedStateRoot => output_offset(
            tx,
            ofs,
            b,
            OutputKind::ContractCreated,
            false,
            Field::StateRoot,
        ),
        GTFArgs::WitnessDataLength => match entry_at(tx.witness_lengths@, b) {
            Some(l) => Ok(l),
            None => Err(PanicReason::WitnessNotFound),
        },
        GTFArgs::WitnessData => match entry_at(wits, b) {
            Some(o) => Ok(sat_add(sat_add(ofs, o), WORD_SIZE)),
            None => Err(PanicReason::WitnessNotFound),
        },
        GTFArgs::ScriptLength => specific_value(tx, TxKind::Script, Field::ScriptLength),
        GTFArgs::ScriptDataLength => specific_value(tx, TxKind::Script, Field::ScriptDataLength),
        GTFArgs::Script => specific_offset(tx, ofs, TxKind::Script, Field::Script),
        GTFArgs::ScriptData => specific_offset(tx, ofs, TxKind::Script, Field::ScriptData),
        GTFArgs::CreateBytecodeWitnessIndex => specific_value(
            tx,
            TxKind::Create,
            Field::BytecodeWitnessIndex,
        ),
        GTFArgs::CreateStorageSlotsCount => if tx.kind == TxKind::Create {
            Ok(tx.storage_slot_offsets@.len() as u64)
        } else {
            Err(PanicReason::InvalidMetadataIdentifier)
        },
        GTFArgs::CreateSalt => specific_offset(tx, ofs, TxKind::Create, Field::Salt),
        GTFArgs::CreateStorageSlotAtIndex => listed_offset(
            tx,
            ofs,
            TxKind::Create,
            tx.storage_slot_offsets@,
            b,
            PanicReason::StorageSlotsNotFound,
        ),
        GTFArgs::BlobId => specific_offset(tx, ofs, TxKind::Blob, Field::BlobId),
        GTFArgs::BlobWitnessIndex => specific_value(tx, TxKind::Blob, Field::BytecodeWitnessIndex),
        GTFArgs::UploadRoot => specific_offset(tx, ofs, TxKind::Upload, Field::BytecodeRoot),
        GTFArgs::UploadWitnessIndex => specific_value(
            tx,
            TxKind::Upload,
            Field::BytecodeWitnessIndex,
        ),
        GTFArgs::UploadSubsectionIndex => specific_value(
            tx,
            TxKind::Upload,
            Field::SubsectionIndex,
        ),
        GTFArgs::UploadSubsectionsCount => specific_value(
            tx,
            TxKind::Upload,
            Field::SubsectionsNumber,
        ),
        GTFArgs::UploadProofSetCount => if tx.kind == TxKind::Upload {
            Ok(tx.proof_set_offsets@.len() as u64)
        } else {
            Err(PanicReason::InvalidMetadataIdentifier)
        },
        GTFArgs::UploadProofSetAtIndex => listed_offset(
            tx,
            ofs,
            TxKind::Upload,
            tx.proof_set_offsets@,
            b,
            PanicReason::ProofInUploadNotFound,
        ),
        GTFArgs::UpgradePurpose => specific_offset(tx, ofs, TxKind::Upgrade, Field::UpgradePurpose),
    }
}

fn input_value_exec(tx: &TxView, b: u64, k: InputKind, f: Field) -> (r: Result<u64, PanicReason>)
    ensures
        r == input_value(*tx, b, k, f),
{
    if b >= tx.inputs.len() as u64 {
        return Err(PanicReason::InputNotFound);
    }
    let e = &tx.inputs[b as usize];
    if e.kind != k {
        return Err(PanicReason::InputNotFound);
    }
    match find_field(&e.values, f) {
        Some(v) => Ok(v),
        None => Err(PanicReason::InputNotFound),
    }
}

fn input_offset_exec(tx: &TxView, ofs: u64, b: u64, k: InputKind, f: Field) -> (r: Result<
    u64,
    PanicReason,
>)
    ensures
        r == input_offset(*tx, ofs, b, k, f),
{
    if b >= tx.inputs.len() as u64 {
        return Err(PanicReason::InputNotFound);
    }
    let e = &tx.inputs[b as usize];
    if e.kind != k {
        return Err(PanicReason::InputNotFound);
    }
    match find_field(&e.offsets, f) {
        Some(v) => Ok(saturating_add(ofs, saturating_add(e.offset, v))),
        None => Err(PanicReason::InputNotFound),
    }
}

fn output_value_exec(
    tx: &TxView,
    b: u64,
    k: OutputKind,
    change: bool,
    f: Field,
    err: PanicReason,
) -> (r: Result<u64, PanicReason>)
    ensures
        r == output_value(*tx, b, k, change, f, err),
{
    if b >= tx.outputs.len() as u64 {
        return Err(err);
    }
    let e = &tx.outputs[b as usize];
    if !(e.kind == k || (change && e.kind == OutputKind::Change)) {
        return Err(err);
    }
    match find_field(&e.values, f) {
        Some(v) => Ok(v),
        None => Err(err),
    }
}

fn output_offset_exec(tx: &TxView, ofs: u64, b: u64, k: OutputKind, change: bool, f: Field) -> (r:
    Result<u64, PanicReason>)
    ensures
        r == output_offset(*tx, ofs, b, k, change, f),
{
    if b >= tx.outputs.len() as u64 {
        return Err(PanicReason::OutputNotFound);
    }
    let e = &tx.outputs[b as usize];
    if !(e.kind == k || (change && e.kind == OutputKind::Change)) {
        return Err(PanicReason::OutputNotFound);
    }
    match find_field(&e.offsets, f) {
        Some(v) => Ok(saturating_add(ofs, saturating_add(e.offset, v))),
        None => Err(PanicReason::OutputNotFound),
    }
}

fn specific_value_exec(tx: &TxView, k: TxKind, f: Field) -> (r: Result<u64, PanicReason>)
    ensures
        r == specific_value(*tx, k, f),
{
    if tx.kind != k {
        return Err(PanicReason::InvalidMetadataIdentifier);
    }
    match find_field(&tx.values, f) {
        Some(v) => Ok(v),
        None => Err(PanicReason::InvalidMetadataIdentifier),
    }
}

fn specific_offset_exec(tx: &TxView, ofs: u64, k: TxKind, f: Field) -> (r: Result<u64, PanicReason>)
    ensures
        r == specific_offset(*tx, ofs, k, f),
{
    if tx.kind != k {
        return Err(PanicReason::InvalidMetadataIdentifier);
    }
    match find_field(&tx.offsets, f) {
        Some(v) => Ok(saturating_add(ofs, v)),
        None => Err(PanicReason::InvalidMetadataIdentifier),
    }
}

fn listed_offset_exec(
    tx: &TxView,
    ofs: u64,
    k: TxKind,
    list: &Vec<u64>,
    b: u64,
    err: PanicReason,
) -> (r: Result<u64, PanicReason>)
    ensures
        r == listed_offset(*tx, ofs, k, list@, b, err),
{
    if tx.kind != k {
        return Err(PanicReason::InvalidMetadataIdentifier);
    }
    if b >= list.len() as u64 {
        return Err(err);
    }
    Ok(saturating_add(ofs, list[b as usize]))
}

fn policy_exec(p: Option<u64>) -> (r: Result<u64, PanicReason>)
    ensures
        r == policy(p),
{
    match p {
        Some(v) => Ok(v),
        None => Err(PanicReason::PolicyIsNotSet),
    }
}

fn contract_output_index_exec(m: &Vec<(u16, u16)>, b: u64) -> (r: Result<u64, PanicReason>)
    ensures
        r == contract_output_index(m@, b),
{
    if b > u16::MAX as u64 {
        return Err(PanicReason::InvalidMetadataIdentifier);
    }
    let mut i: usize = 0;
    assert(m@.subrange(0, m@.len() as int) =~= m@);
    while i < m.len()
        invariant
            b <= u16::MAX,
            i <= m@.len(),
            contract_output_index(m@, b) == contract_output_index(
                m@.subrange(i as int, m@.len() as int),
                b,
            ),
        decreases m@.len() - i,
    {
        assert(m@.subrange(i as int, m@.len() as int).drop_first() =~= m@.subrange(
            i + 1,
            m@.len() as int,
        ));
        if m[i].0 as u64 == b {
            return Ok(m[i].1 as u64);
        }
        i = i + 1;
    }
    Err(PanicReason::InputNotFound)
}

fn count(n: usize) -> (r: u64)
    ensures
        r == n as u64,
{
    n as u64
}

/// The word that `GTF` yields for `args` and index `b` on `tx`, which sits
/// at `tx_offset` in memory and is `tx_size` bytes long; or why it panics.
/// Offsets add up saturating, so that one past the end of memory stays there.
pub fn get_transaction_field(tx: &TxView, tx_offset: u64, tx_size: u64, b: u64, args: GTFArgs) -> (r:
    Result<u64, PanicReason>)
    ensures
        r == gtf_value(*tx, tx_offset, tx_size, b, args),
{
    let ofs = tx_offset;
    match args {
        GTFArgs::Type => Ok(match tx.kind {
            TxKind::Script => 0,
            TxKind::Create => 1,
            TxKind::Mint => 2,
            TxKind::Upgrade => 3,
            TxKind::Upload => 4,
            TxKind::Blob => 5,
        }),
        GTFArgs::ScriptGasLimit => if tx.kind == TxKind::Script {
            match find_field(&tx.values, Field::ScriptGasLimit) {
                Some(v) => Ok(v),
                None => Ok(0),
            }
        } else {
            Ok(0)
        },
        GTFArgs::PolicyTypes => Ok(tx.policy_bits),
        GTFArgs::PolicyTip => policy_exec(tx.tip),
        GTFArgs::PolicyWitnessLimit => policy_exec(tx.witness_limit),
        GTFArgs::PolicyMaturity => policy_exec(tx.maturity),
        GTFArgs::PolicyExpiration => policy_exec(tx.expiration),
        GTFArgs::PolicyMaxFee => policy_exec(tx.max_fee),
        GTFArgs::ScriptInputsCount | GTFArgs::CreateInputsCount | GTFArgs::TxInputsCount => Ok(
            count(tx.inputs.len()),
        ),
        GTFArgs::ScriptOutputsCount | GTFArgs::CreateOutputsCount | GTFArgs::TxOutputsCount => Ok(
            count(tx.outputs.len()),
        ),
        GTFArgs::ScriptWitnessesCount
        | GTFArgs::CreateWitnessesCount
        | GTFArgs::TxWitnessesCount => Ok(count(tx.witness_offsets.len())),
        GTFArgs::ScriptInputAtIndex | GTFArgs::CreateInputAtIndex | GTFArgs::TxInputAtIndex => {
            if b < tx.inputs.len() as u64 {
                Ok(saturating_add(ofs, tx.inputs[b as usize].offset))
            } else {
                Err(PanicReason::InputNotFound)
            }
        },
        GTFArgs::ScriptOutputAtIndex
        | GTFArgs::CreateOutputAtIndex
        | GTFArgs::TxOutputAtIndex => if b < tx.outputs.len() as u64 {
            Ok(saturating_add(ofs, tx.outputs[b as usize].offset))
        } else {
            Err(PanicReason::OutputNotFound)
        },
        GTFArgs::ScriptWitnessAtIndex
        | GTFArgs::CreateWitnessAtIndex
        | GTFArgs::TxWitnessAtIndex => if b < tx.witness_offsets.len() as u64 {
            Ok(saturating_add(ofs, tx.witness_offsets[b as usize]))
        } else {
            Err(PanicReason::WitnessNotFound)
        },
        GTFArgs::TxLength => Ok(tx_size),
        GTFArgs::InputType => if b < tx.inputs.len() as u64 {
            Ok(match tx.inputs[b as usize].kind {
                InputKind::Coin => 0,
                InputKind::Contract => 1,
                InputKind::Message => 2,
            })
        } else {
            Err(PanicReason::InputNotFound)
        },
        GTFArgs::InputCoinTxId => input_offset_exec(tx, ofs, b, InputKind::Coin, Field::TxId),
        GTFArgs::InputCoinOutputIndex => input_value_exec(
            tx,
            b,
            InputKind::Coin,
            Field::OutputIndex,
        ),
        GTFArgs::InputCoinOwner => input_offset_exec(tx, ofs, b, InputKind::Coin, Field::Owner),
        GTFArgs::InputCoinAmount => input_value_exec(tx, b, InputKind::Coin, Field::Amount),
        GTFArgs::InputCoinAssetId => input_offset_exec(tx, ofs, b, InputKind::Coin, Field::AssetId),
        GTFArgs::InputCoinTxPointer => input_offset_exec(
            tx,
            ofs,
            b,
            InputKind::Coin,
            Field::TxPointer,
        ),
        GTFArgs::InputCoinWitnessIndex => input_value_exec(
            tx,
            b,
            InputKind::Coin,
            Field::WitnessIndex,
        ),
        GTFArgs::InputCoinPredicateLength => input_value_exec(
            tx,
            b,
            InputKind::Coin,
            Field::PredicateLength,
        ),
        GTFArgs::InputCoinPredicateDataLength => input_value_exec(
            tx,
            b,
            InputKind::Coin,
            Field::PredicateDataLength,
        ),
        GTFArgs::InputCoinPredicateGasUsed => input_value_exec(
            tx,
            b,
            InputKind::Coin,
            Field::PredicateGasUsed,
        ),
        GTFArgs::InputCoinPredicate => input_offset_exec(
            tx,
            ofs,
            b,
            InputKind::Coin,
            Field::Predicate,
        ),
        GTFArgs::InputCoinPredicateData => input_offset_exec(
            tx,
            ofs,
            b,
            InputKind::Coin,
            Field::PredicateData,
        ),
        GTFArgs::InputContractTxId => input_offset_exec(
            tx,
            ofs,
            b,
            InputKind::Contract,
            Field::TxId,
        ),
        GTFArgs::InputContractOutputIndex => contract_output_index_exec(
            &tx.input_contract_output_index,
            b,
        ),
        GTFArgs::InputContractId => input_offset_exec(
            tx,
            ofs,
            b,
            InputKind::Contract,
            Field::ContractId,
        ),
        GTFArgs::InputMessageSender => input_offset_exec(
            tx,
            ofs,
            b,
            InputKind::Message,
            Field::Sender,
        ),
        GTFArgs::InputMessageRecipient => input_offset_exec(
            tx,
            ofs,
            b,
            InputKind::Message,
            Field::Recipient,
        ),
        GTFArgs::InputMessageAmount => input_value_exec(tx, b, InputKind::Message, Field::Amount),
        GTFArgs::InputMessageNonce => input_offset_exec(
            tx,
            ofs,
            b,
            InputKind::Message,
            Field::Nonce,
        ),
        GTFArgs::InputMessageWitnessIndex => input_value_exec(
            tx,
            b,
            InputKind::Message,
            Field::WitnessIndex,
        ),
        GTFArgs::InputMessageDataLength => input_value_exec(
            tx,
            b,
            InputKind::Message,
            Field::DataLength,
        ),
        GTFArgs::InputMessagePredicateLength => input_value_exec(
            tx,
            b,
            InputKind::Message,
            Field::PredicateLength,
        ),
        GTFArgs::InputMessagePredicateDataLength => input_value_exec(
            tx,
            b,
            InputKind::Message,
            Field::PredicateDataLength,
        ),
        GTFArgs::InputMessagePredicateGasUsed => input_value_exec(
            tx,
            b,
            InputKind::Message,
            Field::PredicateGasUsed,
        ),
        GTFArgs::InputMessageData => input_offset_exec(
            tx,
            ofs,
            b,
            InputKind::Message,
            Field::Data,
        ),
        GTFArgs::InputMessagePredicate => input_offset_exec(
            tx,
            ofs,
            b,
            InputKind::Message,
            Field::Predicate,
        ),
        GTFArgs::InputMessagePredicateData => input_offset_exec(
            tx,
            ofs,
            b,
            InputKind::Message,
            Field::PredicateData,
        ),
        GTFArgs::OutputType => if b < tx.outputs.len() as u64 {
            Ok(match tx.outputs[b as usize].kind {
                OutputKind::Coin => 0,
                OutputKind::Contract => 1,
                OutputKind::Change => 2,
                OutputKind::Variable => 3,
                OutputKind::ContractCreated => 4,
            })
        } else {
            Err(PanicReason::OutputNotFound)
        },
        GTFArgs::OutputCoinTo => output_offset_exec(tx, ofs, b, OutputKind::Coin, true, Field::To),
        GTFArgs::OutputCoinAmount => output_value_exec(
            tx,
            b,
            OutputKind::Coin,
            false,
            Field::Amount,
            PanicReason::OutputNotFound,
        ),
        GTFArgs::OutputCoinAssetId => output_offset_exec(
            tx,
            ofs,
            b,
            OutputKind::Coin,
            true,
            Field::AssetId,
        ),
        GTFArgs::OutputContractInputIndex => output_value_exec(
            tx,
            b,
            OutputKind::Contract,
            false,
            Field::InputIndex,
            PanicReason::InputNotFound,
        ),
        GTFArgs::OutputContractCreatedContractId => output_offset_exec(
            tx,
            ofs,
            b,
            OutputKind::ContractCreated,
            false,
            Field::ContractId,
        ),
        GTFArgs::OutputContractCreatedStateRoot => output_offset_exec(
            tx,
            ofs,
            b,
            OutputKind::ContractCreated,
            false,
            Field::StateRoot,
        ),
        GTFArgs::WitnessDataLength => if b < tx.witness_lengths.len() as u64 {
            Ok(tx.witness_lengths[b as usize])
        } else {
            Err(PanicReason::WitnessNotFound)
        },
        GTFArgs::WitnessData => if b < tx.witness_offsets.len() as u64 {
            Ok(saturating_add(saturating_add(ofs, tx.witness_offsets[b as usize]), WORD_SIZE))
        } else {
            Err(PanicReason::WitnessNotFound)
        },
        GTFArgs::ScriptLength => specific_value_exec(tx, TxKind::Script, Field::ScriptLength),
        GTFArgs::ScriptDataLength => specific_value_exec(
            tx,
            TxKind::Script,
            Field::ScriptDataLength,
        ),
        GTFArgs::Script => specific_offset_exec(tx, ofs, TxKind::Script, Field::Script),
        GTFArgs::ScriptData => specific_offset_exec(tx, ofs, TxKind::Script, Field::ScriptData),
        GTFArgs::CreateBytecodeWitnessIndex => specific_value_exec(
            tx,
            TxKind::Create,
            Field::BytecodeWitnessIndex,
        ),
        GTFArgs::CreateStorageSlotsCount => if tx.kind == TxKind::Create {
            Ok(count(tx.storage_slot_offsets.len()))
        } else {
            Err(PanicReason::InvalidMetadataIdentifier)
        },
        GTFArgs::CreateSalt => specific_offset_exec(tx, ofs, TxKind::Create, Field::Salt),
        GTFArgs::CreateStorageSlotAtIndex => listed_offset_exec(
            tx,
            ofs,
            TxKind::Create,
            &tx.storage_slot_offsets,
            b,
            PanicReason::StorageSlotsNotFound,
        ),
        GTFArgs::BlobId => specific_offset_exec(tx, ofs, TxKind::Blob, Field::BlobId),
        GTFArgs::BlobWitnessIndex => specific_value_exec(
            tx,
            TxKind::Blob,
            Field::BytecodeWitnessIndex,
        ),
        GTFArgs::UploadRoot => specific_offset_exec(tx, ofs, TxKind::Upload, Field::BytecodeRoot),
        GTFArgs::UploadWitnessIndex => specific_value_exec(
            tx,
            TxKind::Upload,
            Field::BytecodeWitnessIndex,
        ),
        GTFArgs::UploadSubsectionIndex => specific_value_exec(
            tx,
            TxKind::Upload,
            Field::SubsectionIndex,
        ),
        GTFArgs::UploadSubsectionsCount => specific_value_exec(
            tx,
            TxKind::Upload,
            Field::SubsectionsNumber,
        ),
        GTFArgs::UploadProofSetCount => if tx.kind == TxKind::Upload {
            Ok(count(tx.proof_set_offsets.len()))
        } else {
            Err(PanicReason::InvalidMetadataIdentifier)
        },
        GTFArgs::UploadProofSetAtIndex => listed_offset_exec(
            tx,
            ofs,
            TxKind::Upload,
            &tx.proof_set_offsets,
            b,
            PanicReason::ProofInUploadNotFound,
        ),
        GTFArgs::UpgradePurpose => specific_offset_exec(
            tx,
            ofs,
            TxKind::Upgrade,
            Field::UpgradePurpose,
        ),
    }
}

/// Querying is a function of the transaction, the selector and the index:
/// equal arguments give equal words, or equal panics.
pub proof fn lemma_query_is_pure(
    tx1: TxView,
    tx2: TxView,
    ofs: u64,
    size: u64,
    b: u64,
    args: GTFArgs,
)
    requires
        tx1 == tx2,
    ensures
        gtf_value(tx1, ofs, size, b, args) == gtf_value(tx2, ofs, size, b, args),
{
}

/// The big-endian number that `s` spells.
pub open spec fn be_value(s: Seq<u8>) -> nat
    decreases s.len(),
{
    if s.len() == 0 {
        0
    } else {
        (be_value(s.drop_last()) * 256 + s.last()) as nat
    }
}

proof fn lemma_exp2_plus_8(h: nat)
    ensures
        exp2(h + 8) == 256 * exp2(h),
{
    reveal_with_fuel(exp2, 9);
}

/// The big-endian word stored in the 8 bytes at `a`.
fn read_be_word(mem: &VmMemory, a: u64) -> (r: u64)
    requires
        mem.wf(),
        a + 8 <= VM_MAX_RAM,
    ensures
        r == be_value(mem.bytes().subrange(a as int, a + 8)),
{
    let bytes = mem.read(a, 8);
    let mut acc: u64 = 0;
    let mut i: usize = 0;
    while i < 8
        invariant
            bytes@.len() == 8,
            i <= 8,
            acc == be_value(bytes@.subrange(0, i as int)),
            acc < exp2(8 * i as nat),
        decreases 8 - i,
    {
        proof {
            lemma_exp2_plus_8(8 * i as nat);
            crate::merkle::lemma_exp2_mono((8 * i + 8) as nat, 64);
            crate::merkle::lemma_exp2_63();
            assert(bytes@.subrange(0, i + 1).drop_last() =~= bytes@.subrange(0, i as int));
        }
        acc = acc * 256 + bytes[i] as u64;
        i = i + 1;
    }
    assert(bytes@.subrange(0, 8) =~= bytes@);
    acc
}

/// Executes `GTF ra b args`: writes the transaction field to `ra` and
/// advances the program counter. The transaction sits at `tx_offset`, with
/// its length stored as a big-endian word in the 8 bytes before it. A system
/// register as `ra` is refused first; a panic leaves every register as it was.
pub fn get_transaction_field_op(
    mem: &VmMemory,
    regs: &mut Registers,
    tx: &TxView,
    tx_offset: u64,
    ra: u8,
    b: u64,
    args: GTFArgs,
) -> (r: Result<(), PanicReason>)
    requires
        mem.wf(),
        old(regs).wf(),
        8 <= tx_offset <= VM_MAX_RAM,
        ra < 64,
    ensures
        final(regs).wf(),
        ra < SYSTEM_REGISTER_COUNT ==> r == Err::<(), PanicReason>(
            PanicReason::ReservedRegisterNotWritable,
        ) && final(regs)@ == old(regs)@,
        ra >= SYSTEM_REGISTER_COUNT ==> {
            let size = be_value(mem.bytes().subrange(tx_offset - 8, tx_offset as int));
            match gtf_value(*tx, tx_offset, size as u64, b, args) {
                Err(e) => r == Err::<(), PanicReason>(e) && final(regs)@ == old(regs)@,
                Ok(v) => {
                    let pc = old(regs)@[REG_PC as int];
                    if pc + 4 <= u64::MAX {
                        r is Ok && final(regs)@ == old(regs)@.update(ra as int, v).update(
                            REG_PC as int,
                            (pc + 4) as u64,
                        )
                    } else {
                        r == Err::<(), PanicReason>(PanicReason::MemoryOverflow) && final(regs)@
                            == old(regs)@.update(ra as int, v)
                    }
                },
            }
        },
{
    let tx_size = read_be_word(mem, tx_offset - 8);
    if ra < SYSTEM_REGISTER_COUNT {
        return Err(PanicReason::ReservedRegisterNotWritable);
    }
    let v = match get_transaction_field(tx, tx_offset, tx_size, b, args) {
        Ok(v) => v,
        Err(e) => return Err(e),
    };
    let _ = regs.write(ra, v);
    regs.inc_pc()
}

} // verus!

use fuel_vm::gtf::{
    get_transaction_field, get_transaction_field_op, Entry, Field, GTFArgs, InputKind, OutputKind,
    TxKind, TxView,
};
use fuel_vm::memory::VmMemory;
use fuel_vm::registers::{PanicReason, Registers, REG_PC};

const TX_OFFSET: u64 = 10_000;

fn script_tx() -> TxView {
    let coin = Entry {
        kind: InputKind::Coin,
        offset: 200,
        values: vec![(Field::Amount, 1000), (Field::OutputIndex, 3), (Field::WitnessIndex, 0)],
        offsets: vec![(Field::TxId, 8), (Field::Owner, 48), (Field::AssetId, 96)],
    };
    let contract = Entry {
        kind: InputKind::Contract,
        offset: 400,
        values: vec![(Field::OutputIndex, 0)],
        offsets: vec![(Field::TxId, 8), (Field::ContractId, 120)],
    };
    let change = Entry {
        kind: OutputKind::Change,
        offset: 600,
        values: vec![],
        offsets: vec![(Field::To, 8), (Field::AssetId, 48)],
    };
    let output_contract = Entry {
        kind: OutputKind::Contract,
        offset: 700,
        values: vec![(Field::InputIndex, 1)],
        offsets: vec![],
    };
    TxView {
        kind: TxKind::Script,
        inputs: vec![coin, contract],
        outputs: vec![change, output_contract],
        witness_offsets: vec![900],
        witness_lengths: vec![64],
        policy_bits: 1,
        tip: Some(5),
        witness_limit: None,
        maturity: None,
        expiration: None,
        max_fee: None,
        values: vec![(Field::ScriptGasLimit, 1_000_000), (Field::ScriptLength, 16)],
        offsets: vec![(Field::Script, 104), (Field::ScriptData, 120)],
        storage_slot_offsets: vec![],
        proof_set_offsets: vec![],
        input_contract_output_index: vec![(1, 1)],
    }
}

fn query(tx: &TxView, args: GTFArgs, b: u64) -> Result<u64, PanicReason> {
    get_transaction_field(tx, TX_OFFSET, 1024, b, args)
}

#[test]
fn script_with_a_coin_and_a_contract_input() {
    let tx = script_tx();
    assert_eq!(query(&tx, GTFArgs::ScriptInputsCount, 0), Ok(2));
    assert_eq!(query(&tx, GTFArgs::InputCoinOwner, 0), Ok(TX_OFFSET + 200 + 48));
    assert_eq!(query(&tx, GTFArgs::InputCoinAmount, 1), Err(PanicReason::InputNotFound));
    assert_eq!(query(&tx, GTFArgs::InputCoinAmount, 0), Ok(1000));
    assert_eq!(query(&tx, GTFArgs::InputContractId, 1), Ok(TX_OFFSET + 400 + 120));
    assert_eq!(query(&tx, GTFArgs::InputType, 1), Ok(1));
    assert_eq!(query(&tx, GTFArgs::InputType, 2), Err(PanicReason::InputNotFound));
    assert_eq!(query(&tx, GTFArgs::InputContractOutputIndex, 1), Ok(1));
    assert_eq!(query(&tx, GTFArgs::InputContractOutputIndex, 0), Err(PanicReason::InputNotFound));
    assert_eq!(
        query(&tx, GTFArgs::InputContractOutputIndex, 70_000),
        Err(PanicReason::InvalidMetadataIdentifier)
    );
}

#[test]
fn generic_transaction_fields() {
    let tx = script_tx();
    assert_eq!(query(&tx, GTFArgs::Type, 0), Ok(0));
    assert_eq!(query(&tx, GTFArgs::TxLength, 0), Ok(1024));
    assert_eq!(query(&tx, GTFArgs::ScriptGasLimit, 0), Ok(1_000_000));
    assert_eq!(query(&tx, GTFArgs::PolicyTypes, 0), Ok(1));
    assert_eq!(query(&tx, GTFArgs::PolicyTip, 0), Ok(5));
    assert_eq!(query(&tx, GTFArgs::PolicyMaxFee, 0), Err(PanicReason::PolicyIsNotSet));
    assert_eq!(query(&tx, GTFArgs::TxOutputsCount, 0), Ok(2));
    assert_eq!(query(&tx, GTFArgs::TxWitnessesCount, 0), Ok(1));
    assert_eq!(query(&tx, GTFArgs::TxInputAtIndex, 1), Ok(TX_OFFSET + 400));
    assert_eq!(query(&tx, GTFArgs::TxOutputAtIndex, 5), Err(PanicReason::OutputNotFound));
    assert_eq!(query(&tx, GTFArgs::WitnessData, 0), Ok(TX_OFFSET + 900 + 8));
    assert_eq!(query(&tx, GTFArgs::WitnessDataLength, 0), Ok(64));
    assert_eq!(query(&tx, GTFArgs::WitnessDataLength, 1), Err(PanicReason::WitnessNotFound));
}

#[test]
fn output_fields() {
    let tx = script_tx();
    assert_eq!(query(&tx, GTFArgs::OutputType, 0), Ok(2));
    assert_eq!(query(&tx, GTFArgs::OutputCoinTo, 0), Ok(TX_OFFSET + 600 + 8));
    assert_eq!(query(&tx, GTFArgs::OutputCoinAmount, 0), Err(PanicReason::OutputNotFound));
    assert_eq!(query(&tx, GTFArgs::OutputContractInputIndex, 1), Ok(1));
    assert_eq!(query(&tx, GTFArgs::OutputContractInputIndex, 0), Err(PanicReason::InputNotFound));
}

#[test]
fn variant_specific_fields() {
    let tx = script_tx();
    assert_eq!(query(&tx, GTFArgs::ScriptLength, 0), Ok(16));
    assert_eq!(query(&tx, GTFArgs::ScriptData, 0), Ok(TX_OFFSET + 120));
    assert_eq!(
        query(&tx, GTFArgs::CreateSalt, 0),
        Err(PanicReason::InvalidMetadataIdentifier)
    );
    assert_eq!(
        query(&tx, GTFArgs::UploadProofSetAtIndex, 0),
        Err(PanicReason::InvalidMetadataIdentifier)
    );
    let mut create = script_tx();
    create.kind = TxKind::Create;
    create.storage_slot_offsets = vec![300, 364];
    assert_eq!(query(&create, GTFArgs::CreateStorageSlotsCount, 0), Ok(2));
    assert_eq!(query(&create, GTFArgs::CreateStorageSlotAtIndex, 1), Ok(TX_OFFSET + 364));
    assert_eq!(
        query(&create, GTFArgs::CreateStorageSlotAtIndex, 2),
        Err(PanicReason::StorageSlotsNotFound)
    );
    assert_eq!(query(&create, GTFArgs::ScriptGasLimit, 0), Ok(0));

    let mut upload = script_tx();
    upload.kind = TxKind::Upload;
    upload.proof_set_offsets = vec![500];
    upload.values = vec![(Field::SubsectionIndex, 2), (Field::SubsectionsNumber, 3)];
    assert_eq!(query(&upload, GTFArgs::Type, 0), Ok(4));
    assert_eq!(query(&upload, GTFArgs::UploadProofSetCount, 0), Ok(1));
    assert_eq!(query(&upload, GTFArgs::UploadProofSetAtIndex, 0), Ok(TX_OFFSET + 500));
    assert_eq!(
        query(&upload, GTFArgs::UploadProofSetAtIndex, 1),
        Err(PanicReason::ProofInUploadNotFound)
    );
    assert_eq!(query(&upload, GTFArgs::UploadSubsectionsCount, 0), Ok(3));
    assert_eq!(
        query(&upload, GTFArgs::ScriptLength, 0),
        Err(PanicReason::InvalidMetadataIdentifier)
    );
}

#[test]
fn offsets_saturate() {
    let tx = script_tx();
    assert_eq!(
        get_transaction_field(&tx, u64::MAX - 10, 0, 0, GTFArgs::InputCoinOwner),
        Ok(u64::MAX)
    );
}

#[test]
fn query_is_repeatable() {
    let tx = script_tx();
    for args in [GTFArgs::InputCoinOwner, GTFArgs::InputCoinAmount, GTFArgs::OutputType] {
        for b in 0u64..3 {
            assert_eq!(query(&tx, args, b), query(&tx, args, b));
        }
    }
}

#[test]
fn gtf_instruction_reads_the_length_before_the_transaction() {
    let tx = script_tx();
    let mut mem = VmMemory::new();
    mem.grow_stack(64).unwrap();
    mem.write(24, &777u64.to_be_bytes()).unwrap();
    let mut regs = Registers::new();

    get_transaction_field_op(&mem, &mut regs, &tx, 32, 0x10, 0, GTFArgs::TxLength).unwrap();
    assert_eq!(regs.get(0x10), 777);
    assert_eq!(regs.get(REG_PC), 4);

    get_transaction_field_op(&mem, &mut regs, &tx, 32, 0x11, 0, GTFArgs::InputCoinOwner).unwrap();
    assert_eq!(regs.get(0x11), 32 + 200 + 48);

    assert_eq!(
        get_transaction_field_op(&mem, &mut regs, &tx, 32, 0x11, 1, GTFArgs::InputCoinAmount),
        Err(PanicReason::InputNotFound)
    );
    assert_eq!(
        get_transaction_field_op(&mem, &mut regs, &tx, 32, 0x03, 0, GTFArgs::TxLength),
        Err(PanicReason::ReservedRegisterNotWritable)
    );
    assert_eq!(regs.get(REG_PC), 8);
}

use fuel_vm::crypto::{
    ecrecover, ecrecover_finish, ecrecover_r1, ed25519_verify_op, finish_verification, keccak256_op,
    sha256_op,
};
use fuel_vm::memory::{VmMemory, VM_MAX_RAM};
use fuel_vm::metadata::{metadata, metadata_value, Context, GMArgs};
use fuel_vm::registers::{PanicReason, Registers, REG_ERR, REG_ONE, REG_PC, REG_ZERO};
use p256::ecdsa::SigningKey;
use ed25519_dalek::Signer;
use sha2::Digest;

const MESSAGE: &[u8] = b"The gift of words is the gift of deception and illusion.";

fn machine(stack: u64) -> (VmMemory, Registers) {
    let mut mem = VmMemory::new();
    mem.grow_stack(stack).unwrap();
    (mem, Registers::new())
}

fn secp_fixture() -> ([u8; 64], [u8; 32], [u8; 64]) {
    let secret = fuel_crypto::SecretKey::try_from(&[0x17u8; 32][..]).unwrap();
    let public_key = secret.public_key();
    let message = fuel_crypto::Message::new(MESSAGE);
    let signature = fuel_crypto::Signature::sign(&secret, &message);
    (*signature, *message, *public_key)
}

#[test]
fn secp256k1_recover() {
    let (sig, msg, pk) = secp_fixture();
    let (mut mem, mut regs) = machine(256);
    mem.write(0, &sig).unwrap();
    mem.write(64, &msg).unwrap();
    regs.set_system(REG_ERR, 1);

    ecrecover(&mut mem, &mut regs, 128, 0, 64).unwrap();

    assert_eq!(mem.read(128, 64), pk.to_vec());
    assert_eq!(regs.get(REG_ERR), 0);
    assert_eq!(regs.get(REG_PC), 4);
}

#[test]
fn secp256k1_recover_error() {
    let (_, msg, _) = secp_fixture();
    let sig = [0u8; 64];
    let (mut mem, mut regs) = machine(256);
    mem.write(0, &sig).unwrap();
    mem.write(64, &msg).unwrap();
    mem.write(128, &[0xaa; 64]).unwrap();

    ecrecover(&mut mem, &mut regs, 128, 0, 64).unwrap();

    assert_eq!(regs.get(REG_ERR), 1, "Verification should have failed");
    assert_eq!(mem.read(128, 64), vec![0u8; 64]);
}

#[test]
fn secp256k1_recover__register_a_overflows() {
    let (mut mem, mut regs) = machine(256);
    let reg_a = u64::MAX - 63;
    let reg_b = 0;
    assert_eq!(
        ecrecover(&mut mem, &mut regs, reg_a, reg_b, reg_b),
        Err(PanicReason::MemoryOverflow)
    );
}

#[test]
fn secp256k1_recover__register_b_overflows() {
    let (mut mem, mut regs) = machine(256);
    let reg_a = u64::MAX - 63;
    let reg_b = 0;
    assert_eq!(
        ecrecover(&mut mem, &mut regs, reg_b, reg_a, reg_b),
        Err(PanicReason::MemoryOverflow)
    );
}

#[test]
fn secp256k1_recover__register_c_overflows() {
    let (mut mem, mut regs) = machine(256);
    let reg_a = u64::MAX - 31;
    let reg_b = 0;
    assert_eq!(
        ecrecover(&mut mem, &mut regs, reg_b, reg_b, reg_a),
        Err(PanicReason::MemoryOverflow)
    );
}

#[test]
fn ecrecover_outside_the_stack_and_heap_fails() {
    let (mut mem, mut regs) = machine(64);
    let before = regs.get(REG_PC);
    assert_eq!(
        ecrecover_finish(&mut mem, &mut regs, 32, None),
        Err(PanicReason::MemoryOverflow)
    );
    assert_eq!(regs.get(REG_PC), before);
}

fn ed25519_fixture(message: &[u8]) -> ([u8; 32], [u8; 64]) {
    let signing_key = ed25519_dalek::SigningKey::from_bytes(&[0x2au8; 32]);
    let signature = signing_key.sign(message);
    (signing_key.verifying_key().to_bytes(), signature.to_bytes())
}

#[test]
fn ed25519_verifies_message() {
    let (pk, sig) = ed25519_fixture(MESSAGE);
    let (mut mem, mut regs) = machine(512);
    mem.write(0, &sig).unwrap();
    mem.write(64, MESSAGE).unwrap();
    mem.write(256, &pk).unwrap();

    ed25519_verify_op(&mut mem, &mut regs, 256, 0, 64, MESSAGE.len() as u64).unwrap();
    assert_eq!(regs.get(REG_ERR), 0);

    let altered: &[u8] = b"The gift of words is the gift of deception and illusion!";
    mem.write(64, altered).unwrap();
    ed25519_verify_op(&mut mem, &mut regs, 256, 0, 64, altered.len() as u64).unwrap();
    assert_eq!(regs.get(REG_ERR), 1);
    assert_eq!(regs.get(REG_PC), 8);
}

#[test]
fn ed25519_zero_length_is_treated_as_32() {
    let message = [0x5cu8; 32];
    let (pk, sig) = ed25519_fixture(&message);
    let (mut mem, mut regs) = machine(512);
    mem.write(0, &sig).unwrap();
    mem.write(64, &message).unwrap();
    mem.write(256, &pk).unwrap();
    regs.set_system(REG_ERR, 1);

    ed25519_verify_op(&mut mem, &mut regs, 256, 0, 64, 0).unwrap();
    assert_eq!(regs.get(REG_ERR), 0);
}

#[test]
fn ed25519_verify__register_a_overflows() {
    let (mut mem, mut regs) = machine(256);
    let reg_a = u64::MAX - 63;
    assert_eq!(
        ed25519_verify_op(&mut mem, &mut regs, reg_a, 0, 0, 32),
        Err(PanicReason::MemoryOverflow)
    );
}

#[test]
fn ed25519_verify__register_b_overflows() {
    let (mut mem, mut regs) = machine(256);
    let reg_a = u64::MAX - 63;
    assert_eq!(
        ed25519_verify_op(&mut mem, &mut regs, 0, reg_a, 0, 32),
        Err(PanicReason::MemoryOverflow)
    );
}

#[test]
fn ed25519_message_past_the_end_of_memory_overflows() {
    for len in [0u64, 32, 64, 100] {
        let (mut mem, mut regs) = machine(256);
        let a = VM_MAX_RAM - 31;
        assert_eq!(
            ed25519_verify_op(&mut mem, &mut regs, 0, 0, a, len),
            Err(PanicReason::MemoryOverflow)
        );
    }
}

#[test]
fn sha256() {
    let message: &[u8] = b"I say let the world go to hell, but I should always have my tea.";
    let (mut mem, mut regs) = machine(256);
    mem.write(0, message).unwrap();

    sha256_op(&mut mem, &mut regs, 128, 0, message.len() as u64).unwrap();

    let expected: [u8; 32] = sha2::Sha256::digest(message).into();
    assert_eq!(mem.read(128, 32), expected.to_vec());
}

#[test]
fn s256__register_a_overflows() {
    let (mut mem, mut regs) = machine(256);
    assert_eq!(
        sha256_op(&mut mem, &mut regs, u64::MAX, 0, 0),
        Err(PanicReason::MemoryOverflow)
    );
}

#[test]
fn s256__register_c_overflows() {
    let (mut mem, mut regs) = machine(256);
    assert_eq!(
        sha256_op(&mut mem, &mut regs, 0, 0, u64::MAX),
        Err(PanicReason::MemoryOverflow)
    );
}

#[test]
fn s256___register_b_overflows() {
    let (mut mem, mut regs) = machine(256);
    assert_eq!(
        sha256_op(&mut mem, &mut regs, 0, u64::MAX, 1),
        Err(PanicReason::MemoryOverflow)
    );
}

#[test]
fn keccak256() {
    let message: &[u8] = b"I say let the world go to hell, but I should always have my tea.";
    let (mut mem, mut regs) = machine(256);
    mem.write(0, message).unwrap();

    keccak256_op(&mut mem, &mut regs, 128, 0, message.len() as u64).unwrap();

    let expected: [u8; 32] = sha3::Keccak256::digest(message).into();
    assert_eq!(mem.read(128, 32), expected.to_vec());
    assert_ne!(mem.read(128, 32), mem.read(0, 32));
}

#[test]
fn k256__register_a_overflows() {
    let (mut mem, mut regs) = machine(256);
    assert_eq!(
        keccak256_op(&mut mem, &mut regs, u64::MAX, 0, 0),
        Err(PanicReason::MemoryOverflow)
    );
}

#[test]
fn k256_c_gt_mem_max() {
    let (mut mem, mut regs) = machine(256);
    assert_eq!(
        keccak256_op(&mut mem, &mut regs, 0, 0, VM_MAX_RAM + 1),
        Err(PanicReason::MemoryOverflow)
    );
}

#[test]
fn k256__register_b_overflows() {
    let (mut mem, mut regs) = machine(256);
    assert_eq!(
        keccak256_op(&mut mem, &mut regs, 0, u64::MAX, 1),
        Err(PanicReason::MemoryOverflow)
    );
}

#[test]
fn digest_into_the_gap_fails() {
    let (mut mem, mut regs) = machine(64);
    assert_eq!(
        sha256_op(&mut mem, &mut regs, 1024, 0, 8),
        Err(PanicReason::MemoryOverflow)
    );
    assert_eq!(regs.get(REG_PC), 0);
}

#[test]
fn stack_and_heap_never_cross() {
    let mut mem = VmMemory::new();
    mem.grow_stack(132).unwrap();
    assert_eq!(mem.sp(), 132);
    mem.grow_heap_by(132).unwrap();
    assert_eq!(mem.hp(), VM_MAX_RAM - 132);
    assert_eq!(mem.grow_stack(VM_MAX_RAM), Err(PanicReason::MemoryOverflow));
    assert_eq!(mem.grow_heap_by(VM_MAX_RAM - 263), Err(PanicReason::MemoryOverflow));
    mem.grow_heap_by(VM_MAX_RAM - 264).unwrap();
    assert_eq!(mem.sp(), mem.hp());
    assert_eq!(mem.grow_stack(1), Err(PanicReason::MemoryOverflow));
}

#[test]
fn reserved_register_writes_fail_without_change() {
    let mut regs = Registers::new();
    for r in 0u8..16 {
        assert_eq!(regs.write(r, 7), Err(PanicReason::ReservedRegisterNotWritable));
    }
    assert_eq!(regs.get(REG_ZERO), 0);
    assert_eq!(regs.get(REG_ONE), 1);
    assert_eq!(regs.write(0x10, 7), Ok(()));
    assert_eq!(regs.get(0x10), 7);
}

#[test]
fn predicate_cannot_read_gas_price() {
    let ctx = Context::PredicateVerification { predicate_index: 0 };
    let mut regs = Registers::new();
    assert_eq!(
        metadata(&mut regs, &ctx, None, 0x10, 7, 0, 0, 1),
        Err(PanicReason::CanNotGetGasPriceInPredicate)
    );
    let ctx = Context::PredicateEstimation { predicate_index: 3 };
    assert_eq!(
        metadata_value(&ctx, None, 7, 0, 0, 1),
        Err(PanicReason::CanNotGetGasPriceInPredicate)
    );
    assert_eq!(metadata_value(&ctx, None, 3, 0, 0, 1), Ok(3));
}

#[test]
fn metadata_words() {
    let script = Context::Script { block_height: 1 };
    let call = Context::Call { block_height: 1 };
    assert_eq!(metadata_value(&script, None, 7, 0, 0, 11), Ok(11));
    assert_eq!(metadata_value(&script, None, 4, 9, 0, 0), Ok(9));
    assert_eq!(metadata_value(&script, None, 5, 0, 10240, 0), Ok(10240));
    assert_eq!(metadata_value(&script, None, 6, 0, 0, 0), Ok(0));
    assert_eq!(
        metadata_value(&script, None, 2, 0, 0, 0),
        Err(PanicReason::ExpectedInternalContext)
    );
    assert_eq!(
        metadata_value(&script, None, 3, 0, 0, 0),
        Err(PanicReason::TransactionValidity)
    );
    assert_eq!(metadata_value(&call, Some(0), 1, 0, 0, 0), Ok(1));
    assert_eq!(metadata_value(&call, Some(512), 1, 0, 0, 0), Ok(0));
    assert_eq!(metadata_value(&call, Some(512), 2, 0, 0, 0), Ok(512));
    assert_eq!(
        metadata_value(&call, Some(0), 2, 0, 0, 0),
        Err(PanicReason::ExpectedNestedCaller)
    );
    assert_eq!(
        metadata_value(&call, None, 0x99, 0, 0, 0),
        Err(PanicReason::InvalidMetadataIdentifier)
    );
    assert_eq!(GMArgs::try_from_imm(7), Ok(GMArgs::GetGasPrice));
}

#[test]
fn metadata_writes_register_and_advances() {
    let ctx = Context::Script { block_height: 1 };
    let mut regs = Registers::new();
    metadata(&mut regs, &ctx, None, 0x11, 4, 42, 0, 0).unwrap();
    assert_eq!(regs.get(0x11), 42);
    assert_eq!(regs.get(REG_PC), 4);
    assert_eq!(
        metadata(&mut regs, &ctx, None, REG_ERR, 4, 42, 0, 0),
        Err(PanicReason::ReservedRegisterNotWritable)
    );
    assert_eq!(regs.get(REG_PC), 4);
}

fn r1_fixture() -> ([u8; 64], [u8; 32], [u8; 64]) {
    let signing_key = SigningKey::from_slice(&[0x31u8; 32]).unwrap();
    let message = fuel_crypto::Message::new(MESSAGE);
    let signature = fuel_crypto::secp256r1::sign_prehashed(&signing_key, &message).unwrap();
    let public_key = fuel_crypto::secp256r1::encode_pubkey(*signing_key.verifying_key());
    (*signature, *message, public_key)
}

#[test]
fn secp256r1_recover() {
    let (sig, msg, pk) = r1_fixture();
    let (mut mem, mut regs) = machine(256);
    mem.grow_heap_by(64).unwrap();
    let hp = mem.hp();
    mem.write(0, &sig).unwrap();
    mem.write(64, &msg).unwrap();
    regs.set_system(REG_ERR, 1);

    ecrecover_r1(&mut mem, &mut regs, hp, 0, 64).unwrap();

    assert_eq!(mem.read(hp, 64), pk.to_vec());
    assert_eq!(regs.get(REG_ERR), 0);
}

#[test]
fn secp256r1_recover_error() {
    let (_, msg, _) = r1_fixture();
    let (mut mem, mut regs) = machine(256);
    mem.write(0, &[0u8; 64]).unwrap();
    mem.write(64, &msg).unwrap();

    ecrecover_r1(&mut mem, &mut regs, 128, 0, 64).unwrap();

    assert_eq!(regs.get(REG_ERR), 1, "Verification should have failed");
    assert_eq!(mem.read(128, 64), vec![0u8; 64]);
}

#[test]
fn secp256r1_recover__register_a_overflows() {
    let (mut mem, mut regs) = machine(256);
    let reg_a = u64::MAX - 63;
    assert_eq!(
        ecrecover_r1(&mut mem, &mut regs, reg_a, 0, 0),
        Err(PanicReason::MemoryOverflow)
    );
}

#[test]
fn secp256r1_recover__register_b_overflows() {
    let (mut mem, mut regs) = machine(256);
    let reg_a = u64::MAX - 63;
    assert_eq!(
        ecrecover_r1(&mut mem, &mut regs, 0, reg_a, 0),
        Err(PanicReason::MemoryOverflow)
    );
}

#[test]
fn secp256r1_recover__register_c_overflows() {
    let (mut mem, mut regs) = machine(256);
    let reg_a = u64::MAX - 31;
    assert_eq!(
        ecrecover_r1(&mut mem, &mut regs, 0, 0, reg_a),
        Err(PanicReason::MemoryOverflow)
    );
}

#[test]
fn verification_verdict_sets_the_error_register() {
    let mut regs = Registers::new();
    finish_verification(&mut regs, false).unwrap();
    assert_eq!(regs.get(REG_ERR), 1);
    finish_verification(&mut regs, true).unwrap();
    assert_eq!(regs.get(REG_ERR), 0);
    assert_eq!(regs.get(REG_PC), 8);
}

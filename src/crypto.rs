//! Instructions that hash, recover or verify signatures over memory: each
//! checks its regions against the memory bounds, then writes its result
//! and sets or clears the error register.
use crate::hash::{sha256, sha256_of};
use crate::memory::{splice, VmMemory, MEM_MAX_ACCESS_SIZE, VM_MAX_RAM};
use crate::registers::{PanicReason, Registers, REG_ERR, REG_PC};
use vstd::prelude::*;

verus! {

/// What Keccak-256 yields on the given bytes.
pub uninterp spec fn keccak256_of(data: Seq<u8>) -> Seq<u8>;

/// The public key that a compact secp256k1 signature over a message
/// recovers, or `None` when the signature is invalid.
pub uninterp spec fn secp256k1_recover_of(sig: Seq<u8>, msg: Seq<u8>) -> Option<Seq<u8>>;

/// The public key that a compact secp256r1 signature over a message
/// recovers, or `None` when the signature is invalid.
pub uninterp spec fn secp256r1_recover_of(sig: Seq<u8>, msg: Seq<u8>) -> Option<Seq<u8>>;

/// Whether an ed25519 signature over a message verifies under a public key.
pub uninterp spec fn ed25519_verifies(pub_key: Seq<u8>, sig: Seq<u8>, msg: Seq<u8>) -> bool;

/// Relies on `sha3::Keccak256::digest`: the Keccak-256 digest of `data`,
/// which depends on the bytes alone.
#[verifier::external_body]
fn keccak256_digest(data: &[u8]) -> (r: [u8; 32])
    ensures
        r@ == keccak256_of(data@),
{
    <sha3::Keccak256 as sha3::Digest>::digest(data).into()
}

/// Relies on `fuel_crypto::Signature::recover`: the public key recovered
/// from a compact signature over a 32-byte message, if the signature is valid.
#[verifier::external_body]
fn secp256k1_recover(sig: [u8; 64], msg: [u8; 32]) -> (r: Option<[u8; 64]>)
    ensures
        r is Some <==> secp256k1_recover_of(sig@, msg@) is Some,
        r is Some ==> secp256k1_recover_of(sig@, msg@) == Some(r->Some_0@),
{
    let sig = fuel_crypto::Signature::from_bytes(sig);
    let msg = fuel_crypto::Message::from_bytes(msg);
    sig.recover(&msg).ok().map(|pk| *pk)
}

/// Relies on `fuel_crypto::secp256r1::recover`: the public key, as the two
/// coordinates of its point, recovered from a compact signature over a
/// 32-byte message, if the signature is valid.
#[verifier::external_body]
fn secp256r1_recover(sig: [u8; 64], msg: [u8; 32]) -> (r: Option<[u8; 64]>)
    ensures
        r is Some <==> secp256r1_recover_of(sig@, msg@) is Some,
        r is Some ==> secp256r1_recover_of(sig@, msg@) == Some(r->Some_0@),
{
    let msg = fuel_crypto::Message::from_bytes(msg);
    fuel_crypto::secp256r1::recover(&sig.into(), &msg).ok().map(|pk| *pk)
}

/// Relies on `fuel_crypto::ed25519::verify`: whether the signature over the
/// message verifies under the public key.
#[verifier::external_body]
fn ed25519_verify(pub_key: [u8; 32], sig: [u8; 64], msg: &[u8]) -> (r: bool)
    ensures
        r == ed25519_verifies(pub_key@, sig@, msg@),
{
    fuel_crypto::ed25519::verify(&pub_key.into(), &sig.into(), msg).is_ok()
}

/// `regs` advanced by one instruction: the program counter moves on by 4,
/// or execution panics with `MemoryOverflow` when it cannot.
pub open spec fn advanced(before: Seq<u64>, after: Seq<u64>, r: Result<(), PanicReason>) -> bool {
    let pc = before[REG_PC as int];
    if pc + 4 <= u64::MAX {
        r is Ok && after == before.update(REG_PC as int, (pc + 4) as u64)
    } else {
        r == Err::<(), PanicReason>(PanicReason::MemoryOverflow) && after == before
    }
}

/// `n` zero bytes.
pub open spec fn zeros(n: nat) -> Seq<u8> {
    Seq::new(n, |_i: int| 0u8)
}

fn array32(v: &Vec<u8>) -> (r: [u8; 32])
    requires
        v@.len() == 32,
    ensures
        r@ == v@,
{
    let mut r: [u8; 32] = [0u8; 32];
    let mut i: usize = 0;
    while i < 32
        invariant
            v@.len() == 32,
            i <= 32,
            forall|j: int| 0 <= j < i ==> r@[j] == v@[j],
        decreases 32 - i,
    {
        r[i] = v[i];
        i = i + 1;
    }
    assert(r@ =~= v@);
    r
}

fn array64(v: &Vec<u8>) -> (r: [u8; 64])
    requires
        v@.len() == 64,
    ensures
        r@ == v@,
{
    let mut r: [u8; 64] = [0u8; 64];
    let mut i: usize = 0;
    while i < 64
        invariant
            v@.len() == 64,
            i <= 64,
            forall|j: int| 0 <= j < i ==> r@[j] == v@[j],
        decreases 64 - i,
    {
        r[i] = v[i];
        i = i + 1;
    }
    assert(r@ =~= v@);
    r
}

/// Writes `data` at `a`, sets the error register to `err` and advances.
/// Fails with `MemoryOverflow`, changing nothing, unless `[a, a + len)`
/// lies in the stack or the heap.
pub fn write_result(
    mem: &mut VmMemory,
    regs: &mut Registers,
    a: u64,
    data: &[u8],
    err: u64,
) -> (r: Result<(), PanicReason>)
    requires
        old(mem).wf(),
        old(regs).wf(),
    ensures
        final(mem).wf(),
        final(regs).wf(),
        final(mem).sp_spec() == old(mem).sp_spec(),
        final(mem).hp_spec() == old(mem).hp_spec(),
        old(mem).owns(a as int, data@.len() as int) ==> final(mem).bytes() == splice(
            old(mem).bytes(),
            a as int,
            data@,
        ) && advanced(old(regs)@.update(REG_ERR as int, err), final(regs)@, r),
        !old(mem).owns(a as int, data@.len() as int) ==> r == Err::<(), PanicReason>(
            PanicReason::MemoryOverflow,
        ) && final(mem).bytes() == old(mem).bytes() && final(regs)@ == old(regs)@,
{
    match mem.write(a, data) {
        Ok(()) => {},
        Err(e) => return Err(e),
    }
    regs.set_system(REG_ERR, err);
    regs.inc_pc()
}

/// Finishes `ECK1` or `ECR1` once the key is recovered: writes it at `a` and clears
/// the error register, or, for `None`, zeroes the 64 bytes at `a` and sets it.
pub fn ecrecover_finish(
    mem: &mut VmMemory,
    regs: &mut Registers,
    a: u64,
    recovered: Option<[u8; 64]>,
) -> (r: Result<(), PanicReason>)
    requires
        old(mem).wf(),
        old(regs).wf(),
    ensures
        final(mem).wf(),
        final(regs).wf(),
        final(mem).sp_spec() == old(mem).sp_spec(),
        final(mem).hp_spec() == old(mem).hp_spec(),
        ({
            let data = match recovered {
                Some(pk) => pk@,
                None => zeros(64),
            };
            let err: u64 = if recovered is Some {
                0
            } else {
                1
            };
            &&& old(mem).owns(a as int, 64) ==> final(mem).bytes() == splice(
                old(mem).bytes(),
                a as int,
                data,
            ) && advanced(old(regs)@.update(REG_ERR as int, err), final(regs)@, r)
            &&& !old(mem).owns(a as int, 64) ==> r == Err::<(), PanicReason>(
                PanicReason::MemoryOverflow,
            ) && final(mem).bytes() == old(mem).bytes() && final(regs)@ == old(regs)@
        }),
{
    match recovered {
        Some(pk) => write_result(mem, regs, a, &pk, 0),
        None => {
            let z: [u8; 64] = [0u8; 64];
            assert(z@ =~= zeros(64));
            write_result(mem, regs, a, &z, 1)
        },
    }
}

/// `ECK1 a b c`: recovers the secp256k1 public key from the 64-byte
/// signature at `b` over the 32-byte message at `c` and writes it at `a`.
pub fn ecrecover(mem: &mut VmMemory, regs: &mut Registers, a: u64, b: u64, c: u64) -> (r: Result<
    (),
    PanicReason,
>)
    requires
        old(mem).wf(),
        old(regs).wf(),
    ensures
        final(mem).wf(),
        final(regs).wf(),
        a > VM_MAX_RAM - 64 || b > VM_MAX_RAM - 64 || c > VM_MAX_RAM - 32 ==> r == Err::<
            (),
            PanicReason,
        >(PanicReason::MemoryOverflow) && *final(mem) == *old(mem) && final(regs)@ == old(regs)@,
        !(a > VM_MAX_RAM - 64 || b > VM_MAX_RAM - 64 || c > VM_MAX_RAM - 32) ==> {
            let sig = old(mem).bytes().subrange(b as int, b + 64);
            let msg = old(mem).bytes().subrange(c as int, c + 32);
            let rec = secp256k1_recover_of(sig, msg);
            let data = match rec {
                Some(pk) => pk,
                None => zeros(64),
            };
            let err: u64 = if rec is Some {
                0
            } else {
                1
            };
            &&& old(mem).owns(a as int, 64) ==> final(mem).bytes() == splice(
                old(mem).bytes(),
                a as int,
                data,
            ) && advanced(old(regs)@.update(REG_ERR as int, err), final(regs)@, r)
            &&& !old(mem).owns(a as int, 64) ==> r == Err::<(), PanicReason>(
                PanicReason::MemoryOverflow,
            ) && final(mem).bytes() == old(mem).bytes() && final(regs)@ == old(regs)@
        },
{
    if a > VM_MAX_RAM - 64 || b > VM_MAX_RAM - 64 || c > VM_MAX_RAM - 32 {
        return Err(PanicReason::MemoryOverflow);
    }
    let sig = array64(&mem.read(b, 64));
    let msg = array32(&mem.read(c, 32));
    let recovered = secp256k1_recover(sig, msg);
    ecrecover_finish(mem, regs, a, recovered)
}

/// `ECR1 a b c`: recovers the secp256r1 public key from the 64-byte
/// signature at `b` over the 32-byte message at `c` and writes it at `a`.
pub fn ecrecover_r1(mem: &mut VmMemory, regs: &mut Registers, a: u64, b: u64, c: u64) -> (r:
    Result<(), PanicReason>)
    requires
        old(mem).wf(),
        old(regs).wf(),
    ensures
        final(mem).wf(),
        final(regs).wf(),
        a > VM_MAX_RAM - 64 || b > VM_MAX_RAM - 64 || c > VM_MAX_RAM - 32 ==> r == Err::<
            (),
            PanicReason,
        >(PanicReason::MemoryOverflow) && *final(mem) == *old(mem) && final(regs)@ == old(regs)@,
        !(a > VM_MAX_RAM - 64 || b > VM_MAX_RAM - 64 || c > VM_MAX_RAM - 32) ==> {
            let sig = old(mem).bytes().subrange(b as int, b + 64);
            let msg = old(mem).bytes().subrange(c as int, c + 32);
            let rec = secp256r1_recover_of(sig, msg);
            let data = match rec {
                Some(pk) => pk,
                None => zeros(64),
            };
            let err: u64 = if rec is Some {
                0
            } else {
                1
            };
            &&& old(mem).owns(a as int, 64) ==> final(mem).bytes() == splice(
                old(mem).bytes(),
                a as int,
                data,
            ) && advanced(old(regs)@.update(REG_ERR as int, err), final(regs)@, r)
            &&& !old(mem).owns(a as int, 64) ==> r == Err::<(), PanicReason>(
                PanicReason::MemoryOverflow,
            ) && final(mem).bytes() == old(mem).bytes() && final(regs)@ == old(regs)@
        },
{
    if a > VM_MAX_RAM - 64 || b > VM_MAX_RAM - 64 || c > VM_MAX_RAM - 32 {
        return Err(PanicReason::MemoryOverflow);
    }
    let sig = array64(&mem.read(b, 64));
    let msg = array32(&mem.read(c, 32));
    let recovered = secp256r1_recover(sig, msg);
    ecrecover_finish(mem, regs, a, recovered)
}

/// `K256 a b c`: writes at `a` the Keccak-256 digest of the `c` bytes at `b`.
pub fn keccak256_op(mem: &mut VmMemory, regs: &mut Registers, a: u64, b: u64, c: u64) -> (r: Result<
    (),
    PanicReason,
>)
    requires
        old(mem).wf(),
        old(regs).wf(),
    ensures
        final(mem).wf(),
        final(regs).wf(),
        a > VM_MAX_RAM - 32 || c > MEM_MAX_ACCESS_SIZE || b > VM_MAX_RAM - c ==> r == Err::<
            (),
            PanicReason,
        >(PanicReason::MemoryOverflow) && *final(mem) == *old(mem) && final(regs)@ == old(regs)@,
        !(a > VM_MAX_RAM - 32 || c > MEM_MAX_ACCESS_SIZE || b > VM_MAX_RAM - c) ==> {
            let digest = keccak256_of(old(mem).bytes().subrange(b as int, b + c));
            &&& old(mem).owns(a as int, 32) ==> final(mem).bytes() == splice(
                old(mem).bytes(),
                a as int,
                digest,
            ) && advanced(old(regs)@, final(regs)@, r)
            &&& !old(mem).owns(a as int, 32) ==> r == Err::<(), PanicReason>(
                PanicReason::MemoryOverflow,
            ) && final(mem).bytes() == old(mem).bytes() && final(regs)@ == old(regs)@
        },
{
    if a > VM_MAX_RAM - 32 || c > MEM_MAX_ACCESS_SIZE || b > VM_MAX_RAM - c {
        return Err(PanicReason::MemoryOverflow);
    }
    let data = mem.read(b, c);
    let digest = keccak256_digest(data.as_slice());
    let err = regs.get(REG_ERR);
    assert(regs@.update(REG_ERR as int, err) =~= regs@);
    write_result(mem, regs, a, &digest, err)
}

/// `S256 a b c`: writes at `a` the SHA-256 digest of the `c` bytes at `b`.
pub fn sha256_op(mem: &mut VmMemory, regs: &mut Registers, a: u64, b: u64, c: u64) -> (r: Result<
    (),
    PanicReason,
>)
    requires
        old(mem).wf(),
        old(regs).wf(),
    ensures
        final(mem).wf(),
        final(regs).wf(),
        a > VM_MAX_RAM - 32 || c > MEM_MAX_ACCESS_SIZE || b > VM_MAX_RAM - c ==> r == Err::<
            (),
            PanicReason,
        >(PanicReason::MemoryOverflow) && *final(mem) == *old(mem) && final(regs)@ == old(regs)@,
        !(a > VM_MAX_RAM - 32 || c > MEM_MAX_ACCESS_SIZE || b > VM_MAX_RAM - c) ==> {
            let digest = sha256_of(old(mem).bytes().subrange(b as int, b + c));
            &&& old(mem).owns(a as int, 32) ==> final(mem).bytes() == splice(
                old(mem).bytes(),
                a as int,
                digest,
            ) && advanced(old(regs)@, final(regs)@, r)
            &&& !old(mem).owns(a as int, 32) ==> r == Err::<(), PanicReason>(
                PanicReason::MemoryOverflow,
            ) && final(mem).bytes() == old(mem).bytes() && final(regs)@ == old(regs)@
        },
{
    if a > VM_MAX_RAM - 32 || c > MEM_MAX_ACCESS_SIZE || b > VM_MAX_RAM - c {
        return Err(PanicReason::MemoryOverflow);
    }
    let data = mem.read(b, c);
    let digest = sha256(data.as_slice());
    let err = regs.get(REG_ERR);
    assert(regs@.update(REG_ERR as int, err) =~= regs@);
    write_result(mem, regs, a, &digest, err)
}

/// The message length that `ED19` reads: zero stands for 32.
pub open spec fn ed19_len(len: u64) -> u64 {
    if len == 0 {
        32
    } else {
        len
    }
}

/// `ED19 a b c len`: verifies the ed25519 signature at `b` (64 bytes) over
/// the message of `len` bytes at `c` (32 when `len` is zero) under the
/// public key at `a` (32 bytes); clears the error register when it
/// verifies and sets it otherwise.
pub fn ed25519_verify_op(
    mem: &mut VmMemory,
    regs: &mut Registers,
    a: u64,
    b: u64,
    c: u64,
    len: u64,
) -> (r: Result<(), PanicReason>)
    requires
        old(mem).wf(),
        old(regs).wf(),
    ensures
        *final(mem) == *old(mem),
        final(regs).wf(),
        ({
            let n = ed19_len(len);
            let overflow = a > VM_MAX_RAM - 32 || b > VM_MAX_RAM - 64 || n > VM_MAX_RAM || c
                > VM_MAX_RAM - n;
            &&& overflow ==> r == Err::<(), PanicReason>(PanicReason::MemoryOverflow)
                && final(regs)@ == old(regs)@
            &&& !overflow ==> {
                let m = old(mem).bytes();
                let ok = ed25519_verifies(
                    m.subrange(a as int, a + 32),
                    m.subrange(b as int, b + 64),
                    m.subrange(c as int, c + n),
                );
                advanced(
                    old(regs)@.update(
                        REG_ERR as int,
                        if ok {
                            0
                        } else {
                            1
                        },
                    ),
                    final(regs)@,
                    r,
                )
            }
        }),
{
    let n = if len == 0 {
        32
    } else {
        len
    };
    if a > VM_MAX_RAM - 32 || b > VM_MAX_RAM - 64 || n > VM_MAX_RAM || c > VM_MAX_RAM - n {
        return Err(PanicReason::MemoryOverflow);
    }
    let pub_key = array32(&mem.read(a, 32));
    let sig = array64(&mem.read(b, 64));
    let msg = mem.read(c, n);
    let ok = ed25519_verify(pub_key, sig, msg.as_slice());
    finish_verification(regs, ok)
}

/// Finishes a signature check once its verdict is known: clears the error
/// register when the signature verified and sets it otherwise, then advances.
pub fn finish_verification(regs: &mut Registers, verified: bool) -> (r: Result<(), PanicReason>)
    requires
        old(regs).wf(),
    ensures
        final(regs).wf(),
        advanced(
            old(regs)@.update(
                REG_ERR as int,
                if verified {
                    0
                } else {
                    1
                },
            ),
            final(regs)@,
            r,
        ),
{
    regs.set_system(REG_ERR, if verified {
        0
    } else {
        1
    });
    regs.inc_pc()
}

} // verus!

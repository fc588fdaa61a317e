//! The `GM` instruction: metadata about the execution context.
use crate::registers::{PanicReason, Registers, REG_PC, SYSTEM_REGISTER_COUNT};
use vstd::prelude::*;

verus! {

/// Memory offset of the base asset id.
pub const VM_MEMORY_BASE_ASSET_ID_OFFSET: u64 = 0;

/// Where the machine is executing.
#[derive(Clone, Copy, Debug, PartialEq, Eq)]
pub enum Context {
    /// Estimating the gas of the predicate of input `predicate_index`.
    PredicateEstimation { predicate_index: u64 },
    /// Verifying the predicate of input `predicate_index`.
    PredicateVerification { predicate_index: u64 },
    /// Running the script.
    Script { block_height: u32 },
    /// Inside a contract call.
    Call { block_height: u32 },
    /// Before any transaction is loaded.
    NotInitialized,
}

/// What a `GM` instruction asks for.
#[derive(Clone, Copy, Debug, PartialEq, Eq)]
pub enum GMArgs {
    IsCallerExternal,
    GetCaller,
    GetVerifyingPredicate,
    GetChainId,
    TxStart,
    BaseAssetId,
    GetGasPrice,
}

/// The selector that immediate `imm` encodes.
pub open spec fn gm_args_of(imm: u32) -> Option<GMArgs> {
    if imm == 1 {
        Some(GMArgs::IsCallerExternal)
    } else if imm == 2 {
        Some(GMArgs::GetCaller)
    } else if imm == 3 {
        Some(GMArgs::GetVerifyingPredicate)
    } else if imm == 4 {
        Some(GMArgs::GetChainId)
    } else if imm == 5 {
        Some(GMArgs::TxStart)
    } else if imm == 6 {
        Some(GMArgs::BaseAssetId)
    } else if imm == 7 {
        Some(GMArgs::GetGasPrice)
    } else {
        None
    }
}

impl GMArgs {
    /// Decodes a selector; an unknown one is `InvalidMetadataIdentifier`.
    pub fn try_from_imm(imm: u32) -> (r: Result<GMArgs, PanicReason>)
        ensures
            gm_args_of(imm) matches Some(a) ==> r == Ok::<GMArgs, PanicReason>(a),
            gm_args_of(imm) is None ==> r == Err::<GMArgs, PanicReason>(
                PanicReason::InvalidMetadataIdentifier,
            ),
    {
        match imm {
            1 => Ok(GMArgs::IsCallerExternal),
            2 => Ok(GMArgs::GetCaller),
            3 => Ok(GMArgs::GetVerifyingPredicate),
            4 => Ok(GMArgs::GetChainId),
            5 => Ok(GMArgs::TxStart),
            6 => Ok(GMArgs::BaseAssetId),
            7 => Ok(GMArgs::GetGasPrice),
            _ => Err(PanicReason::InvalidMetadataIdentifier),
        }
    }
}

/// The frame pointer saved by the innermost call, when inside a call.
pub open spec fn parent_of(context: Context, last_frame_fp: Option<u64>) -> Option<u64> {
    match context {
        Context::Call { .. } => last_frame_fp,
        _ => None,
    }
}

/// The word that `GM` yields for `args`, or why it panics.
pub open spec fn gm_value(
    context: Context,
    last_frame_fp: Option<u64>,
    args: GMArgs,
    chain_id: u64,
    tx_offset: u64,
    gas_price: u64,
) -> Result<u64, PanicReason> {
    let parent = parent_of(context, last_frame_fp);
    match args {
        GMArgs::GetVerifyingPredicate => match context {
            Context::PredicateEstimation { predicate_index } => Ok(predicate_index),
            Context::PredicateVerification { predicate_index } => Ok(predicate_index),
            _ => Err(PanicReason::TransactionValidity),
        },
        GMArgs::GetChainId => Ok(chain_id),
        GMArgs::BaseAssetId => Ok(VM_MEMORY_BASE_ASSET_ID_OFFSET),
        GMArgs::TxStart => Ok(tx_offset),
        GMArgs::GetCaller => match parent {
            Some(p) => if p == 0 {
                Err(PanicReason::ExpectedNestedCaller)
            } else {
                Ok(p)
            },
            None => Err(PanicReason::ExpectedInternalContext),
        },
        GMArgs::IsCallerExternal => match parent {
            Some(p) => Ok(if p == 0 {
                1
            } else {
                0
            }),
            None => Err(PanicReason::ExpectedInternalContext),
        },
        GMArgs::GetGasPrice => match context {
            Context::PredicateVerification { .. } => Err(
                PanicReason::CanNotGetGasPriceInPredicate,
            ),
            Context::PredicateEstimation { .. } => Err(PanicReason::CanNotGetGasPriceInPredicate),
            _ => Ok(gas_price),
        },
    }
}

/// The word that `GM` with immediate `imm` yields, or why it panics.
pub open spec fn gm_result(
    context: Context,
    last_frame_fp: Option<u64>,
    imm: u32,
    chain_id: u64,
    tx_offset: u64,
    gas_price: u64,
) -> Result<u64, PanicReason> {
    match gm_args_of(imm) {
        None => Err(PanicReason::InvalidMetadataIdentifier),
        Some(args) => gm_value(context, last_frame_fp, args, chain_id, tx_offset, gas_price),
    }
}

/// Computes the `GM` word for `imm`.
pub fn metadata_value(
    context: &Context,
    last_frame_fp: Option<u64>,
    imm: u32,
    chain_id: u64,
    tx_offset: u64,
    gas_price: u64,
) -> (r: Result<u64, PanicReason>)
    ensures
        r == gm_result(*context, last_frame_fp, imm, chain_id, tx_offset, gas_price),
{
    let args = match GMArgs::try_from_imm(imm) {
        Ok(a) => a,
        Err(e) => return Err(e),
    };
    let parent: Option<u64> = match context {
        Context::Call { .. } => last_frame_fp,
        _ => None,
    };
    match args {
        GMArgs::GetVerifyingPredicate => match context {
            Context::PredicateEstimation { predicate_index } => Ok(*predicate_index),
            Context::PredicateVerification { predicate_index } => Ok(*predicate_index),
            _ => Err(PanicReason::TransactionValidity),
        },
        GMArgs::GetChainId => Ok(chain_id),
        GMArgs::BaseAssetId => Ok(VM_MEMORY_BASE_ASSET_ID_OFFSET),
        GMArgs::TxStart => Ok(tx_offset),
        GMArgs::GetCaller => match parent {
            Some(p) => if p == 0 {
                Err(PanicReason::ExpectedNestedCaller)
            } else {
                Ok(p)
            },
            None => Err(PanicReason::ExpectedInternalContext),
        },
        GMArgs::IsCallerExternal => match parent {
            Some(p) => Ok(if p == 0 {
                1
            } else {
                0
            }),
            None => Err(PanicReason::ExpectedInternalContext),
        },
        GMArgs::GetGasPrice => match context {
            Context::PredicateVerification { .. } => Err(
                PanicReason::CanNotGetGasPriceInPredicate,
            ),
            Context::PredicateEstimation { .. } => Err(PanicReason::CanNotGetGasPriceInPredicate),
            _ => Ok(gas_price),
        },
    }
}

/// Executes `GM ra imm`: writes the metadata word to `ra` and advances the
/// program counter. A system register as `ra` is refused first; a panic
/// leaves every register as it was.
pub fn metadata(
    regs: &mut Registers,
    context: &Context,
    last_frame_fp: Option<u64>,
    ra: u8,
    imm: u32,
    chain_id: u64,
    tx_offset: u64,
    gas_price: u64,
) -> (r: Result<(), PanicReason>)
    requires
        old(regs).wf(),
        ra < 64,
    ensures
        final(regs).wf(),
        ra < SYSTEM_REGISTER_COUNT ==> r == Err::<(), PanicReason>(
            PanicReason::ReservedRegisterNotWritable,
        ) && final(regs)@ == old(regs)@,
        ra >= SYSTEM_REGISTER_COUNT ==> match gm_result(
            *context,
            last_frame_fp,
            imm,
            chain_id,
            tx_offset,
            gas_price,
        ) {
            Err(e) => r == Err::<(), PanicReason>(e) && final(regs)@ == old(regs)@,
            Ok(v) => {
                let pc = old(regs)@[REG_PC as int];
                if pc + 4 <= u64::MAX {
                    r is Ok && final(regs)@ == old(regs)@.update(ra as int, v).update(
                        REG_PC as int,
                        (pc + 4) as u64,
                    )
                } else {
                    r == Err::<(), PanicReason>(PanicReason::MemoryOverflow) && final(regs)@
                        == old(regs)@.update(ra as int, v)
                }
            },
        },
{
    if ra < SYSTEM_REGISTER_COUNT {
        return Err(PanicReason::ReservedRegisterNotWritable);
    }
    let v = match metadata_value(context, last_frame_fp, imm, chain_id, tx_offset, gas_price) {
        Ok(v) => v,
        Err(e) => return Err(e),
    };
    let _ = regs.write(ra, v);
    regs.inc_pc()
}

} // verus!

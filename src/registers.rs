//! The register file, the panic reasons and the program counter discipline.
use vstd::prelude::*;

verus! {

pub const VM_REGISTER_COUNT: usize = 64;

/// Registers below this index are system registers: user writes to them fail.
pub const SYSTEM_REGISTER_COUNT: u8 = 16;

pub const REG_ZERO: u8 = 0;

pub const REG_ONE: u8 = 1;

pub const REG_OF: u8 = 2;

pub const REG_PC: u8 = 3;

pub const REG_SSP: u8 = 4;

pub const REG_SP: u8 = 5;

pub const REG_FP: u8 = 6;

pub const REG_HP: u8 = 7;

pub const REG_ERR: u8 = 8;

pub const REG_GGAS: u8 = 9;

pub const REG_CGAS: u8 = 10;

pub const REG_BAL: u8 = 11;

pub const REG_IS: u8 = 12;

pub const REG_RET: u8 = 13;

pub const REG_RETL: u8 = 14;

pub const REG_FLAG: u8 = 15;

/// Width of one instruction in bytes.
pub const INSTRUCTION_SIZE: u64 = 4;

/// Why execution panicked.
#[derive(Clone, Copy, Debug, PartialEq, Eq)]
pub enum PanicReason {
    MemoryOverflow,
    TransactionValidity,
    ExpectedInternalContext,
    ExpectedNestedCaller,
    CanNotGetGasPriceInPredicate,
    InvalidMetadataIdentifier,
    InputNotFound,
    OutputNotFound,
    WitnessNotFound,
    PolicyIsNotSet,
    ProofInUploadNotFound,
    StorageSlotsNotFound,
    ReservedRegisterNotWritable,
}

/// The 64 registers.
pub struct Registers {
    regs: Vec<u64>,
}

impl View for Registers {
    type V = Seq<u64>;

    closed spec fn view(&self) -> Seq<u64> {
        self.regs@
    }
}

impl Registers {
    pub open spec fn wf(&self) -> bool {
        self@.len() == VM_REGISTER_COUNT
    }

    /// The initial register file: every register zero but `ONE`, which is 1.
    pub fn new() -> (r: Self)
        ensures
            r.wf(),
            forall|i: int| 0 <= i < 64 && i != REG_ONE ==> r@[i] == 0,
            r@[REG_ONE as int] == 1,
    {
        let mut regs: Vec<u64> = Vec::new();
        let mut i: usize = 0;
        while i < VM_REGISTER_COUNT
            invariant
                i <= VM_REGISTER_COUNT,
                regs@.len() == i,
                forall|j: int| 0 <= j < i ==> regs@[j] == (if j == REG_ONE {
                    1u64
                } else {
                    0u64
                }),
            decreases VM_REGISTER_COUNT - i,
        {
            if i == REG_ONE as usize {
                regs.push(1);
            } else {
                regs.push(0);
            }
            i = i + 1;
        }
        Registers { regs }
    }

    pub fn get(&self, r: u8) -> (v: u64)
        requires
            self.wf(),
            r < 64,
        ensures
            v == self@[r as int],
    {
        self.regs[r as usize]
    }

    /// Writes `v` to register `ra` on behalf of a program: a system
    /// register is refused and left as it was.
    pub fn write(&mut self, ra: u8, v: u64) -> (r: Result<(), PanicReason>)
        requires
            old(self).wf(),
            ra < 64,
        ensures
            final(self).wf(),
            ra < SYSTEM_REGISTER_COUNT ==> r == Err::<(), PanicReason>(
                PanicReason::ReservedRegisterNotWritable,
            ) && final(self)@ == old(self)@,
            ra >= SYSTEM_REGISTER_COUNT ==> r is Ok && final(self)@ == old(self)@.update(
                ra as int,
                v,
            ),
    {
        if ra < SYSTEM_REGISTER_COUNT {
            return Err(PanicReason::ReservedRegisterNotWritable);
        }
        self.regs.set(ra as usize, v);
        Ok(())
    }

    /// Sets a system register from the machine itself.
    pub fn set_system(&mut self, ra: u8, v: u64)
        requires
            old(self).wf(),
            ra < 64,
        ensures
            final(self).wf(),
            final(self)@ == old(self)@.update(ra as int, v),
    {
        self.regs.set(ra as usize, v);
    }

    /// Advances the program counter by one instruction.
    pub fn inc_pc(&mut self) -> (r: Result<(), PanicReason>)
        requires
            old(self).wf(),
        ensures
            final(self).wf(),
            old(self)@[REG_PC as int] + INSTRUCTION_SIZE <= u64::MAX ==> r is Ok && final(self)@
                == old(self)@.update(REG_PC as int, (old(self)@[REG_PC as int] + INSTRUCTION_SIZE) as u64),
            old(self)@[REG_PC as int] + INSTRUCTION_SIZE > u64::MAX ==> r == Err::<(), PanicReason>(
                PanicReason::MemoryOverflow,
            ) && final(self)@ == old(self)@,
    {
        let pc = self.regs[REG_PC as usize];
        if pc > u64::MAX - INSTRUCTION_SIZE {
            return Err(PanicReason::MemoryOverflow);
        }
        self.regs.set(REG_PC as usize, pc + INSTRUCTION_SIZE);
        Ok(())
    }
}

} // verus!

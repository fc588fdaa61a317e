//! The flat memory of the machine: a stack growing up from zero and a heap
//! growing down from the top, with the uncommitted gap between them.
use crate::registers::PanicReason;
use vstd::prelude::*;

verus! {

/// Size of the memory in bytes.
pub const VM_MAX_RAM: u64 = 0x400_0000;

/// Largest region a single instruction may read.
pub const MEM_MAX_ACCESS_SIZE: u64 = 0x400_0000;

/// `m` with `data` written at `a`.
pub open spec fn splice(m: Seq<u8>, a: int, data: Seq<u8>) -> Seq<u8> {
    m.subrange(0, a) + data + m.subrange(a + data.len(), m.len() as int)
}

pub struct VmMemory {
    bytes: Vec<u8>,
    sp: u64,
    hp: u64,
}

impl VmMemory {
    /// The bytes of memory.
    pub closed spec fn bytes(&self) -> Seq<u8> {
        self.bytes@
    }

    /// The stack pointer: the stack is `[0, sp)`.
    pub closed spec fn sp_spec(&self) -> u64 {
        self.sp
    }

    /// The heap pointer: the heap is `[hp, VM_MAX_RAM)`.
    pub closed spec fn hp_spec(&self) -> u64 {
        self.hp
    }

    /// The stack never runs into the heap.
    pub open spec fn wf(&self) -> bool {
        &&& self.bytes().len() == VM_MAX_RAM
        &&& self.sp_spec() <= self.hp_spec() <= VM_MAX_RAM
    }

    /// `[a, a + len)` lies in the stack or in the heap.
    pub open spec fn owns(&self, a: int, len: int) -> bool {
        ||| a + len <= self.sp_spec()
        ||| self.hp_spec() <= a && a + len <= VM_MAX_RAM
    }

    /// Zeroed memory with an empty stack and an empty heap.
    pub fn new() -> (r: Self)
        ensures
            r.wf(),
            r.sp_spec() == 0,
            r.hp_spec() == VM_MAX_RAM,
            forall|i: int| 0 <= i < VM_MAX_RAM ==> r.bytes()[i] == 0,
    {
        let bytes: Vec<u8> = vec![0u8; VM_MAX_RAM as usize];
        VmMemory { bytes, sp: 0, hp: VM_MAX_RAM }
    }

    pub fn sp(&self) -> (r: u64)
        ensures
            r == self.sp_spec(),
    {
        self.sp
    }

    pub fn hp(&self) -> (r: u64)
        ensures
            r == self.hp_spec(),
    {
        self.hp
    }

    /// Grows the stack by `n` bytes; fails when it would pass the heap.
    pub fn grow_stack(&mut self, n: u64) -> (r: Result<(), PanicReason>)
        requires
            old(self).wf(),
        ensures
            final(self).wf(),
            final(self).bytes() == old(self).bytes(),
            final(self).hp_spec() == old(self).hp_spec(),
            n <= old(self).hp_spec() - old(self).sp_spec() ==> r is Ok && final(self).sp_spec()
                == old(self).sp_spec() + n,
            n > old(self).hp_spec() - old(self).sp_spec() ==> r == Err::<(), PanicReason>(
                PanicReason::MemoryOverflow,
            ) && final(self).sp_spec() == old(self).sp_spec(),
    {
        if n > self.hp - self.sp {
            return Err(PanicReason::MemoryOverflow);
        }
        self.sp = self.sp + n;
        Ok(())
    }

    /// Grows the heap down by `n` bytes; fails when it would pass the stack.
    pub fn grow_heap_by(&mut self, n: u64) -> (r: Result<(), PanicReason>)
        requires
            old(self).wf(),
        ensures
            final(self).wf(),
            final(self).bytes() == old(self).bytes(),
            final(self).sp_spec() == old(self).sp_spec(),
            n <= old(self).hp_spec() - old(self).sp_spec() ==> r is Ok && final(self).hp_spec()
                == old(self).hp_spec() - n,
            n > old(self).hp_spec() - old(self).sp_spec() ==> r == Err::<(), PanicReason>(
                PanicReason::MemoryOverflow,
            ) && final(self).hp_spec() == old(self).hp_spec(),
    {
        if n > self.hp - self.sp {
            return Err(PanicReason::MemoryOverflow);
        }
        self.hp = self.hp - n;
        Ok(())
    }

    /// The `len` bytes at `a`, which must lie in memory.
    pub fn read(&self, a: u64, len: u64) -> (r: Vec<u8>)
        requires
            self.wf(),
            a + len <= VM_MAX_RAM,
        ensures
            r@ == self.bytes().subrange(a as int, a + len),
    {
        let mut out: Vec<u8> = Vec::new();
        let mut i: u64 = 0;
        while i < len
            invariant
                self.wf(),
                a + len <= VM_MAX_RAM,
                i <= len,
                out@ == self.bytes().subrange(a as int, a + i),
            decreases len - i,
        {
            out.push(self.bytes[(a + i) as usize]);
            i = i + 1;
            assert(out@ =~= self.bytes().subrange(a as int, a + i));
        }
        out
    }

    /// Writes `data` at `a`; fails unless the range lies in the stack or the heap.
    pub fn write(&mut self, a: u64, data: &[u8]) -> (r: Result<(), PanicReason>)
        requires
            old(self).wf(),
        ensures
            final(self).wf(),
            final(self).sp_spec() == old(self).sp_spec(),
            final(self).hp_spec() == old(self).hp_spec(),
            old(self).owns(a as int, data@.len() as int) ==> r is Ok && final(self).bytes()
                == splice(old(self).bytes(), a as int, data@),
            !old(self).owns(a as int, data@.len() as int) ==> r == Err::<(), PanicReason>(
                PanicReason::MemoryOverflow,
            ) && final(self).bytes() == old(self).bytes(),
    {
        let len = data.len();
        let fits = len as u64 <= VM_MAX_RAM && a <= VM_MAX_RAM - len as u64;
        if !fits || !(a + len as u64 <= self.sp || (self.hp <= a)) {
            return Err(PanicReason::MemoryOverflow);
        }
        let ghost start = self.bytes@;
        let mut i: usize = 0;
        assert(start =~= splice(start, a as int, data@.subrange(0, 0)));
        while i < len
            invariant
                len == data@.len(),
                a + len <= VM_MAX_RAM,
                self.sp == old(self).sp_spec(),
                self.hp == old(self).hp_spec(),
                self.bytes@.len() == VM_MAX_RAM,
                i <= len,
                start.len() == VM_MAX_RAM,
                self.bytes@ == splice(start, a as int, data@.subrange(0, i as int)),
            decreases len - i,
        {
            self.bytes.set((a + i as u64) as usize, data[i]);
            i = i + 1;
            assert(self.bytes@ =~= splice(start, a as int, data@.subrange(0, i as int)));
        }
        assert(data@.subrange(0, i as int) =~= data@);
        assert(self.bytes@ =~= splice(start, a as int, data@));
        Ok(())
    }
}

} // verus!

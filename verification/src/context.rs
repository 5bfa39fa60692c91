//! The PowerPC register state a recompiled function runs against.
use vstd::prelude::*;

verus! {

/// Number of general-purpose registers.
pub const GPR_COUNT: usize = 32;

/// CPU registers: 32 general-purpose registers and the special registers the
/// generated code uses.
pub struct CpuContext {
    pub gpr: Vec<u32>,
    pub lr: u32,
    pub ctr: u32,
    pub cr: u32,
    pub xer: u32,
    pub pc: u32,
}

impl CpuContext {
    /// General-purpose register values, r0 first.
    pub open spec fn regs(&self) -> Seq<u32> {
        self.gpr@
    }

    /// The register file always holds `GPR_COUNT` registers.
    pub open spec fn wf(&self) -> bool {
        self.gpr@.len() == GPR_COUNT
    }

    /// All registers zero.
    pub fn new() -> (c: Self)
        ensures
            c.wf(),
            c.regs() == Seq::new(GPR_COUNT as nat, |i: int| 0u32),
            c.lr == 0 && c.ctr == 0 && c.cr == 0 && c.xer == 0 && c.pc == 0,
    {
        let gpr = vec![0u32; GPR_COUNT];
        assert(gpr@ =~= Seq::new(GPR_COUNT as nat, |i: int| 0u32));
        CpuContext { gpr, lr: 0, ctr: 0, cr: 0, xer: 0, pc: 0 }
    }

    /// The value of register `r`.
    pub fn get_register(&self, r: u8) -> (v: u32)
        requires
            self.wf(),
            r < GPR_COUNT,
        ensures
            v == self.regs()[r as int],
    {
        self.gpr[r as usize]
    }

    /// Sets register `r` to `v`; nothing else changes.
    pub fn set_register(&mut self, r: u8, v: u32)
        requires
            old(self).wf(),
            r < GPR_COUNT,
        ensures
            final(self).wf(),
            final(self).regs() == old(self).regs().update(r as int, v),
            final(self).lr == old(self).lr,
            final(self).ctr == old(self).ctr,
            final(self).cr == old(self).cr,
            final(self).xer == old(self).xer,
            final(self).pc == old(self).pc,
    {
        self.gpr.set(r as usize, v);
    }
}

} // verus!

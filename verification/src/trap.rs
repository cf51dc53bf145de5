//! The context saved when a task traps into the kernel.
use vstd::prelude::*;

verus! {

/// Number of general-purpose registers.
pub const NUM_REGS: usize = 32;

/// The `SPP` bit of `sstatus`: the privilege level before the trap (set: supervisor).
pub const SSTATUS_SPP: usize = 0x100;

/// The registers of a task saved at a trap, and what the trap handler needs to
/// return into the kernel.
pub struct TrapContext {
    /// The general-purpose registers `x0` to `x31`.
    pub x: Vec<usize>,
    /// The `sstatus` register.
    pub sstatus: usize,
    /// The `sepc` register: where the task resumes.
    pub sepc: usize,
    /// The `satp` value of the kernel's address space.
    pub kernel_satp: usize,
    /// The top of the task's kernel stack.
    pub kernel_sp: usize,
    /// The address of the trap handler.
    pub trap_handler: usize,
}

impl TrapContext {
    /// Sets the stack pointer (`x2`).
    pub fn set_sp(&mut self, sp: usize)
        requires
            old(self).x@.len() == NUM_REGS,
        ensures
            final(self).x@ == old(self).x@.update(2, sp),
            final(self).sstatus == old(self).sstatus,
            final(self).sepc == old(self).sepc,
            final(self).kernel_satp == old(self).kernel_satp,
            final(self).kernel_sp == old(self).kernel_sp,
            final(self).trap_handler == old(self).trap_handler,
    {
        self.x.set(2, sp);
    }

    /// The context in which an application starts: all registers zero but the
    /// stack pointer `sp`, user mode as the privilege level to return to
    /// (`sstatus` as read, with `SPP` cleared), and `entry` as the address to
    /// resume at.
    pub fn app_init_context(
        entry: usize,
        sp: usize,
        sstatus: usize,
        kernel_satp: usize,
        kernel_sp: usize,
        trap_handler: usize,
    ) -> (r: TrapContext)
        ensures
            r.x@ == Seq::new(NUM_REGS as nat, |i: int| 0usize).update(2, sp),
            r.sstatus == sstatus & !SSTATUS_SPP,
            r.sepc == entry,
            r.kernel_satp == kernel_satp,
            r.kernel_sp == kernel_sp,
            r.trap_handler == trap_handler,
    {
        let mut cx = TrapContext {
            x: vec![0usize; NUM_REGS],
            sstatus: sstatus & !SSTATUS_SPP,
            sepc: entry,
            kernel_satp,
            kernel_sp,
            trap_handler,
        };
        cx.set_sp(sp);
        assert(cx.x@ =~= Seq::new(NUM_REGS as nat, |i: int| 0usize).update(2, sp));
        cx
    }
}

} // verus!

//! x86-64 general-purpose register file of a stopped target thread, and the
//! register arithmetic of remote syscall injection.
//!
//! Injection never patches code: it saves the full register file, points the
//! instruction pointer at a `syscall` instruction already present in the
//! target, loads the syscall number and arguments into the registers the
//! Linux ABI assigns to them, single-steps, and restores the saved file.

use vstd::prelude::*;

verus! {

/// The registers ptrace exposes for a stopped x86-64 thread, in the layout of
/// the kernel's `user_regs_struct`.
#[derive(Clone, Copy, PartialEq, Eq, Structural, Debug)]
pub struct Regs {
    pub r15: u64,
    pub r14: u64,
    pub r13: u64,
    pub r12: u64,
    pub rbp: u64,
    pub rbx: u64,
    pub r11: u64,
    pub r10: u64,
    pub r9: u64,
    pub r8: u64,
    pub rax: u64,
    pub rcx: u64,
    pub rdx: u64,
    pub rsi: u64,
    pub rdi: u64,
    pub orig_rax: u64,
    pub rip: u64,
    pub cs: u64,
    pub eflags: u64,
    pub rsp: u64,
    pub ss: u64,
    pub fs_base: u64,
    pub gs_base: u64,
    pub ds: u64,
    pub es: u64,
    pub fs: u64,
    pub gs: u64,
}

impl Regs {
    /// The register file with every register zero, as KVM reports for a VCPU
    /// that was never started.
    pub fn zeroed() -> (r: Regs)
        ensures
            r == Regs::zeroed_spec(),
    {
        Regs {
            r15: 0, r14: 0, r13: 0, r12: 0, rbp: 0, rbx: 0, r11: 0, r10: 0,
            r9: 0, r8: 0, rax: 0, rcx: 0, rdx: 0, rsi: 0, rdi: 0,
            orig_rax: 0, rip: 0, cs: 0, eflags: 0, rsp: 0, ss: 0,
            fs_base: 0, gs_base: 0, ds: 0, es: 0, fs: 0, gs: 0,
        }
    }

    pub open spec fn zeroed_spec() -> Regs {
        Regs {
            r15: 0, r14: 0, r13: 0, r12: 0, rbp: 0, rbx: 0, r11: 0, r10: 0,
            r9: 0, r8: 0, rax: 0, rcx: 0, rdx: 0, rsi: 0, rdi: 0,
            orig_rax: 0, rip: 0, cs: 0, eflags: 0, rsp: 0, ss: 0,
            fs_base: 0, gs_base: 0, ds: 0, es: 0, fs: 0, gs: 0,
        }
    }

    /// At a ptrace syscall stop, the syscall number sits in `orig_rax`
    /// (`rax` already holds the kernel's in-progress return value), the
    /// first argument in `rdi` and the second in `rsi`. Returns
    /// `(number, arg0, arg1)`; for an `ioctl` stop that is
    /// `(SYS_ioctl, fd, request)`.
    pub fn get_syscall_params(&self) -> (r: (u64, u64, u64))
        ensures
            r.0 == self.orig_rax,
            r.1 == self.rdi,
            r.2 == self.rsi,
    {
        (self.orig_rax, self.rdi, self.rsi)
    }

    /// The register file to load before single-stepping an injected syscall:
    /// `self` with the instruction pointer on a `syscall` instruction, the
    /// syscall number in `rax`/`orig_rax`, and the six arguments in the
    /// registers the Linux x86-64 syscall ABI assigns
    /// (`rdi, rsi, rdx, r10, r8, r9`). Every other register keeps the
    /// target's saved value.
    pub fn prepare_syscall(&self, nr: u64, args: &[u64; 6], syscall_ip: u64) -> (r: Regs)
        ensures
            r == self.prepare_syscall_spec(nr, args@, syscall_ip),
    {
        let mut r = *self;
        r.rip = syscall_ip;
        r.rax = nr;
        r.orig_rax = nr;
        r.rdi = args[0];
        r.rsi = args[1];
        r.rdx = args[2];
        r.r10 = args[3];
        r.r8 = args[4];
        r.r9 = args[5];
        r
    }

    pub open spec fn prepare_syscall_spec(self, nr: u64, args: Seq<u64>, syscall_ip: u64) -> Regs {
        Regs {
            rip: syscall_ip,
            rax: nr,
            orig_rax: nr,
            rdi: args[0],
            rsi: args[1],
            rdx: args[2],
            r10: args[3],
            r8: args[4],
            r9: args[5],
            ..self
        }
    }

    /// After the single step, the kernel's return value is in `rax`.
    pub fn syscall_result(&self) -> (r: u64)
        ensures
            r == self.rax,
    {
        self.rax
    }
}

} // verus!

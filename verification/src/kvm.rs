//! Discovery of the target's KVM file descriptors and the handle the
//! controller keeps on the target hypervisor.
//!
//! A process using KVM holds one `anon_inode:kvm-vm` descriptor per virtual
//! machine and one `anon_inode:kvm-vcpu:<idx>` descriptor per VCPU. Discovery
//! classifies the target's descriptor table by those link names and accepts
//! exactly one VM with a dense list of distinct VCPUs.

use vstd::prelude::*;

use crate::cpu::Regs;
use crate::proc::Mapping;
use crate::result::Error;

verus! {

/// Linux x86-64 syscall numbers the injector issues in the target.
pub const SYS_IOCTL: u64 = 16;
pub const SYS_MMAP: u64 = 9;

/// `ioctl` request codes of the KVM API (`_IO(0xAE, ..)` and the `_IOW`
/// forms carrying a struct).
pub const KVM_RUN: u64 = 0xAE80;
pub const KVM_CHECK_EXTENSION: u64 = 0xAE03;
pub const KVM_IRQFD: u64 = 0x4020AE76;
pub const KVM_IOEVENTFD: u64 = 0x4040AE79;

/// Further syscall numbers used for interrupt plumbing in the target.
pub const SYS_WRITE: u64 = 1;
pub const SYS_EVENTFD2: u64 = 290;

/// `mmap` protection and flag bits used for the injected argument page.
pub const PROT_READ: u64 = 0x1;
pub const PROT_WRITE: u64 = 0x2;
pub const MAP_SHARED: u64 = 0x01;
pub const MAP_ANONYMOUS: u64 = 0x20;

/// The fd link name of a KVM virtual machine.
pub open spec fn kvm_vm_link() -> Seq<char> {
    "anon_inode:kvm-vm"@
}

/// The fd link prefix of a KVM VCPU; the decimal VCPU index follows it.
pub open spec fn kvm_vcpu_prefix() -> Seq<char> {
    "anon_inode:kvm-vcpu:"@
}

pub open spec fn is_digit(c: char) -> bool {
    48 <= c as u32 <= 57
}

pub open spec fn digit_val(c: char) -> int {
    c as u32 - 48
}

pub open spec fn all_digits(s: Seq<char>) -> bool {
    forall|i: int| 0 <= i < s.len() ==> is_digit(s[i])
}

/// Value of a decimal numeral, most significant digit first.
pub open spec fn dec_val(s: Seq<char>) -> int
    decreases s.len(),
{
    if s.len() == 0 {
        0
    } else {
        dec_val(s.drop_last()) * 10 + digit_val(s.last())
    }
}

/// The name has the VCPU prefix; it may or may not carry a usable index.
pub open spec fn has_vcpu_prefix(s: Seq<char>) -> bool {
    s.len() >= kvm_vcpu_prefix().len() && s.subrange(0, kvm_vcpu_prefix().len() as int)
        == kvm_vcpu_prefix()
}

/// The digits after the VCPU prefix.
pub open spec fn vcpu_suffix(s: Seq<char>) -> Seq<char> {
    s.subrange(kvm_vcpu_prefix().len() as int, s.len() as int)
}

/// A well-formed VCPU link: the prefix followed by a nonempty numeral whose
/// value fits a `usize`.
pub open spec fn is_vcpu_link(s: Seq<char>) -> bool {
    &&& has_vcpu_prefix(s)
    &&& vcpu_suffix(s).len() > 0
    &&& all_digits(vcpu_suffix(s))
    &&& dec_val(vcpu_suffix(s)) <= usize::MAX
}

/// A link that announces a VCPU but whose index cannot be read.
pub open spec fn is_bad_vcpu_link(s: Seq<char>) -> bool {
    has_vcpu_prefix(s) && !is_vcpu_link(s)
}

/// Appending a digit multiplies the numeral's value by ten.
proof fn lemma_dec_val_step(s: Seq<char>, i: int)
    requires
        0 <= i < s.len(),
    ensures
        dec_val(s.subrange(0, i + 1)) == dec_val(s.subrange(0, i)) * 10 + digit_val(s[i]),
{
    assert(s.subrange(0, i + 1).drop_last() =~= s.subrange(0, i));
    assert(s.subrange(0, i + 1).last() == s[i]);
}

/// A numeral of digits is worth at least any of its prefixes.
proof fn lemma_dec_val_mono(s: Seq<char>, i: int)
    requires
        0 <= i <= s.len(),
        all_digits(s),
    ensures
        dec_val(s) >= dec_val(s.subrange(0, i)),
        dec_val(s) >= 0,
    decreases s.len() - i,
{
    if i == s.len() {
        assert(s.subrange(0, i) =~= s);
        lemma_dec_val_nonneg(s);
    } else {
        lemma_dec_val_step(s, i);
        lemma_dec_val_nonneg(s.subrange(0, i));
        lemma_dec_val_mono(s, i + 1);
    }
}

proof fn lemma_dec_val_nonneg(s: Seq<char>)
    requires
        all_digits(s),
    ensures
        dec_val(s) >= 0,
    decreases s.len(),
{
    if s.len() > 0 {
        assert(all_digits(s.drop_last())) by {
            assert(forall|i: int| 0 <= i < s.len() - 1 ==> s.drop_last()[i] == s[i]);
        }
        lemma_dec_val_nonneg(s.drop_last());
    }
}

/// Character-by-character string equality; `str` equality is not otherwise
/// visible to the verifier.
fn str_eq(a: &str, b: &str) -> (r: bool)
    ensures
        r == (a@ == b@),
{
    let n = a.unicode_len();
    if n != b.unicode_len() {
        proof {
            assert(a@ != b@);
        }
        return false;
    }
    let mut i: usize = 0;
    while i < n
        invariant
            n == a@.len() == b@.len(),
            0 <= i <= n,
            forall|j: int| 0 <= j < i ==> a@[j] == b@[j],
        decreases n - i,
    {
        if a.get_char(i) != b.get_char(i) {
            proof {
                assert(a@ != b@);
            }
            return false;
        }
        i = i + 1;
    }
    proof {
        assert(a@ =~= b@);
    }
    true
}

/// Does `s` start with `p`?
fn str_has_prefix(s: &str, p: &str) -> (r: bool)
    ensures
        r == (s@.len() >= p@.len() && s@.subrange(0, p@.len() as int) == p@),
{
    let n = p.unicode_len();
    if s.unicode_len() < n {
        return false;
    }
    let mut i: usize = 0;
    while i < n
        invariant
            n == p@.len() <= s@.len(),
            0 <= i <= n,
            forall|j: int| 0 <= j < i ==> s@[j] == p@[j],
        decreases n - i,
    {
        if s.get_char(i) != p.get_char(i) {
            proof {
                assert(s@.subrange(0, p@.len() as int)[i as int] != p@[i as int]);
            }
            return false;
        }
        i = i + 1;
    }
    proof {
        assert(s@.subrange(0, p@.len() as int) =~= p@);
    }
    true
}

/// Reads the decimal numeral in `s` from position `from` to the end.
/// `None` when it is empty, holds a non-digit, or overflows `usize`.
fn parse_dec_suffix(s: &str, from: usize) -> (r: Option<usize>)
    requires
        from <= s@.len(),
    ensures
        match r {
            Some(v) => {
                &&& s@.subrange(from as int, s@.len() as int).len() > 0
                &&& all_digits(s@.subrange(from as int, s@.len() as int))
                &&& v == dec_val(s@.subrange(from as int, s@.len() as int))
            },
            None => !{
                let suffix = s@.subrange(from as int, s@.len() as int);
                &&& suffix.len() > 0
                &&& all_digits(suffix)
                &&& dec_val(suffix) <= usize::MAX
            },
        },
{
    let ghost suffix = s@.subrange(from as int, s@.len() as int);
    let n = s.unicode_len();
    if from >= n {
        return None;
    }
    let mut acc: usize = 0;
    let mut i: usize = from;
    while i < n
        invariant
            from <= i <= n,
            n == s@.len(),
            suffix == s@.subrange(from as int, s@.len() as int),
            forall|j: int| 0 <= j < i - from ==> is_digit(suffix[j]),
            acc == dec_val(suffix.subrange(0, i - from)),
        decreases n - i,
    {
        let c = s.get_char(i);
        proof {
            assert(suffix[i - from] == s@[i as int]);
        }
        let code = c as u32;
        if code < 48 || code > 57 {
            proof {
                assert(!is_digit(suffix[i - from]));
            }
            return None;
        }
        let d = (code - 48) as usize;
        if acc > (usize::MAX - d) / 10 {
            // The digits read so far already push the value past usize::MAX:
            // any continuation is at least as large.
            proof {
                if all_digits(suffix) {
                    lemma_dec_val_step(suffix, i - from);
                    lemma_dec_val_mono(suffix, i - from + 1);
                    assert(dec_val(suffix.subrange(0, i - from)) * 10 + digit_val(suffix[i - from])
                        > usize::MAX) by {
                        assert(acc * 10 + d > usize::MAX) by (nonlinear_arith)
                            requires acc > (usize::MAX - d) / 10, d <= 9, acc >= 0;
                    };
                }
            }
            return None;
        }
        proof {
            lemma_dec_val_step(suffix, i - from);
        }
        acc = acc * 10 + d;
        i = i + 1;
    }
    proof {
        assert(suffix.subrange(0, n - from) =~= suffix);
        assert(all_digits(suffix));
    }
    Some(acc)
}

} // verus!

verus! {

/// One VCPU of the target VM: its index and the fd number inside the target.
#[derive(Clone, Copy, Debug)]
pub struct VCPU {
    pub idx: usize,
    pub fd_num: i32,
}

/// `(index, fd)` views of a VCPU list.
pub open spec fn vcpu_views(v: Seq<VCPU>) -> Seq<(int, i32)> {
    v.map_values(|c: VCPU| (c.idx as int, c.fd_num))
}

/// The fd numbers of the entries whose link names a KVM VM, in table order.
pub open spec fn vm_fds_of(fds: Seq<crate::proc::FdInfo>) -> Seq<i32>
    decreases fds.len(),
{
    if fds.len() == 0 {
        seq![]
    } else {
        vm_fds_of(fds.drop_last()) + if fds.last().link@ == kvm_vm_link() {
            seq![fds.last().fd_num]
        } else {
            seq![]
        }
    }
}

/// The `(index, fd)` pairs of the entries whose link names a VCPU, in table
/// order.
pub open spec fn vcpu_descs_of(fds: Seq<crate::proc::FdInfo>) -> Seq<(int, i32)>
    decreases fds.len(),
{
    if fds.len() == 0 {
        seq![]
    } else {
        vcpu_descs_of(fds.drop_last()) + if is_vcpu_link(fds.last().link@) {
            seq![(dec_val(vcpu_suffix(fds.last().link@)), fds.last().fd_num)]
        } else {
            seq![]
        }
    }
}

/// Some entry announces a VCPU but its index cannot be read.
pub open spec fn any_bad_vcpu(fds: Seq<crate::proc::FdInfo>) -> bool {
    exists|i: int| 0 <= i < fds.len() && is_bad_vcpu_link(fds[i].link@)
}

/// No two VCPU entries carry the same index.
pub open spec fn distinct_indices(l: Seq<(int, i32)>) -> bool {
    forall|i: int, j: int| 0 <= i < j < l.len() ==> l[i].0 != l[j].0
}

proof fn lemma_vcpu_descs_prefix(fds: Seq<crate::proc::FdInfo>, i: int)
    requires
        0 <= i <= fds.len(),
    ensures
        vcpu_descs_of(fds.take(i)).is_prefix_of(vcpu_descs_of(fds)),
    decreases fds.len() - i,
{
    if i == fds.len() {
        assert(fds.take(i) =~= fds);
    } else {
        assert(fds.take(i + 1).drop_last() =~= fds.take(i));
        assert(fds.take(i + 1).last() == fds[i]);
        lemma_vcpu_descs_prefix(fds, i + 1);
    }
}

/// Is some already-collected VCPU carrying this index?
fn contains_idx(vcpus: &Vec<VCPU>, idx: usize) -> (r: bool)
    ensures
        r == (exists|j: int| 0 <= j < vcpus@.len() && vcpus@[j].idx == idx),
{
    let mut k: usize = 0;
    while k < vcpus.len()
        invariant
            0 <= k <= vcpus.len(),
            forall|j: int| 0 <= j < k ==> vcpus@[j].idx != idx,
        decreases vcpus.len() - k,
    {
        if vcpus[k].idx == idx {
            return true;
        }
        k = k + 1;
    }
    false
}

/// Classifies the target's fd table: the fd numbers of its KVM VMs and its
/// VCPU descriptors, in table order. Fails when a VCPU link's index cannot
/// be read, or when two VCPUs carry the same index (several VMs sharing one
/// process are not supported).
pub fn find_vm_fd(fds: &Vec<crate::proc::FdInfo>) -> (r: Result<(Vec<i32>, Vec<VCPU>), Error>)
    ensures
        match r {
            Ok(p) => {
                &&& p.0@ == vm_fds_of(fds@)
                &&& vcpu_views(p.1@) == vcpu_descs_of(fds@)
                &&& !any_bad_vcpu(fds@)
                &&& distinct_indices(vcpu_descs_of(fds@))
            },
            Err(e) => {
                &&& any_bad_vcpu(fds@) || !distinct_indices(vcpu_descs_of(fds@))
                &&& e matches Error::Discovery(_) ==> any_bad_vcpu(fds@)
                &&& e matches Error::Unsupported(_) ==> !distinct_indices(vcpu_descs_of(fds@))
                &&& (e matches Error::Discovery(_) || e matches Error::Unsupported(_))
            },
        },
{
    let mut vm_fds: Vec<i32> = Vec::new();
    let mut vcpus: Vec<VCPU> = Vec::new();
    let mut i: usize = 0;
    while i < fds.len()
        invariant
            0 <= i <= fds.len(),
            vm_fds@ == vm_fds_of(fds@.take(i as int)),
            vcpu_views(vcpus@) == vcpu_descs_of(fds@.take(i as int)),
            forall|j: int| 0 <= j < i ==> !is_bad_vcpu_link(fds@[j].link@),
            distinct_indices(vcpu_views(vcpus@)),
        decreases fds.len() - i,
    {
        proof {
            assert(fds@.take(i as int + 1).drop_last() =~= fds@.take(i as int));
            assert(fds@.take(i as int + 1).last() == fds@[i as int]);
        }
        let link = &fds[i].link;
        if str_eq(link.as_str(), "anon_inode:kvm-vm") {
            proof {
                // The VM link name is shorter than the VCPU prefix, so it
                // cannot announce a VCPU.
                reveal_strlit("anon_inode:kvm-vm");
                reveal_strlit("anon_inode:kvm-vcpu:");
                assert(!has_vcpu_prefix(link@));
            }
            vm_fds.push(fds[i].fd_num);
            proof {
                assert(vm_fds@ =~= vm_fds_of(fds@.take(i as int + 1)));
                assert(vcpu_views(vcpus@) =~= vcpu_descs_of(fds@.take(i as int + 1)));
            }
        } else if str_has_prefix(link.as_str(), "anon_inode:kvm-vcpu:") {
            let pfx_len = "anon_inode:kvm-vcpu:".unicode_len();
            match parse_dec_suffix(link.as_str(), pfx_len) {
                Some(idx) => {
                    proof {
                        assert(is_vcpu_link(fds@[i as int].link@));
                    }
                    if contains_idx(&vcpus, idx) {
                        // A second VCPU with an index already seen: one
                        // process would then hold several VMs.
                        proof {
                            let part = vcpu_descs_of(fds@.take(i as int + 1));
                            let full = vcpu_descs_of(fds@);
                            assert(part =~= vcpu_views(vcpus@)
                                + seq![(idx as int, fds@[i as int].fd_num)]);
                            let j = choose|j: int| 0 <= j < vcpus@.len() && vcpus@[j].idx == idx;
                            assert(part[j].0 == idx as int);
                            assert(part[part.len() - 1].0 == idx as int);
                            lemma_vcpu_descs_prefix(fds@, i as int + 1);
                            assert(full[j].0 == idx as int);
                            assert(full[part.len() - 1].0 == idx as int);
                            assert(!distinct_indices(full));
                        }
                        return Err(Error::Unsupported(String::from_str(
                            "found multiple vcpus with same id; several VMs in one hypervisor are not supported",
                        )));
                    }
                    vcpus.push(VCPU { idx, fd_num: fds[i].fd_num });
                    proof {
                        assert(vcpu_views(vcpus@) =~= vcpu_descs_of(fds@.take(i as int + 1)));
                        assert(vm_fds@ =~= vm_fds_of(fds@.take(i as int + 1)));
                    }
                },
                None => {
                    proof {
                        assert(is_bad_vcpu_link(fds@[i as int].link@));
                    }
                    return Err(Error::Discovery(String::from_str(
                        "cannot parse the vcpu index in a kvm-vcpu fd name",
                    )));
                },
            }
        } else {
            proof {
                assert(!has_vcpu_prefix(fds@[i as int].link@));
                assert(vm_fds@ =~= vm_fds_of(fds@.take(i as int + 1)));
                assert(vcpu_views(vcpus@) =~= vcpu_descs_of(fds@.take(i as int + 1)));
            }
        }
        i = i + 1;
    }
    proof {
        assert(fds@.take(fds@.len() as int) =~= fds@);
    }
    Ok((vm_fds, vcpus))
}

} // verus!

verus! {

/// The controller's handle on the target hypervisor: its pid, its single VM
/// fd, its VCPUs ordered by index, and its imported virtual memory mappings.
#[derive(Debug)]
pub struct Hypervisor {
    pub pid: i32,
    pub vm_fd: i32,
    pub vcpus: Vec<VCPU>,
    pub mappings: Vec<Mapping>,
}

impl Hypervisor {
    /// There is at least one VCPU and their indices are dense from zero.
    pub open spec fn wf(&self) -> bool {
        &&& self.vcpus@.len() >= 1
        &&& forall|i: int| 0 <= i < self.vcpus@.len() ==> self.vcpus@[i].idx == i
    }

    /// The imported mappings of the target.
    pub fn mappings(&self) -> (r: &Vec<Mapping>)
        ensures
            *r == self.mappings,
    {
        &self.mappings
    }

    /// The handle a fresh attach yields: the saved register file is the one
    /// observed on the stopped target.
    pub open spec fn attach_spec(&self, regs: Regs) -> Tracee {
        Tracee { pid: self.pid, vm_fd: self.vm_fd, saved_regs: regs }
    }

    /// Takes control of the stopped target for syscall injection. The caller
    /// hands in the register file it read from the stopped main thread; it is
    /// saved so that release can restore it untouched.
    pub fn attach(&self, regs: Regs) -> (t: Tracee)
        ensures
            t == self.attach_spec(regs),
    {
        Tracee { pid: self.pid, vm_fd: self.vm_fd, saved_regs: regs }
    }
}

/// Cross-process vectored I/O must move all requested bytes; a short
/// transfer leaves the copied value unusable. `Ok` exactly when the byte
/// counts agree.
pub fn check_transfer(done: usize, expected: usize) -> (r: Result<(), Error>)
    ensures
        r is Ok <==> done == expected,
{
    if done == expected {
        Ok(())
    } else {
        Err(Error::Protocol(String::from_str(
            "cross-process memory transfer moved fewer bytes than requested",
        )))
    }
}

/// One syscall the target is to execute on the controller's behalf: the
/// syscall number and the six argument registers of the x86-64 ABI.
#[derive(Clone, Copy, Debug)]
pub struct SyscallPlan {
    pub nr: u64,
    pub args: [u64; 6],
}

/// The capability "the target is stopped and ready to execute a syscall for
/// us". It saves the register file observed at attach; planning syscalls
/// never touches the saved file, and release returns it for restoration.
#[derive(Debug)]
pub struct Tracee {
    pub pid: i32,
    pub vm_fd: i32,
    pub saved_regs: Regs,
}

impl Tracee {
    /// The register file release hands back.
    pub open spec fn release_spec(&self) -> Regs {
        self.saved_regs
    }

    /// Gives the target back: the caller must write the returned register
    /// file into the stopped thread and detach, leaving the target exactly
    /// as it was found.
    pub fn release(self) -> (r: Regs)
        ensures
            r == self.release_spec(),
    {
        self.saved_regs
    }

    pub fn pid(&self) -> (r: i32)
        ensures
            r == self.pid,
    {
        self.pid
    }

    /// An `ioctl(fd, request, arg)` in the target.
    pub fn ioctl(&self, fd: i32, request: u64, arg: u64) -> (p: SyscallPlan)
        ensures
            p.nr == SYS_IOCTL,
            p.args@ =~= seq![fd as u64, request, arg, 0u64, 0u64, 0u64],
    {
        SyscallPlan { nr: SYS_IOCTL, args: [fd as u64, request, arg, 0, 0, 0] }
    }

    /// An ioctl against the target's VM fd.
    pub fn vm_ioctl(&self, request: u64, arg: u64) -> (p: SyscallPlan)
        ensures
            p.nr == SYS_IOCTL,
            p.args@ =~= seq![self.vm_fd as u64, request, arg, 0u64, 0u64, 0u64],
    {
        self.ioctl(self.vm_fd, request, arg)
    }

    /// An ioctl against the target's VM fd whose argument is a struct: the
    /// caller first executes an `mmap` plan, writes the struct at the
    /// returned address `arg_addr`, then executes this plan.
    pub fn vm_ioctl_with_ref(&self, request: u64, arg_addr: u64) -> (p: SyscallPlan)
        ensures
            p.nr == SYS_IOCTL,
            p.args@ =~= seq![self.vm_fd as u64, request, arg_addr, 0u64, 0u64, 0u64],
    {
        self.vm_ioctl(request, arg_addr)
    }

    /// An anonymous shared `mmap` of `length` bytes in the target; the kernel
    /// picks the address, no file is involved.
    pub fn mmap(&self, length: u64) -> (p: SyscallPlan)
        ensures
            p.nr == SYS_MMAP,
            p.args@ =~= seq![
                0u64,
                length,
                (PROT_READ | PROT_WRITE) as u64,
                (MAP_SHARED | MAP_ANONYMOUS) as u64,
                0u64,
                0u64,
            ],
    {
        SyscallPlan {
            nr: SYS_MMAP,
            args: [0, length, PROT_READ | PROT_WRITE, MAP_SHARED | MAP_ANONYMOUS, 0, 0],
        }
    }

    /// An arbitrary syscall in the target, for callers that need one beyond
    /// the specific planners here.
    pub fn syscall(&self, nr: u64, args: &[u64; 6]) -> (p: SyscallPlan)
        ensures
            p.nr == nr,
            p.args@ == args@,
    {
        SyscallPlan { nr, args: *args }
    }

    /// An `eventfd2(initval, 0)` in the target: the descriptor an irqfd
    /// binding signals interrupts through.
    pub fn eventfd(&self, initval: u32) -> (p: SyscallPlan)
        ensures
            p.nr == SYS_EVENTFD2,
            p.args@ =~= seq![initval as u64, 0u64, 0u64, 0u64, 0u64, 0u64],
    {
        SyscallPlan { nr: SYS_EVENTFD2, args: [initval as u64, 0, 0, 0, 0, 0] }
    }

    /// A `KVM_CHECK_EXTENSION` query against the target's VM fd.
    pub fn check_extension(&self, cap: i32) -> (p: SyscallPlan)
        ensures
            p.nr == SYS_IOCTL,
            p.args@ =~= seq![self.vm_fd as u64, KVM_CHECK_EXTENSION, cap as u64, 0u64, 0u64, 0u64],
    {
        self.vm_ioctl(KVM_CHECK_EXTENSION, cap as u64)
    }

    /// The register file to load for executing `plan`, with the instruction
    /// pointer on a `syscall` instruction already present in the target.
    pub fn regs_for(&self, plan: &SyscallPlan, syscall_ip: u64) -> (r: Regs)
        ensures
            r == self.saved_regs.prepare_syscall_spec(plan.nr, plan.args@, syscall_ip),
    {
        self.saved_regs.prepare_syscall(plan.nr, &plan.args, syscall_ip)
    }
}

/// The smallest raw return-register value that encodes a failure: the
/// kernel reports an injected syscall's error as the two's complement of an
/// errno in 1..=4095.
pub const NEG_ERRNO_FLOOR: u64 = 0xFFFF_FFFF_FFFF_F001;

/// Decodes the raw return register of an injected syscall, as the Linux
/// ABI defines it: a value in the top 4095 of the 64-bit range is the
/// two's complement of an errno and means failure; anything else is the
/// syscall's result.
pub fn decode_syscall_result(rax: u64) -> (r: Result<u64, i32>)
    ensures
        rax >= NEG_ERRNO_FLOOR ==> r == Result::<u64, i32>::Err(((u64::MAX - rax) + 1) as i32),
        rax < NEG_ERRNO_FLOOR ==> r == Result::<u64, i32>::Ok(rax),
{
    if rax >= NEG_ERRNO_FLOOR {
        Err(((u64::MAX - rax) + 1) as i32)
    } else {
        Ok(rax)
    }
}

/// Law: whatever syscalls are planned while a tracee holds the target,
/// releasing it hands back exactly the register file observed at attach —
/// plans are pure values and never alter the saved state.
pub proof fn lemma_release_restores(h: Hypervisor, regs: Regs)
    ensures
        h.attach_spec(regs).release_spec() == regs,
{
}

/// Is every VCPU index equal to its position?
pub open spec fn dense_indices(l: Seq<(int, i32)>) -> bool {
    forall|i: int| 0 <= i < l.len() ==> l[i].0 == i
}

/// Discovery accepts the target only with exactly one VM, at least one VCPU,
/// all VCPU indices distinct and dense from zero.
pub open spec fn discovery_ok(fds: Seq<crate::proc::FdInfo>) -> bool {
    &&& !any_bad_vcpu(fds)
    &&& distinct_indices(vcpu_descs_of(fds))
    &&& vm_fds_of(fds).len() == 1
    &&& vcpu_descs_of(fds).len() >= 1
    &&& dense_indices(vcpu_descs_of(fds))
}

/// Builds the handle on the target: classifies its fd table, keeps the
/// single VM fd and the dense VCPU list, and imports its mappings. Succeeds
/// exactly on a full, unambiguous discovery — never with a partial set.
pub fn get_hypervisor(pid: i32, fds: &Vec<crate::proc::FdInfo>, mappings: Vec<Mapping>) -> (r:
    Result<Hypervisor, Error>)
    ensures
        match r {
            Ok(h) => {
                &&& discovery_ok(fds@)
                &&& h.wf()
                &&& h.pid == pid
                &&& h.vm_fd == vm_fds_of(fds@)[0]
                &&& vcpu_views(h.vcpus@) == vcpu_descs_of(fds@)
                &&& h.mappings == mappings
            },
            Err(e) => {
                &&& !discovery_ok(fds@)
                &&& e matches Error::Discovery(_) ==> any_bad_vcpu(fds@) || vm_fds_of(fds@).len()
                    == 0 || vcpu_descs_of(fds@).len() == 0
                &&& e matches Error::Unsupported(_) ==> !distinct_indices(vcpu_descs_of(fds@))
                    || vm_fds_of(fds@).len() > 1 || !dense_indices(vcpu_descs_of(fds@))
                &&& (e matches Error::Discovery(_) || e matches Error::Unsupported(_))
                &&& (!any_bad_vcpu(fds@) && distinct_indices(vcpu_descs_of(fds@)) && vm_fds_of(
                    fds@,
                ).len() == 0 ==> (e matches Error::Discovery(_) && e.message_view()
                    == "no VMs found"@))
                &&& (!any_bad_vcpu(fds@) && distinct_indices(vcpu_descs_of(fds@)) && vm_fds_of(
                    fds@,
                ).len() > 1 ==> (e matches Error::Unsupported(_) && e.message_view()
                    == "multiple VMs found, this is not supported yet."@))
                &&& (!any_bad_vcpu(fds@) && distinct_indices(vcpu_descs_of(fds@)) && vm_fds_of(
                    fds@,
                ).len() == 1 && vcpu_descs_of(fds@).len() == 0 ==> (e matches Error::Discovery(_)
                    && e.message_view() == "found KVM instance but no VCPUs"@))
            },
        },
{
    let (vm_fds, vcpus) = match find_vm_fd(fds) {
        Ok(p) => p,
        Err(e) => {
            return Err(e);
        },
    };
    if vm_fds.len() == 0 {
        return Err(Error::Discovery(String::from_str("no VMs found")));
    }
    if vm_fds.len() > 1 {
        return Err(Error::Unsupported(String::from_str(
            "multiple VMs found, this is not supported yet.",
        )));
    }
    if vcpus.len() == 0 {
        return Err(Error::Discovery(String::from_str("found KVM instance but no VCPUs")));
    }
    let mut i: usize = 0;
    while i < vcpus.len()
        invariant
            0 <= i <= vcpus@.len(),
            vcpu_views(vcpus@) == vcpu_descs_of(fds@),
            vm_fds_of(fds@).len() == 1,
            vcpu_descs_of(fds@).len() == vcpus@.len(),
            vcpus@.len() >= 1,
            forall|j: int| 0 <= j < i ==> vcpus@[j].idx == j,
        decreases vcpus.len() - i,
    {
        if vcpus[i].idx != i {
            proof {
                assert(vcpu_descs_of(fds@)[i as int].0 == vcpus@[i as int].idx as int);
                assert(!dense_indices(vcpu_descs_of(fds@)));
            }
            return Err(Error::Unsupported(String::from_str(
                "vcpu indices are not dense from zero; unsupported topology",
            )));
        }
        i = i + 1;
    }
    let vm_fd = vm_fds[0];
    Ok(Hypervisor { pid, vm_fd, vcpus, mappings })
}

} // verus!

verus! {

impl Tracee {
    /// A placeholder for the VCPU's register file: injecting `KVM_GET_REGS`
    /// into the target is not implemented yet, so callers get an all-zero
    /// file rather than the VCPU's actual state.
    pub fn get_regs(&self, _vcpu: &VCPU) -> (r: Result<Regs, Error>)
        ensures
            r matches Ok(regs) && regs == Regs::zeroed_spec(),
    {
        Ok(Regs::zeroed())
    }
}

} // verus!

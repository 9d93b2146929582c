//! Interception of the target's `KVM_RUN` ioctls: the per-thread state
//! machine that watches every VCPU thread under ptrace-syscall stops,
//! recognizes the `KVM_RUN` syscall boundary, and decodes MMIO exits out of
//! the VCPU's shared `kvm_run` page.
//!
//! The surrounding event loop (issuing `PTRACE_SYSCALL`, polling `waitpid`,
//! reading registers and the shared page out of the target) is process I/O
//! and lives outside the library; it feeds every observed event into
//! [`KvmRunWrapper::process_status`], which makes all decisions.

use vstd::prelude::*;

use crate::cpu::Regs;
use crate::kvm::KVM_RUN;
use crate::kvm::SYS_IOCTL;
use crate::proc::Mapping;
use crate::result::Error;

verus! {

/// `kvm_run.exit_reason` value for an MMIO exit.
pub const KVM_EXIT_MMIO: u32 = 6;

/// `siginfo.si_code` of a plain breakpoint trap.
pub const SIGTRAP_CODE: i32 = 5;

/// `siginfo.si_code` of a syscall-stop trap (`SIGTRAP | 0x80`).
pub const SIGTRAP_SYSCALL_CODE: i32 = 133;

/// The MMIO part of the shared `kvm_run` page, as plain values.
#[derive(Clone, Copy, Debug)]
pub struct MmioRwRaw {
    pub phys_addr: u64,
    pub data: [u8; 8],
    pub len: u32,
    pub is_write: u8,
}

/// What the interceptor reads from a VCPU's shared `kvm_run` page.
#[derive(Clone, Copy, Debug)]
pub struct KvmRunView {
    pub exit_reason: u32,
    pub mmio: MmioRwRaw,
}

/// One decoded MMIO exit: the guest physical address, the direction, and up
/// to eight bytes of data.
#[derive(Clone, Copy, Debug)]
pub struct MmioRw {
    /// Address in guest physical memory.
    pub addr: u64,
    pub is_write: bool,
    pub data: [u8; 8],
    pub len: usize,
}

/// The shared page announces an MMIO exit whose data length is impossible:
/// one MMIO access moves one to eight bytes.
pub open spec fn malformed_mmio(kvm_run: KvmRunView) -> bool {
    kvm_run.exit_reason == KVM_EXIT_MMIO && !(1 <= kvm_run.mmio.len <= 8)
}

impl MmioRw {
    /// One MMIO access moves one to eight data bytes.
    pub open spec fn wf(&self) -> bool {
        1 <= self.len <= 8
    }

    pub open spec fn data_spec(&self) -> Seq<u8> {
        self.data@.subrange(0, self.len as int)
    }

    pub open spec fn len_spec(&self) -> int {
        self.len as int
    }

    /// The exit a raw MMIO record stands for.
    pub open spec fn new_spec(raw: MmioRwRaw) -> MmioRw {
        MmioRw {
            addr: raw.phys_addr,
            is_write: raw.is_write != 0,
            data: raw.data,
            len: raw.len as usize,
        }
    }

    /// A record with a length outside one to eight bytes is malformed and is
    /// rejected before it reaches this constructor.
    pub fn new(raw: &MmioRwRaw) -> (r: MmioRw)
        requires
            1 <= raw.len <= 8,
        ensures
            r == MmioRw::new_spec(*raw),
            r.wf(),
    {
        MmioRw { addr: raw.phys_addr, is_write: raw.is_write != 0, data: raw.data, len: raw.len as usize }
    }

    /// The MMIO exit in a `kvm_run` view, when its exit reason is MMIO.
    pub open spec fn from_spec(kvm_run: KvmRunView) -> Option<MmioRw> {
        if kvm_run.exit_reason == KVM_EXIT_MMIO {
            Some(MmioRw::new_spec(kvm_run.mmio))
        } else {
            None
        }
    }

    /// A page announcing an MMIO exit with an impossible length is rejected
    /// as a protocol error before decoding.
    pub fn from(kvm_run: &KvmRunView) -> (r: Option<MmioRw>)
        requires
            !malformed_mmio(*kvm_run),
        ensures
            r == MmioRw::from_spec(*kvm_run),
            r matches Some(m) ==> m.wf(),
    {
        if kvm_run.exit_reason == KVM_EXIT_MMIO {
            Some(MmioRw::new(&kvm_run.mmio))
        } else {
            None
        }
    }

    /// The data bytes that take part in the access.
    pub fn data(&self) -> (r: Vec<u8>)
        requires
            self.wf(),
        ensures
            r@ == self.data_spec(),
    {
        let mut v: Vec<u8> = Vec::new();
        let mut i: usize = 0;
        while i < self.len
            invariant
                self.wf(),
                0 <= i <= self.len,
                v@ =~= self.data@.subrange(0, i as int),
            decreases self.len - i,
        {
            v.push(self.data[i]);
            proof {
                assert(v@ =~= self.data@.subrange(0, i as int + 1));
            }
            i = i + 1;
        }
        proof {
            assert(v@ =~= self.data_spec());
        }
        v
    }

    /// How many data bytes take part.
    pub fn len(&self) -> (r: usize)
        ensures
            r == self.len_spec(),
    {
        self.len
    }
}

/// Is this `si_code` one of the two trap codes a syscall stop may carry?
pub fn check_siginfo(si_code: i32) -> (r: bool)
    ensures
        r == (si_code == SIGTRAP_CODE || si_code == SIGTRAP_SYSCALL_CODE),
{
    si_code == SIGTRAP_CODE || si_code == SIGTRAP_SYSCALL_CODE
}

/// The state of one ptrace-attached thread believed to run a VCPU.
#[derive(Clone, Debug)]
pub struct Thread {
    /// The thread id inside the target.
    pub tid: i32,
    /// The mapping of the VCPU's shared `kvm_run` page, as this thread sees
    /// it.
    pub vcpu_map: Mapping,
    /// A `PTRACE_SYSCALL` was issued and its stop not yet collected.
    pub is_running: bool,
    /// The thread sits between the enter and exit stop of a `KVM_RUN`
    /// ioctl. ptrace never attaches mid-syscall, so this starts false and
    /// flips exactly once per enter and once per exit.
    pub in_syscall: bool,
}

impl Thread {
    pub fn new(tid: i32, vcpu_map: Mapping) -> (t: Thread)
        ensures
            t.tid == tid,
            t.vcpu_map == vcpu_map,
            !t.is_running,
            !t.in_syscall,
    {
        Thread { tid, vcpu_map, is_running: false, in_syscall: false }
    }

    /// Crossing a `KVM_RUN` syscall boundary flips the flag; nothing else
    /// changes.
    pub fn toggle_in_syscall(&mut self)
        ensures
            final(self).in_syscall == !old(self).in_syscall,
            final(self).tid == old(self).tid,
            final(self).vcpu_map == old(self).vcpu_map,
            final(self).is_running == old(self).is_running,
    {
        self.in_syscall = !self.in_syscall;
    }
}

/// What `waitpid` reported for one thread of the target.
#[derive(Clone, Copy, Debug)]
pub enum WaitStatus {
    Exited { pid: i32, status: i32 },
    Signaled { pid: i32, signal: i32 },
    Stopped { pid: i32, signal: i32 },
    PtraceEvent { pid: i32, signal: i32, event: i32 },
    PtraceSyscall { pid: i32 },
    Continued { pid: i32 },
    StillAlive,
}

/// The `in_syscall` flag of a thread after `n` observed `KVM_RUN` stops:
/// it starts false and each stop flips it.
pub open spec fn in_syscall_after(n: nat) -> bool
    decreases n,
{
    if n == 0 {
        false
    } else {
        !in_syscall_after((n - 1) as nat)
    }
}

/// Law: per thread, `KVM_RUN` stops alternate. The flag before stop `i` is
/// set exactly when `i` is odd, so stop `i` is a syscall-enter exactly when
/// `i` is even: every enter is followed by its matching exit on the same
/// thread before any further enter there.
pub proof fn lemma_kvm_run_alternation(i: nat)
    ensures
        in_syscall_after(i) == (i % 2 == 1),
    decreases i,
{
    if i > 0 {
        lemma_kvm_run_alternation((i - 1) as nat);
    }
}

} // verus!

verus! {

/// First position in `threads` at or after `pos` holding `tid`, or the
/// length when none does.
pub open spec fn tid_index_from(threads: Seq<Thread>, pos: int, tid: i32) -> int
    decreases threads.len() - pos when 0 <= pos <= threads.len()
{
    if pos >= threads.len() {
        threads.len() as int
    } else if threads[pos].tid == tid {
        pos
    } else {
        tid_index_from(threads, pos + 1, tid)
    }
}

/// First position of `tid` in `threads`, or the length when absent.
pub open spec fn tid_index(threads: Seq<Thread>, tid: i32) -> int {
    tid_index_from(threads, 0, tid)
}

/// A `KVM_RUN` ioctl syscall stop: the syscall number is `ioctl` and its
/// second argument is the `KVM_RUN` request.
pub open spec fn is_kvm_run_stop(regs: Regs) -> bool {
    regs.orig_rax == SYS_IOCTL && regs.rsi == KVM_RUN
}

/// The tids of the threads that are not running, in order.
pub open spec fn idle_tids(threads: Seq<Thread>) -> Seq<i32>
    decreases threads.len(),
{
    if threads.len() == 0 {
        seq![]
    } else {
        idle_tids(threads.drop_last()) + if !threads.last().is_running {
            seq![threads.last().tid]
        } else {
            seq![]
        }
    }
}

/// The interceptor over all threads of the target: one state per thread,
/// and the index of the target's main thread.
#[derive(Debug)]
pub struct KvmRunWrapper {
    pub process_idx: usize,
    pub threads: Vec<Thread>,
}

impl KvmRunWrapper {
    /// The main-thread index is in range.
    pub open spec fn wf(&self) -> bool {
        self.process_idx < self.threads@.len()
    }

    /// Builds the interceptor state after ptrace attached to every thread of
    /// the target. `tids` are the attached thread ids, `vcpu_maps` the VCPU
    /// mmap regions observed on the main thread, and `thread_map_starts[k]`
    /// the start of the VCPU region as seen in thread `k`'s own maps.
    /// Succeeds exactly when the main thread is among the tids, at least one
    /// VCPU region is known, and every thread sees the region at the same
    /// start (a VCPU remapped between threads is not handled).
    #[verifier::loop_isolation(false)]
    pub fn attach(pid: i32, tids: &Vec<i32>, vcpu_maps: &Vec<Mapping>, thread_map_starts: &Vec<
        u64,
    >) -> (r: Result<KvmRunWrapper, Error>)
        ensures
            match r {
                Ok(w) => {
                    &&& w.wf()
                    &&& vcpu_maps@.len() >= 1
                    &&& thread_map_starts@.len() == tids@.len()
                    &&& forall|k: int|
                        0 <= k < tids@.len() ==> thread_map_starts@[k] == vcpu_maps@[0].start
                    &&& w.threads@.len() == tids@.len()
                    &&& forall|k: int|
                        0 <= k < tids@.len() ==> {
                            &&& (#[trigger] w.threads@[k]).tid == tids@[k]
                            &&& crate::proc::mapping_eq(w.threads@[k].vcpu_map, vcpu_maps@[0])
                            &&& !w.threads@[k].is_running
                            &&& !w.threads@[k].in_syscall
                        }
                    &&& w.process_idx < tids@.len() && tids@[w.process_idx as int] == pid
                },
                Err(e) => {
                    &&& vcpu_maps@.len() == 0 || thread_map_starts@.len() != tids@.len() || (
                    exists|k: int|
                        0 <= k < tids@.len() && thread_map_starts@[k] != vcpu_maps@[0].start) || (
                    forall|k: int| 0 <= k < tids@.len() ==> tids@[k] != pid)
                    &&& e is Unsupported ==> exists|k: int|
                        0 <= k < tids@.len() && #[trigger] thread_map_starts@[k]
                            != vcpu_maps@[0].start
                    &&& (e is Unsupported || e is Protocol)
                },
            },
    {
        if vcpu_maps.len() == 0 {
            return Err(Error::Protocol(String::from_str(
                "no VCPU mmap region is known for the target",
            )));
        }
        if thread_map_starts.len() != tids.len() {
            return Err(Error::Protocol(String::from_str(
                "one VCPU map start is needed for each attached thread",
            )));
        }
        let mut k: usize = 0;
        while k < tids.len()
            invariant
                0 <= k <= tids@.len(),
                forall|j: int| 0 <= j < k ==> thread_map_starts@[j] == vcpu_maps@[0].start,
            decreases tids@.len() - k,
        {
            if thread_map_starts[k] != vcpu_maps[0].start {
                return Err(Error::Unsupported(String::from_str(
                    "a thread sees the VCPU region at another address; remapped VCPUs are not handled",
                )));
            }
            k = k + 1;
        }
        let mut process_idx: usize = 0;
        let mut found = false;
        let mut i: usize = 0;
        while i < tids.len()
            invariant
                0 <= i <= tids@.len(),
                !found ==> forall|j: int| 0 <= j < i ==> tids@[j] != pid,
                found ==> process_idx < tids@.len() && tids@[process_idx as int] == pid,
            decreases tids@.len() - i,
        {
            if !found && tids[i] == pid {
                process_idx = i;
                found = true;
            }
            i = i + 1;
        }
        if !found {
            return Err(Error::Protocol(String::from_str(
                "the target's main thread is not among the attached threads",
            )));
        }
        let mut threads: Vec<Thread> = Vec::new();
        let mut k: usize = 0;
        while k < tids.len()
            invariant
                0 <= k <= tids@.len(),
                threads@.len() == k,
                forall|j: int|
                    0 <= j < k ==> {
                        &&& (#[trigger] threads@[j]).tid == tids@[j]
                        &&& crate::proc::mapping_eq(threads@[j].vcpu_map, vcpu_maps@[0])
                        &&& !threads@[j].is_running
                        &&& !threads@[j].in_syscall
                    },
            decreases tids@.len() - k,
        {
            let map0 = vcpu_maps[0].clone();
            let t = Thread {
                tid: tids[k],
                vcpu_map: map0,
                is_running: false,
                in_syscall: false,
            };
            threads.push(t);
            k = k + 1;
        }
        Ok(KvmRunWrapper { process_idx, threads })
    }

    /// The thread ids to hand to `PTRACE_CONT` when the session is ended:
    /// every tracked thread, in order.
    pub fn cont(&self) -> (r: Vec<i32>)
        ensures
            r@.len() == self.threads@.len(),
            forall|k: int| 0 <= k < r@.len() ==> r@[k] == self.threads@[k].tid,
    {
        let mut r: Vec<i32> = Vec::new();
        let mut k: usize = 0;
        while k < self.threads.len()
            invariant
                0 <= k <= self.threads@.len(),
                r@.len() == k,
                forall|j: int| 0 <= j < k ==> r@[j] == self.threads@[j].tid,
            decreases self.threads@.len() - k,
        {
            r.push(self.threads[k].tid);
            k = k + 1;
        }
        r
    }

    /// The state of the target's main thread.
    pub fn main_thread(&self) -> (t: &Thread)
        requires
            self.wf(),
        ensures
            *t == self.threads@[self.process_idx as int],
    {
        &self.threads[self.process_idx]
    }

    /// The state of the target's main thread, for updating.
    pub fn main_thread_mut(&mut self) -> (t: &mut Thread)
        requires
            old(self).wf(),
        ensures
            final(self).threads@ == old(self).threads@.update(
                old(self).process_idx as int,
                *final(t),
            ),
            final(self).process_idx == old(self).process_idx,
    {
        let idx = self.process_idx;
        &mut self.threads[idx]
    }

    /// The thread ids that need a fresh `PTRACE_SYSCALL`: exactly the
    /// threads not already running, in order. Marks them running; nothing
    /// else changes.
    #[verifier::loop_isolation(false)]
    pub fn threads_to_resume(&mut self) -> (r: Vec<i32>)
        ensures
            final(self).process_idx == old(self).process_idx,
            final(self).threads@.len() == old(self).threads@.len(),
            forall|k: int|
                0 <= k < old(self).threads@.len() ==> {
                    &&& (#[trigger] final(self).threads@[k]).tid == old(self).threads@[k].tid
                    &&& final(self).threads@[k].vcpu_map == old(self).threads@[k].vcpu_map
                    &&& final(self).threads@[k].in_syscall == old(self).threads@[k].in_syscall
                    &&& final(self).threads@[k].is_running
                },
            r@ == idle_tids(old(self).threads@),
    {
        let mut r: Vec<i32> = Vec::new();
        let mut k: usize = 0;
        while k < self.threads.len()
            invariant
                0 <= k <= self.threads@.len(),
                self.threads@.len() == old(self).threads@.len(),
                self.process_idx == old(self).process_idx,
                forall|j: int|
                    k <= j < self.threads@.len() ==> self.threads@[j] == old(self).threads@[j],
                forall|j: int|
                    0 <= j < k ==> {
                        &&& (#[trigger] self.threads@[j]).tid == old(self).threads@[j].tid
                        &&& self.threads@[j].vcpu_map == old(self).threads@[j].vcpu_map
                        &&& self.threads@[j].in_syscall == old(self).threads@[j].in_syscall
                        &&& self.threads@[j].is_running
                    },
                r@ == idle_tids(old(self).threads@.take(k as int)),
            decreases self.threads@.len() - k,
        {
            proof {
                assert(old(self).threads@.take(k as int + 1).drop_last() =~= old(
                    self,
                ).threads@.take(k as int));
                assert(old(self).threads@.take(k as int + 1).last() == old(self).threads@[k as int]);
            }
            if !self.threads[k].is_running {
                let t = self.threads[k].tid;
                r.push(t);
                self.threads[k].is_running = true;
                proof {
                    assert(r@ =~= idle_tids(old(self).threads@.take(k as int + 1)));
                }
            } else {
                proof {
                    assert(r@ =~= idle_tids(old(self).threads@.take(k as int + 1)));
                }
            }
            k = k + 1;
        }
        proof {
            assert(old(self).threads@.take(old(self).threads@.len() as int) =~= old(
                self,
            ).threads@);
        }
        r
    }

    /// Records that `waitpid` collected a stop for `tid`: that thread is no
    /// longer running. `true` when the tid is tracked.
    #[verifier::loop_isolation(false)]
    pub fn note_stopped(&mut self, tid: i32) -> (r: bool)
        ensures
            final(self).process_idx == old(self).process_idx,
            r <==> tid_index(old(self).threads@, tid) < old(self).threads@.len(),
            r ==> final(self).threads@ == old(self).threads@.update(
                tid_index(old(self).threads@, tid),
                Thread {
                    is_running: false,
                    ..old(self).threads@[tid_index(old(self).threads@, tid)]
                },
            ),
            !r ==> *final(self) == *old(self),
    {
        let ghost threads0 = self.threads@;
        let mut k: usize = 0;
        while k < self.threads.len()
            invariant
                0 <= k <= self.threads@.len(),
                *self == *old(self),
                self.threads@ == threads0,
                tid_index(threads0, tid) == tid_index_from(threads0, k as int, tid),
            decreases self.threads@.len() - k,
        {
            if self.threads[k].tid == tid {
                self.threads[k].is_running = false;
                proof {
                    assert(self.threads@ =~= threads0.update(
                        k as int,
                        Thread { is_running: false, ..threads0[k as int] },
                    ));
                }
                return true;
            }
            k = k + 1;
        }
        false
    }
}

} // verus!

verus! {

impl KvmRunWrapper {
    /// Drives the state machine by one `waitpid` event.
    ///
    /// For a stop the caller hands in the stopped thread's registers and the
    /// bytes of its shared `kvm_run` page, both read from the target. A stop
    /// at the `KVM_RUN` ioctl boundary flips that thread's `in_syscall`
    /// flag: the enter stop is passed through, and on the matching exit stop
    /// the shared page is decoded — the decoded MMIO exit, when the exit
    /// reason is MMIO, is returned for dispatch before the thread is allowed
    /// to resume. Any other syscall passes through unobserved. A dead target
    /// or an event with no transition is an error.
    #[verifier::loop_isolation(false)]
    pub fn process_status(&mut self, status: WaitStatus, regs: &Regs, kvm_run: &KvmRunView) -> (r:
        Result<Option<MmioRw>, Error>)
        ensures
            final(self).process_idx == old(self).process_idx,
            match status {
                WaitStatus::Exited { .. } => *final(self) == *old(self) && (r matches Err(e)
                    && e is TargetGone),
                WaitStatus::Signaled { .. } => *final(self) == *old(self) && (r matches Err(e)
                    && e is TargetGone),
                WaitStatus::PtraceEvent { .. } => *final(self) == *old(self) && (r matches Err(
                    e) && e is Protocol),
                WaitStatus::PtraceSyscall { .. } => *final(self) == *old(self) && (r matches Err(
                    e) && e is Protocol),
                WaitStatus::StillAlive => *final(self) == *old(self) && (r matches Err(e)
                    && e is Protocol),
                WaitStatus::Continued { .. } => *final(self) == *old(self) && (r matches Ok(m)
                    && m is None),
                WaitStatus::Stopped { pid: tid, signal } => {
                    let k = tid_index(old(self).threads@, tid);
                    if k == old(self).threads@.len() {
                        // a stop for a thread the interceptor does not track
                        *final(self) == *old(self) && (r matches Err(e) && e is Protocol)
                    } else if !is_kvm_run_stop(*regs) {
                        // any other syscall passes through unobserved
                        *final(self) == *old(self) && (r matches Ok(m) && m is None)
                    } else if old(self).threads@[k].in_syscall && malformed_mmio(*kvm_run) {
                        // the exit stop carries an MMIO exit with an
                        // impossible data length: the shared page is corrupt
                        *final(self) == *old(self) && (r matches Err(e) && e is Protocol)
                    } else {
                        &&& final(self).threads@ == old(self).threads@.update(
                            k,
                            Thread {
                                in_syscall: !old(self).threads@[k].in_syscall,
                                ..old(self).threads@[k]
                            },
                        )
                        &&& r matches Ok(m) && m == (if old(self).threads@[k].in_syscall {
                            MmioRw::from_spec(*kvm_run)
                        } else {
                            None::<MmioRw>
                        })
                        &&& (r matches Ok(m) && m matches Some(x) ==> x.wf())
                    }
                },
            },
    {
        match status {
            WaitStatus::Exited { pid: _, status: _ } => Err(Error::TargetGone(String::from_str(
                "the target process exited",
            ))),
            WaitStatus::Signaled { pid: _, signal: _ } => Err(Error::TargetGone(String::from_str(
                "the target process was killed by a signal",
            ))),
            WaitStatus::PtraceEvent { pid: _, signal: _, event: _ } => Err(Error::Protocol(
                String::from_str("got unexpected ptrace event"),
            )),
            WaitStatus::PtraceSyscall { pid: _ } => Err(Error::Protocol(String::from_str(
                "got unexpected ptrace syscall event",
            ))),
            WaitStatus::StillAlive => Err(Error::Protocol(String::from_str(
                "got unexpected still-alive waitpid() event",
            ))),
            WaitStatus::Continued { pid: _ } => Ok(None),
            WaitStatus::Stopped { pid: tid, signal: _ } => {
                let ghost threads0 = self.threads@;
                let mut k: usize = 0;
                loop
                    invariant
                        0 <= k <= self.threads@.len(),
                        *self == *old(self),
                        self.threads@ == threads0,
                        tid_index(threads0, tid) == tid_index_from(threads0, k as int, tid),
                    decreases self.threads@.len() - k,
                {
                    if k >= self.threads.len() {
                        return Err(Error::Protocol(String::from_str(
                            "received a stop for an unknown thread",
                        )));
                    }
                    if self.threads[k].tid == tid {
                        break;
                    }
                    k = k + 1;
                }
                let (nr, _ioctl_fd, ioctl_request) = regs.get_syscall_params();
                if nr != SYS_IOCTL || ioctl_request != KVM_RUN {
                    return Ok(None);
                }
                let was_in_syscall = self.threads[k].in_syscall;
                if was_in_syscall && kvm_run.exit_reason == KVM_EXIT_MMIO && (kvm_run.mmio.len < 1
                    || kvm_run.mmio.len > 8) {
                    return Err(Error::Protocol(String::from_str(
                        "malformed kvm_run: an MMIO exit with an impossible data length",
                    )));
                }
                self.threads[k].in_syscall = !was_in_syscall;
                proof {
                    assert(self.threads@ =~= threads0.update(
                        k as int,
                        Thread { in_syscall: !threads0[k as int].in_syscall, ..threads0[k as int] },
                    ));
                }
                if was_in_syscall {
                    // The exit stop of KVM_RUN: the kernel has filled the
                    // shared page; decode an MMIO exit when there is one.
                    Ok(MmioRw::from(kvm_run))
                } else {
                    // The enter stop: nothing to service yet.
                    Ok(None)
                }
            },
        }
    }
}

} // verus!

verus! {

/// The character of one hexadecimal digit value.
pub open spec fn hex_digit_char(d: int) -> char {
    if d < 10 {
        ((48 + d) as u8) as char
    } else {
        ((87 + d) as u8) as char
    }
}

/// The hexadecimal numeral of `n`, most significant digit first, no leading
/// zeroes.
pub open spec fn hex_chars(n: int) -> Seq<char>
    decreases n,
{
    if n < 16 {
        seq![hex_digit_char(n)]
    } else {
        hex_chars(n / 16) + seq![hex_digit_char(n % 16)]
    }
}

/// One hexadecimal digit as text.
fn hex_digit_str(d: u64) -> (r: &'static str)
    requires
        d < 16,
    ensures
        r@ == seq![hex_digit_char(d as int)],
{
    proof {
        reveal_strlit("0");
        reveal_strlit("1");
        reveal_strlit("2");
        reveal_strlit("3");
        reveal_strlit("4");
        reveal_strlit("5");
        reveal_strlit("6");
        reveal_strlit("7");
        reveal_strlit("8");
        reveal_strlit("9");
        reveal_strlit("a");
        reveal_strlit("b");
        reveal_strlit("c");
        reveal_strlit("d");
        reveal_strlit("e");
        reveal_strlit("f");
    }
    if d == 0 {
        "0"
    } else if d == 1 {
        "1"
    } else if d == 2 {
        "2"
    } else if d == 3 {
        "3"
    } else if d == 4 {
        "4"
    } else if d == 5 {
        "5"
    } else if d == 6 {
        "6"
    } else if d == 7 {
        "7"
    } else if d == 8 {
        "8"
    } else if d == 9 {
        "9"
    } else if d == 10 {
        "a"
    } else if d == 11 {
        "b"
    } else if d == 12 {
        "c"
    } else if d == 13 {
        "d"
    } else if d == 14 {
        "e"
    } else {
        "f"
    }
}

/// The hexadecimal numeral of `x` as text.
pub fn hex_string(x: u64) -> (r: String)
    ensures
        r@ == hex_chars(x as int),
    decreases x,
{
    if x < 16 {
        String::from_str(hex_digit_str(x))
    } else {
        let high = hex_string(x / 16);
        high.concat(hex_digit_str(x % 16))
    }
}

impl MmioRw {
    /// The exit as text, for diagnostics: direction, data length, and the
    /// guest physical address in hexadecimal.
    pub open spec fn describe_spec(&self) -> Seq<char> {
        (if self.is_write {
            "MmioRw{ write "@
        } else {
            "MmioRw{ read "@
        }) + hex_chars(self.len as int) + "b at guest phys 0x"@ + hex_chars(self.addr as int)
            + " }"@
    }

    pub fn describe(&self) -> (r: String)
        ensures
            r@ == self.describe_spec(),
    {
        let mut r = if self.is_write {
            String::from_str("MmioRw{ write ")
        } else {
            String::from_str("MmioRw{ read ")
        };
        let len_text = hex_string(self.len as u64);
        r.append(len_text.as_str());
        r.append("b at guest phys 0x");
        let addr_text = hex_string(self.addr);
        r.append(addr_text.as_str());
        r.append(" }");
        proof {
            assert(r@ =~= self.describe_spec());
        }
        r
    }
}

} // verus!

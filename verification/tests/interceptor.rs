use vmsh::cpu::Regs;
use vmsh::kvm::{KVM_RUN, SYS_IOCTL};
use vmsh::proc::Mapping;
use vmsh::wrap_syscall::{
    check_siginfo, KvmRunView, KvmRunWrapper, MmioRw, MmioRwRaw, WaitStatus, KVM_EXIT_MMIO,
};

fn vcpu_map(start: u64) -> Mapping {
    Mapping {
        start,
        end: start + 0x1000,
        prot_flags: 3,
        map_flags: 1,
        offset: 0,
        pathname: String::new(),
        phys_addr: None,
    }
}

fn ioctl_regs(request: u64) -> Regs {
    let mut r = Regs::zeroed();
    r.orig_rax = SYS_IOCTL;
    r.rdi = 11; // the vcpu fd
    r.rsi = request;
    r
}

fn mmio_kvm_run() -> KvmRunView {
    KvmRunView {
        exit_reason: KVM_EXIT_MMIO,
        mmio: MmioRwRaw {
            phys_addr: 0xC000_0000,
            data: [0xEF, 0xBE, 0xAD, 0xDE, 0, 0, 0, 0],
            len: 4,
            is_write: 1,
        },
    }
}

fn quiet_kvm_run() -> KvmRunView {
    KvmRunView {
        exit_reason: 0,
        mmio: MmioRwRaw { phys_addr: 0, data: [0; 8], len: 0, is_write: 0 },
    }
}

#[test]
fn attach_tracks_every_thread() {
    let maps = vec![vcpu_map(0x7f00_0000_0000)];
    let starts = vec![0x7f00_0000_0000, 0x7f00_0000_0000, 0x7f00_0000_0000];
    let w = KvmRunWrapper::attach(100, &vec![100, 101, 102], &maps, &starts).expect("attach");
    assert_eq!(w.threads.len(), 3);
    assert_eq!(w.process_idx, 0);
    assert!(w.threads.iter().all(|t| !t.is_running && !t.in_syscall));
    assert_eq!(w.main_thread().tid, 100);
    assert_eq!(w.cont(), vec![100, 101, 102]);
}

#[test]
fn attach_rejects_remapped_vcpu_region() {
    let maps = vec![vcpu_map(0x7f00_0000_0000)];
    let starts = vec![0x7f00_0000_0000, 0x7f11_0000_0000];
    let e = KvmRunWrapper::attach(100, &vec![100, 101], &maps, &starts)
        .expect_err("a remapped VCPU region is unsupported");
    assert_eq!(e.exit_code(), 3);
}

#[test]
fn kvm_run_enter_then_exit_yields_the_mmio_exit() {
    let maps = vec![vcpu_map(0x7f00_0000_0000)];
    let starts = vec![0x7f00_0000_0000];
    let mut w = KvmRunWrapper::attach(100, &vec![100], &maps, &starts).expect("attach");
    let regs = ioctl_regs(KVM_RUN);
    // Syscall-enter stop: the flag flips on, nothing is serviced yet.
    let r = w
        .process_status(WaitStatus::Stopped { pid: 100, signal: 5 }, &regs, &quiet_kvm_run())
        .expect("enter stop");
    assert!(r.is_none());
    assert!(w.threads[0].in_syscall);
    // The matching syscall-exit stop: the shared page holds an MMIO exit.
    let r = w
        .process_status(WaitStatus::Stopped { pid: 100, signal: 5 }, &regs, &mmio_kvm_run())
        .expect("exit stop");
    let mmio = r.expect("an MMIO exit must be decoded on the exit stop");
    assert!(!w.threads[0].in_syscall);
    assert_eq!(mmio.addr, 0xC000_0000);
    assert!(mmio.is_write);
    assert_eq!(mmio.len(), 4);
    assert_eq!(mmio.data(), vec![0xEF, 0xBE, 0xAD, 0xDE]);
}

#[test]
fn non_kvm_run_syscalls_pass_through_unobserved() {
    let maps = vec![vcpu_map(0x7f00_0000_0000)];
    let starts = vec![0x7f00_0000_0000];
    let mut w = KvmRunWrapper::attach(100, &vec![100], &maps, &starts).expect("attach");
    // another ioctl
    let r = w
        .process_status(
            WaitStatus::Stopped { pid: 100, signal: 5 },
            &ioctl_regs(0x541B),
            &mmio_kvm_run(),
        )
        .expect("other ioctl passes");
    assert!(r.is_none());
    assert!(!w.threads[0].in_syscall);
    // not an ioctl at all
    let mut regs = Regs::zeroed();
    regs.orig_rax = 1; // write
    let r = w
        .process_status(WaitStatus::Stopped { pid: 100, signal: 5 }, &regs, &mmio_kvm_run())
        .expect("other syscall passes");
    assert!(r.is_none());
}

#[test]
fn a_dead_target_is_fatal() {
    let maps = vec![vcpu_map(0x7f00_0000_0000)];
    let starts = vec![0x7f00_0000_0000];
    let mut w = KvmRunWrapper::attach(100, &vec![100], &maps, &starts).expect("attach");
    let regs = Regs::zeroed();
    let e = w
        .process_status(WaitStatus::Exited { pid: 100, status: 1 }, &regs, &quiet_kvm_run())
        .expect_err("an exited target is fatal");
    assert_eq!(e.exit_code(), 4);
    let e = w
        .process_status(WaitStatus::StillAlive, &regs, &quiet_kvm_run())
        .expect_err("still-alive has no transition");
    assert_eq!(e.exit_code(), 4);
}

#[test]
fn run_bookkeeping_marks_and_clears_threads() {
    let maps = vec![vcpu_map(0x7f00_0000_0000)];
    let starts = vec![0x7f00_0000_0000, 0x7f00_0000_0000];
    let mut w = KvmRunWrapper::attach(100, &vec![100, 101], &maps, &starts).expect("attach");
    let to_resume = w.threads_to_resume();
    assert_eq!(to_resume, vec![100, 101]);
    assert!(w.threads.iter().all(|t| t.is_running));
    assert_eq!(w.threads_to_resume(), Vec::<i32>::new());
    assert!(w.note_stopped(101));
    assert!(!w.threads[1].is_running);
    assert!(w.threads[0].is_running);
    assert!(!w.note_stopped(999));
}

#[test]
fn mmio_decode_follows_the_exit_reason() {
    let some = MmioRw::from(&mmio_kvm_run());
    assert!(some.is_some());
    let none = MmioRw::from(&quiet_kvm_run());
    assert!(none.is_none());
    let eight = MmioRw::new(&MmioRwRaw { phys_addr: 1, data: [9; 8], len: 8, is_write: 0 });
    assert_eq!(eight.len(), 8);
    assert!(!eight.is_write);
}

#[test]
fn a_malformed_mmio_exit_is_a_protocol_error() {
    // An exit stop whose shared page claims an MMIO access of zero (or more
    // than eight) bytes is corrupt and fatal, not decoded.
    let maps = vec![vcpu_map(0x7f00_0000_0000)];
    let starts = vec![0x7f00_0000_0000];
    let mut w = KvmRunWrapper::attach(100, &vec![100], &maps, &starts).expect("attach");
    let regs = ioctl_regs(KVM_RUN);
    w.process_status(WaitStatus::Stopped { pid: 100, signal: 5 }, &regs, &quiet_kvm_run())
        .expect("enter");
    let mut bad = mmio_kvm_run();
    bad.mmio.len = 200;
    let e = w
        .process_status(WaitStatus::Stopped { pid: 100, signal: 5 }, &regs, &bad)
        .expect_err("an impossible data length is rejected");
    assert_eq!(e.exit_code(), 4);
    bad.mmio.len = 0;
    let e = w
        .process_status(WaitStatus::Stopped { pid: 100, signal: 5 }, &regs, &bad)
        .expect_err("a zero data length is rejected");
    assert_eq!(e.exit_code(), 4);
}

#[test]
fn siginfo_codes_for_syscall_traps() {
    assert!(check_siginfo(5));
    assert!(check_siginfo(5 | 0x80));
    assert!(!check_siginfo(0));
    assert!(!check_siginfo(4));
}

#[test]
fn intercepted_mmio_write_routes_to_the_registered_device() {
    // The guest writes a dword to the device window; the interceptor decodes
    // the exit and the bus routes it to the one registered device.
    let maps = vec![vcpu_map(0x7f00_0000_0000)];
    let starts = vec![0x7f00_0000_0000];
    let mut w = KvmRunWrapper::attach(100, &vec![100], &maps, &starts).expect("attach");
    let regs = ioctl_regs(KVM_RUN);
    w.process_status(WaitStatus::Stopped { pid: 100, signal: 5 }, &regs, &quiet_kvm_run())
        .expect("enter");
    let mmio = w
        .process_status(WaitStatus::Stopped { pid: 100, signal: 5 }, &regs, &mmio_kvm_run())
        .expect("exit")
        .expect("mmio decoded");
    let mut bus = vmsh::bus::MmioBus::new();
    bus.register(vmsh::bus::MmioRange { base: 0xC000_0000, len: 0x1000 }, 0).expect("register");
    match bus.dispatch(mmio.addr) {
        vmsh::bus::Routing::Device { device, offset } => {
            assert_eq!(device, 0);
            assert_eq!(offset, 0);
        },
        vmsh::bus::Routing::Unserviced => panic!("the write lands in the device window"),
    }
}

#[test]
fn describe_names_direction_length_and_address() {
    let mmio = MmioRw::from(&mmio_kvm_run()).unwrap();
    assert_eq!(mmio.describe(), "MmioRw{ write 4b at guest phys 0xc0000000 }");
    assert_eq!(vmsh::wrap_syscall::hex_string(0), "0");
    assert_eq!(vmsh::wrap_syscall::hex_string(0xDEADBEEF), "deadbeef");
}

use vmsh::kvm::{decode_syscall_result, find_vm_fd, get_hypervisor, KVM_CHECK_EXTENSION, SYS_IOCTL, SYS_MMAP};
use vmsh::cpu::Regs;
use vmsh::proc::{parse_environ, FdInfo, Mapping};
use vmsh::result::Error;

fn fd(num: i32, link: &str) -> FdInfo {
    FdInfo { fd_num: num, link: String::from(link) }
}

fn plain_mapping(start: u64, end: u64, phys: Option<u64>) -> Mapping {
    Mapping {
        start,
        end,
        prot_flags: 3,
        map_flags: 1,
        offset: 0,
        pathname: String::from("/dev/shm/guest"),
        phys_addr: phys,
    }
}

#[test]
fn discovery_success_one_vm_two_vcpus() {
    let fds = vec![
        fd(3, "/dev/null"),
        fd(10, "anon_inode:kvm-vm"),
        fd(11, "anon_inode:kvm-vcpu:0"),
        fd(12, "anon_inode:kvm-vcpu:1"),
    ];
    let h = get_hypervisor(4242, &fds, vec![plain_mapping(0x7f0000000000, 0x7f0000001000, None)])
        .expect("attach must succeed");
    assert_eq!(h.pid, 4242);
    assert_eq!(h.vm_fd, 10);
    assert_eq!(h.vcpus.len(), 2);
    assert_eq!(h.vcpus[0].idx, 0);
    assert_eq!(h.vcpus[0].fd_num, 11);
    assert_eq!(h.vcpus[1].idx, 1);
    assert_eq!(h.vcpus[1].fd_num, 12);
}

#[test]
fn discovery_rejects_multiple_vms() {
    let fds = vec![
        fd(10, "anon_inode:kvm-vm"),
        fd(11, "anon_inode:kvm-vm"),
        fd(12, "anon_inode:kvm-vcpu:0"),
    ];
    let e = get_hypervisor(1, &fds, vec![]).expect_err("two VMs must be rejected");
    assert_eq!(e.exit_code(), 3);
    assert!(e.message().contains("multiple VMs found"));
}

#[test]
fn discovery_rejects_no_vm() {
    let fds = vec![fd(3, "/dev/null")];
    let e = get_hypervisor(1, &fds, vec![]).expect_err("no VM must be rejected");
    assert_eq!(e.exit_code(), 1);
    assert!(e.message().contains("no VMs found"));
}

#[test]
fn discovery_rejects_vm_without_vcpus() {
    let fds = vec![fd(10, "anon_inode:kvm-vm")];
    let e = get_hypervisor(1, &fds, vec![]).expect_err("no VCPUs must be rejected");
    assert_eq!(e.exit_code(), 1);
}

#[test]
fn discovery_rejects_duplicate_vcpu_indices() {
    let fds = vec![
        fd(10, "anon_inode:kvm-vm"),
        fd(11, "anon_inode:kvm-vcpu:0"),
        fd(12, "anon_inode:kvm-vcpu:0"),
    ];
    let e = get_hypervisor(1, &fds, vec![]).expect_err("duplicate ids must be rejected");
    assert_eq!(e.exit_code(), 3);
}

#[test]
fn discovery_rejects_unparseable_vcpu_index() {
    let fds = vec![fd(10, "anon_inode:kvm-vm"), fd(11, "anon_inode:kvm-vcpu:zero")];
    let e = get_hypervisor(1, &fds, vec![]).expect_err("bad index must be rejected");
    assert_eq!(e.exit_code(), 1);
}

#[test]
fn discovery_rejects_sparse_vcpu_indices() {
    let fds = vec![fd(10, "anon_inode:kvm-vm"), fd(11, "anon_inode:kvm-vcpu:1")];
    let e = get_hypervisor(1, &fds, vec![]).expect_err("sparse indices must be rejected");
    assert_eq!(e.exit_code(), 3);
}

#[test]
fn find_vm_fd_classifies_in_order() {
    let fds = vec![
        fd(7, "anon_inode:kvm-vcpu:1"),
        fd(5, "socket:[1234]"),
        fd(9, "anon_inode:kvm-vm"),
        fd(8, "anon_inode:kvm-vcpu:0"),
    ];
    let (vms, vcpus) = find_vm_fd(&fds).expect("classification must succeed");
    assert_eq!(vms, vec![9]);
    assert_eq!(vcpus.len(), 2);
    assert_eq!((vcpus[0].idx, vcpus[0].fd_num), (1, 7));
    assert_eq!((vcpus[1].idx, vcpus[1].fd_num), (0, 8));
}

#[test]
fn environ_parsing_splits_on_nul_and_first_equals() {
    let block = b"PATH=/bin:/usr/bin\0HOME=/root\0odd\0X=a=b\0".to_vec();
    let pairs = parse_environ(&block);
    assert_eq!(pairs.len(), 3);
    assert_eq!(pairs[0], (b"PATH".to_vec(), b"/bin:/usr/bin".to_vec()));
    assert_eq!(pairs[1], (b"HOME".to_vec(), b"/root".to_vec()));
    assert_eq!(pairs[2], (b"X".to_vec(), b"a=b".to_vec()));
}

#[test]
fn environ_parsing_handles_empty_and_unterminated() {
    assert_eq!(parse_environ(&Vec::new()).len(), 0);
    let pairs = parse_environ(&b"A=1".to_vec());
    assert_eq!(pairs, vec![(b"A".to_vec(), b"1".to_vec())]);
}

#[test]
fn injection_restores_saved_registers() {
    let fds = vec![fd(10, "anon_inode:kvm-vm"), fd(11, "anon_inode:kvm-vcpu:0")];
    let h = get_hypervisor(77, &fds, vec![]).unwrap();
    let mut regs = Regs::zeroed();
    regs.rip = 0x401000;
    regs.rax = 0xdead;
    regs.rsp = 0x7ffffff0;
    let tracee = h.attach(regs);
    // Plan a few injected syscalls; planning must not touch the saved file.
    let ioctl_plan = tracee.ioctl(7, 0x541B, 0x5000); // FIONREAD against fd 7
    assert_eq!(ioctl_plan.nr, SYS_IOCTL);
    assert_eq!(ioctl_plan.args, [7, 0x541B, 0x5000, 0, 0, 0]);
    let mmap_plan = tracee.mmap(4096);
    assert_eq!(mmap_plan.nr, SYS_MMAP);
    assert_eq!(mmap_plan.args, [0, 4096, 0x3, 0x21, 0, 0]);
    let cap_plan = tracee.check_extension(4);
    assert_eq!(cap_plan.args, [10, KVM_CHECK_EXTENSION, 4, 0, 0, 0]);
    // The register file loaded for the syscall carries the plan.
    let loaded = tracee.regs_for(&ioctl_plan, 0x7f00deadbeef);
    assert_eq!(loaded.rip, 0x7f00deadbeef);
    assert_eq!(loaded.rax, SYS_IOCTL);
    assert_eq!(loaded.orig_rax, SYS_IOCTL);
    assert_eq!(loaded.rdi, 7);
    assert_eq!(loaded.rsi, 0x541B);
    assert_eq!(loaded.rdx, 0x5000);
    assert_eq!(loaded.rsp, regs.rsp); // untouched registers keep their value
    // Release hands back exactly what was observed at attach.
    let restored = tracee.release();
    assert_eq!(restored, regs);
}

#[test]
fn error_kinds_map_to_exit_codes() {
    assert_eq!(Error::Discovery(String::from("x")).exit_code(), 1);
    assert_eq!(Error::Permission(String::from("x")).exit_code(), 2);
    assert_eq!(Error::Unsupported(String::from("x")).exit_code(), 3);
    assert_eq!(Error::TargetGone(String::from("x")).exit_code(), 4);
    assert_eq!(Error::Transient(String::from("x")).exit_code(), 4);
    assert_eq!(Error::Protocol(String::from("x")).exit_code(), 4);
}

#[test]
fn maps_line_parses_fields() {
    let m = vmsh::proc::parse_maps_line(
        "55e7c3a00000-55e7c3a21000 r-xp 00001000 08:01 1234567 /usr/bin/qemu",
    )
    .expect("well-formed line");
    assert_eq!(m.start, 0x55e7c3a00000);
    assert_eq!(m.end, 0x55e7c3a21000);
    assert_eq!(m.prot_flags, 1 | 4); // read + exec
    assert_eq!(m.map_flags, 2); // private
    assert_eq!(m.offset, 0x1000);
    assert_eq!(m.pathname, "/usr/bin/qemu");
    assert_eq!(m.phys_addr, None);
}

#[test]
fn maps_line_anonymous_and_shared() {
    let m = vmsh::proc::parse_maps_line("7f0000000000-7f0000002000 rw-s 00000000 00:00 0")
        .expect("anonymous line");
    assert_eq!(m.prot_flags, 1 | 2);
    assert_eq!(m.map_flags, 1); // shared
    assert_eq!(m.pathname, "");
}

#[test]
fn maps_line_rejects_malformed_input() {
    assert!(vmsh::proc::parse_maps_line("").is_none());
    assert!(vmsh::proc::parse_maps_line("1000 r-xp 0 08:01 5").is_none());
    assert!(vmsh::proc::parse_maps_line("1000-zzz r-xp 0 08:01 5").is_none());
    assert!(vmsh::proc::parse_maps_line("2000-1000 r-xp 0 08:01 5").is_none());
    assert!(vmsh::proc::parse_maps_line("1000-2000 r-x 0 08:01 5").is_none());
}

#[test]
fn cmd_defaults_to_login_shell() {
    let environ = b"PATH=/bin\0".to_vec();
    let c = vmsh::cmd::Cmd::new(None, vec![String::from("ignored")], &environ, None);
    assert_eq!(c.command, "sh");
    assert_eq!(c.arguments, vec![String::from("-l")]);
    assert_eq!(c.environment, vec![(b"PATH".to_vec(), b"/bin".to_vec())]);
}

#[test]
fn cmd_keeps_explicit_program_and_arguments() {
    let environ = Vec::new();
    let c = vmsh::cmd::Cmd::new(
        Some(String::from("/bin/busybox")),
        vec![String::from("ash")],
        &environ,
        Some(b"/root".to_vec()),
    );
    assert_eq!(c.command, "/bin/busybox");
    assert_eq!(c.arguments, vec![String::from("ash")]);
    assert_eq!(c.home, Some(b"/root".to_vec()));
    assert!(c.environment.is_empty());
}

#[test]
fn injected_syscall_returns_decode_to_errno() {
    // an ordinary result passes through
    assert_eq!(decode_syscall_result(5), Ok(5));
    assert_eq!(decode_syscall_result(0), Ok(0));
    // -2 is ENOENT
    assert_eq!(decode_syscall_result(u64::MAX - 1), Err(2));
    // the largest errno the kernel encodes
    assert_eq!(decode_syscall_result(0xFFFF_FFFF_FFFF_F001), Err(4095));
    // one below the errno range is an ordinary (huge) result
    assert_eq!(decode_syscall_result(0xFFFF_FFFF_FFFF_F000), Ok(0xFFFF_FFFF_FFFF_F000));
}

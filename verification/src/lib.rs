//! Attach to a running KVM hypervisor process from the outside and expose a
//! virtio-mmio block device to its guest.
//!
//! The crate holds the decision logic of the controller: discovery of the
//! target's KVM file descriptors, the register bookkeeping of remote syscall
//! injection, the guest-physical memory table imported from the target's
//! mappings, the per-thread state machine that intercepts `KVM_RUN` exits,
//! the MMIO bus, and the virtio block device model. The surrounding process
//! I/O (ptrace, `/proc`, cross-process reads) lives outside the library and
//! hands plain values in.

pub mod bus;
pub mod cmd;
pub mod cpu;
pub mod device;
pub mod kvm;
pub mod memslots;
pub mod proc;
pub mod result;
pub mod wrap_syscall;

//! Error values of the controller and their mapping to process exit codes.

use vstd::prelude::*;

verus! {

/// What went wrong, by the layer that noticed it.
///
/// Device-level failures on the backing store are not here: they are reported
/// to the guest through the virtio used ring and never abort the controller.
#[derive(Debug)]
pub enum Error {
    /// The target is missing, has no KVM file descriptors, or its `/proc`
    /// entries cannot be interpreted. Raised before anything is touched.
    Discovery(String),
    /// The controller may not ptrace the target or read its `/proc` files.
    Permission(String),
    /// The target is a KVM hypervisor, but of a shape the controller does not
    /// handle: several VMs in one process, or a VCPU remapped between threads.
    Unsupported(String),
    /// The target exited or was killed while the controller was attached.
    TargetGone(String),
    /// A bounded number of retries on an interruptible operation ran out.
    Transient(String),
    /// An event arrived that the interceptor's state machine has no
    /// transition for, or shared state read from the target was malformed.
    Protocol(String),
}

impl Error {
    /// The process exit code the controller reports for this error:
    /// 1 when the target is not a usable KVM hypervisor, 2 for missing
    /// privileges, 3 for an unsupported configuration, 4 for any failure
    /// after attach.
    pub fn exit_code(&self) -> (code: u8)
        ensures
            code == match self {
                Error::Discovery(_) => 1u8,
                Error::Permission(_) => 2u8,
                Error::Unsupported(_) => 3u8,
                Error::TargetGone(_) => 4u8,
                Error::Transient(_) => 4u8,
                Error::Protocol(_) => 4u8,
            },
    {
        match self {
            Error::Discovery(_) => 1,
            Error::Permission(_) => 2,
            Error::Unsupported(_) => 3,
            Error::TargetGone(_) => 4,
            Error::Transient(_) => 4,
            Error::Protocol(_) => 4,
        }
    }

    /// The human-readable context carried by the error.
    pub fn message(&self) -> (msg: &String)
        ensures
            msg@ == self.message_view(),
    {
        match self {
            Error::Discovery(m) => m,
            Error::Permission(m) => m,
            Error::Unsupported(m) => m,
            Error::TargetGone(m) => m,
            Error::Transient(m) => m,
            Error::Protocol(m) => m,
        }
    }

    /// The context string of any variant.
    pub open spec fn message_view(&self) -> Seq<char> {
        match self {
            Error::Discovery(m) => m@,
            Error::Permission(m) => m@,
            Error::Unsupported(m) => m@,
            Error::TargetGone(m) => m@,
            Error::Transient(m) => m@,
            Error::Protocol(m) => m@,
        }
    }
}

} // verus!

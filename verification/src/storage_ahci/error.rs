//! What can go wrong with a command once a port is running.

use vstd::prelude::*;

verus! {

/// Why a command could not be carried out.
#[derive(Clone, Copy, Debug, PartialEq, Eq, Structural)]
pub enum AhciError {
    /// The device reported that the command failed.
    DeviceError,
    /// A waiter was woken while its command was still running and no error
    /// was reported for it.
    SpuriousWake,
    /// A slot was to be released while the adapter still had its command.
    SlotStillActive,
    /// A part of the buffer does not start on a 4-byte boundary or has an odd
    /// length, so the adapter cannot transfer it directly.
    UnalignedBuffer,
    /// The buffer lies in more pieces of physical memory than a command table
    /// has entries for.
    TooManySegments,
}

/// The kind of a failure, which decides what a caller can do about it.
#[derive(Clone, Copy, Debug, PartialEq, Eq, Structural)]
pub enum ErrorClass {
    /// The device failed the command. Trying again may help.
    TransientDevice,
    /// The driver broke the protocol with the adapter: a fault of the driver,
    /// not of the device.
    ProtocolViolation,
    /// The request needs something that the driver does not do.
    Unsupported,
}

impl AhciError {
    /// The kind of this failure.
    pub open spec fn class_of(self) -> ErrorClass {
        match self {
            AhciError::DeviceError => ErrorClass::TransientDevice,
            AhciError::SpuriousWake => ErrorClass::ProtocolViolation,
            AhciError::SlotStillActive => ErrorClass::ProtocolViolation,
            AhciError::UnalignedBuffer => ErrorClass::Unsupported,
            AhciError::TooManySegments => ErrorClass::Unsupported,
        }
    }

    /// The kind of this failure.
    pub fn class(&self) -> (r: ErrorClass)
        ensures
            r == self.class_of(),
    {
        match self {
            AhciError::DeviceError => ErrorClass::TransientDevice,
            AhciError::SpuriousWake => ErrorClass::ProtocolViolation,
            AhciError::SlotStillActive => ErrorClass::ProtocolViolation,
            AhciError::UnalignedBuffer => ErrorClass::Unsupported,
            AhciError::TooManySegments => ErrorClass::Unsupported,
        }
    }
}

} // verus!

use crate::foreign::io_error_text;
use crate::text::{append_decimal, decimal};
use vstd::prelude::*;
use vstd::string::StringExecFns;

verus! {

/// What a container operation can fail with.
#[derive(Debug)]
pub enum ContainerError {
    /// The operating system reported a failure.
    Io(std::io::Error),
    /// The storage does not support the operation; holds the reason.
    UnsupportedOperation(&'static str),
    /// A length or an address does not suit the element type; holds the
    /// details.
    AlignmentError(String),
}

/// The text of the error for a byte length that is no multiple of the
/// element size.
pub open spec fn size_message(len: usize, size: usize) -> Seq<char> {
    "File size "@ + decimal(len as nat) + " not aligned to type size "@ + decimal(size as nat)
}

/// The text of the error for a mapped address that is no multiple of the
/// element's alignment.
pub open spec fn address_message(align: usize) -> Seq<char> {
    "Memory map address not aligned to type alignment "@ + decimal(align as nat)
}

impl ContainerError {
    /// This is an alignment error with the message `text`.
    pub open spec fn is_alignment_error(&self, text: Seq<char>) -> bool {
        self matches ContainerError::AlignmentError(msg) && msg@ == text
    }

    /// This is the error of an unsupported operation with the reason `text`.
    pub open spec fn is_unsupported(&self, text: &str) -> bool {
        self matches ContainerError::UnsupportedOperation(msg) && msg@ == text@
    }

    /// The text of the error, for every kind but `Io`, whose text is the
    /// operating system's.
    pub open spec fn message(&self) -> Seq<char> {
        match self {
            ContainerError::Io(_) => "IO error: "@,
            ContainerError::UnsupportedOperation(msg) => msg@,
            ContainerError::AlignmentError(msg) => "Alignment error: "@ + msg@,
        }
    }

    /// Returns the text of the error.
    pub fn to_string(&self) -> (r: String)
        ensures
            !(self is Io) ==> r@ == self.message(),
    {
        match self {
            ContainerError::Io(e) => String::from_str("IO error: ").concat(
                io_error_text(e).as_str(),
            ),
            ContainerError::UnsupportedOperation(msg) => String::from_str(msg),
            ContainerError::AlignmentError(msg) => String::from_str("Alignment error: ").concat(
                msg.as_str(),
            ),
        }
    }
}

impl From<std::io::Error> for ContainerError {
    fn from(e: std::io::Error) -> (r: ContainerError)
        ensures
            r == ContainerError::Io(e),
    {
        ContainerError::Io(e)
    }
}

impl vstd::std_specs::convert::FromSpecImpl<std::io::Error> for ContainerError {
    open spec fn obeys_from_spec() -> bool {
        true
    }

    open spec fn from_spec(e: std::io::Error) -> ContainerError {
        ContainerError::Io(e)
    }
}

pub(crate) fn size_error(len: usize, size: usize) -> (r: ContainerError)
    ensures
        r.is_alignment_error(size_message(len, size)),
{
    let mut msg = String::from_str("File size ");
    append_decimal(&mut msg, len as u64);
    msg.append(" not aligned to type size ");
    append_decimal(&mut msg, size as u64);
    ContainerError::AlignmentError(msg)
}

pub(crate) fn address_error(align: usize) -> (r: ContainerError)
    ensures
        r.is_alignment_error(address_message(align)),
{
    let mut msg = String::from_str("Memory map address not aligned to type alignment ");
    append_decimal(&mut msg, align as u64);
    ContainerError::AlignmentError(msg)
}

} // verus!

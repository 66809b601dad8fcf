//! The error value that the fallible functions of this crate return.
use vstd::prelude::*;
use vstd::string::*;

verus! {

/// What class of failure an [`Error`] reports.
#[derive(Clone, Copy, Debug, PartialEq, Eq, Structural)]
pub enum ErrorKind {
    InvalidInput,
    InvalidData,
    PermissionDenied,
    NotConnected,
    BrokenPipe,
    WouldBlock,
    UnexpectedEof,
    WriteZero,
    TimedOut,
    OutOfMemory,
    Unsupported,
    Other,
}

/// A failure with its class and a message for the operator.
#[derive(Debug)]
pub struct Error {
    pub kind: ErrorKind,
    pub message: String,
}

impl View for Error {
    type V = (ErrorKind, Seq<char>);

    open spec fn view(&self) -> (ErrorKind, Seq<char>) {
        (self.kind, self.message@)
    }
}

impl Error {
    /// An error of the given class.
    pub fn new(kind: ErrorKind, message: String) -> (error: Error)
        ensures
            error@ == (kind, message@),
    {
        Error { kind, message }
    }

    /// An error of the given class whose message is a fixed text.
    pub fn of(kind: ErrorKind, message: &str) -> (error: Error)
        ensures
            error@ == (kind, message@),
    {
        Error { kind, message: String::from_str(message) }
    }
}

/// The class and the message of a failure.
pub type Fault = (ErrorKind, Seq<char>);

/// Whether a fallible function returned what was to be returned.
pub open spec fn agrees<T>(r: Result<T, Error>, due: Result<T, Fault>) -> bool {
    match r {
        Ok(v) => due == Ok::<T, Fault>(v),
        Err(e) => due == Err::<T, Fault>(e@),
    }
}

/// A failure that blames the caller's input.
pub open spec fn bad_input(message: Seq<char>) -> Fault {
    (ErrorKind::InvalidInput, message)
}

/// A failure that blames data which arrived from a peer or a medium.
pub open spec fn bad_data(message: Seq<char>) -> Fault {
    (ErrorKind::InvalidData, message)
}

/// An error that blames the caller's input.
pub fn invalid(message: &str) -> (error: Error)
    ensures
        error@ == (ErrorKind::InvalidInput, message@),
{
    Error::of(ErrorKind::InvalidInput, message)
}

/// An error that blames the caller's input, with a message that was put together.
pub fn invalid_input(message: String) -> (error: Error)
    ensures
        error@ == (ErrorKind::InvalidInput, message@),
{
    Error::new(ErrorKind::InvalidInput, message)
}

/// An error that blames data which arrived from a peer or a medium.
pub fn corrupt(message: &str) -> (error: Error)
    ensures
        error@ == (ErrorKind::InvalidData, message@),
{
    Error::of(ErrorKind::InvalidData, message)
}

/// An error that blames data which arrived from a peer or a medium, with a message that was put
/// together.
pub fn invalid_data(message: String) -> (error: Error)
    ensures
        error@ == (ErrorKind::InvalidData, message@),
{
    Error::new(ErrorKind::InvalidData, message)
}

} // verus!

use vstd::prelude::*;

verus! {

/// The two ways in which reading a color can fail.
#[derive(Debug, Clone, Copy, PartialEq, Eq, Structural)]
pub enum ErrorKind {
    /// A string is not in the notation that it was read in.
    Parse,
    /// A piece of text that should be hexadecimal digits is not.
    Decode,
}

/// The failure of a parser or decoder, with the reason in words.
#[derive(Debug)]
pub struct Error {
    pub kind: ErrorKind,
    pub message: String,
}

impl Error {
    /// Whether the error is of the given kind and has the given message.
    pub open spec fn says(self, kind: ErrorKind, message: &str) -> bool {
        self.kind == kind && self.message@ == message@
    }

    /// A parse error with the given message.
    pub fn new(message: &str) -> (e: Self)
        ensures
            e.says(ErrorKind::Parse, message),
    {
        Self { kind: ErrorKind::Parse, message: message.to_owned() }
    }

    /// A decode error with the given message.
    pub fn decode(message: &str) -> (e: Self)
        ensures
            e.says(ErrorKind::Decode, message),
    {
        Self { kind: ErrorKind::Decode, message: message.to_owned() }
    }
}

} // verus!

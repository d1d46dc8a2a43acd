//! The errors surfaced by lexing, parsing and satisfaction.

use vstd::prelude::*;

use crate::keys::{Hash160, PublicKey, Sha256dHash};

verus! {

/// A failure of the Script instruction decoder.
#[derive(Debug, Clone, Copy, PartialEq, Eq)]
pub enum ScriptError {
    /// A push announced more bytes than the script holds.
    EarlyEndOfScript,
    /// An integer push was longer than four bytes.
    NumericOverflow,
}

/// Every error of the library.
#[derive(Debug, Clone, PartialEq, Eq)]
pub enum Error {
    /// Opcode appeared which is not part of the script subset
    InvalidOpcode(u8),
    /// Push was illegal in some context (not minimal, or a negative number)
    InvalidPush(Vec<u8>),
    /// The instruction decoder failed
    Script(ScriptError),
    /// Encountered unprintable character in descriptor
    Unprintable(u8),
    /// Expected character while parsing descriptor; didn't find one
    ExpectedChar(char),
    /// While parsing backward, hit beginning of script
    UnexpectedStart,
    /// Got something we were not expecting; holds its script bytes
    Unexpected(Vec<u8>),
    /// A 33-byte push that is not a valid compressed public key
    BadPubkey(Vec<u8>),
    /// Could not satisfy a fragment because of a missing hash preimage
    MissingHash(Sha256dHash),
    /// Could not satisfy a fragment because of a missing signature
    MissingSig(PublicKey),
    /// Could not satisfy a fragment because of a missing pubkey for a pkh hash
    MissingPubkey(Hash160),
    /// Could not satisfy, locktime not met
    LocktimeNotMet(u32),
    /// General failure to satisfy
    CouldNotSatisfy,
}

/// The mathematical value of an [`Error`]: byte vectors become sequences.
pub enum ErrorView {
    InvalidOpcode(u8),
    InvalidPush(Seq<u8>),
    Script(ScriptError),
    Unprintable(u8),
    ExpectedChar(char),
    UnexpectedStart,
    Unexpected(Seq<u8>),
    BadPubkey(Seq<u8>),
    MissingHash(Sha256dHash),
    MissingSig(PublicKey),
    MissingPubkey(Hash160),
    LocktimeNotMet(u32),
    CouldNotSatisfy,
}

impl View for Error {
    type V = ErrorView;

    open spec fn view(&self) -> ErrorView {
        match self {
            Error::InvalidOpcode(b) => ErrorView::InvalidOpcode(*b),
            Error::InvalidPush(v) => ErrorView::InvalidPush(v@),
            Error::Script(e) => ErrorView::Script(*e),
            Error::Unprintable(b) => ErrorView::Unprintable(*b),
            Error::ExpectedChar(c) => ErrorView::ExpectedChar(*c),
            Error::UnexpectedStart => ErrorView::UnexpectedStart,
            Error::Unexpected(v) => ErrorView::Unexpected(v@),
            Error::BadPubkey(v) => ErrorView::BadPubkey(v@),
            Error::MissingHash(h) => ErrorView::MissingHash(*h),
            Error::MissingSig(pk) => ErrorView::MissingSig(*pk),
            Error::MissingPubkey(h) => ErrorView::MissingPubkey(*h),
            Error::LocktimeNotMet(n) => ErrorView::LocktimeNotMet(*n),
            Error::CouldNotSatisfy => ErrorView::CouldNotSatisfy,
        }
    }
}

/// A short description of each kind of error.
pub open spec fn describe(e: Error) -> Seq<char> {
    match e {
        Error::InvalidOpcode(..) => "invalid opcode"@,
        Error::InvalidPush(..) => "invalid push"@,
        Error::Script(ScriptError::EarlyEndOfScript) => "unexpected end of script"@,
        Error::Script(ScriptError::NumericOverflow) => "numeric overflow (number on stack larger than 4 bytes)"@,
        Error::Unprintable(..) => "unprintable character in descriptor"@,
        Error::ExpectedChar(..) => "invalid character in descriptor"@,
        Error::UnexpectedStart => "unexpected start of script"@,
        Error::Unexpected(..) => "unexpected token"@,
        Error::BadPubkey(..) => "invalid public key"@,
        Error::MissingHash(..) => "missing hash preimage"@,
        Error::MissingSig(..) => "missing signature (checksig)"@,
        Error::MissingPubkey(..) => "missing pubkey (p2pkh)"@,
        Error::LocktimeNotMet(..) => "locktime not met"@,
        Error::CouldNotSatisfy => "could not satisfy"@,
    }
}

impl Error {
    /// A short description of the error kind.
    pub fn description(&self) -> (r: &'static str)
        ensures
            r@ == describe(*self),
    {
        match self {
            Error::InvalidOpcode(..) => "invalid opcode",
            Error::InvalidPush(..) => "invalid push",
            Error::Script(ScriptError::EarlyEndOfScript) => "unexpected end of script",
            Error::Script(ScriptError::NumericOverflow) => "numeric overflow (number on stack larger than 4 bytes)",
            Error::Unprintable(..) => "unprintable character in descriptor",
            Error::ExpectedChar(..) => "invalid character in descriptor",
            Error::UnexpectedStart => "unexpected start of script",
            Error::Unexpected(..) => "unexpected token",
            Error::BadPubkey(..) => "invalid public key",
            Error::MissingHash(..) => "missing hash preimage",
            Error::MissingSig(..) => "missing signature (checksig)",
            Error::MissingPubkey(..) => "missing pubkey (p2pkh)",
            Error::LocktimeNotMet(..) => "locktime not met",
            Error::CouldNotSatisfy => "could not satisfy",
        }
    }
}

} // verus!

//! The error type the transfer engine reports: a user-facing message, built
//! from exactly specified texts.

use vstd::prelude::*;

verus! {

use vstd::string::*;
use crate::text::spec_decimal;

/// A fatal transfer error, carrying the message shown to the user.
#[derive(Debug)]
pub struct FCError {
    pub message: String,
}

/// The message reported when the peer's version cannot interoperate with
/// ours.
pub open spec fn version_error_message(peer_version: int) -> Seq<char> {
    "Peer's version "@ + spec_decimal(peer_version)
        + " not compatible, please update Flying Carpet to the latest version on both devices."@
}

/// The message reported when both endpoints picked the same mode.
pub open spec fn mode_error_message(send: bool) -> Seq<char> {
    "Both ends of the transfer selected "@ + if send {
        "send"@
    } else {
        "receive"@
    }
}

impl FCError {
    /// An error with a fixed message.
    pub fn new(msg: &str) -> (e: FCError)
        ensures
            e.message@ == msg@,
    {
        FCError { message: String::from_str(msg) }
    }

    /// The user-facing message.
    pub fn message(&self) -> (m: &str)
        ensures
            m@ == self.message@,
    {
        self.message.as_str()
    }
}

/// The error raised when the peer's version is ruled incompatible.
pub fn version_error(peer_version: u64) -> (e: FCError)
    ensures
        e.message@ == version_error_message(peer_version as int),
{
    let mut m = String::from_str("Peer's version ");
    m.append(crate::text::u64_to_decimal(peer_version).as_str());
    m.append(
        " not compatible, please update Flying Carpet to the latest version on both devices.",
    );
    FCError { message: m }
}

/// The error raised when both endpoints selected send, or both receive.
/// `send` says which of the two it was.
pub fn mode_error(send: bool) -> (e: FCError)
    ensures
        e.message@ == mode_error_message(send),
{
    let mut m = String::from_str("Both ends of the transfer selected ");
    if send {
        m.append("send");
    } else {
        m.append("receive");
    }
    FCError { message: m }
}

} // verus!

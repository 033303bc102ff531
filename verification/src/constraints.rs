//! The byte policy of the striker: an inclusive upper bound, and single
//! values that are banned by name. Each rule is put to every byte on its own;
//! where both speak against a byte, the bound is the one that is reported.

use vstd::prelude::*;
use vstd::string::StringExecFns;

verus! {

/// The largest value that may be struck.
pub const MAX_BYTE: u8 = 127;

/// The non-breaking space, banned by name.
pub const FORBIDDEN_NBSP: u8 = 160;

/// The lead byte of a two-byte UTF-8 sequence, banned by name.
pub const FORBIDDEN_UTF8: u8 = 194;

/// The byte lies above the upper bound.
pub open spec fn exceeds_limit(byte: u8) -> bool {
    byte > MAX_BYTE
}

/// Why the byte is banned by name, if it is.
pub open spec fn forbidden_reason(byte: u8) -> Option<Seq<char>> {
    if byte == FORBIDDEN_NBSP {
        Some("NBSP (Non-Breaking Space)"@)
    } else if byte == FORBIDDEN_UTF8 {
        Some("UTF-8 continuation marker"@)
    } else {
        None
    }
}

/// The byte may be struck: neither rule speaks against it.
pub open spec fn legal(byte: u8) -> bool {
    !exceeds_limit(byte) && forbidden_reason(byte) is None
}

/// Every byte of the buffer may be struck.
pub open spec fn all_legal(bytes: Seq<u8>) -> bool {
    forall|i: int| 0 <= i < bytes.len() ==> legal(#[trigger] bytes[i])
}

/// Tests the upper bound.
pub fn over_limit(byte: u8) -> (over: bool)
    ensures
        over == exceeds_limit(byte),
{
    byte > MAX_BYTE
}

/// Looks the byte up among the values banned by name.
pub fn forbidden_description(byte: u8) -> (reason: Option<String>)
    ensures
        match reason {
            Some(text) => forbidden_reason(byte) == Some(text@),
            None => forbidden_reason(byte) is None,
        },
{
    if byte == FORBIDDEN_NBSP {
        Some(String::from_str("NBSP (Non-Breaking Space)"))
    } else if byte == FORBIDDEN_UTF8 {
        Some(String::from_str("UTF-8 continuation marker"))
    } else {
        None
    }
}

} // verus!

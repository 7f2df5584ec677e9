//! The message of a thread that ended by panicking.
use vstd::prelude::*;

verus! {

/// What a panic carried.
pub enum PanicPayload {
    /// A `&str` message.
    Str(String),
    /// A `String` message.
    Owned(String),
    /// Anything else.
    Other,
}

/// The message of a panic: its text when it carried one, else `unknown panic`.
pub fn header_cast(e: PanicPayload) -> (r: String)
    ensures
        r@ == (match e {
            PanicPayload::Str(s) => s@,
            PanicPayload::Owned(s) => s@,
            PanicPayload::Other => "unknown panic"@,
        }),
{
    match e {
        PanicPayload::Str(s) => s,
        PanicPayload::Owned(s) => s,
        PanicPayload::Other => "unknown panic".to_owned(),
    }
}

} // verus!

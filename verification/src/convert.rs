//! Between arguments and the plain values they hold.

use vstd::prelude::*;
use crate::errors::{Error, ErrorView};
use crate::message::Arg;

verus! {

/// Whether `bits` is the pattern of a float between 0 and 1, both included.
///
/// The non-negative floats are ordered as their bit patterns are, and 1 has
/// the pattern `0x3F80_0000`; the pattern `0x8000_0000` is that of the
/// negative zero, which equals zero. Every NaN has a larger pattern than
/// either.
pub open spec fn in_unit_range(bits: u32) -> bool {
    bits <= 0x3F80_0000 || bits == 0x8000_0000
}

/// Whether `e` is the error with which an argument is refused for the given
/// reason.
pub open spec fn refuses(e: Error, reason: Seq<char>) -> bool {
    e@ == ErrorView::Malformed(reason)
}

impl From<i32> for Arg {
    fn from(value: i32) -> (arg: Arg) {
        Arg::Int(value)
    }
}

impl vstd::std_specs::convert::FromSpecImpl<i32> for Arg {
    open spec fn obeys_from_spec() -> bool {
        true
    }

    open spec fn from_spec(value: i32) -> Arg {
        Arg::Int(value)
    }
}

impl From<String> for Arg {
    fn from(value: String) -> (arg: Arg) {
        Arg::Str(value)
    }
}

impl vstd::std_specs::convert::FromSpecImpl<String> for Arg {
    open spec fn obeys_from_spec() -> bool {
        true
    }

    open spec fn from_spec(value: String) -> Arg {
        Arg::Str(value)
    }
}

impl From<Vec<u8>> for Arg {
    fn from(value: Vec<u8>) -> (arg: Arg) {
        Arg::Blob(value)
    }
}

impl vstd::std_specs::convert::FromSpecImpl<Vec<u8>> for Arg {
    open spec fn obeys_from_spec() -> bool {
        true
    }

    open spec fn from_spec(value: Vec<u8>) -> Arg {
        Arg::Blob(value)
    }
}

impl TryFrom<Arg> for i32 {
    type Error = Error;

    /// The integer that `value` holds; any other kind of argument is
    /// refused.
    fn try_from(value: Arg) -> (r: Result<i32, Error>)
        ensures
            match value {
                Arg::Int(i) => r == Ok::<i32, Error>(i),
                _ => r matches Err(e) && refuses(e, "argument is not i32"@),
            },
    {
        match value {
            Arg::Int(i) => Ok(i),
            _ => Err(Error::Malformed("argument is not i32".to_string())),
        }
    }
}

impl vstd::std_specs::convert::TryFromSpecImpl<Arg> for i32 {
    open spec fn obeys_try_from_spec() -> bool {
        false
    }

    open spec fn try_from_spec(value: Arg) -> Result<i32, Error> {
        match value {
            Arg::Int(i) => Ok(i),
            _ => Err(choose|e: Error| refuses(e, "argument is not i32"@)),
        }
    }
}

impl TryFrom<Arg> for String {
    type Error = Error;

    /// The text that `value` holds; any other kind of argument is refused.
    fn try_from(value: Arg) -> (r: Result<String, Error>)
        ensures
            match value {
                Arg::Str(s) => r == Ok::<String, Error>(s),
                _ => r matches Err(e) && refuses(e, "argument is not String"@),
            },
    {
        match value {
            Arg::Str(s) => Ok(s),
            _ => Err(Error::Malformed("argument is not String".to_string())),
        }
    }
}

impl vstd::std_specs::convert::TryFromSpecImpl<Arg> for String {
    open spec fn obeys_try_from_spec() -> bool {
        false
    }

    open spec fn try_from_spec(value: Arg) -> Result<String, Error> {
        match value {
            Arg::Str(s) => Ok(s),
            _ => Err(choose|e: Error| refuses(e, "argument is not String"@)),
        }
    }
}

impl TryFrom<Arg> for Vec<u8> {
    type Error = Error;

    /// The bytes that `value` holds; any other kind of argument is refused.
    fn try_from(value: Arg) -> (r: Result<Vec<u8>, Error>)
        ensures
            match value {
                Arg::Blob(b) => r == Ok::<Vec<u8>, Error>(b),
                _ => r matches Err(e) && refuses(e, "argument is not Vec<u8>"@),
            },
    {
        match value {
            Arg::Blob(b) => Ok(b),
            _ => Err(Error::Malformed("argument is not Vec<u8>".to_string())),
        }
    }
}

impl vstd::std_specs::convert::TryFromSpecImpl<Arg> for Vec<u8> {
    open spec fn obeys_try_from_spec() -> bool {
        false
    }

    open spec fn try_from_spec(value: Arg) -> Result<Vec<u8>, Error> {
        match value {
            Arg::Blob(b) => Ok(b),
            _ => Err(choose|e: Error| refuses(e, "argument is not Vec<u8>"@)),
        }
    }
}

/// The bit pattern of the float that `value` holds, provided that the float
/// lies between 0 and 1, both included; a float outside that range, a NaN and
/// any other kind of argument are refused.
pub fn unit_float_bits(value: Arg) -> (r: Result<u32, Error>)
    ensures
        match value {
            Arg::Float(bits) if in_unit_range(bits) => r == Ok::<u32, Error>(bits),
            _ => r matches Err(e) && refuses(
                e,
                "argument is not Float or is not in the valid OSC range (0..=1)"@,
            ),
        },
{
    match value {
        Arg::Float(bits) if bits <= 0x3F80_0000 || bits == 0x8000_0000 => Ok(bits),
        _ => Err(
            Error::Malformed(
                "argument is not Float or is not in the valid OSC range (0..=1)".to_string(),
            ),
        ),
    }
}

} // verus!

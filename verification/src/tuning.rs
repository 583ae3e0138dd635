//! Socket tuning: the largest send buffer the system allows.
use vstd::prelude::*;
use crate::number::{parse_unsigned, parse_unsigned_range};
use crate::text::{chars_of, trim, trim_bounds};

verus! {

/// The buffer size used when the system does not say (16 MiB).
pub const DEFAULT_SOCKET_BUFFER: usize = 16777216;

/// The least buffer size taken from the system's setting (8 MiB); a smaller
/// setting is passed over for the default.
pub const MIN_SOCKET_BUFFER: usize = 8388608;

/// The socket buffer limit given the contents of the system's `wmem_max`
/// setting (`None` where it could not be read): its trimmed text read as a
/// `usize` when that is at least 8 MiB, or else the default.
pub open spec fn spec_socket_buffer_limit(contents: Option<Seq<char>>) -> nat {
    match contents {
        Some(c) => match parse_unsigned(trim(c), usize::MAX as nat) {
            Some(n) => if n >= MIN_SOCKET_BUFFER as nat {
                n
            } else {
                DEFAULT_SOCKET_BUFFER as nat
            },
            None => DEFAULT_SOCKET_BUFFER as nat,
        },
        None => DEFAULT_SOCKET_BUFFER as nat,
    }
}

pub open spec fn opt_text(contents: Option<&str>) -> Option<Seq<char>> {
    match contents {
        Some(c) => Some(c@),
        None => None,
    }
}

/// The socket buffer limit from the text of `wmem_max`, if it was read.
pub fn socket_buffer_limit(contents: Option<&str>) -> (r: usize)
    ensures
        r as nat == spec_socket_buffer_limit(opt_text(contents)),
        r >= MIN_SOCKET_BUFFER,
{
    match contents {
        Some(c) => {
            let v = chars_of(c);
            let (a, b) = trim_bounds(&v, 0, v.len());
            assert(v@.subrange(0, v@.len() as int) =~= c@);
            match parse_unsigned_range(&v, a, b, usize::MAX as u64) {
                Some(n) => if n >= MIN_SOCKET_BUFFER as u64 {
                    n as usize
                } else {
                    DEFAULT_SOCKET_BUFFER
                },
                None => DEFAULT_SOCKET_BUFFER,
            }
        },
        None => DEFAULT_SOCKET_BUFFER,
    }
}

} // verus!

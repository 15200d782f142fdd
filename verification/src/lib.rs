use vstd::prelude::*;

pub mod addr;
pub mod codec;
pub mod gen;
pub mod msg;
pub mod wire;

verus! {

/// Largest length-prefixed frame an encoded `Request` or `Response` can
/// occupy: a data-carrying message with a full chunk plus wire overhead.
pub const REQUEST_MAX_SIZE: usize = 4104;

/// Smallest padding-proof size a verifier may demand.
pub const DATA_LEN_LOWER_BOUND: usize = 30_000;

/// Largest padding-proof size a verifier may demand.
pub const DATA_LEN_UPPER_BOUND: usize = 100_000;

/// Ceiling on the padding carried by a single data-kind message.
pub const DATA_FIELD_LEN_UPPER_BOUND: usize = 4096;

/// Largest length-prefixed frame an encoded `DialBack` can occupy.
pub const DIAL_BACK_MAX_SIZE: usize = 10;

} // verus!

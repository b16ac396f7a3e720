//! DNS response codes.

use vstd::prelude::*;

verus! {

/// No error.
pub const NO_ERROR: u8 = 0;

/// The query was malformed.
pub const FORMAT_ERROR: u8 = 1;

/// The server failed.
pub const SERVER_FAILURE: u8 = 2;

/// The name does not exist.
pub const NAME_ERROR: u8 = 3;

/// The kind of query is not implemented.
pub const NOT_IMPLEMENTED: u8 = 4;

/// The server refuses to answer.
pub const REFUSED: u8 = 5;

} // verus!

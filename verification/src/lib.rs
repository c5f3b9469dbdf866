//! Synchronizes a directory of ssh key files with a single remote secret.
//!
//! The library holds the verified core: the payload codec, the directory
//! scanner and materializer rules, the confirmation gate, and the two
//! orchestration state machines. I/O lives outside the library.

pub mod bundle;
pub mod chars;
pub mod codec;
pub mod confirm;
pub mod errors;
pub mod get_flow;
pub mod materialize;
pub mod put_flow;
pub mod scan;

use vstd::prelude::*;

verus! {

/// Whether `u` is a Unicode scalar value, i.e. the code of some `char`.
pub open spec fn valid_char_code(u: u32) -> bool {
    u < 0xD800 || (0xE000 <= u && u <= 0x10FFFF)
}

} // verus!

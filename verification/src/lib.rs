//! A verified core for a pull-mode object-store source element.
//!
//! The library has two halves: a parser that turns an `s3://` URI into a
//! validated object locator (`s3url`), and the Stopped/Started session state
//! machine that a host pipeline drives to probe an object's size and issue
//! independent byte-range reads (`s3src`). Network transport and the host
//! framework's wiring live outside the library and talk to it through plain
//! values.

use vstd::prelude::*;

pub mod s3src;
pub mod s3url;
pub mod text;

verus! {

/// Host-plugin entry point decision: the element registration's outcome is
/// reported to the loader as success regardless, mirroring a plugin that
/// registers its element and unconditionally reports a successful load.
pub fn plugin_init(_register_ok: bool) -> (r: bool)
    ensures
        r,
{
    true
}

} // verus!

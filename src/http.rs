//! Where the page that hosts the canvas is served.

use vstd::prelude::*;

verus! {

/// The TCP port of the HTTP listener.
pub fn port() -> (r: i32)
    ensures
        r == 8080,
{
    8080
}

} // verus!

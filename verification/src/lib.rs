//! Core logic of a small photo-browsing application.
//!
//! Two stateless operations back the user interface: scanning a directory
//! for image files, and copying a file into a target directory under a
//! collision-free name. All decisions (which names count as photos, which
//! destination name is free, which error a bad input earns) are made here
//! and verified; the surrounding shell performs the actual filesystem
//! reads and writes and hands the results in as plain values.

pub mod decimal;
pub mod names;
pub mod scan;
pub mod copy;

use vstd::prelude::*;
use vstd::string::StringExecFns;

verus! {

/// Greeting shown by the UI shell to confirm the backend is alive.
pub fn greet(name: &str) -> (r: String)
    ensures
        r@ == "Hello, "@ + name@ + "! You've been greeted from Rust!"@,
{
    let mut s = String::from_str("Hello, ");
    s.append(name);
    s.append("! You've been greeted from Rust!");
    s
}

} // verus!

//! A minimal bare-metal runtime and its debug-print subsystem.
//!
//! The runtime stands between the ROM header and `main`: it prints for the
//! application through installable sinks, knows the IS-Viewer 64 debugger's
//! ring protocol, and decides what happens when `main` returns or panics.

use vstd::prelude::*;

pub mod lanes;
pub mod ring;
pub mod access;
pub mod transfer;
pub mod is64;
pub mod sink;
pub mod slot;
pub mod text;
pub mod stdio;
pub mod start;
pub mod io;

verus! {

/// What the start shim panics with when `main` returns: `main` must run
/// for as long as the machine does.
pub fn panic_main() -> (message: &'static str)
    ensures
        message@ == "main cannot return"@,
{
    "main cannot return"
}

} // verus!

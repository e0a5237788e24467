//! What the start shim decides: how `main` may end, and what is reported
//! when the application panics.
//!
//! The shim calls `main` and panics if it returns; on a panic the handler
//! reports to standard error and halts. Calling `main`, panicking and
//! halting belong to the machine; what is said, and to whom, is decided
//! here.

use vstd::prelude::*;
use crate::sink::Sink;
use crate::stdio::Stdio;
use crate::text::{line_of, line_text, panic_report, panic_report_text};

verus! {

/// What `main` may return. The status is for the shim's signature only: the
/// platform ignores it.
pub trait Termination {
    /// The exit status that the value stands for.
    fn report(self) -> (status: i32);
}

impl Termination for () {
    /// Unit stands for success.
    fn report(self) -> (status: i32)
        ensures
            status == 0,
    {
        0
    }
}

/// Reports a panic to standard error: `Application: ` and `info`, then a
/// line feed. The report is best effort and must not fail in its turn:
/// where standard error is empty nothing is printed, and a report that is
/// too long for the sink is left out.
pub fn report_panic<O: Sink, E: Sink>(stdio: &mut Stdio<O, E>, info: &str)
    requires
        old(stdio).inv(),
    ensures
        final(stdio).inv(),
        final(stdio).out == old(stdio).out,
        if old(stdio).err.takes(line_of(panic_report(info@))) {
            old(stdio).err.written(line_of(panic_report(info@)), &final(stdio).err)
        } else {
            final(stdio).err == old(stdio).err
        },
{
    let report = panic_report_text(info);
    let whole = line_text(report.as_str());
    let fits = match stdio.err.max_len() {
        Some(limit) => whole.as_str().as_bytes().len() <= limit,
        None => true,
    };
    if fits {
        stdio.err.write(whole.as_str());
    }
}

} // verus!

//! Bringing up basic I/O.

use vstd::prelude::*;
use crate::sink::Sink;
use crate::slot::installed_once;
use crate::stdio::Stdio;

verus! {

/// The transport that [`init`] chose.
#[derive(Clone, Copy, Debug, PartialEq, Eq, Structural)]
pub enum IoBackend {
    /// No transport answered.
    NoBackend,
    /// Intelligent Systems Viewer 64.
    IsViewer64,
}

/// Chooses the transport for standard output and standard error.
///
/// Transports are tried in a fixed order, IS-Viewer 64 first and then none.
/// `is_viewer` is the sink of the IS-Viewer 64 where its probe has answered,
/// and `None` where it has not. The first transport that is present is
/// installed in both slots, the same sink in each, since the hardware has a
/// single channel; a slot that already holds a sink keeps it. The result
/// names the transport that was chosen.
pub fn init<S: Sink + Copy>(stdio: &mut Stdio<S, S>, is_viewer: Option<S>) -> (backend: IoBackend)
    requires
        old(stdio).inv(),
        is_viewer matches Some(sink) ==> sink.inv(),
    ensures
        final(stdio).inv(),
        match is_viewer {
            Some(sink) => {
                &&& backend == IoBackend::IsViewer64
                &&& final(stdio).out@ == installed_once(old(stdio).out@, sink)
                &&& final(stdio).err@ == installed_once(old(stdio).err@, sink)
            },
            None => backend == IoBackend::NoBackend && *final(stdio) == *old(stdio),
        },
{
    match is_viewer {
        Some(sink) => {
            let _ = stdio.out.install_once(sink);
            let _ = stdio.err.install_once(sink);
            IoBackend::IsViewer64
        },
        None => IoBackend::NoBackend,
    }
}

} // verus!

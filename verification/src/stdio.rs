//! Standard output and standard error, and the print functions on them.
//!
//! Every print function composes its whole text first and then hands it to
//! the slot as a single write, so that one call is one message for the sink.
//! Printing never fails: an empty slot discards the text, and a failure
//! that a sink reports is ignored.

use vstd::prelude::*;
use crate::sink::Sink;
use crate::slot::Slot;
use crate::text::{line_of, line_text, location, location_text, trace, trace_text};

verus! {

/// The two slots of the runtime: `out` for output, `err` for diagnostics.
pub struct Stdio<O, E> {
    /// Standard output.
    pub out: Slot<O>,
    /// Standard error.
    pub err: Slot<E>,
}

impl<O: Sink, E: Sink> Stdio<O, E> {
    /// Both slots are fit to be written to.
    pub open spec fn inv(&self) -> bool {
        self.out.inv() && self.err.inv()
    }

    /// Two empty slots.
    pub fn new() -> (stdio: Stdio<O, E>)
        ensures
            stdio.out@ is None,
            stdio.err@ is None,
            stdio.inv(),
    {
        Stdio { out: Slot::new(), err: Slot::new() }
    }
}

/// Prints `text` to standard output.
pub fn print<O: Sink, E: Sink>(stdio: &mut Stdio<O, E>, text: &str)
    requires
        old(stdio).inv(),
        old(stdio).out.takes(text@),
    ensures
        old(stdio).out.written(text@, &final(stdio).out),
        final(stdio).err == old(stdio).err,
        final(stdio).inv(),
{
    stdio.out.write(text);
}

/// Prints `text` and a line feed to standard output.
pub fn println<O: Sink, E: Sink>(stdio: &mut Stdio<O, E>, text: &str)
    requires
        old(stdio).inv(),
        old(stdio).out.takes(line_of(text@)),
    ensures
        old(stdio).out.written(line_of(text@), &final(stdio).out),
        final(stdio).err == old(stdio).err,
        final(stdio).inv(),
{
    let whole = line_text(text);
    stdio.out.write(whole.as_str());
}

/// Prints `text` to standard error.
pub fn eprint<O: Sink, E: Sink>(stdio: &mut Stdio<O, E>, text: &str)
    requires
        old(stdio).inv(),
        old(stdio).err.takes(text@),
    ensures
        old(stdio).err.written(text@, &final(stdio).err),
        final(stdio).out == old(stdio).out,
        final(stdio).inv(),
{
    stdio.err.write(text);
}

/// Prints `text` and a line feed to standard error.
pub fn eprintln<O: Sink, E: Sink>(stdio: &mut Stdio<O, E>, text: &str)
    requires
        old(stdio).inv(),
        old(stdio).err.takes(line_of(text@)),
    ensures
        old(stdio).err.written(line_of(text@), &final(stdio).err),
        final(stdio).out == old(stdio).out,
        final(stdio).inv(),
{
    let whole = line_text(text);
    stdio.err.write(whole.as_str());
}

/// Traces that control has reached `line` of `file`: prints `[file:line]`
/// and a line feed to standard error.
pub fn dbg_here<O: Sink, E: Sink>(stdio: &mut Stdio<O, E>, file: &str, line: u32)
    requires
        old(stdio).inv(),
        old(stdio).err.takes(line_of(location(file@, line as nat))),
    ensures
        old(stdio).err.written(
            line_of(location(file@, line as nat)),
            &final(stdio).err,
        ),
        final(stdio).out == old(stdio).out,
        final(stdio).inv(),
{
    let place = location_text(file, line);
    eprintln(stdio, place.as_str());
}

/// Traces a value and hands it back. Prints
/// `[file:line] expr = pretty` and a line feed to standard error, where
/// `expr` is the source text of the expression and `pretty` its
/// pretty-printed value, and returns `value` itself, so that the call can
/// stand wherever the expression stood.
pub fn dbg<O: Sink, E: Sink, T>(
    stdio: &mut Stdio<O, E>,
    file: &str,
    line: u32,
    expr: &str,
    pretty: &str,
    value: T,
) -> (same: T)
    requires
        old(stdio).inv(),
        old(stdio).err.takes(line_of(trace(file@, line as nat, expr@, pretty@))),
    ensures
        same == value,
        old(stdio).err.written(
            line_of(trace(file@, line as nat, expr@, pretty@)),
            &final(stdio).err,
        ),
        final(stdio).out == old(stdio).out,
        final(stdio).inv(),
{
    let message = trace_text(file, line, expr, pretty);
    eprintln(stdio, message.as_str());
    value
}

/// Traces two values and hands them back as a pair: the same as tracing
/// the first and then the second, each with [`dbg`], and pairing what the
/// two calls return.
pub fn dbg2<O: Sink, E: Sink, A, B>(
    stdio: &mut Stdio<O, E>,
    file: &str,
    line: u32,
    first_expr: &str,
    first_pretty: &str,
    first: A,
    second_expr: &str,
    second_pretty: &str,
    second: B,
) -> (same: (A, B))
    requires
        old(stdio).inv(),
        old(stdio).err.takes(
            line_of(trace(file@, line as nat, first_expr@, first_pretty@)),
        ),
        old(stdio).err.takes(
            line_of(trace(file@, line as nat, second_expr@, second_pretty@)),
        ),
    ensures
        same == (first, second),
        exists|between: Slot<E>|
            {
                &&& #[trigger] old(stdio).err.written(
                    line_of(trace(file@, line as nat, first_expr@, first_pretty@)),
                    &between,
                )
                &&& between.written(
                    line_of(trace(file@, line as nat, second_expr@, second_pretty@)),
                    &final(stdio).err,
                )
            },
        final(stdio).out == old(stdio).out,
        final(stdio).inv(),
{
    let a = dbg(stdio, file, line, first_expr, first_pretty, first);
    let ghost between = stdio.err;
    let b = dbg(stdio, file, line, second_expr, second_pretty, second);
    assert(old(stdio).err.written(
        line_of(trace(file@, line as nat, first_expr@, first_pretty@)),
        &between,
    ));
    (a, b)
}

} // verus!

//! The text of the lines that the runtime prints on its own account.

use vstd::prelude::*;
use vstd::string::*;

verus! {

/// The character of the decimal digit `d`.
pub open spec fn digit(d: int) -> char {
    if d == 0 {
        '0'
    } else if d == 1 {
        '1'
    } else if d == 2 {
        '2'
    } else if d == 3 {
        '3'
    } else if d == 4 {
        '4'
    } else if d == 5 {
        '5'
    } else if d == 6 {
        '6'
    } else if d == 7 {
        '7'
    } else if d == 8 {
        '8'
    } else {
        '9'
    }
}

/// The decimal numeral of `n`, without sign or leading zeros.
pub open spec fn decimal(n: nat) -> Seq<char>
    decreases n,
{
    if n < 10 {
        seq![digit(n as int)]
    } else {
        decimal(n / 10).push(digit((n % 10) as int))
    }
}

/// `text` followed by a line feed.
pub open spec fn line_of(text: Seq<char>) -> Seq<char> {
    text.push('\n')
}

/// The source location `[file:line]` that opens a trace line.
pub open spec fn location(file: Seq<char>, line: nat) -> Seq<char> {
    seq!['['] + file + seq![':'] + decimal(line) + seq![']']
}

/// The trace of one expression: its location, its source text and its
/// pretty-printed value, without the line feed.
pub open spec fn trace(file: Seq<char>, line: nat, expr: Seq<char>, pretty: Seq<char>) -> Seq<
    char,
> {
    location(file, line) + seq![' '] + expr + seq![' ', '=', ' '] + pretty
}

/// What the runtime reports when the application panics.
pub open spec fn panic_report(info: Seq<char>) -> Seq<char> {
    "Application: "@ + info
}

/// The one-character text of the digit `d`.
fn digit_text(d: u32) -> (text: &'static str)
    requires
        d < 10,
    ensures
        text@ == seq![digit(d as int)],
{
    proof {
        reveal_strlit("0");
        reveal_strlit("1");
        reveal_strlit("2");
        reveal_strlit("3");
        reveal_strlit("4");
        reveal_strlit("5");
        reveal_strlit("6");
        reveal_strlit("7");
        reveal_strlit("8");
        reveal_strlit("9");
    }
    let text = if d == 0 {
        "0"
    } else if d == 1 {
        "1"
    } else if d == 2 {
        "2"
    } else if d == 3 {
        "3"
    } else if d == 4 {
        "4"
    } else if d == 5 {
        "5"
    } else if d == 6 {
        "6"
    } else if d == 7 {
        "7"
    } else if d == 8 {
        "8"
    } else {
        "9"
    };
    assert(text@ =~= seq![digit(d as int)]);
    text
}

/// Writes `n` as a decimal numeral.
pub fn decimal_text(n: u32) -> (text: String)
    ensures
        text@ == decimal(n as nat),
    decreases n,
{
    if n < 10 {
        String::from_str(digit_text(n))
    } else {
        let mut text = decimal_text(n / 10);
        text.append(digit_text(n % 10));
        assert(text@ =~= decimal(n as nat));
        text
    }
}

/// Composes `text` followed by a line feed.
pub fn line_text(text: &str) -> (out: String)
    ensures
        out@ == line_of(text@),
{
    proof {
        reveal_strlit("\n");
    }
    let mut out = String::from_str(text);
    out.append("\n");
    assert(out@ =~= line_of(text@));
    out
}

/// Composes the source location `[file:line]`.
pub fn location_text(file: &str, line: u32) -> (out: String)
    ensures
        out@ == location(file@, line as nat),
{
    proof {
        reveal_strlit("[");
        reveal_strlit(":");
        reveal_strlit("]");
    }
    let mut out = String::from_str("[");
    out.append(file);
    out.append(":");
    let number = decimal_text(line);
    out.append(number.as_str());
    out.append("]");
    assert(out@ =~= location(file@, line as nat));
    out
}

/// Composes the trace of one expression.
pub fn trace_text(file: &str, line: u32, expr: &str, pretty: &str) -> (out: String)
    ensures
        out@ == trace(file@, line as nat, expr@, pretty@),
{
    proof {
        reveal_strlit(" ");
        reveal_strlit(" = ");
    }
    let mut out = location_text(file, line);
    out.append(" ");
    out.append(expr);
    out.append(" = ");
    out.append(pretty);
    assert(out@ =~= trace(file@, line as nat, expr@, pretty@));
    out
}

/// Composes the report of a panic.
pub fn panic_report_text(info: &str) -> (out: String)
    ensures
        out@ == panic_report(info@),
{
    let mut out = String::from_str("Application: ");
    out.append(info);
    assert(out@ =~= panic_report(info@));
    out
}

} // verus!

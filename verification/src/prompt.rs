//! Prompt construction and the interrupt-time redraw decision.
//!
//! The prompt shows `user@host:directory` with color markers; when any of
//! the three lookups fails, the whole prompt collapses to the empty
//! string, which is always safe to display. The interrupt handler redraws
//! the prompt only while the read loop is blocked reading a line.

use vstd::prelude::*;

use crate::lexer::spec_trim;

verus! {

/// The full prompt built from the user name, the raw host name (as read
/// from the system, still carrying its trailing newline), and the current
/// working directory: a green marker, `user@host:`, a blue marker, the
/// directory, a space, and the color reset.
pub open spec fn spec_prompt(user: Seq<char>, host_raw: Seq<char>, cwd: Seq<char>) -> Seq<char> {
    "\x1b[1;32m"@ + user + "@"@ + spec_trim(host_raw) + ":"@ + "\x1b[1;34m"@ + cwd + " "@
        + "\x1b[0m"@
}

/// Builds the display prompt from the three lookup results. When any
/// lookup failed (`None`), the prompt degrades to the empty string rather
/// than to a partial one.
pub fn build_prompt(user: Option<&str>, host_raw: Option<&str>, cwd: Option<&str>) -> (r: String)
    ensures
        user is None || host_raw is None || cwd is None ==> r@ == Seq::<char>::empty(),
        user is Some && host_raw is Some && cwd is Some ==> r@ == spec_prompt(
            user->0@,
            host_raw->0@,
            cwd->0@,
        ),
{
    match (user, host_raw, cwd) {
        (Some(u), Some(h), Some(d)) => {
            let mut out = String::from_str("\x1b[1;32m");
            out.append(u);
            out.append("@");
            let trimmed_host = crate::lexer::trim_line(h);
            out.append(trimmed_host.as_str());
            out.append(":");
            out.append("\x1b[1;34m");
            out.append(d);
            out.append(" ");
            out.append("\x1b[0m");
            out
        },
        _ => String::new(),
    }
}

/// The prompt line as printed before each read: the prompt followed by
/// the dollar sigil.
pub fn prompt_line(prompt: &str) -> (r: String)
    ensures
        r@ == prompt@ + "$ "@,
{
    String::from_str(prompt).concat("$ ")
}

/// Decides what an asynchronously delivered interrupt writes. While the
/// read loop is not blocked in a read (`reading` is false) the interrupt
/// is swallowed: nothing is written. While it is, the handler writes a
/// newline followed by the freshly rebuilt prompt line.
pub fn interrupt_response(reading: bool, prompt: &str) -> (r: Option<String>)
    ensures
        !reading ==> r is None,
        reading ==> (r matches Some(out) && out@ == "\n"@ + prompt@ + "$ "@),
{
    if reading {
        Some(String::from_str("\n").concat(prompt).concat("$ "))
    } else {
        None
    }
}

} // verus!

//! Log lines. They go to stderr always, and best-effort to /dev/kmsg so that
//! the daemon is diagnosable from the serial console even when nothing collects
//! stderr.

use vstd::prelude::*;
use vstd::string::StringExecFns;

verus! {

/// The line of a message at a level.
pub open spec fn line_text(level: Seq<char>, msg: Seq<char>) -> Seq<char> {
    "pnpd: "@ + level + ": "@ + msg
}

/// The line of a message that only informs.
pub open spec fn info_text(msg: Seq<char>) -> Seq<char> {
    line_text("info"@, msg)
}

/// The line of a message about a failure.
pub open spec fn error_text(msg: Seq<char>) -> Seq<char> {
    line_text("error"@, msg)
}

fn line(level: &str, msg: &str) -> (r: String)
    ensures
        r@ == line_text(level@, msg@),
{
    let mut out = String::new();
    out.append("pnpd: ");
    out.append(level);
    out.append(": ");
    out.append(msg);
    assert(out@ == line_text(level@, msg@));
    out
}

/// The line of a message that only informs.
pub fn info(msg: &str) -> (r: String)
    ensures
        r@ == info_text(msg@),
{
    line("info", msg)
}

/// The line of a message about a failure.
pub fn error(msg: &str) -> (r: String)
    ensures
        r@ == error_text(msg@),
{
    line("error", msg)
}

} // verus!

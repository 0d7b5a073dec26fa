//! Removing the terminator from a line as a line reader hands it over.
use vstd::prelude::*;
use vstd::string::StrSliceExecFns;
use vstd::string::StringExecFns;

verus! {

/// The text of a raw line without its terminator: one trailing `"\r\n"` or
/// `"\n"` is removed, and nothing else.
pub open spec fn strip_terminator(raw: Seq<char>) -> Seq<char> {
    let n = raw.len();
    if n >= 2 && raw[n - 2] == '\r' && raw[n - 1] == '\n' {
        raw.take(n - 2)
    } else if n >= 1 && raw[n - 1] == '\n' {
        raw.take(n - 1)
    } else {
        raw
    }
}

/// Removes exactly one trailing line terminator, `"\r\n"` or `"\n"`, from
/// `raw`.
pub fn strip_line_terminator(raw: &str) -> (r: String)
    ensures
        r@ == strip_terminator(raw@),
{
    let n = raw.unicode_len();
    let keep: usize = if n >= 2 && raw.get_char(n - 2) == '\r' && raw.get_char(n - 1) == '\n' {
        n - 2
    } else if n >= 1 && raw.get_char(n - 1) == '\n' {
        n - 1
    } else {
        n
    };
    String::from_str(raw.substring_char(0, keep))
}

} // verus!

//! Telling the report formats apart by their first character.

use vstd::prelude::*;

use crate::chars::{is_ws, is_ws_char};
use crate::error::ReportError;
use crate::files::OutputFormat;

verus! {

/// The index of the first character of `s` from `i` on that is not
/// whitespace, or the length of `s`.
pub open spec fn skip_ws(s: Seq<char>, i: int) -> int
    decreases s.len() - i,
{
    if 0 <= i < s.len() && is_ws(s[i]) {
        skip_ws(s, i + 1)
    } else {
        i
    }
}

/// The format of a report that starts with `s`: JSON where the first
/// character that is not whitespace is `{`, text where it is `#`.
pub open spec fn format_of(s: Seq<char>) -> Result<OutputFormat, ReportError> {
    let i = skip_ws(s, 0);
    if i < s.len() && s[i] == '{' {
        Ok(OutputFormat::Json)
    } else if i < s.len() && s[i] == '#' {
        Ok(OutputFormat::Default)
    } else {
        Err(ReportError::UnknownFormat)
    }
}

/// Detects the format of a report from the start of its text.
pub fn detect_format(start: &str) -> (r: Result<OutputFormat, ReportError>)
    ensures
        r == format_of(start@),
{
    let n = start.unicode_len();
    let mut i: usize = 0;
    while i < n && is_ws_char(start.get_char(i))
        invariant
            0 <= i <= n,
            n == start@.len(),
            skip_ws(start@, 0) == skip_ws(start@, i as int),
        decreases n - i,
    {
        i = i + 1;
    }
    if i < n && start.get_char(i) == '{' {
        Ok(OutputFormat::Json)
    } else if i < n && start.get_char(i) == '#' {
        Ok(OutputFormat::Default)
    } else {
        Err(ReportError::UnknownFormat)
    }
}

} // verus!

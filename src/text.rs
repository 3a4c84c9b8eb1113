//! The text report format, stated as spec functions.
//!
//! A report starts with `#` header lines; each group follows as a header line
//! `hash, len B (size) * count:` and one line per path, indented by four
//! spaces.

use vstd::prelude::*;

use crate::chars::{dec_text, hex_text};
use crate::files::{texts, FileGroup, ReportHeader};
use crate::human::human_size;
use crate::outside::{ansi_colored, shell_joined};

verus! {

/// A line in the given colour code, or plain, with its line end.
pub open spec fn colored_line(code: char, s: Seq<char>, color: bool) -> Seq<char> {
    (if color {
        ansi_colored(code, s)
    } else {
        s
    }) + seq!['\n']
}

/// The text of a header line: `# ` and the body.
pub open spec fn header_line_text(body: Seq<char>) -> Seq<char> {
    seq!['#', ' '] + body
}

/// A header line, in cyan where colour is on.
pub open spec fn header_line(body: Seq<char>, color: bool) -> Seq<char> {
    colored_line('6', header_line_text(body), color)
}

pub open spec fn version_body(v: Seq<char>) -> Seq<char> {
    "Report by fclones "@ + v
}

pub open spec fn timestamp_body(ts: Seq<char>) -> Seq<char> {
    "Timestamp: "@ + ts
}

pub open spec fn command_body(c: Seq<char>) -> Seq<char> {
    "Command: "@ + c
}

pub open spec fn group_count_body(n: nat) -> Seq<char> {
    "Found "@ + dec_text(n) + " file groups"@
}

pub open spec fn stats_body(size: nat, count: nat) -> Seq<char> {
    dec_text(size) + " B ("@ + human_size(size) + ") in "@ + dec_text(count)
        + " redundant files can be removed"@
}

/// The header lines of a report whose timestamp renders as `ts`.
pub open spec fn header_text(h: ReportHeader, ts: Seq<char>, color: bool) -> Seq<char> {
    header_line(version_body(h.version@), color) + header_line(timestamp_body(ts), color)
        + header_line(command_body(shell_joined(texts(h.command@))), color) + match h.stats {
        Some(st) => header_line(group_count_body(st.group_count as nat), color) + header_line(
            stats_body(st.redundant_file_size.0 as nat, st.redundant_file_count as nat),
            color,
        ),
        None => Seq::<char>::empty(),
    }
}

/// The first line of a group, without colour or line end.
pub open spec fn group_header_text(len: nat, hash: nat, count: nat) -> Seq<char> {
    hex_text(hash, 32) + seq![',', ' '] + dec_text(len) + seq![' ', 'B', ' ', '('] + human_size(
        len,
    ) + seq![')', ' ', '*', ' '] + dec_text(count) + seq![':']
}

/// A path line of a group.
pub open spec fn path_line(p: Seq<char>) -> Seq<char> {
    seq![' ', ' ', ' ', ' '] + p + seq!['\n']
}

pub open spec fn paths_text(ps: Seq<Seq<char>>) -> Seq<char>
    decreases ps.len(),
{
    if ps.len() == 0 {
        Seq::<char>::empty()
    } else {
        paths_text(ps.drop_last()) + path_line(ps.last())
    }
}

/// A group as the text format writes it.
pub open spec fn group_text(g: FileGroup, color: bool) -> Seq<char> {
    colored_line(
        '3',
        group_header_text(g.file_len.0 as nat, g.file_hash.0 as nat, g.files@.len()),
        color,
    ) + paths_text(g.paths())
}

pub open spec fn groups_text(gs: Seq<FileGroup>, color: bool) -> Seq<char>
    decreases gs.len(),
{
    if gs.len() == 0 {
        Seq::<char>::empty()
    } else {
        groups_text(gs.drop_last(), color) + group_text(gs.last(), color)
    }
}

/// The paths of a group, one per line, and an empty line after them.
pub open spec fn fdupes_group_text(ps: Seq<Seq<char>>) -> Seq<char>
    decreases ps.len(),
{
    if ps.len() == 0 {
        seq!['\n']
    } else {
        ps[0] + seq!['\n'] + fdupes_group_text(ps.drop_first())
    }
}

pub open spec fn fdupes_text(gs: Seq<FileGroup>) -> Seq<char>
    decreases gs.len(),
{
    if gs.len() == 0 {
        Seq::<char>::empty()
    } else {
        fdupes_text(gs.drop_last()) + fdupes_group_text(gs.last().paths())
    }
}

} // verus!

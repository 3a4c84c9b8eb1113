//! Reading text reports: the header, then the groups one by one.

use vstd::prelude::*;

use crate::chars::{digits_value, parse_dec, trim, trim_range};
use crate::error::ReportError;
use crate::files::{texts, FileGroup, FileHash, FileLen, FileStats, ReportHeader};
use crate::lines::{
    group_count_capture, group_header_values, lemma_digit_run_all_dec, match_group_count,
    match_rest, match_stats, match_version, parse_group_header, rest_capture, stats_capture,
    version_capture,
};
use crate::outside::{parse_timestamp, parsed_timestamp, shell_split, shell_split_words};
use crate::scan::{lemma_line_end, line_end, line_end_exec, lit_at, lit_at_exec, slice};

verus! {

/// The first line from `pos` on that is not a comment, trimmed, and where
/// the line after it starts. An empty line ends the search with `None`.
pub open spec fn first_content(t: Seq<char>, pos: int) -> (Option<Seq<char>>, int)
    decreases t.len() - pos,
{
    let e = line_end(t, pos);
    let l = trim(t.subrange(pos, e));
    if pos < 0 || pos > t.len() || l.len() == 0 {
        (None, e)
    } else if l[0] != '#' {
        (Some(l), e)
    } else if e <= pos || e > t.len() {
        (None, e)
    } else {
        first_content(t, e)
    }
}

/// What reading the path lines of a group gives.
pub enum PathsStep {
    Done { paths: Seq<Seq<char>>, next: int },
    Bad { line: Seq<char>, next: int },
    Eof { next: int },
}

/// Reads `count` path lines from `pos` on, after the paths `acc`.
pub open spec fn paths_from(t: Seq<char>, pos: int, count: nat, acc: Seq<Seq<char>>) -> PathsStep
    decreases count,
{
    if count == 0 {
        PathsStep::Done { paths: acc, next: pos }
    } else {
        let e = line_end(t, pos);
        let raw = t.subrange(pos, e);
        if raw.len() == 0 {
            PathsStep::Eof { next: e }
        } else if !(lit_at(raw, 0, "    "@) && trim(raw).len() > 0) {
            PathsStep::Bad { line: raw, next: e }
        } else {
            paths_from(t, e, (count - 1) as nat, acc.push(trim(raw)))
        }
    }
}

/// What reading one group from `pos` gives.
pub enum GroupStep {
    End { next: int },
    Group { len: nat, hash: nat, paths: Seq<Seq<char>>, next: int },
    BadHeader { line: Seq<char>, next: int },
    BadPath { line: Seq<char>, next: int },
    Eof { next: int },
}

pub open spec fn group_step(t: Seq<char>, pos: int) -> GroupStep {
    let (l, e) = first_content(t, pos);
    match l {
        None => GroupStep::End { next: e },
        Some(l) => match group_header_values(l) {
            None => GroupStep::BadHeader { line: l, next: e },
            Some((len, hash, count)) => match paths_from(t, e, count, Seq::empty()) {
                PathsStep::Done { paths, next } => GroupStep::Group { len, hash, paths, next },
                PathsStep::Bad { line, next } => GroupStep::BadPath { line, next },
                PathsStep::Eof { next } => GroupStep::Eof { next },
            },
        },
    }
}

pub proof fn lemma_first_content(t: Seq<char>, pos: int)
    requires
        0 <= pos <= t.len(),
    ensures
        pos <= first_content(t, pos).1 <= t.len(),
        first_content(t, pos).0 is Some ==> pos < first_content(t, pos).1,
    decreases t.len() - pos,
{
    lemma_line_end(t, pos);
    let e = line_end(t, pos);
    let l = trim(t.subrange(pos, e));
    if pos == t.len() {
        assert(t.subrange(pos, e).len() == 0);
    }
    if l.len() != 0 && l[0] == '#' && e > pos {
        lemma_first_content(t, e);
    }
}

pub proof fn lemma_paths_from(t: Seq<char>, pos: int, count: nat, acc: Seq<Seq<char>>)
    requires
        0 <= pos <= t.len(),
    ensures
        match paths_from(t, pos, count, acc) {
            PathsStep::Done { next, .. } => pos <= next <= t.len(),
            PathsStep::Bad { next, .. } => pos <= next <= t.len(),
            PathsStep::Eof { next } => pos <= next <= t.len(),
        },
    decreases count,
{
    lemma_line_end(t, pos);
    if count > 0 {
        let e = line_end(t, pos);
        let raw = t.subrange(pos, e);
        if raw.len() != 0 && lit_at(raw, 0, "    "@) && trim(raw).len() > 0 {
            lemma_paths_from(t, e, (count - 1) as nat, acc.push(trim(raw)));
        }
    }
}

/// Iterates over the groups of a text report, from a position in its text.
/// After an error it yields nothing more.
pub struct TextReportIterator {
    pub text: String,
    pub pos: usize,
    pub stopped_on_error: bool,
}

impl TextReportIterator {
    pub fn new(input: String) -> (r: TextReportIterator)
        ensures
            r.text == input,
            r.pos == 0,
            !r.stopped_on_error,
    {
        TextReportIterator { text: input, pos: 0, stopped_on_error: false }
    }

    /// Reads up to the first line that is not a comment and returns it
    /// trimmed; `None` at the end of the text or at an empty line.
    pub fn read_first_non_comment_line(&mut self) -> (r: Option<String>)
        requires
            old(self).pos <= old(self).text@.len(),
        ensures
            final(self).text == old(self).text,
            final(self).stopped_on_error == old(self).stopped_on_error,
            final(self).pos == first_content(old(self).text@, old(self).pos as int).1,
            final(self).pos <= final(self).text@.len(),
            match first_content(old(self).text@, old(self).pos as int).0 {
                Some(l) => r matches Some(s) && s@ == l,
                None => r is None,
            },
    {
        loop
            invariant
                self.text == old(self).text,
                self.stopped_on_error == old(self).stopped_on_error,
                self.pos <= self.text@.len(),
                first_content(old(self).text@, old(self).pos as int) == first_content(
                    self.text@,
                    self.pos as int,
                ),
            decreases self.text@.len() - self.pos,
        {
            let start = self.pos;
            let e = line_end_exec(self.text.as_str(), start);
            proof {
                lemma_line_end(self.text@, start as int);
            }
            let line = trim_range(self.text.as_str(), start, e);
            self.pos = e;
            if line.unicode_len() == 0 {
                return None;
            }
            if line.get_char(0) != '#' {
                return Some(line);
            }
            proof {
                if start as int == self.text@.len() {
                    assert(self.text@.subrange(start as int, e as int).len() == 0);
                }
            }
        }
    }

    fn read_group_header(&mut self) -> (r: Result<Option<(u64, u128, usize)>, ReportError>)
        requires
            old(self).pos <= old(self).text@.len(),
        ensures
            final(self).text == old(self).text,
            final(self).stopped_on_error == old(self).stopped_on_error,
            final(self).pos == first_content(old(self).text@, old(self).pos as int).1,
            final(self).pos <= final(self).text@.len(),
            match first_content(old(self).text@, old(self).pos as int).0 {
                None => r matches Ok(None),
                Some(l) => match group_header_values(l) {
                    Some(v) => r matches Ok(Some(h)) && h.0 as nat == v.0 && h.1 as nat == v.1
                        && h.2 as nat == v.2,
                    None => r matches Err(ReportError::MalformedGroupHeader(s)) && s@ == l,
                },
            },
    {
        let line = match self.read_first_non_comment_line() {
            None => return Ok(None),
            Some(l) => l,
        };
        match parse_group_header(line.as_str()) {
            Some(h) => Ok(Some(h)),
            None => Err(ReportError::MalformedGroupHeader(line)),
        }
    }

    /// Reads `count` path lines, each indented by four spaces, and returns
    /// the paths trimmed.
    pub fn read_paths(&mut self, count: usize) -> (r: Result<Vec<String>, ReportError>)
        requires
            old(self).pos <= old(self).text@.len(),
        ensures
            final(self).text == old(self).text,
            final(self).stopped_on_error == old(self).stopped_on_error,
            final(self).pos <= final(self).text@.len(),
            match paths_from(old(self).text@, old(self).pos as int, count as nat, Seq::empty()) {
                PathsStep::Done { paths, next } => r matches Ok(v) && texts(v@) == paths
                    && final(self).pos == next,
                PathsStep::Bad { line, next } => r matches Err(ReportError::PathExpected(s))
                    && s@ == line && final(self).pos == next,
                PathsStep::Eof { next } => r == Err::<Vec<String>, ReportError>(
                    ReportError::UnexpectedEof,
                ) && final(self).pos == next,
            },
    {
        let mut paths: Vec<String> = Vec::new();
        let mut i: usize = 0;
        assert(texts(paths@) =~= Seq::<Seq<char>>::empty());
        while i < count
            invariant
                0 <= i <= count,
                self.text == old(self).text,
                self.stopped_on_error == old(self).stopped_on_error,
                self.pos <= self.text@.len(),
                paths_from(old(self).text@, old(self).pos as int, count as nat, Seq::empty())
                    == paths_from(self.text@, self.pos as int, (count - i) as nat, texts(paths@)),
            decreases count - i,
        {
            let start = self.pos;
            let e = line_end_exec(self.text.as_str(), start);
            proof {
                lemma_line_end(self.text@, start as int);
            }
            let raw = slice(self.text.as_str(), start, e);
            self.pos = e;
            if raw.unicode_len() == 0 {
                return Err(ReportError::UnexpectedEof);
            }
            let n = raw.unicode_len();
            let p = trim_range(raw.as_str(), 0, n);
            assert(raw@.subrange(0, n as int) =~= raw@);
            if !lit_at_exec(raw.as_str(), 0, "    ") || p.unicode_len() == 0 {
                return Err(ReportError::PathExpected(raw));
            }
            let ghost before = paths@;
            paths.push(p);
            proof {
                assert(texts(paths@) =~= texts(before).push(p@));
            }
            i = i + 1;
        }
        Ok(paths)
    }

    /// Reads the next group: `Ok(None)` at the end of the report, or at an
    /// empty line; an error for a malformed group header or path line, or an
    /// early end, after which the iterator yields nothing more.
    pub fn next(&mut self) -> (r: Result<Option<FileGroup>, ReportError>)
        requires
            old(self).pos <= old(self).text@.len(),
        ensures
            final(self).text == old(self).text,
            final(self).pos <= final(self).text@.len(),
            old(self).stopped_on_error ==> (r matches Ok(None) && final(self).pos == old(self).pos
                && final(self).stopped_on_error),
            !old(self).stopped_on_error ==> match group_step(old(self).text@, old(self).pos as int) {
                GroupStep::End { next } => r matches Ok(None) && final(self).pos == next
                    && !final(self).stopped_on_error,
                GroupStep::Group { len, hash, paths, next } => r matches Ok(Some(g))
                    && g.file_len.0 as nat == len && g.file_hash.0 as nat == hash && g.paths()
                    == paths && final(self).pos == next && !final(self).stopped_on_error,
                GroupStep::BadHeader { line, next } => r matches Err(
                    ReportError::MalformedGroupHeader(s),
                ) && s@ == line && final(self).pos == next && final(self).stopped_on_error,
                GroupStep::BadPath { line, next } => r matches Err(ReportError::PathExpected(s))
                    && s@ == line && final(self).pos == next && final(self).stopped_on_error,
                GroupStep::Eof { next } => r == Err::<Option<FileGroup>, ReportError>(
                    ReportError::UnexpectedEof,
                ) && final(self).pos == next && final(self).stopped_on_error,
            },
    {
        if self.stopped_on_error {
            return Ok(None);
        }
        match self.read_group_header() {
            Ok(Some(header)) => match self.read_paths(header.2) {
                Ok(paths) => Ok(
                    Some(FileGroup { file_len: FileLen(header.0), file_hash: FileHash(header.1), files: paths }),
                ),
                Err(e) => {
                    self.stopped_on_error = true;
                    Err(e)
                },
            },
            Ok(None) => Ok(None),
            Err(e) => {
                self.stopped_on_error = true;
                Err(e)
            },
        }
    }
}


/// The view of a group: length, hash and paths.
pub open spec fn group_view(g: FileGroup) -> (nat, nat, Seq<Seq<char>>) {
    (g.file_len.0 as nat, g.file_hash.0 as nat, g.paths())
}

/// The groups read from `pos` to the end of the report, or `None` where
/// reading them fails.
pub open spec fn groups_from(t: Seq<char>, pos: int) -> Option<Seq<(nat, nat, Seq<Seq<char>>)>>
    decreases t.len() - pos,
{
    match group_step(t, pos) {
        GroupStep::End { .. } => Some(Seq::empty()),
        GroupStep::Group { len, hash, paths, next } => if pos < next <= t.len() {
            match groups_from(t, next) {
                Some(rest) => Some(seq![(len, hash, paths)] + rest),
                None => None,
            }
        } else {
            None
        },
        _ => None,
    }
}

pub proof fn lemma_group_step(t: Seq<char>, pos: int)
    requires
        0 <= pos <= t.len(),
    ensures
        group_step(t, pos) matches GroupStep::Group { next, .. } ==> pos < next <= t.len(),
{
    lemma_first_content(t, pos);
    let (l, e) = first_content(t, pos);
    if let Some(l) = l {
        if let Some((len, hash, count)) = group_header_values(l) {
            lemma_paths_from(t, e, count, Seq::empty());
        }
    }
}

impl TextReportIterator {
    /// Reads all remaining groups; fails with the first error. After an
    /// error there are none left.
    pub fn collect(self) -> (r: Result<Vec<FileGroup>, ReportError>)
        requires
            self.pos <= self.text@.len(),
        ensures
            self.stopped_on_error ==> (r matches Ok(v) && v@.len() == 0),
            !self.stopped_on_error ==> match groups_from(self.text@, self.pos as int) {
                Some(gs) => r matches Ok(v) && v@.map_values(|g: FileGroup| group_view(g)) == gs,
                None => r is Err,
            },
    {
        if self.stopped_on_error {
            return Ok(Vec::new());
        }
        let mut it = self;
        let mut out: Vec<FileGroup> = Vec::new();
        let ghost t = it.text@;
        let ghost at0 = it.pos as int;
        assert(out@.map_values(|g: FileGroup| group_view(g)) =~= Seq::<(nat, nat, Seq<Seq<char>>)>::empty());
        loop
            invariant
                t == self.text@,
                at0 == self.pos as int,
                !self.stopped_on_error,
                it.text@ == t,
                it.pos <= t.len(),
                !it.stopped_on_error,
                groups_from(t, at0) == match groups_from(t, it.pos as int) {
                    Some(rest) => Some(out@.map_values(|g: FileGroup| group_view(g)) + rest),
                    None => None,
                },
            decreases t.len() - it.pos,
        {
            let ghost before = it.pos as int;
            proof {
                lemma_group_step(t, before);
            }
            proof {
                reveal_with_fuel(groups_from, 1);
            }
            let ghost step = group_step(t, before);
            match it.next() {
                Ok(Some(g)) => {
                    assert(step is Group);
                    let ghost prev = out@;
                    out.push(g);
                    proof {
                        assert(out@.map_values(|g: FileGroup| group_view(g)) =~= prev.map_values(
                            |g: FileGroup| group_view(g),
                        ).push(group_view(g)));
                        if let Some(rest) = groups_from(t, it.pos as int) {
                            assert(prev.map_values(|g: FileGroup| group_view(g)) + (seq![group_view(g)] + rest)
                                =~= out@.map_values(|g: FileGroup| group_view(g)) + rest);
                        }
                    }
                },
                Ok(None) => {
                    proof {
                        assert(step is End);
                        assert(groups_from(t, before) == Some(Seq::<(nat, nat, Seq<Seq<char>>)>::empty()));
                        assert(out@.map_values(|g: FileGroup| group_view(g)) + Seq::empty()
                            =~= out@.map_values(|g: FileGroup| group_view(g)));
                    }
                    return Ok(out);
                },
                Err(e) => {
                    assert(!(step is End) && !(step is Group));
                    assert(groups_from(t, before) is None);
                    return Err(e);
                },
            }
        }
    }
}

/// The values that a well-formed header of a text report holds.
pub struct HeaderView {
    pub version: Seq<char>,
    pub timestamp: (int, int, int),
    pub command: Seq<Seq<char>>,
    pub stats: Option<FileStats>,
}

/// Reads the statistics lines from `pos` on: where the line there is no
/// group count line, there are none, and `None` stands for them.
pub open spec fn stats_from(t: Seq<char>, pos: int) -> Result<Option<FileStats>, ReportError> {
    let e4 = line_end(t, pos);
    let e5 = line_end(t, e4);
    let l4 = trim(t.subrange(pos, e4));
    let l5 = trim(t.subrange(e4, e5));
    match group_count_capture(l4) {
        None => Ok(None),
        Some(gc) => if digits_value(gc, 10) > usize::MAX {
            Err(ReportError::BadGroupCount)
        } else {
            match stats_capture(l5) {
                None => Err(ReportError::MissingStats),
                Some((size, count)) => if digits_value(size, 10) > u64::MAX {
                    Err(ReportError::BadFileSize)
                } else if digits_value(count, 10) > usize::MAX {
                    Err(ReportError::BadFileCount)
                } else {
                    Ok(
                        Some(
                            FileStats {
                                group_count: digits_value(gc, 10) as usize,
                                redundant_file_count: digits_value(count, 10) as usize,
                                redundant_file_size: FileLen(digits_value(size, 10) as u64),
                            },
                        ),
                    )
                },
            }
        },
    }
}

/// Reads the header lines from `pos` on: version, timestamp and command,
/// then the statistics where they follow.
pub open spec fn header_from(t: Seq<char>, pos: int) -> Result<HeaderView, ReportError> {
    let e1 = line_end(t, pos);
    let e2 = line_end(t, e1);
    let e3 = line_end(t, e2);
    let l1 = trim(t.subrange(pos, e1));
    let l2 = trim(t.subrange(e1, e2));
    let l3 = trim(t.subrange(e2, e3));
    match version_capture(l1) {
        None => Err(ReportError::MissingVersion),
        Some(version) => match rest_capture(l2, "# Timestamp: "@) {
            None => Err(ReportError::MissingTimestamp),
            Some(ts) => match parsed_timestamp(ts) {
                None => Err(ReportError::BadTimestamp),
                Some(timestamp) => match rest_capture(l3, "# Command: "@) {
                    None => Err(ReportError::MissingCommand),
                    Some(c) => match shell_split_words(c) {
                        None => Err(ReportError::BadCommand),
                        Some(command) => match stats_from(t, e3) {
                            Err(e) => Err(e),
                            Ok(stats) => Ok(HeaderView { version, timestamp, command, stats }),
                        },
                    },
                },
            },
        },
    }
}

/// Where the header lines read from `pos` end: after the command line, or
/// after the statistics lines where they follow it.
pub open spec fn header_end(t: Seq<char>, pos: int) -> int {
    let e3 = line_end(t, line_end(t, line_end(t, pos)));
    let e4 = line_end(t, e3);
    if group_count_capture(trim(t.subrange(e3, e4))) is Some {
        line_end(t, e4)
    } else {
        e3
    }
}

/// A header read from a text report equals `v`.
pub open spec fn header_is(h: ReportHeader, v: HeaderView) -> bool {
    &&& h.version@ == v.version
    &&& (h.timestamp.secs as int, h.timestamp.nanos as int, h.timestamp.offset_secs as int)
        == v.timestamp
    &&& texts(h.command@) == v.command
    &&& h.stats == v.stats
}

/// Reads a text report: its header once, then its groups.
pub struct TextReportReader {
    pub stream: String,
    pub pos: usize,
    pub header_read: bool,
}

impl TextReportReader {
    pub fn new(stream: String) -> (r: TextReportReader)
        ensures
            r.stream == stream,
            r.pos == 0,
            !r.header_read,
    {
        TextReportReader { stream, pos: 0, header_read: false }
    }

    /// Reads the next line and returns it trimmed.
    pub fn read_line(&mut self) -> (r: String)
        requires
            old(self).pos <= old(self).stream@.len(),
        ensures
            final(self).stream == old(self).stream,
            final(self).header_read == old(self).header_read,
            final(self).pos == line_end(old(self).stream@, old(self).pos as int),
            final(self).pos <= final(self).stream@.len(),
            r@ == trim(old(self).stream@.subrange(old(self).pos as int, final(self).pos as int)),
    {
        let e = line_end_exec(self.stream.as_str(), self.pos);
        proof {
            lemma_line_end(self.stream@, self.pos as int);
        }
        let line = trim_range(self.stream.as_str(), self.pos, e);
        self.pos = e;
        line
    }

    /// Reads the header: version, timestamp and command, one line each, then
    /// the group count and file statistics lines where they follow. It can be
    /// read once, and must be read before the groups.
    pub fn read_header(&mut self) -> (r: Result<ReportHeader, ReportError>)
        requires
            old(self).pos <= old(self).stream@.len(),
        ensures
            final(self).stream == old(self).stream,
            final(self).pos <= final(self).stream@.len(),
            final(self).header_read,
            old(self).header_read ==> (r == Err::<ReportHeader, ReportError>(
                ReportError::HeaderAlreadyRead,
            ) && final(self).pos == old(self).pos),
            !old(self).header_read ==> match header_from(old(self).stream@, old(self).pos as int) {
                Ok(v) => r matches Ok(h) && header_is(h, v) && final(self).pos == header_end(
                    old(self).stream@,
                    old(self).pos as int,
                ),
                Err(e) => r == Err::<ReportHeader, ReportError>(e),
            },
    {
        if self.header_read {
            return Err(ReportError::HeaderAlreadyRead);
        }
        self.header_read = true;
        let l1 = self.read_line();
        let l2 = self.read_line();
        let l3 = self.read_line();
        let version = match match_version(l1.as_str()) {
            Some(v) => v,
            None => return Err(ReportError::MissingVersion),
        };
        let ts = match match_rest(l2.as_str(), "# Timestamp: ") {
            Some(v) => v,
            None => return Err(ReportError::MissingTimestamp),
        };
        let timestamp = match parse_timestamp(ts.as_str()) {
            Some(v) => v,
            None => return Err(ReportError::BadTimestamp),
        };
        let c = match match_rest(l3.as_str(), "# Command: ") {
            Some(v) => v,
            None => return Err(ReportError::MissingCommand),
        };
        let command = match shell_split(c.as_str()) {
            Some(v) => v,
            None => return Err(ReportError::BadCommand),
        };
        let after_command = self.pos;
        let l4 = self.read_line();
        let gc = match match_group_count(l4.as_str()) {
            Some(v) => v,
            None => {
                self.pos = after_command;
                return Ok(ReportHeader { version, timestamp, command, stats: None });
            },
        };
        proof {
            reveal_strlit("# Found ");
            lemma_digit_run_all_dec(l4@, 8);
        }
        assert(gc@.subrange(0, gc@.len() as int) =~= gc@);
        let group_count = match parse_dec(gc.as_str(), 0, gc.unicode_len()) {
            Some(v) => v,
            None => return Err(ReportError::BadGroupCount),
        };
        if group_count > usize::MAX as u64 {
            return Err(ReportError::BadGroupCount);
        }
        let l5 = self.read_line();
        let (size, count) = match match_stats(l5.as_str()) {
            Some(v) => v,
            None => return Err(ReportError::MissingStats),
        };
        proof {
            reveal_strlit("# ");
            reveal_strlit(" B (");
            reveal_strlit(") in ");
            lemma_digit_run_all_dec(l5@, 2);
            lemma_digit_run_all_dec(l5@, crate::scan::find_char(l5@, crate::scan::digit_run(l5@, 2) + 4, ')') + 5);
        }
        assert(size@.subrange(0, size@.len() as int) =~= size@);
        let size_v = match parse_dec(size.as_str(), 0, size.unicode_len()) {
            Some(v) => v,
            None => return Err(ReportError::BadFileSize),
        };
        assert(count@.subrange(0, count@.len() as int) =~= count@);
        let count_v = match parse_dec(count.as_str(), 0, count.unicode_len()) {
            Some(v) => v,
            None => return Err(ReportError::BadFileCount),
        };
        if count_v > usize::MAX as u64 {
            return Err(ReportError::BadFileCount);
        }
        Ok(ReportHeader {
            version,
            timestamp,
            command,
            stats: Some(FileStats {
                group_count: group_count as usize,
                redundant_file_count: count_v as usize,
                redundant_file_size: FileLen(size_v),
            }),
        })
    }

    /// Hands the rest of the report, after its header, to an iterator over
    /// its groups.
    pub fn read_groups(self) -> (r: Result<TextReportIterator, ReportError>)
        ensures
            self.header_read ==> (r matches Ok(it) && it.text == self.stream && it.pos == self.pos
                && !it.stopped_on_error),
            !self.header_read ==> r == Err::<TextReportIterator, ReportError>(
                ReportError::HeaderNotRead,
            ),
    {
        if !self.header_read {
            return Err(ReportError::HeaderNotRead);
        }
        Ok(TextReportIterator { text: self.stream, pos: self.pos, stopped_on_error: false })
    }
}

} // verus!

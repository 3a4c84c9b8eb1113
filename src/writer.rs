//! Writing reports in the text, fdupes and CSV formats.

use vstd::prelude::*;

use crate::chars::{dec_text, hex_text, push_char, push_dec, push_hex, push_str};
use crate::error::ReportError;
use crate::files::{texts, FileGroup, ReportHeader};
use crate::human::push_human_size;
use crate::outside::{csv_line, csv_record, cyan, format_timestamp, shell_join, timestamp_text, yellow};
use crate::text::{fdupes_group_text, fdupes_text, group_header_text, group_text, groups_text, header_line, header_text, path_line, paths_text};

verus! {

/// The fields of the CSV record of a group: length, hash, count and paths.
pub open spec fn csv_fields(g: FileGroup) -> Seq<Seq<char>> {
    seq![
        dec_text(g.file_len.0 as nat),
        hex_text(g.file_hash.0 as nat, 32),
        dec_text(g.files@.len()),
    ] + g.paths()
}

pub open spec fn csv_title() -> Seq<Seq<char>> {
    seq!["size"@, "hash"@, "count"@, "files"@]
}

/// The CSV text of the groups: the title record, then a record per group.
pub open spec fn csv_text(gs: Seq<FileGroup>) -> Seq<char>
    decreases gs.len(),
{
    if gs.len() == 0 {
        csv_line(csv_title())
    } else {
        csv_text(gs.drop_last()) + csv_line(csv_fields(gs.last()))
    }
}

/// Formats reports and appends them to a text buffer, in colour or not.
pub struct ReportWriter {
    pub out: String,
    pub color: bool,
}

impl ReportWriter {
    pub fn new(out: String, color: bool) -> (r: ReportWriter)
        ensures
            r.out == out,
            r.color == color,
    {
        ReportWriter { out, color }
    }

    /// The text written so far.
    pub fn into_output(self) -> (r: String)
        ensures
            r == self.out,
    {
        self.out
    }

    fn write_header_line(&mut self, line: &str)
        ensures
            final(self).out@ == old(self).out@ + header_line(line@, old(self).color),
            final(self).color == old(self).color,
    {
        let mut s = String::new();
        push_str(&mut s, "# ");
        push_str(&mut s, line);
        let c = cyan(s.as_str(), self.color);
        push_str(&mut self.out, c.as_str());
        push_char(&mut self.out, '\n');
        proof {
            reveal_strlit("# ");
            assert(final(self).out@ =~= old(self).out@ + header_line(line@, old(self).color));
        }
    }

    fn write_group(&mut self, g: &FileGroup)
        ensures
            final(self).out@ == old(self).out@ + group_text(*g, old(self).color),
            final(self).color == old(self).color,
    {
        let mut h = String::new();
        push_hex(&mut h, g.file_hash.0, 32);
        push_char(&mut h, ',');
        push_char(&mut h, ' ');
        push_dec(&mut h, g.file_len.0 as u128);
        push_char(&mut h, ' ');
        push_char(&mut h, 'B');
        push_char(&mut h, ' ');
        push_char(&mut h, '(');
        push_human_size(&mut h, g.file_len.0);
        push_char(&mut h, ')');
        push_char(&mut h, ' ');
        push_char(&mut h, '*');
        push_char(&mut h, ' ');
        push_dec(&mut h, g.files.len() as u128);
        push_char(&mut h, ':');
        assert(h@ =~= group_header_text(
            g.file_len.0 as nat,
            g.file_hash.0 as nat,
            g.files@.len(),
        ));
        let c = yellow(h.as_str(), self.color);
        push_str(&mut self.out, c.as_str());
        push_char(&mut self.out, '\n');
        let ghost start = self.out@;
        let mut i: usize = 0;
        while i < g.files.len()
            invariant
                0 <= i <= g.files@.len(),
                self.color == old(self).color,
                self.out@ == start + paths_text(g.paths().take(i as int)),
            decreases g.files@.len() - i,
        {
            let ghost before = self.out@;
            push_char(&mut self.out, ' ');
            push_char(&mut self.out, ' ');
            push_char(&mut self.out, ' ');
            push_char(&mut self.out, ' ');
            push_str(&mut self.out, g.files[i].as_str());
            push_char(&mut self.out, '\n');
            proof {
                let ps = g.paths().take(i + 1);
                assert(ps.drop_last() =~= g.paths().take(i as int));
                assert(ps.last() == g.files@[i as int]@);
                assert(self.out@ =~= before + path_line(g.files@[i as int]@));
            }
            i = i + 1;
        }
        proof {
            assert(g.paths().take(i as int) =~= g.paths());
            assert(final(self).out@ =~= old(self).out@ + group_text(*g, old(self).color));
        }
    }

    /// Writes the report in the text format: the header lines, then each
    /// group. Fails, writing nothing, where the timestamp cannot be rendered.
    pub fn write_as_text(&mut self, header: &ReportHeader, groups: &Vec<FileGroup>) -> (r: Result<
        (),
        ReportError,
    >)
        ensures
            final(self).color == old(self).color,
            match timestamp_text(
                header.timestamp.secs as int,
                header.timestamp.nanos as int,
                header.timestamp.offset_secs as int,
            ) {
                Some(ts) => r is Ok && final(self).out@ == old(self).out@ + header_text(
                    *header,
                    ts,
                    old(self).color,
                ) + groups_text(groups@, old(self).color),
                None => r == Err::<(), ReportError>(ReportError::TimestampOutOfRange)
                    && final(self).out == old(self).out,
            },
    {
        let ts = match format_timestamp(header.timestamp) {
            Some(ts) => ts,
            None => return Err(ReportError::TimestampOutOfRange),
        };
        let ghost start = self.out@;
        let mut line = String::new();
        push_str(&mut line, "Report by fclones ");
        push_str(&mut line, header.version.as_str());
        self.write_header_line(line.as_str());
        let mut line = String::new();
        push_str(&mut line, "Timestamp: ");
        push_str(&mut line, ts.as_str());
        self.write_header_line(line.as_str());
        let command = shell_join(&header.command);
        let mut line = String::new();
        push_str(&mut line, "Command: ");
        push_str(&mut line, command.as_str());
        self.write_header_line(line.as_str());
        match &header.stats {
            Some(st) => {
                let mut line = String::new();
                push_str(&mut line, "Found ");
                push_dec(&mut line, st.group_count as u128);
                push_str(&mut line, " file groups");
                self.write_header_line(line.as_str());
                let mut line = String::new();
                push_dec(&mut line, st.redundant_file_size.0 as u128);
                push_str(&mut line, " B (");
                push_human_size(&mut line, st.redundant_file_size.0);
                push_str(&mut line, ") in ");
                push_dec(&mut line, st.redundant_file_count as u128);
                push_str(&mut line, " redundant files can be removed");
                self.write_header_line(line.as_str());
            },
            None => {},
        }
        proof {
            let ts_v = ts@;
            assert(self.out@ =~= start + header_text(*header, ts_v, self.color));
        }
        let ghost mid = self.out@;
        let mut i: usize = 0;
        while i < groups.len()
            invariant
                0 <= i <= groups@.len(),
                self.color == old(self).color,
                self.out@ == mid + groups_text(groups@.take(i as int), self.color),
            decreases groups@.len() - i,
        {
            self.write_group(&groups[i]);
            proof {
                let gs = groups@.take(i + 1);
                assert(gs.drop_last() =~= groups@.take(i as int));
            }
            i = i + 1;
        }
        proof {
            assert(groups@.take(i as int) =~= groups@);
        }
        Ok(())
    }

    /// Writes the groups in the format of `fdupes`: the paths of each group,
    /// one per line, and an empty line after each group.
    pub fn write_as_fdupes(&mut self, _header: &ReportHeader, groups: &Vec<FileGroup>)
        ensures
            final(self).color == old(self).color,
            final(self).out@ == old(self).out@ + fdupes_text(groups@),
    {
        let ghost start = self.out@;
        let mut i: usize = 0;
        while i < groups.len()
            invariant
                0 <= i <= groups@.len(),
                self.color == old(self).color,
                self.out@ == start + fdupes_text(groups@.take(i as int)),
            decreases groups@.len() - i,
        {
            let g = &groups[i];
            let ghost before = self.out@;
            let mut j: usize = 0;
            proof {
                assert(self.out@.skip(before.len() as int) =~= Seq::<char>::empty());
                assert(g.paths().skip(0) =~= g.paths());
                assert(self.out@.take(before.len() as int) =~= before);
            }
            while j < g.files.len()
                invariant
                    0 <= j <= g.files@.len(),
                    self.color == old(self).color,
                    fdupes_group_text(g.paths()) == self.out@.skip(before.len() as int)
                        + fdupes_group_text(g.paths().skip(j as int)),
                    self.out@.len() >= before.len(),
                    self.out@.take(before.len() as int) == before,
                decreases g.files@.len() - j,
            {
                let ghost prev = self.out@;
                push_str(&mut self.out, g.files[j].as_str());
                push_char(&mut self.out, '\n');
                proof {
                    let rest = g.paths().skip(j as int);
                    assert(rest.drop_first() =~= g.paths().skip(j + 1));
                    assert(rest[0] == g.files@[j as int]@);
                    assert(self.out@.skip(before.len() as int) =~= prev.skip(before.len() as int)
                        + g.files@[j as int]@ + seq!['\n']);
                    assert(self.out@.take(before.len() as int) =~= prev.take(before.len() as int));
                }
                j = j + 1;
            }
            let ghost prev = self.out@;
            push_char(&mut self.out, '\n');
            proof {
                assert(g.paths().skip(j as int).len() == 0);
                assert(self.out@ =~= before + fdupes_group_text(g.paths()));
                let gs = groups@.take(i + 1);
                assert(gs.drop_last() =~= groups@.take(i as int));
            }
            i = i + 1;
        }
        proof {
            assert(groups@.take(i as int) =~= groups@);
        }
    }

    /// Writes the groups as CSV: a title record, then one record per group
    /// with its length, hash, number of files and paths.
    pub fn write_as_csv(&mut self, _header: &ReportHeader, groups: &Vec<FileGroup>)
        ensures
            final(self).color == old(self).color,
            final(self).out@ == old(self).out@ + csv_text(groups@),
    {
        let mut title: Vec<String> = Vec::new();
        title.push("size".to_string());
        title.push("hash".to_string());
        title.push("count".to_string());
        title.push("files".to_string());
        assert(texts(title@) =~= csv_title());
        let mut acc = csv_record(&title);
        let mut i: usize = 0;
        while i < groups.len()
            invariant
                0 <= i <= groups@.len(),
                csv_text(groups@.take(i as int)) == acc@,
            decreases groups@.len() - i,
        {
            let g = &groups[i];
            let mut fields: Vec<String> = Vec::new();
            let mut s = String::new();
            push_dec(&mut s, g.file_len.0 as u128);
            fields.push(s);
            let mut s = String::new();
            push_hex(&mut s, g.file_hash.0, 32);
            fields.push(s);
            let mut s = String::new();
            push_dec(&mut s, g.files.len() as u128);
            fields.push(s);
            let mut j: usize = 0;
            assert(texts(fields@) =~= csv_fields(*g).take(3));
            while j < g.files.len()
                invariant
                    0 <= j <= g.files@.len(),
                    texts(fields@) == csv_fields(*g).take(3 + j),
                    fields@.len() == 3 + j,
                    csv_fields(*g).len() == 3 + g.files@.len(),
                decreases g.files@.len() - j,
            {
                let ghost prev = fields@;
                let p = g.files[j].clone();
                fields.push(p);
                proof {
                    assert(p@ == g.files@[j as int]@);
                    assert(fields@ == prev.push(p));
                    assert(csv_fields(*g)[3 + j] == g.paths()[j as int]);
                    let want = csv_fields(*g).take(3 + j + 1);
                    assert forall|k: int| 0 <= k < want.len() implies texts(fields@)[k]
                        == want[k] by {
                        if k < 3 + j {
                            assert(texts(prev)[k] == csv_fields(*g).take(3 + j)[k]);
                            assert(fields@[k] == prev[k]);
                        } else {
                            assert(fields@[k] == p);
                        }
                    }
                    assert(texts(fields@) =~= want);
                }
                j = j + 1;
            }
            assert(csv_fields(*g).take(3 + j) =~= csv_fields(*g));
            let line = csv_record(&fields);
            push_str(&mut acc, line.as_str());
            proof {
                let gs = groups@.take(i + 1);
                assert(gs.drop_last() =~= groups@.take(i as int));
            }
            i = i + 1;
        }
        proof {
            assert(groups@.take(i as int) =~= groups@);
        }
        push_str(&mut self.out, acc.as_str());
    }
}

} // verus!

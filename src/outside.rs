//! The calls into outside crates that the report logic relies on.

use vstd::prelude::*;

use crate::files::{texts, Timestamp};

verus! {

/// The format of timestamps in text reports.
pub const TIMESTAMP_FMT: &'static str = "%Y-%m-%d %H:%M:%S.%3f %z";

/// What chrono writes for an instant in `TIMESTAMP_FMT`, or `None` where
/// chrono cannot represent the instant or the offset.
pub uninterp spec fn timestamp_text(secs: int, nanos: int, offset_secs: int) -> Option<Seq<char>>;

/// The instant that chrono reads from a text in `TIMESTAMP_FMT`, where it
/// reads one.
pub uninterp spec fn parsed_timestamp(s: Seq<char>) -> Option<(int, int, int)>;

/// What shell_words::join makes of a sequence of words.
pub uninterp spec fn shell_joined(words: Seq<Seq<char>>) -> Seq<char>;

/// The words that shell_words::split reads from a text, where it reads them.
pub uninterp spec fn shell_split_words(s: Seq<char>) -> Option<Seq<Seq<char>>>;

/// The record line that the csv writer produces for the fields.
pub uninterp spec fn csv_line(fields: Seq<Seq<char>>) -> Seq<char>;

/// What regex's `Regex::replace_all` makes of `text` with every match of
/// `pattern` replaced by nothing, or `None` where `pattern` does not compile.
pub uninterp spec fn regex_removed_all(pattern: Seq<char>, text: Seq<char>) -> Option<Seq<char>>;

/// What regex's `Regex::replace` makes of `text` with the first match of
/// `pattern` replaced by nothing, or `None` where `pattern` does not compile.
pub uninterp spec fn regex_removed_first(pattern: Seq<char>, text: Seq<char>) -> Option<Seq<char>>;

/// `s` between the escape sequences that set the foreground colour with the
/// given code and reset it.
pub open spec fn ansi_colored(code: char, s: Seq<char>) -> Seq<char> {
    seq!['\u{1b}', '[', '3', code, 'm'] + s + seq!['\u{1b}', '[', '0', 'm']
}

/// Relies on chrono's `FixedOffset::east_opt`, `DateTime::from_timestamp`
/// and `DateTime::format`: renders an instant in `TIMESTAMP_FMT`.
#[verifier::external_body]
pub(crate) fn format_timestamp(t: Timestamp) -> (r: Option<String>)
    ensures
        match r {
            Some(s) => timestamp_text(t.secs as int, t.nanos as int, t.offset_secs as int) == Some(s@),
            None => timestamp_text(t.secs as int, t.nanos as int, t.offset_secs as int) is None,
        },
        !(-86_400 < t.offset_secs < 86_400) ==> r is None,
{
    let offset = chrono::FixedOffset::east_opt(t.offset_secs)?;
    let utc = chrono::DateTime::from_timestamp(t.secs, t.nanos)?;
    Some(utc.with_timezone(&offset).format(TIMESTAMP_FMT).to_string())
}

/// Relies on chrono's `DateTime::parse_from_str`: reads an instant in
/// `TIMESTAMP_FMT`.
#[verifier::external_body]
pub(crate) fn parse_timestamp(s: &str) -> (r: Option<Timestamp>)
    ensures
        match r {
            Some(t) => parsed_timestamp(s@) == Some(
                (t.secs as int, t.nanos as int, t.offset_secs as int),
            ),
            None => parsed_timestamp(s@) is None,
        },
{
    let dt = chrono::DateTime::parse_from_str(s, TIMESTAMP_FMT).ok()?;
    Some(Timestamp {
        secs: dt.timestamp(),
        nanos: dt.timestamp_subsec_nanos(),
        offset_secs: dt.offset().local_minus_utc(),
    })
}

/// Relies on `shell_words::join`: quotes each word and joins them with
/// spaces.
#[verifier::external_body]
pub(crate) fn shell_join(words: &Vec<String>) -> (r: String)
    ensures
        r@ == shell_joined(texts(words@)),
{
    shell_words::join(words.iter())
}

/// Relies on `shell_words::split`: splits a command line into words.
#[verifier::external_body]
pub(crate) fn shell_split(s: &str) -> (r: Option<Vec<String>>)
    ensures
        match r {
            Some(v) => shell_split_words(s@) == Some(texts(v@)),
            None => shell_split_words(s@) is None,
        },
{
    shell_words::split(s).ok()
}

/// Relies on console's `style(..).cyan().force_styling(..)`: with styling
/// forced on, the text is wrapped in the cyan escape codes; forced off, it is
/// left as it is.
#[verifier::external_body]
pub(crate) fn cyan(s: &str, color: bool) -> (r: String)
    ensures
        r@ == if color {
            ansi_colored('6', s@)
        } else {
            s@
        },
{
    console::style(s).cyan().force_styling(color).to_string()
}

/// Relies on console's `style(..).yellow().force_styling(..)`: with styling
/// forced on, the text is wrapped in the yellow escape codes; forced off, it
/// is left as it is.
#[verifier::external_body]
pub(crate) fn yellow(s: &str, color: bool) -> (r: String)
    ensures
        r@ == if color {
            ansi_colored('3', s@)
        } else {
            s@
        },
{
    console::style(s).yellow().force_styling(color).to_string()
}

/// Relies on csv's `Writer::write_record` and `Writer::into_inner`, with
/// comma delimiters, quoting where necessary and records of any length:
/// renders one record, line end included. Writing into a `Vec` cannot fail,
/// and the record of UTF-8 fields is UTF-8.
#[verifier::external_body]
pub(crate) fn csv_record(fields: &Vec<String>) -> (r: String)
    ensures
        r@ == csv_line(texts(fields@)),
{
    let mut w = csv::WriterBuilder::new()
        .delimiter(b',')
        .quote_style(csv::QuoteStyle::Necessary)
        .flexible(true)
        .from_writer(Vec::new());
    w.write_record(fields.iter()).expect("writing into a Vec cannot fail");
    let bytes = w.into_inner().expect("flushing into a Vec cannot fail");
    String::from_utf8(bytes).expect("a record of UTF-8 fields is UTF-8")
}

/// Relies on regex's `Regex::new` and `Regex::replace_all`: removes every
/// match of the pattern.
#[verifier::external_body]
pub(crate) fn remove_all_matches(pattern: &str, text: &str) -> (r: Option<String>)
    ensures
        match r {
            Some(s) => regex_removed_all(pattern@, text@) == Some(s@),
            None => regex_removed_all(pattern@, text@) is None,
        },
{
    let re = regex::Regex::new(pattern).ok()?;
    Some(re.replace_all(text, "").into_owned())
}

/// Relies on regex's `Regex::new` and `Regex::replace`: removes the first
/// match of the pattern.
#[verifier::external_body]
pub(crate) fn remove_first_match(pattern: &str, text: &str) -> (r: Option<String>)
    ensures
        match r {
            Some(s) => regex_removed_first(pattern@, text@) == Some(s@),
            None => regex_removed_first(pattern@, text@) is None,
        },
{
    let re = regex::Regex::new(pattern).ok()?;
    Some(re.replace(text, "").into_owned())
}

impl Timestamp {
    /// Reads an instant written in `TIMESTAMP_FMT`, such as
    /// `2021-08-27 12:11:23.456 +0000`.
    pub fn parse(s: &str) -> (r: Option<Timestamp>)
        ensures
            match r {
                Some(t) => parsed_timestamp(s@) == Some(
                    (t.secs as int, t.nanos as int, t.offset_secs as int),
                ),
                None => parsed_timestamp(s@) is None,
            },
    {
        parse_timestamp(s)
    }

    /// Renders the instant in `TIMESTAMP_FMT`, where it can be represented.
    pub fn format(&self) -> (r: Option<String>)
        ensures
            match r {
                Some(s) => timestamp_text(self.secs as int, self.nanos as int, self.offset_secs as int)
                    == Some(s@),
                None => timestamp_text(self.secs as int, self.nanos as int, self.offset_secs as int) is None,
            },
    {
        format_timestamp(*self)
    }
}

} // verus!

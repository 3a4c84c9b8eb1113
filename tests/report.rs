use fclones_report::detect::detect_format;
use fclones_report::error::ReportError;
use fclones_report::files::{FileGroup, FileHash, FileLen, FileStats, OutputFormat, ReportHeader, Timestamp};
use fclones_report::reader::{TextReportIterator, TextReportReader};
use fclones_report::writer::ReportWriter;

fn dummy_report_header() -> ReportHeader {
    ReportHeader {
        command: vec!["fclones".to_owned(), "find".to_owned(), ".".to_owned()],
        version: "0.1.0".to_owned(),
        timestamp: Timestamp::parse("2021-08-27 12:11:23.456 +0000").unwrap(),
        stats: Some(FileStats {
            group_count: 4,
            redundant_file_count: 234,
            redundant_file_size: FileLen(1000),
        }),
    }
}

fn two_groups() -> Vec<FileGroup> {
    vec![
        FileGroup {
            file_len: FileLen(100),
            file_hash: FileHash(0x00112233445566778899aabbccddeeff),
            files: vec!["a".to_owned(), "b".to_owned()],
        },
        FileGroup {
            file_len: FileLen(40),
            file_hash: FileHash(0x0000000000000555555555ffffffffff),
            files: vec!["c".to_owned(), "d".to_owned()],
        },
    ]
}

fn text_report(header: &ReportHeader, groups: &Vec<FileGroup>) -> String {
    let mut writer = ReportWriter::new(String::new(), false);
    writer.write_as_text(header, groups).unwrap();
    writer.into_output()
}

#[test]
fn test_text_report_reader_reads_header() {
    let header1 = dummy_report_header();
    let groups: Vec<FileGroup> = vec![];
    let output = text_report(&header1, &groups);

    let mut reader = TextReportReader::new(output);
    let header2 = reader.read_header().unwrap();
    assert_eq!(header2.version, header1.version);
    assert_eq!(header2.command, header1.command);
    assert_eq!(header2.timestamp.timestamp(), header1.timestamp.timestamp());
    assert_eq!(header2.stats, header1.stats);
}

#[test]
fn test_text_report_reader_reads_files() {
    let header = dummy_report_header();
    let groups = two_groups();
    let output = text_report(&header, &groups);

    let mut reader = TextReportReader::new(output);
    reader.read_header().unwrap();
    let groups2: Vec<FileGroup> = reader.read_groups().unwrap().collect().unwrap();
    assert_eq!(groups, groups2);
}

#[test]
fn test_text_report_iterator_stops_on_error() {
    let mut output = String::new();
    output.push_str("7d6ebf613bf94dfd976d169ff6ae02c3, 4 B (4 B) * 2:\n");
    output.push_str("    /file1\n");
    output.push_str("    /file2\n");
    output.push_str("malformed group header:\n");
    output.push_str("    /file1\n");
    output.push_str("    /file2\n");

    let mut group_iterator = TextReportIterator::new(output);
    assert!(group_iterator.next().is_ok());
    assert!(group_iterator.next().is_err());
    assert!(group_iterator.next().unwrap().is_none());
}

#[test]
fn test_text_report_iterator_handles_windows_endlines() {
    let mut output = String::new();
    output.push_str("7d6ebf613bf94dfd976d169ff6ae02c3, 4 B (4 B) * 2:\r\n");
    output.push_str("    /file1\r\n");
    output.push_str("    /file2\r\n");
    output.push_str("7d6edf123096e5f4b7fcd002351faccc, 4 B (4 B) * 2:\r\n");
    output.push_str("    /file3\r\n");
    output.push_str("    /file4\r\n");

    let mut group_iterator = TextReportIterator::new(output);
    let g = group_iterator.next().unwrap().unwrap();
    assert!(g.files.contains(&"/file1".to_owned()));
    assert!(g.files.contains(&"/file2".to_owned()));
    let g = group_iterator.next().unwrap().unwrap();
    assert!(g.files.contains(&"/file3".to_owned()));
    assert!(g.files.contains(&"/file4".to_owned()));
}

#[test]
fn text_format_of_a_group() {
    let header = dummy_report_header();
    let groups = vec![FileGroup {
        file_len: FileLen(6626689),
        file_hash: FileHash(0x5649a555c131508c4a757d9e14c4aea6),
        files: vec!["/x/a".to_owned(), "/y/b".to_owned()],
    }];
    let mut writer = ReportWriter::new(String::new(), false);
    writer.write_as_text(&header, &groups).unwrap();
    let text = writer.into_output();
    let expected_header = "# Report by fclones 0.1.0\n\
        # Timestamp: 2021-08-27 12:11:23.456 +0000\n\
        # Command: fclones find .\n\
        # Found 4 file groups\n\
        # 1000 B (1.0 KB) in 234 redundant files can be removed\n";
    let expected_group = "5649a555c131508c4a757d9e14c4aea6, 6626689 B (6.6 MB) * 2:\n    /x/a\n    /y/b\n";
    assert_eq!(text, format!("{}{}", expected_header, expected_group));
}

#[test]
fn colored_text_wraps_lines_in_escape_codes() {
    let header = dummy_report_header();
    let groups = vec![FileGroup {
        file_len: FileLen(4),
        file_hash: FileHash(1),
        files: vec!["/a".to_owned()],
    }];
    let mut writer = ReportWriter::new(String::new(), true);
    writer.write_as_text(&header, &groups).unwrap();
    let text = writer.into_output();
    assert!(text.starts_with("\u{1b}[36m# Report by fclones 0.1.0\u{1b}[0m\n"));
    assert!(text.ends_with(
        "\u{1b}[33m00000000000000000000000000000001, 4 B (4 B) * 1:\u{1b}[0m\n    /a\n"
    ));
}

#[test]
fn command_with_spaces_is_quoted_and_read_back() {
    let mut header = dummy_report_header();
    header.command = vec!["fclones".to_owned(), "group".to_owned(), "my dir".to_owned()];
    let text = text_report(&header, &vec![]);
    assert!(text.contains("# Command: fclones group 'my dir'\n"));
    let mut reader = TextReportReader::new(text);
    let header2 = reader.read_header().unwrap();
    assert_eq!(header2, header);
}

#[test]
fn header_round_trip_is_exact() {
    let header = dummy_report_header();
    let mut reader = TextReportReader::new(text_report(&header, &two_groups()));
    assert_eq!(reader.read_header().unwrap(), header);
}

#[test]
fn fdupes_format_lists_paths_with_blank_lines() {
    let header = dummy_report_header();
    let mut writer = ReportWriter::new(String::new(), false);
    writer.write_as_fdupes(&header, &two_groups());
    assert_eq!(writer.into_output(), "a\nb\n\nc\nd\n\n");
}

#[test]
fn csv_format_has_one_record_per_group() {
    let header = dummy_report_header();
    let mut groups = two_groups();
    groups[1].files[0] = "c,1".to_owned();
    let mut writer = ReportWriter::new(String::new(), false);
    writer.write_as_csv(&header, &groups);
    assert_eq!(
        writer.into_output(),
        "size,hash,count,files\n\
         100,00112233445566778899aabbccddeeff,2,a,b\n\
         40,0000000000000555555555ffffffffff,2,\"c,1\",d\n"
    );
}

#[test]
fn blank_line_ends_the_groups() {
    let text = "00000000000000000000000000000001, 4 B (4 B) * 1:\n    /a\n\n\
                00000000000000000000000000000002, 4 B (4 B) * 1:\n    /b\n"
        .to_owned();
    let groups = TextReportIterator::new(text).collect().unwrap();
    assert_eq!(groups.len(), 1);
}

#[test]
fn comment_lines_between_groups_are_skipped() {
    let text = "# a comment\n00000000000000000000000000000001, 4 B (4 B) * 1:\n    /a\n".to_owned();
    let groups = TextReportIterator::new(text).collect().unwrap();
    assert_eq!(groups[0].files, vec!["/a".to_owned()]);
    assert_eq!(groups[0].file_hash, FileHash(1));
    assert_eq!(groups[0].file_len, FileLen(4));
}

#[test]
fn missing_path_line_is_unexpected_eof() {
    let text = "00000000000000000000000000000001, 4 B (4 B) * 2:\n    /a\n".to_owned();
    let mut it = TextReportIterator::new(text);
    let e = it.next().unwrap_err();
    assert!(e.is_unexpected_eof());
}

#[test]
fn unindented_path_is_rejected() {
    let text = "00000000000000000000000000000001, 4 B (4 B) * 1:\n/a\n".to_owned();
    let mut it = TextReportIterator::new(text);
    assert_eq!(it.next(), Err(ReportError::PathExpected("/a\n".to_owned())));
}

#[test]
fn malformed_header_error_keeps_the_line() {
    let mut it = TextReportIterator::new("not a header\n".to_owned());
    assert_eq!(it.next(), Err(ReportError::MalformedGroupHeader("not a header".to_owned())));
}

#[test]
fn oversized_length_is_a_malformed_header() {
    let text = "00000000000000000000000000000001, 99999999999999999999 B (x) * 1:\n    /a\n".to_owned();
    let mut it = TextReportIterator::new(text);
    assert!(matches!(it.next(), Err(ReportError::MalformedGroupHeader(_))));
}

#[test]
fn header_errors_name_the_missing_line() {
    let mut r = TextReportReader::new("# Report by someone\n".to_owned());
    assert_eq!(r.read_header(), Err(ReportError::MissingVersion));
    let mut r = TextReportReader::new("# Report by fclones 1.2.3\n# Time: x\n".to_owned());
    assert_eq!(r.read_header(), Err(ReportError::MissingTimestamp));
    let mut r = TextReportReader::new("# Report by fclones 1.2.3\n# Timestamp: yesterday\n".to_owned());
    assert_eq!(r.read_header(), Err(ReportError::BadTimestamp));
    let base = "# Report by fclones 1.2.3\n# Timestamp: 2021-08-27 12:11:23.456 +0000\n";
    let mut r = TextReportReader::new(format!("{}# Cmd: x\n", base));
    assert_eq!(r.read_header(), Err(ReportError::MissingCommand));
    let mut r = TextReportReader::new(format!("{}# Command: 'unclosed\n", base));
    assert_eq!(r.read_header(), Err(ReportError::BadCommand));
    let with_cmd = format!("{}# Command: fclones group .\n", base);
    let mut r = TextReportReader::new(format!("{}# Found many file groups\n", with_cmd));
    assert_eq!(r.read_header().unwrap().stats, None);
    let mut r = TextReportReader::new(format!("{}# Found 99999999999999999999999 file groups\n", with_cmd));
    assert_eq!(r.read_header(), Err(ReportError::BadGroupCount));
    let with_count = format!("{}# Found 3 file groups\n", with_cmd);
    let mut r = TextReportReader::new(format!("{}# 10 B in 2 files\n", with_count));
    assert_eq!(r.read_header(), Err(ReportError::MissingStats));
    let mut r = TextReportReader::new(format!(
        "{}# 99999999999999999999 B (a lot) in 2 redundant files can be removed\n",
        with_count
    ));
    assert_eq!(r.read_header(), Err(ReportError::BadFileSize));
    let mut r = TextReportReader::new(format!(
        "{}# 10 B (10 B) in 99999999999999999999999 redundant files can be removed\n",
        with_count
    ));
    assert_eq!(r.read_header(), Err(ReportError::BadFileCount));
}

#[test]
fn format_is_detected_from_first_non_blank_character() {
    assert_eq!(detect_format("  {\"header\": {}}"), Ok(OutputFormat::Json));
    assert_eq!(detect_format("# Report by fclones 0.1.0"), Ok(OutputFormat::Default));
    assert_eq!(detect_format("\n\t# x"), Ok(OutputFormat::Default));
    assert_eq!(detect_format("hello"), Err(ReportError::UnknownFormat));
    assert_eq!(detect_format(""), Err(ReportError::UnknownFormat));
}

#[test]
fn timestamp_renders_in_report_format() {
    let t = Timestamp::parse("2021-08-27 12:11:23.456 +0200").unwrap();
    assert_eq!(t.offset_secs, 7200);
    assert_eq!(t.nanos, 456_000_000);
    assert_eq!(t.format().unwrap(), "2021-08-27 12:11:23.456 +0200");
}

#[test]
fn header_can_be_read_only_once() {
    let header = dummy_report_header();
    let mut reader = TextReportReader::new(text_report(&header, &two_groups()));
    assert!(reader.read_header().is_ok());
    assert_eq!(reader.read_header(), Err(ReportError::HeaderAlreadyRead));
    assert_eq!(reader.read_groups().unwrap().collect().unwrap(), two_groups());
}

#[test]
fn groups_need_the_header_first() {
    let header = dummy_report_header();
    let reader = TextReportReader::new(text_report(&header, &two_groups()));
    assert!(matches!(reader.read_groups(), Err(ReportError::HeaderNotRead)));
}

#[test]
fn path_error_also_ends_the_groups() {
    let text = "00000000000000000000000000000001, 4 B (4 B) * 1:\n/a\n\
                00000000000000000000000000000002, 4 B (4 B) * 1:\n    /b\n"
        .to_owned();
    let mut it = TextReportIterator::new(text);
    assert!(it.next().is_err());
    assert_eq!(it.next(), Ok(None));
}

#[test]
fn header_without_stats_reads_back_as_itself() {
    let mut header = dummy_report_header();
    header.stats = None;
    let text = text_report(&header, &two_groups());
    let mut reader = TextReportReader::new(text);
    assert_eq!(reader.read_header().unwrap(), header);
    assert_eq!(reader.read_groups().unwrap().collect().unwrap(), two_groups());
}

#[test]
fn header_without_stats_or_groups_reads_back() {
    let mut header = dummy_report_header();
    header.stats = None;
    let mut reader = TextReportReader::new(text_report(&header, &vec![]));
    assert_eq!(reader.read_header().unwrap(), header);
    assert_eq!(reader.read_groups().unwrap().collect().unwrap(), vec![]);
}

#[test]
fn collect_after_an_error_gives_no_groups() {
    let mut it = TextReportIterator::new("bad\n".to_owned());
    assert!(it.next().is_err());
    assert_eq!(it.collect(), Ok(vec![]));
}

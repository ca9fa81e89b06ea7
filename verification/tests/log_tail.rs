use open_telemetry_exporter::attributes::{base_attributes, Attribute};
use open_telemetry_exporter::log_tail::LogTail;
use open_telemetry_exporter::record::{LogEntry, Severity};
use open_telemetry_exporter::text::{char_is_whitespace, trimmed};

fn pairs(attributes: &[Attribute]) -> Vec<(String, String)> {
    attributes
        .iter()
        .map(|a| (a.key.clone(), a.value.clone()))
        .collect()
}

fn bodies(entries: &[LogEntry]) -> Vec<String> {
    entries.iter().map(|e| e.body.clone()).collect()
}

fn tail_at(offset: u64) -> LogTail {
    LogTail::new(
        "/var/log/app.log".to_string(),
        base_attributes(Some("host-1".to_string())),
        offset,
    )
}

#[test]
fn trimmed_removes_ascii_and_unicode_whitespace() {
    assert_eq!(trimmed("  hello world \r\n"), "hello world");
    assert_eq!(trimmed("\u{3000}\u{a0}x y\u{2028}\u{85}"), "x y");
    assert_eq!(trimmed(" \t\n "), "");
    assert_eq!(trimmed("inner  space"), "inner  space");
    assert!(char_is_whitespace('\u{1680}'));
    assert!(!char_is_whitespace('\u{200b}'));
    assert!(!char_is_whitespace('a'));
}

#[test]
fn new_tail_starts_at_end_of_file() {
    let tail = tail_at(1234);
    assert_eq!(tail.offset, 1234);
    assert_eq!(tail.path, "/var/log/app.log");
}

#[test]
fn resume_restarts_after_truncation() {
    let mut tail = tail_at(100);
    assert_eq!(tail.resume(150), 100);
    assert_eq!(tail.offset, 100);
    assert_eq!(tail.resume(100), 100);
    assert_eq!(tail.resume(40), 0);
    assert_eq!(tail.offset, 0);
}

#[test]
fn consume_emits_one_record_per_non_blank_line() {
    let mut tail = tail_at(10);
    let chunk: &[u8] = b"first line\n\n   \n  second\tline  \r\nthird";
    let (entries, status) = tail.consume(chunk);
    assert!(status.is_ok());
    assert_eq!(bodies(&entries), vec!["first line", "second\tline", "third"]);
    for entry in &entries {
        assert_eq!(entry.severity, Severity::Info);
        assert_eq!(
            pairs(&entry.attributes),
            vec![
                ("hostname".to_string(), "host-1".to_string()),
                ("file".to_string(), "/var/log/app.log".to_string()),
            ]
        );
    }
    assert_eq!(tail.offset, 10 + chunk.len() as u64);
}

#[test]
fn consume_of_nothing_keeps_offset() {
    let mut tail = tail_at(7);
    let (entries, status) = tail.consume(b"");
    assert!(status.is_ok());
    assert!(entries.is_empty());
    assert_eq!(tail.offset, 7);
}

#[test]
fn consume_stops_at_a_line_that_is_not_utf8() {
    let mut tail = tail_at(3);
    let (entries, status) = tail.consume(b"ok line\nbad \xff line\nlater\n");
    assert_eq!(bodies(&entries), vec!["ok line"]);
    let error = status.unwrap_err();
    assert_eq!(error.message, "stream did not contain valid UTF-8");
    assert_eq!(tail.offset, 3);
}

#[test]
fn consume_decodes_multibyte_text() {
    let mut tail = LogTail::new("/l".to_string(), base_attributes(None), 0);
    let text = "caf\u{e9} \u{2603}\n";
    let (entries, status) = tail.consume(text.as_bytes());
    assert!(status.is_ok());
    assert_eq!(bodies(&entries), vec!["caf\u{e9} \u{2603}"]);
    assert_eq!(pairs(&entries[0].attributes), vec![("file".to_string(), "/l".to_string())]);
    assert_eq!(tail.offset, text.len() as u64);
}

#[test]
fn split_reads_match_one_read() {
    let whole: &[u8] = b"a\n  b  \n\nc\nd";
    let mut one = tail_at(0);
    let (all, _) = one.consume(whole);
    let mut two = tail_at(0);
    let (first, _) = two.consume(&whole[..4]);
    let (second, _) = two.consume(&whole[4..]);
    let mut joined = bodies(&first);
    joined.extend(bodies(&second));
    assert_eq!(joined, bodies(&all));
    assert_eq!(one.offset, two.offset);
}

fn export_once(tail: &mut LogTail, file: &[u8]) -> (Vec<String>, bool) {
    let start = tail.resume(file.len() as u64) as usize;
    let (entries, status) = tail.consume(&file[start..]);
    (bodies(&entries), status.is_ok())
}

#[test]
fn growing_file_emits_each_line_once() {
    let mut file: Vec<u8> = b"old line\n".to_vec();
    let mut tail = tail_at(file.len() as u64);
    let mut emitted = vec![];
    for append in [&b"one\n"[..], b"", b"two\n  \nthree\n", b"four"] {
        file.extend_from_slice(append);
        let (bodies, ok) = export_once(&mut tail, &file);
        assert!(ok);
        emitted.extend(bodies);
        assert_eq!(tail.offset, file.len() as u64);
    }
    assert_eq!(emitted, vec!["one", "two", "three", "four"]);
}

#[test]
fn unchanged_file_exports_nothing_again() {
    let file: &[u8] = b"start\nnext line\n";
    let mut tail = tail_at(6);
    let (first, ok) = export_once(&mut tail, file);
    assert!(ok);
    assert_eq!(first, vec!["next line"]);
    let offset = tail.offset;
    let (second, ok) = export_once(&mut tail, file);
    assert!(ok);
    assert!(second.is_empty());
    assert_eq!(tail.offset, offset);
}

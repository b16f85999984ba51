use satscanner::log::{
    classify_level, contains_chars, log_panel_first_entry, size_after_append, LogWriter, SharedLog,
    MAX_FILE_SIZE, MAX_LOG_ENTRIES,
};
use satscanner::text::chars_of;

fn entry(level: &str, msg: &str) -> (String, String) {
    (level.to_string(), msg.to_string())
}

#[test]
fn shared_log_keeps_order() {
    let mut log = SharedLog::new();
    assert!(log.entries().is_empty());
    log.push("INFO".to_string(), "one".to_string());
    log.push("WARN".to_string(), "two".to_string());
    assert_eq!(log.entries(), vec![entry("INFO", "one"), entry("WARN", "two")]);
    assert_eq!(log.len(), 2);
}

#[test]
fn shared_log_drops_oldest_when_full() {
    let mut log = SharedLog::new();
    for i in 0..(MAX_LOG_ENTRIES + 3) {
        log.push("INFO".to_string(), format!("m{}", i));
    }
    let entries = log.entries();
    assert_eq!(entries.len(), MAX_LOG_ENTRIES);
    assert_eq!(entries[0].1, "m3");
    assert_eq!(entries[MAX_LOG_ENTRIES - 1].1, format!("m{}", MAX_LOG_ENTRIES + 2));
}

#[test]
fn writer_splits_lines_and_classifies() {
    let mut w = LogWriter::new();
    let out = w.write(b"2024-01-01T00:00:00Z  INFO sat: hello\n2024 ERROR x: boom\n");
    assert_eq!(
        out,
        vec![
            entry("INFO", "2024-01-01T00:00:00Z  INFO sat: hello"),
            entry("ERROR", "2024 ERROR x: boom"),
        ]
    );
    assert!(w.pending().is_empty());
}

#[test]
fn writer_waits_for_end_of_line() {
    let mut w = LogWriter::new();
    assert!(w.write(b"t  WARN par").is_empty());
    assert_eq!(w.pending(), &b"t  WARN par".to_vec());
    let out = w.write(b"tial\n  \nnext DEBUG");
    assert_eq!(out, vec![entry("WARN", "t  WARN partial")]);
    assert_eq!(w.pending(), &b"next DEBUG".to_vec());
}

#[test]
fn writer_chunking_does_not_matter() {
    let data: &[u8] = b"a  INFO one\r\nb DEBUG two\n\nc plain\nrest";
    let mut whole = LogWriter::new();
    let all = whole.write(data);
    for cut in 0..data.len() {
        let mut w = LogWriter::new();
        let mut out = w.write(&data[..cut]);
        out.extend(w.write(&data[cut..]));
        assert_eq!(out, all);
        assert_eq!(w.pending(), whole.pending());
    }
    assert_eq!(
        all,
        vec![entry("INFO", "a  INFO one"), entry("DEBUG", "b DEBUG two"), entry("TRACE", "c plain")]
    );
}

#[test]
fn writer_replaces_invalid_utf8() {
    let mut w = LogWriter::new();
    let out = w.write(&[b'x', 0xff, b'y', b'\n']);
    assert_eq!(out, vec![entry("TRACE", "x\u{fffd}y")]);
}

#[test]
fn level_needs_spaces_around_the_word() {
    assert_eq!(classify_level(&chars_of("ERROR at start")), "TRACE");
    assert_eq!(classify_level(&chars_of("x WARN y ERROR z")), "ERROR");
    assert_eq!(classify_level(&chars_of("x INFO y DEBUG z")), "INFO");
    assert!(contains_chars(&chars_of("abc"), &chars_of("")));
    assert!(!contains_chars(&chars_of("ab"), &chars_of("abc")));
    assert!(contains_chars(&chars_of("aab"), &chars_of("ab")));
}

#[test]
fn log_file_rotates_past_one_megabyte() {
    assert_eq!(MAX_FILE_SIZE, 1024 * 1024);
    assert_eq!(size_after_append(0, 10), (11, false));
    assert_eq!(size_after_append(MAX_FILE_SIZE - 11, 10), (MAX_FILE_SIZE, false));
    assert_eq!(size_after_append(MAX_FILE_SIZE - 10, 10), (MAX_FILE_SIZE + 1, true));
}

#[test]
fn log_panel_shows_latest_entries_that_fit() {
    assert_eq!(log_panel_first_entry(100, 13), 90);
    assert_eq!(log_panel_first_entry(5, 13), 0);
    assert_eq!(log_panel_first_entry(5, 2), 5);
    assert_eq!(log_panel_first_entry(0, 0), 0);
}

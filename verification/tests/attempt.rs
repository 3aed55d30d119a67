use stillrun::attempt::{Attempt, StreamId};
use stillrun::encoding::{LogRecord, TextEncoding, REPLACEMENT_CHARACTER};

fn record_texts(records: &[LogRecord]) -> Vec<String> {
    records.iter().map(|r| r.text.clone()).collect()
}

#[test]
fn new_attempt_has_two_open_streams() {
    let attempt = Attempt::new(TextEncoding::utf_8());
    assert!(attempt.is_open(StreamId::Stdout));
    assert!(attempt.is_open(StreamId::Stderr));
    assert!(!attempt.is_drained());
    assert_eq!(attempt.pending_len(StreamId::Stdout), 0);
    assert_eq!(attempt.pending_len(StreamId::Stderr), 0);
}

#[test]
fn attempt_is_drained_only_when_both_streams_ended() {
    let mut attempt = Attempt::new(TextEncoding::utf_8());
    assert!(attempt.on_end(StreamId::Stdout).is_none());
    assert!(!attempt.is_drained());
    assert!(!attempt.is_open(StreamId::Stdout));
    assert!(attempt.is_open(StreamId::Stderr));
    assert!(attempt.on_end(StreamId::Stderr).is_none());
    assert!(attempt.is_drained());
}

#[test]
fn hello_on_stdout_then_clean_end_gives_one_line() {
    let mut attempt = Attempt::new(TextEncoding::utf_8());
    let mut log = String::new();
    for record in attempt.on_bytes(StreamId::Stdout, b"hello\n") {
        log.push_str(&record.line());
    }
    if let Some(record) = attempt.on_end(StreamId::Stdout) {
        log.push_str(&record.line());
    }
    if let Some(record) = attempt.on_end(StreamId::Stderr) {
        log.push_str(&record.line());
    }
    assert!(attempt.is_drained());
    assert_eq!(log, "hello\n");
}

#[test]
fn command_without_output_logs_nothing() {
    let mut attempt = Attempt::new(TextEncoding::utf_8());
    assert!(attempt.on_end(StreamId::Stderr).is_none());
    assert!(attempt.on_end(StreamId::Stdout).is_none());
    assert!(attempt.is_drained());
}

#[test]
fn interleaved_reads_keep_each_stream_in_order() {
    let mut attempt = Attempt::new(TextEncoding::utf_8());
    let mut out = Vec::new();
    let mut err = Vec::new();
    out.extend(record_texts(&attempt.on_bytes(StreamId::Stdout, b"o1\no")));
    err.extend(record_texts(&attempt.on_bytes(StreamId::Stderr, b"e")));
    out.extend(record_texts(&attempt.on_bytes(StreamId::Stdout, b"2\n")));
    err.extend(record_texts(&attempt.on_bytes(StreamId::Stderr, b"1\ne2\n")));
    out.extend(record_texts(&attempt.on_bytes(StreamId::Stdout, b"o3")));
    err.extend(attempt.on_end(StreamId::Stderr).map(|r| r.text));
    out.extend(attempt.on_end(StreamId::Stdout).map(|r| r.text));
    assert_eq!(out, vec![String::from("o1"), String::from("o2"), String::from("o3")]);
    assert_eq!(err, vec![String::from("e1"), String::from("e2")]);
    assert!(attempt.is_drained());
}

#[test]
fn fragment_of_one_stream_is_not_mixed_into_the_other() {
    let mut attempt = Attempt::new(TextEncoding::utf_8());
    assert!(attempt.on_bytes(StreamId::Stdout, b"out").is_empty());
    let records = attempt.on_bytes(StreamId::Stderr, b"err\n");
    assert_eq!(record_texts(&records), vec![String::from("err")]);
    assert_eq!(attempt.pending_len(StreamId::Stdout), 3);
    assert_eq!(attempt.pending_len(StreamId::Stderr), 0);
}

#[test]
fn loud_stderr_with_silent_stdout_still_drains() {
    let mut attempt = Attempt::new(TextEncoding::utf_8());
    let chunk = vec![b'x'; 4096];
    let mut lines = 0;
    for i in 0..512 {
        lines += attempt.on_bytes(StreamId::Stderr, &chunk).len();
        if i % 4 == 3 {
            lines += attempt.on_bytes(StreamId::Stderr, b"\n").len();
        }
    }
    assert_eq!(lines, 128);
    assert!(attempt.is_open(StreamId::Stdout));
    assert_eq!(attempt.pending_len(StreamId::Stdout), 0);
    assert!(attempt.on_end(StreamId::Stderr).is_none());
    assert!(attempt.on_end(StreamId::Stdout).is_none());
    assert!(attempt.is_drained());
}

#[test]
fn read_error_ends_one_stream_only() {
    let mut attempt = Attempt::new(TextEncoding::utf_8());
    assert!(attempt.on_bytes(StreamId::Stdout, b"lost").is_empty());
    assert!(attempt.on_bytes(StreamId::Stderr, b"kept").is_empty());
    attempt.on_read_error(StreamId::Stdout);
    assert!(!attempt.is_open(StreamId::Stdout));
    assert!(attempt.is_open(StreamId::Stderr));
    assert_eq!(attempt.pending_len(StreamId::Stdout), 0);
    assert!(attempt.on_end(StreamId::Stdout).is_none());
    assert_eq!(attempt.on_end(StreamId::Stderr).unwrap().text, "kept");
    assert!(attempt.is_drained());
}

#[test]
fn malformed_bytes_on_one_stream_do_not_stop_either() {
    let mut attempt = Attempt::new(TextEncoding::utf_8());
    let bad = attempt.on_bytes(StreamId::Stderr, b"\xC3\x28\n");
    assert_eq!(bad.len(), 1);
    assert!(bad[0].had_errors);
    assert!(bad[0].text.contains(REPLACEMENT_CHARACTER));
    let good = attempt.on_bytes(StreamId::Stdout, b"fine\n");
    assert_eq!(record_texts(&good), vec![String::from("fine")]);
    let after = attempt.on_bytes(StreamId::Stderr, b"next\n");
    assert_eq!(record_texts(&after), vec![String::from("next")]);
    assert!(!after[0].had_errors);
}

#[test]
fn two_attempts_append_in_order() {
    let mut log: Vec<String> = Vec::new();
    let scripts: [(&[u8], &[u8]); 2] = [(b"a\nb\n", b"warn\n"), (b"c", b"")];
    let mut sizes = Vec::new();
    for (out, err) in scripts {
        let before = log.clone();
        let mut attempt = Attempt::new(TextEncoding::utf_8());
        log.extend(attempt.on_bytes(StreamId::Stdout, out).iter().map(|r| r.line()));
        log.extend(attempt.on_bytes(StreamId::Stderr, err).iter().map(|r| r.line()));
        log.extend(attempt.on_end(StreamId::Stdout).map(|r| r.line()));
        log.extend(attempt.on_end(StreamId::Stderr).map(|r| r.line()));
        assert!(attempt.is_drained());
        assert_eq!(&log[..before.len()], &before[..]);
        sizes.push(log.len());
    }
    assert_eq!(sizes, vec![3, 4]);
    assert_eq!(log, vec!["a\n", "b\n", "warn\n", "c\n"]);
}

#[test]
fn ended_stream_ignores_late_bytes() {
    let mut attempt = Attempt::new(TextEncoding::utf_8());
    assert!(attempt.on_end(StreamId::Stdout).is_none());
    assert!(attempt.on_bytes(StreamId::Stdout, b"late\n").is_empty());
    assert!(attempt.on_end(StreamId::Stdout).is_none());
    assert!(attempt.is_open(StreamId::Stderr));
}

use stillrun::encoding::{TextEncoding, MAX_DECODE_LEN, REPLACEMENT_CHARACTER};
use stillrun::pipeline::StreamPipeline;

fn texts(records: &[stillrun::encoding::LogRecord]) -> Vec<String> {
    records.iter().map(|r| r.text.clone()).collect()
}

#[test]
fn new_pipeline_is_open_and_empty() {
    let pipeline = StreamPipeline::new(TextEncoding::utf_8());
    assert!(pipeline.is_open());
    assert_eq!(pipeline.pending_len(), 0);
}

#[test]
fn echo_hello_gives_exactly_one_line() {
    let mut pipeline = StreamPipeline::new(TextEncoding::utf_8());
    let records = pipeline.on_bytes(b"hello\n");
    assert_eq!(texts(&records), vec![String::from("hello")]);
    assert_eq!(records[0].line(), "hello\n");
    assert!(!records[0].had_errors);
    assert!(pipeline.on_end().is_none());
    assert!(!pipeline.is_open());
}

#[test]
fn silent_stream_gives_no_records() {
    let mut pipeline = StreamPipeline::new(TextEncoding::utf_8());
    assert!(pipeline.on_end().is_none());
    assert!(!pipeline.is_open());
}

#[test]
fn line_split_across_reads_is_decoded_whole() {
    let mut pipeline = StreamPipeline::new(TextEncoding::utf_8());
    let bytes = "héllo\n".as_bytes();
    assert!(pipeline.on_bytes(&bytes[..2]).is_empty());
    assert_eq!(pipeline.pending_len(), 2);
    let records = pipeline.on_bytes(&bytes[2..]);
    assert_eq!(texts(&records), vec![String::from("héllo")]);
    assert!(!records[0].had_errors);
}

#[test]
fn unterminated_fragment_is_logged_at_end_of_stream() {
    let mut pipeline = StreamPipeline::new(TextEncoding::utf_8());
    let records = pipeline.on_bytes(b"a\nb");
    assert_eq!(texts(&records), vec![String::from("a")]);
    let last = pipeline.on_end().unwrap();
    assert_eq!(last.text, "b");
    assert_eq!(pipeline.pending_len(), 0);
}

#[test]
fn malformed_line_does_not_stop_the_pipeline() {
    let mut pipeline = StreamPipeline::new(TextEncoding::utf_8());
    let records = pipeline.on_bytes(b"good\nb\xFFd\nafter\n");
    assert_eq!(
        texts(&records),
        vec![String::from("good"), String::from("b\u{FFFD}d"), String::from("after")]
    );
    assert!(!records[0].had_errors);
    assert!(records[1].had_errors);
    assert!(records[1].text.contains(REPLACEMENT_CHARACTER));
    assert!(!records[2].had_errors);
    assert!(pipeline.is_open());
}

#[test]
fn lines_keep_their_order() {
    let mut pipeline = StreamPipeline::new(TextEncoding::utf_8());
    let mut stream = Vec::new();
    let mut expected = Vec::new();
    for i in 0..100u32 {
        stream.extend_from_slice(format!("line {}\n", i).as_bytes());
        expected.push(format!("line {}", i));
    }
    let mut got = Vec::new();
    for chunk in stream.chunks(7) {
        got.extend(texts(&pipeline.on_bytes(chunk)));
    }
    assert!(pipeline.on_end().is_none());
    assert_eq!(got, expected);
}

#[test]
fn gbk_pipeline_decodes_gbk_lines() {
    let mut pipeline = StreamPipeline::new(TextEncoding::gbk());
    let records = pipeline.on_bytes(b"\xC4\xE3\xBA\xC3\n");
    assert_eq!(texts(&records), vec![String::from("你好")]);
}

#[test]
fn read_error_drops_the_fragment_and_closes() {
    let mut pipeline = StreamPipeline::new(TextEncoding::utf_8());
    let records = pipeline.on_bytes(b"kept\npart");
    assert_eq!(texts(&records), vec![String::from("kept")]);
    pipeline.on_read_error();
    assert!(!pipeline.is_open());
    assert_eq!(pipeline.pending_len(), 0);
    assert!(pipeline.on_end().is_none());
}

#[test]
fn closed_pipeline_ignores_bytes() {
    let mut pipeline = StreamPipeline::new(TextEncoding::utf_8());
    assert!(pipeline.on_end().is_none());
    assert!(pipeline.on_bytes(b"late\n").is_empty());
    assert_eq!(pipeline.pending_len(), 0);
    assert!(pipeline.on_end().is_none());
}

#[test]
fn two_pipelines_do_not_affect_each_other() {
    let mut stdout = StreamPipeline::new(TextEncoding::utf_8());
    let mut stderr = StreamPipeline::new(TextEncoding::utf_8());
    assert!(stdout.on_bytes(b"out").is_empty());
    for _ in 0..1000 {
        let records = stderr.on_bytes(b"a long line on the error stream\n");
        assert_eq!(records.len(), 1);
    }
    assert!(stderr.on_end().is_none());
    assert!(stdout.is_open());
    assert_eq!(stdout.pending_len(), 3);
    assert_eq!(texts(&stdout.on_bytes(b"put\n")), vec![String::from("output")]);
}

#[test]
fn log_grows_by_one_line_per_line_over_two_attempts() {
    let mut log = String::new();
    let mut count = 0;
    for stream in [&b"a\nb\n"[..], &b"c\nd"[..]] {
        let before = log.clone();
        let mut pipeline = StreamPipeline::new(TextEncoding::utf_8());
        for record in pipeline.on_bytes(stream) {
            log.push_str(&record.line());
            count += 1;
        }
        if let Some(record) = pipeline.on_end() {
            log.push_str(&record.line());
            count += 1;
        }
        assert!(log.starts_with(&before));
    }
    assert_eq!(log, "a\nb\nc\nd\n");
    assert_eq!(count, 4);
}

#[test]
fn pending_bytes_are_within_the_decode_limit() {
    let mut pipeline = StreamPipeline::new(TextEncoding::utf_8());
    assert!(pipeline.on_bytes(b"abc").is_empty());
    assert!(pipeline.pending_len() <= MAX_DECODE_LEN);
}

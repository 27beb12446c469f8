use subsforge::error::SubsForgeError;
use subsforge::pipeline::srt::{extract_texts, parse, replace_texts, serialize, SubtitleEntry};

const SAMPLE_SRT: &str = "1\n00:00:01,000 --> 00:00:04,000\nHello world\n\n2\n00:00:05,000 --> 00:00:08,000\nHow are you?\n";

fn parse_error(content: &str) -> String {
    match parse(content) {
        Err(SubsForgeError::SrtParse(m)) => m,
        Err(e) => panic!("unexpected error: {}", e.message()),
        Ok(_) => panic!("parsed"),
    }
}

#[test]
fn test_parse() {
    let entries = parse(SAMPLE_SRT).unwrap();
    assert_eq!(entries.len(), 2);
    assert_eq!(entries[0].sequence, 1);
    assert_eq!(entries[0].text, "Hello world");
    assert_eq!(entries[1].text, "How are you?");
}

#[test]
fn test_roundtrip() {
    let entries = parse(SAMPLE_SRT).unwrap();
    let output = serialize(&entries);
    let reparsed = parse(&output).unwrap();
    assert_eq!(reparsed.len(), entries.len());
    assert_eq!(reparsed[0].text, entries[0].text);
}

#[test]
fn test_replace_texts() {
    let entries = parse(SAMPLE_SRT).unwrap();
    let translated = replace_texts(
        &entries,
        &["Bonjour le monde".into(), "Comment allez-vous ?".into()],
    )
    .unwrap();
    assert_eq!(translated[0].text, "Bonjour le monde");
    assert_eq!(translated[0].timestamp, entries[0].timestamp);
}

#[test]
fn parse_keeps_timing_and_multiline_text() {
    let content = "\n\n7\r\n 00:00:01,000 --> 00:00:02,000 \r\nfirst line\r\nsecond line\r\n\r\n\r\n8\n00:00:03,000 --> 00:00:04,000\nlast";
    let entries = parse(content).unwrap();
    assert_eq!(entries.len(), 2);
    assert_eq!(entries[0].sequence, 7);
    assert_eq!(entries[0].timestamp, "00:00:01,000 --> 00:00:02,000");
    assert_eq!(entries[0].text, "first line\nsecond line");
    assert_eq!(entries[1].sequence, 8);
    assert_eq!(entries[1].text, "last");
}

#[test]
fn parse_entry_without_text() {
    let entries = parse("1\n00:00:01,000 --> 00:00:02,000\n").unwrap();
    assert_eq!(entries.len(), 1);
    assert_eq!(entries[0].text, "");
}

#[test]
fn parse_rejects_bad_sequence_number() {
    assert_eq!(
        parse_error("x1\n00:00:01,000 --> 00:00:02,000\nHi\n"),
        "invalid sequence number: x1"
    );
    assert_eq!(
        parse_error("4294967296\n00:00:01,000 --> 00:00:02,000\nHi\n"),
        "invalid sequence number: 4294967296"
    );
    assert_eq!(parse("+3\n00:00:01,000 --> 00:00:02,000\nHi\n").unwrap()[0].sequence, 3);
}

#[test]
fn parse_rejects_missing_timestamp() {
    assert_eq!(parse_error("1\n"), "unexpected end: expected timestamp");
}

#[test]
fn parse_rejects_bad_timestamp() {
    assert_eq!(
        parse_error("1\n00:00:01,000 -> 00:00:02,000\nHi\n"),
        "invalid timestamp: 00:00:01,000 -> 00:00:02,000"
    );
}

#[test]
fn parse_rejects_empty_content() {
    assert_eq!(parse_error(""), "no subtitle entries found");
    assert_eq!(parse_error("\n  \n\t\n"), "no subtitle entries found");
}

#[test]
fn serialize_writes_blocks() {
    let entries = vec![
        SubtitleEntry { sequence: 1, timestamp: "a --> b".into(), text: "one".into() },
        SubtitleEntry { sequence: 20, timestamp: "c --> d".into(), text: "two\nlines".into() },
    ];
    assert_eq!(serialize(&entries), "1\na --> b\none\n\n20\nc --> d\ntwo\nlines\n");
    assert_eq!(serialize(&[]), "\n");
}

#[test]
fn serialize_then_parse_gives_entries_back() {
    let entries = vec![
        SubtitleEntry { sequence: 3, timestamp: "00:01 --> 00:02".into(), text: "a\nb".into() },
        SubtitleEntry { sequence: 9, timestamp: "00:03 --> 00:04".into(), text: "c".into() },
    ];
    let back = parse(&serialize(&entries)).unwrap();
    assert_eq!(back.len(), 2);
    for (x, y) in back.iter().zip(entries.iter()) {
        assert_eq!(x.sequence, y.sequence);
        assert_eq!(x.timestamp, y.timestamp);
        assert_eq!(x.text, y.text);
    }
}

#[test]
fn parse_serialize_parse_is_stable() {
    let content = "\n5\n  00:00:01,000 --> 00:00:02,000\nx\ny\n\n\n\n6\n00:00:02,000 --> 00:00:03,000\nz";
    let first = parse(content).unwrap();
    let second = parse(&serialize(&first)).unwrap();
    assert_eq!(first.len(), second.len());
    for (x, y) in first.iter().zip(second.iter()) {
        assert_eq!(x.sequence, y.sequence);
        assert_eq!(x.timestamp, y.timestamp);
        assert_eq!(x.text, y.text);
    }
}

#[test]
fn extract_texts_in_order() {
    let entries = parse(SAMPLE_SRT).unwrap();
    assert_eq!(extract_texts(&entries), vec!["Hello world".to_string(), "How are you?".to_string()]);
}

#[test]
fn replace_own_texts_changes_nothing() {
    let entries = parse(SAMPLE_SRT).unwrap();
    let again = replace_texts(&entries, &extract_texts(&entries)).unwrap();
    assert_eq!(serialize(&again), serialize(&entries));
}

#[test]
fn extract_after_replace_gives_replacement() {
    let entries = parse(SAMPLE_SRT).unwrap();
    let texts = vec!["Un".to_string(), "Deux".to_string()];
    assert_eq!(extract_texts(&replace_texts(&entries, &texts).unwrap()), texts);
}

#[test]
fn replace_texts_count_mismatch() {
    let entries = parse(SAMPLE_SRT).unwrap();
    match replace_texts(&entries, &["only one".to_string()]) {
        Err(e) => {
            assert_eq!(e.message(), "SRT parse error: entry count mismatch: 2 entries, 1 translations");
            assert!(matches!(e, SubsForgeError::SrtParse(_)));
        }
        Ok(_) => panic!("accepted"),
    }
}

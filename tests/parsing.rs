use srt_parser::{decode, CaptionBuilder, Duration, ParserState, SRTFile, SrtError, Stage};

fn lines(v: &[&str]) -> Vec<String> {
    v.iter().map(|s| s.to_string()).collect()
}

fn dur(secs: u64, nanos: u32) -> Duration {
    Duration { secs, nanos }
}

#[test]
fn decode_precision() {
    let d = decode("01:02:03,004").unwrap();
    assert_eq!(d, dur(3723, 4_000_000));
    assert_eq!(d.secs(), 3723);
    assert_eq!(d.subsec_nanos(), 4_000_000);
}

#[test]
fn decode_missing_token() {
    assert_eq!(decode("01:02,500"), Err(SrtError::TimestampParsingError));
}

#[test]
fn decode_accepts_either_separator() {
    assert_eq!(decode("00:00:01:500"), Ok(dur(1, 500_000_000)));
    assert_eq!(decode("00,00,01,500"), Ok(dur(1, 500_000_000)));
}

#[test]
fn decode_trims_whitespace() {
    assert_eq!(decode("  00:01:00,000\t"), Ok(dur(60, 0)));
}

#[test]
fn decode_folds_out_of_range_fields() {
    assert_eq!(decode("00:75:90,000"), Ok(dur(75 * 60 + 90, 0)));
    assert_eq!(decode("00:00:00,2500"), Ok(dur(2, 500_000_000)));
}

#[test]
fn decode_ignores_fields_after_the_fourth() {
    assert_eq!(decode("00:00:02,001:99"), Ok(dur(2, 1_000_000)));
}

#[test]
fn decode_numeric_errors() {
    assert_eq!(decode("aa:00:00,000"), Err(SrtError::NumericParseError));
    assert_eq!(decode("00:0x:00,000"), Err(SrtError::NumericParseError));
    assert_eq!(decode(""), Err(SrtError::NumericParseError));
    assert_eq!(decode("00:00:00,-1"), Err(SrtError::NumericParseError));
    assert_eq!(decode("00:00:00,4294967296"), Err(SrtError::NumericParseError));
    assert_eq!(decode("00:xx"), Err(SrtError::NumericParseError));
}

#[test]
fn decode_plus_sign_accepted() {
    assert_eq!(decode("+1:00:00,000"), Ok(dur(3600, 0)));
}

#[test]
fn decode_overflow() {
    assert_eq!(decode("18446744073709551615:00:00,000"), Err(SrtError::TimestampOverflow));
    assert_eq!(decode("00:00:18446744073709551615,000"), Ok(dur(u64::MAX, 0)));
}

#[test]
fn single_block_round_trip() {
    let f = SRTFile::new(&lines(&["7", "00:00:01,000 --> 00:00:02,500", "Hi there", ""])).unwrap();
    assert_eq!(f.captions.len(), 1);
    let c = &f.captions[0];
    assert_eq!(c.number, 7);
    assert_eq!(c.start_time, dur(1, 0));
    assert_eq!(c.end_time, dur(2, 500_000_000));
    assert_eq!(c.text, "Hi there");
}

#[test]
fn multi_line_text() {
    let f = SRTFile::new(&lines(&["1", "00:00:01,000 --> 00:00:02,000", "Hello", "World", ""]))
        .unwrap();
    assert_eq!(f.captions[0].text, "Hello\nWorld");
}

#[test]
fn two_captions_in_order() {
    let f = SRTFile::new(&lines(&[
        "1",
        "00:00:01,000 --> 00:00:02,000",
        "a",
        "",
        "2",
        "00:00:03,000 --> 00:00:04,000",
        "b",
        "c",
        "",
    ]))
    .unwrap();
    assert_eq!(f.captions.len(), 2);
    assert_eq!(f.captions[0].number, 1);
    assert_eq!(f.captions[1].number, 2);
    assert_eq!(f.captions[1].start_time, dur(3, 0));
    assert_eq!(f.captions[1].text, "b\nc");
}

#[test]
fn unterminated_trailing_record_dropped() {
    let f = SRTFile::new(&lines(&[
        "1",
        "00:00:01,000 --> 00:00:02,000",
        "first",
        "",
        "2",
        "00:00:03,000 --> 00:00:04,000",
        "second",
    ]))
    .unwrap();
    assert_eq!(f.captions.len(), 1);
    assert_eq!(f.captions[0].text, "first");
}

#[test]
fn first_error_wins() {
    let r = SRTFile::new(&lines(&[
        "x",
        "00:00:01,000 --> 00:00:02,000",
        "a",
        "",
        "2",
        "00:00:03 --> 00:00:04,000",
        "b",
        "",
    ]));
    assert_eq!(r.unwrap_err(), SrtError::NumericParseError);
    let r = SRTFile::new(&lines(&[
        "1",
        "00:00:01 --> 00:00:02,000",
        "a",
        "",
        "y",
        "",
    ]));
    assert_eq!(r.unwrap_err(), SrtError::TimestampParsingError);
}

#[test]
fn empty_input() {
    let f = SRTFile::new(&Vec::new()).unwrap();
    assert!(f.captions.is_empty());
}

#[test]
fn blank_before_text_is_builder_error() {
    let r = SRTFile::new(&lines(&["1", "00:00:01,000 --> 00:00:02,000", ""]));
    assert_eq!(r.unwrap_err(), SrtError::CaptionBuilderError);
}

#[test]
fn double_blank_is_builder_error() {
    let r = SRTFile::new(&lines(&["1", "00:00:01,000 --> 00:00:02,000", "a", "", ""]));
    assert_eq!(r.unwrap_err(), SrtError::CaptionBuilderError);
}

#[test]
fn missing_end_time() {
    let r = SRTFile::new(&lines(&["1", "00:00:01,000", "a", ""]));
    assert_eq!(r.unwrap_err(), SrtError::TimestampParsingError);
}

#[test]
fn bad_start_reported_before_missing_end() {
    let r = SRTFile::new(&lines(&["1", "00:00:zz,000", "a", ""]));
    assert_eq!(r.unwrap_err(), SrtError::NumericParseError);
}

#[test]
fn text_after_second_arrow_ignored() {
    let f = SRTFile::new(&lines(&[
        "1",
        "00:00:01,000-->00:00:02,000 --> junk",
        "a",
        "",
    ]))
    .unwrap();
    assert_eq!(f.captions[0].end_time, dur(2, 0));
}

#[test]
fn bad_number_line() {
    let r = SRTFile::new(&lines(&["1 ", "00:00:01,000 --> 00:00:02,000", "a", ""]));
    assert_eq!(r.unwrap_err(), SrtError::NumericParseError);
    let r = SRTFile::new(&lines(&["-1", "00:00:01,000 --> 00:00:02,000", "a", ""]));
    assert_eq!(r.unwrap_err(), SrtError::NumericParseError);
}

#[test]
fn state_machine_steps() {
    let mut s = ParserState::new();
    assert_eq!(s.stage, Stage::AwaitingNumber);
    assert!(s.step("3").unwrap().is_none());
    assert_eq!(s.stage, Stage::AwaitingTimestamps);
    assert_eq!(s.builder.number, Some(3));
    assert!(s.step("00:00:01,000 --> 00:00:02,000").unwrap().is_none());
    assert_eq!(s.stage, Stage::AccumulatingText);
    assert!(s.step("x").unwrap().is_none());
    let c = s.step("").unwrap().unwrap();
    assert_eq!(c.number, 3);
    assert_eq!(c.text, "x");
    assert_eq!(s.stage, Stage::AwaitingNumber);
    assert_eq!(s.builder.number, None);
}

#[test]
fn builder_requires_all_fields() {
    let mut b = CaptionBuilder::new();
    assert_eq!(b.build().unwrap_err(), SrtError::CaptionBuilderError);
    b.number = Some(1);
    b.start_time = Some(dur(0, 0));
    b.end_time = Some(dur(1, 0));
    assert_eq!(b.build().unwrap_err(), SrtError::CaptionBuilderError);
    b.text = Some("t".to_string());
    let c = b.build().unwrap();
    assert_eq!(c.text, "t");
}

#[test]
fn error_messages() {
    assert_eq!(SrtError::TimestampParsingError.message(), "Timestamp Parsing Error");
    assert_eq!(SrtError::CaptionBuilderError.message(), "Caption Builder Error");
}

#[test]
fn caption_duration_and_words() {
    let f = SRTFile::new(&lines(&["1", "00:00:01,750 --> 00:00:03,250", "one two", "three", ""]))
        .unwrap();
    let c = &f.captions[0];
    assert_eq!(c.duration(), Some(dur(1, 500_000_000)));
    assert_eq!(c.word_count(), 3);
}

#[test]
fn negative_duration_is_none() {
    let f = SRTFile::new(&lines(&["1", "00:00:05,000 --> 00:00:04,999", "x", ""])).unwrap();
    assert_eq!(f.captions[0].duration(), None);
}

#[test]
fn duration_checked_sub() {
    assert_eq!(dur(5, 0).checked_sub(&dur(5, 0)), Some(dur(0, 0)));
    assert_eq!(dur(5, 100).checked_sub(&dur(4, 200)), Some(dur(0, 999_999_900)));
    assert_eq!(dur(4, 200).checked_sub(&dur(5, 100)), None);
}

#[test]
fn encode_writes_blocks() {
    let f = SRTFile::new(&lines(&[
        "1",
        "01:02:03,004 --> 01:02:05,500",
        "Hello",
        "World",
        "",
        "12",
        "100:00:00,000 --> 100:00:01,000",
        "x",
        "",
    ]))
    .unwrap();
    assert_eq!(
        f.encode(),
        "1\n01:02:03,004 --> 01:02:05,500\nHello\nWorld\n\n12\n100:00:00,000 --> 100:00:01,000\nx\n\n"
    );
}

#[test]
fn encode_then_parse() {
    let f = SRTFile::new(&lines(&["3", "0:0:7,5 --> 0:1:0,25", "a b", ""])).unwrap();
    let text = f.encode();
    assert_eq!(text, "3\n00:00:07,005 --> 00:01:00,025\na b\n\n");
    let again: Vec<String> = text.lines().map(|s| s.to_string()).collect();
    let g = SRTFile::new(&again).unwrap();
    assert_eq!(g.captions.len(), 1);
    assert_eq!(g.captions[0].start_time, f.captions[0].start_time);
    assert_eq!(g.captions[0].end_time, f.captions[0].end_time);
    assert_eq!(g.captions[0].text, f.captions[0].text);
}

#[test]
fn encode_empty_document() {
    let f = SRTFile::new(&Vec::new()).unwrap();
    assert_eq!(f.encode(), "");
}

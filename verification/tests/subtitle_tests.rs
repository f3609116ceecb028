use subtitle_forge::asr::engine::Segment;
use subtitle_forge::error::SubtitleError;
use subtitle_forge::subtitle::ass::{AssStyle, AssWriter};
use subtitle_forge::subtitle::merger::SubtitleMerger;
use subtitle_forge::subtitle::srt::{SrtParser, SrtWriter};
use subtitle_forge::subtitle::types::{SubtitleEntry, SubtitleFile, SubtitleFormat, Timecode};
use subtitle_forge::subtitle::vtt::VttWriter;
use subtitle_forge::translate::engine::TranslateResult;

fn entry(index: usize, start: u64, end: u64, primary: &str, secondary: Option<&str>) -> SubtitleEntry {
    SubtitleEntry {
        index,
        start: Timecode::from_ms(start),
        end: Timecode::from_ms(end),
        primary_text: primary.to_string(),
        secondary_text: secondary.map(|s| s.to_string()),
    }
}

fn segment(index: usize, start_ms: u64, end_ms: u64, text: &str) -> Segment {
    Segment { index, start_ms, end_ms, text: text.to_string(), language: "en".to_string() }
}

#[test]
fn test_timecode_from_ms() {
    let tc = Timecode::from_ms(3_723_456);
    assert_eq!(tc.hours, 1);
    assert_eq!(tc.minutes, 2);
    assert_eq!(tc.seconds, 3);
    assert_eq!(tc.milliseconds, 456);
    assert_eq!(tc.to_srt_string(), "01:02:03,456");
}

#[test]
fn test_timecode_roundtrip() {
    let original_ms: u64 = 7_384_123;
    let tc = Timecode::from_ms(original_ms);
    assert_eq!(tc.to_ms(), original_ms);
}

#[test]
fn test_srt_write_monolingual() {
    let subtitle = SubtitleFile {
        entries: vec![SubtitleEntry {
            index: 1,
            start: Timecode::from_ms(1000),
            end: Timecode::from_ms(4000),
            primary_text: "Hello, world!".to_string(),
            secondary_text: None,
        }],
        source_language: "en".to_string(),
        target_language: None,
        format: SubtitleFormat::Srt,
    };

    let srt = SrtWriter::write(&subtitle);
    assert!(srt.contains("1\n"));
    assert!(srt.contains("00:00:01,000 --> 00:00:04,000"));
    assert!(srt.contains("Hello, world!"));
}

#[test]
fn test_srt_write_bilingual() {
    let subtitle = SubtitleFile {
        entries: vec![SubtitleEntry {
            index: 1,
            start: Timecode::from_ms(1000),
            end: Timecode::from_ms(4000),
            primary_text: "Hello, world!".to_string(),
            secondary_text: Some("你好，世界！".to_string()),
        }],
        source_language: "en".to_string(),
        target_language: Some("zh".to_string()),
        format: SubtitleFormat::Srt,
    };

    let srt = SrtWriter::write(&subtitle);
    assert!(srt.contains("Hello, world!"));
    assert!(srt.contains("你好，世界！"));
}

#[test]
fn test_srt_parse() {
    let content = r#"1
00:00:01,000 --> 00:00:04,000
Hello, world!
你好，世界！

2
00:00:05,000 --> 00:00:08,500
This is a test.
这是一个测试。
"#;

    let entries = SrtParser::parse(content).unwrap();
    assert_eq!(entries.len(), 2);
    assert_eq!(entries[0].primary_text, "Hello, world!");
    assert_eq!(entries[0].secondary_text.as_deref(), Some("你好，世界！"));
    assert_eq!(entries[1].start.to_ms(), 5000);
}

#[test]
fn timecode_strings_in_each_format() {
    let tc = Timecode::from_ms(3_723_456);
    assert_eq!(tc.to_vtt_string(), "01:02:03.456");
    assert_eq!(tc.to_ass_string(), "1:02:03.45");
    assert_eq!(Timecode::parse_srt(" 01:02:03,456 "), Some(tc));
    assert_eq!(Timecode::parse_srt("01:02"), None);
    assert_eq!(Timecode::parse_srt("aa:02:03,456"), None);
}

#[test]
fn srt_write_then_parse_gives_entries_back() {
    let subtitle = SubtitleFile {
        entries: vec![
            entry(1, 1000, 4000, "Hello", Some("你好")),
            entry(2, 5000, 8500, "Second line", None),
        ],
        source_language: "en".to_string(),
        target_language: Some("zh".to_string()),
        format: SubtitleFormat::Srt,
    };
    let text = SrtWriter::write(&subtitle);
    assert_eq!(
        text,
        "1\n00:00:01,000 --> 00:00:04,000\nHello\n你好\n\n2\n00:00:05,000 --> 00:00:08,500\nSecond line\n\n"
    );
    let parsed = SrtParser::parse(&text).unwrap();
    assert_eq!(parsed.len(), 2);
    assert_eq!(parsed[0].index, 1);
    assert_eq!(parsed[0].start, Timecode::from_ms(1000));
    assert_eq!(parsed[0].end, Timecode::from_ms(4000));
    assert_eq!(parsed[0].primary_text, "Hello");
    assert_eq!(parsed[0].secondary_text.as_deref(), Some("你好"));
    assert_eq!(parsed[1].secondary_text, None);
}

#[test]
fn srt_parse_reports_bad_index() {
    let r = SrtParser::parse("x\n00:00:01,000 --> 00:00:02,000\nHi\n");
    match r {
        Err(SubtitleError::Parse { line, message }) => {
            assert_eq!(line, 1);
            assert_eq!(message, "Invalid index: 'x'");
        }
        _ => panic!("expected a parse error"),
    }
}

#[test]
fn srt_parse_names_content_line_of_later_bad_index() {
    let content = "1\n00:00:01,000 --> 00:00:02,000\nHi\n你好\n\nX\n00:00:03,000 --> 00:00:04,000\nYo\n";
    match SrtParser::parse(content) {
        Err(SubtitleError::Parse { line, message }) => {
            assert_eq!(line, 6);
            assert_eq!(message, "Invalid index: 'X'");
        }
        _ => panic!("expected a parse error"),
    }
}

#[test]
fn srt_parse_names_content_line_of_bad_timing_after_blank_lines() {
    let content = "1\n00:00:01,000 --> 00:00:02,000\nHi\n\n\n\n2\n00:00:03.000 --> 00:00:04,000\nYo\n";
    match SrtParser::parse(content) {
        Err(SubtitleError::Parse { line, message }) => {
            assert_eq!(line, 8);
            assert_eq!(message, "Invalid start timecode: '00:00:03.000 '");
        }
        _ => panic!("expected a parse error"),
    }
}

#[test]
fn srt_timecode_text_parses_back_with_padding() {
    let tc = Timecode { hours: 123, minutes: 7, seconds: 59, milliseconds: 1 };
    let text = tc.to_srt_string();
    assert_eq!(text, "123:07:59,001");
    assert_eq!(Timecode::parse_srt(&text), Some(tc));
    assert_eq!(Timecode::parse_srt(&format!("\t {}\n", text)), Some(tc));
    assert_eq!(Timecode::parse_srt("00:00:05.000"), None);
}

#[test]
fn vtt_document_is_exact() {
    let subtitle = SubtitleFile {
        entries: vec![entry(1, 1000, 4000, "Hello", Some("你好"))],
        source_language: "en".to_string(),
        target_language: Some("zh".to_string()),
        format: SubtitleFormat::Vtt,
    };
    assert_eq!(
        VttWriter::write(&subtitle),
        "WEBVTT\nKind: captions\nLanguage: en/zh\n\ncue-1\n00:00:01.000 --> 00:00:04.000\nHello\n你好\n\n"
    );
    let mono = SubtitleFile {
        entries: vec![],
        source_language: "ja".to_string(),
        target_language: None,
        format: SubtitleFormat::Vtt,
    };
    assert_eq!(VttWriter::write(&mono), "WEBVTT\nKind: captions\nLanguage: ja\n\n");
}

#[test]
fn ass_document_escapes_and_styles() {
    let subtitle = SubtitleFile {
        entries: vec![entry(1, 1000, 4000, "a{b}\\c", Some("第二"))],
        source_language: "en".to_string(),
        target_language: Some("zh".to_string()),
        format: SubtitleFormat::Ass,
    };
    let style = AssStyle::default();
    assert_eq!(style.primary_font, "Arial");
    assert_eq!(style.play_res_y, 1080);
    let text = AssWriter::write(&subtitle, &style);
    assert!(text.starts_with("[Script Info]\nTitle: SubtitleForge Generated Bilingual Subtitles\n"));
    assert!(text.contains("PlayResX: 1920\nPlayResY: 1080\n"));
    assert!(text.contains("Style: Primary,Arial,48,&H00FFFFFF,&H000000FF,&H00000000,&H80000000,-1,0,0,0,100,100,0,0,1,2,1,2,10,10,30,1\n"));
    assert!(text.contains("Style: Secondary,Arial,36,&H0000FFFF,&H000000FF,&H00000000,&H80000000,0,0,0,0,100,100,0,0,1,2,1,8,10,10,30,1\n"));
    assert!(text.ends_with(
        "Dialogue: 0,0:00:01.00,0:00:04.00,Primary,,0,0,0,,a\\{b\\}\\\\c\nDialogue: 0,0:00:01.00,0:00:04.00,Secondary,,0,0,0,,第二\n"
    ));
}

#[test]
fn merge_pairs_segments_with_translations() {
    let segments = vec![segment(0, 1000, 2000, "  hello "), segment(1, 2500, 3000, "world")];
    let translation = TranslateResult { texts: vec!["你好 ".to_string(), " 世界".to_string()], engine: "x".to_string() };
    let file = SubtitleMerger::merge(&segments, &translation, "en", "zh", SubtitleFormat::Srt).unwrap();
    assert_eq!(file.entries.len(), 2);
    assert_eq!(file.entries[0].index, 1);
    assert_eq!(file.entries[0].primary_text, "hello");
    assert_eq!(file.entries[0].secondary_text.as_deref(), Some("你好"));
    assert_eq!(file.entries[1].start, Timecode::from_ms(2500));
    assert_eq!(file.target_language.as_deref(), Some("zh"));
}

#[test]
fn merge_refuses_count_mismatch() {
    let segments = vec![segment(0, 0, 1, "a")];
    let translation = TranslateResult { texts: vec![], engine: "x".to_string() };
    match SubtitleMerger::merge(&segments, &translation, "en", "zh", SubtitleFormat::Srt) {
        Err(SubtitleError::SegmentMismatch { asr, translation }) => {
            assert_eq!(asr, 1);
            assert_eq!(translation, 0);
        }
        _ => panic!("expected a mismatch"),
    }
}

#[test]
fn from_segments_makes_monolingual_file() {
    let segments = vec![segment(0, 0, 1500, " one ")];
    let file = SubtitleMerger::from_segments(&segments, "en", SubtitleFormat::Vtt);
    assert_eq!(file.entries[0].primary_text, "one");
    assert_eq!(file.entries[0].secondary_text, None);
    assert_eq!(file.entries[0].end, Timecode::from_ms(1500));
    assert_eq!(file.target_language, None);
    assert_eq!(file.format, SubtitleFormat::Vtt);
}

#[test]
fn subtitle_format_names() {
    assert_eq!(SubtitleFormat::Srt.extension(), "srt");
    assert_eq!(SubtitleFormat::Ass.extension(), "ass");
    assert_eq!(SubtitleFormat::Vtt.display_name(), "WebVTT (VTT)");
}

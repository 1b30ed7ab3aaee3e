use lyrico::lyrics::lrc;
use lyrico::lyrics::lrc::{
    classify_tracks, find_linked, fraction_ms, lrc_time, parse, parse_lrc_time,
    resolved_timed_words, track_lines, write_original_line,
};
use lyrico::lyrics::model::{
    LineTrack, LyricFormat, LyricsDocument, LyricsLine, LyricsMetadata, LyricsOptions,
    LyricsTrack, LyricsWord, TrackType,
};
use lyrico::lyrics::pipeline::{
    collect_warnings, detect_format, empty_result, extract_plain_text, parse_best_raw_document,
    parse_document,
    push_unique, raw_key, raw_keys,
};
use lyrico::json::{JsonNumber, JsonValue};
use lyrico::lyrics::pipeline::{
    compact_line, document_from_structured, is_structured, plugin_candidates, value_to_text,
};

fn line(start: Option<i64>, text: &str) -> LyricsLine {
    LyricsLine {
        start_ms: start,
        end_ms: start.map(|s| s + 2_000),
        text: text.to_string(),
        words: Vec::new(),
        link_key: None,
        agent_id: None,
    }
}

fn word(start: Option<i64>, end: Option<i64>, text: &str) -> LyricsWord {
    LyricsWord { start_ms: start, end_ms: end, text: text.to_string() }
}

#[test]
fn parses_mpe_speaker_stamps_as_word_timings() {
    let document = parse(
        "[00:11.00]<00:11.00|张三>天<00:12.00|李四>空<00:13.00>",
        LyricFormat::EnhancedLrc,
    );
    let line = &document.tracks[0].lines[0];
    assert_eq!(line.start_ms, Some(11_000));
    assert_eq!(line.end_ms, Some(13_000));
    assert_eq!(line.text, "天空");
    assert_eq!(line.words.len(), 2);
    assert_eq!(line.words[0].start_ms, Some(11_000));
    assert_eq!(line.words[0].text, "天");
    assert_eq!(line.words[1].start_ms, Some(12_000));
    assert_eq!(line.words[1].text, "空");
}

#[test]
fn detects_export_format_and_extracts_original_plain_text() {
    assert_eq!(
        detect_format("<tt><body><p begin=\"1s\">line</p></body></tt>"),
        LyricFormat::Ttml
    );
    assert_eq!(
        detect_format("[00:01.000]<00:01.000>word"),
        LyricFormat::EnhancedLrc
    );
    assert_eq!(
        detect_format("[00:11.00]<00:11.00|张三>天<00:12.00>"),
        LyricFormat::EnhancedLrc
    );
    assert_eq!(
        extract_plain_text("[00:01.000]hello\n[00:02.000]world"),
        "hello\nworld"
    );
}

#[test]
fn lrc_times_read_and_write() {
    assert_eq!(parse_lrc_time("01:02.5"), Some(62_500));
    assert_eq!(parse_lrc_time("01:02:123"), Some(62_123));
    assert_eq!(parse_lrc_time("1:2"), None);
    assert_eq!(parse_lrc_time("1234:00"), None);
    assert_eq!(fraction_ms(Some("5")), 500);
    assert_eq!(fraction_ms(Some("05")), 50);
    assert_eq!(fraction_ms(None), 0);
    assert_eq!(lrc_time(62_500), "01:02.500");
    assert_eq!(lrc_time(-5), "00:00.000");
    assert_eq!(parse_lrc_time(&lrc_time(3_723_004)), Some(3_723_004));
}

#[test]
fn plain_lrc_reads_tags_and_repeated_stamps() {
    let document = parse("[ti:晴天]\n[00:01.00][00:05.00]hello\n[00:03.00]world", LyricFormat::PlainLrc);
    assert_eq!(document.metadata.tags, vec![("ti".to_string(), "晴天".to_string())]);
    let lines = &document.tracks[0].lines;
    assert_eq!(lines.len(), 3);
    assert_eq!(lines[0].start_ms, Some(1_000));
    assert_eq!(lines[1].start_ms, Some(5_000));
    assert_eq!(lines[2].text, "world");
    assert_eq!(document.source_format, Some(LyricFormat::PlainLrc));
}

#[test]
fn lines_at_one_time_become_translation_and_romanization() {
    let tracks = classify_tracks(vec![
        line(Some(1_000), "天空"),
        line(Some(1_000), "tian kong"),
        line(Some(1_000), "the sky"),
        line(Some(2_000), "海"),
    ]);
    assert_eq!(tracks.len(), 3);
    assert_eq!(tracks[0].kind, TrackType::Original);
    assert_eq!(tracks[0].lines.len(), 2);
    assert_eq!(tracks[0].lines[0].link_key.as_deref(), Some("L1"));
    assert_eq!(tracks[0].lines[1].link_key.as_deref(), Some("L2"));
    assert_eq!(tracks[1].kind, TrackType::Translation);
    assert_eq!(tracks[1].lines[0].text, "the sky");
    assert_eq!(tracks[2].kind, TrackType::Romanization);
    assert_eq!(tracks[2].lines[0].text, "tian kong");
}

#[test]
fn writes_enhanced_and_verbatim_lines() {
    let mut timed = line(Some(11_000), "");
    timed.end_ms = Some(13_000);
    timed.words = vec![
        word(Some(11_000), Some(12_000), "天"),
        word(None, None, "~"),
        word(Some(12_000), Some(13_000), "空"),
    ];
    assert_eq!(
        write_original_line(&timed, LyricFormat::EnhancedLrc),
        "[00:11.000]<00:11.000>天~<00:12.000>空<00:13.000>"
    );
    assert_eq!(
        write_original_line(&timed, LyricFormat::VerbatimLrc),
        "[00:11.000]天~[00:12.000]空[00:13.000]"
    );
    assert_eq!(
        write_original_line(&timed, LyricFormat::PlainLrc),
        "[00:11.000]天~空"
    );
    let resolved = resolved_timed_words(&vec![word(None, None, "a"), word(Some(1), None, "b")]);
    assert_eq!(resolved.len(), 1);
    assert_eq!(resolved[0].text, "ab");
}

#[test]
fn writes_documents_with_tags_and_linked_lines() {
    let document = parse(
        "[ti:晴天]\n[00:01.00]天空\n[00:01.00]蓝色的天空\n[00:02.00]海",
        LyricFormat::PlainLrc,
    );
    let options = LyricsOptions::new();
    assert_eq!(
        lrc::write(&document, LyricFormat::PlainLrc, &options),
        "[ti:晴天]\n\n[00:01.000]天空\n[00:01.000]蓝色的天空\n[00:02.000]海"
    );
    let reversed = LyricsOptions {
        line_order: vec![LineTrack::Translation, LineTrack::Translation],
        show_translation: true,
        show_romanization: true,
        only_translation_if_available: false,
    };
    assert_eq!(
        reversed.normalized_line_order(),
        vec![LineTrack::Translation, LineTrack::Original, LineTrack::Romanization]
    );
    assert_eq!(
        lrc::write(&document, LyricFormat::PlainLrc, &reversed),
        "[ti:晴天]\n\n[00:01.000]蓝色的天空\n[00:01.000]天空\n[00:02.000]海"
    );
    let originals = track_lines(&document, TrackType::Original);
    let translations = track_lines(&document, TrackType::Translation);
    assert_eq!(originals.len(), 2);
    assert_eq!(find_linked(&translations, originals[0]).map(|l| l.text.as_str()), Some("蓝色的天空"));
    assert!(find_linked(&translations, originals[1]).is_none());
}

#[test]
fn plain_lines_round_trip_through_the_writer() {
    let text = "[00:01.000]first\n[00:02.500]second";
    let document = parse(text, LyricFormat::PlainLrc);
    assert_eq!(lrc::write(&document, LyricFormat::PlainLrc, &LyricsOptions::new()), text);
}

#[test]
fn pipeline_keys_and_plain_text_fallback() {
    assert_eq!(raw_key(LyricFormat::VerbatimLrc), "rawVerbatimLrc");
    assert_eq!(raw_keys(LyricFormat::PlainLrc), vec!["rawPlainLrc", "raw_plain_lrc"]);
    let mut order = Vec::new();
    push_unique(&mut order, LyricFormat::Ttml);
    push_unique(&mut order, LyricFormat::PlainLrc);
    push_unique(&mut order, LyricFormat::Ttml);
    assert_eq!(order, vec![LyricFormat::Ttml, LyricFormat::PlainLrc]);
    let empty = empty_result(LyricFormat::EnhancedLrc);
    assert!(empty.text.is_empty() && empty.warnings.is_empty() && empty.source_format.is_none());
    assert!(parse_document("<tt></tt>", LyricFormat::Ttml).is_none());
    assert_eq!(extract_plain_text("   \n "), "");
    assert_eq!(extract_plain_text("  just words  \n\n second "), "just words\nsecond");
    let document = LyricsDocument {
        metadata: LyricsMetadata::from_lrc_tags(Vec::new()),
        agents: Vec::new(),
        tracks: vec![LyricsTrack::new(TrackType::Original, vec![line(Some(0), "x")])],
        source_format: None,
    };
    assert_eq!(lrc::write(&document, LyricFormat::VerbatimLrc, &LyricsOptions::new()), "[00:00.000]x");
}

#[test]
fn classification_keeps_every_parsed_line() {
    let lines = vec![
        line(Some(1_000), "你好"),
        line(Some(1_000), "hello"),
        line(Some(1_000), "ni hao"),
        line(Some(1_000), "bonjour"),
        line(Some(2_000), "再见"),
        line(None, "untimed"),
        line(None, "also untimed"),
    ];
    let count = lines.len();
    let tracks = classify_tracks(lines);
    let total: usize = tracks.iter().map(|track| track.lines.len()).sum();
    assert_eq!(total, count);
    assert_eq!(tracks[0].lines.len(), 3);
}

fn raw_object(entries: Vec<(&str, &str)>) -> JsonValue {
    JsonValue::Object(
        entries
            .into_iter()
            .map(|(k, v)| (k.to_string(), JsonValue::Str(v.to_string())))
            .collect(),
    )
}

#[test]
fn raw_lyrics_are_read_in_order_of_preference() {
    let options = LyricsOptions::new();
    let object = raw_object(vec![
        ("rawMultiPersonEnhancedLrc", "   "),
        ("raw_plain_lrc", "[00:01.00]first"),
        ("rawVerbatimLrc", "no stamps here"),
    ]);
    let document = parse_best_raw_document(&object, LyricFormat::VerbatimLrc, &options).unwrap();
    assert_eq!(document.source_format, Some(LyricFormat::PlainLrc));
    assert_eq!(document.tracks[0].lines[0].text, "first");

    let multi = raw_object(vec![
        ("raw_multi_person_enhanced_lrc", "[00:01.00]<00:01.00|A>hi"),
        ("rawPlainLrc", "[00:05.00]plain"),
    ]);
    let document = parse_best_raw_document(&multi, LyricFormat::PlainLrc, &options).unwrap();
    assert_eq!(document.source_format, Some(LyricFormat::EnhancedLrc));

    let ttml_only = raw_object(vec![("rawTtml", "<tt><p begin=\"1s\">x</p></tt>")]);
    assert!(parse_best_raw_document(&ttml_only, LyricFormat::Ttml, &options).is_none());
    assert!(parse_best_raw_document(&JsonValue::Null, LyricFormat::PlainLrc, &options).is_none());
}

#[test]
fn unknown_ttml_namespaces_are_warned_about_once() {
    let object = raw_object(vec![(
        "rawTtml",
        "<tt xmlns=\"http://www.w3.org/ns/ttml\" xmlns:itunes=\"http://music.apple.com/lyric-ttml-internal\" xmlns:x=\"urn:custom\" xmlns:y='urn:custom'><body/></tt>",
    )]);
    assert_eq!(
        collect_warnings(&object, Some(LyricFormat::Ttml), LyricFormat::EnhancedLrc),
        vec!["TTML extension cannot be represented in enhancedLrc: urn:custom".to_string()]
    );
    assert!(collect_warnings(&object, Some(LyricFormat::Ttml), LyricFormat::Ttml).is_empty());
    assert!(collect_warnings(&object, Some(LyricFormat::PlainLrc), LyricFormat::PlainLrc).is_empty());
    assert_eq!(LyricFormat::VerbatimLrc.as_str(), "verbatimLrc");
}

#[test]
fn a_written_plain_line_reads_back_as_the_line() {
    let original = line(Some(61_234), "hello [world]");
    let written = write_original_line(&original, LyricFormat::PlainLrc);
    assert_eq!(written, "[01:01.234]hello [world]");
    let chars: Vec<char> = written.chars().collect();
    let read = lrc::parse_plain_line(&chars);
    assert_eq!(read.len(), 1);
    assert_eq!(read[0].start_ms, Some(61_234));
    assert_eq!(read[0].end_ms, Some(63_234));
    assert_eq!(read[0].text, "hello [world]");
}

#[test]
fn lyrics_files_must_be_smaller_than_five_megabytes() {
    let check = lyrico::lyrics::pipeline::check_lyrics_file_size;
    assert!(check(5 * 1024 * 1024).is_ok());
    assert_eq!(check(5 * 1024 * 1024 + 1), Err("Lyrics file must be smaller than 5 MB".to_string()));
}

#[test]
fn untimed_words_join_their_timed_neighbours() {
    let resolved = resolved_timed_words(&vec![
        word(None, None, "a"),
        word(Some(1_000), Some(1_500), "b"),
        word(None, None, "c"),
        word(Some(2_000), None, "d"),
    ]);
    assert_eq!(resolved.len(), 2);
    assert_eq!(resolved[0].text, "abc");
    assert_eq!((resolved[0].start_ms, resolved[0].end_ms), (Some(1_000), Some(1_500)));
    assert_eq!(resolved[1].text, "d");
    assert_eq!((resolved[1].start_ms, resolved[1].end_ms), (Some(2_000), None));
    assert!(resolved_timed_words(&vec![word(None, None, "x")]).is_empty());
}

#[test]
fn written_times_have_the_lrc_shape() {
    assert_eq!(lrc_time(61_234), "01:01.234");
    assert_eq!(lrc_time(0), "00:00.000");
    assert_eq!(lrc_time(i64::MIN), "00:00.000");
    assert_eq!(lrc_time(59_999_999), "999:59.999");
}

#[test]
fn plain_lines_are_written_whatever_their_start() {
    let late = LyricsLine {
        start_ms: Some(i64::MAX),
        end_ms: None,
        text: "x".to_string(),
        words: vec![word(Some(i64::MAX), None, "x")],
        link_key: None,
        agent_id: None,
    };
    assert!(write_original_line(&late, LyricFormat::PlainLrc).ends_with("]x"));
}

#[test]
fn classified_groups_keep_every_line_once() {
    let tracks = classify_tracks(vec![
        line(Some(1_000), "天空"),
        line(Some(2_000), "海"),
        line(Some(1_000), "tian kong"),
        line(Some(1_000), "the sky"),
        line(None, "无时间"),
    ]);
    let total: usize = tracks.iter().map(|track| track.lines.len()).sum();
    assert_eq!(total, 5);
    assert_eq!(tracks[0].kind, TrackType::Original);
    let originals: Vec<&str> = tracks[0].lines.iter().map(|l| l.text.as_str()).collect();
    assert_eq!(originals, vec!["天空", "海", "无时间"]);
    let keys: Vec<Option<&str>> = tracks[0].lines.iter().map(|l| l.link_key.as_deref()).collect();
    assert_eq!(keys, vec![Some("L1"), Some("L2"), Some("L3")]);
    for track in &tracks[1..] {
        for l in &track.lines {
            assert_eq!(l.link_key.as_deref(), Some("L1"));
            assert!(l.words.is_empty());
        }
    }
}

fn json(value: &serde_json::Value) -> JsonValue {
    match value {
        serde_json::Value::Null => JsonValue::Null,
        serde_json::Value::Bool(flag) => JsonValue::Bool(*flag),
        serde_json::Value::Number(n) => JsonValue::Number(JsonNumber {
            as_i64: n.as_i64(),
            as_u64: n.as_u64(),
            rounded: n.as_f64().map_or(0, |v| v.round() as i64),
            text: n.to_string(),
        }),
        serde_json::Value::String(s) => JsonValue::Str(s.clone()),
        serde_json::Value::Array(items) => JsonValue::Array(items.iter().map(json).collect()),
        serde_json::Value::Object(entries) => JsonValue::Object(
            entries.iter().map(|(k, v)| (k.clone(), json(v))).collect(),
        ),
    }
}

#[test]
fn structured_results_become_documents() {
    let raw: serde_json::Value = serde_json::from_str(
        r#"{
            "original": [[1000, 2500.6, [[1000, 1500, "天"], [1500, 2500, "空"]]], [3000, 4000, "海"]],
            "translated": [[1000, 2500, "sky"]],
            "romanization": [],
            "tags": {"ti": "晴天", "ar": null, "al": "  ", "length": 240}
        }"#,
    )
    .unwrap();
    let object = json(&raw);
    assert!(is_structured(&object));
    let document = document_from_structured(&object).unwrap();
    assert_eq!(document.tracks.len(), 2);
    let first = &document.tracks[0].lines[0];
    assert_eq!(first.text, "天空");
    assert_eq!((first.start_ms, first.end_ms), (Some(1000), Some(2501)));
    assert_eq!(first.words.len(), 2);
    assert_eq!(first.link_key.as_deref(), Some("L1"));
    assert_eq!(document.tracks[0].lines[1].link_key.as_deref(), Some("L2"));
    assert_eq!(document.tracks[1].kind, TrackType::Translation);
    assert!(document.tracks[1].lines[0].words.is_empty());
    let tags: Vec<(&str, &str)> =
        document.metadata.tags.iter().map(|(k, v)| (k.as_str(), v.as_str())).collect();
    assert_eq!(tags, vec![("length", "240"), ("ti", "晴天")]);
}

#[test]
fn structured_lines_are_checked() {
    let bad: serde_json::Value = serde_json::from_str(r#"{"original": [[1, 2, "a"], [1, 2]]}"#).unwrap();
    assert_eq!(
        document_from_structured(&json(&bad)).err().as_deref(),
        Some("Structured lyric line must have start, end and text")
    );
    let word: serde_json::Value = serde_json::from_str(r#"[1, 2, [3]]"#).unwrap();
    assert_eq!(
        compact_line(&json(&word), 0, TrackType::Original).err().as_deref(),
        Some("Structured lyric word must be an array")
    );
    assert_eq!(
        compact_line(&JsonValue::Str("x".to_string()), 0, TrackType::Original).err().as_deref(),
        Some("Structured lyric line must be an array")
    );
    let nested: serde_json::Value =
        serde_json::from_str(r#"{"b": [1, "q\"\\\n\u0001", null, true], "a": {"c": 2.5}}"#).unwrap();
    assert_eq!(value_to_text(&json(&nested)), nested.to_string());
    let list: serde_json::Value = serde_json::from_str(r#"[{"x": 1}, {"y": 2}]"#).unwrap();
    assert_eq!(plugin_candidates(&json(&list)).len(), 2);
    assert_eq!(plugin_candidates(&json(&serde_json::from_str::<serde_json::Value>(r#"{"x": 1}"#).unwrap())).len(), 1);
}

use niflveil::codec::{
    create_json_output, escape_quotes, parse_windows_from_json, unescape_quotes, ParseError,
};
use niflveil::info::{parse_window_info, WindowInfo};
use niflveil::record::MinimizedWindow;

fn window(address: &str, title: &str, preview: Option<&str>) -> MinimizedWindow {
    MinimizedWindow {
        address: address.to_string(),
        display_title: format!("x kitty - {} [{}]", title, address),
        class: "kitty".to_string(),
        original_title: title.to_string(),
        preview_path: preview.map(|p| p.to_string()),
        icon: "x".to_string(),
    }
}

#[test]
fn empty_collection_is_written_as_brackets() {
    assert_eq!(create_json_output(&[]), "[]");
}

#[test]
fn empty_collection_marker_reads_as_empty() {
    assert_eq!(parse_windows_from_json("[]"), Ok(vec![]));
}

#[test]
fn one_record_is_written_field_by_field() {
    let w = MinimizedWindow {
        address: "0x1".to_string(),
        display_title: "F firefox - Example [1x0]".to_string(),
        class: "firefox".to_string(),
        original_title: "Example".to_string(),
        preview_path: Some("/tmp/p/0x1.thumb.png".to_string()),
        icon: "F".to_string(),
    };
    assert_eq!(
        create_json_output(&[w]),
        "[{\"address\":\"0x1\",\"display_title\":\"F firefox - Example [1x0]\",\"class\":\"firefox\",\"original_title\":\"Example\",\"preview\":\"/tmp/p/0x1.thumb.png\",\"icon\":\"F\"}]"
    );
}

#[test]
fn records_are_separated_by_commas() {
    let text = create_json_output(&[window("0x1", "a", None), window("0x2", "b", None)]);
    assert_eq!(
        text,
        "[{\"address\":\"0x1\",\"display_title\":\"x kitty - a [0x1]\",\"class\":\"kitty\",\"original_title\":\"a\",\"preview\":\"\",\"icon\":\"x\"},{\"address\":\"0x2\",\"display_title\":\"x kitty - b [0x2]\",\"class\":\"kitty\",\"original_title\":\"b\",\"preview\":\"\",\"icon\":\"x\"}]"
    );
}

#[test]
fn quotes_in_titles_are_escaped() {
    assert_eq!(escape_quotes("say \"hi\""), "say \\\"hi\\\"");
    assert_eq!(escape_quotes("plain"), "plain");
    assert_eq!(escape_quotes(""), "");
    let mut w = window("0x1", "a \"b\"", None);
    w.display_title = "t\"".to_string();
    let text = create_json_output(&[w]);
    assert!(text.contains("\"display_title\":\"t\\\"\""));
    assert!(text.contains("\"original_title\":\"a \\\"b\\\"\""));
}

#[test]
fn quotes_outside_titles_are_written_as_they_are() {
    let mut w = window("0x1", "a", None);
    w.class = "k\"k".to_string();
    let text = create_json_output(&[w]);
    assert!(text.contains("\"class\":\"k\"k\""));
}

#[test]
fn round_trip_keeps_fields_and_order() {
    let windows = vec![
        window("0x55d5e0a4b2c0", "Example: a page", Some("/tmp/window-previews/0x55d5e0a4b2c0.thumb.png")),
        window("0x2", "", Some("")),
        window("0x3", " padded ", Some("p")),
    ];
    let read = parse_windows_from_json(&create_json_output(&windows));
    assert_eq!(read, Ok(windows));
}

#[test]
fn round_trip_gives_a_missing_preview_back_as_empty() {
    let written = vec![window("0x1", "a", None)];
    let read = parse_windows_from_json(&create_json_output(&written)).unwrap();
    assert_eq!(read, vec![window("0x1", "a", Some(""))]);
}

#[test]
fn a_comma_in_a_field_does_not_survive() {
    let written = vec![window("0x1", "a,b", Some(""))];
    let read = parse_windows_from_json(&create_json_output(&written)).unwrap();
    assert_eq!(read.len(), 1);
    assert_eq!(read[0].original_title, "a");
}

#[test]
fn a_quote_in_a_title_is_read_back_as_written() {
    let written = vec![window("0x1", "a\"b", Some(""))];
    let read = parse_windows_from_json(&create_json_output(&written)).unwrap();
    assert_eq!(read[0].original_title, "a\"b");
    assert_eq!(read, written);
}

#[test]
fn a_display_title_with_quotes_inside_is_read_back_as_written() {
    let written = vec![MinimizedWindow {
        address: "0x1".to_string(),
        display_title: "say \"hi\" now".to_string(),
        class: "c".to_string(),
        original_title: "t".to_string(),
        preview_path: Some("p".to_string()),
        icon: "i".to_string(),
    }];
    let read = parse_windows_from_json(&create_json_output(&written)).unwrap();
    assert_eq!(read.len(), 1);
    assert_eq!(read[0].display_title, "say \"hi\" now");
    assert_eq!(read, written);
}

#[test]
fn titles_with_quotes_and_backslashes_at_their_ends_are_read_back_as_written() {
    for title in [
        "\"", "\"\"", "ends \"", "\" begins", "\"both\"", "a\\", "\\", "\\\"", "a\\\"b",
        "\\\\\"", "\"\\", "x\\\"\"\\y", " \" ", "{\"}", "]\"[", "k:\"v\"",
    ] {
        let mut w = window("0x1", title, Some("p"));
        w.display_title = title.to_string();
        let written = vec![w, window("0x2", title, Some(""))];
        let read = parse_windows_from_json(&create_json_output(&written));
        assert_eq!(read, Ok(written), "{:?}", title);
    }
}

#[test]
fn quotes_at_the_ends_of_other_fields_are_read_back_as_written() {
    let w = MinimizedWindow {
        address: "\"0x1\"".to_string(),
        display_title: "d".to_string(),
        class: "\"k".to_string(),
        original_title: "t".to_string(),
        preview_path: Some("p\"".to_string()),
        icon: "\"".to_string(),
    };
    let written = vec![w];
    assert_eq!(parse_windows_from_json(&create_json_output(&written)), Ok(written));
}

#[test]
fn writing_and_reading_again_and_again_changes_nothing() {
    let written = vec![window("0x1", "say \"hi\"", Some("")), window("0x2", "\\\"", Some("p"))];
    let first = create_json_output(&written);
    let mut text = first.clone();
    for _ in 0..5 {
        let read = parse_windows_from_json(&text).unwrap();
        assert_eq!(read, written);
        text = create_json_output(&read);
        assert_eq!(text, first);
    }
}

#[test]
fn unescaping_takes_the_backslash_before_each_quote() {
    assert_eq!(unescape_quotes("say \\\"hi\\\""), "say \"hi\"");
    assert_eq!(unescape_quotes("plain"), "plain");
    assert_eq!(unescape_quotes(""), "");
    assert_eq!(unescape_quotes("a\\b"), "a\\b");
    assert_eq!(unescape_quotes("a\\"), "a\\");
    assert_eq!(unescape_quotes("\""), "\"");
    assert_eq!(unescape_quotes("\\\\\""), "\\\"");
    for s in ["", "\"", "\\", "\\\"", "\"\\", "\\\\\"", "a\\\"b\\\"", "\\\"\\\"", "\\\\", "x\\y\"z"] {
        assert_eq!(unescape_quotes(s), s.replace("\\\"", "\""), "{:?}", s);
        assert_eq!(unescape_quotes(&escape_quotes(s)), s, "{:?}", s);
    }
}

#[test]
fn a_stored_title_is_unescaped_when_read() {
    let read = parse_windows_from_json(
        "[{\"address\":\"0x1\",\"display_title\":\"a \\\"b\\\"\",\"class\":\"k \\\"c\\\"\"}]",
    )
    .unwrap();
    assert_eq!(read[0].display_title, "a \"b\"");
    assert_eq!(read[0].class, "k \\\"c\\\"");
}

#[test]
fn text_without_opening_bracket_is_an_error() {
    assert_eq!(parse_windows_from_json(""), Err(ParseError::NoOpeningBracket));
    assert_eq!(parse_windows_from_json("   "), Err(ParseError::NoOpeningBracket));
    assert_eq!(parse_windows_from_json("{\"address\":\"0x1\"}"), Err(ParseError::NoOpeningBracket));
    assert_eq!(parse_windows_from_json("]"), Err(ParseError::NoOpeningBracket));
}

#[test]
fn text_without_closing_bracket_is_an_error() {
    assert_eq!(parse_windows_from_json("["), Err(ParseError::NoClosingBracket));
    assert_eq!(parse_windows_from_json("[{\"address\":\"0x1\"}"), Err(ParseError::NoClosingBracket));
    assert_eq!(parse_windows_from_json("[] x"), Err(ParseError::NoClosingBracket));
}

#[test]
fn white_space_around_the_collection_is_set_aside() {
    assert_eq!(parse_windows_from_json(" \n[]\t\n"), Ok(vec![]));
    assert_eq!(parse_windows_from_json("\u{a0}[ ]\u{3000}"), Ok(vec![]));
}

#[test]
fn missing_fields_read_as_empty() {
    let read = parse_windows_from_json("[{\"address\":\"0x1\"}]").unwrap();
    assert_eq!(
        read,
        vec![MinimizedWindow {
            address: "0x1".to_string(),
            display_title: String::new(),
            class: String::new(),
            original_title: String::new(),
            preview_path: Some(String::new()),
            icon: String::new(),
        }]
    );
}

#[test]
fn records_may_be_spread_over_lines() {
    let text = "[\n  {\"address\": \"0x1\", \"class\": \"kitty\"},\n  {\"address\": \"0x2\", \"class\": \"mpv\"}\n]";
    let read = parse_windows_from_json(text).unwrap();
    assert_eq!(read.len(), 2);
    assert_eq!(read[0].address, "0x1");
    assert_eq!(read[0].class, "kitty");
    assert_eq!(read[1].address, "0x2");
    assert_eq!(read[1].class, "mpv");
}

#[test]
fn a_later_value_of_a_key_wins() {
    let read = parse_windows_from_json("[{\"address\":\"0x1\",\"address\":\"0x2\"}]").unwrap();
    assert_eq!(read.len(), 1);
    assert_eq!(read[0].address, "0x2");
}

#[test]
fn stray_separators_and_brackets_hold_no_record() {
    assert_eq!(parse_windows_from_json("[,]"), Ok(vec![]));
    assert_eq!(parse_windows_from_json("[]]"), Ok(vec![]));
    let read = parse_windows_from_json("[{\"address\":\"0x1\"},]").unwrap();
    assert_eq!(read.len(), 1);
    assert_eq!(read[0].address, "0x1");
}

#[test]
fn a_piece_without_pairs_is_an_empty_record() {
    let read = parse_windows_from_json("[{}]").unwrap();
    assert_eq!(read.len(), 1);
    assert_eq!(read[0].address, "");
    assert_eq!(read[0].preview_path, Some(String::new()));
}

#[test]
fn a_value_splits_at_its_first_colon_only() {
    let info = parse_window_info("{\"title\":\"a: b: c\"}");
    assert_eq!(info.get("title"), Some(&"a: b: c".to_string()));
}

#[test]
fn keys_and_values_lose_white_space_then_quotes() {
    let info = parse_window_info("{ \"class\" :  \"kitty\" , id: 3, \"spaced\": \" x \" }");
    assert_eq!(info.get("class"), Some(&"kitty".to_string()));
    assert_eq!(info.get("id"), Some(&"3".to_string()));
    assert_eq!(info.get("spaced"), Some(&" x ".to_string()));
    assert_eq!(info.get("absent"), None);
}

#[test]
fn one_quote_is_taken_from_each_end_of_a_value() {
    let info = parse_window_info("{\"a\": \"\"x\"\", \"b\": \"y, \"c\": z\", \"d\": \", \"e\": \"\", \"\"f\"\": 1}");
    assert_eq!(info.get("a"), Some(&"\"x\"".to_string()));
    assert_eq!(info.get("b"), Some(&"y".to_string()));
    assert_eq!(info.get("c"), Some(&"z".to_string()));
    assert_eq!(info.get("d"), Some(&String::new()));
    assert_eq!(info.get("e"), Some(&String::new()));
    assert_eq!(info.get("\"f\""), Some(&"1".to_string()));
}

#[test]
fn a_pair_without_colon_sets_nothing() {
    let info = parse_window_info("{novalue,\"a\":\"1\"}");
    assert_eq!(info.get("novalue"), None);
    assert_eq!(info.get("a"), Some(&"1".to_string()));
}

#[test]
fn window_manager_answers_are_read_line_by_line() {
    let answer = "{\n    \"address\": \"0x55d5e0a4b2c0\",\n    \"mapped\": true,\n    \"class\": \"firefox\",\n    \"title\": \"Example\",\n    \"pid\": 4242\n}";
    let info = parse_window_info(answer);
    assert_eq!(info.get("address"), Some(&"0x55d5e0a4b2c0".to_string()));
    assert_eq!(info.get("mapped"), Some(&"true".to_string()));
    assert_eq!(info.get("class"), Some(&"firefox".to_string()));
    assert_eq!(info.get("title"), Some(&"Example".to_string()));
    assert_eq!(info.get("pid"), Some(&"4242".to_string()));
}

#[test]
fn attributes_can_be_set_by_hand() {
    let mut info = WindowInfo::new();
    assert_eq!(info.get("k"), None);
    info.insert("k".to_string(), "1".to_string());
    info.insert("other".to_string(), "2".to_string());
    info.insert("k".to_string(), "3".to_string());
    assert_eq!(info.get("k"), Some(&"3".to_string()));
    assert_eq!(info.get("other"), Some(&"2".to_string()));
}

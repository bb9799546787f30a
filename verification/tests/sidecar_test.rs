use google_photos_fix_metadata::sidecar::{
    excluded_sidecar_names, filter_excluded_files, format_tag_time, get_all_json_files,
    get_metadata_from_json, is_excluded, parse_i64, photo_taken_timestamp,
};
use google_photos_fix_metadata::text::{contains, same_text, trim};

fn strings(items: &[&str]) -> Vec<String> {
    items.iter().map(|item| item.to_string()).collect()
}

#[test]
fn number_with_and_without_sign() {
    assert_eq!(parse_i64("0"), Some(0));
    assert_eq!(parse_i64("1431648000"), Some(1431648000));
    assert_eq!(parse_i64("+42"), Some(42));
    assert_eq!(parse_i64("-42"), Some(-42));
    assert_eq!(parse_i64("-0"), Some(0));
    assert_eq!(parse_i64("0007"), Some(7));
}

#[test]
fn number_at_the_limits() {
    assert_eq!(parse_i64("9223372036854775807"), Some(i64::MAX));
    assert_eq!(parse_i64("-9223372036854775808"), Some(i64::MIN));
    assert_eq!(parse_i64("9223372036854775808"), None);
    assert_eq!(parse_i64("-9223372036854775809"), None);
    assert_eq!(parse_i64("00000000000000000000000000000000000000000000000012"), Some(12));
    assert_eq!(parse_i64("99999999999999999999999999999999999999999999999999"), None);
    assert_eq!(parse_i64("-99999999999999999999999999999999999999999999999999"), None);
}

#[test]
fn text_that_is_no_number() {
    for text in ["", "+", "-", "12a", "a12", " 12", "12 ", "1_000", "1.5", "--1", "+-1", "١٢"] {
        assert_eq!(parse_i64(text), None, "for {:?}", text);
    }
}

#[test]
fn number_parser_agrees_with_the_standard_library() {
    for text in ["0", "-1", "+1", "0012", "9223372036854775807", "9223372036854775808", "-", "1e3", "٣"] {
        assert_eq!(parse_i64(text), text.parse::<i64>().ok(), "for {:?}", text);
    }
}

#[test]
fn timestamp_is_read_from_the_sidecar() {
    let document = r#"{"title": "IMG.jpg", "photoTakenTime": {"timestamp": "1431648000", "formatted": "x"}}"#;
    assert_eq!(photo_taken_timestamp(document), Some(1431648000));
    assert_eq!(
        get_metadata_from_json(document),
        Some(String::from("2015:05:15 00:00:00.000+00:00"))
    );
}

#[test]
fn timestamp_before_1970() {
    let document = r#"{"photoTakenTime": {"timestamp": "-1"}}"#;
    assert_eq!(photo_taken_timestamp(document), Some(-1));
    assert_eq!(
        get_metadata_from_json(document),
        Some(String::from("1969:12:31 23:59:59.000+00:00"))
    );
}

#[test]
fn sidecar_without_a_usable_timestamp() {
    for document in [
        "",
        "not json",
        "[]",
        r#"{"title": "IMG.jpg"}"#,
        r#"{"photoTakenTime": "1431648000"}"#,
        r#"{"photoTakenTime": {"formatted": "x"}}"#,
        r#"{"photoTakenTime": {"timestamp": 1431648000}}"#,
        r#"{"photoTakenTime": {"timestamp": "soon"}}"#,
        r#"{"photoTakenTime": {"timestamp": ""}}"#,
        r#"{"photoTakenTime": {"timestamp": "1431648000"}"#,
        r#"{"phototakentime": {"timestamp": "1431648000"}}"#,
    ] {
        assert_eq!(photo_taken_timestamp(document), None, "for {:?}", document);
        assert_eq!(get_metadata_from_json(document), None, "for {:?}", document);
    }
}

#[test]
fn timestamp_that_cannot_be_printed() {
    let document = r#"{"photoTakenTime": {"timestamp": "9223372036854775807"}}"#;
    assert_eq!(photo_taken_timestamp(document), Some(i64::MAX));
    assert_eq!(get_metadata_from_json(document), None);
}

#[test]
fn tag_time_has_milliseconds_and_offset() {
    assert_eq!(format_tag_time(0, 0), Some(String::from("1970:01:01 00:00:00.000+00:00")));
    assert_eq!(
        format_tag_time(1719289583, 123_456_789),
        Some(String::from("2024:06:25 04:26:23.123+00:00"))
    );
    assert_eq!(format_tag_time(1431648000, 999_999_999), Some(String::from("2015:05:15 00:00:00.999+00:00")));
    assert_eq!(format_tag_time(86399, 0), Some(String::from("1970:01:01 23:59:59.000+00:00")));
}

#[test]
fn tag_time_out_of_range() {
    assert_eq!(format_tag_time(i64::MAX, 0), None);
    assert_eq!(format_tag_time(i64::MIN, 0), None);
    assert_eq!(format_tag_time(0, 2_000_000_000), None);
}

#[test]
fn sidecars_are_told_by_their_suffix() {
    let files = strings(&[
        "a/photo.jpg",
        "a/photo.jpg.json",
        "a/photo.JPG(1).JSON",
        "a/notes.jsonl",
        "a/json",
        "b/metadata.Json",
        "b/.json",
    ]);
    assert_eq!(
        get_all_json_files(files),
        vec!["a/photo.jpg.json", "a/photo.JPG(1).JSON", "b/metadata.Json", "b/.json"]
    );
    assert_eq!(get_all_json_files(Vec::new()), Vec::<String>::new());
}

#[test]
fn administrative_names_are_kept_out_of_the_batch() {
    let files = strings(&[
        "t/print-subscriptions.json",
        "t/a/photo.jpg.json",
        "t/a/shared_album_comments.json",
        "t/user-generated-memory-titles.json",
        "t/b/clip.mp4.json",
        "t/b/user-generated-memory-titles.json(1).json",
    ]);
    assert_eq!(
        filter_excluded_files(files, &excluded_sidecar_names()),
        vec!["t/a/photo.jpg.json", "t/b/clip.mp4.json"]
    );
}

#[test]
fn exclusion_looks_at_the_file_name_only() {
    let excluded = strings(&["secret"]);
    let files = strings(&["secret/photo.json", "a/secret.json", "a/my-secret-file.json", "a/b.json", "a/", ""]);
    assert_eq!(filter_excluded_files(files, &excluded), vec!["secret/photo.json", "a/b.json"]);
}

#[test]
fn nothing_excluded_keeps_every_named_file() {
    let files = strings(&["a/b.json", "c.json", "d/..", "e/."]);
    assert_eq!(filter_excluded_files(files, &Vec::new()), vec!["a/b.json", "c.json"]);
}

#[test]
fn excluded_names_of_an_export() {
    assert_eq!(
        excluded_sidecar_names(),
        vec![
            "print-subscriptions.json",
            "shared_album_comments.json",
            "user-generated-memory-titles.json",
        ]
    );
    assert!(is_excluded("print-subscriptions.json", &excluded_sidecar_names()));
    assert!(!is_excluded("print-subscriptions.jso", &excluded_sidecar_names()));
}

#[test]
fn text_contains_a_run() {
    assert!(contains("hello world", "o w"));
    assert!(contains("hello", "hello"));
    assert!(contains("hello", ""));
    assert!(contains("", ""));
    assert!(contains("aab", "ab"));
    assert!(!contains("hello", "hello!"));
    assert!(!contains("", "a"));
    assert!(!contains("abc", "ac"));
}

#[test]
fn texts_are_compared_character_by_character() {
    assert!(same_text("abc", "abc"));
    assert!(same_text("", ""));
    assert!(!same_text("abc", "abd"));
    assert!(!same_text("abc", "ab"));
    assert!(!same_text("ab", "abc"));
}

#[test]
fn white_space_is_trimmed_at_both_ends() {
    assert_eq!(trim("  image/jpeg\n"), "image/jpeg");
    assert_eq!(trim("\t a b \r\n"), "a b");
    assert_eq!(trim("plain"), "plain");
    assert_eq!(trim(" x"), "x");
    assert_eq!(trim("x "), "x");
}

#[test]
fn text_of_white_space_only_is_trimmed_to_nothing() {
    assert_eq!(trim(""), "");
    assert_eq!(trim(" "), "");
    assert_eq!(trim(" \n\t\r "), "");
}

#[test]
fn trimming_agrees_with_the_standard_library() {
    for text in [
        "",
        " ",
        "a",
        " a ",
        "\u{a0}a\u{3000}",
        "\u{2028}\u{2029}a b\u{85}",
        "\u{200b}a\u{200b}",
        "\u{feff}a",
        "\u{1680} \u{2000}\u{200a}\u{202f}\u{205f}",
        "\u{b}\u{c}x\u{1c}",
        "é  ü",
    ] {
        assert_eq!(trim(text), text.trim(), "for {:?}", text);
    }
}

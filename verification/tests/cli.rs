use opencc_jieba_rs::cli::{
    console_segment_input, decode_input, encode_output, eq_ignore_ascii_case_str, finish_output,
    format_tagged, join_words, normalize_cli_input, normalize_line_endings, office_output_name,
    remove_utf8_bom, resolve_office_format, segment_mode, should_remove_bom, str_eq,
    validate_encoding, SegmentMode,
};
use std::borrow::Cow;

#[test]
fn cli_normalization_borrows_when_disabled() {
    let input = "普通文本";

    assert!(matches!(
        normalize_cli_input(input, false, false),
        Cow::Borrowed("普通文本")
    ));
}

#[test]
fn cli_normalization_applies_basic_compat() {
    assert_eq!(
        normalize_cli_input("\u{F90A}\u{5EB8}", true, false),
        "\u{91D1}\u{5EB8}"
    );
}

#[test]
fn cli_normalization_extended_takes_precedence() {
    assert_eq!(
        normalize_cli_input("\u{807C}\u{F90A}", true, true),
        "\u{807D}\u{91D1}"
    );
}

#[test]
fn cli_normalization_extended_alone_applies_curated_table() {
    let out = normalize_cli_input("\u{807C}\u{F90A}", false, true);
    assert!(matches!(out, Cow::Owned(_)));
    assert_eq!(out, "\u{807D}\u{91D1}");
}

#[test]
fn basic_compat_does_not_apply_curated_table() {
    assert_eq!(
        normalize_cli_input("\u{807C}\u{F90A}", true, false),
        "\u{807C}\u{91D1}"
    );
}

#[test]
fn line_endings_are_unified() {
    assert_eq!(normalize_line_endings("a\r\nb\rc\nd"), "a\nb\nc\nd");
    assert_eq!(normalize_line_endings("\r\r\n\n"), "\n\n\n");
    assert_eq!(normalize_line_endings("no carriage return\n"), "no carriage return\n");
    assert_eq!(normalize_line_endings(""), "");
    assert_eq!(normalize_line_endings("末尾\r"), "末尾\n");
}

#[test]
fn unifying_line_endings_twice_changes_nothing_more() {
    let once = normalize_line_endings("x\r\ny\r\rz");
    assert_eq!(normalize_line_endings(&once), once);
    assert!(!once.contains('\r'));
}

#[test]
fn bom_is_removed_only_when_present() {
    let mut with_bom = vec![0xEF, 0xBB, 0xBF, b'a', b'b'];
    remove_utf8_bom(&mut with_bom);
    assert_eq!(with_bom, b"ab".to_vec());

    let mut without = vec![0xEF, 0xBB, b'a'];
    remove_utf8_bom(&mut without);
    assert_eq!(without, vec![0xEF, 0xBB, b'a']);

    let mut only_bom = vec![0xEF, 0xBB, 0xBF];
    remove_utf8_bom(&mut only_bom);
    assert!(only_bom.is_empty());
}

#[test]
fn bom_removal_depends_on_encodings() {
    assert!(should_remove_bom("UTF-8", "GBK"));
    assert!(should_remove_bom("utf-8", "big5"));
    assert!(!should_remove_bom("UTF-8", "utf-8"));
    assert!(!should_remove_bom("GBK", "UTF-8"));
    assert!(!should_remove_bom("GBK", "BIG5"));
}

#[test]
fn ascii_case_is_ignored_only_for_ascii_letters() {
    assert!(eq_ignore_ascii_case_str("Utf-8", "UTF-8"));
    assert!(!eq_ignore_ascii_case_str("UTF8", "UTF-8"));
    assert!(!eq_ignore_ascii_case_str("ä", "Ä"));
    assert!(eq_ignore_ascii_case_str("", ""));
}

#[test]
fn encodings_are_validated() {
    assert!(validate_encoding("UTF-8").is_ok());
    assert!(validate_encoding("gbk").is_ok());
    assert!(validate_encoding("Big5").is_ok());
    assert_eq!(
        validate_encoding("definitely-not-an-encoding").unwrap_err(),
        "Unsupported encoding: definitely-not-an-encoding"
    );
}

#[test]
fn input_is_decoded_in_the_named_encoding() {
    assert_eq!(decode_input("漢字".as_bytes(), "utf-8").unwrap(), "漢字");
    assert_eq!(decode_input(&[0xBA, 0xBA, 0xD7, 0xD6], "GBK").unwrap(), "汉字");
    assert_eq!(decode_input(&[0xBA, 0x7E, 0xA6, 0x72], "big5").unwrap(), "漢字");
    assert_eq!(decode_input(&[b'a', 0xFF], "UTF-8").unwrap(), "a\u{FFFD}");
    assert_eq!(
        decode_input(b"x", "klingon").unwrap_err(),
        "Unsupported encoding: klingon"
    );
}

#[test]
fn output_is_encoded_in_the_named_encoding() {
    assert_eq!(encode_output("汉字", "GBK").unwrap(), vec![0xBA, 0xBA, 0xD7, 0xD6]);
    assert_eq!(encode_output("漢字", "UTF-8").unwrap(), "漢字".as_bytes().to_vec());
    assert_eq!(encode_output("漢字", "BIG5").unwrap(), vec![0xBA, 0x7E, 0xA6, 0x72]);
    assert!(encode_output("x", "nope").is_err());
}

#[test]
fn office_format_from_flag_or_extension() {
    assert_eq!(resolve_office_format(Some("DOCX"), Some("txt")).unwrap(), "docx");
    assert_eq!(resolve_office_format(None, Some("Epub")).unwrap(), "epub");
    assert_eq!(resolve_office_format(None, Some("ods")).unwrap(), "ods");
    assert_eq!(
        resolve_office_format(Some("pdf"), Some("docx")).unwrap_err(),
        "\u{274C}  Unsupported Office format: pdf"
    );
    assert_eq!(
        resolve_office_format(None, Some("TXT")).unwrap_err(),
        "\u{274C}  Unsupported Office extension: .txt. Please provide --format."
    );
    assert_eq!(
        resolve_office_format(None, None).unwrap_err(),
        "\u{274C}  Cannot infer file extension. Please provide --format."
    );
}

#[test]
fn office_output_names() {
    assert_eq!(office_output_name(Some("out"), false, "in", "xlsx"), "out.xlsx");
    assert_eq!(office_output_name(Some("out.bin"), true, "in", "xlsx"), "out.bin");
    assert_eq!(office_output_name(None, false, "報告", "docx"), "報告_converted.docx");
}

#[test]
fn tagged_output_is_joined() {
    let pairs = vec![
        ("我".to_string(), "r".to_string()),
        ("爱".to_string(), "v".to_string()),
        ("北京".to_string(), "ns".to_string()),
    ];
    assert_eq!(format_tagged(&pairs, " ", "/"), "我/r 爱/v 北京/ns");
    assert_eq!(format_tagged(&Vec::new(), " ", "/"), "");
    assert_eq!(format_tagged(&pairs[..1].to_vec(), "|", ":"), "我:r");
}

#[test]
fn words_are_joined_with_delimiter() {
    let words = vec!["南京市".to_string(), "长江".to_string(), "大桥".to_string()];
    assert_eq!(join_words(&words, "/"), "南京市/长江/大桥");
    assert_eq!(join_words(&Vec::new(), "/"), "");
}

#[test]
fn segment_modes_are_read() {
    assert_eq!(segment_mode("cut"), SegmentMode::Cut);
    assert_eq!(segment_mode("search"), SegmentMode::Search);
    assert_eq!(segment_mode("all"), SegmentMode::All);
    assert_eq!(segment_mode("tag"), SegmentMode::Tag);
    assert_eq!(segment_mode("other"), SegmentMode::Cut);
}

#[test]
fn console_segment_input_trims_trailing_newlines() {
    assert_eq!(console_segment_input("你好\r\n\r\n"), "你好");
    assert_eq!(console_segment_input("a\rb\n"), "a\nb");
    assert_eq!(console_segment_input("\n\n"), "");
}

#[test]
fn console_output_gets_final_newline() {
    assert_eq!(finish_output("abc".to_string(), true), "abc\n");
    assert_eq!(finish_output("abc\n".to_string(), true), "abc\n");
    assert_eq!(finish_output("".to_string(), true), "\n");
    assert_eq!(finish_output("abc".to_string(), false), "abc");
}

#[test]
fn text_equality() {
    assert!(str_eq("漢字", "漢字"));
    assert!(!str_eq("漢字", "汉字"));
    assert!(!str_eq("a", "ab"));
}

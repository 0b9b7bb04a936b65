use opencc_jieba_rs::compat_ideographs::{
    normalize_compat_ideographs, CompatIdeographs,
};
use opencc_jieba_rs::unicode_compat::{
    normalize_unicode_compat, normalize_unicode_compat_all, UnicodeCompat,
};

#[test]
fn builtin_compat_table_normalizes_readme_sample() {
    assert_eq!(
        normalize_compat_ideographs(
            "\u{5929}\u{F9C4}\u{516B}\u{90E8}\u{2F8CC}\u{F9E8}\u{7684}\u{55AC}\u{5CF0}\u{662F}\u{F909}\u{F95E}\u{4EBA}"
        ),
        "\u{5929}\u{9F8D}\u{516B}\u{90E8}\u{66F8}\u{88E1}\u{7684}\u{55AC}\u{5CF0}\u{662F}\u{5951}\u{4E39}\u{4EBA}"
    );
}

#[test]
fn builtin_compat_table_covers_both_ranges() {
    let table = CompatIdeographs::builtin();
    assert_eq!(table.normalize_char('\u{F900}'), '\u{8C48}');
    assert_eq!(table.normalize_char('\u{FAD9}'), '\u{9F8E}');
    assert_eq!(table.normalize_char('\u{2F800}'), '\u{4E3D}');
    assert_eq!(table.normalize_char('\u{2FA1D}'), '\u{2A600}');
    // Reserved slots and neighbours of the ranges stay themselves.
    assert_eq!(table.normalize_char('\u{FAFF}'), '\u{FAFF}');
    assert_eq!(table.normalize_char('\u{2FA1F}'), '\u{2FA1F}');
    assert_eq!(table.normalize_char('\u{F8FF}'), '\u{F8FF}');
    assert_eq!(table.normalize_char('\u{FB00}'), '\u{FB00}');
    assert_eq!(table.normalize_char('\u{2FA20}'), '\u{2FA20}');
}

#[test]
fn identity_table_changes_nothing() {
    let table = CompatIdeographs::default();
    assert_eq!(table.normalize("\u{F90A}\u{2F800}a"), "\u{F90A}\u{2F800}a");
}

#[test]
fn set_rejects_and_formats_out_of_range_sources() {
    let mut table = CompatIdeographs::default();
    assert_eq!(
        table.set('a', 'b', 7).unwrap_err(),
        "line 7: source U+0061 is outside CJK Compatibility Ideograph ranges"
    );
    assert_eq!(
        table.set('\u{10FFFF}', 'b', 12).unwrap_err(),
        "line 12: source U+10FFFF is outside CJK Compatibility Ideograph ranges"
    );
    assert!(table.set('\u{F90A}', 'x', 1).is_ok());
    assert_eq!(table.normalize_char('\u{F90A}'), 'x');
}

#[test]
fn compat_errors_name_the_line() {
    assert_eq!(
        CompatIdeographs::from_text("# c\n\n\u{F900}\t\u{8C48}\nx\n").unwrap_err(),
        "line 4: missing target"
    );
    assert_eq!(
        CompatIdeographs::from_text("\u{F900}\t\u{8C48}\tz").unwrap_err(),
        "line 1: too many columns"
    );
    assert_eq!(
        CompatIdeographs::from_text(" \t\u{8C48}").unwrap_err(),
        "line 1: empty source"
    );
    assert_eq!(
        CompatIdeographs::from_text("\u{F900}x\t\u{8C48}").unwrap_err(),
        "line 1: source must be exactly one character"
    );
    assert_eq!(
        CompatIdeographs::from_text("\r\n\u{F900}\t").unwrap_err(),
        "line 2: empty target"
    );
}

#[test]
fn compat_text_accepts_crlf_and_padding() {
    let table = CompatIdeographs::from_text("  \u{F900} \t \u{8C48}\r\n\u{F900}\t\u{5927}\r\n").unwrap();
    assert_eq!(table.normalize("\u{F900}"), "\u{5927}");
}

#[test]
fn builtin_curated_table_normalizes_readme_samples() {
    assert_eq!(normalize_unicode_compat("\u{807C}"), "\u{807D}");
    assert_eq!(normalize_unicode_compat("\u{F90A}"), "\u{F90A}");
    assert_eq!(
        normalize_unicode_compat_all(
            "\u{5929}\u{F9C4}\u{516B}\u{90E8}\u{2F8CC}\u{F9E8}\u{7684}\u{807C}\u{773E}"
        ),
        "\u{5929}\u{9F8D}\u{516B}\u{90E8}\u{66F8}\u{88E1}\u{7684}\u{807D}\u{773E}"
    );
    assert_eq!(
        normalize_unicode_compat_all(
            "\u{807C}\u{807C}\u{7AD2}\u{7F99}\u{2F5F}\u{4096}\u{7501}\u{5650}\u{2FB3}"
        ),
        "聽聽奇美玉石瓶器音"
    );
}

#[test]
fn builtin_curated_table_keeps_ascii() {
    let table = UnicodeCompat::builtin();
    assert_eq!(table.normalize_all("ABC <xml/> 123"), "ABC <xml/> 123");
    assert_eq!(table.normalize_char('A'), 'A');
}

#[test]
fn builtin_compat_normalization_is_idempotent() {
    let table = CompatIdeographs::builtin();
    let all: String = (0xF900u32..=0xFAFF)
        .chain(0x2F800u32..=0x2FA1F)
        .filter_map(char::from_u32)
        .collect();
    let once = table.normalize(&all);
    assert_eq!(once.chars().count(), all.chars().count());
    assert_eq!(table.normalize(&once), once);
}

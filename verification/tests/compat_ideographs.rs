use opencc_jieba_rs::compat_ideographs::CompatIdeographs;

#[test]
fn normalizes_bmp_compat_ideographs() {
    let table = CompatIdeographs::builtin();

    assert_eq!(table.normalize("金庸"), "金庸");
    assert_eq!(table.normalize("龜龜"), "龜龜");
    assert_eq!(table.normalize("樂天"), "樂天");
}

#[test]
fn leaves_normal_text_unchanged() {
    let table = CompatIdeographs::builtin();

    assert_eq!(table.normalize("金庸寫小說"), "金庸寫小說");
    assert_eq!(table.normalize("abc123，測試。"), "abc123，測試。");
}

#[test]
fn normalizes_in_place() {
    let table = CompatIdeographs::builtin();

    let mut chars: Vec<char> = "金龜樂".chars().collect();
    table.normalize_in_place(&mut chars);

    assert_eq!(chars.iter().collect::<String>(), "金龜樂");
}

#[test]
fn unmapped_compat_ideographs_stay_self() {
    let table = CompatIdeographs::builtin();

    // U+FA11 is documented as having no UnicodeData decomposition mapping.
    assert_eq!(table.normalize_char('﨑'), '﨑');
}

#[test]
fn parses_custom_table() {
    let table = CompatIdeographs::from_text(
        "\
# comment
豈\t豈
金\t金
",
    )
    .unwrap();

    assert_eq!(table.normalize("豈金"), "豈金");
}

#[test]
fn rejects_multi_char_source_or_target() {
    assert!(CompatIdeographs::from_text("豈x\t豈\n").is_err());
    assert!(CompatIdeographs::from_text("豈\t豈x\n").is_err());
}

#[test]
fn rejects_source_outside_supported_ranges() {
    assert!(CompatIdeographs::from_text("金\t金\n").is_err());
}

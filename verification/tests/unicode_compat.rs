use opencc_jieba_rs::unicode_compat::UnicodeCompat;

#[test]
fn parses_comments_blank_lines_and_pairs() {
    let table = UnicodeCompat::from_text(
        "\
# comment

⺙\t攵
聼\t聽
",
    )
    .unwrap();

    assert_eq!(table.normalize("⺙聼"), "攵聽");
}

#[test]
fn extended_normalization_does_not_apply_compat_ideographs() {
    let table = UnicodeCompat::from_text("⺙\t攵\n").unwrap();

    assert_eq!(table.normalize("金⺙"), "金攵");
}

#[test]
fn normalize_all_combines_compat_and_extended_tables() {
    let table = UnicodeCompat::from_text("⺙\t攵\n").unwrap();

    assert_eq!(table.normalize_all("金⺙"), "金攵");
}

#[test]
fn compat_mapping_has_precedence_without_chained_remapping() {
    // 金 is normalized by CompatIdeographs to 金. If normalize_all were
    // implemented as two chained full passes, the extended 金 -> 銀 entry
    // would incorrectly turn the result into 銀.
    let table = UnicodeCompat::from_text("金\t銀\n").unwrap();

    assert_eq!(table.normalize("金金"), "金銀");
    assert_eq!(table.normalize_all("金金"), "金銀");
}

#[test]
fn duplicate_sources_are_last_wins() {
    let table = UnicodeCompat::from_text(
        "\
聼\t听
聼\t聽
",
    )
    .unwrap();

    assert_eq!(table.normalize("聼"), "聽");
}

#[test]
fn rejects_ascii_source() {
    let err = UnicodeCompat::from_text("A\tＢ\n").unwrap_err();

    assert_eq!(err, "line 1: source must not be an ASCII character");
}

#[test]
fn rejects_missing_target() {
    let err = UnicodeCompat::from_text("聼\n").unwrap_err();

    assert_eq!(err, "line 1: missing target");
}

#[test]
fn rejects_too_many_columns() {
    let err = UnicodeCompat::from_text("聼\t聽\textra\n").unwrap_err();

    assert_eq!(err, "line 1: too many columns");
}

#[test]
fn rejects_empty_source_or_target() {
    assert_eq!(
        UnicodeCompat::from_text("\t聽\n").unwrap_err(),
        "line 1: empty source"
    );
    assert_eq!(
        UnicodeCompat::from_text("聼\t\n").unwrap_err(),
        "line 1: empty target"
    );
}

#[test]
fn rejects_multi_scalar_source_or_target() {
    assert_eq!(
        UnicodeCompat::from_text("聼x\t聽\n").unwrap_err(),
        "line 1: source must be exactly one Unicode scalar value"
    );
    assert_eq!(
        UnicodeCompat::from_text("聼\t聽x\n").unwrap_err(),
        "line 1: target must be exactly one Unicode scalar value"
    );
}

#[test]
fn supports_astral_source_and_target_scalars() {
    let table = UnicodeCompat::from_text("𠮷\t𠮟\n").unwrap();

    assert_eq!(table.normalize("A𠮷B"), "A𠮟B");
}

#[test]
fn ascii_and_unmapped_text_stay_unchanged() {
    let table = UnicodeCompat::from_text("聼\t聽\n").unwrap();

    assert_eq!(table.normalize("ABC123 中文"), "ABC123 中文");
    assert_eq!(table.normalize_all("ABC123 中文"), "ABC123 中文");
}

#[test]
fn normalize_in_place_uses_extended_table_only() {
    let table = UnicodeCompat::from_text("⺙\t攵\n").unwrap();
    let mut chars: Vec<char> = "金⺙".chars().collect();

    table.normalize_in_place(&mut chars);

    assert_eq!(chars.into_iter().collect::<String>(), "金攵");
}

#[test]
fn normalize_all_in_place_combines_both_tables() {
    let table = UnicodeCompat::from_text("⺙\t攵\n").unwrap();
    let mut chars: Vec<char> = "金⺙".chars().collect();

    table.normalize_all_in_place(&mut chars);

    assert_eq!(chars.into_iter().collect::<String>(), "金攵");
}

#[test]
fn empty_table_is_valid() {
    let table = UnicodeCompat::from_text("# comments only\n\n").unwrap();

    assert_eq!(table.normalize("聼"), "聼");
    assert_eq!(table.normalize_all("金"), "金");
}

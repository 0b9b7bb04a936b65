use opencc_jieba_rs::dict_map::DictMap;

#[test]
fn empty_dict_has_no_lengths() {
    let d = DictMap::default();
    assert!(d.is_empty());
    assert_eq!(d.min_len(), 0);
    assert_eq!(d.max_len(), 0);
    assert!(!d.has_key_len(0));
    assert!(!d.has_key_len(1));
    assert!(!d.has_key_len(65));
    assert_eq!(d.get("漢字"), None);
}

#[test]
fn insert_records_entries_and_lengths() {
    let mut d = DictMap::default();
    d.insert_with_len("漢字".to_string(), "汉字".to_string(), 2);
    d.insert_with_len("一".to_string(), "壹".to_string(), 1);
    d.insert_with_len("中華人民".to_string(), "中华人民".to_string(), 4);

    assert!(!d.is_empty());
    assert_eq!(d.get("漢字"), Some("汉字"));
    assert_eq!(d.get("一"), Some("壹"));
    assert_eq!(d.get("二"), None);
    assert_eq!(d.min_len(), 1);
    assert_eq!(d.max_len(), 4);
    assert!(d.has_key_len(1));
    assert!(d.has_key_len(2));
    assert!(!d.has_key_len(3));
    assert!(d.has_key_len(4));
}

#[test]
fn reinsert_overwrites_value() {
    let mut d = DictMap::default();
    d.insert_with_len("龙".to_string(), "甲".to_string(), 1);
    d.insert_with_len("龙".to_string(), "乙".to_string(), 1);
    assert_eq!(d.get("龙"), Some("乙"));
}

#[test]
fn long_and_boundary_lengths() {
    let mut d = DictMap::default();
    d.insert_with_len("a".to_string(), "b".to_string(), 64);
    d.insert_with_len("c".to_string(), "d".to_string(), 65);
    d.insert_with_len("e".to_string(), "f".to_string(), 300);
    assert!(d.has_key_len(64));
    assert!(d.has_key_len(65));
    assert!(d.has_key_len(300));
    assert!(!d.has_key_len(63));
    assert!(!d.has_key_len(66));
    assert_eq!(d.min_len(), 64);
    assert_eq!(d.max_len(), 300);
}

#[test]
fn zero_length_records_no_metadata() {
    let mut d = DictMap::default();
    d.insert_with_len("x".to_string(), "y".to_string(), 0);
    assert_eq!(d.get("x"), Some("y"));
    assert_eq!(d.min_len(), 0);
    assert_eq!(d.max_len(), 0);
    assert!(!d.has_key_len(0));
}

#[test]
fn clear_resets_everything() {
    let mut d = DictMap::default();
    d.insert_with_len("漢字".to_string(), "汉字".to_string(), 2);
    d.insert_with_len("x".to_string(), "y".to_string(), 100);
    d.clear();
    assert!(d.is_empty());
    assert_eq!(d.get("漢字"), None);
    assert_eq!(d.min_len(), 0);
    assert_eq!(d.max_len(), 0);
    assert!(!d.has_key_len(2));
    assert!(!d.has_key_len(100));
}

#[test]
fn raw_parts_round_trip() {
    let mut d = DictMap::default();
    d.insert_with_len("漢字".to_string(), "汉字".to_string(), 2);
    d.insert_with_len("x".to_string(), "y".to_string(), 70);
    let (map, min_len, max_len, mask, long) = d.into_raw_parts();
    assert_eq!(min_len, 2);
    assert_eq!(max_len, 70);
    assert_eq!(mask, 0b10);
    assert!(long.contains(&70));
    let d2 = DictMap::from_raw_parts(map, min_len, max_len, mask, long);
    assert_eq!(d2.get("漢字"), Some("汉字"));
    assert!(d2.has_key_len(2));
    assert!(d2.has_key_len(70));
}

#[test]
fn clone_keeps_entries_and_metadata() {
    let mut d = DictMap::default();
    d.insert_with_len("漢字".to_string(), "汉字".to_string(), 2);
    d.insert_with_len("x".to_string(), "y".to_string(), 80);
    let c = d.clone();
    assert_eq!(c.get("漢字"), Some("汉字"));
    assert_eq!(c.min_len(), 2);
    assert_eq!(c.max_len(), 80);
    assert!(c.has_key_len(80));
    let (_, _, _, _, long) = c.into_raw_parts();
    assert_eq!(long.len(), 1);
}

#[test]
fn one_insertion_stores_mask_and_no_long_lengths() {
    let mut d = DictMap::default();
    d.insert_with_len("漢字".to_string(), "汉字".to_string(), 2);
    let (_, min_len, max_len, mask, long) = d.into_raw_parts();
    assert_eq!(min_len, 2);
    assert_eq!(max_len, 2);
    assert_eq!(mask, 2);
    assert!(long.is_empty());
}

#[test]
fn clear_resets_stored_record() {
    let mut d = DictMap::default();
    d.insert_with_len("漢字".to_string(), "汉字".to_string(), 2);
    d.insert_with_len("x".to_string(), "y".to_string(), 90);
    d.clear();
    let (map, min_len, max_len, mask, long) = d.into_raw_parts();
    assert!(map.is_empty());
    assert_eq!((min_len, max_len, mask), (0, 0, 0));
    assert!(long.is_empty());
}

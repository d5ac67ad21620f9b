use dahuang_dog::version_info::{string_key, translations, value_text};

#[test]
fn translation_block_pairs_come_first_then_missing_fallbacks() {
    let block = [0x09, 0x04, 0xe4, 0x04, 0x11, 0x04, 0xb0, 0x04];
    assert_eq!(translations(&block), vec![(0x0409, 0x04e4), (0x0411, 0x04b0), (0x0804, 0x04b0), (0x0409, 0x04b0)]);
}

#[test]
fn a_partial_pair_is_ignored_and_an_empty_block_gives_the_fallbacks() {
    assert_eq!(translations(&[0x04, 0x08, 0xb0]), vec![(0x0804, 0x04b0), (0x0409, 0x04b0), (0x0409, 0x04e4)]);
    assert_eq!(translations(&[]), vec![(0x0804, 0x04b0), (0x0409, 0x04b0), (0x0409, 0x04e4)]);
}

#[test]
fn string_keys_name_the_pair_in_lower_case_hex() {
    assert_eq!(string_key(0x0804, 0x04b0, "ProductName"), "\\StringFileInfo\\080404b0\\ProductName");
    assert_eq!(string_key(0xabcd, 0x0001, "CompanyName"), "\\StringFileInfo\\abcd0001\\CompanyName");
}

#[test]
fn value_text_drops_trailing_nuls_and_surrounding_space() {
    assert_eq!(value_text("  微信 \0\0").as_deref(), Some("微信"));
    assert_eq!(value_text("Tencent\0").as_deref(), Some("Tencent"));
    assert_eq!(value_text(" \0"), None);
    assert_eq!(value_text(""), None);
    assert_eq!(value_text("a\0b").as_deref(), Some("a\0b"));
}

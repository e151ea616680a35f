use vanity_principal::address::{
    check_principal_text, expected_attempts, has_prefix, ALPHABET_SIZE, PRINCIPAL_TEXT_LEN,
};

const SHAPED: &str = "abcde-fghij-klmno-pqrst-uvwxy-z2345-67abc-defgh-ijklm-nopqr-stu";

#[test]
fn prefix_of_a_text_is_recognised() {
    assert!(has_prefix("aaaaa-bbbbb", "aaaaa"));
    assert!(has_prefix("aaaaa-bbbbb", "aaaaa-b"));
    assert!(has_prefix("aaaaa-bbbbb", "a"));
}

#[test]
fn whole_text_is_its_own_prefix() {
    assert!(has_prefix("aaaaa-bbbbb", "aaaaa-bbbbb"));
}

#[test]
fn empty_prefix_starts_every_text() {
    assert!(has_prefix("aaaaa-bbbbb", ""));
    assert!(has_prefix("", ""));
}

#[test]
fn prefix_longer_than_the_text_does_not_match() {
    assert!(!has_prefix("aaaaa", "aaaaa-"));
    assert!(!has_prefix("", "a"));
}

#[test]
fn mismatch_at_any_position_does_not_match() {
    assert!(!has_prefix("aaaaa-bbbbb", "b"));
    assert!(!has_prefix("aaaaa-bbbbb", "aaaab"));
    assert!(!has_prefix("aaaaa-bbbbb", "aaaaa-c"));
}

#[test]
fn prefix_test_is_case_sensitive() {
    assert!(!has_prefix("aaaaa-bbbbb", "A"));
    assert!(!has_prefix("aaaaa-bbbbb", "aaaaA"));
    assert!(has_prefix("Aaaaa", "A"));
}

#[test]
fn prefix_test_is_not_a_substring_test() {
    assert!(!has_prefix("aaaaa-bbbbb", "bbbbb"));
    assert!(!has_prefix("aaaaa-bbbbb", "-"));
}

#[test]
fn prefix_test_compares_characters_not_bytes() {
    assert!(has_prefix("\u{e9}t\u{e9}", "\u{e9}t"));
    assert!(!has_prefix("\u{e9}t\u{e9}", "\u{e8}"));
}

#[test]
fn shaped_text_is_accepted() {
    assert_eq!(SHAPED.len(), PRINCIPAL_TEXT_LEN);
    assert!(check_principal_text(SHAPED));
    assert!(check_principal_text(
        "aaaaa-aaaaa-aaaaa-aaaaa-aaaaa-aaaaa-aaaaa-aaaaa-aaaaa-aaaaa-aaa"
    ));
    assert!(check_principal_text(
        "77777-22222-77777-22222-77777-22222-77777-22222-77777-22222-777"
    ));
}

#[test]
fn text_of_another_length_is_rejected() {
    assert!(!check_principal_text(""));
    assert!(!check_principal_text("2vxsx-fae"));
    assert!(!check_principal_text(&SHAPED[..62]));
    assert!(!check_principal_text(&format!("{}v", SHAPED)));
    assert!(!check_principal_text(&format!("{}-", SHAPED)));
}

#[test]
fn text_with_a_foreign_character_is_rejected() {
    let upper = SHAPED.replacen('a', "A", 1);
    assert!(!check_principal_text(&upper));
    let one = SHAPED.replacen('2', "1", 1);
    assert!(!check_principal_text(&one));
    let eight = SHAPED.replacen('7', "8", 1);
    assert!(!check_principal_text(&eight));
    let zero = SHAPED.replacen('z', "0", 1);
    assert!(!check_principal_text(&zero));
    let accent = SHAPED.replacen('e', "\u{e9}", 1);
    assert!(!check_principal_text(&accent));
}

#[test]
fn text_with_a_misplaced_dash_is_rejected() {
    assert!(!check_principal_text(
        "aaaa-aaaaaa-aaaaa-aaaaa-aaaaa-aaaaa-aaaaa-aaaaa-aaaaa-aaaaa-aaa"
    ));
    assert!(!check_principal_text(
        "aaaaaaaaaaa-aaaaa-aaaaa-aaaaa-aaaaa-aaaaa-aaaaa-aaaaa-aaaaa-aaa"
    ));
    assert!(!check_principal_text(
        "aaaaa-aaaaa-aaaaa-aaaaa-aaaaa-aaaaa-aaaaa-aaaaa-aaaaa-aaaaa-aa-"
    ));
}

#[test]
fn expected_attempts_is_a_power_of_the_alphabet_size() {
    assert_eq!(ALPHABET_SIZE, 32);
    assert_eq!(expected_attempts(0), Some(1));
    assert_eq!(expected_attempts(1), Some(32));
    assert_eq!(expected_attempts(2), Some(1024));
    assert_eq!(expected_attempts(5), Some(33_554_432));
    assert_eq!(expected_attempts(12), Some(1_152_921_504_606_846_976));
}

#[test]
fn expected_attempts_beyond_64_bits_is_none() {
    assert_eq!(expected_attempts(13), None);
    assert_eq!(expected_attempts(63), None);
    assert_eq!(expected_attempts(usize::MAX), None);
}

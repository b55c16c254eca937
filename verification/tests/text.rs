use music_index::text::{prepare_name, split_whitespace, trim};

#[test]
fn prepare_name_collapses_separators() {
    assert_eq!(prepare_name("  The Black-Album!! (Live) "), "the black album live");
}

#[test]
fn prepare_name_lowers_ascii_only() {
    assert_eq!(prepare_name("BJÖRK - Homogenic"), "bjÖrk homogenic");
}

#[test]
fn prepare_name_keeps_digits_and_unicode_letters() {
    assert_eq!(prepare_name("Sigur Rós: ()"), "sigur rós");
    assert_eq!(prepare_name("Blink-182"), "blink 182");
}

#[test]
fn prepare_name_of_punctuation_is_empty() {
    assert_eq!(prepare_name(""), "");
    assert_eq!(prepare_name(" -- !! "), "");
}

#[test]
fn prepare_name_is_idempotent_on_examples() {
    for s in ["  Master of Puppets ", "AC/DC", "Guns N' Roses", "Ärzte--Die", "x"] {
        let once = prepare_name(s);
        assert_eq!(prepare_name(&once), once);
    }
}

#[test]
fn split_whitespace_splits_on_unicode_whitespace() {
    let words = split_whitespace("  metallica\tblack\u{00A0}album \n");
    assert_eq!(words, vec!["metallica", "black", "album"]);
    assert!(split_whitespace(" \t ").is_empty());
}

#[test]
fn trim_removes_surrounding_whitespace() {
    assert_eq!(trim("  Rock \t"), "Rock");
    assert_eq!(trim("   "), "");
    assert_eq!(trim("a b"), "a b");
}

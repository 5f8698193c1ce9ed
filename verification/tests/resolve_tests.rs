//! Query resolution against a hand-built catalog: exact lookup, range
//! expansion, and every way a lookup can miss.

use verse_store::data::{
    BookEntry, Catalog, ChapterEntry, LanguageEntry, RecordSet, TranslationEntry, Verse,
};
use verse_store::resolve::resolve;

fn verse(number: &str, text: &str) -> Verse {
    Verse { number: number.to_string(), text: text.to_string() }
}

fn chapter(number: &str, verses: Vec<Verse>) -> ChapterEntry {
    ChapterEntry { number: number.to_string(), verses }
}

/// One language "en" with one translation "KJV" holding book "John":
/// chapter "3" has verses 3,4,5,6; chapter "1" has verses 1 and 3 (2 is
/// missing); chapter "z" has verses "0" and "3-5" (opaque keys).
fn make_catalog() -> Catalog {
    let chapters = vec![
        chapter("3", vec![verse("3", "v3"), verse("4", "v4"), verse("5", "v5"), verse("6", "v6")]),
        chapter("1", vec![verse("1", "one"), verse("3", "three")]),
        chapter("z", vec![verse("0", "zero"), verse("3-5", "dashed key")]),
        chapter("big", vec![verse("9", "nine"), verse("10", "ten"), verse("11", "eleven")]),
    ];
    let book = BookEntry { name: "John".to_string(), chapters };
    let records = RecordSet { books: vec![book] };
    let translation = TranslationEntry { name: "KJV".to_string(), records };
    let language = LanguageEntry { code: "en".to_string(), translations: vec![translation] };
    Catalog { languages: vec![language] }
}

fn numbers(vs: &[Verse]) -> Vec<&str> {
    vs.iter().map(|v| v.number.as_str()).collect()
}

#[test]
fn exact_lookup_returns_stored_text() {
    let cat = make_catalog();
    let r = resolve(&cat, "en", "KJV", "John", "3", "4");
    assert_eq!(r.len(), 1);
    assert_eq!(r[0].number, "4");
    assert_eq!(r[0].text, "v4");
}

#[test]
fn miss_at_each_level_is_empty() {
    let cat = make_catalog();
    assert!(resolve(&cat, "de", "KJV", "John", "3", "4").is_empty());
    assert!(resolve(&cat, "en", "WEB", "John", "3", "4").is_empty());
    assert!(resolve(&cat, "en", "KJV", "Mark", "3", "4").is_empty());
    assert!(resolve(&cat, "en", "KJV", "John", "7", "4").is_empty());
    assert!(resolve(&cat, "en", "KJV", "John", "3", "7").is_empty());
}

#[test]
fn range_returns_ascending_run() {
    let cat = make_catalog();
    let r = resolve(&cat, "en", "KJV", "John", "3", "3-5");
    assert_eq!(numbers(&r), vec!["3", "4", "5"]);
    assert_eq!(r[0].text, "v3");
    assert_eq!(r[1].text, "v4");
    assert_eq!(r[2].text, "v5");
}

#[test]
fn reversed_range_is_empty() {
    let cat = make_catalog();
    assert!(resolve(&cat, "en", "KJV", "John", "3", "5-3").is_empty());
}

#[test]
fn range_omits_missing_middle_verse() {
    let cat = make_catalog();
    let r = resolve(&cat, "en", "KJV", "John", "1", "1-3");
    assert_eq!(numbers(&r), vec!["1", "3"]);
    assert_eq!(r[0].text, "one");
    assert_eq!(r[1].text, "three");
}

#[test]
fn range_crossing_ten_uses_decimal_keys() {
    let cat = make_catalog();
    let r = resolve(&cat, "en", "KJV", "John", "big", "9-11");
    assert_eq!(numbers(&r), vec!["9", "10", "11"]);
}

#[test]
fn malformed_bounds_default_to_zero() {
    let cat = make_catalog();
    // Both bounds malformed: the range collapses to 0..=0, and chapter "3"
    // has no verse "0".
    assert!(resolve(&cat, "en", "KJV", "John", "3", "a-b").is_empty());
    // Against a chapter that does hold a verse "0", the collapsed range
    // silently finds it: the documented quirk.
    let r = resolve(&cat, "en", "KJV", "John", "z", "a-b");
    assert_eq!(numbers(&r), vec!["0"]);
    assert_eq!(r[0].text, "zero");
    // One malformed bound: "3-x" is 3..=0, which is reversed and empty.
    assert!(resolve(&cat, "en", "KJV", "John", "3", "3-x").is_empty());
    // An overflowing bound is malformed too.
    let r = resolve(&cat, "en", "KJV", "John", "1", "99999999999999999999-3");
    assert_eq!(numbers(&r), vec!["1", "3"]);
}

#[test]
fn leading_zeros_and_plus_parse_as_bounds() {
    let cat = make_catalog();
    let r = resolve(&cat, "en", "KJV", "John", "3", "004-+5");
    assert_eq!(numbers(&r), vec!["4", "5"]);
}

#[test]
fn more_than_one_dash_is_empty() {
    let cat = make_catalog();
    assert!(resolve(&cat, "en", "KJV", "John", "3", "3-4-5").is_empty());
}

#[test]
fn dashed_verse_key_is_read_as_range_not_key() {
    let cat = make_catalog();
    // Chapter "z" stores a verse under the literal key "3-5", but the
    // specifier "3-5" is read as a range, and chapter "z" has no verses
    // "3".."5" under decimal keys.
    assert!(resolve(&cat, "en", "KJV", "John", "z", "3-5").is_empty());
}

#[test]
fn empty_specifier_is_empty() {
    let cat = make_catalog();
    assert!(resolve(&cat, "en", "KJV", "John", "3", "").is_empty());
}

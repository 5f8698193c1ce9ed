//! The store's swap semantics, catalog assembly from raw file contents, the
//! translation listing, and the numeric helpers.

use verse_store::data::{
    BookEntry, Catalog, ChapterEntry, LanguageEntry, RecordSet, TranslationEntry, Verse,
};
use verse_store::loader::{LoadEntry, build_catalog, split_stem};
use verse_store::numeric::{dec_string, parse_bound};
use verse_store::resolve::{list_translations, resolve};
use verse_store::store::{ScanError, Store};

fn one_verse_catalog(lang: &str, translation: &str, text: &str) -> Catalog {
    let verses = vec![Verse { number: "1".to_string(), text: text.to_string() }];
    let chapters = vec![ChapterEntry { number: "1".to_string(), verses }];
    let books = vec![BookEntry { name: "Gen".to_string(), chapters }];
    let translations = vec![TranslationEntry {
        name: translation.to_string(),
        records: RecordSet { books },
    }];
    let languages = vec![LanguageEntry { code: lang.to_string(), translations }];
    Catalog { languages }
}

fn entry(lang: &str, translation: &str, contents: &str) -> LoadEntry {
    LoadEntry {
        language: lang.to_string(),
        translation: translation.to_string(),
        contents: contents.to_string(),
    }
}

const GOOD_EN: &str = r#"{"John":{"3":{"16":"so loved"},"4":{"1":"fourth"}}}"#;
const GOOD_DE: &str = r#"{"Johannes":{"3":{"16":"so geliebt"}}}"#;

#[test]
fn new_store_is_empty() {
    let store = Store::new();
    assert!(resolve(store.snapshot(), "en", "KJV", "John", "3", "16").is_empty());
    assert!(list_translations(store.snapshot()).is_empty());
}

#[test]
fn replace_publishes_the_new_catalog() {
    let mut store = Store::with_catalog(one_verse_catalog("en", "KJV", "old text"));
    store.replace(one_verse_catalog("en", "KJV", "new text"));
    let r = resolve(store.snapshot(), "en", "KJV", "Gen", "1", "1");
    assert_eq!(r[0].text, "new text");
}

#[test]
fn snapshot_taken_before_swap_stays_fully_old() {
    let mut store = Store::with_catalog(one_verse_catalog("en", "KJV", "old text"));
    // An in-flight reader resolves against the snapshot it took.
    let snap = store.snapshot().clone();
    store.replace(one_verse_catalog("en", "KJV", "new text"));
    // The reader still sees the whole old catalog ...
    let r = resolve(&snap, "en", "KJV", "Gen", "1", "1");
    assert_eq!(r[0].text, "old text");
    // ... and a reader arriving after the swap sees the whole new one.
    let r = resolve(store.snapshot(), "en", "KJV", "Gen", "1", "1");
    assert_eq!(r[0].text, "new text");
}

#[test]
fn failed_reload_keeps_previous_answers() {
    let mut store = Store::with_catalog(one_verse_catalog("en", "KJV", "kept"));
    store.apply_reload(Err(ScanError::RootUnreadable));
    let r = resolve(store.snapshot(), "en", "KJV", "Gen", "1", "1");
    assert_eq!(r[0].text, "kept");
}

#[test]
fn successful_reload_replaces_wholesale() {
    let mut store = Store::with_catalog(one_verse_catalog("en", "KJV", "old"));
    store.apply_reload(Ok(one_verse_catalog("de", "LUT", "neu")));
    // The old translation is gone: a reload is a replace, not a merge.
    assert!(resolve(store.snapshot(), "en", "KJV", "Gen", "1", "1").is_empty());
    let r = resolve(store.snapshot(), "de", "LUT", "Gen", "1", "1");
    assert_eq!(r[0].text, "neu");
}

#[test]
fn scan_error_message() {
    assert_eq!(ScanError::RootUnreadable.message(), "data root unreadable");
}

#[test]
fn build_catalog_decodes_files() {
    let cat = build_catalog(&vec![entry("en", "KJV", GOOD_EN), entry("de", "LUT", GOOD_DE)]);
    let r = resolve(&cat, "en", "KJV", "John", "3", "16");
    assert_eq!(r.len(), 1);
    assert_eq!(r[0].text, "so loved");
    let r = resolve(&cat, "en", "KJV", "John", "4", "1");
    assert_eq!(r[0].text, "fourth");
    let r = resolve(&cat, "de", "LUT", "Johannes", "3", "16");
    assert_eq!(r[0].text, "so geliebt");
}

#[test]
fn undecodable_file_is_skipped_not_fatal() {
    let cat = build_catalog(&vec![
        entry("en", "KJV", GOOD_EN),
        entry("en", "BAD", "this is not a data file"),
        entry("de", "LUT", GOOD_DE),
    ]);
    // The broken translation is simply absent ...
    assert!(resolve(&cat, "en", "BAD", "John", "3", "16").is_empty());
    // ... and everything around it still loaded.
    assert_eq!(resolve(&cat, "en", "KJV", "John", "3", "16")[0].text, "so loved");
    assert_eq!(resolve(&cat, "de", "LUT", "Johannes", "3", "16")[0].text, "so geliebt");
    let listed = list_translations(&cat);
    assert_eq!(listed.len(), 2);
}

#[test]
fn language_with_only_broken_files_is_absent() {
    let cat = build_catalog(&vec![entry("en", "KJV", GOOD_EN), entry("xx", "BAD", "{")]);
    let listed = list_translations(&cat);
    assert_eq!(listed.len(), 1);
    assert_eq!(listed[0].language, "en");
}

#[test]
fn duplicate_pair_keeps_first_entry() {
    let cat = build_catalog(&vec![
        entry("en", "KJV", r#"{"Gen":{"1":{"1":"first wins"}}}"#),
        entry("en", "KJV", r#"{"Gen":{"1":{"1":"second loses"}}}"#),
    ]);
    assert_eq!(resolve(&cat, "en", "KJV", "Gen", "1", "1")[0].text, "first wins");
}

#[test]
fn listing_two_languages_two_translations_each() {
    let cat = build_catalog(&vec![
        entry("en", "KJV", GOOD_EN),
        entry("en", "WEB", GOOD_EN),
        entry("de", "LUT", GOOD_DE),
        entry("de", "ELB", GOOD_DE),
    ]);
    let listed = list_translations(&cat);
    assert_eq!(listed.len(), 2);
    for lt in &listed {
        let mut names: Vec<&str> = lt.names.iter().map(|n| n.as_str()).collect();
        names.sort();
        match lt.language.as_str() {
            "en" => assert_eq!(names, vec!["KJV", "WEB"]),
            "de" => assert_eq!(names, vec!["ELB", "LUT"]),
            other => panic!("unexpected language {}", other),
        }
    }
}

#[test]
fn reloading_unchanged_entries_is_idempotent() {
    let entries = vec![
        entry("en", "KJV", GOOD_EN),
        entry("en", "WEB", GOOD_EN),
        entry("de", "LUT", GOOD_DE),
    ];
    let a = build_catalog(&entries);
    let b = build_catalog(&entries);
    // Same languages and translation sets, order-independently.
    let mut la: Vec<(String, Vec<String>)> = list_translations(&a)
        .into_iter()
        .map(|lt| {
            let mut names = lt.names;
            names.sort();
            (lt.language, names)
        })
        .collect();
    la.sort();
    let mut lb: Vec<(String, Vec<String>)> = list_translations(&b)
        .into_iter()
        .map(|lt| {
            let mut names = lt.names;
            names.sort();
            (lt.language, names)
        })
        .collect();
    lb.sort();
    assert_eq!(la, lb);
    // Same texts under the same keys.
    for (lang, translation, book, chapter, verse) in [
        ("en", "KJV", "John", "3", "16"),
        ("en", "KJV", "John", "4", "1"),
        ("en", "WEB", "John", "3", "16"),
        ("de", "LUT", "Johannes", "3", "16"),
    ] {
        let ra = resolve(&a, lang, translation, book, chapter, verse);
        let rb = resolve(&b, lang, translation, book, chapter, verse);
        assert_eq!(ra.len(), rb.len());
        assert_eq!(ra[0].text, rb[0].text);
        assert_eq!(ra[0].number, rb[0].number);
    }
}

#[test]
fn split_stem_splits_on_first_underscore() {
    assert_eq!(split_stem("en_KJV"), Some(("en".to_string(), "KJV".to_string())));
    assert_eq!(split_stem("he_modern_v2"), Some(("he".to_string(), "modern_v2".to_string())));
    assert_eq!(split_stem("plain"), None);
    assert_eq!(split_stem("_x"), Some(("".to_string(), "x".to_string())));
    assert_eq!(split_stem("x_"), Some(("x".to_string(), "".to_string())));
}

#[test]
fn parse_bound_reads_decimal_or_zero() {
    assert_eq!(parse_bound("12"), 12);
    assert_eq!(parse_bound("007"), 7);
    assert_eq!(parse_bound("+5"), 5);
    assert_eq!(parse_bound(""), 0);
    assert_eq!(parse_bound("+"), 0);
    assert_eq!(parse_bound("++5"), 0);
    assert_eq!(parse_bound("abc"), 0);
    assert_eq!(parse_bound("4a"), 0);
    assert_eq!(parse_bound("-3"), 0);
    assert_eq!(parse_bound("18446744073709551615"), u64::MAX);
    assert_eq!(parse_bound("18446744073709551616"), 0);
    assert_eq!(parse_bound("99999999999999999999"), 0);
}

#[test]
fn dec_string_renders_canonical_decimal() {
    assert_eq!(dec_string(0), "0");
    assert_eq!(dec_string(7), "7");
    assert_eq!(dec_string(10), "10");
    assert_eq!(dec_string(12345), "12345");
    assert_eq!(dec_string(u64::MAX), "18446744073709551615");
}

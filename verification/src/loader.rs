//! Catalog assembly: decode each scanned data file into a record set and
//! gather the results into one new catalog.
//!
//! Directory walking is I/O and lives with the caller; it hands over one
//! [`LoadEntry`] per data file. A file whose contents fail to decode is
//! skipped — that translation is simply absent from the catalog — while the
//! rest of the load continues. Entries are applied first-wins: a later entry
//! for an already filled (language, translation) pair is ignored. The scan
//! itself never produces duplicate pairs, so the two policies coincide there.

use vstd::prelude::*;
use vstd::string::*;
use crate::data::{
    BookEntry, Catalog, CatalogV, ChapterEntry, ChapterV, LanguageEntry, LanguageV, RecordSet,
    RecordSetV, TranslationEntry, TranslationV, Verse, VerseV, distinct_codes, distinct_names,
    languages_v, lemma_lookup_language_none, lemma_lookup_translation_none, lookup_book,
    lookup_chapter, lookup_language, lookup_translation, lookup_verse, translations_v, wf_catalog,
};

verus! {

broadcast use vstd::seq_lib::lemma_seq_skip_index, vstd::seq_lib::lemma_seq_skip_len;

/// One scanned data file: the language and translation it belongs to, and
/// its raw contents.
pub struct LoadEntry {
    pub language: String,
    pub translation: String,
    pub contents: String,
}

/// Spec-level image of a [`LoadEntry`].
pub struct LoadEntryV {
    pub language: Seq<char>,
    pub translation: Seq<char>,
    pub contents: Seq<char>,
}

impl View for LoadEntry {
    type V = LoadEntryV;

    open spec fn view(&self) -> LoadEntryV {
        LoadEntryV {
            language: self.language@,
            translation: self.translation@,
            contents: self.contents@,
        }
    }
}

pub open spec fn entries_v(s: Seq<LoadEntry>) -> Seq<LoadEntryV> {
    s.map_values(|e: LoadEntry| e@)
}

/// The verses of one chapter as a map from verse number to text.
pub open spec fn verse_map(vs: Seq<VerseV>) -> Map<Seq<char>, Seq<char>> {
    Map::new(|n: Seq<char>| lookup_verse(vs, n) is Some, |n: Seq<char>| lookup_verse(vs, n)->Some_0)
}

/// The chapters of one book as a map from chapter number to its verse map.
pub open spec fn chapter_map(cs: Seq<ChapterV>) -> Map<Seq<char>, Map<Seq<char>, Seq<char>>> {
    Map::new(
        |n: Seq<char>| lookup_chapter(cs, n) is Some,
        |n: Seq<char>| verse_map(lookup_chapter(cs, n)->Some_0),
    )
}

/// A whole record set as a map from book name down to verse texts. This is
/// the order-free meaning of a record set: two record sets with equal maps
/// hold exactly the same keys and texts.
pub open spec fn record_map(rs: RecordSetV) -> Map<
    Seq<char>,
    Map<Seq<char>, Map<Seq<char>, Seq<char>>>,
> {
    Map::new(
        |n: Seq<char>| lookup_book(rs.books, n) is Some,
        |n: Seq<char>| chapter_map(lookup_book(rs.books, n)->Some_0),
    )
}

/// What decoding one data file yields: the three-level mapping held by the
/// file's text, or nothing when the text does not decode. A pure function of
/// the text alone.
pub uninterp spec fn parsed_records(s: Seq<char>) -> Option<
    Map<Seq<char>, Map<Seq<char>, Map<Seq<char>, Seq<char>>>>,
>;

/// Relies on `serde_json::from_str`: the text decodes as a three-level
/// string-keyed object (book -> chapter -> verse -> text) or not at all, and
/// the decoded mapping depends on the text alone, though the order in which
/// its entries come out does not.
#[verifier::external_body]
fn parse_record_set(s: &str) -> (r: Option<RecordSet>)
    ensures
        r is Some <==> parsed_records(s@) is Some,
        r matches Some(rs) ==> record_map(rs@) == parsed_records(s@)->Some_0,
{
    let tree: std::collections::HashMap<
        String,
        std::collections::HashMap<String, std::collections::HashMap<String, String>>,
    > = serde_json::from_str(s).ok()?;
    let books = tree.into_iter().map(|(name, cs)| BookEntry {
        name,
        chapters: cs.into_iter().map(|(number, vs)| ChapterEntry {
            number,
            verses: vs.into_iter().map(|(number, text)| Verse { number, text }).collect(),
        }).collect(),
    }).collect();
    Some(RecordSet { books })
}

/// The record set stored in the catalog under one (language, translation)
/// pair, if both levels are present.
pub open spec fn lookup_records(c: CatalogV, lang: Seq<char>, translation: Seq<char>) -> Option<
    RecordSetV,
> {
    match lookup_language(c.languages, lang) {
        None => None,
        Some(ts) => lookup_translation(ts, translation),
    }
}

/// The decoded mapping of the first entry for the pair whose contents
/// decode, if any: what a load stores under that pair.
pub open spec fn first_parsed(
    entries: Seq<LoadEntryV>,
    lang: Seq<char>,
    translation: Seq<char>,
) -> Option<Map<Seq<char>, Map<Seq<char>, Map<Seq<char>, Seq<char>>>>>
    decreases entries.len(),
{
    if entries.len() == 0 {
        None
    } else if entries[0].language == lang && entries[0].translation == translation
        && parsed_records(entries[0].contents) is Some {
        parsed_records(entries[0].contents)
    } else {
        first_parsed(entries.skip(1), lang, translation)
    }
}

/// Some entry of the load carries this language and decodes, so the language
/// appears in the catalog.
pub open spec fn provides_language(entries: Seq<LoadEntryV>, lang: Seq<char>) -> bool {
    exists|k: int|
        0 <= k < entries.len() && (#[trigger] entries[k]).language == lang && parsed_records(
            entries[k].contents,
        ) is Some
}

/// Extending a load by one entry changes the stored mapping of a pair only
/// when the pair was still unfilled and the new entry fills it.
proof fn lemma_first_parsed_push(
    s: Seq<LoadEntryV>,
    e: LoadEntryV,
    lang: Seq<char>,
    translation: Seq<char>,
)
    ensures
        first_parsed(s.push(e), lang, translation) == (if first_parsed(s, lang, translation)
            is Some {
            first_parsed(s, lang, translation)
        } else if e.language == lang && e.translation == translation && parsed_records(e.contents)
            is Some {
            parsed_records(e.contents)
        } else {
            None
        }),
    decreases s.len(),
{
    if s.len() == 0 {
        assert(s.push(e)[0] == e);
        assert(s.push(e).skip(1) =~= Seq::<LoadEntryV>::empty());
        assert(first_parsed(Seq::<LoadEntryV>::empty(), lang, translation) is None);
        assert(first_parsed(s, lang, translation) is None);
    } else {
        assert(s.push(e)[0] == s[0]);
        assert(s.push(e).skip(1) =~= s.skip(1).push(e));
        lemma_first_parsed_push(s.skip(1), e, lang, translation);
        assert(first_parsed(s.skip(1).push(e), lang, translation) == first_parsed(
            s.push(e).skip(1),
            lang,
            translation,
        ));
    }
}

/// Appending an entry with an unused name leaves every other lookup alone
/// and fills its own.
proof fn lemma_lookup_translation_push(s: Seq<TranslationV>, e: TranslationV, name: Seq<char>)
    requires
        lookup_translation(s, e.name) is None,
    ensures
        lookup_translation(s.push(e), name) == (if name == e.name {
            Some(e.records)
        } else {
            lookup_translation(s, name)
        }),
    decreases s.len(),
{
    if s.len() == 0 {
        assert(s.push(e)[0] == e);
        assert(s.push(e).skip(1) =~= Seq::<TranslationV>::empty());
        assert(lookup_translation(Seq::<TranslationV>::empty(), name) is None);
        assert(lookup_translation(s, name) is None);
    } else {
        assert(s.push(e)[0] == s[0]);
        assert(s.push(e).skip(1) =~= s.skip(1).push(e));
        lemma_lookup_translation_push(s.skip(1), e, name);
        assert(lookup_translation(s.skip(1).push(e), name) == lookup_translation(
            s.push(e).skip(1),
            name,
        ));
    }
}

/// Appending a language with an unused code leaves every other lookup alone
/// and fills its own.
proof fn lemma_lookup_language_push(s: Seq<LanguageV>, e: LanguageV, code: Seq<char>)
    requires
        lookup_language(s, e.code) is None,
    ensures
        lookup_language(s.push(e), code) == (if code == e.code {
            Some(e.translations)
        } else {
            lookup_language(s, code)
        }),
    decreases s.len(),
{
    if s.len() == 0 {
        assert(s.push(e)[0] == e);
        assert(s.push(e).skip(1) =~= Seq::<LanguageV>::empty());
        assert(lookup_language(Seq::<LanguageV>::empty(), code) is None);
        assert(lookup_language(s, code) is None);
    } else {
        assert(s.push(e)[0] == s[0]);
        assert(s.push(e).skip(1) =~= s.skip(1).push(e));
        lemma_lookup_language_push(s.skip(1), e, code);
        assert(lookup_language(s.skip(1).push(e), code) == lookup_language(
            s.push(e).skip(1),
            code,
        ));
    }
}

/// Replacing the first entry of a code by one with the same code redirects
/// that code's lookup and leaves every other lookup alone.
proof fn lemma_lookup_language_update(s: Seq<LanguageV>, i: int, e: LanguageV, code: Seq<char>)
    requires
        0 <= i < s.len(),
        e.code == s[i].code,
        forall|j: int| 0 <= j < i ==> s[j].code != e.code,
    ensures
        lookup_language(s.update(i, e), code) == (if code == e.code {
            Some(e.translations)
        } else {
            lookup_language(s, code)
        }),
    decreases i,
{
    let su = s.update(i, e);
    if i == 0 {
        assert(su[0] == e);
        assert(su.skip(1) =~= s.skip(1));
    } else {
        assert(su[0] == s[0]);
        assert(su.skip(1) =~= s.skip(1).update(i - 1, e));
        assert(s[0].code != e.code);
        lemma_lookup_language_update(s.skip(1), i - 1, e, code);
        assert(s.skip(1)[i - 1] == s[i]);
    }
}

/// Find the index of the first language entry with the given code.
fn find_language_index(ls: &Vec<LanguageEntry>, code: &String) -> (r: Option<usize>)
    ensures
        match r {
            Some(i) => i < ls@.len() && languages_v(ls@)[i as int].code == code@ && (forall|j: int|
                0 <= j < i ==> languages_v(ls@)[j].code != code@) && lookup_language(
                languages_v(ls@),
                code@,
            ) == Some(languages_v(ls@)[i as int].translations),
            None => lookup_language(languages_v(ls@), code@) is None,
        },
{
    let ghost full = languages_v(ls@);
    let mut i: usize = 0;
    proof {
        assert(full.skip(0) =~= full);
    }
    while i < ls.len()
        invariant
            i <= ls.len(),
            full == languages_v(ls@),
            lookup_language(full, code@) == lookup_language(full.skip(i as int), code@),
            forall|j: int| 0 <= j < i ==> full[j].code != code@,
        decreases ls.len() - i,
    {
        proof {
            assert(full.skip(i as int)[0] == ls@[i as int]@);
        }
        if ls[i].code == *code {
            return Some(i);
        }
        proof {
            assert(full.skip(i as int).skip(1) =~= full.skip(i + 1));
        }
        i = i + 1;
    }
    proof {
        assert(full.skip(i as int) =~= Seq::<LanguageV>::empty());
    }
    None
}

/// Find the index of the first translation entry with the given name.
fn find_translation_index(ts: &Vec<TranslationEntry>, name: &String) -> (r: Option<usize>)
    ensures
        match r {
            Some(i) => i < ts@.len() && lookup_translation(translations_v(ts@), name@) is Some,
            None => lookup_translation(translations_v(ts@), name@) is None,
        },
{
    let ghost full = translations_v(ts@);
    let mut i: usize = 0;
    proof {
        assert(full.skip(0) =~= full);
    }
    while i < ts.len()
        invariant
            i <= ts.len(),
            full == translations_v(ts@),
            lookup_translation(full, name@) == lookup_translation(full.skip(i as int), name@),
        decreases ts.len() - i,
    {
        proof {
            assert(full.skip(i as int)[0] == ts@[i as int]@);
        }
        if ts[i].name == *name {
            return Some(i);
        }
        proof {
            assert(full.skip(i as int).skip(1) =~= full.skip(i + 1));
        }
        i = i + 1;
    }
    proof {
        assert(full.skip(i as int) =~= Seq::<TranslationV>::empty());
    }
    None
}

/// Store a record set under a (language, translation) pair, first-wins: an
/// already filled pair is left as it is; a new language or translation level
/// is created as needed. Every other pair is untouched.
fn insert_translation(cat: &mut Catalog, language: &String, translation: &String, records: RecordSet)
    requires
        wf_catalog(old(cat)@),
    ensures
        wf_catalog(final(cat)@),
        forall|l2: Seq<char>, t2: Seq<char>|
            #![trigger lookup_records(final(cat)@, l2, t2)]
            lookup_records(final(cat)@, l2, t2) == (if l2 == language@ && t2 == translation@
                && lookup_records(old(cat)@, l2, t2) is None {
                Some(records@)
            } else {
                lookup_records(old(cat)@, l2, t2)
            }),
        forall|l2: Seq<char>|
            #![trigger lookup_language(final(cat)@.languages, l2)]
            lookup_language(final(cat)@.languages, l2) is Some <==> (lookup_language(
                old(cat)@.languages,
                l2,
            ) is Some || l2 == language@),
{
    let ghost oldc: CatalogV = cat@;
    let ghost oldl: Seq<LanguageV> = languages_v(cat.languages@);
    match find_language_index(&cat.languages, language) {
        None => {
            let te = TranslationEntry { name: translation.clone(), records };
            let ghost tev: TranslationV = te@;
            let mut translations: Vec<TranslationEntry> = Vec::new();
            translations.push(te);
            let le = LanguageEntry { code: language.clone(), translations };
            let ghost lev: LanguageV = le@;
            cat.languages.push(le);
            proof {
                assert(languages_v(cat.languages@) =~= oldl.push(lev));
                assert(lev.translations =~= Seq::<TranslationV>::empty().push(tev));
                assert forall|c: Seq<char>|
                    lookup_language(oldl.push(lev), c) == (if c == language@ {
                        Some(lev.translations)
                    } else {
                        lookup_language(oldl, c)
                    }) by {
                    lemma_lookup_language_push(oldl, lev, c);
                }
                assert forall|t2: Seq<char>|
                    lookup_translation(lev.translations, t2) == (if t2 == translation@ {
                        Some(records@)
                    } else {
                        None
                    }) by {
                    assert(lookup_translation(Seq::<TranslationV>::empty(), tev.name) is None);
                    lemma_lookup_translation_push(Seq::<TranslationV>::empty(), tev, t2);
                    assert(lookup_translation(Seq::<TranslationV>::empty(), t2) is None);
                }
                assert forall|l2: Seq<char>, t2: Seq<char>|
                    lookup_records(cat@, l2, t2) == (if l2 == language@ && t2 == translation@
                        && lookup_records(oldc, l2, t2) is None {
                        Some(records@)
                    } else {
                        lookup_records(oldc, l2, t2)
                    }) by {
                    assert(cat@.languages == oldl.push(lev));
                    assert(oldc.languages == oldl);
                    if l2 == language@ {
                        assert(lookup_language(cat@.languages, l2) == Some(lev.translations));
                        assert(lookup_language(oldc.languages, l2) is None);
                        assert(lookup_translation(lev.translations, t2) == (if t2 == translation@ {
                            Some(records@)
                        } else {
                            None
                        }));
                    } else {
                        assert(lookup_language(cat@.languages, l2) == lookup_language(oldl, l2));
                    }
                }
                lemma_lookup_language_none(oldl, language@);
                assert forall|p: int, q: int|
                    0 <= p < q < cat@.languages.len() implies cat@.languages[p].code
                    != cat@.languages[q].code by {
                    if q < oldl.len() {
                        assert(cat@.languages[p] == oldl[p]);
                        assert(cat@.languages[q] == oldl[q]);
                    } else {
                        assert(cat@.languages[q] == lev);
                        assert(cat@.languages[p] == oldl[p]);
                    }
                }
                assert forall|p: int|
                    0 <= p < cat@.languages.len() implies distinct_names(
                    cat@.languages[p].translations,
                ) by {
                    if p < oldl.len() {
                        assert(cat@.languages[p] == oldl[p]);
                    } else {
                        assert(cat@.languages[p] == lev);
                        assert(lev.translations.len() == 1);
                    }
                }
            }
        },
        Some(i) => {
            match find_translation_index(&cat.languages[i].translations, translation) {
                Some(_) => {
                    proof {
                        assert(translations_v(cat.languages@[i as int].translations@)
                            == languages_v(cat.languages@)[i as int].translations);
                        assert(lookup_records(oldc, language@, translation@) is Some);
                    }
                },
                None => {
                    let te = TranslationEntry { name: translation.clone(), records };
                    let ghost oldts: Seq<TranslationV> = translations_v(
                        cat.languages@[i as int].translations@,
                    );
                    let ghost tev: TranslationV = te@;
                    let mut le: LanguageEntry = cat.languages.remove(i);
                    le.translations.push(te);
                    let ghost lev: LanguageV = le@;
                    cat.languages.insert(i, le);
                    proof {
                        assert(oldl[i as int].translations == oldts);
                        assert(languages_v(cat.languages@) =~= oldl.update(i as int, lev));
                        assert(lev.code == oldl[i as int].code);
                        assert(lev.translations =~= oldts.push(tev));
                        assert forall|c: Seq<char>|
                            lookup_language(oldl.update(i as int, lev), c) == (if c == language@ {
                                Some(lev.translations)
                            } else {
                                lookup_language(oldl, c)
                            }) by {
                            lemma_lookup_language_update(oldl, i as int, lev, c);
                        }
                        assert forall|t2: Seq<char>|
                            lookup_translation(lev.translations, t2) == (if t2 == translation@ {
                                Some(records@)
                            } else {
                                lookup_translation(oldts, t2)
                            }) by {
                            lemma_lookup_translation_push(oldts, tev, t2);
                        }
                        assert forall|l2: Seq<char>, t2: Seq<char>|
                            lookup_records(cat@, l2, t2) == (if l2 == language@ && t2
                                == translation@ && lookup_records(oldc, l2, t2) is None {
                                Some(records@)
                            } else {
                                lookup_records(oldc, l2, t2)
                            }) by {
                            assert(cat@.languages == oldl.update(i as int, lev));
                            assert(oldc.languages == oldl);
                            if l2 == language@ {
                                assert(lookup_language(cat@.languages, l2) == Some(
                                    lev.translations,
                                ));
                                assert(lookup_language(oldc.languages, l2) == Some(oldts));
                                assert(lookup_translation(lev.translations, t2) == (if t2
                                    == translation@ {
                                    Some(records@)
                                } else {
                                    lookup_translation(oldts, t2)
                                }));
                                assert(lookup_translation(oldts, translation@) is None);
                            } else {
                                assert(lookup_language(cat@.languages, l2) == lookup_language(
                                    oldl,
                                    l2,
                                ));
                            }
                        }
                        lemma_lookup_translation_none(oldts, translation@);
                        assert forall|p: int, q: int|
                            0 <= p < q < cat@.languages.len() implies cat@.languages[p].code
                            != cat@.languages[q].code by {
                            assert(cat@.languages[p] == (if p == i as int {
                                lev
                            } else {
                                oldl[p]
                            }));
                            assert(cat@.languages[q] == (if q == i as int {
                                lev
                            } else {
                                oldl[q]
                            }));
                        }
                        assert forall|p: int|
                            0 <= p < cat@.languages.len() implies distinct_names(
                            cat@.languages[p].translations,
                        ) by {
                            if p == i as int {
                                assert(cat@.languages[p] == lev);
                                assert forall|x: int, y: int|
                                    0 <= x < y < lev.translations.len() implies lev.translations[x].name
                                    != lev.translations[y].name by {
                                    assert(lev.translations[x] == (if x < oldts.len() {
                                        oldts[x]
                                    } else {
                                        tev
                                    }));
                                    assert(lev.translations[y] == (if y < oldts.len() {
                                        oldts[y]
                                    } else {
                                        tev
                                    }));
                                }
                            } else {
                                assert(cat@.languages[p] == oldl[p]);
                            }
                        }
                    }
                },
            }
        },
    }
}

/// Build one complete catalog from the scanned entries of one load cycle.
/// Exactly the pairs with a decodable entry appear, each holding the decoded
/// mapping of its first such entry; a language appears exactly when one of
/// its files decodes. Entries that fail to decode are skipped, never fatal.
pub fn build_catalog(entries: &Vec<LoadEntry>) -> (r: Catalog)
    ensures
        wf_catalog(r@),
        forall|l: Seq<char>, t: Seq<char>|
            #![trigger lookup_records(r@, l, t)]
            match first_parsed(entries_v(entries@), l, t) {
                Some(pm) => lookup_records(r@, l, t) matches Some(rs) && record_map(rs) == pm,
                None => lookup_records(r@, l, t) is None,
            },
        forall|l: Seq<char>|
            #![trigger lookup_language(r@.languages, l)]
            lookup_language(r@.languages, l) is Some <==> provides_language(
                entries_v(entries@),
                l,
            ),
{
    let ghost ev: Seq<LoadEntryV> = entries_v(entries@);
    let mut cat = Catalog { languages: Vec::new() };
    let mut i: usize = 0;
    proof {
        assert(ev.take(0) =~= Seq::<LoadEntryV>::empty());
        assert(languages_v(cat.languages@) =~= Seq::<LanguageV>::empty());
    }
    while i < entries.len()
        invariant
            i <= entries.len(),
            ev == entries_v(entries@),
            wf_catalog(cat@),
            forall|l: Seq<char>, t: Seq<char>|
                #![trigger lookup_records(cat@, l, t)]
                match first_parsed(ev.take(i as int), l, t) {
                    Some(pm) => lookup_records(cat@, l, t) matches Some(rs) && record_map(rs)
                        == pm,
                    None => lookup_records(cat@, l, t) is None,
                },
            forall|l: Seq<char>|
                #![trigger lookup_language(cat@.languages, l)]
                lookup_language(cat@.languages, l) is Some <==> provides_language(
                    ev.take(i as int),
                    l,
                ),
        decreases entries.len() - i,
    {
        let ghost e: LoadEntryV = ev[i as int];
        proof {
            assert(ev.take(i + 1) =~= ev.take(i as int).push(e));
        }
        match parse_record_set(entries[i].contents.as_str()) {
            Some(records) => {
                insert_translation(
                    &mut cat,
                    &entries[i].language,
                    &entries[i].translation,
                    records,
                );
                proof {
                    assert forall|l: Seq<char>, t: Seq<char>|
                        match first_parsed(ev.take(i + 1), l, t) {
                            Some(pm) => #[trigger] lookup_records(cat@, l, t) matches Some(rs)
                                && record_map(rs) == pm,
                            None => lookup_records(cat@, l, t) is None,
                        } by {
                        lemma_first_parsed_push(ev.take(i as int), e, l, t);
                    }
                    assert forall|l: Seq<char>|
                        #[trigger] lookup_language(cat@.languages, l) is Some
                            <==> provides_language(ev.take(i + 1), l) by {
                        if provides_language(ev.take(i + 1), l) {
                            let k = choose|k: int|
                                0 <= k < ev.take(i + 1).len() && (#[trigger] ev.take(
                                    i + 1,
                                )[k]).language == l && parsed_records(
                                    ev.take(i + 1)[k].contents,
                                ) is Some;
                            if k < i {
                                assert(ev.take(i as int)[k] == ev.take(i + 1)[k]);
                                assert(provides_language(ev.take(i as int), l));
                            }
                        }
                        if provides_language(ev.take(i as int), l) {
                            let k = choose|k: int|
                                0 <= k < ev.take(i as int).len() && (#[trigger] ev.take(
                                    i as int,
                                )[k]).language == l && parsed_records(
                                    ev.take(i as int)[k].contents,
                                ) is Some;
                            assert(ev.take(i + 1)[k] == ev.take(i as int)[k]);
                            assert(provides_language(ev.take(i + 1), l));
                        }
                        if l == e.language {
                            assert(ev.take(i + 1)[i as int] == e);
                            assert(provides_language(ev.take(i + 1), l));
                        }
                    }
                }
            },
            None => {
                proof {
                    assert forall|l: Seq<char>, t: Seq<char>|
                        match first_parsed(ev.take(i + 1), l, t) {
                            Some(pm) => #[trigger] lookup_records(cat@, l, t) matches Some(rs)
                                && record_map(rs) == pm,
                            None => lookup_records(cat@, l, t) is None,
                        } by {
                        lemma_first_parsed_push(ev.take(i as int), e, l, t);
                    }
                    assert forall|l: Seq<char>|
                        #[trigger] lookup_language(cat@.languages, l) is Some
                            <==> provides_language(ev.take(i + 1), l) by {
                        if provides_language(ev.take(i + 1), l) {
                            let k = choose|k: int|
                                0 <= k < ev.take(i + 1).len() && (#[trigger] ev.take(
                                    i + 1,
                                )[k]).language == l && parsed_records(
                                    ev.take(i + 1)[k].contents,
                                ) is Some;
                            if k < i {
                                assert(ev.take(i as int)[k] == ev.take(i + 1)[k]);
                                assert(provides_language(ev.take(i as int), l));
                            } else {
                                assert(ev.take(i + 1)[k] == e);
                                assert(false);
                            }
                        }
                        if provides_language(ev.take(i as int), l) {
                            let k = choose|k: int|
                                0 <= k < ev.take(i as int).len() && (#[trigger] ev.take(
                                    i as int,
                                )[k]).language == l && parsed_records(
                                    ev.take(i as int)[k].contents,
                                ) is Some;
                            assert(ev.take(i + 1)[k] == ev.take(i as int)[k]);
                            assert(provides_language(ev.take(i + 1), l));
                        }
                    }
                }
            },
        }
        i = i + 1;
    }
    proof {
        assert(ev.take(entries@.len() as int) =~= ev);
    }
    cat
}

/// `s` holds at least one underscore.
pub open spec fn has_underscore(s: Seq<char>) -> bool {
    exists|i: int| 0 <= i < s.len() && s[i] == '_'
}

/// The position of the first underscore of `s`.
pub open spec fn stem_split_at(s: Seq<char>) -> int {
    choose|k: int|
        0 <= k < s.len() && s[k] == '_' && forall|j: int| 0 <= j < k ==> s[j] != '_'
}

/// How a flat-layout file stem names its pair: the part before the first
/// underscore is the language, the rest is the translation. A stem with no
/// underscore names nothing.
pub open spec fn spec_split_stem(s: Seq<char>) -> Option<(Seq<char>, Seq<char>)> {
    if has_underscore(s) {
        Some((s.take(stem_split_at(s)), s.skip(stem_split_at(s) + 1)))
    } else {
        None
    }
}

/// Split a flat-layout file stem `language_translation` on its first
/// underscore. Supports the single-level directory layout, where each file
/// stem encodes both keys; the nested layout does not use it.
pub fn split_stem(stem: &str) -> (r: Option<(String, String)>)
    ensures
        match r {
            Some(p) => spec_split_stem(stem@) == Some((p.0@, p.1@)),
            None => spec_split_stem(stem@) is None,
        },
{
    let n = stem.unicode_len();
    let mut i: usize = 0;
    while i < n
        invariant
            i <= n,
            n == stem@.len(),
            forall|j: int| 0 <= j < i ==> stem@[j] != '_',
        decreases n - i,
    {
        if stem.get_char(i) == '_' {
            let language = stem.substring_char(0, i).to_owned();
            let translation = stem.substring_char(i + 1, n).to_owned();
            proof {
                let k = stem_split_at(stem@);
                assert(0 <= k < stem@.len() && stem@[k] == '_' && forall|j: int|
                    0 <= j < k ==> stem@[j] != '_');
                assert(k == i as int);
            }
            return Some((language, translation));
        }
        i = i + 1;
    }
    None
}

} // verus!

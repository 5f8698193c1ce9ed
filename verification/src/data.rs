//! The catalog data model: immutable nested mappings from language code to
//! translation name to book to chapter to verse number to verse text.
//!
//! Each level is held as a vector of entries looked up by first match on the
//! key. A catalog whose language codes and translation names are
//! duplicate-free ([`wf_catalog`]) is semantically a map at those levels,
//! and the loader only builds such catalogs; lookups themselves take the
//! first match and need no such assumption.

use vstd::prelude::*;

verus! {

broadcast use vstd::seq_lib::lemma_seq_skip_index, vstd::seq_lib::lemma_seq_skip_len;

/// One verse: its number (an opaque string key) and its text.
#[derive(Clone)]
pub struct Verse {
    pub number: String,
    pub text: String,
}

/// Spec-level image of a [`Verse`].
pub struct VerseV {
    pub number: Seq<char>,
    pub text: Seq<char>,
}

impl View for Verse {
    type V = VerseV;

    open spec fn view(&self) -> VerseV {
        VerseV { number: self.number@, text: self.text@ }
    }
}

/// One chapter: its number (an opaque string key) and its verses.
#[derive(Clone)]
pub struct ChapterEntry {
    pub number: String,
    pub verses: Vec<Verse>,
}

/// Spec-level image of a [`ChapterEntry`].
pub struct ChapterV {
    pub number: Seq<char>,
    pub verses: Seq<VerseV>,
}

impl View for ChapterEntry {
    type V = ChapterV;

    open spec fn view(&self) -> ChapterV {
        ChapterV { number: self.number@, verses: verses_v(self.verses@) }
    }
}

/// One book: its name (an opaque string key) and its chapters.
#[derive(Clone)]
pub struct BookEntry {
    pub name: String,
    pub chapters: Vec<ChapterEntry>,
}

/// Spec-level image of a [`BookEntry`].
pub struct BookV {
    pub name: Seq<char>,
    pub chapters: Seq<ChapterV>,
}

impl View for BookEntry {
    type V = BookV;

    open spec fn view(&self) -> BookV {
        BookV { name: self.name@, chapters: chapters_v(self.chapters@) }
    }
}

/// The full text tree of a single translation: book -> chapter -> verse.
#[derive(Clone)]
pub struct RecordSet {
    pub books: Vec<BookEntry>,
}

/// Spec-level image of a [`RecordSet`].
pub struct RecordSetV {
    pub books: Seq<BookV>,
}

impl View for RecordSet {
    type V = RecordSetV;

    open spec fn view(&self) -> RecordSetV {
        RecordSetV { books: books_v(self.books@) }
    }
}

/// One translation of one language: its name and its record set.
#[derive(Clone)]
pub struct TranslationEntry {
    pub name: String,
    pub records: RecordSet,
}

/// Spec-level image of a [`TranslationEntry`].
pub struct TranslationV {
    pub name: Seq<char>,
    pub records: RecordSetV,
}

impl View for TranslationEntry {
    type V = TranslationV;

    open spec fn view(&self) -> TranslationV {
        TranslationV { name: self.name@, records: self.records@ }
    }
}

/// One language: its code and its translations.
#[derive(Clone)]
pub struct LanguageEntry {
    pub code: String,
    pub translations: Vec<TranslationEntry>,
}

/// Spec-level image of a [`LanguageEntry`].
pub struct LanguageV {
    pub code: Seq<char>,
    pub translations: Seq<TranslationV>,
}

impl View for LanguageEntry {
    type V = LanguageV;

    open spec fn view(&self) -> LanguageV {
        LanguageV { code: self.code@, translations: translations_v(self.translations@) }
    }
}

/// One complete, immutable snapshot of every loaded language, translation and
/// text. A catalog is built once per load cycle and never mutated afterwards.
#[derive(Clone)]
pub struct Catalog {
    pub languages: Vec<LanguageEntry>,
}

/// Spec-level image of a [`Catalog`].
pub struct CatalogV {
    pub languages: Seq<LanguageV>,
}

impl View for Catalog {
    type V = CatalogV;

    open spec fn view(&self) -> CatalogV {
        CatalogV { languages: languages_v(self.languages@) }
    }
}

pub open spec fn verses_v(s: Seq<Verse>) -> Seq<VerseV> {
    s.map_values(|v: Verse| v@)
}

pub open spec fn chapters_v(s: Seq<ChapterEntry>) -> Seq<ChapterV> {
    s.map_values(|c: ChapterEntry| c@)
}

pub open spec fn books_v(s: Seq<BookEntry>) -> Seq<BookV> {
    s.map_values(|b: BookEntry| b@)
}

pub open spec fn translations_v(s: Seq<TranslationEntry>) -> Seq<TranslationV> {
    s.map_values(|t: TranslationEntry| t@)
}

pub open spec fn languages_v(s: Seq<LanguageEntry>) -> Seq<LanguageV> {
    s.map_values(|l: LanguageEntry| l@)
}

/// Text of the verse with the given number, by first match.
pub open spec fn lookup_verse(vs: Seq<VerseV>, number: Seq<char>) -> Option<Seq<char>>
    decreases vs.len(),
{
    if vs.len() == 0 {
        None
    } else if vs[0].number == number {
        Some(vs[0].text)
    } else {
        lookup_verse(vs.skip(1), number)
    }
}

/// Verses of the chapter with the given number, by first match.
pub open spec fn lookup_chapter(cs: Seq<ChapterV>, number: Seq<char>) -> Option<Seq<VerseV>>
    decreases cs.len(),
{
    if cs.len() == 0 {
        None
    } else if cs[0].number == number {
        Some(cs[0].verses)
    } else {
        lookup_chapter(cs.skip(1), number)
    }
}

/// Chapters of the book with the given name, by first match.
pub open spec fn lookup_book(bs: Seq<BookV>, name: Seq<char>) -> Option<Seq<ChapterV>>
    decreases bs.len(),
{
    if bs.len() == 0 {
        None
    } else if bs[0].name == name {
        Some(bs[0].chapters)
    } else {
        lookup_book(bs.skip(1), name)
    }
}

/// Record set of the translation with the given name, by first match.
pub open spec fn lookup_translation(ts: Seq<TranslationV>, name: Seq<char>) -> Option<RecordSetV>
    decreases ts.len(),
{
    if ts.len() == 0 {
        None
    } else if ts[0].name == name {
        Some(ts[0].records)
    } else {
        lookup_translation(ts.skip(1), name)
    }
}

/// Translations of the language with the given code, by first match.
pub open spec fn lookup_language(ls: Seq<LanguageV>, code: Seq<char>) -> Option<Seq<TranslationV>>
    decreases ls.len(),
{
    if ls.len() == 0 {
        None
    } else if ls[0].code == code {
        Some(ls[0].translations)
    } else {
        lookup_language(ls.skip(1), code)
    }
}

/// Find the language entry with the given code, by first match.
pub fn find_language<'a>(ls: &'a Vec<LanguageEntry>, code: &String) -> (r: Option<
    &'a LanguageEntry,
>)
    ensures
        match r {
            Some(e) => lookup_language(languages_v(ls@), code@) == Some(e@.translations),
            None => lookup_language(languages_v(ls@), code@) is None,
        },
{
    let ghost full = languages_v(ls@);
    let mut i: usize = 0;
    proof {
        assert(full.skip(0) =~= full);
    }
    while i < ls.len()
        invariant
            i <= ls.len(),
            full == languages_v(ls@),
            lookup_language(full, code@) == lookup_language(full.skip(i as int), code@),
        decreases ls.len() - i,
    {
        if ls[i].code == *code {
            proof {
                assert(full.skip(i as int)[0] == ls@[i as int]@);
            }
            return Some(&ls[i]);
        }
        proof {
            assert(full.skip(i as int)[0] == ls@[i as int]@);
            assert(full.skip(i as int).skip(1) =~= full.skip(i + 1));
        }
        i = i + 1;
    }
    proof {
        assert(full.skip(i as int) =~= Seq::<LanguageV>::empty());
    }
    None
}

/// Find the translation entry with the given name, by first match.
pub fn find_translation<'a>(ts: &'a Vec<TranslationEntry>, name: &String) -> (r: Option<
    &'a TranslationEntry,
>)
    ensures
        match r {
            Some(e) => lookup_translation(translations_v(ts@), name@) == Some(e@.records),
            None => lookup_translation(translations_v(ts@), name@) is None,
        },
{
    let ghost full = translations_v(ts@);
    let mut i: usize = 0;
    proof {
        assert(full.skip(0) =~= full);
    }
    while i < ts.len()
        invariant
            i <= ts.len(),
            full == translations_v(ts@),
            lookup_translation(full, name@) == lookup_translation(full.skip(i as int), name@),
        decreases ts.len() - i,
    {
        if ts[i].name == *name {
            proof {
                assert(full.skip(i as int)[0] == ts@[i as int]@);
            }
            return Some(&ts[i]);
        }
        proof {
            assert(full.skip(i as int)[0] == ts@[i as int]@);
            assert(full.skip(i as int).skip(1) =~= full.skip(i + 1));
        }
        i = i + 1;
    }
    proof {
        assert(full.skip(i as int) =~= Seq::<TranslationV>::empty());
    }
    None
}

/// Find the book entry with the given name, by first match.
pub fn find_book<'a>(bs: &'a Vec<BookEntry>, name: &String) -> (r: Option<&'a BookEntry>)
    ensures
        match r {
            Some(e) => lookup_book(books_v(bs@), name@) == Some(e@.chapters),
            None => lookup_book(books_v(bs@), name@) is None,
        },
{
    let ghost full = books_v(bs@);
    let mut i: usize = 0;
    proof {
        assert(full.skip(0) =~= full);
    }
    while i < bs.len()
        invariant
            i <= bs.len(),
            full == books_v(bs@),
            lookup_book(full, name@) == lookup_book(full.skip(i as int), name@),
        decreases bs.len() - i,
    {
        if bs[i].name == *name {
            proof {
                assert(full.skip(i as int)[0] == bs@[i as int]@);
            }
            return Some(&bs[i]);
        }
        proof {
            assert(full.skip(i as int)[0] == bs@[i as int]@);
            assert(full.skip(i as int).skip(1) =~= full.skip(i + 1));
        }
        i = i + 1;
    }
    proof {
        assert(full.skip(i as int) =~= Seq::<BookV>::empty());
    }
    None
}

/// Find the chapter entry with the given number, by first match.
pub fn find_chapter<'a>(cs: &'a Vec<ChapterEntry>, number: &String) -> (r: Option<
    &'a ChapterEntry,
>)
    ensures
        match r {
            Some(e) => lookup_chapter(chapters_v(cs@), number@) == Some(e@.verses),
            None => lookup_chapter(chapters_v(cs@), number@) is None,
        },
{
    let ghost full = chapters_v(cs@);
    let mut i: usize = 0;
    proof {
        assert(full.skip(0) =~= full);
    }
    while i < cs.len()
        invariant
            i <= cs.len(),
            full == chapters_v(cs@),
            lookup_chapter(full, number@) == lookup_chapter(full.skip(i as int), number@),
        decreases cs.len() - i,
    {
        if cs[i].number == *number {
            proof {
                assert(full.skip(i as int)[0] == cs@[i as int]@);
            }
            return Some(&cs[i]);
        }
        proof {
            assert(full.skip(i as int)[0] == cs@[i as int]@);
            assert(full.skip(i as int).skip(1) =~= full.skip(i + 1));
        }
        i = i + 1;
    }
    proof {
        assert(full.skip(i as int) =~= Seq::<ChapterV>::empty());
    }
    None
}

/// Find the text of the verse with the given number, by first match.
pub fn find_verse<'a>(vs: &'a Vec<Verse>, number: &String) -> (r: Option<&'a String>)
    ensures
        match r {
            Some(t) => lookup_verse(verses_v(vs@), number@) == Some(t@),
            None => lookup_verse(verses_v(vs@), number@) is None,
        },
{
    let ghost full = verses_v(vs@);
    let mut i: usize = 0;
    proof {
        assert(full.skip(0) =~= full);
    }
    while i < vs.len()
        invariant
            i <= vs.len(),
            full == verses_v(vs@),
            lookup_verse(full, number@) == lookup_verse(full.skip(i as int), number@),
        decreases vs.len() - i,
    {
        if vs[i].number == *number {
            proof {
                assert(full.skip(i as int)[0] == vs@[i as int]@);
            }
            return Some(&vs[i].text);
        }
        proof {
            assert(full.skip(i as int)[0] == vs@[i as int]@);
            assert(full.skip(i as int).skip(1) =~= full.skip(i + 1));
        }
        i = i + 1;
    }
    proof {
        assert(full.skip(i as int) =~= Seq::<VerseV>::empty());
    }
    None
}

/// The language codes of a catalog are pairwise distinct.
pub open spec fn distinct_codes(ls: Seq<LanguageV>) -> bool {
    forall|i: int, j: int| 0 <= i < j < ls.len() ==> ls[i].code != ls[j].code
}

/// The translation names of one language are pairwise distinct.
pub open spec fn distinct_names(ts: Seq<TranslationV>) -> bool {
    forall|i: int, j: int| 0 <= i < j < ts.len() ==> ts[i].name != ts[j].name
}

/// Internal consistency of a catalog: no language code and, within each
/// language, no translation name occurs twice, so the first match of a
/// lookup is the only match and each level is semantically a map.
pub open spec fn wf_catalog(c: CatalogV) -> bool {
    distinct_codes(c.languages) && forall|i: int|
        0 <= i < c.languages.len() ==> distinct_names(#[trigger] c.languages[i].translations)
}

/// A language lookup that misses means no entry carries the code at all.
pub proof fn lemma_lookup_language_none(s: Seq<LanguageV>, code: Seq<char>)
    requires
        lookup_language(s, code) is None,
    ensures
        forall|j: int| 0 <= j < s.len() ==> s[j].code != code,
    decreases s.len(),
{
    if s.len() == 0 {
    } else {
        lemma_lookup_language_none(s.skip(1), code);
        assert forall|j: int| 0 <= j < s.len() implies s[j].code != code by {
            if j > 0 {
                assert(s.skip(1)[j - 1] == s[j]);
            }
        }
    }
}

/// A translation lookup that misses means no entry carries the name at all.
pub proof fn lemma_lookup_translation_none(s: Seq<TranslationV>, name: Seq<char>)
    requires
        lookup_translation(s, name) is None,
    ensures
        forall|j: int| 0 <= j < s.len() ==> s[j].name != name,
    decreases s.len(),
{
    if s.len() == 0 {
    } else {
        lemma_lookup_translation_none(s.skip(1), name);
        assert forall|j: int| 0 <= j < s.len() implies s[j].name != name by {
            if j > 0 {
                assert(s.skip(1)[j - 1] == s[j]);
            }
        }
    }
}

/// The verse map of the chapter reached by the whole key path, if every level
/// of the path is present.
pub open spec fn chapter_verses(
    c: CatalogV,
    lang: Seq<char>,
    translation: Seq<char>,
    book: Seq<char>,
    chapter: Seq<char>,
) -> Option<Seq<VerseV>> {
    match lookup_language(c.languages, lang) {
        None => None,
        Some(ts) => match lookup_translation(ts, translation) {
            None => None,
            Some(rs) => match lookup_book(rs.books, book) {
                None => None,
                Some(cs) => lookup_chapter(cs, chapter),
            },
        },
    }
}

} // verus!

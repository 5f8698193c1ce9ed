//! Query resolution against one catalog snapshot: exact verse lookup and
//! inclusive verse-range expansion, plus the translation listing.
//!
//! A verse specifier is either a single verse key, or a range `A-B` (exactly
//! one `-` in the specifier) denoting the inclusive run of verse numbers from
//! `A` to `B`. A bound that is not a decimal number silently denotes verse
//! zero; verses missing inside the range are silently omitted; a reversed
//! range is empty. A miss at any level of the key path yields an empty
//! result, never an error.

use vstd::prelude::*;
use vstd::string::*;
use crate::data::{
    Catalog, CatalogV, ChapterEntry, LanguageEntry, TranslationEntry, TranslationV, Verse, VerseV,
    chapter_verses, find_book, find_chapter, find_language, find_translation, find_verse,
    lookup_verse, verses_v,
};
use crate::numeric::{dec_string, parse_bound, parse_or_zero, spec_dec};

verus! {

/// `s` holds at least one dash.
pub open spec fn has_dash(s: Seq<char>) -> bool {
    exists|i: int| 0 <= i < s.len() && s[i] == '-'
}

/// `s` holds exactly one dash, so it splits into exactly two range bounds.
pub open spec fn one_dash(s: Seq<char>) -> bool {
    has_dash(s) && forall|i: int, j: int|
        (0 <= i < s.len() && 0 <= j < s.len() && s[i] == '-' && s[j] == '-') ==> i == j
}

/// The position of the dash of a one-dash specifier.
pub open spec fn dash_at(s: Seq<char>) -> int {
    choose|i: int| 0 <= i < s.len() && s[i] == '-'
}

/// The one verse produced for number `i` of a range: a singleton holding the
/// stored text when the chapter has the canonical decimal key of `i`, and
/// empty otherwise.
pub open spec fn range_unit(vs: Seq<VerseV>, i: int) -> Seq<VerseV> {
    if i < 0 {
        Seq::empty()
    } else {
        match lookup_verse(vs, spec_dec(i as nat)) {
            Some(t) => seq![VerseV { number: spec_dec(i as nat), text: t }],
            None => Seq::empty(),
        }
    }
}

/// Range expansion: the verses present for numbers `lo..=hi`, in ascending
/// order of number; empty when `lo > hi`.
pub open spec fn spec_range(vs: Seq<VerseV>, lo: int, hi: int) -> Seq<VerseV>
    decreases hi + 1 - lo,
{
    if lo > hi {
        Seq::empty()
    } else {
        spec_range(vs, lo, hi - 1) + range_unit(vs, hi)
    }
}

/// What resolving a query against a catalog snapshot returns, for every
/// input: the verses of the addressed chapter selected by the verse
/// specifier, and the empty sequence on a miss at any level, on a specifier
/// with more than one dash, and on a reversed range.
pub open spec fn spec_resolve(
    c: CatalogV,
    lang: Seq<char>,
    translation: Seq<char>,
    book: Seq<char>,
    chapter: Seq<char>,
    vspec: Seq<char>,
) -> Seq<VerseV> {
    match chapter_verses(c, lang, translation, book, chapter) {
        None => Seq::empty(),
        Some(vs) => if has_dash(vspec) {
            if one_dash(vspec) {
                spec_range(
                    vs,
                    parse_or_zero(vspec.take(dash_at(vspec))) as int,
                    parse_or_zero(vspec.skip(dash_at(vspec) + 1)) as int,
                )
            } else {
                Seq::empty()
            }
        } else {
            match lookup_verse(vs, vspec) {
                Some(t) => seq![VerseV { number: vspec, text: t }],
                None => Seq::empty(),
            }
        },
    }
}

/// Scan a verse specifier for dashes: `None` when it has none, otherwise the
/// position of the first dash and whether any further dash follows it.
fn scan_dash(s: &str) -> (r: Option<(usize, bool)>)
    ensures
        match r {
            None => !has_dash(s@),
            Some((k, more)) => k < s@.len() && s@[k as int] == '-' && (forall|j: int|
                0 <= j < k ==> s@[j] != '-') && (more <==> exists|j: int|
                k < j < s@.len() && s@[j] == '-'),
        },
{
    let n = s.unicode_len();
    let mut i: usize = 0;
    let mut first: Option<usize> = None;
    while i < n
        invariant
            i <= n,
            n == s@.len(),
            match first {
                None => forall|j: int| 0 <= j < i ==> s@[j] != '-',
                Some(k) => k < i && s@[k as int] == '-' && (forall|j: int|
                    0 <= j < k ==> s@[j] != '-') && (forall|j: int|
                    k < j < i ==> s@[j] != '-'),
            },
        decreases n - i,
    {
        if s.get_char(i) == '-' {
            match first {
                None => {
                    first = Some(i);
                },
                Some(k) => {
                    return Some((k, true));
                },
            }
        }
        i = i + 1;
    }
    match first {
        None => None,
        Some(k) => Some((k, false)),
    }
}

/// Resolve one query against one catalog snapshot. Pure: the result is a
/// function of the snapshot and the query parameters alone, and resolution
/// neither mutates the catalog nor fails — a missing key at any level simply
/// gives an empty result.
pub fn resolve(
    catalog: &Catalog,
    lang: &str,
    translation: &str,
    book: &str,
    chapter: &str,
    verse_spec: &str,
) -> (r: Vec<Verse>)
    ensures
        verses_v(r@) == spec_resolve(catalog@, lang@, translation@, book@, chapter@, verse_spec@),
{
    let mut out: Vec<Verse> = Vec::new();
    proof {
        assert(verses_v(out@) =~= Seq::<VerseV>::empty());
    }
    let le: &LanguageEntry = match find_language(&catalog.languages, &lang.to_owned()) {
        Some(e) => e,
        None => {
            return out;
        },
    };
    let te: &TranslationEntry = match find_translation(&le.translations, &translation.to_owned()) {
        Some(e) => e,
        None => {
            return out;
        },
    };
    let be = match find_book(&te.records.books, &book.to_owned()) {
        Some(e) => e,
        None => {
            return out;
        },
    };
    let ce: &ChapterEntry = match find_chapter(&be.chapters, &chapter.to_owned()) {
        Some(e) => e,
        None => {
            return out;
        },
    };
    let verses: &Vec<Verse> = &ce.verses;
    let ghost vs: Seq<VerseV> = verses_v(verses@);
    proof {
        assert(chapter_verses(catalog@, lang@, translation@, book@, chapter@) == Some(vs));
    }
    match scan_dash(verse_spec) {
        None => {
            match find_verse(verses, &verse_spec.to_owned()) {
                Some(text) => {
                    out.push(Verse { number: verse_spec.to_owned(), text: text.clone() });
                    proof {
                        assert(verses_v(out@) =~= seq![
                            VerseV {
                                number: verse_spec@,
                                text: lookup_verse(vs, verse_spec@)->Some_0,
                            },
                        ]);
                    }
                },
                None => {},
            }
            out
        },
        Some((k, more)) => {
            if more {
                proof {
                    let j = choose|j: int| k < j < verse_spec@.len() && verse_spec@[j] == '-';
                    assert(!one_dash(verse_spec@));
                }
                out
            } else {
                proof {
                    assert(one_dash(verse_spec@));
                    assert(dash_at(verse_spec@) == k as int) by {
                        let i = dash_at(verse_spec@);
                        assert(0 <= i < verse_spec@.len() && verse_spec@[i] == '-');
                    }
                }
                let n = verse_spec.unicode_len();
                let a = verse_spec.substring_char(0, k);
                let b = verse_spec.substring_char(k + 1, n);
                proof {
                    assert(a@ =~= verse_spec@.take(k as int));
                    assert(b@ =~= verse_spec@.skip(k as int + 1));
                }
                let lo = parse_bound(a);
                let hi = parse_bound(b);
                let ghost target = spec_range(vs, lo as int, hi as int);
                proof {
                    assert(spec_resolve(
                        catalog@,
                        lang@,
                        translation@,
                        book@,
                        chapter@,
                        verse_spec@,
                    ) == target);
                }
                if lo > hi {
                    return out;
                }
                let mut i: u64 = lo;
                loop
                    invariant_except_break
                        lo <= i <= hi,
                        vs == verses_v(verses@),
                        verses_v(out@) == spec_range(vs, lo as int, i as int - 1),
                    ensures
                        verses_v(out@) == spec_range(vs, lo as int, hi as int),
                    decreases hi - i,
                {
                    let key = dec_string(i);
                    let ghost before = out@;
                    match find_verse(verses, &key) {
                        Some(text) => {
                            out.push(Verse { number: key, text: text.clone() });
                            proof {
                                assert(verses_v(out@) =~= verses_v(before) + range_unit(
                                    vs,
                                    i as int,
                                ));
                            }
                        },
                        None => {
                            proof {
                                assert(verses_v(out@) =~= verses_v(before) + range_unit(
                                    vs,
                                    i as int,
                                ));
                            }
                        },
                    }
                    if i == hi {
                        break ;
                    }
                    i = i + 1;
                }
                proof {
                    assert(verses_v(out@) == target);
                }
                out
            }
        },
    }
}

/// The translation listing of one language: its code and the names of its
/// loaded translations.
pub struct LanguageTranslations {
    pub language: String,
    pub names: Vec<String>,
}

/// Spec-level image of a [`LanguageTranslations`].
pub struct LanguageTranslationsV {
    pub language: Seq<char>,
    pub names: Seq<Seq<char>>,
}

impl View for LanguageTranslations {
    type V = LanguageTranslationsV;

    open spec fn view(&self) -> LanguageTranslationsV {
        LanguageTranslationsV { language: self.language@, names: strings_v(self.names@) }
    }
}

pub open spec fn strings_v(s: Seq<String>) -> Seq<Seq<char>> {
    s.map_values(|x: String| x@)
}

/// The translation names of one language, in stored order.
pub open spec fn spec_translation_names(ts: Seq<TranslationV>) -> Seq<Seq<char>> {
    ts.map_values(|t: TranslationV| t.name)
}

/// List, for every loaded language, the names of its translations: one entry
/// per language, in stored order, each carrying that language's translation
/// names in stored order. Read-only: a pure function of the snapshot.
pub fn list_translations(catalog: &Catalog) -> (r: Vec<LanguageTranslations>)
    ensures
        r@.len() == catalog@.languages.len(),
        forall|i: int|
            0 <= i < r@.len() ==> (#[trigger] r@[i])@.language == catalog@.languages[i].code
                && r@[i]@.names == spec_translation_names(catalog@.languages[i].translations),
{
    let mut out: Vec<LanguageTranslations> = Vec::new();
    let mut i: usize = 0;
    while i < catalog.languages.len()
        invariant
            i <= catalog.languages.len(),
            out@.len() == i,
            forall|k: int|
                0 <= k < i ==> (#[trigger] out@[k])@.language == catalog@.languages[k].code
                    && out@[k]@.names == spec_translation_names(
                    catalog@.languages[k].translations,
                ),
        decreases catalog.languages.len() - i,
    {
        let le = &catalog.languages[i];
        let mut names: Vec<String> = Vec::new();
        let mut j: usize = 0;
        while j < le.translations.len()
            invariant
                j <= le.translations.len(),
                names@.len() == j,
                forall|k: int| 0 <= k < j ==> strings_v(names@)[k] == le.translations@[k].name@,
            decreases le.translations.len() - j,
        {
            let ghost before = names@;
            names.push(le.translations[j].name.clone());
            proof {
                assert(names@ == before.push(le.translations@[j as int].name));
                assert forall|k: int|
                    0 <= k < j + 1 implies strings_v(names@)[k] == le.translations@[k].name@ by {
                    if k < j {
                        assert(names@[k] == before[k]);
                        assert(strings_v(before)[k] == le.translations@[k].name@);
                        assert(strings_v(names@)[k] == names@[k]@);
                    } else {
                        assert(names@[k] == le.translations@[j as int].name);
                    }
                }
            }
            j = j + 1;
        }
        proof {
            assert(strings_v(names@) =~= spec_translation_names(
                catalog@.languages[i as int].translations,
            ));
        }
        out.push(LanguageTranslations { language: le.code.clone(), names });
        i = i + 1;
    }
    out
}

} // verus!

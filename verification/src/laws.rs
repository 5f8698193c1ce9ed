//! The laws of the store, stated over the spec functions that the library's
//! contracts use and proved once and for all.

use vstd::prelude::*;
use crate::data::{CatalogV, VerseV, chapter_verses, lookup_verse};
use crate::loader::{LoadEntryV, first_parsed, lookup_records, provides_language};
use crate::numeric::{digits_val, lemma_spec_dec_val, parse_or_zero};
use crate::resolve::{dash_at, has_dash, one_dash, range_unit, spec_range, spec_resolve};

verus! {

/// Law: a verse stored under a full key path is resolved exactly, as the
/// one-element sequence holding its stored text — provided its verse key
/// holds no dash, since a key with a dash is read as a range specifier and
/// is not reachable by an exact lookup.
pub proof fn lemma_resolve_present(
    c: CatalogV,
    lang: Seq<char>,
    translation: Seq<char>,
    book: Seq<char>,
    chapter: Seq<char>,
    verse: Seq<char>,
    text: Seq<char>,
)
    requires
        chapter_verses(c, lang, translation, book, chapter) matches Some(vs) && lookup_verse(
            vs,
            verse,
        ) == Some(text),
        !has_dash(verse),
    ensures
        spec_resolve(c, lang, translation, book, chapter, verse) == seq![
            VerseV { number: verse, text },
        ],
{
}

/// Law: a lookup that misses at the language, translation, book or chapter
/// level resolves to the empty sequence, whatever the verse specifier says —
/// absence is a normal outcome, never a fault.
pub proof fn lemma_resolve_missing_path(
    c: CatalogV,
    lang: Seq<char>,
    translation: Seq<char>,
    book: Seq<char>,
    chapter: Seq<char>,
    vspec: Seq<char>,
)
    requires
        chapter_verses(c, lang, translation, book, chapter) is None,
    ensures
        spec_resolve(c, lang, translation, book, chapter, vspec) == Seq::<VerseV>::empty(),
{
}

/// Law: an exact lookup of a verse key absent from an existing chapter
/// resolves to the empty sequence, never a fault.
pub proof fn lemma_resolve_missing_verse(
    c: CatalogV,
    lang: Seq<char>,
    translation: Seq<char>,
    book: Seq<char>,
    chapter: Seq<char>,
    verse: Seq<char>,
)
    requires
        chapter_verses(c, lang, translation, book, chapter) matches Some(vs) && lookup_verse(
            vs,
            verse,
        ) is None,
        !has_dash(verse),
    ensures
        spec_resolve(c, lang, translation, book, chapter, verse) == Seq::<VerseV>::empty(),
{
}

/// Law: a reversed range — one whose first bound exceeds its second —
/// resolves to the empty sequence.
pub proof fn lemma_reversed_range_empty(
    c: CatalogV,
    lang: Seq<char>,
    translation: Seq<char>,
    book: Seq<char>,
    chapter: Seq<char>,
    vspec: Seq<char>,
)
    requires
        one_dash(vspec),
        parse_or_zero(vspec.take(dash_at(vspec))) > parse_or_zero(vspec.skip(dash_at(vspec) + 1)),
    ensures
        spec_resolve(c, lang, translation, book, chapter, vspec) == Seq::<VerseV>::empty(),
{
}

/// Every verse a range expansion yields carries a number no larger than the
/// range's upper bound.
proof fn lemma_range_value_bound(vs: Seq<VerseV>, lo: int, hi: int)
    ensures
        forall|p: int|
            0 <= p < spec_range(vs, lo, hi).len() ==> digits_val(
                #[trigger] spec_range(vs, lo, hi)[p].number,
            ) <= hi,
    decreases hi + 1 - lo,
{
    if lo > hi {
    } else {
        lemma_range_value_bound(vs, lo, hi - 1);
        let r = spec_range(vs, lo, hi);
        let rp = spec_range(vs, lo, hi - 1);
        let u = range_unit(vs, hi);
        assert forall|p: int|
            0 <= p < r.len() implies digits_val(r[p].number) <= hi by {
            if p < rp.len() {
                assert(r[p] == rp[p]);
            } else {
                assert(r[p] == u[p - rp.len()]);
                lemma_spec_dec_val(hi as nat);
            }
        }
    }
}

/// Law: the verses of a range expansion come out in strictly ascending
/// order of verse number — the numbers read as integers grow from one
/// element to the next.
pub proof fn lemma_range_ascending(vs: Seq<VerseV>, lo: int, hi: int)
    ensures
        forall|p: int, q: int|
            0 <= p < q < spec_range(vs, lo, hi).len() ==> digits_val(
                #[trigger] spec_range(vs, lo, hi)[p].number,
            ) < digits_val(#[trigger] spec_range(vs, lo, hi)[q].number),
    decreases hi + 1 - lo,
{
    if lo > hi {
    } else {
        lemma_range_ascending(vs, lo, hi - 1);
        lemma_range_value_bound(vs, lo, hi - 1);
        let r = spec_range(vs, lo, hi);
        let rp = spec_range(vs, lo, hi - 1);
        let u = range_unit(vs, hi);
        assert forall|p: int, q: int|
            0 <= p < q < r.len() implies digits_val(r[p].number) < digits_val(r[q].number) by {
            if q < rp.len() {
                assert(r[p] == rp[p]);
                assert(r[q] == rp[q]);
            } else {
                assert(r[q] == u[q - rp.len()]);
                assert(r[p] == rp[p]);
                lemma_spec_dec_val(hi as nat);
            }
        }
    }
}

/// Law: a range query resolves to verses in strictly ascending order of
/// verse number, however the chapter stores them.
pub proof fn lemma_resolve_range_ascending(
    c: CatalogV,
    lang: Seq<char>,
    translation: Seq<char>,
    book: Seq<char>,
    chapter: Seq<char>,
    vspec: Seq<char>,
)
    ensures
        forall|p: int, q: int|
            0 <= p < q < spec_resolve(c, lang, translation, book, chapter, vspec).len()
                && has_dash(vspec) ==> digits_val(
                #[trigger] spec_resolve(c, lang, translation, book, chapter, vspec)[p].number,
            ) < digits_val(
                #[trigger] spec_resolve(c, lang, translation, book, chapter, vspec)[q].number,
            ),
{
    match chapter_verses(c, lang, translation, book, chapter) {
        None => {},
        Some(vs) => {
            if one_dash(vspec) {
                lemma_range_ascending(
                    vs,
                    parse_or_zero(vspec.take(dash_at(vspec))) as int,
                    parse_or_zero(vspec.skip(dash_at(vspec) + 1)) as int,
                );
            }
        },
    }
}

/// Law: one replace swaps the whole catalog at once. A reader that took its
/// snapshot before the swap resolves every query against the old catalog,
/// unchanged by the swap; a reader after the swap resolves every query
/// against the new catalog exactly. No reader can observe a mixture, because
/// a resolution is a pure function of the one catalog value its snapshot
/// holds, and a replace publishes the new catalog as one whole value.
///
/// `snap` is what `Store::snapshot` returned before the swap (its contract
/// makes it the then-published catalog `before`); `after` is the store's
/// value once `Store::replace(next)` returns (its contract makes it `next`).
pub proof fn lemma_swap_atomicity(
    snap: CatalogV,
    before: CatalogV,
    next: CatalogV,
    after: CatalogV,
    lang: Seq<char>,
    translation: Seq<char>,
    book: Seq<char>,
    chapter: Seq<char>,
    vspec: Seq<char>,
)
    requires
        snap == before,
        after == next,
    ensures
        spec_resolve(snap, lang, translation, book, chapter, vspec) == spec_resolve(
            before,
            lang,
            translation,
            book,
            chapter,
            vspec,
        ),
        spec_resolve(after, lang, translation, book, chapter, vspec) == spec_resolve(
            next,
            lang,
            translation,
            book,
            chapter,
            vspec,
        ),
{
}

/// Law: a failed reload cycle keeps the store unchanged — its contract gives
/// `after == before` on an error — so every subsequent query answers from
/// the last good catalog exactly as it did before the failed cycle.
pub proof fn lemma_failed_reload_keeps_answers(
    before: CatalogV,
    after: CatalogV,
    lang: Seq<char>,
    translation: Seq<char>,
    book: Seq<char>,
    chapter: Seq<char>,
    vspec: Seq<char>,
)
    requires
        after == before,
    ensures
        spec_resolve(after, lang, translation, book, chapter, vspec) == spec_resolve(
            before,
            lang,
            translation,
            book,
            chapter,
            vspec,
        ),
{
}

/// Law: loading is deterministic in the scanned inputs. Two catalogs built
/// from equal entry sequences agree everywhere: the same languages are
/// present, the same (language, translation) pairs are filled, and each
/// filled pair holds a record set with the same keys and the same texts —
/// deep equality at the map level, whatever order the entries of either
/// catalog came out in.
pub proof fn lemma_load_deterministic(
    e1: Seq<LoadEntryV>,
    e2: Seq<LoadEntryV>,
    c1: CatalogV,
    c2: CatalogV,
)
    requires
        e1 == e2,
        forall|l: Seq<char>, t: Seq<char>|
            #![trigger lookup_records(c1, l, t)]
            match first_parsed(e1, l, t) {
                Some(pm) => lookup_records(c1, l, t) matches Some(rs)
                    && crate::loader::record_map(rs) == pm,
                None => lookup_records(c1, l, t) is None,
            },
        forall|l: Seq<char>, t: Seq<char>|
            #![trigger lookup_records(c2, l, t)]
            match first_parsed(e2, l, t) {
                Some(pm) => lookup_records(c2, l, t) matches Some(rs)
                    && crate::loader::record_map(rs) == pm,
                None => lookup_records(c2, l, t) is None,
            },
        forall|l: Seq<char>|
            #![trigger crate::data::lookup_language(c1.languages, l)]
            crate::data::lookup_language(c1.languages, l) is Some <==> provides_language(e1, l),
        forall|l: Seq<char>|
            #![trigger crate::data::lookup_language(c2.languages, l)]
            crate::data::lookup_language(c2.languages, l) is Some <==> provides_language(e2, l),
    ensures
        forall|l: Seq<char>|
            #![trigger crate::data::lookup_language(c1.languages, l)]
            crate::data::lookup_language(c1.languages, l) is Some <==> crate::data::lookup_language(
                c2.languages,
                l,
            ) is Some,
        forall|l: Seq<char>, t: Seq<char>|
            #![trigger lookup_records(c1, l, t)]
            (lookup_records(c1, l, t) is Some <==> lookup_records(c2, l, t) is Some),
        forall|l: Seq<char>, t: Seq<char>|
            #![trigger lookup_records(c1, l, t)]
            (lookup_records(c1, l, t) is Some && lookup_records(c2, l, t) is Some)
                ==> crate::loader::record_map(lookup_records(c1, l, t)->Some_0)
                == crate::loader::record_map(lookup_records(c2, l, t)->Some_0),
{
    assert forall|l: Seq<char>, t: Seq<char>|
        (#[trigger] lookup_records(c1, l, t)) is Some <==> lookup_records(c2, l, t) is Some by {
        assert(match first_parsed(e1, l, t) {
            Some(pm) => lookup_records(c1, l, t) matches Some(rs) && crate::loader::record_map(rs)
                == pm,
            None => lookup_records(c1, l, t) is None,
        });
        assert(match first_parsed(e2, l, t) {
            Some(pm) => lookup_records(c2, l, t) matches Some(rs) && crate::loader::record_map(rs)
                == pm,
            None => lookup_records(c2, l, t) is None,
        });
    }
    assert forall|l: Seq<char>, t: Seq<char>|
        ((#[trigger] lookup_records(c1, l, t)) is Some && lookup_records(c2, l, t) is Some)
            implies crate::loader::record_map(lookup_records(c1, l, t)->Some_0)
            == crate::loader::record_map(lookup_records(c2, l, t)->Some_0) by {
        assert(match first_parsed(e1, l, t) {
            Some(pm) => lookup_records(c1, l, t) matches Some(rs) && crate::loader::record_map(rs)
                == pm,
            None => lookup_records(c1, l, t) is None,
        });
        assert(match first_parsed(e2, l, t) {
            Some(pm) => lookup_records(c2, l, t) matches Some(rs) && crate::loader::record_map(rs)
                == pm,
            None => lookup_records(c2, l, t) is None,
        });
    }
}

} // verus!

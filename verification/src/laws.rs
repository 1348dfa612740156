//! What holds of the store whatever it holds: putting a record in twice is
//! putting it in once, a record put in replaces the old one whole, and the
//! pages of a search hold every match once.

use crate::catalog::{
    accepts, ascending, id_above, id_below, id_is, lemma_filter_keeps_all,
    lemma_filter_keeps_none, matching, stored, upserted, FacetView,
};
use crate::catalog::lemma_cut;
use crate::ingest::{latest, loaded, RowError};
use crate::paging::{lemma_pages_cover, pages_joined, spec_filled_pages, window};
use crate::query::{first_titled, first_worded, title_matches, word_matches};
use crate::command::shown_query;
use crate::text::{
    is_blank, occurs_at, occurs_in, occurs_in_order, occurs_in_order_from, pieces, substituted,
};
use crate::song::{Song, SongView, Variant};
use vstd::prelude::*;

verus! {

/// Filtering what a filter kept, by a test that only passes what the first
/// one passes, is filtering by that test alone.
pub proof fn lemma_filter_twice<A>(items: Seq<A>, first: spec_fn(A) -> bool, then_by: spec_fn(A) -> bool)
    requires
        forall|item: A| #[trigger] then_by(item) ==> first(item),
    ensures
        items.filter(first).filter(then_by) == items.filter(then_by),
    decreases items.len(),
{
    reveal(Seq::filter);
    if items.len() > 0 {
        let front = items.drop_last();
        lemma_filter_twice(front, first, then_by);
        if first(items.last()) {
            front.filter(first).lemma_filter_push(items.last(), then_by);
        }
    }
}

/// Filtering what a filter kept, by a test that passes nothing of what the
/// first one passes, leaves nothing.
pub proof fn lemma_filter_apart<A>(items: Seq<A>, first: spec_fn(A) -> bool, then_by: spec_fn(A) -> bool)
    requires
        forall|item: A| #[trigger] first(item) ==> !then_by(item),
    ensures
        items.filter(first).filter(then_by) == Seq::<A>::empty(),
{
    let kept = items.filter(first);
    assert forall|i: int| 0 <= i < kept.len() implies !then_by(#[trigger] kept[i]) by {
        items.lemma_filter_pred(first, i);
    }
    lemma_filter_keeps_none(kept, then_by);
}

/// The records that a filter keeps of an ascending list are ascending.
pub proof fn lemma_filter_ascending(records: Seq<SongView>, pred: spec_fn(SongView) -> bool)
    requires
        ascending(records),
    ensures
        ascending(records.filter(pred)),
    decreases records.len(),
{
    reveal(Seq::filter);
    if records.len() > 0 {
        let front = records.drop_last();
        let kept = front.filter(pred);
        lemma_filter_ascending(front, pred);
        assert forall|k: int| 0 <= k < kept.len() implies (#[trigger] kept[k]).id
            < records.last().id by {
            assert(kept.contains(kept[k]));
            front.lemma_filter_contains_rev(pred, kept[k]);
            let j = choose|j: int| 0 <= j < front.len() && front[j] == kept[k];
            assert(records[j].id < records[records.len() - 1].id);
        }
    }
}

/// A window of an ascending list is ascending.
pub proof fn lemma_window_ascending(records: Seq<SongView>, offset: int, limit: int)
    requires
        ascending(records),
        offset >= 0,
        limit >= 0,
    ensures
        ascending(window(records, offset, limit)),
{
    let part = window(records, offset, limit);
    let from = if offset < records.len() {
        offset
    } else {
        records.len() as int
    };
    assert forall|i: int, j: int| 0 <= i < j < part.len() implies part[i].id < part[j].id by {
        assert(records[from + i].id < records[from + j].id);
    }
}

/// A text stands in itself.
pub proof fn lemma_occurs_in_itself(text: Seq<char>)
    ensures
        occurs_in(text, text),
{
    assert(text.subrange(0, text.len() as int) =~= text);
    assert(occurs_at(text, text, 0));
}

/// A title search finds the record whose title holds the fragment and
/// before which no record's title does.
pub proof fn lemma_first_titled(records: Seq<SongView>, fragment: Seq<char>, at: int)
    requires
        fragment.len() > 0,
        0 <= at < records.len(),
        occurs_in(records[at].title, fragment),
        forall|i: int| 0 <= i < at ==> !occurs_in((#[trigger] records[i]).title, fragment),
    ensures
        first_titled(records, fragment) == Some(records[at]),
{
    let test = accepts(FacetView::Title { fragment });
    let low = records.take(at);
    let high = records.skip(at);
    assert(records =~= low + high);
    Seq::filter_distributes_over_add(low, high, test);
    lemma_filter_keeps_none(low, test);
    let one = seq![records[at]];
    assert(high =~= one + high.skip(1));
    Seq::filter_distributes_over_add(one, high.skip(1), test);
    lemma_filter_keeps_all(one, test);
    assert(title_matches(records, fragment) =~= one + high.skip(1).filter(test));
}

/// A title search for a whole title finds a record: the one with that
/// title, unless the title stands in the title of an earlier record.
pub proof fn lemma_whole_title_found(records: Seq<SongView>, at: int)
    requires
        0 <= at < records.len(),
        records[at].title.len() > 0,
    ensures
        first_titled(records, records[at].title) is Some,
        (forall|i: int|
            0 <= i < at ==> !occurs_in((#[trigger] records[i]).title, records[at].title))
            ==> first_titled(records, records[at].title) == Some(records[at]),
{
    let fragment = records[at].title;
    lemma_occurs_in_itself(fragment);
    assert(accepts(FacetView::Title { fragment })(records[at]));
    records.lemma_filter_contains(accepts(FacetView::Title { fragment }), at);
    if forall|i: int| 0 <= i < at ==> !occurs_in((#[trigger] records[i]).title, fragment) {
        lemma_first_titled(records, fragment, at);
    }
}

/// A search finds the records that its facet looks for, all of them and no
/// others.
pub proof fn lemma_matching_exact(records: Seq<SongView>, facet: FacetView)
    ensures
        forall|record: SongView| #[trigger]
            matching(records, facet).contains(record) <==> records.contains(record)
                && facet.admits(record),
{
    let test = accepts(facet);
    let hits = matching(records, facet);
    assert forall|record: SongView| #[trigger] hits.contains(record) <==> records.contains(record)
        && facet.admits(record) by {
        if hits.contains(record) {
            let k = choose|k: int| 0 <= k < hits.len() && hits[k] == record;
            records.lemma_filter_pred(test, k);
            records.lemma_filter_contains_rev(test, record);
        }
        if records.contains(record) && facet.admits(record) {
            let i = choose|i: int| 0 <= i < records.len() && records[i] == record;
            records.lemma_filter_contains(test, i);
        }
    }
}

/// The variants reported for a level are those whose chart has the level,
/// all of them and no others; a song has the level just when one is
/// reported.
pub proof fn lemma_matched_variants_exact(record: SongView, button: int, level: int)
    ensures
        forall|variant: Variant| #[trigger]
            record.matched_variants(button, level).contains(variant) <==> record.slot_is(
                button,
                variant.slot(),
                level,
            ),
        record.has_level(button, level) <==> record.matched_variants(button, level).len() > 0,
{
    let hits = record.matched_variants(button, level);
    assert forall|variant: Variant| #[trigger] hits.contains(variant) <==> record.slot_is(
        button,
        variant.slot(),
        level,
    ) by {
        if record.slot_is(button, variant.slot(), level) {
            let nm: int = if record.slot_is(button, 0, level) {
                1
            } else {
                0
            };
            let hd: int = if record.slot_is(button, 1, level) {
                1
            } else {
                0
            };
            let mx: int = if record.slot_is(button, 2, level) {
                1
            } else {
                0
            };
            let at: int = match variant {
                Variant::Nm => 0,
                Variant::Hd => nm,
                Variant::Mx => nm + hd,
                Variant::Sc => nm + hd + mx,
            };
            assert(hits[at] == variant);
        }
    }
}

/// Two tests that agree on every item of a list keep the same items of it.
pub proof fn lemma_filter_same<A>(items: Seq<A>, one: spec_fn(A) -> bool, other: spec_fn(A) -> bool)
    requires
        forall|i: int| 0 <= i < items.len() ==> one(#[trigger] items[i]) == other(items[i]),
    ensures
        items.filter(one) == items.filter(other),
    decreases items.len(),
{
    reveal(Seq::filter);
    if items.len() > 0 {
        let front = items.drop_last();
        assert forall|i: int| 0 <= i < front.len() implies one(#[trigger] front[i]) == other(
            front[i],
        ) by {
            assert(front[i] == items[i]);
        }
        lemma_filter_same(front, one, other);
        assert(one(items[items.len() - 1]) == other(items[items.len() - 1]));
    }
}

/// A text without the separator is its own single piece.
pub proof fn lemma_pieces_plain(text: Seq<char>, sep: char)
    requires
        forall|i: int| 0 <= i < text.len() ==> text[i] != sep,
    ensures
        pieces(text, sep) == seq![text],
    decreases text.len(),
{
    if text.len() == 0 {
        assert(text =~= Seq::<char>::empty());
        assert(pieces(text, sep) =~= seq![text]);
    } else {
        let front = text.drop_last();
        lemma_pieces_plain(front, sep);
        assert(front.push(text.last()) =~= text);
        assert(seq![front].drop_last().push(seq![front].last().push(text.last())) =~= seq![text]);
    }
}

/// One text stands in order in another just when it stands in it.
pub proof fn lemma_one_part(hay: Seq<char>, part: Seq<char>)
    ensures
        occurs_in_order(hay, seq![part]) <==> occurs_in(hay, part),
{
    let parts = seq![part];
    assert(parts[0] == part);
    assert(parts.skip(1).len() == 0);
    if occurs_in(hay, part) {
        let at = choose|at: int| occurs_at(hay, part, at);
        assert(0 <= at && occurs_at(hay, parts[0], at) && occurs_in_order_from(
            hay,
            parts.skip(1),
            at + parts[0].len(),
        ));
    }
    if occurs_in_order(hay, parts) {
        let at = choose|at: int|
            0 <= at && #[trigger] occurs_at(hay, parts[0], at) && occurs_in_order_from(
                hay,
                parts.skip(1),
                at + parts[0].len(),
            );
        assert(occurs_at(hay, part, at));
    }
}

/// A search for words that are one word, with no space in it, is the title
/// search for that word.
pub proof fn lemma_single_word(records: Seq<SongView>, query: Seq<char>)
    requires
        forall|i: int| 0 <= i < query.len() ==> query[i] != ' ',
    ensures
        first_worded(records, query) == first_titled(records, query),
{
    if query.len() > 0 {
        assert(query[0] != ' ');
        assert(!is_blank(query));
        lemma_pieces_plain(query, ' ');
        let by_words = accepts(FacetView::Words { parts: pieces(query, ' ') });
        let by_title = accepts(FacetView::Title { fragment: query });
        assert forall|i: int| 0 <= i < records.len() implies by_words(#[trigger] records[i])
            == by_title(records[i]) by {
            lemma_one_part(records[i].title, query);
        }
        lemma_filter_same(records, by_words, by_title);
    }
}

/// Whether the texts of `parts`, of which there is one at least, stand in
/// `hay` from position `from` on in their order, the last of them at the
/// end of `hay`.
pub open spec fn stands_to_end(hay: Seq<char>, parts: Seq<Seq<char>>, from: int) -> bool
    decreases parts.len(),
{
    if parts.len() == 0 {
        false
    } else if parts.len() == 1 {
        from <= hay.len() - parts[0].len() && occurs_at(hay, parts[0], hay.len() - parts[0].len())
    } else {
        exists|at: int|
            from <= at && #[trigger] occurs_at(hay, parts[0], at) && stands_to_end(
                hay,
                parts.skip(1),
                at + parts[0].len(),
            )
    }
}

/// What stands in order up to the end stands in order.
pub proof fn lemma_to_end_in_order(hay: Seq<char>, parts: Seq<Seq<char>>, from: int)
    requires
        stands_to_end(hay, parts, from),
    ensures
        occurs_in_order_from(hay, parts, from),
    decreases parts.len(),
{
    if parts.len() == 1 {
        let at = hay.len() - parts[0].len();
        assert(parts.skip(1).len() == 0);
        assert(from <= at && occurs_at(hay, parts[0], at) && occurs_in_order_from(
            hay,
            parts.skip(1),
            at + parts[0].len(),
        ));
    } else {
        let at = choose|at: int|
            from <= at && #[trigger] occurs_at(hay, parts[0], at) && stands_to_end(
                hay,
                parts.skip(1),
                at + parts[0].len(),
            );
        lemma_to_end_in_order(hay, parts.skip(1), at + parts[0].len());
    }
}

/// What stands at a position in a text stands there in the text made longer.
pub proof fn lemma_occurs_at_longer(hay: Seq<char>, needle: Seq<char>, at: int, c: char)
    requires
        occurs_at(hay, needle, at),
    ensures
        occurs_at(hay.push(c), needle, at),
{
    assert(hay.push(c).subrange(at, at + needle.len()) =~= hay.subrange(at, at + needle.len()));
}

/// After parts that stand up to the end of a text, an empty part stands at
/// the end of the text made one character longer.
pub proof fn lemma_to_end_new_piece(hay: Seq<char>, parts: Seq<Seq<char>>, from: int, c: char)
    requires
        stands_to_end(hay, parts, from),
    ensures
        stands_to_end(hay.push(c), parts.push(Seq::<char>::empty()), from),
    decreases parts.len(),
{
    let longer = hay.push(c);
    let more = parts.push(Seq::<char>::empty());
    assert(more[0] == parts[0]);
    if parts.len() == 1 {
        let at = hay.len() - parts[0].len();
        lemma_occurs_at_longer(hay, parts[0], at, c);
        let rest = more.skip(1);
        assert(rest.len() == 1 && rest[0] == Seq::<char>::empty());
        assert(longer.subrange(longer.len() as int, longer.len() as int) =~= Seq::<char>::empty());
        assert(stands_to_end(longer, rest, at + parts[0].len()));
        assert(from <= at && occurs_at(longer, more[0], at) && stands_to_end(
            longer,
            more.skip(1),
            at + more[0].len(),
        ));
    } else {
        let at = choose|at: int|
            from <= at && #[trigger] occurs_at(hay, parts[0], at) && stands_to_end(
                hay,
                parts.skip(1),
                at + parts[0].len(),
            );
        lemma_occurs_at_longer(hay, parts[0], at, c);
        lemma_to_end_new_piece(hay, parts.skip(1), at + parts[0].len(), c);
        assert(more.skip(1) =~= parts.skip(1).push(Seq::<char>::empty()));
        assert(from <= at && occurs_at(longer, more[0], at) && stands_to_end(
            longer,
            more.skip(1),
            at + more[0].len(),
        ));
    }
}

/// Where parts stand up to the end of a text, they still do when the text
/// and the last part are made longer by the same character.
pub proof fn lemma_to_end_longer_piece(hay: Seq<char>, parts: Seq<Seq<char>>, from: int, c: char)
    requires
        stands_to_end(hay, parts, from),
    ensures
        stands_to_end(hay.push(c), parts.drop_last().push(parts.last().push(c)), from),
    decreases parts.len(),
{
    let longer = hay.push(c);
    let more = parts.drop_last().push(parts.last().push(c));
    if parts.len() == 1 {
        let at = hay.len() - parts[0].len();
        assert(more.len() == 1 && more[0] == parts[0].push(c));
        assert(longer.subrange(at, at + more[0].len()) =~= hay.subrange(
            at,
            at + parts[0].len(),
        ).push(c));
    } else {
        let at = choose|at: int|
            from <= at && #[trigger] occurs_at(hay, parts[0], at) && stands_to_end(
                hay,
                parts.skip(1),
                at + parts[0].len(),
            );
        lemma_occurs_at_longer(hay, parts[0], at, c);
        lemma_to_end_longer_piece(hay, parts.skip(1), at + parts[0].len(), c);
        assert(more[0] == parts[0]);
        assert(more.skip(1) =~= parts.skip(1).drop_last().push(parts.skip(1).last().push(c)));
        assert(from <= at && occurs_at(longer, more[0], at) && stands_to_end(
            longer,
            more.skip(1),
            at + more[0].len(),
        ));
    }
}

/// The pieces of a text stand in it in their order, the last at its end.
pub proof fn lemma_pieces_to_end(text: Seq<char>, sep: char)
    ensures
        stands_to_end(text, pieces(text, sep), 0),
    decreases text.len(),
{
    if text.len() == 0 {
        let only = pieces(text, sep);
        assert(only.len() == 1 && only[0] == Seq::<char>::empty());
        assert(text.subrange(0, 0) =~= Seq::<char>::empty());
    } else {
        let front = text.drop_last();
        lemma_pieces_to_end(front, sep);
        assert(text =~= front.push(text.last()));
        if text.last() == sep {
            lemma_to_end_new_piece(front, pieces(front, sep), 0, text.last());
        } else {
            lemma_to_end_longer_piece(front, pieces(front, sep), 0, text.last());
        }
    }
}

/// A text holds its own pieces in their order.
pub proof fn lemma_holds_own_pieces(text: Seq<char>, sep: char)
    ensures
        occurs_in_order(text, pieces(text, sep)),
{
    lemma_pieces_to_end(text, sep);
    lemma_to_end_in_order(text, pieces(text, sep), 0);
}

/// A search for words finds the record whose title holds them in order and
/// before which no record's title does.
pub proof fn lemma_first_worded(records: Seq<SongView>, query: Seq<char>, at: int)
    requires
        !is_blank(query),
        0 <= at < records.len(),
        occurs_in_order(records[at].title, pieces(query, ' ')),
        forall|i: int|
            0 <= i < at ==> !occurs_in_order((#[trigger] records[i]).title, pieces(query, ' ')),
    ensures
        first_worded(records, query) == Some(records[at]),
{
    let test = accepts(FacetView::Words { parts: pieces(query, ' ') });
    let low = records.take(at);
    let high = records.skip(at);
    assert(records =~= low + high);
    Seq::filter_distributes_over_add(low, high, test);
    lemma_filter_keeps_none(low, test);
    let one = seq![records[at]];
    assert(high =~= one + high.skip(1));
    Seq::filter_distributes_over_add(one, high.skip(1), test);
    lemma_filter_keeps_all(one, test);
    assert(word_matches(records, pieces(query, ' ')) =~= one + high.skip(1).filter(test));
}

/// A search for the words of a whole title finds a record: the one with
/// that title, unless an earlier record's title holds the words in order
/// too. A title of spaces alone has no words and is not found.
pub proof fn lemma_whole_title_worded(records: Seq<SongView>, at: int)
    requires
        0 <= at < records.len(),
        !is_blank(records[at].title),
    ensures
        first_worded(records, records[at].title) is Some,
        (forall|i: int|
            0 <= i < at ==> !occurs_in_order(
                (#[trigger] records[i]).title,
                pieces(records[at].title, ' '),
            )) ==> first_worded(records, records[at].title) == Some(records[at]),
{
    let query = records[at].title;
    let parts = pieces(query, ' ');
    lemma_holds_own_pieces(query, ' ');
    assert(accepts(FacetView::Words { parts })(records[at]));
    records.lemma_filter_contains(accepts(FacetView::Words { parts }), at);
    if forall|i: int| 0 <= i < at ==> !occurs_in_order((#[trigger] records[i]).title, parts) {
        lemma_first_worded(records, query, at);
    }
}

/// Replacing a character that a text does not hold leaves the text as it
/// is.
pub proof fn lemma_substituted_plain(text: Seq<char>, from: char, to: Seq<char>)
    requires
        forall|i: int| 0 <= i < text.len() ==> text[i] != from,
    ensures
        substituted(text, from, to) == text,
    decreases text.len(),
{
    if text.len() == 0 {
        assert(substituted(text, from, to) =~= text);
    } else {
        lemma_substituted_plain(text.drop_last(), from, to);
        assert(text.drop_last() + seq![text.last()] =~= text);
    }
}

/// A title typed in full, with its spaces, is found by the title command:
/// it finds the record with that title, unless an earlier record's title
/// holds the words in order too. This is so for a title without `%` and
/// with a word in it.
pub proof fn lemma_typed_title_found(records: Seq<SongView>, at: int)
    requires
        0 <= at < records.len(),
        !is_blank(records[at].title),
        forall|i: int| 0 <= i < records[at].title.len() ==> records[at].title[i] != '%',
    ensures
        shown_query(records[at].title) == records[at].title,
        first_worded(records, shown_query(records[at].title)) is Some,
        (forall|i: int|
            0 <= i < at ==> !occurs_in_order(
                (#[trigger] records[i]).title,
                pieces(records[at].title, ' '),
            )) ==> first_worded(records, shown_query(records[at].title)) == Some(records[at]),
{
    lemma_substituted_plain(records[at].title, '%', Seq::<char>::empty());
    lemma_whole_title_worded(records, at);
}

/// Putting a record in a second time changes nothing.
pub proof fn lemma_upsert_idempotent(records: Seq<SongView>, record: SongView)
    ensures
        upserted(upserted(records, record), record) == upserted(records, record),
{
    let below = id_below(record.id);
    let above = id_above(record.id);
    let low = records.filter(below);
    let high = records.filter(above);
    Seq::filter_distributes_over_add(low.push(record), high, below);
    Seq::filter_distributes_over_add(low.push(record), high, above);
    low.lemma_filter_push(record, below);
    low.lemma_filter_push(record, above);
    lemma_filter_twice(records, below, below);
    lemma_filter_twice(records, above, above);
    lemma_filter_apart(records, below, above);
    lemma_filter_apart(records, above, below);
    assert(low + Seq::<SongView>::empty() =~= low);
    assert(Seq::<SongView>::empty() + high =~= high);
}

/// After a record was put in, the store holds under its identifier that
/// record, field for field, and nothing of what stood there before.
pub proof fn lemma_upsert_replaces(records: Seq<SongView>, record: SongView)
    ensures
        stored(upserted(records, record), record.id) == Some(record),
        upserted(records, record).filter(id_is(record.id)) == seq![record],
{
    let below = id_below(record.id);
    let above = id_above(record.id);
    let same = id_is(record.id);
    let low = records.filter(below);
    let high = records.filter(above);
    Seq::filter_distributes_over_add(low.push(record), high, same);
    low.lemma_filter_push(record, same);
    lemma_filter_apart(records, below, same);
    lemma_filter_apart(records, above, same);
    assert(Seq::<SongView>::empty().push(record) + Seq::<SongView>::empty() =~= seq![record]);
}

/// Putting a record in leaves the record under every other identifier as it
/// was.
pub proof fn lemma_upsert_keeps_others(records: Seq<SongView>, record: SongView, other: i32)
    requires
        other != record.id,
    ensures
        stored(upserted(records, record), other) == stored(records, other),
        upserted(records, record).filter(id_is(other)) == records.filter(id_is(other)),
{
    let below = id_below(record.id);
    let above = id_above(record.id);
    let same = id_is(other);
    let low = records.filter(below);
    let high = records.filter(above);
    Seq::filter_distributes_over_add(low.push(record), high, same);
    low.lemma_filter_push(record, same);
    if other < record.id {
        lemma_filter_twice(records, below, same);
        lemma_filter_apart(records, above, same);
        assert(records.filter(same) + Seq::<SongView>::empty() =~= records.filter(same));
    } else {
        lemma_filter_twice(records, above, same);
        lemma_filter_apart(records, below, same);
        assert(Seq::<SongView>::empty() + records.filter(same) =~= records.filter(same));
    }
}

/// Putting a record in keeps the store's order: the identifiers still
/// ascend, so each still occurs once.
pub proof fn lemma_upsert_keeps_order(records: Seq<SongView>, record: SongView)
    requires
        ascending(records),
    ensures
        ascending(upserted(records, record)),
{
    let low = records.filter(id_below(record.id));
    let high = records.filter(id_above(record.id));
    let put = upserted(records, record);
    lemma_filter_ascending(records, id_below(record.id));
    lemma_filter_ascending(records, id_above(record.id));
    assert forall|i: int| 0 <= i < low.len() implies (#[trigger] low[i]).id < record.id by {
        records.lemma_filter_pred(id_below(record.id), i);
    }
    assert forall|i: int| 0 <= i < high.len() implies (#[trigger] high[i]).id > record.id by {
        records.lemma_filter_pred(id_above(record.id), i);
    }
    assert forall|i: int, j: int| 0 <= i < j < put.len() implies put[i].id < put[j].id by {
        if j < low.len() {
            assert(put[i] == low[i] && put[j] == low[j]);
        } else if j == low.len() {
            assert(put[i] == low[i] && put[j] == record);
        } else if i < low.len() {
            assert(put[i] == low[i] && put[j] == high[j - low.len() - 1]);
        } else if i == low.len() {
            assert(put[i] == record && put[j] == high[j - low.len() - 1]);
        } else {
            assert(put[i] == high[i - low.len() - 1] && put[j] == high[j - low.len() - 1]);
        }
    }
}

/// An ascending list holds each of its records under that record's
/// identifier.
pub proof fn lemma_stored_at(records: Seq<SongView>, at: int)
    requires
        ascending(records),
        0 <= at < records.len(),
    ensures
        stored(records, records[at].id) == Some(records[at]),
{
    let id = records[at].id;
    assert forall|i: int| 0 <= i < at implies (#[trigger] records[i]).id < id by {
        assert(records[i].id < records[at].id);
    }
    assert forall|i: int| at <= i < records.len() implies (#[trigger] records[i]).id >= id by {
        if i > at {
            assert(records[at].id < records[i].id);
        }
    }
    lemma_cut(records, id, at);
}

/// What a list holds under an identifier is one of its records, and has
/// that identifier.
pub proof fn lemma_stored_is_member(records: Seq<SongView>, id: i32)
    requires
        stored(records, id) is Some,
    ensures
        stored(records, id)->0.id == id,
        exists|at: int| 0 <= at < records.len() && records[at] == stored(records, id)->0,
{
    let hits = records.filter(id_is(id));
    records.lemma_filter_pred(id_is(id), 0);
    assert(hits.contains(hits[0]));
    records.lemma_filter_contains_rev(id_is(id), hits[0]);
}

/// Without its last record an ascending list holds what it held, but
/// nothing under the identifier of that record.
pub proof fn lemma_stored_without_last(records: Seq<SongView>, id: i32)
    requires
        ascending(records),
        records.len() > 0,
    ensures
        stored(records.drop_last(), id) == (if id == records.last().id {
            None
        } else {
            stored(records, id)
        }),
{
    let front = records.drop_last();
    assert(records =~= front.push(records.last()));
    front.lemma_filter_push(records.last(), id_is(id));
    if id == records.last().id {
        assert forall|i: int| 0 <= i < front.len() implies !id_is(id)(#[trigger] front[i]) by {
            assert(records[i].id < records[records.len() - 1].id);
        }
        lemma_filter_keeps_none(front, id_is(id));
    }
}

/// Two stores that hold the same record, or none, under every identifier
/// are the same store.
pub proof fn lemma_same_records(left: Seq<SongView>, right: Seq<SongView>)
    requires
        ascending(left),
        ascending(right),
        forall|id: i32| stored(left, id) == stored(right, id),
    ensures
        left == right,
    decreases left.len(),
{
    if left.len() == 0 {
        if right.len() > 0 {
            lemma_stored_at(right, 0);
            lemma_filter_keeps_none(left, id_is(right[0].id));
            assert(stored(left, right[0].id) == stored(right, right[0].id));
        }
        assert(left =~= right);
    } else {
        let x = left.last();
        lemma_stored_at(left, left.len() - 1);
        assert(stored(left, x.id) == stored(right, x.id));
        lemma_stored_is_member(right, x.id);
        let j = choose|j: int| 0 <= j < right.len() && right[j] == x;
        let y = right.last();
        lemma_stored_at(right, right.len() - 1);
        assert(stored(left, y.id) == stored(right, y.id));
        lemma_stored_is_member(left, y.id);
        let i = choose|i: int| 0 <= i < left.len() && left[i] == y;
        assert(y.id <= x.id) by {
            if i < left.len() - 1 {
                assert(left[i].id < left[left.len() - 1].id);
            }
        }
        assert(x.id <= y.id) by {
            if j < right.len() - 1 {
                assert(right[j].id < right[right.len() - 1].id);
            }
        }
        assert(x == y);
        let left_front = left.drop_last();
        let right_front = right.drop_last();
        assert forall|id: i32| stored(left_front, id) == stored(right_front, id) by {
            lemma_stored_without_last(left, id);
            lemma_stored_without_last(right, id);
            assert(stored(left, id) == stored(right, id));
        }
        lemma_same_records(left_front, right_front);
        assert(left =~= left_front.push(x));
        assert(right =~= right_front.push(y));
    }
}

/// After rows were loaded, the store holds under each identifier the record
/// of the last row that has it, and what it held before under the
/// identifiers that no row has.
pub proof fn lemma_loaded_stored(
    records: Seq<SongView>,
    rows: Seq<Result<Song, RowError>>,
    upto: int,
    id: i32,
)
    requires
        0 <= upto <= rows.len(),
    ensures
        stored(loaded(records, rows, upto), id) == (match latest(rows, upto, id) {
            Some(record) => Some(record),
            None => stored(records, id),
        }),
    decreases upto,
{
    if upto > 0 {
        lemma_loaded_stored(records, rows, upto - 1, id);
        match rows[upto - 1] {
            Ok(song) => {
                let before = loaded(records, rows, upto - 1);
                if song.id == id {
                    lemma_upsert_replaces(before, song@);
                } else {
                    lemma_upsert_keeps_others(before, song@, id);
                }
            },
            Err(_) => {},
        }
    }
}

/// Loading rows keeps the store's order.
pub proof fn lemma_loaded_keeps_order(
    records: Seq<SongView>,
    rows: Seq<Result<Song, RowError>>,
    upto: int,
)
    requires
        ascending(records),
        0 <= upto <= rows.len(),
    ensures
        ascending(loaded(records, rows, upto)),
    decreases upto,
{
    if upto > 0 {
        lemma_loaded_keeps_order(records, rows, upto - 1);
        match rows[upto - 1] {
            Ok(song) => {
                lemma_upsert_keeps_order(loaded(records, rows, upto - 1), song@);
            },
            Err(_) => {},
        }
    }
}

/// Loading the same rows a second time changes nothing.
pub proof fn lemma_load_idempotent(
    records: Seq<SongView>,
    rows: Seq<Result<Song, RowError>>,
    upto: int,
)
    requires
        ascending(records),
        0 <= upto <= rows.len(),
    ensures
        loaded(loaded(records, rows, upto), rows, upto) == loaded(records, rows, upto),
{
    let once = loaded(records, rows, upto);
    let twice = loaded(once, rows, upto);
    lemma_loaded_keeps_order(records, rows, upto);
    lemma_loaded_keeps_order(once, rows, upto);
    assert forall|id: i32| stored(twice, id) == stored(once, id) by {
        lemma_loaded_stored(records, rows, upto, id);
        lemma_loaded_stored(once, rows, upto, id);
    }
    lemma_same_records(twice, once);
}

/// The pages of a search, from the first to the last that holds a record,
/// hold together every match once, in ascending order of the identifiers:
/// none is left out and none comes twice.
pub proof fn lemma_search_pages_cover(records: Seq<SongView>, facet: FacetView)
    requires
        ascending(records),
    ensures
        pages_joined(
            matching(records, facet),
            spec_filled_pages(matching(records, facet).len() as int),
        ) == matching(records, facet),
        ascending(matching(records, facet)),
        matching(records, facet).no_duplicates(),
{
    let hits = matching(records, facet);
    lemma_pages_cover(hits);
    lemma_filter_ascending(records, accepts(facet));
    assert forall|i: int, j: int| 0 <= i < hits.len() && 0 <= j < hits.len() && i != j implies hits[i]
        != hits[j] by {
        if i < j {
            assert(hits[i].id < hits[j].id);
        } else {
            assert(hits[j].id < hits[i].id);
        }
    }
}

} // verus!

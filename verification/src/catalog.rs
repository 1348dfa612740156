//! The catalog store: song records held in ascending order of their
//! identifiers, with lookup by identifier, insert-or-replace, and scans that
//! count the matches and hand out one window of them.

use crate::paging::window;
use crate::song::{Song, SongView};
use crate::text::{
    chars_of, contains_chars, contains_in_order, occurs_in, occurs_in_order, texts,
};
use vstd::prelude::*;

verus! {

/// The records of `songs` as what they hold.
pub open spec fn views(songs: Seq<Song>) -> Seq<SongView> {
    Seq::new(songs.len(), |i: int| songs[i]@)
}

/// What an optional record holds.
pub open spec fn view_of(found: Option<Song>) -> Option<SongView> {
    match found {
        Some(song) => Some(song@),
        None => None,
    }
}

/// Whether the identifiers of `records` rise from each record to the next, so
/// that no identifier occurs twice.
pub open spec fn ascending(records: Seq<SongView>) -> bool {
    forall|i: int, j: int| 0 <= i < j < records.len() ==> records[i].id < records[j].id
}

/// The records with an identifier under `id`.
pub open spec fn id_below(id: i32) -> spec_fn(SongView) -> bool {
    |record: SongView| record.id < id
}

/// The records with the identifier `id`.
pub open spec fn id_is(id: i32) -> spec_fn(SongView) -> bool {
    |record: SongView| record.id == id
}

/// The records with an identifier over `id`.
pub open spec fn id_above(id: i32) -> spec_fn(SongView) -> bool {
    |record: SongView| record.id > id
}

/// The record that `records` holds under `id`, if any.
pub open spec fn stored(records: Seq<SongView>, id: i32) -> Option<SongView> {
    let hits = records.filter(id_is(id));
    if hits.len() == 0 {
        None
    } else {
        Some(hits[0])
    }
}

/// `records` after `record` was put in: what stood under its identifier is
/// gone, whole, and every other record stands where it stood.
pub open spec fn upserted(records: Seq<SongView>, record: SongView) -> Seq<SongView> {
    records.filter(id_below(record.id)).push(record) + records.filter(id_above(record.id))
}

/// What a scan looks for.
pub enum Facet {
    /// Songs with a chart of mode `button` that is rated `level`.
    Level { button: i32, level: i32 },
    /// Songs whose title holds the characters of `fragment`, as they are.
    Title { fragment: Vec<char> },
    /// Songs whose title holds the texts of `parts`, as they are, one after
    /// the other in their order, with anything between them.
    Words { parts: Vec<Vec<char>> },
}

/// A facet, with each text as a sequence of characters.
pub enum FacetView {
    Level { button: i32, level: i32 },
    Title { fragment: Seq<char> },
    Words { parts: Seq<Seq<char>> },
}

impl View for Facet {
    type V = FacetView;

    open spec fn view(&self) -> FacetView {
        match self {
            Facet::Level { button, level } => FacetView::Level { button: *button, level: *level },
            Facet::Title { fragment } => FacetView::Title { fragment: fragment@ },
            Facet::Words { parts } => FacetView::Words { parts: texts(parts@) },
        }
    }
}

impl FacetView {
    /// Whether `record` is one of those that the facet looks for. Under a
    /// `button` that is no mode there is none; an empty fragment stands in
    /// every title, and so do parts that are all empty.
    pub open spec fn admits(self, record: SongView) -> bool {
        match self {
            FacetView::Level { button, level } => record.has_level(button as int, level as int),
            FacetView::Title { fragment } => occurs_in(record.title, fragment),
            FacetView::Words { parts } => occurs_in_order(record.title, parts),
        }
    }
}

/// The facet as a test on records.
pub open spec fn accepts(facet: FacetView) -> spec_fn(SongView) -> bool {
    |record: SongView| facet.admits(record)
}

/// The records of `records` that `facet` looks for, in the order of
/// `records`.
pub open spec fn matching(records: Seq<SongView>, facet: FacetView) -> Seq<SongView> {
    records.filter(accepts(facet))
}

impl Facet {
    /// Whether `song` is one of those that the facet looks for.
    pub fn admits(&self, song: &Song) -> (hit: bool)
        ensures
            hit == self@.admits(song@),
    {
        match self {
            Facet::Level { button, level } => song.has_level(*button, *level),
            Facet::Title { fragment } => {
                let title = chars_of(song.title.as_str());
                contains_chars(&title, fragment)
            },
            Facet::Words { parts } => {
                let title = chars_of(song.title.as_str());
                contains_in_order(&title, parts)
            },
        }
    }
}

/// A filter keeps a list whose every item passes.
pub proof fn lemma_filter_keeps_all<A>(items: Seq<A>, pred: spec_fn(A) -> bool)
    requires
        forall|i: int| 0 <= i < items.len() ==> pred(#[trigger] items[i]),
    ensures
        items.filter(pred) == items,
    decreases items.len(),
{
    reveal(Seq::filter);
    if items.len() > 0 {
        lemma_filter_keeps_all(items.drop_last(), pred);
        assert(items.drop_last().push(items.last()) =~= items);
    }
}

/// A filter empties a list of which no item passes.
pub proof fn lemma_filter_keeps_none<A>(items: Seq<A>, pred: spec_fn(A) -> bool)
    requires
        forall|i: int| 0 <= i < items.len() ==> !pred(#[trigger] items[i]),
    ensures
        items.filter(pred) == Seq::<A>::empty(),
    decreases items.len(),
{
    reveal(Seq::filter);
    if items.len() > 0 {
        lemma_filter_keeps_none(items.drop_last(), pred);
    }
}

/// A filter may be applied to the two parts of a list apart.
pub proof fn lemma_filter_split<A>(items: Seq<A>, at: int, pred: spec_fn(A) -> bool)
    requires
        0 <= at <= items.len(),
    ensures
        items.filter(pred) == items.take(at).filter(pred) + items.skip(at).filter(pred),
{
    assert(items =~= items.take(at) + items.skip(at));
    Seq::filter_distributes_over_add(items.take(at), items.skip(at), pred);
}

/// In an ascending list the records from position `at` on, where the record
/// there has the identifier `id`: one with `id`, then those over it.
proof fn lemma_cut_high(high: Seq<SongView>, id: i32)
    requires
        ascending(high),
        forall|i: int| 0 <= i < high.len() ==> (#[trigger] high[i]).id >= id,
    ensures
        high.filter(id_below(id)) == Seq::<SongView>::empty(),
        high.len() > 0 && high[0].id == id ==> {
            &&& high.filter(id_is(id)) == seq![high[0]]
            &&& high.filter(id_above(id)) == high.skip(1)
        },
        !(high.len() > 0 && high[0].id == id) ==> {
            &&& high.filter(id_is(id)) == Seq::<SongView>::empty()
            &&& high.filter(id_above(id)) == high
        },
{
    lemma_filter_keeps_none(high, id_below(id));
    if high.len() > 0 && high[0].id == id {
        let rest = high.skip(1);
        assert(high.take(1) =~= seq![high[0]]);
        assert forall|i: int| 0 <= i < rest.len() implies (#[trigger] rest[i]).id > id by {
            assert(high[0].id < high[i + 1].id);
        }
        lemma_filter_split(high, 1, id_is(id));
        lemma_filter_split(high, 1, id_above(id));
        lemma_filter_keeps_all(high.take(1), id_is(id));
        lemma_filter_keeps_none(rest, id_is(id));
        lemma_filter_keeps_none(high.take(1), id_above(id));
        lemma_filter_keeps_all(rest, id_above(id));
        assert(high.take(1) + Seq::<SongView>::empty() =~= high.take(1));
        assert(Seq::<SongView>::empty() + rest =~= rest);
    } else {
        assert forall|i: int| 0 <= i < high.len() implies (#[trigger] high[i]).id > id by {
            if i > 0 {
                assert(high[0].id < high[i].id);
            }
        }
        lemma_filter_keeps_none(high, id_is(id));
        lemma_filter_keeps_all(high, id_above(id));
    }
}

/// In an ascending list the records under an identifier come first, then the
/// one record with it, if any, then those over it.
pub proof fn lemma_cut(records: Seq<SongView>, id: i32, at: int)
    requires
        0 <= at <= records.len(),
        forall|i: int| 0 <= i < at ==> (#[trigger] records[i]).id < id,
        forall|i: int| at <= i < records.len() ==> (#[trigger] records[i]).id >= id,
        ascending(records),
    ensures
        records.filter(id_below(id)) == records.take(at),
        at < records.len() && records[at].id == id ==> {
            &&& records.filter(id_is(id)) == seq![records[at]]
            &&& records.filter(id_above(id)) == records.skip(at + 1)
        },
        !(at < records.len() && records[at].id == id) ==> {
            &&& records.filter(id_is(id)) == Seq::<SongView>::empty()
            &&& records.filter(id_above(id)) == records.skip(at)
        },
{
    let low = records.take(at);
    let high = records.skip(at);
    assert(ascending(high)) by {
        assert forall|i: int, j: int| 0 <= i < j < high.len() implies high[i].id < high[j].id by {
            assert(records[at + i].id < records[at + j].id);
        }
    }
    assert forall|i: int| 0 <= i < high.len() implies (#[trigger] high[i]).id >= id by {
        assert(records[at + i].id >= id);
    }
    lemma_cut_high(high, id);
    lemma_filter_split(records, at, id_below(id));
    lemma_filter_split(records, at, id_is(id));
    lemma_filter_split(records, at, id_above(id));
    lemma_filter_keeps_all(low, id_below(id));
    lemma_filter_keeps_none(low, id_is(id));
    lemma_filter_keeps_none(low, id_above(id));
    assert(low + Seq::<SongView>::empty() =~= low);
    assert(Seq::<SongView>::empty() + high.filter(id_is(id)) =~= high.filter(id_is(id)));
    assert(Seq::<SongView>::empty() + high.filter(id_above(id)) =~= high.filter(id_above(id)));
    if at < records.len() {
        assert(high[0] == records[at]);
        assert(high.skip(1) =~= records.skip(at + 1));
    }
}

/// An ascending list has a record for each of at most 2^32 identifiers.
pub proof fn lemma_ascending_len(records: Seq<SongView>)
    requires
        ascending(records),
    ensures
        records.len() <= 0x1_0000_0000,
{
    if records.len() > 0 {
        lemma_ascending_gap(records, records.len() - 1);
    }
}

/// In an ascending list the identifier at position `at` is at least `at`
/// over the first.
pub proof fn lemma_ascending_gap(records: Seq<SongView>, at: int)
    requires
        ascending(records),
        0 <= at < records.len(),
    ensures
        records[at].id >= records[0].id + at,
    decreases at,
{
    if at > 0 {
        lemma_ascending_gap(records, at - 1);
    }
}

/// The store. Its records stand in ascending order of their identifiers,
/// one for each identifier.
pub struct Catalog {
    songs: Vec<Song>,
}

impl View for Catalog {
    type V = Seq<SongView>;

    closed spec fn view(&self) -> Seq<SongView> {
        views(self.songs@)
    }
}

impl Catalog {
    #[verifier::type_invariant]
    spec fn ordered(self) -> bool {
        ascending(views(self.songs@))
    }

    /// A store without records.
    pub fn new() -> (store: Catalog)
        ensures
            store@ == Seq::<SongView>::empty(),
    {
        let store = Catalog { songs: Vec::new() };
        assert(store@ =~= Seq::<SongView>::empty());
        store
    }

    /// The number of records. The records of a store are always in
    /// ascending order of their identifiers.
    pub fn len(&self) -> (n: usize)
        ensures
            n == self@.len(),
            ascending(self@),
    {
        proof {
            use_type_invariant(self);
        }
        self.songs.len()
    }

    /// The position of the first record whose identifier is not under `id`.
    fn lower_bound(&self, id: i32) -> (at: usize)
        ensures
            ascending(self@),
            at <= self@.len(),
            forall|i: int| 0 <= i < at ==> (#[trigger] self@[i]).id < id,
            forall|i: int| at <= i < self@.len() ==> (#[trigger] self@[i]).id >= id,
    {
        proof {
            use_type_invariant(self);
        }
        let mut low: usize = 0;
        let mut high: usize = self.songs.len();
        while low < high
            invariant
                ascending(self@),
                low <= high <= self.songs@.len(),
                forall|i: int| 0 <= i < low ==> (#[trigger] self@[i]).id < id,
                forall|i: int| high <= i < self@.len() ==> (#[trigger] self@[i]).id >= id,
            decreases high - low,
        {
            let mid: usize = low + (high - low) / 2;
            if self.songs[mid].id < id {
                assert forall|i: int| 0 <= i < mid + 1 implies (#[trigger] self@[i]).id < id by {
                    if i < mid {
                        assert(self@[i].id < self@[mid as int].id);
                    }
                }
                low = mid + 1;
            } else {
                assert forall|i: int| mid <= i < self@.len() implies (#[trigger] self@[i]).id
                    >= id by {
                    if i > mid {
                        assert(self@[mid as int].id < self@[i].id);
                    }
                }
                high = mid;
            }
        }
        low
    }

    /// The record under `id`, if the store holds one.
    pub fn get_by_id(&self, id: i32) -> (found: Option<&Song>)
        ensures
            match found {
                Some(song) => Some(song@),
                None => None,
            } == stored(self@, id),
    {
        let at = self.lower_bound(id);
        proof {
            lemma_cut(self@, id, at as int);
        }
        if at < self.songs.len() && self.songs[at].id == id {
            Some(&self.songs[at])
        } else {
            None
        }
    }

    /// Counts the records that `facet` looks for, and hands out those of
    /// them that stand from position `offset` on among the matches, `limit`
    /// at most, in ascending order of their identifiers.
    pub fn scan(&self, facet: &Facet, limit: usize, offset: usize) -> (found: (usize, Vec<Song>))
        ensures
            found.0 == matching(self@, facet@).len(),
            views(found.1@) == window(matching(self@, facet@), offset as int, limit as int),
            ascending(views(found.1@)),
    {
        proof {
            use_type_invariant(self);
            crate::laws::lemma_filter_ascending(self@, accepts(facet@));
            crate::laws::lemma_window_ascending(
                matching(self@, facet@),
                offset as int,
                limit as int,
            );
        }
        let n: usize = self.songs.len();
        let mut total: usize = 0;
        let mut page: Vec<Song> = Vec::new();
        let mut i: usize = 0;
        proof {
            lemma_filter_keeps_none(self@.take(0), accepts(facet@));
            assert(views(page@) =~= window(
                matching(self@.take(0), facet@),
                offset as int,
                limit as int,
            ));
        }
        while i < n
            invariant
                n == self.songs@.len(),
                i <= n,
                total == matching(self@.take(i as int), facet@).len(),
                total <= i,
                views(page@) == window(
                    matching(self@.take(i as int), facet@),
                    offset as int,
                    limit as int,
                ),
            decreases n - i,
        {
            let ghost shown = views(page@);
            proof {
                assert(self@.take(i + 1) =~= self@.take(i as int).push(self@[i as int]));
                self@.take(i as int).lemma_filter_push(self@[i as int], accepts(facet@));
            }
            if facet.admits(&self.songs[i]) {
                if total >= offset && page.len() < limit {
                    page.push(self.songs[i].clone());
                    assert(views(page@) =~= shown.push(self@[i as int]));
                }
                total = total + 1;
            }
            assert(views(page@) =~= window(
                matching(self@.take(i + 1), facet@),
                offset as int,
                limit as int,
            ));
            i = i + 1;
        }
        assert(self@.take(n as int) =~= self@);
        (total, page)
    }

    /// Puts `record` in: it replaces, whole, the record that stood under its
    /// identifier, and is added where none did.
    pub fn upsert(&mut self, record: Song)
        ensures
            final(self)@ == upserted(old(self)@, record@),
    {
        let at = self.lower_bound(record.id);
        let ghost before = self@;
        let ghost put = record@;
        proof {
            lemma_cut(before, record.id, at as int);
            crate::laws::lemma_upsert_keeps_order(before, put);
        }
        let mut songs: Vec<Song> = Vec::new();
        core::mem::swap(&mut self.songs, &mut songs);
        if at < songs.len() && songs[at].id == record.id {
            songs[at] = record;
            assert(views(songs@) =~= before.take(at as int).push(put) + before.skip(at + 1));
        } else {
            songs.insert(at, record);
            assert(views(songs@) =~= before.take(at as int).push(put) + before.skip(at as int));
        }
        self.songs = songs;
    }
}

} // verus!

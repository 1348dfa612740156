//! The queries on the catalog: by identifier, by a fragment of the title,
//! and by the level of a chart under a button mode, page by page.

use crate::catalog::{
    accepts, ascending, lemma_ascending_len, matching, stored, upserted, view_of, views, Catalog,
    Facet, FacetView,
};
use crate::laws::lemma_upsert_replaces;
use crate::paging::{offset_of_page, page_of, spec_total_pages, total_pages, window};
use crate::song::{is_mode, Song, SongView, Variant};
use crate::text::{blank, chars_of, is_blank, pieces, split_chars};
use vstd::prelude::*;

verus! {

/// The records with a chart of mode `button` rated `level`, in the order of
/// `records`.
pub open spec fn level_matches(records: Seq<SongView>, button: i32, level: i32) -> Seq<SongView> {
    matching(records, FacetView::Level { button, level })
}

/// The records whose title holds `fragment`, in the order of `records`.
pub open spec fn title_matches(records: Seq<SongView>, fragment: Seq<char>) -> Seq<SongView> {
    matching(records, FacetView::Title { fragment })
}

/// The first record whose title holds `fragment`; none where `fragment` is
/// empty.
pub open spec fn first_titled(records: Seq<SongView>, fragment: Seq<char>) -> Option<SongView> {
    if fragment.len() == 0 || title_matches(records, fragment).len() == 0 {
        None
    } else {
        Some(title_matches(records, fragment)[0])
    }
}

/// The records whose title holds the texts of `parts` in their order, with
/// anything between them, in the order of `records`.
pub open spec fn word_matches(records: Seq<SongView>, parts: Seq<Seq<char>>) -> Seq<SongView> {
    matching(records, FacetView::Words { parts })
}

/// The first record whose title holds the words of `query` in their order,
/// with anything between them, the words being what the spaces of `query`
/// part; none where `query` holds no word.
pub open spec fn first_worded(records: Seq<SongView>, query: Seq<char>) -> Option<SongView> {
    if is_blank(query) || word_matches(records, pieces(query, ' ')).len() == 0 {
        None
    } else {
        Some(word_matches(records, pieces(query, ' '))[0])
    }
}

/// A song found by level, with the variants whose chart has that level.
pub struct LevelMatch {
    pub song: Song,
    pub variants: Vec<Variant>,
}

/// One page of the songs found by level.
pub struct LevelPage {
    /// The number of songs found, on all pages together.
    pub total_count: i64,
    /// The page count to show for that number.
    pub total_pages: i64,
    /// The songs of this page, in ascending order of their identifiers.
    pub items: Vec<LevelMatch>,
}

/// The records of `items`.
pub open spec fn songs_of(items: Seq<LevelMatch>) -> Seq<SongView> {
    Seq::new(items.len(), |i: int| items[i].song@)
}

impl Song {
    /// The record under `id`, if the catalog holds one.
    pub fn by_id(id: i32, conn: &Catalog) -> (found: Option<Song>)
        ensures
            view_of(found) == stored(conn@, id),
    {
        match conn.get_by_id(id) {
            Some(song) => Some(song.clone()),
            None => None,
        }
    }

    /// The first record, in ascending order of the identifiers, whose title
    /// holds `title_str` character for character. An empty `title_str` finds
    /// nothing.
    pub fn by_title(title_str: &str, conn: &Catalog) -> (found: Option<Song>)
        ensures
            view_of(found) == first_titled(conn@, title_str@),
    {
        let fragment = chars_of(title_str);
        if fragment.len() == 0 {
            return None;
        }
        let facet = Facet::Title { fragment };
        let (_, mut page) = conn.scan(&facet, 1, 0);
        let ghost hits = title_matches(conn@, title_str@);
        assert(views(page@).len() == page@.len());
        assert(hits.len() > 0 ==> views(page@)[0] == hits[0]);
        page.pop()
    }

    /// The first record, in ascending order of the identifiers, whose title
    /// holds the words of `query` in their order, with anything before,
    /// between and after them. The words are what the spaces of `query`
    /// part, and each is looked for character for character. A `query`
    /// without a word, empty or all spaces, finds nothing.
    pub fn by_words(query: &str, conn: &Catalog) -> (found: Option<Song>)
        ensures
            view_of(found) == first_worded(conn@, query@),
    {
        let text = chars_of(query);
        if blank(&text) {
            return None;
        }
        let facet = Facet::Words { parts: split_chars(&text, ' ') };
        let (_, mut page) = conn.scan(&facet, 1, 0);
        let ghost hits = word_matches(conn@, pieces(query@, ' '));
        assert(views(page@).len() == page@.len());
        assert(hits.len() > 0 ==> views(page@)[0] == hits[0]);
        page.pop()
    }

    /// The number of records with a chart of mode `button` rated `level`, and
    /// those of them that stand from position `offset` on, 25 at most, in
    /// ascending order of the identifiers. Where `button` is no mode, or
    /// `offset` is negative, the answer is zero and no record.
    pub fn by_level(button: i32, level: i32, offset: i64, conn: &Catalog) -> (found: (
        i64,
        Vec<Song>,
    ))
        ensures
            is_mode(button as int) && offset >= 0 ==> {
                &&& found.0 == level_matches(conn@, button, level).len()
                &&& views(found.1@) == window(
                    level_matches(conn@, button, level),
                    offset as int,
                    25,
                )
            },
            !(is_mode(button as int) && offset >= 0) ==> found.0 == 0 && found.1@.len() == 0,
            ascending(views(found.1@)),
    {
        if !(button == 4 || button == 5 || button == 6 || button == 8) || offset < 0 {
            return (0, Vec::new());
        }
        let facet = Facet::Level { button, level };
        let n: usize = conn.len();
        proof {
            lemma_ascending_len(conn@);
            conn@.lemma_filter_len(accepts(facet@));
        }
        let start: usize = if offset as u64 >= n as u64 {
            n
        } else {
            offset as usize
        };
        let (total, page) = conn.scan(&facet, 25, start);
        assert(window(level_matches(conn@, button, level), start as int, 25) =~= window(
            level_matches(conn@, button, level),
            offset as int,
            25,
        ));
        (total as i64, page)
    }

    /// Puts `song` into the catalog, in place of the record that stood under
    /// its identifier if there was one, and hands back the record that the
    /// catalog now holds under that identifier.
    pub fn create_or_update(song: &Song, conn: &mut Catalog) -> (saved: Option<Song>)
        ensures
            final(conn)@ == upserted(old(conn)@, song@),
            view_of(saved) == Some(song@),
            view_of(saved) == stored(final(conn)@, song.id),
    {
        conn.upsert(song.clone());
        proof {
            lemma_upsert_replaces(old(conn)@, song@);
        }
        Song::by_id(song.id, conn)
    }
}

/// Page `page` of the songs with a chart of mode `mode` rated `level`, each
/// with all the variants whose chart has that level, and the number of all
/// such songs. Where `mode` is no mode, or `page` is not positive, the answer
/// is zero and no song.
pub fn find_by_level(mode: i32, level: i32, page: i64, conn: &Catalog) -> (found: LevelPage)
    ensures
        is_mode(mode as int) && page >= 1 ==> {
            &&& found.total_count == level_matches(conn@, mode, level).len()
            &&& songs_of(found.items@) == page_of(level_matches(conn@, mode, level), page as int)
        },
        !(is_mode(mode as int) && page >= 1) ==> found.total_count == 0 && found.items@.len() == 0,
        found.total_pages == spec_total_pages(found.total_count as int),
        ascending(songs_of(found.items@)),
        forall|i: int|
            0 <= i < found.items@.len() ==> (#[trigger] found.items@[i]).variants@
                == found.items@[i].song@.matched_variants(mode as int, level as int),
{
    if page < 1 {
        return LevelPage { total_count: 0, total_pages: total_pages(0), items: Vec::new() };
    }
    let offset: i64 = match offset_of_page(page) {
        Some(offset) => offset,
        None => i64::MAX,
    };
    let (total_count, songs) = Song::by_level(mode, level, offset, conn);
    let mut items: Vec<LevelMatch> = Vec::new();
    let mut i: usize = 0;
    while i < songs.len()
        invariant
            i <= songs@.len(),
            items@.len() == i,
            forall|k: int| 0 <= k < i ==> (#[trigger] items@[k]).song@ == songs@[k]@,
            forall|k: int|
                0 <= k < i ==> (#[trigger] items@[k]).variants@ == items@[k].song@.matched_variants(
                    mode as int,
                    level as int,
                ),
        decreases songs@.len() - i,
    {
        let song = songs[i].clone();
        let variants = song.matched_variants(mode, level);
        items.push(LevelMatch { song, variants });
        i = i + 1;
    }
    assert(songs_of(items@) =~= views(songs@));
    LevelPage { total_count, total_pages: total_pages(total_count), items }
}

} // verus!

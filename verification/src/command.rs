//! What the chat commands decide: which arguments are refused and why, what
//! is looked up, and what the answer lists. The texts of the answers, and
//! sending them, are the caller's.

use crate::catalog::{accepts, lemma_filter_keeps_none, Catalog, FacetView};
use crate::paging::{page_of, spec_total_pages};
use crate::query::{find_by_level, first_worded, level_matches, LevelMatch};
use crate::song::{is_mode, Song, SongView, Variant};
use crate::text::{replace_char, substituted};
use vstd::prelude::*;
use vstd::string::*;

verus! {

/// The answer to `ping`.
pub fn ping() -> (text: &'static str)
    ensures
        text@ == "Pong!"@,
{
    "Pong!"
}

/// The words of a title search as they are shown back: without any `%`.
pub open spec fn shown_query(message: Seq<char>) -> Seq<char> {
    substituted(message, '%', Seq::<char>::empty())
}

/// The answer to a title search.
pub enum TitleReply {
    /// No words were given.
    Usage,
    /// No title holds the words.
    NotFound,
    /// The first song whose title holds the words, and the words as shown
    /// back.
    Found { query: String, song: Song },
}

/// Whether `reply` is the answer to a title search with `arg_count` words,
/// `message` being all of them as typed, on the catalog `records`.
pub open spec fn answers_title(
    reply: TitleReply,
    arg_count: usize,
    message: Seq<char>,
    records: Seq<SongView>,
) -> bool {
    match reply {
        TitleReply::Usage => arg_count < 1,
        TitleReply::NotFound => arg_count >= 1 && first_worded(records, shown_query(message))
            is None,
        TitleReply::Found { query, song } => {
            &&& arg_count >= 1
            &&& query@ == shown_query(message)
            &&& first_worded(records, shown_query(message)) == Some(song@)
        },
    }
}

/// Looks up the first song, in ascending order of the identifiers, whose
/// title holds the words of `message` in their order, with anything before,
/// between and after them. Every `%` of `message` is left out first; the
/// words are what its spaces part. So a title typed in full is found, and so
/// is one of which only some words were typed. A `message` without a word
/// finds nothing.
pub fn search_by_title(arg_count: usize, message: &str, conn: &Catalog) -> (reply: TitleReply)
    ensures
        answers_title(reply, arg_count, message@, conn@),
{
    if arg_count < 1 {
        return TitleReply::Usage;
    }
    proof {
        reveal_strlit("");
        assert(""@ =~= Seq::<char>::empty());
    }
    let query = replace_char(message, '%', "");
    match Song::by_words(query.as_str(), conn) {
        Some(song) => TitleReply::Found { query, song },
        None => TitleReply::NotFound,
    }
}

/// What the arguments of a level search ask for.
#[derive(Clone, Copy, Debug, PartialEq, Eq, Structural)]
pub enum LevelAsk {
    /// Not one argument or two.
    Usage,
    /// The level is no whole number.
    LevelUnreadable,
    /// The level is not from 1 to 15.
    LevelOutOfRange,
    /// The page is no whole number.
    PageUnreadable,
    /// The page is not positive.
    PageNotPositive,
    /// Page `page` of the songs of level `level`.
    Search { level: i32, page: i64 },
}

/// What `arg_count` arguments ask for, `level` being the first as a number
/// and `page` the second, each `None` where it is no number. Without a
/// second argument the first page is asked for, and `page` is not looked at.
pub open spec fn spec_level_ask(arg_count: usize, level: Option<i32>, page: Option<i64>) -> LevelAsk {
    if arg_count < 1 || arg_count > 2 {
        LevelAsk::Usage
    } else if level is None {
        LevelAsk::LevelUnreadable
    } else if level->0 > 15 || level->0 < 1 {
        LevelAsk::LevelOutOfRange
    } else if arg_count == 1 {
        LevelAsk::Search { level: level->0, page: 1 }
    } else if page is None {
        LevelAsk::PageUnreadable
    } else if page->0 <= 0 {
        LevelAsk::PageNotPositive
    } else {
        LevelAsk::Search { level: level->0, page: page->0 }
    }
}

/// What the arguments of a level search ask for.
pub fn level_ask(arg_count: usize, level: Option<i32>, page: Option<i64>) -> (ask: LevelAsk)
    ensures
        ask == spec_level_ask(arg_count, level, page),
{
    if arg_count < 1 || arg_count > 2 {
        return LevelAsk::Usage;
    }
    let level: i32 = match level {
        Some(level) => level,
        None => {
            return LevelAsk::LevelUnreadable;
        },
    };
    if level > 15 || level < 1 {
        return LevelAsk::LevelOutOfRange;
    }
    if arg_count == 1 {
        return LevelAsk::Search { level, page: 1 };
    }
    match page {
        None => LevelAsk::PageUnreadable,
        Some(page) => if page <= 0 {
            LevelAsk::PageNotPositive
        } else {
            LevelAsk::Search { level, page }
        },
    }
}

/// The variants as one text: the two letters of each, a space after each.
pub open spec fn spec_pattern(variants: Seq<Variant>) -> Seq<char>
    decreases variants.len(),
{
    if variants.len() == 0 {
        Seq::<char>::empty()
    } else {
        spec_pattern(variants.drop_last()) + variants.last().spec_label() + seq![' ']
    }
}

/// The variants as one text: the two letters of each, a space after each.
pub fn pattern_text(variants: &Vec<Variant>) -> (text: String)
    ensures
        text@ == spec_pattern(variants@),
{
    let mut text = String::new();
    let mut i: usize = 0;
    while i < variants.len()
        invariant
            i <= variants@.len(),
            text@ == spec_pattern(variants@.take(i as int)),
        decreases variants@.len() - i,
    {
        proof {
            reveal_strlit(" ");
            assert(" "@ =~= seq![' ']);
            assert(variants@.take(i + 1).drop_last() =~= variants@.take(i as int));
        }
        text.append(variants[i].label());
        text.append(" ");
        i = i + 1;
    }
    assert(variants@.take(variants@.len() as int) =~= variants@);
    text
}

/// One line of a listing: a song's title, and the variants whose chart has
/// the level that was asked for.
pub struct LevelEntry {
    pub title: String,
    pub pattern: String,
}

/// The answer to a level search that found songs. The number to announce
/// is `total_count`, under every mode.
pub struct LevelListing {
    pub button: i32,
    pub level: i32,
    /// The number of songs found, on all pages together.
    pub total_count: i64,
    /// The number of songs on this page.
    pub shown: usize,
    pub page: i64,
    /// The page count to show.
    pub total_pages: i64,
    /// The songs of this page, in ascending order of their identifiers.
    pub entries: Vec<LevelEntry>,
}

/// The answer to a level search.
pub enum LevelReply {
    /// The arguments were refused, for the reason given.
    Refused(LevelAsk),
    /// No song has a chart of that level.
    NoResult,
    /// The songs of the page that was asked for.
    Listing(LevelListing),
}

/// Whether `listing` shows page `page` of the songs that have a chart of
/// mode `button` rated `level`, among `records`.
pub open spec fn lists(
    listing: LevelListing,
    button: i32,
    level: i32,
    page: i64,
    records: Seq<SongView>,
) -> bool {
    let hits = level_matches(records, button, level);
    let songs = page_of(hits, page as int);
    &&& listing.button == button
    &&& listing.level == level
    &&& listing.page == page
    &&& listing.total_count == hits.len()
    &&& listing.total_pages == spec_total_pages(hits.len() as int)
    &&& listing.shown == songs.len()
    &&& listing.entries@.len() == songs.len()
    &&& forall|i: int|
        0 <= i < songs.len() ==> {
            &&& (#[trigger] listing.entries@[i]).title@ == songs[i].title
            &&& listing.entries@[i].pattern@ == spec_pattern(
                songs[i].matched_variants(button as int, level as int),
            )
        }
}

/// Whether `reply` is the answer to a level search under mode `button` with
/// the arguments `arg_count`, `level` and `page`, on the catalog `records`.
pub open spec fn answers_level(
    reply: LevelReply,
    button: i32,
    arg_count: usize,
    level: Option<i32>,
    page: Option<i64>,
    records: Seq<SongView>,
) -> bool {
    match spec_level_ask(arg_count, level, page) {
        LevelAsk::Search { level, page } => if level_matches(records, button, level).len() == 0 {
            reply is NoResult
        } else {
            reply is Listing && lists(reply->Listing_0, button, level, page, records)
        },
        refusal => reply == LevelReply::Refused(refusal),
    }
}

/// Answers a level search under mode `button`. Under a `button` that is
/// none of 4, 5, 6 and 8 no song is found.
pub fn search_by_level(
    button: i32,
    arg_count: usize,
    level: Option<i32>,
    page: Option<i64>,
    conn: &Catalog,
) -> (reply: LevelReply)
    ensures
        answers_level(reply, button, arg_count, level, page, conn@),
{
    let (level, page) = match level_ask(arg_count, level, page) {
        LevelAsk::Search { level, page } => (level, page),
        refusal => {
            return LevelReply::Refused(refusal);
        },
    };
    let found = find_by_level(button, level, page, conn);
    proof {
        if !is_mode(button as int) {
            lemma_filter_keeps_none(conn@, accepts(FacetView::Level { button, level }));
        }
    }
    if found.total_count == 0 {
        return LevelReply::NoResult;
    }
    let mut entries: Vec<LevelEntry> = Vec::new();
    let mut i: usize = 0;
    while i < found.items.len()
        invariant
            i <= found.items@.len(),
            entries@.len() == i,
            forall|k: int|
                0 <= k < found.items@.len() ==> (#[trigger] found.items@[k]).variants@
                    == found.items@[k].song@.matched_variants(button as int, level as int),
            forall|k: int|
                0 <= k < i ==> {
                    &&& (#[trigger] entries@[k]).title@ == found.items@[k].song@.title
                    &&& entries@[k].pattern@ == spec_pattern(
                        found.items@[k].song@.matched_variants(button as int, level as int),
                    )
                },
        decreases found.items@.len() - i,
    {
        let item: &LevelMatch = &found.items[i];
        entries.push(
            LevelEntry { title: item.song.title.clone(), pattern: pattern_text(&item.variants) },
        );
        i = i + 1;
    }
    proof {
        let songs = page_of(level_matches(conn@, button, level), page as int);
        assert(crate::query::songs_of(found.items@) == songs);
        assert forall|k: int| 0 <= k < songs.len() implies found.items@[k].song@ == songs[k] by {
            assert(crate::query::songs_of(found.items@)[k] == found.items@[k].song@);
        }
    }
    LevelReply::Listing(
        LevelListing {
            button,
            level,
            total_count: found.total_count,
            shown: found.items.len(),
            page,
            total_pages: found.total_pages,
            entries,
        },
    )
}

/// Answers a level search under the four-button mode.
pub fn search_by_4b_level(
    arg_count: usize,
    level: Option<i32>,
    page: Option<i64>,
    conn: &Catalog,
) -> (reply: LevelReply)
    ensures
        answers_level(reply, 4, arg_count, level, page, conn@),
{
    search_by_level(4, arg_count, level, page, conn)
}

/// Answers a level search under the five-button mode.
pub fn search_by_5b_level(
    arg_count: usize,
    level: Option<i32>,
    page: Option<i64>,
    conn: &Catalog,
) -> (reply: LevelReply)
    ensures
        answers_level(reply, 5, arg_count, level, page, conn@),
{
    search_by_level(5, arg_count, level, page, conn)
}

/// Answers a level search under the six-button mode.
pub fn search_by_6b_level(
    arg_count: usize,
    level: Option<i32>,
    page: Option<i64>,
    conn: &Catalog,
) -> (reply: LevelReply)
    ensures
        answers_level(reply, 6, arg_count, level, page, conn@),
{
    search_by_level(6, arg_count, level, page, conn)
}

/// Answers a level search under the eight-button mode.
pub fn search_by_8b_level(
    arg_count: usize,
    level: Option<i32>,
    page: Option<i64>,
    conn: &Catalog,
) -> (reply: LevelReply)
    ensures
        answers_level(reply, 8, arg_count, level, page, conn@),
{
    search_by_level(8, arg_count, level, page, conn)
}

} // verus!

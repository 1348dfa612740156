//! A catalog of rhythm-game songs: records keyed by identifier, looked up by
//! identifier, by title fragment, or by the difficulty level of a chart under a
//! given button mode, with paged results.

pub mod catalog;
pub mod command;
pub mod ingest;
pub mod laws;
pub mod paging;
pub mod query;
pub mod song;
pub mod text;

pub use catalog::{Catalog, Facet};
pub use command::{
    ping, search_by_4b_level, search_by_5b_level, search_by_6b_level, search_by_8b_level,
    search_by_title, LevelAsk, LevelEntry, LevelListing, LevelReply, TitleReply,
};
pub use ingest::{ingest, ingest_row, IngestError, RowError};
pub use paging::{filled_pages, offset_of_page, total_pages, PAGE_SIZE};
pub use query::{find_by_level, LevelMatch, LevelPage};
pub use song::{Song, Variant};

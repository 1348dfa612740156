//! Loading the catalog from rows: each row that was read as a record is put
//! in, and the first row that was not stops the run.

use crate::catalog::{upserted, Catalog};
use crate::song::{Song, SongView};
use vstd::prelude::*;

verus! {

/// Why a row could not be read as a record.
#[derive(Debug)]
pub struct RowError {
    /// The line of the row in its source.
    pub line: u64,
    /// What was missing or of the wrong kind, and in which field.
    pub reason: String,
}

impl Clone for RowError {
    fn clone(&self) -> (copy: RowError)
        ensures
            copy == *self,
    {
        RowError { line: self.line, reason: self.reason.clone() }
    }
}

/// The row that stopped a run, and why.
#[derive(Debug)]
pub struct IngestError {
    /// The position of the row among the rows of the run, from 0.
    pub row: usize,
    pub cause: RowError,
}

/// The store `records` after the first `upto` rows of `rows` were loaded:
/// each row that is a record is put in, in the order of the rows.
pub open spec fn loaded(
    records: Seq<SongView>,
    rows: Seq<Result<Song, RowError>>,
    upto: int,
) -> Seq<SongView>
    decreases upto,
{
    if upto <= 0 {
        records
    } else {
        match rows[upto - 1] {
            Ok(song) => upserted(loaded(records, rows, upto - 1), song@),
            Err(_) => loaded(records, rows, upto - 1),
        }
    }
}

/// The record that the last of the first `upto` rows with the identifier
/// `id` holds, if one of them has it.
pub open spec fn latest(rows: Seq<Result<Song, RowError>>, upto: int, id: i32) -> Option<SongView>
    decreases upto,
{
    if upto <= 0 {
        None
    } else {
        match rows[upto - 1] {
            Ok(song) => if song.id == id {
                Some(song@)
            } else {
                latest(rows, upto - 1, id)
            },
            Err(_) => latest(rows, upto - 1, id),
        }
    }
}

/// Loads one row: a record is put into the catalog; a row that could not be
/// read leaves the catalog as it is and is handed back.
pub fn ingest_row(row: &Result<Song, RowError>, conn: &mut Catalog) -> (done: Result<(), RowError>)
    ensures
        match *row {
            Ok(song) => done is Ok && final(conn)@ == upserted(old(conn)@, song@),
            Err(cause) => done == Err::<(), RowError>(cause) && final(conn)@ == old(conn)@,
        },
{
    match row {
        Ok(song) => {
            conn.upsert(song.clone());
            Ok(())
        },
        Err(cause) => Err(cause.clone()),
    }
}

/// Loads `rows` in order and stops at the first that could not be read: the
/// rows before it stay loaded, those after it are not looked at. Where every
/// row was read, the answer is their number.
pub fn ingest(rows: &Vec<Result<Song, RowError>>, conn: &mut Catalog) -> (done: Result<
    usize,
    IngestError,
>)
    ensures
        match done {
            Ok(count) => {
                &&& count == rows@.len()
                &&& forall|i: int| 0 <= i < rows@.len() ==> rows@[i] is Ok
                &&& final(conn)@ == loaded(old(conn)@, rows@, rows@.len() as int)
            },
            Err(stop) => {
                &&& stop.row < rows@.len()
                &&& forall|i: int| 0 <= i < stop.row ==> rows@[i] is Ok
                &&& rows@[stop.row as int] == Err::<Song, RowError>(stop.cause)
                &&& final(conn)@ == loaded(old(conn)@, rows@, stop.row as int)
            },
        },
{
    let mut i: usize = 0;
    while i < rows.len()
        invariant
            i <= rows@.len(),
            forall|k: int| 0 <= k < i ==> rows@[k] is Ok,
            conn@ == loaded(old(conn)@, rows@, i as int),
        decreases rows@.len() - i,
    {
        match ingest_row(&rows[i], conn) {
            Ok(_) => {},
            Err(cause) => {
                return Err(IngestError { row: i, cause });
            },
        }
        i = i + 1;
    }
    Ok(i)
}

} // verus!

//! The trusted boundary to the storage engine: the connection type, the
//! abstract contents of the memo table, and one wrapper for each statement
//! the store runs against it.
use vstd::prelude::*;

use crate::errors::MemoError;

verus! {

#[verifier::external_type_specification]
#[verifier::external_body]
pub struct ExConnection(rusqlite::Connection);

/// The rows of the memo table behind a connection, in storage order: each
/// an identifier, the content text, and the stored timestamp text.
pub uninterp spec fn db_rows(conn: rusqlite::Connection) -> Seq<(int, Seq<char>, Seq<char>)>;

/// Whether the memo table exists behind the connection.
pub uninterp spec fn schema_ready(conn: rusqlite::Connection) -> bool;

/// One raw row as it is fetched from storage, before its timestamp text
/// has been decoded.
#[derive(Debug, Clone, PartialEq, Eq)]
pub struct StoredRow {
    pub id: i64,
    pub content: String,
    pub created_at: String,
}

impl View for StoredRow {
    type V = (int, Seq<char>, Seq<char>);

    open spec fn view(&self) -> Self::V {
        (self.id as int, self.content@, self.created_at@)
    }
}

pub open spec fn row_views(v: Seq<StoredRow>) -> Seq<(int, Seq<char>, Seq<char>)> {
    v.map_values(|x: StoredRow| x@)
}

/// An identifier that no current row carries.
pub open spec fn row_id_fresh(rows: Seq<(int, Seq<char>, Seq<char>)>, id: int) -> bool {
    forall|k: int| 0 <= k < rows.len() ==> rows[k].0 != id
}

/// The rows left after removing every row with the given identifier.
pub open spec fn remove_id(rows: Seq<(int, Seq<char>, Seq<char>)>, id: int) -> Seq<
    (int, Seq<char>, Seq<char>),
> {
    rows.filter(|r: (int, Seq<char>, Seq<char>)| r.0 != id)
}

/// No two rows carry the same identifier.
pub open spec fn distinct_ids(rows: Seq<(int, Seq<char>, Seq<char>)>) -> bool {
    forall|j: int, k: int| 0 <= j < k < rows.len() ==> rows[j].0 != rows[k].0
}

/// Every identifier lies strictly below the engine's 64-bit cap, the
/// state in which rowid assignment is sequential.
pub open spec fn ids_below_cap(rows: Seq<(int, Seq<char>, Seq<char>)>) -> bool {
    forall|k: int| 0 <= k < rows.len() ==> rows[k].0 < 0x7fff_ffff_ffff_ffff
}

/// The largest identifier among the rows.
pub open spec fn max_id(rows: Seq<(int, Seq<char>, Seq<char>)>) -> int
    recommends
        rows.len() > 0,
    decreases rows.len(),
{
    if rows.len() <= 1 {
        rows[0].0
    } else {
        let rest = max_id(rows.drop_last());
        if rows.last().0 > rest {
            rows.last().0
        } else {
            rest
        }
    }
}

/// The identifier the engine assigns next while every current one is
/// below the cap: one above the largest, and 1 on an empty table.
pub open spec fn next_rowid(rows: Seq<(int, Seq<char>, Seq<char>)>) -> int {
    if rows.len() == 0 {
        1
    } else {
        max_id(rows) + 1
    }
}

proof fn lemma_max_id_bounds(rows: Seq<(int, Seq<char>, Seq<char>)>)
    requires
        rows.len() > 0,
    ensures
        forall|k: int| 0 <= k < rows.len() ==> rows[k].0 <= max_id(rows),
    decreases rows.len(),
{
    if rows.len() > 1 {
        lemma_max_id_bounds(rows.drop_last());
        assert(forall|k: int| 0 <= k < rows.len() - 1 ==> rows[k].0 == rows.drop_last()[k].0);
    }
}

/// The next identifier is larger than every current one, so it is fresh.
pub proof fn lemma_next_rowid_fresh(rows: Seq<(int, Seq<char>, Seq<char>)>)
    ensures
        row_id_fresh(rows, next_rowid(rows)),
{
    if rows.len() > 0 {
        lemma_max_id_bounds(rows);
    }
}

/// Relies on rusqlite's `Connection::open`: it opens the database file at
/// the path, creating the file if absent, or fails without a connection.
#[verifier::external_body]
pub(crate) fn open_connection(path: &str) -> (r: Result<rusqlite::Connection, MemoError>)
    ensures
        match r {
            Ok(_) => true,
            Err(e) => e == MemoError::IOError,
        },
{
    match rusqlite::Connection::open(path) {
        Ok(c) => Ok(c),
        Err(_) => Err(MemoError::IOError),
    }
}

/// Relies on rusqlite's `Connection::execute` running
/// `CREATE TABLE IF NOT EXISTS`: it never adds, drops or alters rows of an
/// existing memo table, and after success the table exists.
#[verifier::external_body]
pub(crate) fn create_memo_table(conn: &mut rusqlite::Connection) -> (r: Result<(), MemoError>)
    ensures
        db_rows(*final(conn)) == db_rows(*old(conn)),
        match r {
            Ok(()) => schema_ready(*final(conn)),
            Err(e) => e == MemoError::StorageInitError && schema_ready(*final(conn))
                == schema_ready(*old(conn)),
        },
{
    let outcome = conn.execute(
        "CREATE TABLE IF NOT EXISTS memo (
            id          INTEGER PRIMARY KEY,
            content     TEXT,
            created_at  TEXT NOT NULL
        )",
        (),
    );
    match outcome {
        Ok(_) => Ok(()),
        Err(_) => Err(MemoError::StorageInitError),
    }
}

/// Relies on rusqlite's `Connection::execute` running a single-row
/// `INSERT`: the `INTEGER PRIMARY KEY` makes the new rowid fresh, and the
/// row appears somewhere in storage order with the others undisturbed.
/// While every current identifier is below the 64-bit cap, SQLite assigns
/// one above the current maximum (1 on an empty table), which places the
/// row last; once the cap has been reached it falls back to a random
/// unused rowid, and only freshness and membership hold. A failed insert
/// changes nothing.
#[verifier::external_body]
pub(crate) fn insert_memo(
    conn: &mut rusqlite::Connection,
    content: &str,
    created_at: &Vec<char>,
) -> (r: Result<(), MemoError>)
    ensures
        schema_ready(*final(conn)) == schema_ready(*old(conn)),
        match r {
            Ok(()) => (exists|id: int, k: int|
                0 <= k <= db_rows(*old(conn)).len() && row_id_fresh(db_rows(*old(conn)), id)
                    && db_rows(*final(conn)) == db_rows(*old(conn)).insert(
                    k,
                    (id, content@, created_at@),
                )) && (ids_below_cap(db_rows(*old(conn))) ==> db_rows(*final(conn)) == db_rows(
                *old(conn),
            ).push((next_rowid(db_rows(*old(conn))), content@, created_at@))),
            Err(e) => e == MemoError::StorageWriteError && db_rows(*final(conn)) == db_rows(
                *old(conn),
            ),
        },
{
    let ts: String = created_at.iter().collect();
    let outcome = conn.execute(
        "INSERT INTO memo (content, created_at) VALUES (?1, ?2)",
        (content, &ts),
    );
    match outcome {
        Ok(_) => Ok(()),
        Err(_) => Err(MemoError::StorageWriteError),
    }
}

/// Relies on rusqlite's `Connection::prepare` and `Statement::query_map`
/// running a plain `SELECT`: the rows of the memo table come back complete
/// and in storage order, their identifiers pairwise distinct (the
/// `INTEGER PRIMARY KEY` constraint); a failed query yields nothing.
#[verifier::external_body]
pub(crate) fn select_all(conn: &rusqlite::Connection) -> (r: Result<Vec<StoredRow>, MemoError>)
    ensures
        match r {
            Ok(v) => row_views(v@) == db_rows(*conn) && distinct_ids(row_views(v@)),
            Err(e) => e == MemoError::StorageReadError,
        },
{
    let mut stmt = match conn.prepare("SELECT id, content, created_at FROM memo") {
        Ok(s) => s,
        Err(_) => return Err(MemoError::StorageReadError),
    };
    let mapped = stmt.query_map((), |row| {
        Ok(StoredRow { id: row.get(0)?, content: row.get(1)?, created_at: row.get(2)? })
    });
    let fetched: rusqlite::Result<Vec<StoredRow>> = match mapped {
        Ok(rows) => rows.collect(),
        Err(e) => Err(e),
    };
    match fetched {
        Ok(v) => Ok(v),
        Err(_) => Err(MemoError::StorageReadError),
    }
}

/// Relies on rusqlite's `Connection::execute` running
/// `DELETE ... WHERE id = ?`: exactly the rows with that identifier leave
/// the table, the rest keep their order; a failed delete changes nothing.
#[verifier::external_body]
pub(crate) fn delete_by_id(conn: &mut rusqlite::Connection, id: i64) -> (r: Result<
    (),
    MemoError,
>)
    ensures
        schema_ready(*final(conn)) == schema_ready(*old(conn)),
        match r {
            Ok(()) => db_rows(*final(conn)) == remove_id(db_rows(*old(conn)), id as int),
            Err(e) => e == MemoError::StorageWriteError && db_rows(*final(conn)) == db_rows(
                *old(conn),
            ),
        },
{
    match conn.execute("DELETE FROM memo WHERE id = ?1", (id,)) {
        Ok(_) => Ok(()),
        Err(_) => Err(MemoError::StorageWriteError),
    }
}

} // verus!

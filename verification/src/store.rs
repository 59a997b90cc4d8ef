//! The memo store: add, list, delete and keyword search over the rows of
//! the memo table, with lazy, idempotent schema initialization and a
//! lenient read path that drops rows whose timestamp text does not decode.
use vstd::prelude::*;

use crate::db::{
    create_memo_table, db_rows, delete_by_id, ids_below_cap, insert_memo, lemma_next_rowid_fresh,
    next_rowid, open_connection, remove_id, row_id_fresh, row_views, schema_ready, select_all,
};
use crate::errors::MemoError;
use crate::text::{chars_of, contains_ci, contains_keyword};
use crate::timestamp::{decode_spec, decode_timestamp, encode_spec, encode_timestamp, now_local,
    Timestamp};

verus! {

/// One persisted note: its stable identifier, its text, and the moment of
/// its creation in the local time of the writer.
#[derive(Debug, Clone, PartialEq, Eq)]
pub struct Memo {
    pub id: i64,
    pub content: String,
    pub created_at: Timestamp,
}

impl View for Memo {
    type V = (int, Seq<char>, Timestamp);

    open spec fn view(&self) -> Self::V {
        (self.id as int, self.content@, self.created_at)
    }
}

pub open spec fn memo_views(v: Seq<Memo>) -> Seq<(int, Seq<char>, Timestamp)> {
    v.map_values(|m: Memo| m@)
}

/// What the lenient read path makes of one raw row: the memo it denotes,
/// or nothing when the stored timestamp text does not decode.
pub open spec fn read_row(r: (int, Seq<char>, Seq<char>)) -> Option<(int, Seq<char>, Timestamp)> {
    match decode_spec(r.2) {
        Some(t) => Some((r.0, r.1, t)),
        None => None,
    }
}

pub open spec fn read_row_f() -> spec_fn((int, Seq<char>, Seq<char>)) -> Option<
    (int, Seq<char>, Timestamp),
> {
    |r: (int, Seq<char>, Seq<char>)| read_row(r)
}

/// The memos a listing yields: every row whose timestamp decodes, in
/// storage order; the others are dropped.
pub open spec fn decoded_memos(rows: Seq<(int, Seq<char>, Seq<char>)>) -> Seq<
    (int, Seq<char>, Timestamp),
> {
    rows.filter_map(read_row_f())
}

/// Whether a memo's content contains the keyword, ignoring ASCII case.
pub open spec fn memo_matches(kw: Seq<char>) -> spec_fn((int, Seq<char>, Timestamp)) -> bool {
    |m: (int, Seq<char>, Timestamp)| contains_ci(m.1, kw)
}

/// The persistent memo store over one database file.
pub struct MemoStore {
    conn: rusqlite::Connection,
}

impl MemoStore {
    /// The rows of the memo table, in storage order.
    pub closed spec fn rows(&self) -> Seq<(int, Seq<char>, Seq<char>)> {
        db_rows(self.conn)
    }

    /// Whether the memo table exists.
    pub closed spec fn ready(&self) -> bool {
        schema_ready(self.conn)
    }

    /// Open the store at the given path, creating the database file and
    /// the memo schema if absent. The parent directory must already exist.
    pub fn open(path: &str) -> (r: Result<MemoStore, MemoError>)
        ensures
            match r {
                Ok(s) => s.ready(),
                Err(e) => e == MemoError::IOError || e == MemoError::StorageInitError,
            },
    {
        let conn = match open_connection(path) {
            Ok(c) => c,
            Err(e) => {
                return Err(e);
            },
        };
        let mut store = MemoStore { conn };
        match store.init_schema() {
            Ok(()) => Ok(store),
            Err(e) => Err(e),
        }
    }

    /// Ensure the memo table exists. Safe to call any number of times:
    /// the rows that are already stored are never touched.
    pub fn init_schema(&mut self) -> (r: Result<(), MemoError>)
        ensures
            final(self).rows() == old(self).rows(),
            match r {
                Ok(()) => final(self).ready(),
                Err(e) => e == MemoError::StorageInitError && final(self).ready() == old(
                    self,
                ).ready(),
            },
    {
        create_memo_table(&mut self.conn)
    }

    /// Store a new memo with the given content and creation moment. Empty
    /// content is rejected before storage is touched; otherwise the record
    /// goes in with a fresh identifier and the canonical timestamp text —
    /// appended at the end, as one more than the largest identifier, while
    /// the identifiers are below the engine's 64-bit cap.
    pub fn add_at(&mut self, content: &str, created_at: Timestamp) -> (r: Result<(), MemoError>)
        requires
            created_at.valid(),
        ensures
            final(self).ready() == old(self).ready(),
            content@.len() == 0 <==> r == Err::<(), MemoError>(MemoError::ValidationError),
            match r {
                Ok(()) => content@.len() > 0 && (exists|id: int, k: int|
                    0 <= k <= old(self).rows().len() && row_id_fresh(old(self).rows(), id)
                        && final(self).rows() == old(self).rows().insert(
                        k,
                        (id, content@, encode_spec(created_at)),
                    )) && (ids_below_cap(old(self).rows()) ==> row_id_fresh(
                    old(self).rows(),
                    next_rowid(old(self).rows()),
                ) && final(self).rows() == old(self).rows().push(
                    (next_rowid(old(self).rows()), content@, encode_spec(created_at)),
                )),
                Err(e) => final(self).rows() == old(self).rows() && (e
                    == MemoError::ValidationError || e == MemoError::StorageWriteError),
            },
    {
        if content.is_empty() {
            return Err(MemoError::ValidationError);
        }
        let encoded = encode_timestamp(&created_at);
        let ghost pre = *self;
        let outcome = insert_memo(&mut self.conn, content, &encoded);
        proof {
            if outcome is Ok {
                let (id, k): (int, int) = choose|id: int, k: int|
                    0 <= k <= db_rows(pre.conn).len() && row_id_fresh(db_rows(pre.conn), id)
                        && db_rows(self.conn) == db_rows(pre.conn).insert(
                        k,
                        (id, content@, encoded@),
                    );
                assert(0 <= k <= old(self).rows().len() && row_id_fresh(old(self).rows(), id)
                    && self.rows() == old(self).rows().insert(
                    k,
                    (id, content@, encode_spec(created_at)),
                ));
                lemma_next_rowid_fresh(old(self).rows());
            }
        }
        outcome
    }

    /// Store a new memo with the given content, stamped with the present
    /// local moment. Empty content is rejected before storage is touched.
    /// Should the clock ever yield a moment the store cannot represent (a
    /// year beyond four digits, see `timestamp_from_parts`), no record can
    /// be written and the add reports `StorageWriteError`: of the store's
    /// error kinds it is the one whose handling — surfaced to the caller,
    /// not retried, storage untouched — fits a failed add.
    pub fn add(&mut self, content: &str) -> (r: Result<(), MemoError>)
        ensures
            final(self).ready() == old(self).ready(),
            content@.len() == 0 <==> r == Err::<(), MemoError>(MemoError::ValidationError),
            match r {
                Ok(()) => content@.len() > 0 && (exists|t: Timestamp|
                    t.valid() && (exists|id: int, k: int|
                        0 <= k <= old(self).rows().len() && row_id_fresh(old(self).rows(), id)
                            && final(self).rows() == old(self).rows().insert(
                            k,
                            (id, content@, encode_spec(t)),
                        )) && (ids_below_cap(old(self).rows()) ==> final(self).rows() == old(
                        self,
                    ).rows().push((next_rowid(old(self).rows()), content@, encode_spec(t))))),
                Err(e) => final(self).rows() == old(self).rows() && (e
                    == MemoError::ValidationError || e == MemoError::StorageWriteError),
            },
    {
        if content.is_empty() {
            return Err(MemoError::ValidationError);
        }
        let ghost pre = *self;
        match now_local() {
            Some(t) => {
                let outcome = self.add_at(content, t);
                proof {
                    if outcome is Ok {
                        assert(t.valid() && (exists|id: int, k: int|
                            0 <= k <= pre.rows().len() && row_id_fresh(pre.rows(), id)
                                && self.rows() == pre.rows().insert(
                                k,
                                (id, content@, encode_spec(t)),
                            )) && (ids_below_cap(pre.rows()) ==> self.rows() == pre.rows().push(
                            (next_rowid(pre.rows()), content@, encode_spec(t)),
                        )));
                    }
                }
                outcome
            },
            None => Err(MemoError::StorageWriteError),
        }
    }

    /// Remove the memo with the given identifier, silently doing nothing
    /// when no such memo exists.
    pub fn delete(&mut self, id: i64) -> (r: Result<(), MemoError>)
        ensures
            final(self).ready() == old(self).ready(),
            match r {
                Ok(()) => final(self).rows() == remove_id(old(self).rows(), id as int),
                Err(e) => e == MemoError::StorageWriteError && final(self).rows() == old(
                    self,
                ).rows(),
            },
    {
        delete_by_id(&mut self.conn, id)
    }

    /// Every stored memo whose timestamp decodes, in storage order.
    pub fn list(&self) -> (r: Result<Vec<Memo>, MemoError>)
        ensures
            match r {
                Ok(v) => memo_views(v@) == decoded_memos(self.rows()),
                Err(e) => e == MemoError::StorageReadError,
            },
    {
        let fetched = match select_all(&self.conn) {
            Ok(v) => v,
            Err(e) => {
                return Err(e);
            },
        };
        let ghost rows = self.rows();
        let mut out: Vec<Memo> = Vec::new();
        let mut i: usize = 0;
        while i < fetched.len()
            invariant
                i <= fetched@.len(),
                row_views(fetched@) == rows,
                memo_views(out@) == decoded_memos(rows.take(i as int)),
            decreases fetched@.len() - i,
        {
            let row = &fetched[i];
            proof {
                assert(row@ == row_views(fetched@)[i as int]);
                rows.lemma_filter_map_take_succ(read_row_f(), i as int);
            }
            let cs = chars_of(row.created_at.as_str());
            match decode_timestamp(&cs) {
                Ok(t) => {
                    let m = Memo { id: row.id, content: row.content.clone(), created_at: t };
                    out.push(m);
                    proof {
                        assert(memo_views(out@) =~= decoded_memos(rows.take(i as int + 1)));
                    }
                },
                Err(_) => {
                    proof {
                        assert(memo_views(out@) =~= decoded_memos(rows.take(i as int + 1)));
                    }
                },
            }
            i += 1;
        }
        proof {
            assert(rows.take(fetched@.len() as int) =~= rows);
        }
        Ok(out)
    }

    /// Every stored memo whose timestamp decodes and whose content
    /// contains the keyword, ignoring ASCII case, in storage order. An
    /// empty keyword matches every memo.
    pub fn find(&self, keyword: &str) -> (r: Result<Vec<Memo>, MemoError>)
        ensures
            match r {
                Ok(v) => memo_views(v@) == decoded_memos(self.rows()).filter(
                    memo_matches(keyword@),
                ),
                Err(e) => e == MemoError::StorageReadError,
            },
    {
        let kw = chars_of(keyword);
        let fetched = match select_all(&self.conn) {
            Ok(v) => v,
            Err(e) => {
                return Err(e);
            },
        };
        let ghost rows = self.rows();
        let mut out: Vec<Memo> = Vec::new();
        let mut i: usize = 0;
        while i < fetched.len()
            invariant
                i <= fetched@.len(),
                row_views(fetched@) == rows,
                kw@ == keyword@,
                memo_views(out@) == decoded_memos(rows.take(i as int)).filter(
                    memo_matches(keyword@),
                ),
            decreases fetched@.len() - i,
        {
            let row = &fetched[i];
            proof {
                assert(row@ == row_views(fetched@)[i as int]);
                rows.lemma_filter_map_take_succ(read_row_f(), i as int);
            }
            let cs = chars_of(row.created_at.as_str());
            match decode_timestamp(&cs) {
                Ok(t) => {
                    let keep = contains_keyword(&chars_of(row.content.as_str()), &kw);
                    proof {
                        Seq::filter_distributes_over_add(
                            decoded_memos(rows.take(i as int)),
                            seq![(row@.0, row@.1, t)],
                            memo_matches(keyword@),
                        );
                        lemma_filter_singleton((row@.0, row@.1, t), memo_matches(keyword@));
                    }
                    if keep {
                        let m = Memo { id: row.id, content: row.content.clone(), created_at: t };
                        out.push(m);
                    }
                    proof {
                        assert(decoded_memos(rows.take(i as int + 1)) =~= decoded_memos(
                            rows.take(i as int),
                        ) + seq![(row@.0, row@.1, t)]);
                        assert(memo_views(out@) =~= decoded_memos(rows.take(i as int + 1)).filter(
                            memo_matches(keyword@),
                        ));
                    }
                },
                Err(_) => {
                    proof {
                        assert(decoded_memos(rows.take(i as int + 1)) =~= decoded_memos(
                            rows.take(i as int),
                        ));
                        assert(memo_views(out@) =~= decoded_memos(rows.take(i as int + 1)).filter(
                            memo_matches(keyword@),
                        ));
                    }
                },
            }
            i += 1;
        }
        proof {
            assert(rows.take(fetched@.len() as int) =~= rows);
        }
        Ok(out)
    }
}

/// Deleting an identifier that no row carries leaves the rows unchanged:
/// removal is idempotent, and removing a missing memo is a no-op.
pub proof fn lemma_delete_missing(rows: Seq<(int, Seq<char>, Seq<char>)>, id: int)
    requires
        row_id_fresh(rows, id),
    ensures
        remove_id(rows, id) == rows,
    decreases rows.len(),
{
    reveal(Seq::filter);
    if rows.len() > 0 {
        assert(rows.drop_last() =~= rows.take(rows.len() - 1));
        assert(row_id_fresh(rows.drop_last(), id));
        lemma_delete_missing(rows.drop_last(), id);
        assert(remove_id(rows, id) =~= rows);
    } else {
        assert(remove_id(rows, id) =~= rows);
    }
}

/// A memo appended with a decodable (canonically encoded) timestamp is
/// never dropped by the lenient read path: listing after a successful add
/// yields exactly the old listing plus the new memo, at the end.
pub proof fn lemma_added_memo_listed(
    rows: Seq<(int, Seq<char>, Seq<char>)>,
    id: int,
    content: Seq<char>,
    t: Timestamp,
)
    requires
        t.valid(),
    ensures
        decoded_memos(rows.push((id, content, encode_spec(t)))) == decoded_memos(rows).push(
            (id, content, t),
        ),
{
    crate::timestamp::lemma_codec_round_trip(t);
    let grown = rows.push((id, content, encode_spec(t)));
    assert(grown.drop_last() =~= rows);
    assert(read_row_f()((id, content, encode_spec(t))) == Some((id, content, t)));
    assert(decoded_memos(grown) =~= decoded_memos(rows).push((id, content, t)));
}

/// Add/list consistency, while every current identifier is below the
/// engine's 64-bit cap (at the cap the engine falls back to a random fresh
/// identifier and append-at-the-end cannot be promised): after a
/// successful add, the listing is the old listing plus exactly one memo,
/// at the end, carrying the added content and an identifier that neither
/// the rows nor the old listing carried.
pub proof fn lemma_add_list_consistency(
    rows: Seq<(int, Seq<char>, Seq<char>)>,
    content: Seq<char>,
    t: Timestamp,
)
    requires
        ids_below_cap(rows),
        t.valid(),
    ensures
        decoded_memos(rows.push((next_rowid(rows), content, encode_spec(t))))
            == decoded_memos(rows).push((next_rowid(rows), content, t)),
        row_id_fresh(rows, next_rowid(rows)),
        forall|j: int|
            0 <= j < decoded_memos(rows).len() ==> decoded_memos(rows)[j].0 != next_rowid(rows),
{
    lemma_next_rowid_fresh(rows);
    lemma_added_memo_listed(rows, next_rowid(rows), content, t);
    let ms = decoded_memos(rows);
    assert forall|j: int| 0 <= j < ms.len() implies ms[j].0 != next_rowid(rows) by {
        assert(ms.contains(ms[j]));
        rows.lemma_filter_map_contains(read_row_f(), ms[j]);
        let r = choose|r: (int, Seq<char>, Seq<char>)|
            #[trigger] rows.contains(r) && read_row_f()(r) == Some(ms[j]);
        let k = choose|k: int| 0 <= k < rows.len() && rows[k] == r;
        assert(rows[k].0 != next_rowid(rows));
    };
}

/// Searching with the empty keyword keeps every memo: the search then
/// lists the whole store.
pub proof fn lemma_find_empty_keyword(memos: Seq<(int, Seq<char>, Timestamp)>)
    ensures
        memos.filter(memo_matches(Seq::<char>::empty())) == memos,
    decreases memos.len(),
{
    reveal(Seq::filter);
    if memos.len() > 0 {
        lemma_find_empty_keyword(memos.drop_last());
        crate::text::lemma_empty_keyword_matches(memos.last().1, Seq::<char>::empty());
        assert(memos.filter(memo_matches(Seq::<char>::empty())) =~= memos);
    } else {
        assert(memos.filter(memo_matches(Seq::<char>::empty())) =~= memos);
    }
}

/// Filtering a one-element sequence keeps or drops its element as the
/// predicate says.
proof fn lemma_filter_singleton<A>(a: A, pred: spec_fn(A) -> bool)
    ensures
        seq![a].filter(pred) == if pred(a) {
            seq![a]
        } else {
            Seq::<A>::empty()
        },
{
    reveal_with_fuel(Seq::filter, 2);
    assert(seq![a].drop_last() =~= Seq::<A>::empty());
    if pred(a) {
        assert(seq![a].filter(pred) =~= seq![a]);
    } else {
        assert(seq![a].filter(pred) =~= Seq::<A>::empty());
    }
}

} // verus!

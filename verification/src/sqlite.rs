//! The statements that the history is kept with, one function each.
//!
//! A connection is known by what its `items` table holds. The contracts below
//! say what each statement reads and changes there, of a connection that is
//! `is_own`: a table of another make, a trigger or a second writer would have
//! its own say. A statement that fails is undone, as SQLite undoes it.

use crate::ipc::label_text;
use rusqlite::{Connection, Error, OptionalExtension};
use vstd::prelude::*;

verus! {

#[verifier::external_type_specification]
#[verifier::external_body]
pub struct ExConnection(Connection);

#[verifier::external_type_specification]
#[verifier::external_body]
pub struct ExError(Error);

/// One row of the `items` table, without its id.
#[verifier::ext_equal]
pub struct Entry {
    pub hash: Seq<char>,
    pub content: Seq<char>,
    pub preview: Seq<char>,
    pub bytes: i64,
    pub pinned: i64,
    pub label: Option<Seq<char>>,
    pub created_at: i64,
    pub updated_at: i64,
    pub seq: i64,
}

/// The rows of a connection's `items` table by their ids; none where there is
/// no such table yet.
pub uninterp spec fn entries(conn: Connection) -> Map<i64, Entry>;

/// The largest id that the `items` table ever gave out, 0 before the first.
pub uninterp spec fn last_id(conn: Connection) -> int;

/// How a connection is set up.
#[verifier::ext_equal]
pub struct Setup {
    /// The names of the tables, views and indices of its database.
    pub objects: Set<Seq<char>>,
    /// The journal mode, how far writes are synchronised, whether foreign keys
    /// are enforced and how long to wait for a lock, as the pragmas
    /// `journal_mode`, `synchronous`, `foreign_keys` and `busy_timeout` report
    /// them.
    pub settings: Map<Seq<char>, Seq<char>>,
}

/// How a connection is set up.
pub uninterp spec fn setup(conn: Connection) -> Setup;

/// A connection that nothing interferes with. Its `items` table, if there is
/// one, is as `create_schema` makes it and holds values of its columns' types;
/// it has no trigger, and nothing else goes by the names of the schema. No other
/// connection writes to its database while it is open, and no transaction is
/// left open on it.
pub uninterp spec fn is_own(conn: Connection) -> bool;

/// Both connections hold the same entries, and have given out the same ids.
pub open spec fn unchanged(before: Connection, after: Connection) -> bool {
    entries(after) == entries(before) && last_id(after) == last_id(before)
}

/// How many entries a statement on the entry `id` affects.
pub open spec fn affected(table: Map<i64, Entry>, id: i64) -> int {
    if table.contains_key(id) {
        1
    } else {
        0
    }
}

/// `table` with the entry `id` changed, if there is one.
pub open spec fn changed(table: Map<i64, Entry>, id: i64, entry: Entry) -> Map<i64, Entry> {
    if table.contains_key(id) {
        table.insert(id, entry)
    } else {
        table
    }
}

/// How many pages of a connection's database hold nothing, or what was deleted.
pub uninterp spec fn free_pages(conn: Connection) -> nat;

impl Setup {
    /// The table of the history is there, with its indices.
    pub open spec fn has_schema(self) -> bool {
        &&& self.objects.contains("items"@)
        &&& self.objects.contains("idx_items_recent"@)
        &&& self.objects.contains("idx_items_pinned"@)
    }

    /// A setting has this value.
    pub open spec fn sets(self, name: Seq<char>, value: Seq<char>) -> bool {
        self.settings.contains_key(name) && self.settings[name] == value
    }

    /// The settings are those of the history, in a connection that was set up
    /// as `before`. A database that cannot keep a write-ahead log, such as one
    /// in memory, keeps its own journal mode.
    pub open spec fn is_tuned(self, before: Setup) -> bool {
        let journal = "journal_mode"@;
        &&& self.sets(journal, "wal"@) || self.settings[journal] == before.settings[journal]
        &&& self.sets("synchronous"@, "1"@)
        &&& self.sets("foreign_keys"@, "1"@)
        &&& self.sets("busy_timeout"@, "3000"@)
    }
}

/// The empty table.
pub open spec fn no_entries() -> Map<i64, Entry> {
    Map::empty()
}

/// The columns of a list view: id, preview, pinned, label, bytes, created_at,
/// updated_at.
pub type SummaryRow = (i64, String, i64, Option<String>, i64, i64, i64);

/// The columns of a whole entry: id, content, pinned, label, created_at,
/// updated_at.
pub type ItemRow = (i64, String, i64, Option<String>, i64, i64);

/// `row` holds what `table` has under its id.
pub open spec fn summarises(row: SummaryRow, table: Map<i64, Entry>) -> bool {
    let e = table[row.0];
    &&& table.contains_key(row.0)
    &&& row.1@ == e.preview
    &&& row.2 == e.pinned
    &&& label_text(row.3) == e.label
    &&& row.4 == e.bytes
    &&& row.5 == e.created_at
    &&& row.6 == e.updated_at
}

/// `row` holds what `table` has under its id.
pub open spec fn reports(row: ItemRow, table: Map<i64, Entry>) -> bool {
    let e = table[row.0];
    &&& table.contains_key(row.0)
    &&& row.1@ == e.content
    &&& row.2 == e.pinned
    &&& label_text(row.3) == e.label
    &&& row.4 == e.created_at
    &&& row.5 == e.updated_at
}

/// No two entries have the same content hash.
pub open spec fn hashes_differ(table: Map<i64, Entry>) -> bool {
    forall|a: i64, b: i64|
        table.contains_key(a) && table.contains_key(b) && a != b ==> (#[trigger] table[a]).hash != (
        #[trigger] table[b]).hash
}

/// No entry has an id beyond `last`.
pub open spec fn ids_up_to(table: Map<i64, Entry>, last: int) -> bool {
    forall|id: i64| #[trigger] table.contains_key(id) ==> id <= last
}

/// `n` is one more than the largest recency rank, or 1 in an empty table.
pub open spec fn is_next_seq(table: Map<i64, Entry>, n: int) -> bool {
    if table.dom() == Set::<i64>::empty() {
        n == 1
    } else {
        &&& forall|id: i64| table.contains_key(id) ==> (#[trigger] table[id]).seq < n
        &&& exists|id: i64| table.contains_key(id) && (#[trigger] table[id]).seq == n - 1
    }
}

/// `a` stands no later than `b` in a list: pinned entries first, and among
/// those that are pinned alike the more recent ones first.
pub open spec fn no_later(a: Entry, b: Entry) -> bool {
    a.pinned > b.pinned || (a.pinned == b.pinned && a.seq >= b.seq)
}

/// The ids of the entries that a list shows.
pub open spec fn shown(table: Map<i64, Entry>, pinned_only: bool) -> Set<i64> {
    table.dom().filter(|id: i64| pinned_only ==> table[id].pinned == 1)
}

/// `n`, or `limit` if that is less; a negative limit is none.
pub open spec fn at_most(n: nat, limit: int) -> nat {
    if 0 <= limit < n {
        limit as nat
    } else {
        n
    }
}

/// `ids` are the first `limit` entries to show, in the order of a list.
pub open spec fn is_listing(
    table: Map<i64, Entry>,
    pinned_only: bool,
    limit: int,
    ids: Seq<i64>,
) -> bool {
    let all = shown(table, pinned_only);
    &&& all.finite()
    &&& ids.len() == at_most(all.len(), limit)
    &&& ids.no_duplicates()
    &&& forall|i: int| 0 <= i < ids.len() ==> all.contains(#[trigger] ids[i])
    &&& forall|i: int, j: int|
        0 <= i < j < ids.len() ==> no_later(table[#[trigger] ids[i]], table[#[trigger] ids[j]])
    &&& forall|i: int, id: i64|
        0 <= i < ids.len() && #[trigger] all.contains(id) && !ids.contains(id) ==> no_later(
            table[#[trigger] ids[i]],
            table[id],
        )
}

/// The ids of the entries that are not pinned.
pub open spec fn loose(table: Map<i64, Entry>) -> Set<i64> {
    table.dom().filter(|id: i64| table[id].pinned == 0)
}

/// `after` is `before` with all but the `keep` most recent unpinned entries
/// removed.
pub open spec fn is_trimmed(before: Map<i64, Entry>, after: Map<i64, Entry>, keep: int) -> bool {
    &&& loose(before).finite()
    &&& loose(after).len() == at_most(loose(before).len(), keep)
    &&& forall|id: i64| #[trigger]
        after.contains_key(id) ==> before.contains_key(id) && after[id] == before[id]
    &&& forall|id: i64| #[trigger]
        before.contains_key(id) && before[id].pinned != 0 ==> after.contains_key(id)
    &&& forall|kept: i64, gone: i64| #[trigger]
        loose(after).contains(kept) && #[trigger] loose(before).contains(gone)
            && !after.contains_key(gone) ==> before[gone].seq <= before[kept].seq
}

/// `Connection::open_in_memory` opens a new, empty database that no other
/// connection can reach.
#[verifier::external_body]
pub(crate) fn connect_in_memory() -> (conn: Result<Connection, Error>)
    ensures
        conn matches Ok(c) ==> is_own(c) && entries(c) == no_entries() && last_id(c) == 0,
{
    Connection::open_in_memory()
}

/// `Connection::execute_batch` with the settings of a connection. They concern
/// how the database is written, and leave what it holds alone. SQLite does not
/// report it as an error when the journal mode cannot be changed, and then
/// leaves it as it was.
///
/// WAL commits are durable once written to the log, and a killed process
/// recovers on the next open. `NORMAL` is the usual pairing: it can lose the
/// last transactions only when the machine fails, not when the process dies.
#[verifier::external_body]
pub(crate) fn apply_pragmas(conn: &mut Connection) -> (done: Result<(), Error>)
    ensures
        is_own(*old(conn)) ==> is_own(*final(conn)),
        is_own(*old(conn)) ==> unchanged(*old(conn), *final(conn)),
        done is Ok ==> setup(*final(conn)).is_tuned(setup(*old(conn))),
        is_own(*old(conn)) ==> setup(*final(conn)).objects == setup(*old(conn)).objects,
{
    conn.execute_batch(
        "PRAGMA journal_mode=WAL;
         PRAGMA synchronous=NORMAL;
         PRAGMA foreign_keys=ON;
         PRAGMA busy_timeout=3000;",
    )
}

/// `Connection::execute_batch` with `CREATE .. IF NOT EXISTS`, which leaves
/// what is already there alone. In a table of this schema there are finitely
/// many rows, `UNIQUE` keeps their hashes apart, and `AUTOINCREMENT` knows the
/// largest id.
///
/// `seq` is the recency rank, bumped on every touch. Ordering does not use
/// `updated_at`: two operations can land in the same millisecond, and the wall
/// clock can jump backwards. Neither can reorder a counter. The columns of the
/// indices mirror the `ORDER BY` of the queries.
#[verifier::external_body]
pub(crate) fn create_schema(conn: &mut Connection) -> (done: Result<(), Error>)
    ensures
        is_own(*old(conn)) ==> is_own(*final(conn)),
        is_own(*old(conn)) ==> unchanged(*old(conn), *final(conn)),
        is_own(*old(conn)) && done is Ok ==> entries(*final(conn)).dom().finite(),
        is_own(*old(conn)) && done is Ok ==> hashes_differ(entries(*final(conn))),
        is_own(*old(conn)) && done is Ok ==> ids_up_to(
            entries(*final(conn)),
            last_id(*final(conn)),
        ),
        done is Ok ==> setup(*final(conn)).has_schema(),
        setup(*final(conn)).settings == setup(*old(conn)).settings,
{
    conn.execute_batch(
        "CREATE TABLE IF NOT EXISTS items (
             id INTEGER PRIMARY KEY AUTOINCREMENT, hash TEXT NOT NULL UNIQUE,
             content TEXT NOT NULL, preview TEXT NOT NULL, bytes INTEGER NOT NULL,
             pinned INTEGER NOT NULL DEFAULT 0, label TEXT,
             created_at INTEGER NOT NULL, updated_at INTEGER NOT NULL,
             seq INTEGER NOT NULL
         );
         CREATE INDEX IF NOT EXISTS idx_items_recent ON items(seq DESC);
         CREATE INDEX IF NOT EXISTS idx_items_pinned ON items(pinned DESC, seq DESC);",
    )
}

/// `Connection::query_row` for the id of an entry with this hash.
#[verifier::external_body]
pub(crate) fn select_id_by_hash(conn: &Connection, hash: &str) -> (found: Result<
    Option<i64>,
    Error,
>)
    ensures
        is_own(*conn) ==> match found {
            Ok(Some(id)) => entries(*conn).contains_key(id) && entries(*conn)[id].hash == hash@,
            Ok(None) => forall|id: i64|
                entries(*conn).contains_key(id) ==> (#[trigger] entries(*conn)[id]).hash != hash@,
            Err(_) => true,
        },
{
    conn.query_row("SELECT id FROM items WHERE hash = ?1", (hash,), |r| r.get(0)).optional()
}

/// `Connection::query_row` for the recency rank that comes next. A rank that
/// does not fit the column is an error.
#[verifier::external_body]
pub(crate) fn select_next_seq(conn: &Connection) -> (seq: Result<i64, Error>)
    ensures
        is_own(*conn) ==> (seq matches Ok(n) ==> is_next_seq(entries(*conn), n as int)),
{
    conn.query_row("SELECT COALESCE(MAX(seq), 0) + 1 FROM items", (), |r| r.get(0))
}

/// `Connection::execute` of an `UPDATE` that makes an entry the most recent.
#[verifier::external_body]
pub(crate) fn update_recency(conn: &mut Connection, id: i64, now: i64, seq: i64) -> (n: Result<
    usize,
    Error,
>)
    ensures
        is_own(*old(conn)) ==> is_own(*final(conn)) && setup(*final(conn)) == setup(*old(conn)),
        is_own(*old(conn)) ==> (n matches Ok(k) ==> k == affected(entries(*old(conn)), id)),
        is_own(*old(conn)) && n is Ok ==> entries(*final(conn)) == changed(
            entries(*old(conn)),
            id,
            (Entry { updated_at: now, seq, ..entries(*old(conn))[id] }),
        ),
        is_own(*old(conn)) && n is Ok ==> last_id(*final(conn)) == last_id(*old(conn)),
        is_own(*old(conn)) && n is Err ==> unchanged(*old(conn), *final(conn)),
{
    conn.execute("UPDATE items SET updated_at = ?1, seq = ?2 WHERE id = ?3", (now, seq, id))
}

/// `Connection::execute` of an `INSERT`, and `Connection::last_insert_rowid`
/// for the id of the new row. In a table of this schema `AUTOINCREMENT` gives it
/// an id larger than any that was ever given out.
#[verifier::external_body]
pub(crate) fn insert_entry(
    conn: &mut Connection,
    hash: &str,
    content: &str,
    preview: &str,
    bytes: i64,
    now: i64,
    seq: i64,
) -> (id: Result<i64, Error>)
    ensures
        is_own(*old(conn)) ==> is_own(*final(conn)) && setup(*final(conn)) == setup(*old(conn)),
        is_own(*old(conn)) ==> (id matches Ok(k) ==> k > last_id(*old(conn)) && last_id(
            *final(conn),
        ) == k),
        is_own(*old(conn)) ==> (id matches Ok(k) ==> !entries(*old(conn)).contains_key(k)),
        is_own(*old(conn)) ==> (id matches Ok(k) ==> entries(*final(conn)) == entries(
            *old(conn),
        ).insert(
            k,
            (Entry {
                hash: hash@,
                content: content@,
                preview: preview@,
                bytes,
                pinned: 0,
                label: None,
                created_at: now,
                updated_at: now,
                seq,
            }),
        )),
        is_own(*old(conn)) && id is Err ==> unchanged(*old(conn), *final(conn)),
{
    conn.execute(
        "INSERT INTO items
             (hash, content, preview, bytes, pinned, label, created_at, updated_at, seq)
         VALUES (?1, ?2, ?3, ?4, 0, NULL, ?5, ?5, ?6)",
        (hash, content, preview, bytes, now, seq),
    )?;
    Ok(conn.last_insert_rowid())
}

/// `Statement::query_map` over the entries of a list. SQLite takes a negative
/// limit for none, and leaves the order of rows that tie open.
#[verifier::external_body]
pub(crate) fn select_summaries(conn: &Connection, pinned_only: bool, limit: i64) -> (rows: Result<
    Vec<SummaryRow>,
    Error,
>)
    ensures
        is_own(*conn) ==> (rows matches Ok(list) ==> is_listing(
            entries(*conn),
            pinned_only,
            limit as int,
            list@.map_values(|r: SummaryRow| r.0),
        )),
        is_own(*conn) ==> (rows matches Ok(list) ==> forall|i: int|
            0 <= i < list@.len() ==> summarises(#[trigger] list@[i], entries(*conn))),
{
    let mut stmt = conn.prepare_cached(
        "SELECT id, preview, pinned, label, bytes, created_at, updated_at
           FROM items
          WHERE (?1 = 0 OR pinned = 1)
       ORDER BY pinned DESC, seq DESC
          LIMIT ?2",
    )?;
    let rows = stmt.query_map((pinned_only, limit), |r| r.try_into())?;
    rows.collect()
}

/// `Statement::query_row` for the entry with this id.
#[verifier::external_body]
pub(crate) fn select_item(conn: &Connection, id: i64) -> (row: Result<Option<ItemRow>, Error>)
    ensures
        is_own(*conn) ==> match row {
            Ok(Some(found)) => found.0 == id && reports(found, entries(*conn)),
            Ok(None) => !entries(*conn).contains_key(id),
            Err(_) => true,
        },
{
    let mut stmt = conn.prepare_cached(
        "SELECT id, content, pinned, label, created_at, updated_at FROM items WHERE id = ?1",
    )?;
    stmt.query_row((id,), |r| r.try_into()).optional()
}

/// `Statement::query_row` for an entry of the highest recency rank.
#[verifier::external_body]
pub(crate) fn select_latest(conn: &Connection) -> (row: Result<Option<ItemRow>, Error>)
    ensures
        is_own(*conn) ==> match row {
            Ok(Some(found)) => reports(found, entries(*conn)) && forall|id: i64|
                entries(*conn).contains_key(id) ==> (#[trigger] entries(*conn)[id]).seq <= entries(
                    *conn,
                )[found.0].seq,
            Ok(None) => entries(*conn) == no_entries(),
            Err(_) => true,
        },
{
    let mut stmt = conn.prepare_cached(
        "SELECT id, content, pinned, label, created_at, updated_at
           FROM items ORDER BY seq DESC LIMIT 1",
    )?;
    stmt.query_row((), |r| r.try_into()).optional()
}

/// `Connection::execute` of an `UPDATE` of the pin of one entry.
#[verifier::external_body]
pub(crate) fn update_pinned(conn: &mut Connection, id: i64, pinned: i64) -> (n: Result<
    usize,
    Error,
>)
    ensures
        is_own(*old(conn)) ==> is_own(*final(conn)) && setup(*final(conn)) == setup(*old(conn)),
        is_own(*old(conn)) ==> (n matches Ok(k) ==> k == affected(entries(*old(conn)), id)),
        is_own(*old(conn)) && n is Ok ==> entries(*final(conn)) == changed(
            entries(*old(conn)),
            id,
            (Entry { pinned, ..entries(*old(conn))[id] }),
        ),
        is_own(*old(conn)) && n is Ok ==> last_id(*final(conn)) == last_id(*old(conn)),
        is_own(*old(conn)) && n is Err ==> unchanged(*old(conn), *final(conn)),
{
    conn.execute("UPDATE items SET pinned = ?1 WHERE id = ?2", (pinned, id))
}

/// The text of a borrowed label, if there is one.
pub open spec fn borrowed_text(label: Option<&str>) -> Option<Seq<char>> {
    match label {
        Some(text) => Some(text@),
        None => None,
    }
}

/// `Connection::execute` of an `UPDATE` of the label of one entry.
#[verifier::external_body]
pub(crate) fn update_label(conn: &mut Connection, id: i64, label: Option<&str>) -> (n: Result<
    usize,
    Error,
>)
    ensures
        is_own(*old(conn)) ==> is_own(*final(conn)) && setup(*final(conn)) == setup(*old(conn)),
        is_own(*old(conn)) ==> (n matches Ok(k) ==> k == affected(entries(*old(conn)), id)),
        is_own(*old(conn)) && n is Ok ==> entries(*final(conn)) == changed(
            entries(*old(conn)),
            id,
            (Entry { label: borrowed_text(label), ..entries(*old(conn))[id] }),
        ),
        is_own(*old(conn)) && n is Ok ==> last_id(*final(conn)) == last_id(*old(conn)),
        is_own(*old(conn)) && n is Err ==> unchanged(*old(conn), *final(conn)),
{
    conn.execute("UPDATE items SET label = ?1 WHERE id = ?2", (label, id))
}

/// `Connection::execute` of a `DELETE` of one entry.
#[verifier::external_body]
pub(crate) fn delete_entry(conn: &mut Connection, id: i64) -> (n: Result<usize, Error>)
    ensures
        is_own(*old(conn)) ==> is_own(*final(conn)) && setup(*final(conn)) == setup(*old(conn)),
        is_own(*old(conn)) ==> (n matches Ok(k) ==> k == affected(entries(*old(conn)), id)),
        is_own(*old(conn)) && n is Ok ==> entries(*final(conn)) == entries(*old(conn)).remove(id),
        is_own(*old(conn)) && n is Ok ==> last_id(*final(conn)) == last_id(*old(conn)),
        is_own(*old(conn)) && n is Err ==> unchanged(*old(conn), *final(conn)),
{
    conn.execute("DELETE FROM items WHERE id = ?1", (id,))
}

/// `Connection::execute` of a `DELETE` of every unpinned entry.
#[verifier::external_body]
pub(crate) fn delete_unpinned(conn: &mut Connection) -> (n: Result<usize, Error>)
    ensures
        is_own(*old(conn)) ==> is_own(*final(conn)) && setup(*final(conn)) == setup(*old(conn)),
        is_own(*old(conn)) ==> (n matches Ok(k) ==> loose(entries(*old(conn))).finite() && k
            == loose(entries(*old(conn))).len()),
        is_own(*old(conn)) && n is Ok ==> entries(*final(conn)) == entries(*old(conn)).remove_keys(
            loose(entries(*old(conn))),
        ),
        is_own(*old(conn)) && n is Ok ==> last_id(*final(conn)) == last_id(*old(conn)),
        is_own(*old(conn)) && n is Err ==> unchanged(*old(conn), *final(conn)),
{
    conn.execute("DELETE FROM items WHERE pinned = 0", ())
}

/// `Connection::execute` of a `DELETE` of every entry.
#[verifier::external_body]
pub(crate) fn delete_all(conn: &mut Connection) -> (n: Result<usize, Error>)
    ensures
        is_own(*old(conn)) ==> is_own(*final(conn)) && setup(*final(conn)) == setup(*old(conn)),
        is_own(*old(conn)) ==> (n matches Ok(k) ==> entries(*old(conn)).dom().finite() && k
            == entries(*old(conn)).dom().len()),
        is_own(*old(conn)) && n is Ok ==> entries(*final(conn)) == no_entries(),
        is_own(*old(conn)) && n is Ok ==> last_id(*final(conn)) == last_id(*old(conn)),
        is_own(*old(conn)) && n is Err ==> unchanged(*old(conn), *final(conn)),
{
    conn.execute("DELETE FROM items", ())
}

/// `Connection::execute_batch` of `VACUUM`, which rebuilds the database without
/// free pages and leaves what it holds alone.
#[verifier::external_body]
pub(crate) fn vacuum(conn: &mut Connection) -> (done: Result<(), Error>)
    ensures
        is_own(*old(conn)) ==> is_own(*final(conn)) && setup(*final(conn)) == setup(*old(conn)),
        is_own(*old(conn)) ==> unchanged(*old(conn), *final(conn)),
        is_own(*old(conn)) && done is Ok ==> free_pages(*final(conn)) == 0,
{
    conn.execute_batch("VACUUM;")
}

/// `Connection::execute` of a `DELETE` of the unpinned entries that are not
/// among the most recent `keep` of them. SQLite takes a negative limit for
/// none, and leaves open which of two entries of one rank it counts first.
#[verifier::external_body]
pub(crate) fn delete_stale(conn: &mut Connection, keep: i64) -> (n: Result<usize, Error>)
    ensures
        is_own(*old(conn)) ==> is_own(*final(conn)) && setup(*final(conn)) == setup(*old(conn)),
        is_own(*old(conn)) && n is Ok ==> is_trimmed(
            entries(*old(conn)),
            entries(*final(conn)),
            keep as int,
        ),
        is_own(*old(conn)) ==> (n matches Ok(k) ==> k == loose(entries(*old(conn))).len() - loose(
            entries(*final(conn)),
        ).len()),
        is_own(*old(conn)) && n is Ok ==> last_id(*final(conn)) == last_id(*old(conn)),
        is_own(*old(conn)) && n is Err ==> unchanged(*old(conn), *final(conn)),
{
    conn.execute(
        "DELETE FROM items
          WHERE pinned = 0
            AND id NOT IN (
                SELECT id FROM items WHERE pinned = 0
                 ORDER BY seq DESC LIMIT ?1
            )",
        (keep,),
    )
}

/// Every entry is either pinned or not.
pub open spec fn pins_are_flags(table: Map<i64, Entry>) -> bool {
    forall|id: i64|
        table.contains_key(id) ==> 0 <= (#[trigger] table[id]).pinned <= 1
}

/// The ids of the entries that are pinned.
pub open spec fn held(table: Map<i64, Entry>) -> Set<i64> {
    table.dom().filter(|id: i64| table[id].pinned != 0)
}

/// `Connection::query_row` for the number of entries and the sum of their
/// pins, which is the number of pinned ones where a pin is 0 or 1.
#[verifier::external_body]
pub(crate) fn select_counts(conn: &Connection) -> (counts: Result<(i64, i64), Error>)
    ensures
        is_own(*conn) ==> (counts matches Ok(c) ==> entries(*conn).dom().finite() && c.0 == entries(
            *conn,
        ).dom().len()),
        is_own(*conn) ==> (counts matches Ok(c) ==> (pins_are_flags(entries(*conn)) ==> c.1 == held(
            entries(*conn),
        ).len())),
{
    conn.query_row("SELECT COUNT(*), COALESCE(SUM(pinned), 0) FROM items", (), |r| r.try_into())
}

/// `anyhow::Error` in its alternate form: what `rusqlite::Error` says of
/// itself, and what it says of its causes. Nothing is claimed of the wording.
#[verifier::external_body]
pub(crate) fn error_text(error: Error) -> (text: String) {
    format!("{:#}", anyhow::Error::new(error))
}

} // verus!

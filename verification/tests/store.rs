use clipster::store::{Inserted, Store, StoreError};
use rusqlite::Connection;
use std::time::{Duration, Instant};

fn store() -> Store {
    Store::open_in_memory().unwrap()
}

/// A store, and a second connection to its database.
fn shared(name: &str) -> (Store, Connection) {
    let uri = format!("file:{name}?mode=memory&cache=shared");
    let store = Store::open(Connection::open(&uri).unwrap()).unwrap();
    (store, Connection::open(&uri).unwrap())
}

#[test]
fn insert_returns_new_then_bumped_for_same_content() {
    let mut s = store();
    let first = s.insert("hello").unwrap();
    assert!(matches!(first, Inserted::New(_)));
    let second = s.insert("hello").unwrap();
    assert_eq!(second, Inserted::Bumped(first.id()));
    assert_eq!(s.counts().unwrap().0, 1);
}

/// With second-resolution timestamps, re-copying an entry in the same second
/// as a newer capture would leave it stranded down the list.
#[test]
fn bumped_entry_outranks_one_captured_moments_earlier() {
    let mut s = store();
    let old = s.insert("old").unwrap().id();
    s.insert("new").unwrap();
    // No sleep: back-to-back operations are exactly the case that matters.
    assert_eq!(s.insert("old").unwrap(), Inserted::Bumped(old));

    assert_eq!(s.list(None, false).unwrap()[0].id, old);
    assert_eq!(s.latest().unwrap().unwrap().id, old);
}

#[test]
fn reinserting_moves_entry_back_to_top() {
    let (mut s, conn) = shared("reinserting");
    let a = s.insert("a").unwrap().id();
    s.insert("b").unwrap();
    s.insert("c").unwrap();
    conn.execute("UPDATE items SET seq = seq + 10 WHERE id = ?1", (a,)).unwrap();
    assert_eq!(s.list(None, false).unwrap()[0].id, a);
}

#[test]
fn eviction_drops_oldest_unpinned_only() {
    let (mut s, conn) = shared("evicting");
    for i in 0..10 {
        let id = s.insert(&format!("item {i}")).unwrap().id();
        conn.execute("UPDATE items SET seq = ?1 WHERE id = ?2", (i, id)).unwrap();
    }
    let oldest = s.list(None, false).unwrap().last().unwrap().id;
    s.set_pinned(oldest, true).unwrap();

    let removed = s.evict(3).unwrap();
    assert_eq!(removed, 6); // 10 total - 1 pinned - 3 kept

    let remaining = s.list(None, false).unwrap();
    assert_eq!(remaining.len(), 4);
    assert!(remaining.iter().any(|i| i.id == oldest), "pinned entry was evicted");
}

#[test]
fn eviction_is_a_no_op_below_the_limit() {
    let mut s = store();
    s.insert("only").unwrap();
    assert_eq!(s.evict(500).unwrap(), 0);
    assert_eq!(s.counts().unwrap().0, 1);
}

#[test]
fn pinned_entries_sort_first() {
    let mut s = store();
    s.insert("older").unwrap();
    let newer = s.insert("newer").unwrap().id();
    let older = s.list(None, false).unwrap().last().unwrap().id;
    s.set_pinned(older, true).unwrap();

    let list = s.list(None, false).unwrap();
    assert_eq!(list[0].id, older);
    assert_eq!(list[1].id, newer);
}

#[test]
fn clear_keeps_pinned_when_asked() {
    let mut s = store();
    let keep = s.insert("keep").unwrap().id();
    s.insert("drop").unwrap();
    s.set_pinned(keep, true).unwrap();

    assert_eq!(s.clear(true).unwrap(), 1);
    assert_eq!(s.counts().unwrap(), (1, 1));

    assert_eq!(s.clear(false).unwrap(), 1);
    assert_eq!(s.counts().unwrap(), (0, 0));
}

#[test]
fn labelling_pins_the_entry() {
    let mut s = store();
    let id = s.insert("git commit -m").unwrap().id();
    s.set_label(id, Some("commit template")).unwrap();
    let item = s.get(id).unwrap().unwrap();
    assert!(item.pinned);
    assert_eq!(item.label.as_deref(), Some("commit template"));
}

#[test]
fn multiline_content_round_trips_intact() {
    let mut s = store();
    let content = "line one\nline two\n\ttabbed";
    let id = s.insert(content).unwrap().id();
    assert_eq!(s.get(id).unwrap().unwrap().content, content);
    assert_eq!(s.list(None, false).unwrap()[0].preview, "line one line two tabbed");
}

#[test]
fn get_and_remove_report_missing_ids() {
    let mut s = store();
    assert!(s.get(999).unwrap().is_none());
    assert_eq!(s.remove(999).unwrap(), 0);
}

#[test]
fn pinned_only_filter_excludes_the_rest() {
    let mut s = store();
    s.insert("plain").unwrap();
    let id = s.insert("pinned").unwrap().id();
    s.set_pinned(id, true).unwrap();
    let list = s.list(None, true).unwrap();
    assert_eq!(list.len(), 1);
    assert_eq!(list[0].id, id);
}

#[test]
fn an_entry_reads_back_with_all_its_fields() {
    let mut s = store();
    let id = s.insert_at("héllo  wörld", 1234).unwrap().id();
    let item = s.get(id).unwrap().unwrap();
    assert_eq!(item.id, id);
    assert_eq!(item.content, "héllo  wörld");
    assert_eq!((item.pinned, item.label.clone()), (false, None));
    assert_eq!((item.created_at, item.updated_at), (1234, 1234));

    let row = s.list(None, false).unwrap().remove(0);
    assert_eq!(row.id, id);
    assert_eq!(row.preview, "héllo wörld");
    assert_eq!(row.bytes, 14);
    assert_eq!((row.pinned, row.label), (false, None));
    assert_eq!((row.created_at, row.updated_at), (1234, 1234));
}

#[test]
fn a_bump_changes_the_time_of_the_last_touch_only() {
    let mut s = store();
    let id = s.insert_at("x", 10).unwrap().id();
    // The clock may go backwards; the order does not care.
    s.insert_at("y", 20).unwrap();
    assert_eq!(s.insert_at("x", 5).unwrap(), Inserted::Bumped(id));
    let item = s.get(id).unwrap().unwrap();
    assert_eq!((item.created_at, item.updated_at), (10, 5));
    assert_eq!(s.latest().unwrap().unwrap().id, id);
}

#[test]
fn content_with_a_nul_round_trips_intact() {
    let mut s = store();
    let id = s.insert("a\0b").unwrap().id();
    assert_eq!(s.get(id).unwrap().unwrap().content, "a\0b");
    assert_eq!(s.insert("a\0c").unwrap(), Inserted::New(id + 1));
    assert_eq!(s.insert("a\0b").unwrap(), Inserted::Bumped(id));
}

#[test]
fn an_id_is_not_given_out_again() {
    let mut s = store();
    let first = s.insert("one").unwrap().id();
    assert_eq!(first, 1);
    assert_eq!(s.remove(first).unwrap(), 1);
    assert_eq!(s.insert("two").unwrap(), Inserted::New(2));
    assert_eq!(s.clear(false).unwrap(), 1);
    assert_eq!(s.insert("one").unwrap(), Inserted::New(3));
}

#[test]
fn a_limit_cuts_off_the_end_of_a_list() {
    let mut s = store();
    for content in ["a", "b", "c"] {
        s.insert(content).unwrap();
    }
    let ids = |s: &Store, limit| -> Vec<i64> {
        s.list(limit, false).unwrap().iter().map(|i| i.id).collect()
    };
    assert_eq!(ids(&s, None), vec![3, 2, 1]);
    assert_eq!(ids(&s, Some(2)), vec![3, 2]);
    assert_eq!(ids(&s, Some(0)), Vec::<i64>::new());
    assert_eq!(ids(&s, Some(usize::MAX)), vec![3, 2, 1]);
}

#[test]
fn a_bumped_entry_survives_eviction() {
    let mut s = store();
    let a = s.insert("a").unwrap().id();
    s.insert("b").unwrap();
    s.insert("a").unwrap();
    assert_eq!(s.evict(1).unwrap(), 1);
    let list = s.list(None, false).unwrap();
    assert_eq!(list.len(), 1);
    assert_eq!(list[0].id, a);
    assert_eq!(s.evict(usize::MAX).unwrap(), 0);
    assert_eq!(s.evict(0).unwrap(), 1);
}

#[test]
fn taking_a_label_away_leaves_the_pin() {
    let mut s = store();
    let id = s.insert("x").unwrap().id();
    assert_eq!(s.set_label(id, Some("name")).unwrap(), 1);
    assert_eq!(s.evict(0).unwrap(), 0);
    assert_eq!(s.set_label(id, None).unwrap(), 1);
    let item = s.get(id).unwrap().unwrap();
    assert!(item.pinned);
    assert_eq!(item.label, None);
    assert_eq!(s.set_pinned(id, false).unwrap(), 1);
    assert!(!s.get(id).unwrap().unwrap().pinned);
    assert_eq!(s.set_label(id + 1, Some("name")).unwrap(), 0);
    assert_eq!(s.set_pinned(id + 1, true).unwrap(), 0);
}

#[test]
fn an_empty_history_has_no_latest_entry() {
    let s = store();
    assert!(s.latest().unwrap().is_none());
    assert!(s.list(None, false).unwrap().is_empty());
    assert_eq!(s.counts().unwrap(), (0, 0));
}

#[test]
fn opening_again_finds_what_was_there() {
    let (mut s, conn) = shared("reopening");
    let id = s.insert("kept").unwrap().id();
    let again = Store::open(conn).unwrap();
    assert_eq!(again.get(id).unwrap().unwrap().content, "kept");
}

#[test]
fn a_failed_statement_says_what_failed() {
    let (s, conn) = shared("dropping");
    conn.execute_batch("DROP TABLE items").unwrap();
    let error = s.list(None, false).unwrap_err();
    assert!(matches!(error, StoreError::Statement(_)));
    let text = error.message();
    assert!(text.starts_with("no such table: items"), "{text}");
    assert!(text.contains("Error code 1"), "{text}");
}

#[test]
fn a_schema_that_cannot_be_created_is_reported() {
    let conn = Connection::open_in_memory().unwrap();
    conn.execute_batch("CREATE VIEW items AS SELECT 1 AS seq, 2 AS pinned").unwrap();
    let error = Store::open(conn).err().unwrap();
    assert!(matches!(error, StoreError::Schema(_)));
    assert!(error.message().starts_with("creating schema: "));
}

#[test]
fn pragmas_that_cannot_be_applied_are_reported() {
    let conn = Connection::open_in_memory().unwrap();
    conn.execute_batch("BEGIN").unwrap();
    let error = Store::open(conn).err().unwrap();
    assert!(matches!(error, StoreError::Pragmas(_)));
    assert!(error.message().starts_with("applying pragmas: "));
}

fn number(conn: &Connection, query: &str) -> i64 {
    conn.query_row(query, (), |r| r.get(0)).unwrap()
}

#[test]
fn opening_creates_the_schema() {
    let (_store, conn) = shared("creating");
    let named = "SELECT COUNT(*) FROM sqlite_master WHERE name IN \
                 ('items', 'idx_items_recent', 'idx_items_pinned')";
    assert_eq!(number(&conn, named), 3);
}

#[test]
fn opening_sets_how_long_to_wait_for_a_lock() {
    let uri = "file:/waiting?vfs=memdb";
    let mut s = Store::open(Connection::open(uri).unwrap()).unwrap();
    let other = Connection::open(uri).unwrap();
    other.execute_batch("BEGIN EXCLUSIVE").unwrap();
    let begun = Instant::now();
    assert!(matches!(s.insert("x"), Err(StoreError::Statement(_))));
    let waited = begun.elapsed();
    assert!(waited > Duration::from_millis(2500), "{waited:?}");
    assert!(waited < Duration::from_millis(4500), "{waited:?}");
    // What failed is undone.
    other.execute_batch("ROLLBACK").unwrap();
    assert_eq!(s.counts().unwrap(), (0, 0));
    assert_eq!(s.insert("x").unwrap(), Inserted::New(1));
}

#[test]
fn clearing_leaves_no_free_pages() {
    let (mut s, conn) = shared("clearing");
    let big = "x".repeat(100_000);
    let id = s.insert(&big).unwrap().id();
    s.insert("kept").unwrap();
    s.remove(id).unwrap();
    assert!(number(&conn, "PRAGMA freelist_count") > 0);
    s.clear(true).unwrap();
    assert_eq!(number(&conn, "PRAGMA freelist_count"), 0);
}

#[test]
fn a_limited_list_is_the_beginning_of_the_whole() {
    let mut s = store();
    for content in ["a", "bb", "ccc", "é"] {
        s.insert(content).unwrap();
    }
    s.set_pinned(2, true).unwrap();
    let rows = |limit, pinned| -> Vec<(i64, usize)> {
        s.list(limit, pinned).unwrap().iter().map(|i| (i.id, i.bytes)).collect()
    };
    let all = rows(None, false);
    assert_eq!(all, vec![(2, 2), (4, 2), (3, 3), (1, 1)]);
    assert_eq!(rows(Some(3), false), all[..3]);
    assert_eq!(rows(Some(9), false), all);
    assert_eq!(rows(None, true), all[..1]);
}

#[test]
fn a_statement_that_fails_is_undone() {
    let (mut s, conn) = shared("undoing");
    let id = s.insert_at("x", 1).unwrap().id();
    conn.execute_batch(
        "CREATE TRIGGER no BEFORE INSERT ON items BEGIN SELECT RAISE(ABORT, 'no'); END;
         CREATE TRIGGER stay BEFORE DELETE ON items BEGIN SELECT RAISE(ABORT, 'stay'); END;",
    )
    .unwrap();
    assert!(s.insert_at("y", 2).is_err());
    assert!(s.remove(id).is_err());
    assert!(s.clear(false).is_err());
    assert!(s.evict(0).is_err());
    let list = s.list(None, false).unwrap();
    assert_eq!((list.len(), list[0].id, list[0].updated_at), (1, id, 1));
}

#[test]
fn a_label_whose_pin_fails_stands_without_it() {
    let (mut s, conn) = shared("halfway");
    let id = s.insert("x").unwrap().id();
    conn.execute_batch(
        "CREATE TRIGGER loose BEFORE UPDATE OF pinned ON items
         BEGIN SELECT RAISE(ABORT, 'loose'); END;",
    )
    .unwrap();
    assert!(s.set_label(id, Some("name")).is_err());
    let item = s.get(id).unwrap().unwrap();
    assert_eq!((item.pinned, item.label.as_deref()), (false, Some("name")));
}

#[test]
fn a_table_of_another_make_is_taken_as_it_is() {
    let conn = Connection::open_in_memory().unwrap();
    conn.execute_batch(
        "CREATE TABLE items (id INTEGER PRIMARY KEY, hash, content, preview, bytes, pinned,
             label, created_at, updated_at, seq);
         INSERT INTO items VALUES (1, 'h', 'a', 'a', 1, 0, NULL, 0, 0, 1);
         INSERT INTO items VALUES (2, 'h', 'b', 'b', 1, 0, NULL, 0, 0, 2);",
    )
    .unwrap();
    let mut s = Store::open(conn).unwrap();
    assert_eq!(s.counts().unwrap(), (2, 0));
    // Without AUTOINCREMENT the largest id comes back.
    s.remove(2).unwrap();
    assert_eq!(s.insert("c").unwrap(), Inserted::New(2));
}

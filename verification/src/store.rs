//! History storage: deduplicated by content, ordered by recency.

use crate::clock::{is_clock_reading, now_millis};
use crate::hash::content_hash;
use crate::history::{
    ids_of, is_most_recent, is_recorded, lists, recording_keeps_soundness,
    removing_keeps_soundness, row_limit, History,
};
use crate::ipc::{Item, Summary};
use crate::sqlite::{
    apply_pragmas, borrowed_text, connect_in_memory, create_schema, delete_all, delete_entry,
    delete_stale, delete_unpinned, entries, error_text, free_pages, held, insert_entry,
    is_next_seq, is_own, is_trimmed, last_id, loose, no_entries, pins_are_flags, select_counts,
    select_id_by_hash, select_item, select_latest, select_next_seq, select_summaries, setup,
    summarises, update_label, update_pinned, update_recency, vacuum, ItemRow, Setup, SummaryRow,
};
use crate::text::preview;
use rusqlite::{Connection, Error};
use vstd::prelude::*;
use vstd::string::*;

verus! {

/// Characters of content retained in a list preview.
pub const PREVIEW_CHARS: usize = 160;

/// What `insert` did, so the daemon can log something meaningful.
#[derive(Debug, Clone, Copy, PartialEq, Eq, Structural)]
pub enum Inserted {
    /// A new row was created.
    New(i64),
    /// Content already present; its recency was refreshed instead.
    Bumped(i64),
}

impl Inserted {
    /// The id of the entry, new or not.
    pub open spec fn spec_id(self) -> i64 {
        match self {
            Inserted::New(id) => id,
            Inserted::Bumped(id) => id,
        }
    }

    /// The id of the entry, new or not.
    pub fn id(self) -> (id: i64)
        ensures
            id == self.spec_id(),
    {
        match self {
            Inserted::New(id) | Inserted::Bumped(id) => id,
        }
    }
}

/// What failed, and where.
#[derive(Debug)]
pub enum StoreError {
    /// Configuring a connection.
    Pragmas(Error),
    /// Creating the schema.
    Schema(Error),
    /// Any other statement.
    Statement(Error),
}

impl StoreError {
    /// What was being done when it failed, as the text that goes before the
    /// error's own.
    pub open spec fn context(self) -> Seq<char> {
        match self {
            StoreError::Pragmas(_) => "applying pragmas: "@,
            StoreError::Schema(_) => "creating schema: "@,
            StoreError::Statement(_) => Seq::empty(),
        }
    }

    /// What SQLite reported.
    pub open spec fn cause(self) -> Error {
        match self {
            StoreError::Pragmas(e) => e,
            StoreError::Schema(e) => e,
            StoreError::Statement(e) => e,
        }
    }

    /// `text` tells this error: what was being done, and what `error_text` can
    /// say of the cause.
    pub closed spec fn is_told_by(self, text: Seq<char>) -> bool {
        exists|words: String| #[trigger]
            call_ensures(error_text, (self.cause(),), words) && text == self.context() + words@
    }

    /// The error for people to read. What follows the context is SQLite's own
    /// wording.
    pub fn message(self) -> (text: String)
        ensures
            self.is_told_by(text@),
            self.context().is_prefix_of(text@),
    {
        let (doing, error): (&str, Error) = match self {
            StoreError::Pragmas(e) => ("applying pragmas: ", e),
            StoreError::Schema(e) => ("creating schema: ", e),
            StoreError::Statement(e) => ("", e),
        };
        proof {
            reveal_strlit("");
            assert(doing@ =~= self.context());
        }
        let words = error_text(error);
        let mut text = doing.to_owned();
        text.append(words.as_str());
        proof {
            assert(call_ensures(error_text, (self.cause(),), words));
        }
        text
    }
}

/// The clipboard history.
pub struct Store {
    conn: Connection,
}

impl View for Store {
    type V = History;

    closed spec fn view(&self) -> History {
        History { entries: entries(self.conn), last_id: last_id(self.conn) }
    }
}

fn limit_for(limit: Option<usize>) -> (n: i64)
    ensures
        n == row_limit(limit),
{
    match limit {
        Some(n) => if n as u64 <= i64::MAX as u64 {
            n as i64
        } else {
            -1
        },
        None => -1,
    }
}

impl Store {
    /// How the connection is set up.
    pub closed spec fn setup(self) -> Setup {
        setup(self.conn)
    }

    /// How many pages of the database hold nothing, or what was deleted.
    pub closed spec fn free_pages(self) -> nat {
        free_pages(self.conn)
    }

    /// Nothing interferes with the connection: no other writer, no trigger, no
    /// table of another make. What the statements do is known only then.
    pub closed spec fn is_own(self) -> bool {
        is_own(self.conn)
    }

    /// What every operation leaves as it is, whether it succeeds or not.
    pub open spec fn keeps(self, after: Store) -> bool {
        &&& after.is_own()
        &&& after.setup() == self.setup()
        &&& self@.keyed() ==> after@.keyed()
        &&& self@.sound() ==> after@.sound()
    }

    /// The table of the history is there, with its indices.
    pub open spec fn has_schema(self) -> bool {
        self.setup().has_schema()
    }

    /// Takes over a connection: configures it, and creates the schema unless
    /// it is there.
    pub fn open(conn: Connection) -> (store: Result<Store, StoreError>)
        ensures
            is_own(conn) ==> (store matches Ok(s) ==> s.is_own() && s@.keyed()),
            is_own(conn) ==> (store matches Ok(s) ==> s@ == (History {
                entries: entries(conn),
                last_id: last_id(conn),
            })),
            store matches Ok(s) ==> s.has_schema(),
            store matches Ok(s) ==> s.setup().is_tuned(setup(conn)),
            store matches Err(e) ==> e is Pragmas || e is Schema,
    {
        let mut conn = conn;
        match apply_pragmas(&mut conn) {
            Ok(_) => {},
            Err(e) => return Err(StoreError::Pragmas(e)),
        }
        match create_schema(&mut conn) {
            Ok(_) => Ok(Store { conn }),
            Err(e) => Err(StoreError::Schema(e)),
        }
    }

    /// A history that lives as long as the store does.
    pub fn open_in_memory() -> (store: Result<Store, StoreError>)
        ensures
            store matches Ok(s) ==> s@ == History::empty() && s@.sound(),
            store matches Ok(s) ==> s.is_own() && s.has_schema(),
            store matches Err(e) ==> e is Statement,
    {
        let mut conn = match connect_in_memory() {
            Ok(conn) => conn,
            Err(e) => return Err(StoreError::Statement(e)),
        };
        match create_schema(&mut conn) {
            Ok(_) => Ok(Store { conn }),
            Err(e) => Err(StoreError::Statement(e)),
        }
    }

    /// Record a clipboard entry, now.
    ///
    /// Deduplication is by content hash across the whole history, not just
    /// against the previous entry: re-copying something you copied last week
    /// should move it back to the top rather than create a second row.
    pub fn insert(&mut self, content: &str) -> (did: Result<Inserted, StoreError>)
        ensures
            old(self).is_own() ==> (did matches Ok(done) ==> exists|now: i64| #[trigger]
                is_recorded(old(self)@, final(self)@, content@, now, done) && is_clock_reading(
                    now,
                )),
            old(self).is_own() && did is Err ==> final(self)@ == old(self)@,
            old(self).is_own() ==> old(self).keeps(*final(self)),
            did matches Err(e) ==> e is Statement,
    {
        let now = now_millis();
        self.insert_at(content, now)
    }

    /// Record a clipboard entry at a given time.
    pub fn insert_at(&mut self, content: &str, now: i64) -> (did: Result<Inserted, StoreError>)
        ensures
            old(self).is_own() ==> (did matches Ok(done) ==> is_recorded(
                old(self)@,
                final(self)@,
                content@,
                now,
                done,
            )),
            old(self).is_own() && did is Err ==> final(self)@ == old(self)@,
            old(self).is_own() ==> old(self).keeps(*final(self)),
            did matches Err(e) ==> e is Statement,
    {
        let hash = content_hash(content);
        let existing = match select_id_by_hash(&self.conn, hash.as_str()) {
            Ok(existing) => existing,
            Err(e) => return Err(StoreError::Statement(e)),
        };
        let seq = self.next_seq()?;
        if let Some(id) = existing {
            return match update_recency(&mut self.conn, id, now, seq) {
                Ok(_) => {
                    proof {
                        if old(self).is_own() {
                            assert(is_next_seq(old(self)@.entries, seq as int));
                            recording_keeps_soundness(
                                old(self)@,
                                self@,
                                content@,
                                now,
                                Inserted::Bumped(id),
                            );
                        }
                    }
                    Ok(Inserted::Bumped(id))
                },
                Err(e) => Err(StoreError::Statement(e)),
            };
        }
        let line = preview(content, PREVIEW_CHARS);
        let bytes: i64 = content.len() as i64;
        match insert_entry(&mut self.conn, hash.as_str(), content, line.as_str(), bytes, now, seq) {
            Ok(id) => {
                proof {
                    if old(self).is_own() {
                        assert(is_next_seq(old(self)@.entries, seq as int));
                        recording_keeps_soundness(
                            old(self)@,
                            self@,
                            content@,
                            now,
                            Inserted::New(id),
                        );
                    }
                }
                Ok(Inserted::New(id))
            },
            Err(e) => Err(StoreError::Statement(e)),
        }
    }

    fn next_seq(&self) -> (seq: Result<i64, StoreError>)
        ensures
            self.is_own() ==> (seq matches Ok(n) ==> is_next_seq(self@.entries, n as int)),
            seq matches Err(e) ==> e is Statement,
    {
        match select_next_seq(&self.conn) {
            Ok(n) => Ok(n),
            Err(e) => Err(StoreError::Statement(e)),
        }
    }

    /// The entries, pinned ones first, the most recent first among those that
    /// are pinned alike.
    pub fn list(&self, limit: Option<usize>, pinned_only: bool) -> (list: Result<
        Vec<Summary>,
        StoreError,
    >)
        ensures
            self.is_own() ==> (list matches Ok(rows) ==> lists(
                rows@,
                self@.entries,
                limit,
                pinned_only,
            )),
            list matches Err(e) ==> e is Statement,
    {
        let rows = match select_summaries(&self.conn, pinned_only, limit_for(limit)) {
            Ok(rows) => rows,
            Err(e) => return Err(StoreError::Statement(e)),
        };
        let ghost all = rows@;
        let mut list: Vec<Summary> = Vec::new();
        for row in it: rows
            invariant
                it.seq() == all,
                list@.len() == it.index(),
                self.is_own() ==> forall|i: int|
                    0 <= i < all.len() ==> summarises(#[trigger] all[i], self@.entries),
                forall|i: int| 0 <= i < list@.len() ==> (#[trigger] list@[i]).id == all[i].0,
                self.is_own() ==> forall|i: int|
                    0 <= i < list@.len() ==> (#[trigger] list@[i]).shows(self@.entries),
        {
            list.push(row_to_summary(row));
        }
        proof {
            assert(ids_of(list@) =~= all.map_values(|r: SummaryRow| r.0));
        }
        Ok(list)
    }

    /// The entry with this id.
    pub fn get(&self, id: i64) -> (item: Result<Option<Item>, StoreError>)
        ensures
            match item {
                Ok(Some(item)) => self.is_own() ==> item.id == id && item.shows(self@.entries),
                Ok(None) => self.is_own() ==> !self@.entries.contains_key(id),
                Err(e) => e is Statement,
            },
    {
        match select_item(&self.conn, id) {
            Ok(Some(row)) => Ok(Some(row_to_item(row))),
            Ok(None) => Ok(None),
            Err(e) => Err(StoreError::Statement(e)),
        }
    }

    /// The most recent entry.
    pub fn latest(&self) -> (item: Result<Option<Item>, StoreError>)
        ensures
            match item {
                Ok(Some(item)) => self.is_own() ==> item.shows(self@.entries) && is_most_recent(
                    self@.entries,
                    item.id,
                ),
                Ok(None) => self.is_own() ==> self@.entries == no_entries(),
                Err(e) => e is Statement,
            },
    {
        match select_latest(&self.conn) {
            Ok(Some(row)) => Ok(Some(row_to_item(row))),
            Ok(None) => Ok(None),
            Err(e) => Err(StoreError::Statement(e)),
        }
    }

    /// Pins an entry, or unpins it.
    pub fn set_pinned(&mut self, id: i64, pinned: bool) -> (n: Result<usize, StoreError>)
        ensures
            old(self).is_own() ==> (n matches Ok(k) ==> k == old(self)@.affected(id)),
            old(self).is_own() && n is Ok ==> final(self)@ == old(self)@.pinned(id, pinned),
            old(self).is_own() && n is Err ==> final(self)@ == old(self)@,
            old(self).is_own() ==> old(self).keeps(*final(self)),
            n matches Err(e) ==> e is Statement,
    {
        let flag: i64 = if pinned {
            1
        } else {
            0
        };
        match update_pinned(&mut self.conn, id, flag) {
            Ok(n) => Ok(n),
            Err(e) => Err(StoreError::Statement(e)),
        }
    }

    /// Setting a label on an unpinned entry pins it: a named snippet that can
    /// be evicted is a bug report waiting to happen.
    pub fn set_label(&mut self, id: i64, label: Option<&str>) -> (n: Result<usize, StoreError>)
        ensures
            old(self).is_own() ==> (n matches Ok(k) ==> k == old(self)@.affected(id)),
            old(self).is_own() && n is Ok ==> final(self)@ == old(self)@.labelled(
                id,
                borrowed_text(label),
            ),
            old(self).is_own() && n is Err ==> final(self)@ == old(self)@ || (label is Some
                && final(self)@ == old(self)@.named(id, borrowed_text(label))),
            old(self).is_own() ==> old(self).keeps(*final(self)),
            n matches Err(e) ==> e is Statement,
    {
        let affected = match update_label(&mut self.conn, id, label) {
            Ok(n) => n,
            Err(e) => return Err(StoreError::Statement(e)),
        };
        if affected > 0 && label.is_some() {
            self.set_pinned(id, true)?;
        }
        proof {
            if old(self).is_own() {
                assert(self@ =~= old(self)@.labelled(id, borrowed_text(label)));
            }
        }
        Ok(affected)
    }

    /// Deletes one entry.
    pub fn remove(&mut self, id: i64) -> (n: Result<usize, StoreError>)
        ensures
            old(self).is_own() ==> (n matches Ok(k) ==> k == old(self)@.affected(id)),
            old(self).is_own() && n is Ok ==> final(self)@ == old(self)@.without(set![id]),
            old(self).is_own() && n is Err ==> final(self)@ == old(self)@,
            old(self).is_own() ==> old(self).keeps(*final(self)),
            n matches Err(e) ==> e is Statement,
    {
        match delete_entry(&mut self.conn, id) {
            Ok(n) => {
                proof {
                    if old(self).is_own() {
                        assert(self@ =~= old(self)@.without(set![id]));
                        removing_keeps_soundness(old(self)@, set![id]);
                    }
                }
                Ok(n)
            },
            Err(e) => Err(StoreError::Statement(e)),
        }
    }

    /// Deletes every entry, or every unpinned one, and how many those were.
    pub fn clear(&mut self, keep_pinned: bool) -> (n: Result<usize, StoreError>)
        ensures
            old(self).is_own() && n is Ok ==> final(self)@ == old(self)@.without(
                if keep_pinned {
                    loose(old(self)@.entries)
                } else {
                    old(self)@.entries.dom()
                },
            ),
            old(self).is_own() ==> (n matches Ok(k) ==> k == (if keep_pinned {
                loose(old(self)@.entries)
            } else {
                old(self)@.entries.dom()
            }).len()),
            old(self).is_own() && n is Ok ==> final(self).free_pages() == 0,
            old(self).is_own() && n is Err ==> final(self)@ == old(self)@ || final(self)@ == old(
                self,
            )@.without(
                if keep_pinned {
                    loose(old(self)@.entries)
                } else {
                    old(self)@.entries.dom()
                },
            ),
            old(self).is_own() ==> old(self).keeps(*final(self)),
            n matches Err(e) ==> e is Statement,
    {
        let deleted = if keep_pinned {
            delete_unpinned(&mut self.conn)
        } else {
            delete_all(&mut self.conn)
        };
        let n: usize = match deleted {
            Ok(n) => n,
            Err(e) => return Err(StoreError::Statement(e)),
        };
        proof {
            let gone = if keep_pinned {
                loose(old(self)@.entries)
            } else {
                old(self)@.entries.dom()
            };
            if old(self).is_own() {
                assert(self@ =~= old(self)@.without(gone));
                removing_keeps_soundness(old(self)@, gone);
            }
        }
        // Reclaim the pages: "clear history" should shrink the file on disk,
        // otherwise the cleared content is still sitting in the freelist.
        match vacuum(&mut self.conn) {
            Ok(_) => Ok(n),
            Err(e) => Err(StoreError::Statement(e)),
        }
    }

    /// Trim unpinned entries down to `history_size`, oldest first.
    pub fn evict(&mut self, history_size: usize) -> (n: Result<usize, StoreError>)
        ensures
            old(self).is_own() && n is Ok ==> is_trimmed(
                old(self)@.entries,
                final(self)@.entries,
                row_limit(Some(history_size)),
            ),
            old(self).is_own() && n is Ok ==> final(self)@.last_id == old(self)@.last_id,
            old(self).is_own() ==> (n matches Ok(k) ==> k == loose(old(self)@.entries).len()
                - loose(final(self)@.entries).len()),
            old(self).is_own() && n is Err ==> final(self)@ == old(self)@,
            old(self).is_own() ==> old(self).keeps(*final(self)),
            n matches Err(e) ==> e is Statement,
    {
        match delete_stale(&mut self.conn, limit_for(Some(history_size))) {
            Ok(n) => {
                proof {
                    let gone = old(self)@.entries.dom().difference(self@.entries.dom());
                    if old(self).is_own() {
                        assert(self@ =~= old(self)@.without(gone));
                        removing_keeps_soundness(old(self)@, gone);
                    }
                }
                Ok(n)
            },
            Err(e) => Err(StoreError::Statement(e)),
        }
    }

    /// `(total, pinned)`
    pub fn counts(&self) -> (counts: Result<(i64, i64), StoreError>)
        ensures
            self.is_own() ==> (counts matches Ok(c) ==> self@.entries.dom().finite() && c.0
                == self@.entries.dom().len()),
            self.is_own() ==> (counts matches Ok(c) ==> (pins_are_flags(self@.entries) ==> c.1
                == held(self@.entries).len())),
            counts matches Err(e) ==> e is Statement,
    {
        match select_counts(&self.conn) {
            Ok(counts) => Ok(counts),
            Err(e) => Err(StoreError::Statement(e)),
        }
    }
}

fn row_to_summary(row: SummaryRow) -> (s: Summary)
    ensures
        s.id == row.0,
        s.preview == row.1,
        s.pinned == (row.2 != 0),
        s.label == row.3,
        s.bytes == row.4 as usize,
        s.created_at == row.5,
        s.updated_at == row.6,
{
    Summary {
        id: row.0,
        preview: row.1,
        pinned: row.2 != 0,
        label: row.3,
        bytes: row.4 as usize,
        created_at: row.5,
        updated_at: row.6,
    }
}

fn row_to_item(row: ItemRow) -> (item: Item)
    ensures
        item.id == row.0,
        item.content == row.1,
        item.pinned == (row.2 != 0),
        item.label == row.3,
        item.created_at == row.4,
        item.updated_at == row.5,
{
    Item {
        id: row.0,
        content: row.1,
        pinned: row.2 != 0,
        label: row.3,
        created_at: row.4,
        updated_at: row.5,
    }
}

} // verus!

//! What a history is, and what holds of it whatever happens to it.

use crate::hash::{equal_hashes_mean_equal_digests, hash_of, sha256};
use crate::ipc::{label_text, Item, Summary};
use crate::sqlite::{
    affected, at_most, changed, hashes_differ, held, ids_up_to, is_listing, is_next_seq,
    is_trimmed, loose, no_entries, no_later, pins_are_flags, shown, Entry,
};
use crate::store::{Inserted, PREVIEW_CHARS};
use crate::text::{collapsed, preview_is_short, preview_of};
use vstd::prelude::*;
use vstd::utf8::encode_utf8;

verus! {

/// What a store holds.
#[verifier::ext_equal]
pub struct History {
    /// The entries by their ids.
    pub entries: Map<i64, Entry>,
    /// The largest id that was ever given out.
    pub last_id: int,
}

impl History {
    /// No two entries have the same content hash.
    pub open spec fn hashes_differ(self) -> bool {
        hashes_differ(self.entries)
    }

    /// No two entries have the same recency rank.
    pub open spec fn ranks_differ(self) -> bool {
        forall|a: i64, b: i64|
            self.entries.contains_key(a) && self.entries.contains_key(b) && a != b ==> (
            #[trigger] self.entries[a]).seq != (#[trigger] self.entries[b]).seq
    }

    /// Every entry's hash, preview and size are those of its content.
    pub open spec fn entries_fit(self) -> bool {
        forall|id: i64| #[trigger]
            self.entries.contains_key(id) ==> self.entries[id].hash == hash_of(
                self.entries[id].content,
            ) && self.entries[id].preview == preview_of(
                self.entries[id].content,
                PREVIEW_CHARS as nat,
            ) && self.entries[id].bytes == stored_size(self.entries[id].content)
    }

    /// No entry has an id beyond the largest that was given out.
    pub open spec fn ids_were_given(self) -> bool {
        ids_up_to(self.entries, self.last_id)
    }

    /// What the schema keeps, whoever wrote the entries: there are finitely
    /// many, no two of them with one hash, and none with an id that was not
    /// given out.
    pub open spec fn keyed(self) -> bool {
        &&& self.entries.dom().finite()
        &&& self.hashes_differ()
        &&& self.ids_were_given()
    }

    /// What every operation keeps, once it holds.
    pub open spec fn sound(self) -> bool {
        &&& self.keyed()
        &&& self.ranks_differ()
        &&& self.entries_fit()
        &&& pins_are_flags(self.entries)
    }

    /// The history with nothing in it, and nothing ever in it.
    pub open spec fn empty() -> History {
        History { entries: no_entries(), last_id: 0 }
    }

    /// This history after a change to the entry `id`, if there is one.
    pub open spec fn with(self, id: i64, entry: Entry) -> History {
        History { entries: changed(self.entries, id, entry), last_id: self.last_id }
    }

    /// This history without some entries.
    pub open spec fn without(self, gone: Set<i64>) -> History {
        History { entries: self.entries.remove_keys(gone), last_id: self.last_id }
    }

    /// This history with the label of the entry `id` set, and its pin as it was.
    pub open spec fn named(self, id: i64, label: Option<Seq<char>>) -> History {
        self.with(id, Entry { label, ..self.entries[id] })
    }

    /// This history with the label of the entry `id` set. A label pins its
    /// entry; taking a label away leaves the pin alone.
    pub open spec fn labelled(self, id: i64, label: Option<Seq<char>>) -> History {
        let e = self.entries[id];
        self.with(
            id,
            Entry {
                label,
                pinned: if label is Some {
                    1
                } else {
                    e.pinned
                },
                ..e
            },
        )
    }

    /// This history with the entry `id` pinned or unpinned.
    pub open spec fn pinned(self, id: i64, pinned: bool) -> History {
        self.with(
            id,
            Entry {
                pinned: if pinned {
                    1
                } else {
                    0
                },
                ..self.entries[id]
            },
        )
    }

    /// How many entries an operation on the entry `id` affects.
    pub open spec fn affected(self, id: i64) -> int {
        affected(self.entries, id)
    }
}

/// A limit as the database counts: none, and one beyond the range of its
/// integers, is -1.
pub open spec fn row_limit(limit: Option<usize>) -> int {
    match limit {
        Some(n) => if n <= i64::MAX {
            n as int
        } else {
            -1
        },
        None => -1,
    }
}

/// The size of content in bytes, as the database stores it.
pub open spec fn stored_size(content: Seq<char>) -> i64 {
    (encode_utf8(content).len() as usize) as i64
}

/// A new entry for `content`.
pub open spec fn new_entry(content: Seq<char>, now: i64, seq: int) -> Entry {
    Entry {
        hash: hash_of(content),
        content,
        preview: preview_of(content, PREVIEW_CHARS as nat),
        bytes: stored_size(content),
        pinned: 0,
        label: None,
        created_at: now,
        updated_at: now,
        seq: seq as i64,
    }
}

/// Recording `content` at the time `now` turns `before` into `after` and
/// reports `did`: an entry with the same hash moves to the top, and only if
/// there is none a new one is made, under an id that was never in use.
pub open spec fn is_recorded(
    before: History,
    after: History,
    content: Seq<char>,
    now: i64,
    did: Inserted,
) -> bool {
    exists|seq: i64|
        {
            &&& #[trigger] is_next_seq(before.entries, seq as int)
            &&& match did {
                Inserted::Bumped(id) => {
                    &&& before.entries.contains_key(id)
                    &&& before.entries[id].hash == hash_of(content)
                    &&& after == before.with(
                        id,
                        Entry { updated_at: now, seq, ..before.entries[id] },
                    )
                },
                Inserted::New(id) => {
                    &&& forall|other: i64|
                        before.entries.contains_key(other) ==> (
                        #[trigger] before.entries[other]).hash != hash_of(content)
                    &&& !before.entries.contains_key(id)
                    &&& id > before.last_id
                    &&& after == (History {
                        entries: before.entries.insert(id, new_entry(content, now, seq as int)),
                        last_id: id as int,
                    })
                },
            }
        }
}

impl Summary {
    /// This summary shows the entry that `table` has under its id.
    pub open spec fn shows(self, table: Map<i64, Entry>) -> bool {
        let e = table[self.id];
        &&& table.contains_key(self.id)
        &&& self.preview@ == e.preview
        &&& self.pinned == (e.pinned != 0)
        &&& label_text(self.label) == e.label
        &&& self.bytes == e.bytes as usize
        &&& self.created_at == e.created_at
        &&& self.updated_at == e.updated_at
    }
}

impl Item {
    /// This item shows the entry that `table` has under its id.
    pub open spec fn shows(self, table: Map<i64, Entry>) -> bool {
        let e = table[self.id];
        &&& table.contains_key(self.id)
        &&& self.content@ == e.content
        &&& self.pinned == (e.pinned != 0)
        &&& label_text(self.label) == e.label
        &&& self.created_at == e.created_at
        &&& self.updated_at == e.updated_at
    }
}

/// The ids of a list.
pub open spec fn ids_of(list: Seq<Summary>) -> Seq<i64> {
    list.map_values(|s: Summary| s.id)
}

/// `list` is what a store with these entries lists.
pub open spec fn lists(
    list: Seq<Summary>,
    table: Map<i64, Entry>,
    limit: Option<usize>,
    pinned_only: bool,
) -> bool {
    &&& is_listing(table, pinned_only, row_limit(limit), ids_of(list))
    &&& forall|i: int| 0 <= i < list.len() ==> (#[trigger] list[i]).shows(table)
}

/// No entry is more recent than the one under `id`.
pub open spec fn is_most_recent(table: Map<i64, Entry>, id: i64) -> bool {
    &&& table.contains_key(id)
    &&& forall|other: i64|
        table.contains_key(other) ==> (#[trigger] table[other]).seq <= table[id].seq
}

/// Removing entries keeps the history sound.
pub proof fn removing_keeps_soundness(before: History, gone: Set<i64>)
    ensures
        before.keyed() ==> before.without(gone).keyed(),
        before.sound() ==> before.without(gone).sound(),
{
    if before.keyed() {
        let after = before.without(gone);
        assert(after.entries.dom() =~= before.entries.dom().difference(gone));
        assert forall|id: i64| after.entries.contains_key(id) implies after.entries[id]
            == before.entries[id] && before.entries.contains_key(id) by {}
    }
}

/// Recording keeps the history sound: one entry per content hash, one rank per
/// entry, and hashes and previews that fit.
pub proof fn recording_keeps_soundness(
    before: History,
    after: History,
    content: Seq<char>,
    now: i64,
    did: Inserted,
)
    requires
        is_recorded(before, after, content, now, did),
    ensures
        before.keyed() ==> after.keyed(),
        before.sound() ==> after.sound(),
{
    if before.keyed() {
        let seq = choose|seq: i64| #[trigger] is_next_seq(before.entries, seq as int) && match did {
            Inserted::Bumped(id) => after == before.with(
                id,
                Entry { updated_at: now, seq, ..before.entries[id] },
            ),
            Inserted::New(id) => after == (History {
                entries: before.entries.insert(id, new_entry(content, now, seq as int)),
                last_id: id as int,
            }),
        };
        assert forall|id: i64| before.entries.contains_key(id) implies (
        #[trigger] before.entries[id]).seq < seq by {
            assert(before.entries.dom().contains(id));
        }
    }
}

/// What was just recorded is the most recent entry, and the only one: the
/// clock has no say in it.
pub proof fn what_is_recorded_is_the_most_recent(
    before: History,
    after: History,
    content: Seq<char>,
    now: i64,
    did: Inserted,
)
    requires
        is_recorded(before, after, content, now, did),
    ensures
        forall|id: i64| #[trigger] is_most_recent(after.entries, id) <==> id == did.spec_id(),
        forall|other: i64| #[trigger]
            after.entries.contains_key(other) && other != did.spec_id()
                ==> after.entries[other].seq < after.entries[did.spec_id()].seq,
{
    let id = did.spec_id();
    let seq = after.entries[id].seq;
    assert(is_next_seq(before.entries, seq as int));
    assert forall|other: i64| #[trigger]
        after.entries.contains_key(other) && other != id implies after.entries[other].seq < seq by {
        assert(before.entries.contains_key(other));
        assert(before.entries.dom().contains(other));
        assert(before.entries[other].seq < seq);
    }
    assert forall|x: i64| #[trigger] is_most_recent(after.entries, x) implies x == id by {
        assert(after.entries.contains_key(id));
        if x != id {
            assert(after.entries.contains_key(x));
            assert(after.entries[id].seq <= after.entries[x].seq);
        }
    }
}

/// Recording touches one entry and leaves all others as they were.
pub proof fn recording_leaves_the_others_alone(
    before: History,
    after: History,
    content: Seq<char>,
    now: i64,
    did: Inserted,
)
    requires
        is_recorded(before, after, content, now, did),
    ensures
        forall|other: i64|
            other != did.spec_id() ==> (#[trigger] after.entries.contains_key(other)
                == before.entries.contains_key(other)) && (before.entries.contains_key(other)
                ==> after.entries[other] == before.entries[other]),
        did matches Inserted::Bumped(id) ==> after.entries.dom() == before.entries.dom(),
        did matches Inserted::Bumped(id) ==> after.entries[id] == (Entry {
            updated_at: now,
            seq: after.entries[id].seq,
            ..before.entries[id]
        }),
{
    if let Inserted::Bumped(id) = did {
        assert(after.entries.dom() =~= before.entries.dom());
    }
}

/// A history never holds one content twice: recording the same content again
/// moves the entry that is there, and makes no second one.
pub proof fn recording_twice_makes_one_entry(
    before: History,
    between: History,
    after: History,
    content: Seq<char>,
    first: i64,
    second: i64,
    did: Inserted,
    again: Inserted,
)
    requires
        before.keyed(),
        is_recorded(before, between, content, first, did),
        is_recorded(between, after, content, second, again),
    ensures
        again == Inserted::Bumped(did.spec_id()),
        after.entries.dom() == between.entries.dom(),
{
    let id = did.spec_id();
    assert(between.entries.contains_key(id));
    assert(between.entries[id].hash == hash_of(content));
    match again {
        Inserted::New(_) => {
            assert(between.entries[id].hash != hash_of(content));
        },
        Inserted::Bumped(other) => {
            if other != id {
                assert(before.entries.contains_key(other));
                assert(before.entries[other].hash == hash_of(content));
                match did {
                    Inserted::New(_) => {
                        assert(before.entries[other].hash != hash_of(content));
                    },
                    Inserted::Bumped(_) => {
                        assert(before.entries[id].hash == before.entries[other].hash);
                    },
                }
            }
            assert(after.entries.dom() =~= between.entries.dom());
        },
    }
}

/// What was recorded reads back: a new entry holds exactly the content, line
/// breaks and all, and its list view the content's preview. An entry that was
/// there already holds content with the same hash.
pub proof fn what_is_recorded_reads_back(
    before: History,
    after: History,
    content: Seq<char>,
    now: i64,
    did: Inserted,
)
    requires
        is_recorded(before, after, content, now, did),
    ensures
        after.entries.contains_key(did.spec_id()),
        did matches Inserted::New(id) ==> after.entries[id].content == content
            && after.entries[id].preview == preview_of(content, PREVIEW_CHARS as nat)
            && after.entries[id].pinned == 0 && after.entries[id].label is None,
        before.sound() ==> hash_of(after.entries[did.spec_id()].content) == hash_of(content),
{
    recording_keeps_soundness(before, after, content, now, did);
}

/// An id is never given out twice, not even after its entry was removed.
pub proof fn ids_are_never_reused(
    before: History,
    after: History,
    content: Seq<char>,
    now: i64,
    id: i64,
)
    requires
        before.keyed(),
        is_recorded(before, after, content, now, Inserted::New(id)),
    ensures
        id > before.last_id,
        after.last_id == id,
        forall|other: i64| #[trigger] before.entries.contains_key(other) ==> other < id,
{
}

proof fn lemma_listings_agree_at(
    table: Map<i64, Entry>,
    pinned_only: bool,
    limit: int,
    a: Seq<i64>,
    b: Seq<i64>,
    i: int,
)
    requires
        is_listing(table, pinned_only, limit, a),
        is_listing(table, pinned_only, limit, b),
        0 <= i < a.len(),
        forall|j: int| 0 <= j < i ==> a[j] == b[j],
    ensures
        no_later(table[b[i]], table[a[i]]),
{
    assert(shown(table, pinned_only).contains(a[i]));
    if b.contains(a[i]) {
        let k = choose|k: int| 0 <= k < b.len() && b[k] == a[i];
        if k < i {
            assert(a[k] == a[i]);
        }
    }
}

proof fn lemma_listings_agree(
    table: Map<i64, Entry>,
    pinned_only: bool,
    limit: int,
    a: Seq<i64>,
    b: Seq<i64>,
    n: int,
)
    requires
        forall|x: i64, y: i64|
            table.contains_key(x) && table.contains_key(y) && x != y ==> (
            #[trigger] table[x]).seq != (#[trigger] table[y]).seq,
        is_listing(table, pinned_only, limit, a),
        is_listing(table, pinned_only, limit, b),
        0 <= n <= a.len(),
    ensures
        forall|j: int| 0 <= j < n ==> a[j] == b[j],
    decreases n,
{
    if n > 0 {
        lemma_listings_agree(table, pinned_only, limit, a, b, n - 1);
        lemma_listings_agree_at(table, pinned_only, limit, a, b, n - 1);
        lemma_listings_agree_at(table, pinned_only, limit, b, a, n - 1);
        assert(shown(table, pinned_only).contains(a[n - 1]));
        assert(shown(table, pinned_only).contains(b[n - 1]));
    }
}

/// The order of a list is settled: a history has one list for a limit.
pub proof fn a_history_has_one_list(
    history: History,
    pinned_only: bool,
    limit: int,
    a: Seq<i64>,
    b: Seq<i64>,
)
    requires
        history.ranks_differ(),
        is_listing(history.entries, pinned_only, limit, a),
        is_listing(history.entries, pinned_only, limit, b),
    ensures
        a == b,
{
    lemma_listings_agree(history.entries, pinned_only, limit, a, b, a.len() as int);
    assert(a =~= b);
}

/// A limit takes the first entries of the list without one.
pub proof fn a_limited_list_is_the_beginning_of_the_list(
    history: History,
    pinned_only: bool,
    limit: int,
    some: Seq<i64>,
    all: Seq<i64>,
)
    requires
        history.ranks_differ(),
        is_listing(history.entries, pinned_only, limit, some),
        is_listing(history.entries, pinned_only, -1, all),
    ensures
        some == all.take(at_most(all.len(), limit) as int),
{
    let table = history.entries;
    let k = at_most(all.len(), limit) as int;
    let first = all.take(k);
    a_list_is_complete(table, pinned_only, -1, all);
    assert forall|i: int, id: i64|
        0 <= i < first.len() && #[trigger] shown(table, pinned_only).contains(id)
            && !first.contains(id) implies no_later(table[#[trigger] first[i]], table[id]) by {
        assert(all.to_set().contains(id));
        let j = choose|j: int| 0 <= j < all.len() && all[j] == id;
        if j < k {
            assert(first[j] == id);
        }
        assert(no_later(table[all[i]], table[all[j]]));
    }
    assert forall|i: int| 0 <= i < first.len() implies shown(table, pinned_only).contains(
        #[trigger] first[i],
    ) by {
        assert(shown(table, pinned_only).contains(all[i]));
    }
    assert forall|i: int, j: int| 0 <= i < j < first.len() implies no_later(
        table[#[trigger] first[i]],
        table[#[trigger] first[j]],
    ) by {
        assert(no_later(table[all[i]], table[all[j]]));
    }
    assert(is_listing(table, pinned_only, limit, first));
    a_history_has_one_list(history, pinned_only, limit, some, first);
}

/// Whether an entry is pinned.
pub open spec fn pinned_in(table: Map<i64, Entry>) -> spec_fn(i64) -> bool {
    |id: i64| table[id].pinned == 1
}

proof fn lemma_filtering_keeps_order(table: Map<i64, Entry>, ids: Seq<i64>)
    requires
        ids.no_duplicates(),
        forall|i: int, j: int|
            0 <= i < j < ids.len() ==> no_later(table[#[trigger] ids[i]], table[#[trigger] ids[j]]),
    ensures
        ({
            let kept = ids.filter(pinned_in(table));
            &&& kept.no_duplicates()
            &&& forall|i: int| 0 <= i < kept.len() ==> ids.contains(#[trigger] kept[i]) && table[
            kept[i]].pinned == 1
            &&& forall|i: int|
                0 <= i < ids.len() && table[#[trigger] ids[i]].pinned == 1 ==> kept.contains(ids[i])
            &&& forall|i: int, j: int|
                0 <= i < j < kept.len() ==> no_later(
                    table[#[trigger] kept[i]],
                    table[#[trigger] kept[j]],
                )
        }),
    decreases ids.len(),
{
    reveal(Seq::filter);
    if ids.len() > 0 {
        let fewer = ids.drop_last();
        let last = ids.last();
        let before = fewer.filter(pinned_in(table));
        let kept = ids.filter(pinned_in(table));
        assert forall|i: int, j: int| 0 <= i < j < fewer.len() implies no_later(
            table[#[trigger] fewer[i]],
            table[#[trigger] fewer[j]],
        ) by {
            assert(no_later(table[ids[i]], table[ids[j]]));
        }
        lemma_filtering_keeps_order(table, fewer);
        assert forall|i: int| 0 <= i < before.len() implies before[i] != last && no_later(
            table[#[trigger] before[i]],
            table[last],
        ) by {
            let k = choose|k: int| 0 <= k < fewer.len() && fewer[k] == before[i];
            assert(ids[k] == before[i]);
            assert(no_later(table[ids[k]], table[ids[ids.len() - 1]]));
        }
        assert(kept == if table[last].pinned == 1 {
            before.push(last)
        } else {
            before
        });
        assert forall|i: int| 0 <= i < kept.len() implies ids.contains(#[trigger] kept[i]) && table[
        kept[i]].pinned == 1 by {
            if i < before.len() {
                let k = choose|k: int| 0 <= k < fewer.len() && fewer[k] == before[i];
                assert(ids[k] == kept[i]);
            } else {
                assert(ids[ids.len() - 1] == kept[i]);
            }
        }
        assert forall|i: int| 0 <= i < ids.len() && table[#[trigger] ids[i]].pinned
            == 1 implies kept.contains(ids[i]) by {
            if i < fewer.len() {
                assert(fewer[i] == ids[i]);
                let k = choose|k: int| 0 <= k < before.len() && before[k] == fewer[i];
                assert(kept[k] == ids[i]);
            } else {
                assert(kept[kept.len() - 1] == ids[i]);
            }
        }
    }
}

/// The list of pinned entries is the pinned part of the list of all.
pub proof fn the_pinned_list_is_the_pinned_part(history: History, pinned: Seq<i64>, all: Seq<i64>)
    requires
        history.ranks_differ(),
        is_listing(history.entries, true, -1, pinned),
        is_listing(history.entries, false, -1, all),
    ensures
        pinned == all.filter(pinned_in(history.entries)),
{
    let table = history.entries;
    let kept = all.filter(pinned_in(table));
    lemma_filtering_keeps_order(table, all);
    a_list_is_complete(table, false, -1, all);
    let wanted = shown(table, true);
    assert forall|id: i64| wanted.contains(id) implies kept.contains(id) by {
        assert(table.dom().contains(id));
        assert(all.to_set().contains(id));
        let i = choose|i: int| 0 <= i < all.len() && all[i] == id;
        assert(table[all[i]].pinned == 1);
    }
    assert forall|i: int| 0 <= i < kept.len() implies wanted.contains(#[trigger] kept[i]) by {
        assert(all.to_set().contains(kept[i]));
        assert(table.dom().contains(kept[i]));
    }
    assert(kept.to_set() =~= wanted);
    kept.unique_seq_to_set();
    assert(is_listing(table, true, -1, kept));
    a_history_has_one_list(history, true, -1, pinned, kept);
}

/// What a sound history lists shows each entry as it is: its preview is that of
/// its content, and its size the number of bytes that the content takes.
pub proof fn a_list_shows_the_contents(
    history: History,
    limit: Option<usize>,
    pinned_only: bool,
    list: Seq<Summary>,
    i: int,
)
    requires
        history.sound(),
        lists(list, history.entries, limit, pinned_only),
        0 <= i < list.len(),
        encode_utf8(history.entries[list[i].id].content).len() <= isize::MAX,
    ensures
        history.entries.contains_key(list[i].id),
        list[i].preview@ == preview_of(
            history.entries[list[i].id].content,
            PREVIEW_CHARS as nat,
        ),
        list[i].bytes == encode_utf8(history.entries[list[i].id].content).len(),
{
    assert(list[i].shows(history.entries));
}

/// Pinned entries form the first section of a list, and inside a section an
/// entry stands before the less recent ones.
pub proof fn pinned_entries_come_first(
    table: Map<i64, Entry>,
    pinned_only: bool,
    limit: int,
    ids: Seq<i64>,
    i: int,
    j: int,
)
    requires
        pins_are_flags(table),
        is_listing(table, pinned_only, limit, ids),
        0 <= i < j < ids.len(),
    ensures
        table[ids[j]].pinned != 0 ==> table[ids[i]].pinned != 0,
        table[ids[i]].pinned == table[ids[j]].pinned ==> table[ids[i]].seq >= table[ids[j]].seq,
        pinned_only ==> table[ids[i]].pinned == 1 && table[ids[j]].pinned == 1,
{
    assert(shown(table, pinned_only).contains(ids[i]));
    assert(shown(table, pinned_only).contains(ids[j]));
    assert(no_later(table[ids[i]], table[ids[j]]));
    assert(table.contains_key(ids[i]));
    assert(table.contains_key(ids[j]));
}

/// A list without a limit leaves nothing out, and a limit cuts off the end.
pub proof fn a_list_is_complete(
    table: Map<i64, Entry>,
    pinned_only: bool,
    limit: int,
    ids: Seq<i64>,
)
    requires
        is_listing(table, pinned_only, limit, ids),
    ensures
        limit < 0 ==> ids.to_set() == shown(table, pinned_only) && ids.len() == shown(
            table,
            pinned_only,
        ).len(),
        !pinned_only ==> shown(table, pinned_only) == table.dom(),
        0 <= limit ==> ids.len() <= limit,
{
    let all = shown(table, pinned_only);
    assert(ids.to_set().subset_of(all)) by {
        assert forall|id: i64| ids.to_set().contains(id) implies all.contains(id) by {
            let i = choose|i: int| 0 <= i < ids.len() && ids[i] == id;
            assert(all.contains(ids[i]));
        }
    }
    if !pinned_only {
        assert(all =~= table.dom());
    }
    if limit < 0 {
        ids.unique_seq_to_set();
        vstd::set_lib::lemma_subset_equality(ids.to_set(), all);
    }
}

/// What was just recorded heads its section of the list: of the entries that
/// are pinned alike none stands before it. Where nothing is pinned it is the
/// first entry of all.
pub proof fn what_is_recorded_heads_its_section(
    before: History,
    after: History,
    content: Seq<char>,
    now: i64,
    did: Inserted,
    limit: int,
    ids: Seq<i64>,
)
    requires
        is_recorded(before, after, content, now, did),
        is_listing(after.entries, false, limit, ids),
    ensures
        forall|i: int, j: int|
            0 <= i < ids.len() && 0 <= j < ids.len() && #[trigger] ids[j] == did.spec_id()
                && after.entries[#[trigger] ids[i]].pinned == after.entries[did.spec_id()].pinned
                ==> j <= i,
        (forall|id: i64| #[trigger]
            after.entries.contains_key(id) ==> after.entries[id].pinned
                <= after.entries[did.spec_id()].pinned) && ids.len() > 0 ==> ids[0] == did.spec_id(),
{
    let id = did.spec_id();
    let table = after.entries;
    what_is_recorded_is_the_most_recent(before, after, content, now, did);
    assert forall|i: int, j: int|
        0 <= i < ids.len() && 0 <= j < ids.len() && #[trigger] ids[j] == id
            && table[#[trigger] ids[i]].pinned == table[id].pinned implies j <= i by {
        if i < j {
            assert(no_later(table[ids[i]], table[ids[j]]));
            assert(shown(table, false).contains(ids[i]));
            assert(table.contains_key(ids[i]));
        }
    }
    if ids.len() > 0 && ids[0] != id && (forall|x: i64| #[trigger]
        table.contains_key(x) ==> table[x].pinned <= table[id].pinned) {
        assert(table.contains_key(id));
        assert(shown(table, false).contains(id));
        assert(shown(table, false).contains(ids[0]));
        assert(table.contains_key(ids[0]));
        if ids.contains(id) {
            let k = choose|k: int| 0 <= k < ids.len() && ids[k] == id;
            assert(no_later(table[ids[0]], table[ids[k]]));
        } else {
            assert(no_later(table[ids[0]], table[id]));
        }
    }
}

/// Eviction spares what is pinned, keeps at most as many unpinned entries as
/// asked for, and leaves what it keeps as it was.
pub proof fn eviction_spares_pinned_entries(
    before: Map<i64, Entry>,
    after: Map<i64, Entry>,
    keep: int,
)
    requires
        is_trimmed(before, after, keep),
    ensures
        forall|id: i64|
            before.contains_key(id) && before[id].pinned != 0 ==> #[trigger] after.contains_key(id)
                && after[id] == before[id],
        held(after) == held(before),
        0 <= keep ==> loose(after).len() <= keep,
{
    assert forall|id: i64| held(before).contains(id) implies held(after).contains(id) by {
        assert(before.contains_key(id));
        assert(after.contains_key(id));
    }
    assert forall|id: i64| held(after).contains(id) implies held(before).contains(id) by {
        assert(after.contains_key(id));
    }
    assert(held(after) =~= held(before));
}

/// Eviction does nothing while there are no more unpinned entries than asked
/// for.
pub proof fn eviction_below_the_limit_does_nothing(
    before: Map<i64, Entry>,
    after: Map<i64, Entry>,
    keep: int,
)
    requires
        is_trimmed(before, after, keep),
        keep < 0 || loose(before).len() <= keep,
    ensures
        after == before,
{
    assert forall|id: i64| loose(after).contains(id) implies loose(before).contains(id) by {
        assert(after.contains_key(id));
    }
    vstd::set_lib::lemma_len_subset(loose(after), loose(before));
    vstd::set_lib::lemma_subset_equality(loose(after), loose(before));
    assert forall|id: i64| before.contains_key(id) implies after.contains_key(id) by {
        if before[id].pinned == 0 {
            assert(loose(before).contains(id));
            assert(loose(after).contains(id));
        }
    }
    assert(after.dom() =~= before.dom()) by {
        assert forall|id: i64| after.dom().contains(id) implies before.dom().contains(id) by {
            assert(after.contains_key(id));
        }
    }
    assert(after =~= before);
}

/// Eviction takes the oldest: an entry that is evicted is no more recent than
/// any unpinned one that stays.
pub proof fn eviction_takes_the_oldest(
    before: Map<i64, Entry>,
    after: Map<i64, Entry>,
    keep: int,
    kept: i64,
    gone: i64,
)
    requires
        is_trimmed(before, after, keep),
        after.contains_key(kept),
        after[kept].pinned == 0,
        before.contains_key(gone),
        !after.contains_key(gone),
    ensures
        before[gone].pinned == 0,
        before[gone].seq <= before[kept].seq,
{
    assert(loose(after).contains(kept));
    assert(loose(before).contains(gone));
}

/// What was just recorded survives the eviction that follows, unless nothing
/// unpinned is kept at all.
pub proof fn what_is_recorded_survives_eviction(
    before: History,
    between: History,
    after: History,
    content: Seq<char>,
    now: i64,
    did: Inserted,
    keep: int,
)
    requires
        is_recorded(before, between, content, now, did),
        is_trimmed(between.entries, after.entries, keep),
        keep != 0,
    ensures
        after.entries.contains_key(did.spec_id()),
        after.entries[did.spec_id()] == between.entries[did.spec_id()],
{
    let id = did.spec_id();
    what_is_recorded_is_the_most_recent(before, between, content, now, did);
    assert(is_most_recent(between.entries, id));
    if !after.entries.contains_key(id) {
        assert(between.entries.contains_key(id));
        assert(loose(between.entries).contains(id));
        let kept = loose(after.entries);
        assert(loose(between.entries).len() > 0) by {
            assert(loose(between.entries).remove(id).len() + 1 == loose(between.entries).len());
        }
        assert(kept.len() > 0);
        let other = kept.choose();
        assert(kept.contains(other)) by {
            if forall|x: i64| !kept.contains(x) {
                assert(kept =~= Set::<i64>::empty());
            }
        }
        assert(after.entries.contains_key(other));
        assert(between.entries[id].seq <= between.entries[other].seq);
    }
}

/// A labelled entry is pinned, so no eviction takes it.
pub proof fn a_labelled_entry_is_never_evicted(
    before: History,
    id: i64,
    label: Seq<char>,
    after: Map<i64, Entry>,
    keep: int,
)
    requires
        before.entries.contains_key(id),
        is_trimmed(before.labelled(id, Some(label)).entries, after, keep),
    ensures
        before.labelled(id, Some(label)).entries[id].pinned == 1,
        after.contains_key(id),
        after[id].label == Some(label),
{
    let labelled = before.labelled(id, Some(label)).entries;
    assert(labelled.contains_key(id));
}

/// Pinning and labelling keep the history sound.
pub proof fn marking_keeps_soundness(
    before: History,
    id: i64,
    pinned: bool,
    label: Option<Seq<char>>,
)
    ensures
        before.keyed() ==> before.pinned(id, pinned).keyed(),
        before.keyed() ==> before.labelled(id, label).keyed(),
        before.sound() ==> before.pinned(id, pinned).sound(),
        before.sound() ==> before.labelled(id, label).sound(),
        before.keyed() ==> before.named(id, label).keyed(),
        before.sound() ==> before.named(id, label).sound(),
{
}

/// Clearing what is not pinned leaves exactly the pinned entries, as they
/// were; clearing everything leaves nothing.
pub proof fn clearing_keeps_what_is_pinned(history: History)
    ensures
        ({
            let rest = history.without(loose(history.entries)).entries;
            &&& rest.dom() == held(history.entries)
            &&& forall|id: i64| #[trigger]
                rest.contains_key(id) ==> rest[id] == history.entries[id]
        }),
        history.without(history.entries.dom()).entries == no_entries(),
{
    let rest = history.without(loose(history.entries)).entries;
    assert(rest.dom() =~= held(history.entries));
    assert(history.without(history.entries.dom()).entries =~= no_entries());
}

/// A list with the limit `n` has `n` rows, or as many as there are entries to
/// show if those are fewer; without a limit, and with one that no history can
/// reach, it has them all.
pub proof fn a_list_has_as_many_rows_as_asked_for(
    table: Map<i64, Entry>,
    limit: Option<usize>,
    pinned_only: bool,
    list: Seq<Summary>,
)
    requires
        lists(list, table, limit, pinned_only),
    ensures
        ({
            let there = if pinned_only {
                table.dom().filter(|id: i64| table[id].pinned == 1).len()
            } else {
                table.dom().len()
            };
            match limit {
                Some(n) => if n <= i64::MAX {
                    list.len() == if n < there {
                        n as nat
                    } else {
                        there
                    }
                } else {
                    list.len() == there
                },
                None => list.len() == there,
            }
        }),
{
    if pinned_only {
        assert(shown(table, true) =~= table.dom().filter(|id: i64| table[id].pinned == 1));
    } else {
        assert(shown(table, false) =~= table.dom());
    }
    assert(ids_of(list).len() == list.len());
}

/// What a list says is so: each row is an entry of the history and tells its
/// fields, no entry stands on two rows, a pinned entry stands above one that is
/// not, and of two that are pinned alike the more recent one stands above. A
/// list of pinned entries holds nothing else. Without a limit nothing is left
/// out.
pub proof fn a_list_tells_the_truth(
    history: History,
    limit: Option<usize>,
    pinned_only: bool,
    list: Seq<Summary>,
)
    requires
        pins_are_flags(history.entries),
        lists(list, history.entries, limit, pinned_only),
    ensures
        forall|i: int|
            0 <= i < list.len() ==> {
                let row = #[trigger] list[i];
                let e = history.entries[row.id];
                &&& history.entries.contains_key(row.id)
                &&& row.preview@ == e.preview
                &&& row.pinned <==> e.pinned == 1
                &&& label_text(row.label) == e.label
                &&& row.created_at == e.created_at
                &&& row.updated_at == e.updated_at
                &&& e.bytes >= 0 && e.bytes <= usize::MAX ==> row.bytes == e.bytes
                &&& pinned_only ==> e.pinned == 1
            },
        forall|i: int, j: int|
            0 <= i < j < list.len() ==> {
                let (a, b) = (#[trigger] list[i], #[trigger] list[j]);
                &&& a.id != b.id
                &&& b.pinned ==> a.pinned
                &&& a.pinned == b.pinned ==> history.entries[a.id].seq >= history.entries[b.id].seq
            },
        limit is None ==> forall|id: i64| #[trigger]
            history.entries.contains_key(id) && (pinned_only ==> history.entries[id].pinned == 1)
                ==> exists|i: int| 0 <= i < list.len() && (#[trigger] list[i]).id == id,
{
    let table = history.entries;
    let ids = ids_of(list);
    assert forall|i: int| 0 <= i < list.len() implies #[trigger] ids[i] == list[i].id by {}
    assert forall|i: int| 0 <= i < list.len() implies {
        let row = #[trigger] list[i];
        &&& table.contains_key(row.id)
        &&& row.pinned <==> table[row.id].pinned == 1
        &&& pinned_only ==> table[row.id].pinned == 1
    } by {
        assert(list[i].shows(table));
        assert(shown(table, pinned_only).contains(ids[i]));
    }
    assert forall|i: int, j: int| 0 <= i < j < list.len() implies {
        let (a, b) = (#[trigger] list[i], #[trigger] list[j]);
        &&& a.id != b.id
        &&& b.pinned ==> a.pinned
        &&& a.pinned == b.pinned ==> table[a.id].seq >= table[b.id].seq
    } by {
        assert(ids[i] != ids[j]);
        assert(no_later(table[ids[i]], table[ids[j]]));
        assert(table.contains_key(list[i].id) && table.contains_key(list[j].id));
    }
    if limit is None {
        a_list_is_complete(table, pinned_only, -1, ids);
        assert forall|id: i64| #[trigger]
            table.contains_key(id) && (pinned_only ==> table[id].pinned == 1) implies exists|i: int|
            0 <= i < list.len() && (#[trigger] list[i]).id == id by {
            assert(shown(table, pinned_only).contains(id));
            assert(ids.to_set().contains(id));
            let i = choose|i: int| 0 <= i < ids.len() && ids[i] == id;
            assert(list[i].id == id);
        }
    }
}

/// Evicting to `n` leaves `n` unpinned entries, or all of them if there are
/// fewer; so nothing is evicted while there are at most `n`. A size that no
/// history can reach evicts nothing.
pub proof fn eviction_leaves_as_many_as_asked_for(
    before: Map<i64, Entry>,
    after: Map<i64, Entry>,
    n: usize,
)
    requires
        is_trimmed(before, after, row_limit(Some(n))),
    ensures
        ({
            let were = before.dom().filter(|id: i64| before[id].pinned == 0).len();
            let are = after.dom().filter(|id: i64| after[id].pinned == 0).len();
            &&& n <= i64::MAX && n < were ==> are == n
            &&& n > i64::MAX || were <= n ==> are == were && after == before
        }),
        forall|id: i64| #[trigger]
            after.contains_key(id) ==> before.contains_key(id) && after[id] == before[id],
        forall|id: i64| #[trigger]
            before.contains_key(id) && before[id].pinned != 0 ==> after.contains_key(id),
        forall|kept: i64, gone: i64|
            #![trigger after.contains_key(kept), before.contains_key(gone)]
            after.contains_key(kept) && after[kept].pinned == 0 && before.contains_key(gone)
                && !after.contains_key(gone) ==> before[gone].seq <= before[kept].seq,
{
    assert(loose(before) =~= before.dom().filter(|id: i64| before[id].pinned == 0));
    assert(loose(after) =~= after.dom().filter(|id: i64| after[id].pinned == 0));
    if n > i64::MAX || loose(before).len() <= n {
        eviction_below_the_limit_does_nothing(before, after, row_limit(Some(n)));
    }
    assert forall|kept: i64, gone: i64|
        #![trigger after.contains_key(kept), before.contains_key(gone)]
        after.contains_key(kept) && after[kept].pinned == 0 && before.contains_key(gone)
            && !after.contains_key(gone) implies before[gone].seq <= before[kept].seq by {
        eviction_takes_the_oldest(before, after, row_limit(Some(n)), kept, gone);
    }
}

/// Two histories hold the same, but for the entry `id`.
pub open spec fn differ_at_most_in(a: History, b: History, id: i64) -> bool {
    &&& a.last_id == b.last_id
    &&& forall|other: i64|
        other != id ==> (#[trigger] a.entries.contains_key(other) <==> b.entries.contains_key(
            other,
        )) && (a.entries.contains_key(other) ==> a.entries[other] == b.entries[other])
}

/// Pinning and unpinning change the pin of one entry and nothing else; a second
/// time changes nothing more, and an entry that is not there is not made.
pub proof fn pinning_changes_the_pin_only(history: History, id: i64, pinned: bool)
    ensures
        ({
            let after = history.pinned(id, pinned);
            &&& differ_at_most_in(after, history, id)
            &&& after.entries.contains_key(id) <==> history.entries.contains_key(id)
            &&& history.entries.contains_key(id) ==> {
                let (e, was) = (after.entries[id], history.entries[id]);
                &&& pinned <==> e.pinned != 0
                &&& 0 <= e.pinned <= 1
                &&& e.hash == was.hash && e.content == was.content && e.preview == was.preview
                &&& e.bytes == was.bytes && e.label == was.label && e.seq == was.seq
                &&& e.created_at == was.created_at && e.updated_at == was.updated_at
            }
            &&& after.pinned(id, pinned) == after
        }),
{
    let after = history.pinned(id, pinned);
    assert(after.pinned(id, pinned) =~= after);
}

/// Labelling changes the label of one entry, and its pin if it gets a label:
/// then it is pinned. Taking the label away leaves the pin alone.
pub proof fn labelling_changes_label_and_pin_only(
    history: History,
    id: i64,
    label: Option<Seq<char>>,
)
    ensures
        ({
            let after = history.labelled(id, label);
            &&& differ_at_most_in(after, history, id)
            &&& after.entries.contains_key(id) <==> history.entries.contains_key(id)
            &&& history.entries.contains_key(id) ==> {
                let (e, was) = (after.entries[id], history.entries[id]);
                &&& e.label == label
                &&& label is Some ==> e.pinned == 1
                &&& label is None ==> e.pinned == was.pinned
                &&& e.hash == was.hash && e.content == was.content && e.preview == was.preview
                &&& e.bytes == was.bytes && e.seq == was.seq
                &&& e.created_at == was.created_at && e.updated_at == was.updated_at
            }
        }),
{
}

/// Removing takes the named entries out, leaves every other one as it was, and
/// forgets no id.
pub proof fn removing_takes_the_named_entries_only(history: History, gone: Set<i64>)
    ensures
        history.without(gone).last_id == history.last_id,
        forall|id: i64| #[trigger]
            history.without(gone).entries.contains_key(id) <==> history.entries.contains_key(id)
                && !gone.contains(id),
        forall|id: i64| #[trigger]
            history.without(gone).entries.contains_key(id) ==> history.without(gone).entries[id]
                == history.entries[id],
{
}

/// Recording makes a new entry exactly if no entry has content with the same
/// digest; otherwise it moves the one that has. A new entry is unpinned and
/// bears no label, both its times are the moment of recording, and its preview
/// and size are those of the content. One that is moved keeps all but the time
/// of its last touch and its rank.
pub proof fn recording_is_by_content(
    before: History,
    after: History,
    content: Seq<char>,
    now: i64,
    did: Inserted,
)
    requires
        before.entries_fit(),
        is_recorded(before, after, content, now, did),
    ensures
        did is Bumped <==> exists|id: i64|
            before.entries.contains_key(id) && sha256(
                encode_utf8((#[trigger] before.entries[id]).content),
            ) == sha256(encode_utf8(content)),
        match did {
            Inserted::New(id) => {
                let e = after.entries[id];
                &&& after.last_id == id
                &&& !before.entries.contains_key(id) && after.entries.contains_key(id)
                &&& e.content == content && e.pinned == 0 && e.label is None
                &&& e.preview.len() <= PREVIEW_CHARS + 1
                &&& collapsed(content).len() <= PREVIEW_CHARS ==> e.preview == collapsed(content)
                &&& encode_utf8(content).len() <= i64::MAX && encode_utf8(content).len()
                    <= usize::MAX ==> e.bytes == encode_utf8(content).len()
                &&& e.created_at == now && e.updated_at == now
            },
            Inserted::Bumped(id) => {
                let (e, was) = (after.entries[id], before.entries[id]);
                &&& after.last_id == before.last_id
                &&& before.entries.contains_key(id) && after.entries.contains_key(id)
                &&& sha256(encode_utf8(was.content)) == sha256(encode_utf8(content))
                &&& e.content == was.content && e.hash == was.hash && e.preview == was.preview
                &&& e.bytes == was.bytes && e.pinned == was.pinned && e.label == was.label
                &&& e.created_at == was.created_at && e.updated_at == now && e.seq > was.seq
            },
        },
        forall|other: i64|
            other != did.spec_id() ==> (#[trigger] after.entries.contains_key(other)
                <==> before.entries.contains_key(other)) && (before.entries.contains_key(other)
                ==> after.entries[other] == before.entries[other]),
{
    what_is_recorded_is_the_most_recent(before, after, content, now, did);
    recording_leaves_the_others_alone(before, after, content, now, did);
    preview_is_short(content, PREVIEW_CHARS as nat);
    assert forall|id: i64| before.entries.contains_key(id) implies (
    #[trigger] before.entries[id]).hash == hash_of(content) <==> sha256(
        encode_utf8(before.entries[id].content),
    ) == sha256(encode_utf8(content)) by {
        assert(before.entries.contains_key(id));
        equal_hashes_mean_equal_digests(before.entries[id].content, content);
    }
    if let Inserted::Bumped(id) = did {
        assert(before.entries.contains_key(id));
        assert(before.entries[id].hash == hash_of(content));
        let seq = after.entries[id].seq;
        assert(is_next_seq(before.entries, seq as int));
    }
}

} // verus!

//! What holds of every call: whatever an operation was given, this is what it
//! gave back and what it left behind.

use crate::capture::{
    a_copy_is_skipped_for_a_reason_only, a_stored_text_is_kept, admits_source, capture,
    optional_text, skip_reason, storing_keeps_count, Captured, Skip,
};
use crate::cli::{
    a_change_ends_with_the_named_entry_changed, a_lookup_ends_with_the_entry_asked_for, agrees,
    begin, clearing_ends_with_what_was_asked_for, conclude, copied, describe, plain_list, status_report,
    unexpected, Begin, Command, Complaint, End,
};
use crate::clipboard::{settle, Attempt, CopyStep, Copying, Look, Settled, Tool};
use crate::clock::timestamp;
use crate::config::{denies, texts_of, what_is_set_holds, Config, ConfigWatcher, Settings};
use crate::events::{calls_for_capture, Awaited, EventQueue, Wait, XEvent};
use crate::filter::{
    a_blank_query_matches_everything, a_match_holds_every_character_in_order,
    a_run_at_the_start_beats_a_match_with_a_gap, fuzzy_score, picks_out, places, score, wanted,
};
use crate::hash::{content_hash, equal_hashes_mean_equal_digests, sha256};
use crate::history::{
    a_list_has_as_many_rows_as_asked_for, a_list_tells_the_truth, differ_at_most_in,
    eviction_leaves_as_many_as_asked_for, recording_is_by_content,
    removing_takes_the_named_entries_only, History,
};
use crate::ipc::{label_text, Item, Request, Response, Status, Summary};
use crate::picker::{
    action_for, better_matches_come_first, filter_items, has_row, list_request, opening_list,
    the_rows_are_the_matches, Action, Chord, Effect, Picker, Then,
};
use crate::rows::{age, age_of, haystack, haystack_of, row_text, RowText};
use crate::server::{
    a_list_is_answered_as_asked, a_status_counts_the_history, binding,
    clearing_takes_what_it_is_asked_to, dispatch, Binding, Facts,
};
use crate::session::{check_session, log_level, SessionProblem};
use crate::source::{
    a_class_holds_no_nul, a_part_stays_as_it_is, class_of_text, instance_and_class_are_both_kept,
    wm_class, Ascent,
};
use crate::sqlite::{borrowed_text, loose, pins_are_flags, Entry};
use crate::store::{Inserted, Store, StoreError};
use crate::text::{
    a_cut_preview_is_the_beginning, blank, blanks_around_are_trimmed, collapsed, decimal_of,
    digits_of, is_white, lowered, preview, preview_has_no_loose_space, preview_is_one_line,
    preview_is_short, trimmed, trimming_leaves_nothing_of_blanks_only,
};
use crate::transfer::{Act, Phase, Transfer, TransferAction, TransferEvent};
use vstd::prelude::*;
use vstd::utf8::{decode_utf8, encode_utf8, valid_utf8};

verus! {

/// The application is known, and an entry of the denylist matches it.
pub open spec fn is_on_denylist(config: Config, class: Option<&str>) -> bool {
    class matches Some(c) && exists|i: int|
        0 <= i < config.privacy.denylist@.len() && denies(
            (#[trigger] config.privacy.denylist@[i])@,
            c@,
        )
}

/// There is text to store: not too large, and more than whitespace unless that
/// is wanted too.
pub open spec fn is_worth_storing(config: Config, text: Option<&str>) -> bool {
    text matches Some(t) && t.len() <= config.max_item_bytes && (!config.ignore_whitespace_only
        || exists|k: int| 0 <= k < t@.len() && !is_white(#[trigger] t@[k]))
}

/// These rows are entries of the table, pinned ones only where that was asked
/// for, and as many as asked for, as far as there are so many.
pub open spec fn rows_are_as_asked(
    rows: Seq<Summary>,
    table: Map<i64, Entry>,
    limit: Option<usize>,
    pinned_only: bool,
) -> bool {
    let there = table.dom().filter(|id: i64| pinned_only ==> table[id].pinned == 1).len();
    &&& forall|i: int|
        0 <= i < rows.len() ==> {
            let row = #[trigger] rows[i];
            &&& table.contains_key(row.id)
            &&& row.preview@ == table[row.id].preview
            &&& label_text(row.label) == table[row.id].label
            &&& row.pinned <==> table[row.id].pinned == 1
            &&& row.created_at == table[row.id].created_at
            &&& row.updated_at == table[row.id].updated_at
            &&& 0 <= table[row.id].bytes <= usize::MAX ==> row.bytes == table[row.id].bytes
            &&& pinned_only ==> row.pinned
        }
    &&& forall|i: int, j: int|
        0 <= i < j < rows.len() ==> {
            let (a, b) = (#[trigger] rows[i], #[trigger] rows[j]);
            &&& a.id != b.id
            &&& b.pinned ==> a.pinned
            &&& a.pinned == b.pinned ==> table[a.id].seq >= table[b.id].seq
        }
    &&& limit is None ==> rows.len() == there
    &&& limit matches Some(n) ==> (there <= n ==> rows.len() == there)
    &&& limit matches Some(n) ==> (n <= i64::MAX && n < there ==> rows.len() == n)
}

/// What clearing leaves of a table: the pinned entries as they were, or nothing.
pub open spec fn is_cleared(
    before: Map<i64, Entry>,
    after: Map<i64, Entry>,
    keep_pinned: bool,
) -> bool {
    &&& forall|id: i64| #[trigger]
        after.contains_key(id) <==> keep_pinned && before.contains_key(id) && before[id].pinned != 0
    &&& forall|id: i64| #[trigger] after.contains_key(id) ==> after[id] == before[id]
}

/// The response counts the entries of the table and passes the facts on.
pub open spec fn tells_the_counts(
    response: Response,
    table: Map<i64, Entry>,
    facts: Facts,
) -> bool {
    response matches Response::Status(s) && s.total == table.dom().len() && s.pinned
        == table.dom().filter(|id: i64| table[id].pinned == 1).len() && s.history_size
        == facts.history_size && s.captured_since_start == facts.captured_since_start && s.version
        == facts.version && s.backend == facts.backend && s.db_path == facts.db_path
}

/// A copy is skipped exactly if its application is on the denylist or it is not
/// worth storing, and the reason that is given is true.
pub proof fn a_copy_is_judged_by_source_and_text(
    config: &Config,
    class: Option<&str>,
    text: Option<&str>,
    reason: Option<Skip>,
)
    requires
        call_ensures(skip_reason, (config, class, text), reason),
    ensures
        reason is None <==> !is_on_denylist(*config, class) && is_worth_storing(*config, text),
        reason == Some(Skip::Denied) <==> is_on_denylist(*config, class),
        reason == Some(Skip::NoText) <==> !is_on_denylist(*config, class) && text is None,
        reason == Some(Skip::Blank) <==> !is_on_denylist(*config, class)
            && config.ignore_whitespace_only && (text matches Some(t) && forall|k: int|
            0 <= k < t@.len() ==> is_white(#[trigger] t@[k])),
        reason == Some(Skip::TooLarge) ==> (text matches Some(t) && t.len()
            > config.max_item_bytes),
{
    a_copy_is_skipped_for_a_reason_only(*config, optional_text(class), text);
}

/// How many unpinned entries there are once a text was stored, with `were` before
/// and `allowed` at most.
pub open spec fn kept_of(were: nat, inserted: Inserted, allowed: usize) -> int {
    let come = were + if inserted is New {
        1int
    } else {
        0
    };
    if come <= allowed {
        come
    } else {
        allowed as int
    }
}

/// A copy that is worth storing, from an application that is not denied, is
/// never skipped, and any other is, with the history as it was. What was stored
/// as new is there with exactly its text, as long as anything unpinned is kept;
/// nothing pinned is lost, and of the unpinned as many stay as are allowed, as
/// they were.
/// What fails before it is stored changes nothing.
pub proof fn a_copy_is_stored_or_skipped(
    config: &Config,
    class: Option<&str>,
    text: Option<&str>,
)
    ensures
        forall|store: &mut Store, done: Result<Captured, StoreError>| #[trigger]
            call_ensures(capture, (config, class, text, store), done) ==> {
                let wanted = !is_on_denylist(*config, class) && is_worth_storing(*config, text);
                let (before, after) = ((*store)@, (*final(store))@);
                let skipped = done is Ok && done->Ok_0 is Skipped;
                &&& skipped <==> !wanted
                &&& skipped ==> after == before
                &&& (*store).is_own() && done is Err ==> after == before
                &&& (*store).is_own() ==> (done matches Ok(
                    Captured::Stored { inserted, evicted: Ok(_) },
                ) ==> {
                    &&& config.history_size > 0 ==> after.entries.contains_key(inserted.spec_id())
                    &&& config.history_size > 0 && inserted is New
                        ==> after.entries[inserted.spec_id()].content == text->0@
                    &&& forall|id: i64|
                        before.entries.contains_key(id) && before.entries[id].pinned != 0
                            ==> #[trigger] after.entries.contains_key(id)
                    &&& config.history_size <= i64::MAX ==> loose(after.entries).len()
                        == kept_of(loose(before.entries).len(), inserted, config.history_size)
                    &&& config.history_size <= i64::MAX ==> forall|id: i64|
                        id != inserted.spec_id() && #[trigger] after.entries.contains_key(id)
                            ==> before.entries.contains_key(id) && after.entries[id]
                            == before.entries[id]
                })
            },
{
    a_copy_is_skipped_for_a_reason_only(*config, optional_text(class), text);
    assert forall|store: &mut Store, done: Result<Captured, StoreError>| #[trigger]
        call_ensures(capture, (config, class, text, store), done) && (*store).is_own() implies (
    done matches Ok(Captured::Stored { inserted, evicted: Ok(_) }) ==> {
        let (before, after) = ((*store)@, (*final(store))@);
        &&& config.history_size > 0 ==> after.entries.contains_key(inserted.spec_id())
        &&& config.history_size > 0 && inserted is New
            ==> after.entries[inserted.spec_id()].content == text->0@
        &&& forall|id: i64|
            before.entries.contains_key(id) && before.entries[id].pinned != 0
                ==> #[trigger] after.entries.contains_key(id)
        &&& config.history_size <= i64::MAX ==> loose(after.entries).len() == kept_of(
            loose(before.entries).len(),
            inserted,
            config.history_size,
        )
        &&& config.history_size <= i64::MAX ==> forall|id: i64|
            id != inserted.spec_id() && #[trigger] after.entries.contains_key(id)
                ==> before.entries.contains_key(id) && after.entries[id] == before.entries[id]
    }) by {
        if let Ok(Captured::Stored { inserted, evicted: Ok(n) }) = done {
            a_stored_text_is_kept(
                *config,
                text->0@,
                (*store)@,
                (*final(store))@,
                inserted,
                n as nat,
            );
            if config.history_size <= i64::MAX {
                storing_keeps_count(
                    *config,
                    text->0@,
                    (*store)@,
                    (*final(store))@,
                    inserted,
                    n as nat,
                );
                let (before, after) = ((*store)@.entries, (*final(store))@.entries);
                assert(loose(before) =~= before.dom().filter(|id: i64| before[id].pinned == 0));
                assert(loose(after) =~= after.dom().filter(|id: i64| after[id].pinned == 0));
            }
        }
    }
}

/// Evicting to `n` leaves `n` unpinned entries, or all of them if there are
/// fewer, tells how many went, takes the oldest, and leaves what stays as it
/// was. Nothing pinned goes. More than the database can count is everything.
pub proof fn an_eviction_keeps_the_newest(n: usize)
    ensures
        forall|store: &mut Store, done: Result<usize, StoreError>| #[trigger]
            call_ensures(Store::evict, (store, n), done) && (*store).is_own() ==> {
                let (before, after) = ((*store)@.entries, (*final(store))@.entries);
                let were = before.dom().filter(|id: i64| before[id].pinned == 0).len();
                let are = after.dom().filter(|id: i64| after[id].pinned == 0).len();
                &&& done is Err ==> after == before
                &&& done matches Ok(gone) ==> {
                    &&& are == if n < were && n <= i64::MAX {
                        n as nat
                    } else {
                        were
                    }
                    &&& gone == were - are
                    &&& were <= n || n > i64::MAX ==> after == before
                    &&& forall|id: i64| #[trigger]
                        after.contains_key(id) ==> before.contains_key(id) && after[id]
                            == before[id]
                    &&& forall|id: i64| #[trigger]
                        before.contains_key(id) && before[id].pinned != 0 ==> after.contains_key(id)
                    &&& forall|kept: i64, lost: i64|
                        #![trigger after.contains_key(kept), before.contains_key(lost)]
                        after.contains_key(kept) && after[kept].pinned == 0 && before.contains_key(
                            lost,
                        ) && !after.contains_key(lost) ==> before[lost].seq <= before[kept].seq
                }
            },
{
    assert forall|store: &mut Store, done: Result<usize, StoreError>| #[trigger]
        call_ensures(Store::evict, (store, n), done) && (*store).is_own() && done is Ok implies {
        let (before, after) = ((*store)@.entries, (*final(store))@.entries);
        let were = before.dom().filter(|id: i64| before[id].pinned == 0).len();
        let are = after.dom().filter(|id: i64| after[id].pinned == 0).len();
        &&& are == if n < were && n <= i64::MAX {
            n as nat
        } else {
            were
        }
        &&& done->Ok_0 == were - are
        &&& were <= n || n > i64::MAX ==> after == before
        &&& forall|id: i64| #[trigger]
            after.contains_key(id) ==> before.contains_key(id) && after[id] == before[id]
        &&& forall|id: i64| #[trigger]
            before.contains_key(id) && before[id].pinned != 0 ==> after.contains_key(id)
        &&& forall|kept: i64, lost: i64|
            #![trigger after.contains_key(kept), before.contains_key(lost)]
            after.contains_key(kept) && after[kept].pinned == 0 && before.contains_key(lost)
                && !after.contains_key(lost) ==> before[lost].seq <= before[kept].seq
    } by {
        let (before, after) = ((*store)@.entries, (*final(store))@.entries);
        eviction_leaves_as_many_as_asked_for(before, after, n);
        assert(loose(before) =~= before.dom().filter(|id: i64| before[id].pinned == 0));
        assert(loose(after) =~= after.dom().filter(|id: i64| after[id].pinned == 0));
    }
}

/// A list has as many rows as asked for, as far as there are so many entries to
/// show; it holds pinned entries only where those were asked for; each row tells
/// its entry, and pinned and newer ones come first.
pub proof fn a_list_is_as_asked_for(
    store: &Store,
    limit: Option<usize>,
    pinned_only: bool,
    rows: Vec<Summary>,
)
    requires
        call_ensures(Store::list, (store, limit, pinned_only), Ok(rows)),
        store.is_own(),
        pins_are_flags(store@.entries),
    ensures
        rows_are_as_asked(rows@, store@.entries, limit, pinned_only),
{
    let table = store@.entries;
    let there = table.dom().filter(|id: i64| pinned_only ==> table[id].pinned == 1);
    a_list_tells_the_truth(store@, limit, pinned_only, rows@);
    a_list_has_as_many_rows_as_asked_for(table, limit, pinned_only, rows@);
    if pinned_only {
        assert(there =~= table.dom().filter(|id: i64| table[id].pinned == 1));
    } else {
        assert(there =~= table.dom());
    }
}

/// A lookup brings the entry under the id, whole, or nothing if there is none.
pub proof fn a_lookup_is_by_id(store: &Store, id: i64, found: Option<Item>)
    requires
        call_ensures(Store::get, (store, id), Ok(found)),
        store.is_own(),
    ensures
        found is Some <==> store@.entries.contains_key(id),
        found matches Some(item) ==> {
            let e = store@.entries[id];
            &&& item.id == id && item.content@ == e.content && label_text(item.label) == e.label
            &&& item.pinned <==> e.pinned != 0
            &&& item.created_at == e.created_at && item.updated_at == e.updated_at
        },
{
}

/// The latest entry is one that none is more recent than.
pub proof fn the_latest_is_the_most_recent(store: &Store, found: Option<Item>)
    requires
        call_ensures(Store::latest, (store,), Ok(found)),
        store.is_own(),
    ensures
        found is None <==> forall|id: i64| !#[trigger] store@.entries.contains_key(id),
        found matches Some(item) ==> store@.entries.contains_key(item.id) && item.content@
            == store@.entries[item.id].content && forall|other: i64| #[trigger]
            store@.entries.contains_key(other) ==> store@.entries[other].seq
                <= store@.entries[item.id].seq,
{
    if let Some(item) = found {
        assert(store@.entries.contains_key(item.id));
        assert forall|other: i64| #[trigger]
            store@.entries.contains_key(other) implies store@.entries[other].seq
            <= store@.entries[item.id].seq by {}
    }
}

/// The counts are those of the entries: all of them, and the pinned ones.
pub proof fn the_counts_count(store: &Store, total: i64, pinned: i64)
    requires
        call_ensures(Store::counts, (store,), Ok((total, pinned))),
        store.is_own(),
        pins_are_flags(store@.entries),
    ensures
        total == store@.entries.dom().len(),
        pinned == store@.entries.dom().filter(|id: i64| store@.entries[id].pinned != 0).len(),
{
    assert(crate::sqlite::held(store@.entries) =~= store@.entries.dom().filter(
        |id: i64| store@.entries[id].pinned != 0,
    ));
}

/// Recording makes a new entry exactly if there is none with the same content
/// digest, with a preview of at most 160 characters and an ellipsis; it moves that
/// one otherwise, and touches no other.
pub proof fn a_recording_is_by_content(content: &str, now: i64)
    ensures
        forall|store: &mut Store, done: Result<Inserted, StoreError>| #[trigger]
            call_ensures(Store::insert_at, (store, content, now), done) && (*store).is_own()
                && (*store)@.entries_fit() ==> {
                let (before, after) = ((*store)@.entries, (*final(store))@.entries);
                &&& done is Err ==> after == before
                &&& done matches Ok(did) ==> {
                    let id = did.spec_id();
                    &&& after.contains_key(id) && after[id].updated_at == now
                    &&& did is New <==> !before.contains_key(id)
                    &&& did is New ==> after[id].content == content@ && after[id].pinned == 0
                        && after[id].label is None && after[id].created_at == now
                        && after[id].preview.len() <= 161 && (collapsed(content@).len() <= 160
                        ==> after[id].preview == collapsed(content@))
                    &&& did is Bumped ==> after[id].content == before[id].content
                        && after[id].pinned == before[id].pinned && after[id].label
                        == before[id].label && after[id].created_at == before[id].created_at
                    &&& sha256(encode_utf8(after[id].content)) == sha256(encode_utf8(content@))
                    &&& did is Bumped <==> exists|other: i64|
                        before.contains_key(other) && sha256(
                            encode_utf8((#[trigger] before[other]).content),
                        ) == sha256(encode_utf8(content@))
                    &&& forall|other: i64|
                        other != id ==> (#[trigger] after.contains_key(other)
                            <==> before.contains_key(other)) && (before.contains_key(other)
                            ==> after[other] == before[other] && after[other].seq < after[id].seq)
                }
            },
{
    assert forall|store: &mut Store, done: Result<Inserted, StoreError>| #[trigger]
        call_ensures(Store::insert_at, (store, content, now), done) && (*store).is_own()
            && (*store)@.entries_fit() && done is Ok implies {
        let (before, after) = ((*store)@.entries, (*final(store))@.entries);
        let did = done->Ok_0;
        let id = did.spec_id();
        &&& after.contains_key(id) && after[id].updated_at == now
        &&& did is New <==> !before.contains_key(id)
        &&& did is New ==> after[id].content == content@ && after[id].pinned == 0
            && after[id].label is None && after[id].created_at == now && after[id].preview.len()
            <= 161 && (collapsed(content@).len() <= 160 ==> after[id].preview == collapsed(
            content@,
        ))
        &&& did is Bumped ==> after[id].content == before[id].content && after[id].pinned
            == before[id].pinned && after[id].label == before[id].label && after[id].created_at
            == before[id].created_at
        &&& sha256(encode_utf8(after[id].content)) == sha256(encode_utf8(content@))
        &&& did is Bumped <==> exists|other: i64|
            before.contains_key(other) && sha256(encode_utf8((#[trigger] before[other]).content))
                == sha256(encode_utf8(content@))
        &&& forall|other: i64|
            other != id ==> (#[trigger] after.contains_key(other) <==> before.contains_key(other))
                && (before.contains_key(other) ==> after[other] == before[other]
                && after[other].seq < after[id].seq)
    } by {
        let did = done->Ok_0;
        recording_is_by_content((*store)@, (*final(store))@, content@, now, did);
        crate::history::what_is_recorded_is_the_most_recent(
            (*store)@,
            (*final(store))@,
            content@,
            now,
            did,
        );
    }
}

/// Pinning, labelling and removing do what they say to the entry that they name,
/// leave every other one alone, and tell whether there was one.
pub proof fn a_change_is_to_one_entry(id: i64, pinned: bool, label: Option<&str>)
    ensures
        forall|store: &mut Store, done: usize| #[trigger]
            call_ensures(Store::set_pinned, (store, id, pinned), Ok(done)) && (*store).is_own()
                ==> {
                let (before, after) = ((*store)@, (*final(store))@);
                &&& differ_at_most_in(after, before, id)
                &&& done == 1 <==> before.entries.contains_key(id)
                &&& done <= 1
                &&& before.entries.contains_key(id) ==> after.entries.contains_key(id) && (pinned
                    <==> after.entries[id].pinned != 0) && after.entries[id].content
                    == before.entries[id].content && after.entries[id].label
                    == before.entries[id].label && after.entries[id].seq == before.entries[id].seq
            },
        forall|store: &mut Store, done: usize| #[trigger]
            call_ensures(Store::set_label, (store, id, label), Ok(done)) && (*store).is_own() ==> {
                let (before, after) = ((*store)@, (*final(store))@);
                &&& differ_at_most_in(after, before, id)
                &&& done == 1 <==> before.entries.contains_key(id)
                &&& done <= 1
                &&& before.entries.contains_key(id) ==> after.entries.contains_key(id)
                    && after.entries[id].label == borrowed_text(label) && (label is Some
                    ==> after.entries[id].pinned != 0) && (label is None
                    ==> after.entries[id].pinned == before.entries[id].pinned)
                    && after.entries[id].content == before.entries[id].content
                    && after.entries[id].seq == before.entries[id].seq
            },
        forall|store: &mut Store, done: usize| #[trigger]
            call_ensures(Store::remove, (store, id), Ok(done)) && (*store).is_own() ==> {
                let (before, after) = ((*store)@, (*final(store))@);
                &&& differ_at_most_in(after, before, id)
                &&& done == 1 <==> before.entries.contains_key(id)
                &&& done <= 1
                &&& !after.entries.contains_key(id)
            },
{
    assert forall|store: &mut Store, done: usize| #[trigger]
        call_ensures(Store::remove, (store, id), Ok(done)) && (*store).is_own() implies
        differ_at_most_in((*final(store))@, (*store)@, id) && !(
    *final(store))@.entries.contains_key(id) by {
        removing_takes_the_named_entries_only((*store)@, set![id]);
    }
}

/// Clearing leaves the pinned entries as they were and nothing else, or nothing
/// at all, and tells how many went.
pub proof fn a_clearing_spares_what_it_is_told_to(keep_pinned: bool)
    ensures
        forall|store: &mut Store, done: usize| #[trigger]
            call_ensures(Store::clear, (store, keep_pinned), Ok(done)) && (*store).is_own()
                && (*store)@.keyed() ==> {
                let (before, after) = ((*store)@.entries, (*final(store))@.entries);
                &&& is_cleared(before, after, keep_pinned)
                &&& done == before.dom().len() - after.dom().len()
                &&& (*final(store))@.last_id == (*store)@.last_id
            },
{
    assert forall|store: &mut Store, done: usize| #[trigger]
        call_ensures(Store::clear, (store, keep_pinned), Ok(done)) && (*store).is_own() && (
    *store)@.keyed() implies {
        let (before, after) = ((*store)@.entries, (*final(store))@.entries);
        &&& is_cleared(before, after, keep_pinned)
        &&& done == before.dom().len() - after.dom().len()
        &&& (*final(store))@.last_id == (*store)@.last_id
    } by {
        let history = (*store)@;
        let facts: Facts = arbitrary();
        clearing_takes_what_it_is_asked_to(history, keep_pinned, facts, Response::Affected(done));
    }
}

/// A line is found exactly if the letters of the query are in it, in their
/// order, whatever their case and whatever blanks the query has.
pub proof fn a_line_is_found_by_its_letters(haystack: &str, needle: &str, found: Option<i32>)
    requires
        call_ensures(score, (haystack, needle), found),
    ensures
        ({
            let wants = lowered(needle@).filter(|c: char| !is_white(c));
            &&& found is Some <==> exists|p: Seq<int>| picks_out(lowered(haystack@), wants, p)
            &&& blank(needle@) ==> found == Some(0i32)
        }),
{
    a_match_holds_every_character_in_order(haystack@, needle@);
    if blank(needle@) {
        a_blank_query_matches_everything(haystack@, haystack@, Seq::empty(), needle@);
    }
}

/// A line that begins with what is looked for scores more than one where it is
/// torn apart.
pub proof fn a_beginning_scores_more_than_a_torn_match(
    run: &str,
    other: &str,
    needle: &str,
    most: Option<i32>,
    less: Option<i32>,
    p: Seq<int>,
    gap: int,
)
    requires
        call_ensures(score, (run, needle), most),
        call_ensures(score, (other, needle), less),
        !blank(needle@),
        wanted(lowered(needle@)).is_prefix_of(lowered(run@)),
        places(lowered(other@), wanted(lowered(needle@))) == Some(p),
        0 < gap < p.len(),
        p[gap] != p[gap - 1] + 1,
        lowered(run@).len() <= 0x4000_0000,
        lowered(other@).len() <= 0x4000_0000,
        wanted(lowered(needle@)).len() <= 0x100_0000,
    ensures
        most is Some && less is Some && most->0 > less->0,
{
    a_run_at_the_start_beats_a_match_with_a_gap(run@, other@, needle@, p, gap);
}

/// A preview is one line of at most the characters asked for and an ellipsis;
/// it is the whole line if that fits, and begins as the line does if not.
pub proof fn a_preview_is_one_short_line(content: &str, max_chars: usize, line: String)
    requires
        call_ensures(preview, (content, max_chars), line),
    ensures
        line@.len() <= max_chars + 1,
        forall|i: int|
            0 <= i < line@.len() && is_white(#[trigger] line@[i]) ==> line@[i] == ' ',
        line@.len() > 0 ==> line@.first() != ' ' && line@.last() != ' ',
        collapsed(content@).len() <= max_chars ==> line@ == collapsed(content@),
        collapsed(content@).len() > max_chars ==> line@.last() == '…'
            && line@.drop_last().is_prefix_of(collapsed(content@)) && line@.len() >= max_chars,
{
    preview_is_one_line(content@, max_chars as nat);
    preview_is_short(content@, max_chars as nat);
    preview_has_no_loose_space(content@, max_chars as nat);
    if collapsed(content@).len() > max_chars {
        a_cut_preview_is_the_beginning(content@, max_chars as nat);
    }
}

/// Two contents have one hash exactly if they have one digest.
pub proof fn a_hash_stands_for_the_digest(a: &str, b: &str, one: String, other: String)
    requires
        call_ensures(content_hash, (a,), one),
        call_ensures(content_hash, (b,), other),
    ensures
        one@ == other@ <==> sha256(encode_utf8(a@)) == sha256(encode_utf8(b@)),
        one@.len() == 64,
{
    equal_hashes_mean_equal_digests(a@, b@);
}

/// Asked for a list, the server answers with rows as they were asked for, and
/// changes nothing.
pub proof fn a_list_request_is_carried_out(
    limit: Option<usize>,
    pinned_only: bool,
    facts: Facts,
)
    ensures
        forall|store: &mut Store, response: Response| #[trigger]
            call_ensures(dispatch, (Request::List { limit, pinned_only }, store, facts), response)
                ==> {
                let table = (*store)@.entries;
                &&& (*final(store))@ == (*store)@
                &&& (*store).is_own() && pins_are_flags(table) && response !is Error ==> (
                response matches Response::Items(rows) && rows_are_as_asked(
                    rows@,
                    table,
                    limit,
                    pinned_only,
                ))
            },
{
    assert forall|store: &mut Store, response: Response| #[trigger]
        call_ensures(dispatch, (Request::List { limit, pinned_only }, store, facts), response) && (
    *store).is_own() && pins_are_flags((*store)@.entries) && response !is Error implies (
    response matches Response::Items(rows) && rows_are_as_asked(
        rows@,
        (*store)@.entries,
        limit,
        pinned_only,
    )) by {
        a_list_is_answered_as_asked((*store)@, limit, pinned_only, facts, response);
    }
}

/// Asked for an entry, the server answers with that one, or that there is none;
/// asked for the latest, with one that none is more recent than. It changes
/// nothing.
pub proof fn a_lookup_request_is_carried_out(id: i64, facts: Facts)
    ensures
        forall|store: &mut Store, response: Response| #[trigger]
            call_ensures(dispatch, (Request::Get { id }, store, facts), response) ==> {
                let table = (*store)@.entries;
                &&& (*final(store))@ == (*store)@
                &&& (*store).is_own() && response !is Error ==> (if table.contains_key(id) {
                    response matches Response::Item(item) && item.id == id && item.content@
                        == table[id].content && label_text(item.label) == table[id].label && (
                    item.pinned <==> table[id].pinned != 0)
                } else {
                    response == (Response::NotFound { id })
                })
            },
        forall|store: &mut Store, response: Response| #[trigger]
            call_ensures(dispatch, (Request::Latest, store, facts), response) ==> {
                let table = (*store)@.entries;
                &&& (*final(store))@ == (*store)@
                &&& (*store).is_own() && response !is Error ==> (
                response matches Response::Item(item) ==> table.contains_key(item.id)
                    && item.content@ == table[item.id].content && forall|other: i64| #[trigger]
                    table.contains_key(other) ==> table[other].seq <= table[item.id].seq)
                &&& (*store).is_own() && response !is Error && response !is Item ==> forall|any: i64|
                    !#[trigger] table.contains_key(any)
            },
{
}

/// Asked to pin, to label or to remove an entry, the server does that to it and
/// to no other, and tells whether there was one.
pub proof fn a_change_request_is_carried_out(
    id: i64,
    pinned: bool,
    label: Option<String>,
    facts: Facts,
)
    ensures
        forall|store: &mut Store, response: Response| #[trigger]
            call_ensures(dispatch, (Request::SetPinned { id, pinned }, store, facts), response) && (
            *store).is_own() && response !is Error ==> {
                let (before, after) = ((*store)@, (*final(store))@);
                &&& differ_at_most_in(after, before, id)
                &&& response == Response::Affected(
                    if before.entries.contains_key(id) {
                        1
                    } else {
                        0
                    },
                )
                &&& before.entries.contains_key(id) ==> after.entries.contains_key(id) && (pinned
                    <==> after.entries[id].pinned != 0) && after.entries[id].content
                    == before.entries[id].content && after.entries[id].label
                    == before.entries[id].label
            },
        forall|store: &mut Store, response: Response| #[trigger]
            call_ensures(dispatch, (Request::SetLabel { id, label }, store, facts), response) && (
            *store).is_own() && response !is Error ==> {
                let (before, after) = ((*store)@, (*final(store))@);
                &&& differ_at_most_in(after, before, id)
                &&& response == Response::Affected(
                    if before.entries.contains_key(id) {
                        1
                    } else {
                        0
                    },
                )
                &&& before.entries.contains_key(id) ==> after.entries.contains_key(id)
                    && after.entries[id].label == label_text(label) && (label is Some
                    ==> after.entries[id].pinned != 0) && (label is None
                    ==> after.entries[id].pinned == before.entries[id].pinned)
                    && after.entries[id].content == before.entries[id].content
            },
        forall|store: &mut Store, response: Response| #[trigger]
            call_ensures(dispatch, (Request::Remove { id }, store, facts), response) && (
            *store).is_own() && response !is Error ==> {
                let (before, after) = ((*store)@, (*final(store))@);
                &&& differ_at_most_in(after, before, id)
                &&& !after.entries.contains_key(id)
                &&& response == Response::Affected(
                    if before.entries.contains_key(id) {
                        1
                    } else {
                        0
                    },
                )
            },
{
}

/// Asked to clear the history, the server does so, spares what it is told to,
/// and tells how many entries went.
pub proof fn a_clear_request_is_carried_out(keep_pinned: bool, facts: Facts)
    ensures
        forall|store: &mut Store, response: Response| #[trigger]
            call_ensures(dispatch, (Request::Clear { keep_pinned }, store, facts), response) && (
            *store).is_own() && (*store)@.entries.dom().finite() && response !is Error ==> {
                let (before, after) = ((*store)@.entries, (*final(store))@.entries);
                &&& is_cleared(before, after, keep_pinned)
                &&& response matches Response::Affected(n) && n == before.dom().len()
                    - after.dom().len()
            },
{
    assert forall|store: &mut Store, response: Response| #[trigger]
        call_ensures(dispatch, (Request::Clear { keep_pinned }, store, facts), response) && (
    *store).is_own() && (*store)@.entries.dom().finite() && response !is Error implies {
        let (before, after) = ((*store)@.entries, (*final(store))@.entries);
        &&& is_cleared(before, after, keep_pinned)
        &&& response matches Response::Affected(n) && n == before.dom().len() - after.dom().len()
    } by {
        clearing_takes_what_it_is_asked_to((*store)@, keep_pinned, facts, response);
    }
}

/// Asked how it is, the server tells how many entries there are, how many of
/// them are pinned, and what it was told of the rest. It changes nothing.
pub proof fn a_status_request_is_carried_out(facts: Facts)
    ensures
        forall|store: &mut Store, response: Response| #[trigger]
            call_ensures(dispatch, (Request::Status, store, facts), response) ==> {
                let table = (*store)@.entries;
                &&& (*final(store))@ == (*store)@
                &&& (*store).is_own() && table.dom().finite() && pins_are_flags(table)
                    && response !is Error ==> tells_the_counts(response, table, facts)
            },
{
    assert forall|store: &mut Store, response: Response| #[trigger]
        call_ensures(dispatch, (Request::Status, store, facts), response) && (*store).is_own() && (
    *store)@.entries.dom().finite() && pins_are_flags((*store)@.entries)
        && response !is Error implies tells_the_counts(response, (*store)@.entries, facts) by {
        a_status_counts_the_history((*store)@, facts, response);
    }
}

/// A command that gets or copies an entry ends with the one that was named, or
/// with the latest if none was, and fails exactly if there is none.
pub proof fn a_lookup_command_is_carried_out(
    command: &Command,
    id: Option<i64>,
    begun: Begin,
    history: History,
    facts: Facts,
    response: Response,
    end: End,
)
    requires
        *command == (Command::Get { id }) || *command == (Command::Copy { id }),
        call_ensures(begin, (command,), begun),
        begun matches Begin::Ask(request) ==> request.is_answered(history, facts, response),
        call_ensures(conclude, (command, response), end),
    ensures
        begun matches Begin::Ask(request) && request.effect(history) == history,
        end is Fail <==> match id {
            Some(n) => !history.entries.contains_key(n),
            None => forall|any: i64| !#[trigger] history.entries.contains_key(any),
        },
        end is Fail ==> (id matches Some(n) ==> (end matches End::Fail(Complaint::Message(text))
            && text@ == "no entry with id "@ + decimal_of(n as int))),
        end !is Fail ==> exists|n: i64|
            {
                &&& #[trigger] history.entries.contains_key(n)
                &&& id matches Some(asked) ==> n == asked
                &&& id is None ==> forall|other: i64| #[trigger]
                    history.entries.contains_key(other) ==> history.entries[other].seq
                        <= history.entries[n].seq
                &&& *command is Get ==> (end matches End::Out(text) && text@
                    == history.entries[n].content)
                &&& *command is Copy ==> (end matches End::Copy(item) && item.id == n
                    && item.content@ == history.entries[n].content)
            },
{
    a_lookup_ends_with_the_entry_asked_for(
        *command,
        id,
        begun->Ask_0,
        history,
        facts,
        response,
        end,
    );
}

/// A command that names an entry to be pinned, unpinned, labelled or removed
/// does that to it and to no other, says so with its id, and fails exactly if
/// there is none.
pub proof fn a_change_command_is_carried_out(
    command: &Command,
    id: i64,
    begun: Begin,
    history: History,
    facts: Facts,
    response: Response,
    end: End,
)
    requires
        match *command {
            Command::Pin { id: named } => named == id,
            Command::Unpin { id: named } => named == id,
            Command::Rm { id: named } => named == id,
            Command::Label { id: named, text, remove } => named == id && (text is Some || remove),
            _ => false,
        },
        call_ensures(begin, (command,), begun),
        begun matches Begin::Ask(request) ==> request.is_answered(history, facts, response),
        call_ensures(conclude, (command, response), end),
    ensures
        begun is Ask,
        ({
            let after = begun->Ask_0.effect(history);
            let (e, was) = (after.entries[id], history.entries[id]);
            &&& differ_at_most_in(after, history, id)
            &&& end is Fail <==> !history.entries.contains_key(id)
            &&& end is Fail ==> (end matches End::Fail(Complaint::Message(text)) && text@
                == "no entry with id "@ + decimal_of(id as int))
            &&& history.entries.contains_key(id) ==> {
                &&& end matches End::Note(text) && (seq!['#'] + decimal_of(
                    id as int,
                )).is_suffix_of(text@)
                &&& *command is Rm <==> !after.entries.contains_key(id)
                &&& *command !is Rm ==> e.content == was.content && e.seq == was.seq
                &&& *command is Pin ==> e.pinned != 0 && e.label == was.label
                &&& *command is Unpin ==> e.pinned == 0 && e.label == was.label
                &&& *command matches Command::Label { text, remove, .. } ==> {
                    &&& remove ==> e.label is None && e.pinned == was.pinned
                    &&& !remove ==> (text matches Some(t) && e.label == Some(t@) && e.pinned != 0)
                }
            }
        }),
{
    a_change_ends_with_the_named_entry_changed(
        *command,
        id,
        begun->Ask_0,
        history,
        facts,
        response,
        end,
    );
    if history.entries.contains_key(id) {
        reveal_strlit(" #");
        let number = decimal_of(id as int);
        let said = end->Note_0@;
        let tail = seq!['#'] + number;
        assert(said.subrange(said.len() - tail.len(), said.len() as int) =~= tail);
    }
}

/// A command that clears the history is not begun without consent. Carried out,
/// it spares the pinned entries unless all are to go, and tells how many went.
pub proof fn a_clear_command_is_carried_out(
    command: &Command,
    all: bool,
    yes: bool,
    begun: Begin,
    history: History,
    facts: Facts,
    response: Response,
    end: End,
)
    requires
        *command == (Command::Clear { all, yes }),
        history.entries.dom().finite(),
        call_ensures(begin, (command,), begun),
        begun matches Begin::Ask(request) ==> request.is_answered(history, facts, response),
        call_ensures(conclude, (command, response), end),
    ensures
        begun is Ask <==> yes,
        begun is Confirm <==> !yes,
        yes ==> {
            let after = begun->Ask_0.effect(history).entries;
            let gone = (history.entries.dom().len() - after.dom().len()) as nat;
            &&& is_cleared(history.entries, after, !all)
            &&& end matches End::Note(text) && text@ == "cleared "@ + digits_of(gone) + " entries"@
        },
{
    if yes {
        clearing_ends_with_what_was_asked_for(
            all,
            begun->Ask_0,
            history,
            facts,
            response,
            end,
        );
        clearing_takes_what_it_is_asked_to(history, !all, facts, response);
    }
}

/// Only a yes agrees: not a blank answer, and nothing that is not one of the
/// three words for it, whatever blanks are around it.
pub proof fn only_a_yes_agrees(
    answer: &str,
    padded: &str,
    left: Seq<char>,
    right: Seq<char>,
    agreed: bool,
    agreed_too: bool,
)
    requires
        call_ensures(agrees, (answer,), agreed),
        call_ensures(agrees, (padded,), agreed_too),
        blank(left),
        blank(right),
        padded@ == left + answer@ + right,
    ensures
        agreed == agreed_too,
        blank(answer@) ==> !agreed,
        answer@ == seq!['y'] || answer@ == seq!['Y'] || answer@ == seq!['y', 'e', 's'] ==> agreed,
        agreed ==> trimmed(answer@) == seq!['y'] || trimmed(answer@) == seq!['Y'] || trimmed(
            answer@,
        ) == seq!['y', 'e', 's'],
{
    blanks_around_are_trimmed(left, answer@, right);
    trimming_leaves_nothing_of_blanks_only(answer@);
    reveal_strlit("y");
    reveal_strlit("Y");
    reveal_strlit("yes");
    assert("y"@ =~= seq!['y']);
    assert("Y"@ =~= seq!['Y']);
    assert("yes"@ =~= seq!['y', 'e', 's']);
}

/// A key does its own work: down and up move the selection by one row and come
/// round; pinning, deleting and copying ask for just that to be done with the
/// selected entry, whose pin is turned round; one key closes; one empties the
/// query and shows everything. Whatever the key, the list stays.
pub proof fn a_key_does_its_work(action: Action)
    ensures
        forall|picker: &mut Picker, effect: Effect| #[trigger]
            call_ensures(Picker::press, (picker, action), effect) ==> {
                let (before, after) = ((*picker)@, (*final(picker))@);
                let count = before.visible.len();
                &&& after.items == before.items && after.limit == before.limit
                    && after.pinned_only == before.pinned_only
                &&& action !is Nothing ==> after.status is None
                &&& action is Nothing ==> after == before
                &&& action is Close <==> effect is Close
                &&& action !is ClearQuery ==> after.query == before.query && after.visible
                    == before.visible
                &&& action is ClearQuery ==> after.query.len() == 0 && after.visible.len()
                    == before.items.len()
                &&& action is Down && before.selected + 1 < count ==> after.selected
                    == before.selected + 1
                &&& action is Down && before.selected + 1 == count ==> after.selected == 0
                &&& action is Up && 0 < before.selected < count ==> after.selected
                    == before.selected - 1
                &&& action is Up && before.selected == 0 && count > 0 ==> after.selected == count
                    - 1
                &&& action is Down || action is Up ==> (count > 0 ==> after.scroll_pending)
                &&& action !is Down && action !is Up && action !is ClearQuery ==> after.selected
                    == before.selected
                &&& effect is Ask <==> before.selected < count && (action is TogglePin
                    || action is Delete || action is Copy)
                &&& effect matches Effect::Ask { request, then } ==> {
                    let item = before.items[before.visible[before.selected as int] as int];
                    &&& action is Copy ==> request == (Request::Get { id: item.id })
                        && then is Copy
                    &&& action is Delete ==> request == (Request::Remove { id: item.id })
                        && then is Reload
                    &&& action is TogglePin ==> (request matches Request::SetPinned {
                        id,
                        pinned,
                    } && id == item.id && pinned != item.pinned) && then == Then::Follow(item.id)
                }
                &&& effect !is PutOnClipboard
            },
{
}

/// What the daemon answers is used or told: an entry that was asked for goes to
/// the clipboard, whole; a change that was made has the same list asked for
/// again, and the selection follows the entry that was pinned; a list that was
/// asked for is shown; and a failure is told, with nothing else changed.
pub proof fn an_answer_is_used_or_told(then: Then, outcome: Result<Response, String>)
    ensures
        forall|picker: &mut Picker, effect: Effect| #[trigger]
            call_ensures(Picker::reply, (picker, then, outcome), effect) ==> {
                let (before, after) = ((*picker)@, (*final(picker))@);
                &&& after.query == before.query && after.limit == before.limit
                    && after.pinned_only == before.pinned_only
                &&& effect is PutOnClipboard <==> then is Copy && outcome is Ok
                    && outcome->Ok_0 is Item
                &&& effect matches Effect::PutOnClipboard(text) ==> text
                    == outcome->Ok_0->Item_0.content
                &&& effect is Ask <==> (then is Follow || then is Reload) && outcome is Ok
                    && outcome->Ok_0 is Affected
                &&& effect matches Effect::Ask { request, then: next } ==> {
                    &&& request == (Request::List {
                        limit: before.limit,
                        pinned_only: before.pinned_only,
                    })
                    &&& next == Then::Show(
                        if then is Follow {
                            Some(then->Follow_0)
                        } else {
                            None
                        },
                    )
                }
                &&& outcome matches Err(why) ==> after.status == Some(Complaint::Message(why))
                    && after.items == before.items && after.visible == before.visible
                &&& outcome matches Ok(Response::Error { message }) ==> after.status == Some(
                    Complaint::Message(message),
                ) && after.items == before.items && after.visible == before.visible
                &&& then is Show && outcome is Ok && outcome->Ok_0 is Items ==> {
                    &&& after.items == outcome->Ok_0->Items_0@
                    &&& after.filtered()
                    &&& then == Then::Show(None) && before.selected < after.visible.len()
                        ==> after.selected == before.selected
                    &&& then == Then::Show(None) && 0 < after.visible.len() <= before.selected
                        ==> after.selected == after.visible.len() - 1
                    &&& then matches Then::Show(Some(id)) ==> (has_row(
                        after.items,
                        after.visible,
                        id,
                    ) ==> (after.selection() matches Some(item) && item.id == id))
                }
                &&& effect !is Close
            },
{
}

/// A click copies the entry in the row that was clicked, and selects it.
pub proof fn a_click_copies_the_row_under_it(row: usize)
    ensures
        forall|picker: &mut Picker, effect: Effect| #[trigger]
            call_ensures(Picker::click, (picker, row), effect) && row < (*picker)@.visible.len()
                ==> {
                let (before, after) = ((*picker)@, (*final(picker))@);
                let item = before.items[before.visible[row as int] as int];
                &&& after.selected == row
                &&& after.items == before.items && after.visible == before.visible
                &&& after.query == before.query
                &&& effect == (Effect::Ask {
                    request: Request::Get { id: item.id },
                    then: Then::Copy,
                })
            },
{
}

/// A new query shows its matches, and nothing else is changed; the selection
/// begins at the top.
pub proof fn a_query_shows_its_matches(query: String)
    ensures
        forall|picker: &mut Picker, done: ()| #[trigger]
            call_ensures(Picker::set_query, (picker, query), done) ==> {
                let (before, after) = ((*picker)@, (*final(picker))@);
                &&& after.query == query@
                &&& after.items == before.items && after.status == before.status
                &&& after.selected == 0
                &&& after.items.len() <= usize::MAX ==> forall|i: int|
                    0 <= i < after.items.len() ==> (#[trigger] after.visible.contains(i as usize)
                        <==> fuzzy_score(haystack_of(after.items[i]), trimmed(query@)) is Some)
            },
{
    assert forall|picker: &mut Picker, done: (), i: int|
        #![trigger call_ensures(Picker::set_query, (picker, query), done), (*final(picker))@.visible.contains(i as usize)]
        call_ensures(Picker::set_query, (picker, query), done) && 0 <= i < (
    *final(picker))@.items.len() <= usize::MAX implies ((*final(picker))@.visible.contains(i as usize)
        <==> fuzzy_score(haystack_of((*final(picker))@.items[i]), trimmed(query@)) is Some) by {
        let after = (*final(picker))@;
        the_rows_are_the_matches(after.items, after.query, after.visible, i);
    }
}

/// The picker closes on losing the focus, if that is wanted, but not before it
/// once had it.
pub proof fn a_picker_closes_on_losing_the_focus(focused: Option<bool>)
    ensures
        forall|picker: &mut Picker, closes: bool| #[trigger]
            call_ensures(Picker::lost_focus, (picker, focused), closes) ==> {
                let (before, after) = ((*picker)@, (*final(picker))@);
                &&& closes ==> before.seen_focus && before.close_on_blur && focused == Some(false)
                &&& before.seen_focus && before.close_on_blur && focused == Some(false) ==> closes
                &&& before.seen_focus || focused == Some(true) <==> after.seen_focus
                &&& after.items == before.items && after.visible == before.visible
                    && after.selected == before.selected && after.query == before.query
            },
{
}

/// Once the content is on the clipboard the picker closes; if that failed it
/// says why and stays.
pub proof fn a_picker_closes_once_it_copied(outcome: Result<(), String>)
    ensures
        forall|picker: &mut Picker, effect: Effect| #[trigger]
            call_ensures(Picker::copied, (picker, outcome), effect) ==> {
                let (before, after) = ((*picker)@, (*final(picker))@);
                &&& effect is Close <==> outcome is Ok
                &&& outcome is Ok ==> after == before
                &&& outcome matches Err(why) ==> effect is Nothing && after.status == Some(
                    Complaint::Message(why),
                ) && after.items == before.items && after.selected == before.selected
            },
{
}

/// Each chord has one meaning, and none is without one. Only the keys that move
/// the selection have others that do the same.
pub proof fn chords_have_their_meanings(
    one: Chord,
    other: Chord,
    action: Action,
    action_too: Action,
)
    requires
        call_ensures(action_for, (one,), action),
        call_ensures(action_for, (other,), action_too),
    ensures
        action !is Nothing,
        action == action_too && one != other ==> action is Down || action is Up,
        one is ArrowDown || one is CtrlN || one is CtrlJ <==> action is Down,
        one is ArrowUp || one is CtrlK <==> action is Up,
        one is Escape <==> action is Close,
        one is Enter <==> action is Copy,
        one is CtrlP <==> action is TogglePin,
        one is CtrlD <==> action is Delete,
        one is CtrlU <==> action is ClearQuery,
{
}

/// The rows that a query shows are those that match it, each once, the better
/// match first, and in the order of the list where they match alike.
pub proof fn the_rows_shown_are_the_matches(
    items: &Vec<Summary>,
    query: &str,
    visible: Vec<usize>,
)
    requires
        call_ensures(filter_items, (items, query), visible),
    ensures
        forall|i: int|
            0 <= i < items@.len() ==> (#[trigger] visible@.contains(i as usize) <==> fuzzy_score(
                haystack_of(items@[i]),
                trimmed(query@),
            ) is Some),
        forall|upper: int, lower: int|
            0 <= upper < lower < visible@.len() ==> {
                let (a, b) = (#[trigger] visible@[upper], #[trigger] visible@[lower]);
                let first = fuzzy_score(haystack_of(items@[a as int]), trimmed(query@));
                let second = fuzzy_score(haystack_of(items@[b as int]), trimmed(query@));
                &&& first is Some && second is Some
                &&& first->0 > second->0 || (first->0 == second->0 && a < b)
            },
{
    assert(items.len() <= usize::MAX);
    assert forall|i: int| 0 <= i < items@.len() implies (#[trigger] visible@.contains(i as usize)
        <==> fuzzy_score(haystack_of(items@[i]), trimmed(query@)) is Some) by {
        the_rows_are_the_matches(items@, query@, visible@, i);
    }
    assert forall|upper: int, lower: int| 0 <= upper < lower < visible@.len() implies {
        let (a, b) = (#[trigger] visible@[upper], #[trigger] visible@[lower]);
        let first = fuzzy_score(haystack_of(items@[a as int]), trimmed(query@));
        let second = fuzzy_score(haystack_of(items@[b as int]), trimmed(query@));
        &&& first is Some && second is Some
        &&& first->0 > second->0 || (first->0 == second->0 && a < b)
    } by {
        better_matches_come_first(items@, query@, visible@, upper, lower);
    }
}

/// Whatever the X server says, a transfer is over after two seconds, and one that
/// is over does nothing more; an owner that has no text is believed at once.
/// Bytes are finished with exactly as they were read, and are not lost or made
/// up on the way.
pub proof fn a_transfer_keeps_what_it_reads(event: TransferEvent, elapsed: u64)
    ensures
        forall|transfer: &mut Transfer, action: TransferAction| #[trigger]
            call_ensures(Transfer::step, (transfer, event, elapsed), action) ==> {
                let (before, after) = ((*transfer)@, (*final(transfer))@);
                let act = action@;
                let late = elapsed > 2000 || event is TimedOut;
                &&& after.window == before.window && after.dest == before.dest && after.incr
                    == before.incr
                &&& late || before.phase == Phase::Over ==> after.phase == Phase::Over
                &&& late ==> act is Nothing || act is Stalled
                &&& act matches Act::Stalled { bytes } ==> bytes == before.received.len() && late
                &&& before.phase == Phase::Over ==> act is Nothing
                &&& !late && before.phase == Phase::Asked ==> (event matches TransferEvent::Answered {
                    property,
                } ==> {
                    &&& property == 0 ==> act is Nothing && after.phase == Phase::Over
                    &&& property != 0 ==> act == (Act::Read { offset: 0 }) && after.phase
                        == Phase::Reading && after.page.len() == 0
                })
                &&& !late && before.phase == Phase::Expecting && event is Arrived ==> act == (
                Act::Read { offset: 0 }) && after.phase == Phase::ReadingChunk && after.page.len()
                    == 0 && after.received == before.received
                &&& event matches TransferEvent::Page(page) ==> (act matches Act::Read { offset }
                    ==> after.page == before.page + page.value@ && after.phase == before.phase
                    && after.received == before.received && (before.offset + page.value@.len() / 4
                    - offset) % 0x1_0000_0000 == 0 && after.offset == offset)
                &&& act matches Act::AcknowledgeAndFinish(bytes) ==> (event matches TransferEvent::Page(
                    page,
                ) && after.phase == Phase::Over && bytes == (if before.phase == Phase::Reading {
                    if page.kind == 0 {
                        before.page
                    } else {
                        before.page + page.value@
                    }
                } else {
                    before.received
                }))
                &&& act matches Act::AcknowledgeAndAwait(awaited) ==> (
                event matches TransferEvent::Page(page) && awaited == (Awaited::NewValue {
                    window: before.window,
                    atom: before.dest,
                }) && after.phase == Phase::Expecting && (before.phase == Phase::ReadingChunk
                    ==> after.received == before.received + before.page + (if page.kind == 0 {
                    Seq::empty()
                } else {
                    page.value@
                })) && (before.phase == Phase::Reading ==> page.kind == before.incr
                    && after.received == before.received))
            },
{
    assert forall|transfer: &mut Transfer, action: TransferAction| #[trigger]
        call_ensures(
            Transfer::step,
            (transfer, event, elapsed),
            action,
        ) && action@ is AcknowledgeAndAwait && (*transfer)@.phase == Phase::ReadingChunk implies (
    event matches TransferEvent::Page(page) && (*final(transfer))@.received == (
    *transfer)@.received + (*transfer)@.page + (if page.kind == 0 {
        Seq::empty()
    } else {
        page.value@
    })) by {
        let before = (*transfer)@;
        if let TransferEvent::Page(page) = event {
            let value = page.value@;
            assert(before.received + (before.page + value) =~= before.received + before.page
                + value);
            assert(before.received + before.page =~= before.received + before.page
                + Seq::<u8>::empty());
        }
    }
}

/// A transfer begins with nothing read, waiting for the answer to its request.
pub proof fn a_transfer_begins_empty(
    window: u32,
    dest: u32,
    incr: u32,
    begun: (Transfer, TransferAction),
)
    requires
        call_ensures(Transfer::begin, (window, dest, incr), begun),
    ensures
        begun.0@.received.len() == 0 && begun.0@.page.len() == 0,
        begun.0@.phase == Phase::Asked,
        begun.1@ matches Act::Await(awaited) && awaited.meets(
            XEvent::SelectionNotify { requestor: window, property: dest },
        ),
        begun.0@.dest == dest && begun.0@.window == window && begun.0@.incr == incr,
{
}

/// Events leave the queue in the order in which they came in. One that is waited
/// for may go first; the others keep their places, and none is lost.
pub proof fn events_keep_their_order(awaited: &Awaited)
    ensures
        forall|queue: &mut EventQueue, event: Option<XEvent>| #[trigger]
            call_ensures(EventQueue::pop_front, (queue,), event) ==> {
                let (before, after) = ((*queue)@, (*final(queue))@);
                &&& event is None <==> before.len() == 0
                &&& event is None ==> after == before
                &&& event matches Some(e) ==> before == seq![e] + after
            },
        forall|queue: &mut EventQueue, event: Option<XEvent>| #[trigger]
            call_ensures(EventQueue::take, (queue, awaited), event) ==> {
                let (before, after) = ((*queue)@, (*final(queue))@);
                &&& event is None ==> after == before && forall|i: int|
                    0 <= i < before.len() ==> !awaited.meets(#[trigger] before[i])
                &&& event matches Some(e) ==> awaited.meets(e) && exists|at: int|
                    {
                        &&& 0 <= at < before.len()
                        &&& before == #[trigger] after.take(at) + seq![e] + after.skip(at)
                        &&& forall|i: int| 0 <= i < at ==> !awaited.meets(#[trigger] before[i])
                    }
            },
{
    assert forall|queue: &mut EventQueue, event: Option<XEvent>| #[trigger]
        call_ensures(EventQueue::pop_front, (queue,), event) && event is Some implies (*queue)@
        == seq![event->0] + (*final(queue))@ by {
        assert((*queue)@ =~= seq![event->0] + (*final(queue))@);
    }
    assert forall|queue: &mut EventQueue, event: Option<XEvent>| #[trigger]
        call_ensures(EventQueue::take, (queue, awaited), event) && event is Some implies {
        let (before, after) = ((*queue)@, (*final(queue))@);
        let e = event->0;
        awaited.meets(e) && exists|at: int|
            {
                &&& 0 <= at < before.len()
                &&& before == #[trigger] after.take(at) + seq![e] + after.skip(at)
                &&& forall|i: int| 0 <= i < at ==> !awaited.meets(#[trigger] before[i])
            }
    } by {
        let (before, after) = ((*queue)@, (*final(queue))@);
        let e = event->0;
        let at = choose|at: int|
            {
                &&& 0 <= at < before.len()
                &&& #[trigger] before[at] == e
                &&& awaited.meets(e)
                &&& forall|i: int| 0 <= i < at ==> !awaited.meets(#[trigger] before[i])
                &&& after == before.remove(at)
            };
        assert(before =~= after.take(at) + seq![e] + after.skip(at));
    }
}

/// While waiting, what is waited for ends the wait, anything else that comes in
/// is kept behind what is waiting, and only the time can end it otherwise.
pub proof fn waiting_keeps_what_comes_in(
    awaited: &Awaited,
    polled: Option<XEvent>,
    expired: bool,
)
    ensures
        forall|queue: &mut EventQueue, wait: Wait| #[trigger]
            call_ensures(EventQueue::after_poll, (queue, awaited, polled, expired), wait) ==> {
                let (before, after) = ((*queue)@, (*final(queue))@);
                let met = polled is Some && awaited.meets(polled->0);
                &&& wait is Got <==> met
                &&& wait matches Wait::Got(event) ==> Some(event) == polled && after == before
                &&& !met && polled is Some ==> after == before.push(polled->0)
                &&& polled is None ==> after == before
                &&& !met ==> (wait is GiveUp <==> expired)
                &&& wait is Poll ==> polled is Some
                &&& wait is Pause ==> polled is None
            },
{
}

/// Only a new owner of the clipboard calls for it to be read.
pub proof fn only_a_new_owner_is_captured(event: &XEvent, clipboard: u32, calls: bool)
    requires
        call_ensures(calls_for_capture, (event, clipboard), calls),
    ensures
        calls <==> (*event matches XEvent::OwnerChanged { selection } && selection == clipboard),
{
}

/// The tools are tried one after the other until one takes the content: a tool
/// that is missing or fails gives way, one that took it ends the matter, and
/// what else goes wrong is told, with the reason.
pub proof fn a_tool_gives_way_or_ends_it(attempt: Attempt)
    ensures
        forall|copying: &mut Copying, step: CopyStep| #[trigger]
            call_ensures(Copying::step, (copying, attempt), step) ==> {
                let (tool, next) = ((*copying).trying(), (*final(copying)).trying());
                let gives_way = attempt is NotInstalled || attempt is Failed;
                &&& step is Done <==> attempt is Took
                &&& step matches CopyStep::Done(took) ==> took == tool
                &&& step is Try <==> gives_way && tool != Tool::WlCopy
                &&& step matches CopyStep::Try(other) ==> other == next && other != tool && (tool
                    == Tool::Xclip <==> other == Tool::Xsel) && (tool == Tool::Xsel <==> other
                    == Tool::WlCopy)
                &&& step is Fail ==> attempt !is Took
                &&& attempt matches Attempt::NotStarted(why) ==> (step matches CopyStep::Fail(text)
                    && why@.is_suffix_of(text@))
                &&& attempt matches Attempt::NotWritten(why) ==> (step matches CopyStep::Fail(text)
                    && why@.is_suffix_of(text@))
                &&& attempt is NotInstalled ==> (*final(copying)).failure() == (*copying).failure()
                &&& attempt is Failed ==> (*final(copying)).failure() is Some
            },
{
    assert forall|copying: &mut Copying, step: CopyStep| #[trigger]
        call_ensures(Copying::step, (copying, attempt), step) && (attempt is NotStarted
            || attempt is NotWritten) implies {
        &&& attempt matches Attempt::NotStarted(why) ==> (step matches CopyStep::Fail(text)
            && why@.is_suffix_of(text@))
        &&& attempt matches Attempt::NotWritten(why) ==> (step matches CopyStep::Fail(text)
            && why@.is_suffix_of(text@))
    } by {
        let text = step->Fail_0@;
        let why = match attempt {
            Attempt::NotStarted(why) => why@,
            Attempt::NotWritten(why) => why@,
            _ => Seq::empty(),
        };
        assert(text.subrange(text.len() - why.len(), text.len() as int) =~= why);
    }
}

/// A configuration that was changed takes effect, one that cannot be read leaves
/// the last good one in force, and a file that was not touched is not looked at.
pub proof fn the_last_good_configuration_is_in_force(
    mtime: Option<i128>,
    loaded: Result<Config, String>,
)
    ensures
        forall|watcher: &mut ConfigWatcher, config: &Config| #[trigger]
            call_ensures(ConfigWatcher::current, (watcher, mtime, loaded), config) ==> {
                let (before, after) = (*watcher, *final(watcher));
                &&& *config == after.in_force()
                &&& after.seen() == mtime
                &&& loaded is Err || mtime == before.seen() ==> after.in_force()
                    == before.in_force()
                &&& loaded matches Ok(fresh) ==> (mtime != before.seen() ==> after.in_force()
                    == fresh)
            },
{
}

/// A watcher is stale exactly if the file was changed, made or removed since.
pub proof fn a_watcher_notices_a_change(
    watcher: &ConfigWatcher,
    mtime: Option<i128>,
    stale: bool,
)
    requires
        call_ensures(ConfigWatcher::is_stale, (watcher, mtime), stale),
    ensures
        !stale <==> mtime == watcher.seen(),
{
}

/// A configuration holds what was set and nothing else that was set.
pub proof fn what_is_set_is_in_force(
    first: Settings,
    second: Settings,
    a: Config,
    b: Config,
)
    requires
        call_ensures(Config::from_settings, (first,), a),
        call_ensures(Config::from_settings, (second,), b),
    ensures
        first.history_size matches Some(n) ==> a.history_size == n,
        first.max_item_bytes matches Some(n) ==> a.max_item_bytes == n,
        first.ignore_whitespace_only matches Some(w) ==> a.ignore_whitespace_only == w,
        first.denylist matches Some(list) ==> texts_of(a.privacy.denylist@) == texts_of(list@),
        first.history_size == second.history_size ==> a.history_size == b.history_size,
        first.max_item_bytes == second.max_item_bytes ==> a.max_item_bytes == b.max_item_bytes,
        first.ignore_whitespace_only == second.ignore_whitespace_only ==> a.ignore_whitespace_only
            == b.ignore_whitespace_only,
        first.denylist == second.denylist ==> texts_of(a.privacy.denylist@) == texts_of(
            b.privacy.denylist@,
        ),
{
    what_is_set_holds(a, b, first, second);
}

/// A time that fits is kept as it is, so that a later one has a later stamp; a
/// clock that tells none stands at the beginning.
pub proof fn a_stamp_keeps_the_time(
    early: u128,
    late: u128,
    one: i64,
    other: i64,
    none: i64,
)
    requires
        call_ensures(timestamp, (Some(early),), one),
        call_ensures(timestamp, (Some(late),), other),
        call_ensures(timestamp, (None,), none),
        early < late <= i64::MAX,
    ensures
        one == early && one < other,
        none == 0 && none <= one,
{
}

/// A session is trouble exactly if it is a Wayland one, and worse without a
/// display.
pub proof fn a_wayland_session_is_trouble(
    session_type: &str,
    has_display: bool,
    problem: Option<SessionProblem>,
)
    requires
        call_ensures(check_session, (session_type, has_display), problem),
    ensures
        problem is Some <==> session_type@ == "wayland"@,
        problem == Some(SessionProblem::NoDisplay) ==> !has_display,
        problem == Some(SessionProblem::XWaylandOnly) ==> has_display,
{
}

/// A socket that is there is replaced only if nobody listens on it.
pub proof fn a_live_socket_is_not_replaced(exists: bool, accepts: bool, what: Binding)
    requires
        call_ensures(binding, (exists, accepts), what),
    ensures
        what == Binding::Refuse <==> exists && accepts,
        what == Binding::RemoveStale ==> exists && !accepts,
        what == Binding::Bind ==> !exists,
{
}

/// Climbing goes to the parent, never to the root or to no window, and each step
/// takes one of those that are left, so that sixteen windows are looked at and no
/// more.
pub proof fn a_climb_comes_to_an_end(parent: u32, root: u32)
    ensures
        forall|ascent: Ascent| #[trigger]
            call_ensures(Ascent::new, (), ascent) ==> ascent.remaining() == 15,
        forall|ascent: &mut Ascent, next: Option<u32>| #[trigger]
            call_ensures(Ascent::climb, (ascent, parent, root), next) ==> {
                let (before, after) = ((*ascent).remaining(), (*final(ascent)).remaining());
                &&& next matches Some(window) ==> window == parent && window != 0 && window != root
                    && before == after + 1
                &&& next is None ==> after == before && (parent == 0 || parent == root || before
                    == 0)
            },
{
}

/// A response that does not fit is told: an error in the daemon's own words, an
/// entry that is gone by its id, anything else as it is.
pub proof fn a_response_that_does_not_fit_is_told(
    response: Response,
    plain: Complaint,
    described: Complaint,
)
    requires
        call_ensures(unexpected, (response,), plain),
        call_ensures(describe, (response,), described),
    ensures
        response matches Response::Error { message } ==> plain == Complaint::Message(message)
            && described == plain,
        response !is Error ==> plain == Complaint::Unexpected(response),
        response !is Error && response !is NotFound ==> described == plain,
        response matches Response::NotFound { id } ==> (described matches Complaint::Message(text)
            && text@ == "entry "@ + decimal_of(id as int) + " is gone"@),
{
}

/// The picker asks for the list that it was opened for, and opens with it.
pub proof fn a_picker_opens_with_the_list_asked_for(
    limit: usize,
    all: bool,
    pinned_only: bool,
    request: Request,
    response: Response,
    items: Result<Vec<Summary>, Complaint>,
)
    requires
        call_ensures(list_request, (limit, all, pinned_only), request),
        call_ensures(opening_list, (response,), items),
    ensures
        request matches Request::List { limit: asked, pinned_only: only } && only == pinned_only
            && (asked is None <==> all) && (asked matches Some(n) ==> n == limit),
        items is Ok <==> response is Items,
        items matches Ok(listed) ==> listed == response->Items_0,
{
}

/// A new picker shows every entry in the order of the list, the first selected.
pub proof fn a_new_picker_shows_everything(
    items: Vec<Summary>,
    limit: Option<usize>,
    pinned_only: bool,
    close_on_blur: bool,
    picker: Picker,
)
    requires
        call_ensures(Picker::new, (items, limit, pinned_only, close_on_blur), picker),
    ensures
        picker@.items == items@,
        picker@.visible.len() == items@.len(),
        forall|i: int| 0 <= i < items@.len() ==> #[trigger] picker@.visible[i] == i,
        picker@.query.len() == 0 && picker@.selected == 0 && picker@.status is None,
        picker@.limit == limit && picker@.pinned_only == pinned_only && picker@.close_on_blur
            == close_on_blur,
        !picker@.seen_focus,
{
    assert(items.len() <= usize::MAX);
}

/// A request that failed has changed nothing, but for two: a label may have been
/// given without the pin that goes with it, and a history may have been cleared.
/// Neither touches more than it was asked to.
pub proof fn a_failed_request_does_no_harm(
    id: i64,
    pinned: bool,
    label: Option<String>,
    keep_pinned: bool,
    facts: Facts,
)
    ensures
        forall|store: &mut Store, response: Response| #[trigger]
            call_ensures(dispatch, (Request::SetPinned { id, pinned }, store, facts), response) && (
            *store).is_own() && response is Error ==> (*final(store))@ == (*store)@,
        forall|store: &mut Store, response: Response| #[trigger]
            call_ensures(dispatch, (Request::Remove { id }, store, facts), response) && (
            *store).is_own() && response is Error ==> (*final(store))@ == (*store)@,
        forall|store: &mut Store, response: Response| #[trigger]
            call_ensures(dispatch, (Request::SetLabel { id, label }, store, facts), response) && (
            *store).is_own() && response is Error ==> {
                let (before, after) = ((*store)@, (*final(store))@);
                &&& differ_at_most_in(after, before, id)
                &&& after.entries.contains_key(id) <==> before.entries.contains_key(id)
                &&& label is None ==> after == before
                &&& before.entries.contains_key(id) ==> {
                    let (e, was) = (after.entries[id], before.entries[id]);
                    &&& e.label == was.label || e.label == label_text(label)
                    &&& e.content == was.content && e.pinned == was.pinned && e.seq == was.seq
                }
            },
        forall|store: &mut Store, response: Response| #[trigger]
            call_ensures(dispatch, (Request::Clear { keep_pinned }, store, facts), response) && (
            *store).is_own() && response is Error ==> {
                let (before, after) = ((*store)@.entries, (*final(store))@.entries);
                &&& forall|id: i64| #[trigger]
                    after.contains_key(id) ==> before.contains_key(id) && after[id] == before[id]
                &&& keep_pinned ==> forall|id: i64| #[trigger]
                    before.contains_key(id) && before[id].pinned != 0 ==> after.contains_key(id)
            },
{
}

/// A capture counts as new exactly if it made an entry.
pub proof fn a_capture_is_new_if_it_made_an_entry(captured: &Captured, new: bool)
    requires
        call_ensures(Captured::is_new, (captured,), new),
    ensures
        *captured is Skipped ==> !new,
        *captured matches Captured::Stored { inserted, .. } ==> (inserted is Bumped <==> !new),
{
}

/// A row shows how long ago its entry was last touched.
pub proof fn a_row_shows_how_long_ago(
    item: &Summary,
    now: i64,
    row: RowText,
    millis: i64,
    text: String,
)
    requires
        call_ensures(row_text, (item, now), row),
        call_ensures(age, (millis,), text),
        millis == now - item.updated_at,
    ensures
        text@.push(' ').is_suffix_of(row.age@),
        forall|k: int| 0 <= k < row.age@.len() - text@.len() - 1 ==> #[trigger] row.age@[k] == ' ',
{
    assert(age_of(*item, now) == millis);
    let tail = text@.push(' ');
    assert(row.age@.subrange(row.age@.len() - tail.len(), row.age@.len() as int) =~= tail);
}

/// `part` stands somewhere in `text`.
pub open spec fn holds(text: Seq<char>, part: Seq<char>) -> bool {
    exists|at: int|
        0 <= at <= text.len() - part.len() && #[trigger] text.subrange(at, at + part.len()) == part
}

proof fn lemma_holds(text: Seq<char>, left: Seq<char>, part: Seq<char>, right: Seq<char>)
    requires
        text == left + part + right,
    ensures
        holds(text, part),
{
    let at = left.len() as int;
    assert(text.subrange(at, at + part.len()) =~= part);
}

/// Each part of a status report stands behind its word.
pub proof fn a_report_tells_every_number(s: &Status, text: String)
    requires
        call_ensures(status_report, (s,), text),
    ensures
        holds(text@, s.version@ + " ("@ + s.backend@ + ")\n"@),
        holds(text@, "database     "@ + s.db_path@ + "\n"@),
        holds(text@, "entries      "@ + decimal_of(s.total as int) + " ("@),
        holds(text@, " ("@ + decimal_of(s.pinned as int) + " pinned)\n"@),
        holds(text@, "history_size "@ + digits_of(s.history_size as nat) + "\n"@),
        holds(
            text@,
            "captured     "@ + digits_of(s.captured_since_start as nat) + " since daemon start\n"@,
        ),
{
    let version = s.version@ + " ("@ + s.backend@ + ")\n"@;
    let database = "database     "@ + s.db_path@ + "\n"@;
    let entries = "entries      "@ + decimal_of(s.total as int);
    let pinned = decimal_of(s.pinned as int) + " pinned)\n"@;
    let size = "history_size "@ + digits_of(s.history_size as nat) + "\n"@;
    let captured = "captured     "@ + digits_of(s.captured_since_start as nat)
        + " since daemon start\n"@;
    assert(" ("@ + pinned =~= " ("@ + decimal_of(s.pinned as int) + " pinned)\n"@);
    assert(text@ =~= "clipsterd    "@ + version + database + entries + " ("@ + pinned + size
        + captured);
    lemma_report("clipsterd    "@, version, database, entries, " ("@, pinned, size, captured);
}

proof fn lemma_report(
    first: Seq<char>,
    version: Seq<char>,
    database: Seq<char>,
    entries: Seq<char>,
    paren: Seq<char>,
    pinned: Seq<char>,
    size: Seq<char>,
    captured: Seq<char>,
)
    ensures
        ({
            let text = first + version + database + entries + paren + pinned + size + captured;
            &&& holds(text, version)
            &&& holds(text, database)
            &&& holds(text, entries + paren)
            &&& holds(text, paren + pinned)
            &&& holds(text, size)
            &&& holds(text, captured)
        }),
{
    let text = first + version + database + entries + paren + pinned + size + captured;
    let above = first + version + database;
    let rest = pinned + size + captured;
    assert(text =~= first + version + (database + entries + paren + rest));
    lemma_holds(text, first, version, database + entries + paren + rest);
    assert(text =~= (first + version) + database + (entries + paren + rest));
    lemma_holds(text, first + version, database, entries + paren + rest);
    assert(text =~= above + (entries + paren) + rest);
    lemma_holds(text, above, entries + paren, rest);
    assert(text =~= (above + entries) + (paren + pinned) + (size + captured));
    lemma_holds(text, above + entries, paren + pinned, size + captured);
    lemma_holds(text, above + entries + paren + pinned, size, captured);
    let all_but_last = above + entries + paren + pinned + size;
    assert(text =~= all_but_last + captured + Seq::<char>::empty());
    lemma_holds(text, all_but_last, captured, Seq::empty());
}

/// The class of a window is what its property names: text without NULs as it is,
/// the usual pair with a dot between its parts, and none where there is no text.
pub proof fn a_class_is_what_the_property_names(
    raw: &str,
    class: Option<String>,
    instance: Seq<char>,
    name: Seq<char>,
)
    requires
        call_ensures(class_of_text, (raw,), class),
        instance.len() > 0,
        name.len() > 0,
        forall|i: int| 0 <= i < instance.len() ==> #[trigger] instance[i] != '\0',
        forall|i: int| 0 <= i < name.len() ==> #[trigger] name[i] != '\0',
    ensures
        raw@ == name ==> (class matches Some(text) && text@ == name),
        raw@ == instance + seq!['\0'] + name + seq!['\0'] ==> (class matches Some(text) && text@
            == instance + seq!['.'] + name),
        raw@.len() == 0 ==> class is None,
        class matches Some(text) ==> text@.len() > 0 && forall|i: int|
            0 <= i < text@.len() ==> #[trigger] text@[i] != '\0',
{
    a_part_stays_as_it_is(name);
    instance_and_class_are_both_kept(instance, name);
    a_class_holds_no_nul(raw@);
}

/// A query is matched against the label, if there is one, and the preview behind
/// it, and against nothing else.
pub proof fn a_query_is_matched_against_label_and_preview(item: &Summary, text: String)
    requires
        call_ensures(haystack, (item,), text),
    ensures
        item.label is None ==> text@ == item.preview@,
        item.label matches Some(label) ==> text@ == label@.push(' ') + item.preview@,
{
    if let Some(label) = item.label {
        assert(text@ =~= label@.push(' ') + item.preview@);
    }
}

/// A tool that is still running when its time is up has taken the content; only
/// one that exited with a failure before that has not.
pub proof fn only_an_early_failure_counts(expired: bool, look: Look, settled: Settled)
    requires
        call_ensures(settle, (expired, look), settled),
    ensures
        settled is Failed <==> look is Failed && !expired,
        settled is NotYet <==> look is Running && !expired,
{
}

/// The more often it is asked for, the more the log tells, up to a point.
pub proof fn verbosity_adds_up(verbose: u8, level: &'static str)
    requires
        call_ensures(log_level, (verbose,), level),
    ensures
        verbose == 0 ==> level@ == "info"@,
        verbose == 1 ==> level@ == "debug"@,
        verbose >= 2 ==> level@ == "trace"@,
{
}

/// The class of a window is read from the bytes of its property; one that is not
/// there, or empty, names none.
pub proof fn a_class_is_read_from_the_property(
    value: &Vec<u8>,
    class: Option<String>,
    name: Seq<char>,
)
    requires
        call_ensures(wm_class, (value,), class),
        name.len() > 0,
        forall|i: int| 0 <= i < name.len() ==> #[trigger] name[i] != '\0',
    ensures
        value@.len() == 0 ==> class is None,
        value@.len() > 0 && valid_utf8(value@) && decode_utf8(value@) == name ==> (
        class matches Some(text) && text@ == name),
{
    a_part_stays_as_it_is(name);
}

/// A source is read unless it is known and on the denylist.
pub proof fn only_a_denied_source_is_not_read(
    config: &Config,
    class: Option<&str>,
    admitted: bool,
)
    requires
        call_ensures(admits_source, (config, class), admitted),
    ensures
        admitted <==> !is_on_denylist(*config, class),
        class is None ==> admitted,
{
}

/// A list for scripts has a line for each entry, with the id, a tab and the
/// preview, in the order of the list.
pub proof fn a_script_reads_id_and_preview(
    fewer: &Vec<Summary>,
    items: &Vec<Summary>,
    last: Summary,
    before: String,
    text: String,
)
    requires
        items@ == fewer@.push(last),
        call_ensures(plain_list, (fewer,), before),
        call_ensures(plain_list, (items,), text),
    ensures
        text@ == before@ + decimal_of(last.id as int) + seq!['\t'] + last.preview@ + seq!['\n'],
        fewer@.len() == 0 ==> before@.len() == 0,
{
    assert(items@.drop_last() =~= fewer@);
    assert(text@ =~= before@ + decimal_of(last.id as int) + seq!['\t'] + last.preview@
        + seq!['\n']);
}

/// What was copied is told with its id and the tool that took it.
pub proof fn a_copy_is_told(id: i64, tool: &str, text: String)
    requires
        call_ensures(copied, (id, tool), text),
    ensures
        tool@.is_suffix_of(text@),
        holds(text@, "#"@ + decimal_of(id as int) + " via "@),
{
    reveal_strlit("copied #");
    reveal_strlit("#");
    let number = decimal_of(id as int);
    assert(text@.subrange(text@.len() - tool@.len(), text@.len() as int) =~= tool@);
    let front = "copied #"@.drop_last();
    assert(text@ =~= front + ("#"@ + number + " via "@) + tool@);
    lemma_holds(text@, front, "#"@ + number + " via "@, tool@);
}

/// A watcher begins with what was loaded, and copying with the first tool, none
/// having failed.
pub proof fn it_begins_with_what_there_is(
    mtime: Option<i128>,
    loaded: Result<Config, String>,
    watcher: ConfigWatcher,
    begun: (Copying, CopyStep),
)
    requires
        call_ensures(ConfigWatcher::new, (mtime, loaded), watcher),
        call_ensures(Copying::begin, (), begun),
    ensures
        watcher.seen() == mtime,
        loaded matches Ok(config) ==> watcher.in_force() == config,
        begun.1 == CopyStep::Try(Tool::Xclip) && begun.0.trying() == Tool::Xclip,
        begun.0.failure() is None,
{
}

/// What the picker shows is what it holds: the row that is asked for, the entry
/// that is selected, and a note exactly if there is no row.
pub proof fn a_picker_shows_what_it_holds(
    picker: &Picker,
    row: usize,
    item: &Summary,
    selected: Option<&Summary>,
    note: Option<&'static str>,
    count: usize,
)
    requires
        row < picker@.visible.len(),
        call_ensures(Picker::row, (picker, row), item),
        call_ensures(Picker::selected_item, (picker,), selected),
        call_ensures(Picker::note, (picker,), note),
        call_ensures(Picker::row_count, (picker,), count),
    ensures
        *item == picker@.items[picker@.visible[row as int] as int],
        row == picker@.selected ==> (selected matches Some(same) && *same == *item),
        note is None && count > 0,
{
}

/// Where there is no row nothing is selected, and a note tells whether there are
/// no entries or no matches.
pub proof fn an_empty_picker_says_why(
    picker: &Picker,
    selected: Option<&Summary>,
    note: Option<&'static str>,
)
    requires
        picker@.visible.len() == 0,
        call_ensures(Picker::selected_item, (picker,), selected),
        call_ensures(Picker::note, (picker,), note),
    ensures
        selected is None,
        picker@.items.len() == 0 ==> (note matches Some(text) && text@ == "history is empty"@),
        picker@.items.len() > 0 ==> (note matches Some(text) && text@ == "no match"@),
{
}

} // verus!

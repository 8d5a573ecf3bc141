//! What the daemon answers: one request in, one response out.

use crate::history::{
    a_list_has_as_many_rows_as_asked_for, a_list_tells_the_truth, differ_at_most_in,
    is_most_recent, is_recorded, lists, removing_takes_the_named_entries_only,
    what_is_recorded_is_the_most_recent, History,
};
use crate::ipc::{label_text, Request, Response, Status};
use crate::sqlite::{held, loose, no_entries, pins_are_flags};
use crate::store::{Inserted, Store, StoreError};
use vstd::prelude::*;
use vstd::string::*;

verus! {

/// What the daemon knows of itself, for the status it reports.
pub struct Facts {
    pub version: String,
    pub backend: String,
    pub history_size: usize,
    pub captured_since_start: u64,
    pub db_path: String,
}

impl Request {
    /// The requests that only read.
    pub open spec fn only_reads(self) -> bool {
        self is List || self is Get || self is Latest || self is Status
    }

    /// This request is about the entry `id`.
    pub open spec fn names(self, id: i64) -> bool {
        match self {
            Request::Get { id: named } => named == id,
            Request::SetPinned { id: named, .. } => named == id,
            Request::SetLabel { id: named, .. } => named == id,
            Request::Remove { id: named } => named == id,
            _ => false,
        }
    }

    /// What this request makes of a history.
    pub open spec fn effect(self, history: History) -> History {
        match self {
            Request::SetPinned { id, pinned } => history.pinned(id, pinned),
            Request::SetLabel { id, label } => history.labelled(id, label_text(label)),
            Request::Remove { id } => history.without(set![id]),
            Request::Clear { keep_pinned } => history.without(
                if keep_pinned {
                    loose(history.entries)
                } else {
                    history.entries.dom()
                },
            ),
            _ => history,
        }
    }

    /// What this request can leave of a history when it fails. Most requests
    /// leave it as it was; one that takes two statements may have done the
    /// first: a label may stand without its pin, and cleared entries may be
    /// gone with their pages still free.
    pub open spec fn can_leave(self, before: History, after: History) -> bool {
        ||| after == before
        ||| (self matches Request::SetLabel { id, label } && label is Some && after == before.named(
            id,
            label_text(label),
        ))
        ||| (self is Clear && after == self.effect(before))
    }

    /// `response` answers this request to a history.
    pub open spec fn is_answered(
        self,
        history: History,
        facts: Facts,
        response: Response,
    ) -> bool {
        match self {
            Request::List { limit, pinned_only } => response matches Response::Items(list)
                && lists(list@, history.entries, limit, pinned_only),
            Request::Get { id } => match response {
                Response::Item(item) => item.id == id && item.shows(history.entries),
                Response::NotFound { id: missing } => missing == id
                    && !history.entries.contains_key(id),
                _ => false,
            },
            Request::Latest => match response {
                Response::Item(item) => item.shows(history.entries) && is_most_recent(
                    history.entries,
                    item.id,
                ),
                Response::NotFound { id } => id == 0 && history.entries == no_entries(),
                _ => false,
            },
            Request::SetPinned { id, .. } => response matches Response::Affected(n) && n
                == history.affected(id),
            Request::SetLabel { id, .. } => response matches Response::Affected(n) && n
                == history.affected(id),
            Request::Remove { id } => response matches Response::Affected(n) && n
                == history.affected(id),
            Request::Clear { keep_pinned } => response matches Response::Affected(n) && n == (
            if keep_pinned {
                loose(history.entries)
            } else {
                history.entries.dom()
            }).len(),
            Request::Status => response matches Response::Status(s) && reports_status(
                s,
                history,
                facts,
            ),
        }
    }
}

/// `status` tells the size of the history and the daemon's facts.
pub open spec fn reports_status(status: Status, history: History, facts: Facts) -> bool {
    &&& status.version == facts.version
    &&& status.backend == facts.backend
    &&& status.total == history.entries.dom().len()
    &&& pins_are_flags(history.entries) ==> status.pinned == held(history.entries).len()
    &&& status.history_size == facts.history_size
    &&& status.captured_since_start == facts.captured_since_start
    &&& status.db_path == facts.db_path
}

/// Carries a request out. `facts` are looked at for a status only.
pub fn run(request: Request, store: &mut Store, facts: Facts) -> (response: Result<
    Response,
    StoreError,
>)
    ensures
        old(store).is_own() ==> (response matches Ok(r) ==> request.is_answered(
            old(store)@,
            facts,
            r,
        )),
        old(store).is_own() && response is Ok ==> final(store)@ == request.effect(old(store)@),
        old(store).is_own() && response is Err ==> request.can_leave(old(store)@, final(store)@),
        old(store).is_own() ==> old(store).keeps(*final(store)),
        response matches Ok(r) ==> r !is Error,
        request.only_reads() ==> final(store)@ == old(store)@,
        response matches Err(e) ==> e is Statement,
{
    match request {
        Request::List { limit, pinned_only } => match store.list(limit, pinned_only) {
            Ok(list) => Ok(Response::Items(list)),
            Err(e) => Err(e),
        },
        Request::Get { id } => match store.get(id) {
            Ok(Some(item)) => Ok(Response::Item(item)),
            Ok(None) => Ok(Response::NotFound { id }),
            Err(e) => Err(e),
        },
        Request::Latest => match store.latest() {
            Ok(Some(item)) => Ok(Response::Item(item)),
            Ok(None) => Ok(Response::NotFound { id: 0 }),
            Err(e) => Err(e),
        },
        Request::SetPinned { id, pinned } => match store.set_pinned(id, pinned) {
            Ok(n) => Ok(Response::Affected(n)),
            Err(e) => Err(e),
        },
        Request::SetLabel { id, label } => {
            let borrowed: Option<&str> = match &label {
                Some(text) => Some(text.as_str()),
                None => None,
            };
            match store.set_label(id, borrowed) {
                Ok(n) => Ok(Response::Affected(n)),
                Err(e) => Err(e),
            }
        },
        Request::Remove { id } => match store.remove(id) {
            Ok(n) => Ok(Response::Affected(n)),
            Err(e) => Err(e),
        },
        Request::Clear { keep_pinned } => match store.clear(keep_pinned) {
            Ok(n) => Ok(Response::Affected(n)),
            Err(e) => Err(e),
        },
        Request::Status => match store.counts() {
            Ok((total, pinned)) => Ok(
                Response::Status(
                    Status {
                        version: facts.version,
                        backend: facts.backend,
                        total,
                        pinned,
                        history_size: facts.history_size,
                        captured_since_start: facts.captured_since_start,
                        db_path: facts.db_path,
                    },
                ),
            ),
            Err(e) => Err(e),
        },
    }
}

/// The response to a request that was carried out, or that failed.
pub fn settle(outcome: Result<Response, StoreError>) -> (response: Response)
    ensures
        match outcome {
            Ok(r) => response == r,
            Err(e) => response matches Response::Error { message } && e.is_told_by(message@),
        },
{
    match outcome {
        Ok(r) => r,
        Err(e) => Response::Error { message: e.message() },
    }
}

/// Answers a request; a failure is answered with an error.
pub fn dispatch(request: Request, store: &mut Store, facts: Facts) -> (response: Response)
    ensures
        old(store).is_own() && response !is Error ==> request.is_answered(
            old(store)@,
            facts,
            response,
        ) && final(store)@ == request.effect(old(store)@),
        old(store).is_own() && response is Error ==> request.can_leave(old(store)@, final(store)@),
        old(store).is_own() ==> old(store).keeps(*final(store)),
        response matches Response::Error { message } ==> exists|e: StoreError|
            e is Statement && #[trigger] e.is_told_by(message@),
        request.only_reads() ==> final(store)@ == old(store)@,
{
    settle(run(request, store, facts))
}

/// The answer to a line that is no request.
pub fn malformed(reason: &str) -> (response: Response)
    ensures
        response matches Response::Error { message } && message@ == "malformed request: "@
            + reason@,
{
    let mut message = "malformed request: ".to_owned();
    message.append(reason);
    Response::Error { message }
}

/// The answer while another thread left the store or the configuration in an
/// unknown state.
pub fn poisoned(what: &str) -> (response: Response)
    ensures
        response matches Response::Error { message } && message@ == what@ + " lock poisoned"@,
{
    let mut message = what.to_owned();
    message.append(" lock poisoned");
    Response::Error { message }
}

/// What to do about the socket's path before binding it.
#[derive(Debug, Clone, Copy, PartialEq, Eq, Structural)]
pub enum Binding {
    /// Nothing is there.
    Bind,
    /// A socket that a killed daemon left behind: remove it, then bind.
    RemoveStale,
    /// Another daemon is listening.
    Refuse,
}

/// Tells a stale socket from a live one: only a socket that refuses
/// connections is safe to unlink.
pub fn binding(exists: bool, accepts: bool) -> (what: Binding)
    ensures
        what == Binding::Bind <==> !exists,
        what == Binding::RemoveStale <==> exists && !accepts,
        what == Binding::Refuse <==> exists && accepts,
{
    if !exists {
        Binding::Bind
    } else if accepts {
        Binding::Refuse
    } else {
        Binding::RemoveStale
    }
}

/// A request that names an entry that is not there changes nothing and says
/// so: nothing is affected, or it is not found.
pub proof fn a_missing_entry_is_reported(
    request: Request,
    id: i64,
    history: History,
    facts: Facts,
    response: Response,
)
    requires
        !history.entries.contains_key(id),
        request.is_answered(history, facts, response),
        request.names(id),
    ensures
        request.effect(history) == history,
        response == Response::Affected(0) || response == (Response::NotFound { id }),
        request is Get <==> response is NotFound,
{
    assert(history.entries.remove_keys(set![id]) =~= history.entries);
}

/// What a request wrote, a later one reads: after a pin, a label or a removal
/// an answer to `Get` shows it.
pub proof fn a_change_is_seen_by_the_next_reader(
    change: Request,
    id: i64,
    history: History,
    facts: Facts,
    response: Response,
)
    requires
        history.entries.contains_key(id),
        (Request::Get { id }).is_answered(change.effect(history), facts, response),
    ensures
        change.names(id) ==> match change {
            Request::SetPinned { pinned, .. } => response matches Response::Item(item)
                && item.pinned == pinned,
            Request::SetLabel { label, .. } => response matches Response::Item(item)
                && label_text(item.label) == label_text(label) && (label is Some ==> item.pinned),
            Request::Remove { .. } => response == (Response::NotFound { id }),
            _ => true,
        },
        change.only_reads() ==> (response matches Response::Item(item) && item.shows(
            history.entries,
        )),
{
}

/// What was just recorded is what the next reader gets: as the latest entry,
/// and under its id. What is new reads back exactly as it was copied.
pub proof fn what_was_recorded_is_the_latest(
    before: History,
    after: History,
    content: Seq<char>,
    now: i64,
    did: Inserted,
    facts: Facts,
    latest: Response,
    found: Response,
)
    requires
        is_recorded(before, after, content, now, did),
        Request::Latest.is_answered(after, facts, latest),
        (Request::Get { id: did.spec_id() }).is_answered(after, facts, found),
    ensures
        latest matches Response::Item(item) && item.id == did.spec_id() && item.updated_at == now
            && (did is New ==> item.content@ == content),
        found matches Response::Item(item) && item.id == did.spec_id() && item.updated_at == now
            && (did is New ==> item.content@ == content),
{
    what_is_recorded_is_the_most_recent(before, after, content, now, did);
    assert(is_most_recent(after.entries, did.spec_id()));
}

/// Whoever asks for a list gets it: entries of the history with their own
/// fields, no entry twice, pinned ones first and newer ones before older ones;
/// where only pinned entries are asked for, those and no others. There are as
/// many as asked for, as far as there are so many, and all of them without a
/// limit.
pub proof fn a_list_is_answered_as_asked(
    history: History,
    limit: Option<usize>,
    pinned_only: bool,
    facts: Facts,
    response: Response,
)
    requires
        pins_are_flags(history.entries),
        (Request::List { limit, pinned_only }).is_answered(history, facts, response),
    ensures
        response matches Response::Items(items) && {
            let table = history.entries;
            let there = table.dom().filter(|id: i64| pinned_only ==> table[id].pinned == 1).len();
            &&& forall|i: int|
                0 <= i < items@.len() ==> {
                    let row = #[trigger] items@[i];
                    &&& table.contains_key(row.id)
                    &&& row.preview@ == table[row.id].preview
                    &&& label_text(row.label) == table[row.id].label
                    &&& row.pinned <==> table[row.id].pinned == 1
                    &&& pinned_only ==> table[row.id].pinned == 1
                }
            &&& forall|i: int, j: int|
                0 <= i < j < items@.len() ==> {
                    let (a, b) = (#[trigger] items@[i], #[trigger] items@[j]);
                    &&& a.id != b.id
                    &&& b.pinned ==> a.pinned
                    &&& a.pinned == b.pinned ==> table[a.id].seq >= table[b.id].seq
                }
            &&& limit is None ==> forall|id: i64| #[trigger]
                table.contains_key(id) && (pinned_only ==> table[id].pinned == 1) ==> exists|i: int|
                    0 <= i < items@.len() && (#[trigger] items@[i]).id == id
            &&& limit matches Some(n) ==> (n <= i64::MAX && n < there ==> items@.len() == n)
            &&& limit matches Some(n) ==> (there <= n ==> items@.len() == there)
            &&& limit is None ==> items@.len() == there
        },
{
    let table = history.entries;
    if let Response::Items(items) = response {
        a_list_tells_the_truth(history, limit, pinned_only, items@);
        a_list_has_as_many_rows_as_asked_for(table, limit, pinned_only, items@);
        let there = table.dom().filter(|id: i64| pinned_only ==> table[id].pinned == 1);
        if pinned_only {
            assert(there =~= table.dom().filter(|id: i64| table[id].pinned == 1));
        } else {
            assert(there =~= table.dom());
        }
    }
}

/// Whoever asks for an entry gets that entry, whole, or is told that it is not
/// there; whoever asks for the latest gets one that none is more recent than.
pub proof fn a_lookup_brings_the_entry_asked_for(
    history: History,
    id: i64,
    facts: Facts,
    found: Response,
    latest: Response,
)
    requires
        (Request::Get { id }).is_answered(history, facts, found),
        Request::Latest.is_answered(history, facts, latest),
    ensures
        history.entries.contains_key(id) ==> (found matches Response::Item(item) && {
            let e = history.entries[id];
            &&& item.id == id && item.content@ == e.content && label_text(item.label) == e.label
            &&& item.pinned <==> e.pinned != 0
            &&& item.created_at == e.created_at && item.updated_at == e.updated_at
        }),
        !history.entries.contains_key(id) ==> found == (Response::NotFound { id }),
        (exists|any: i64| #[trigger] history.entries.contains_key(any)) ==> (
        latest matches Response::Item(item) && {
            let e = history.entries[item.id];
            &&& history.entries.contains_key(item.id)
            &&& item.content@ == e.content && label_text(item.label) == e.label
            &&& item.pinned <==> e.pinned != 0
            &&& item.created_at == e.created_at && item.updated_at == e.updated_at
            &&& forall|other: i64| #[trigger]
                history.entries.contains_key(other) ==> history.entries[other].seq <= e.seq
        }),
        (forall|any: i64| !#[trigger] history.entries.contains_key(any)) ==> latest == (
        Response::NotFound { id: 0 }),
{
    if let Response::Item(item) = latest {
        assert(history.entries.contains_key(item.id));
        assert forall|other: i64| #[trigger]
            history.entries.contains_key(other) implies history.entries[other].seq
            <= history.entries[item.id].seq by {}
    }
}

/// A change does what it says to the entry that it names and nothing to any
/// other, and the answer tells whether there was one.
pub proof fn a_change_is_to_the_named_entry_only(
    change: Request,
    id: i64,
    history: History,
    facts: Facts,
    response: Response,
)
    requires
        change is SetPinned || change is SetLabel || change is Remove,
        change.names(id),
        change.is_answered(history, facts, response),
    ensures
        response == Response::Affected(
            if history.entries.contains_key(id) {
                1
            } else {
                0
            },
        ),
        differ_at_most_in(change.effect(history), history, id),
        change is Remove ==> !change.effect(history).entries.contains_key(id),
        change !is Remove ==> (change.effect(history).entries.contains_key(id)
            <==> history.entries.contains_key(id)),
        history.entries.contains_key(id) ==> {
            let (e, was) = (change.effect(history).entries[id], history.entries[id]);
            match change {
                Request::SetPinned { pinned, .. } => {
                    &&& pinned <==> e.pinned != 0
                    &&& e.label == was.label && e.content == was.content && e.preview
                        == was.preview && e.seq == was.seq && e.hash == was.hash
                    &&& e.updated_at == was.updated_at && e.created_at == was.created_at
                },
                Request::SetLabel { label, .. } => {
                    &&& e.label == label_text(label)
                    &&& label is Some ==> e.pinned != 0
                    &&& label is None ==> e.pinned == was.pinned
                    &&& e.content == was.content && e.preview == was.preview && e.seq == was.seq
                        && e.hash == was.hash
                    &&& e.updated_at == was.updated_at && e.created_at == was.created_at
                },
                _ => true,
            }
        },
{
    removing_takes_the_named_entries_only(history, set![id]);
}

/// Clearing leaves the pinned entries as they were and nothing else, or, where
/// pinned ones are to go too, nothing at all. It tells how many went, and
/// forgets no id.
pub proof fn clearing_takes_what_it_is_asked_to(
    history: History,
    keep_pinned: bool,
    facts: Facts,
    response: Response,
)
    requires
        history.entries.dom().finite(),
        (Request::Clear { keep_pinned }).is_answered(history, facts, response),
    ensures
        ({
            let after = (Request::Clear { keep_pinned }).effect(history);
            &&& after.last_id == history.last_id
            &&& forall|id: i64| #[trigger]
                after.entries.contains_key(id) <==> keep_pinned && history.entries.contains_key(id)
                    && history.entries[id].pinned != 0
            &&& forall|id: i64| #[trigger]
                after.entries.contains_key(id) ==> after.entries[id] == history.entries[id]
            &&& response matches Response::Affected(n) && n == history.entries.dom().len()
                - after.entries.dom().len()
        }),
{
    let gone = if keep_pinned {
        loose(history.entries)
    } else {
        history.entries.dom()
    };
    let after = (Request::Clear { keep_pinned }).effect(history);
    removing_takes_the_named_entries_only(history, gone);
    let all = history.entries.dom();
    assert(after.entries.dom() =~= all.difference(gone));
    assert(gone.subset_of(all));
    vstd::set_lib::lemma_len_subset(gone, all);
    assert(all =~= gone.union(all.difference(gone)));
    vstd::set_lib::lemma_set_disjoint_lens(gone, all.difference(gone));
}

/// A question changes nothing.
pub proof fn a_question_changes_nothing(request: Request, history: History)
    requires
        request is List || request is Get || request is Latest || request is Status,
    ensures
        request.effect(history) == history,
        request.only_reads(),
{
}

/// A status counts the history: so many entries, so many of them pinned, and
/// the rest not. The daemon's own facts stand in it unchanged.
pub proof fn a_status_counts_the_history(history: History, facts: Facts, response: Response)
    requires
        history.entries.dom().finite(),
        pins_are_flags(history.entries),
        Request::Status.is_answered(history, facts, response),
    ensures
        response matches Response::Status(s) && {
            let table = history.entries;
            let pinned = table.dom().filter(|id: i64| table[id].pinned == 1).len();
            let others = table.dom().filter(|id: i64| table[id].pinned == 0).len();
            &&& s.total == table.dom().len()
            &&& s.pinned == pinned
            &&& s.total == pinned + others
            &&& s.history_size == facts.history_size
            &&& s.captured_since_start == facts.captured_since_start
            &&& s.version == facts.version && s.backend == facts.backend && s.db_path
                == facts.db_path
        },
{
    let table = history.entries;
    let pinned = table.dom().filter(|id: i64| table[id].pinned == 1);
    let others = table.dom().filter(|id: i64| table[id].pinned == 0);
    assert forall|id: i64| held(table).contains(id) <==> pinned.contains(id) by {
        if table.contains_key(id) {
            assert(0 <= table[id].pinned <= 1);
        }
    }
    assert(held(table) =~= pinned);
    assert(table.dom() =~= pinned.union(others)) by {
        assert forall|id: i64| table.dom().contains(id) implies pinned.union(others).contains(
            id,
        ) by {
            assert(0 <= table[id].pinned <= 1);
        }
    }
    vstd::set_lib::lemma_set_disjoint_lens(pinned, others);
}

} // verus!

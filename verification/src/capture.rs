//! What becomes of a clipboard change.

use crate::clock::is_clock_reading;
use crate::config::{denies, Config};
use crate::history::{
    eviction_leaves_as_many_as_asked_for, eviction_spares_pinned_entries, is_recorded,
    recording_leaves_the_others_alone, row_limit, what_is_recorded_reads_back,
    what_is_recorded_survives_eviction, History,
};
use crate::sqlite::{is_trimmed, loose};
use crate::store::{Inserted, Store, StoreError};
use crate::text::{blank, is_blank, is_white};
use vstd::prelude::*;
use vstd::string::*;

verus! {

/// Why a clipboard change was not stored.
#[derive(Debug, Clone, Copy, PartialEq, Eq, Structural)]
pub enum Skip {
    /// Its source is on the denylist.
    Denied,
    /// It has no text form: an image, a file list, or an empty clipboard.
    NoText,
    /// It is nothing but whitespace.
    Blank,
    /// It is larger than the configuration allows.
    TooLarge,
}

/// What became of a clipboard change.
#[derive(Debug)]
pub enum Captured {
    Skipped(Skip),
    /// It was stored, and that many older entries made room for it, or making
    /// room failed.
    Stored { inserted: Inserted, evicted: Result<usize, StoreError> },
}

impl Captured {
    /// Whether this was something new.
    pub open spec fn adds_an_entry(self) -> bool {
        self matches Captured::Stored { inserted, .. } && inserted is New
    }

    /// Whether this was something new, for the count of captures.
    pub fn is_new(&self) -> (new: bool)
        ensures
            new == self.adds_an_entry(),
    {
        match self {
            Captured::Stored { inserted: Inserted::New(_), .. } => true,
            _ => false,
        }
    }
}

/// The text of something that may have none.
pub open spec fn optional_text(text: Option<&str>) -> Option<Seq<char>> {
    match text {
        Some(t) => Some(t@),
        None => None,
    }
}

/// A source may be recorded unless it is known and on the denylist.
pub open spec fn admits(config: Config, class: Option<Seq<char>>) -> bool {
    class matches Some(c) ==> !config.denied(c)
}

/// Why a text from this source is not stored, if it is not.
pub open spec fn reason_to_skip(
    config: Config,
    class: Option<Seq<char>>,
    text: Option<&str>,
) -> Option<Skip> {
    if !admits(config, class) {
        Some(Skip::Denied)
    } else {
        match text {
            None => Some(Skip::NoText),
            Some(t) => if config.ignore_whitespace_only && blank(t@) {
                Some(Skip::Blank)
            } else if t.len() > config.max_item_bytes {
                Some(Skip::TooLarge)
            } else {
                None
            },
        }
    }
}

/// Storing `text` turns `before` into `after`: it is recorded, and then the
/// oldest unpinned entries beyond the history's size are evicted.
pub open spec fn is_stored(
    config: Config,
    text: Seq<char>,
    before: History,
    after: History,
    inserted: Inserted,
    evicted: nat,
) -> bool {
    exists|now: i64, between: History| #[trigger]
        is_recorded(before, between, text, now, inserted) && is_clock_reading(now) && is_trimmed(
            between.entries,
            after.entries,
            row_limit(Some(config.history_size)),
        ) && after.last_id == between.last_id && evicted == loose(between.entries).len() - loose(
            after.entries,
        ).len()
}

/// Whether the clipboard of this source may be read at all. `None` means
/// "unattributable", and an unattributable copy is stored.
pub fn admits_source(config: &Config, class: Option<&str>) -> (admitted: bool)
    ensures
        admitted == admits(*config, optional_text(class)),
{
    match class {
        Some(class) => !config.is_denied(class),
        None => true,
    }
}

/// Decides what becomes of a text from this source.
pub fn skip_reason(config: &Config, class: Option<&str>, text: Option<&str>) -> (reason: Option<
    Skip,
>)
    ensures
        reason == reason_to_skip(*config, optional_text(class), text),
{
    if !admits_source(config, class) {
        return Some(Skip::Denied);
    }
    match text {
        None => Some(Skip::NoText),
        Some(t) => if config.ignore_whitespace_only && is_blank(t) {
            Some(Skip::Blank)
        } else if t.len() > config.max_item_bytes {
            Some(Skip::TooLarge)
        } else {
            None
        },
    }
}

/// Stores a text from this source, or skips it.
pub fn capture(
    config: &Config,
    class: Option<&str>,
    text: Option<&str>,
    store: &mut Store,
) -> (done: Result<Captured, StoreError>)
    ensures
        match reason_to_skip(*config, optional_text(class), text) {
            Some(why) => {
                &&& done == Ok::<Captured, StoreError>(Captured::Skipped(why))
                &&& final(store)@ == old(store)@
            },
            None => match done {
                Ok(Captured::Stored { inserted, evicted: Ok(n) }) => old(store).is_own()
                    ==> is_stored(
                    *config,
                    text->0@,
                    old(store)@,
                    final(store)@,
                    inserted,
                    n as nat,
                ),
                Ok(Captured::Stored { inserted, evicted: Err(e) }) => e is Statement && (
                old(store).is_own() ==> exists|now: i64| #[trigger]
                    is_recorded(old(store)@, final(store)@, text->0@, now, inserted)
                        && is_clock_reading(now)),
                Ok(Captured::Skipped(_)) => false,
                Err(e) => e is Statement && (old(store).is_own() ==> final(store)@ == old(store)@),
            },
        },
        old(store).is_own() ==> old(store).keeps(*final(store)),
{
    if let Some(why) = skip_reason(config, class, text) {
        return Ok(Captured::Skipped(why));
    }
    let text = match text {
        Some(t) => t,
        None => return Ok(Captured::Skipped(Skip::NoText)),
    };
    let inserted = match store.insert(text) {
        Ok(inserted) => inserted,
        Err(e) => return Err(e),
    };
    let ghost between = store@;
    let evicted = store.evict(config.history_size);
    proof {
        if old(store).is_own() {
            let now = choose|now: i64| #[trigger]
                is_recorded(old(store)@, between, text@, now, inserted) && is_clock_reading(now);
            assert(is_recorded(old(store)@, between, text@, now, inserted));
            if let Ok(n) = evicted {
                assert(is_stored(*config, text@, old(store)@, store@, inserted, n as nat));
            }
        }
    }
    Ok(Captured::Stored { inserted, evicted })
}

/// After a text was stored, it is in the history, unless no unpinned entry is
/// kept at all; everything pinned is still there; and no more unpinned entries
/// are there than the configuration allows.
pub proof fn a_stored_text_is_kept(
    config: Config,
    text: Seq<char>,
    before: History,
    after: History,
    inserted: Inserted,
    evicted: nat,
)
    requires
        is_stored(config, text, before, after, inserted, evicted),
    ensures
        config.history_size > 0 ==> after.entries.contains_key(inserted.spec_id()),
        config.history_size > 0 && inserted is New ==> after.entries[inserted.spec_id()].content
            == text,
        forall|id: i64|
            before.entries.contains_key(id) && before.entries[id].pinned != 0
                ==> #[trigger] after.entries.contains_key(id),
        config.history_size <= i64::MAX ==> loose(after.entries).len()
            <= config.history_size,
{
    let (now, between) = choose|now: i64, between: History| #[trigger]
        is_recorded(before, between, text, now, inserted) && is_trimmed(
            between.entries,
            after.entries,
            row_limit(Some(config.history_size)),
        ) && after.last_id == between.last_id;
    let keep = row_limit(Some(config.history_size));
    if config.history_size > 0 {
        what_is_recorded_survives_eviction(
            before,
            between,
            after,
            text,
            now,
            inserted,
            keep,
        );
        what_is_recorded_reads_back(before, between, text, now, inserted);
    }
    eviction_spares_pinned_entries(between.entries, after.entries, keep);
    assert forall|id: i64|
        before.entries.contains_key(id)
            && before.entries[id].pinned != 0 implies #[trigger] after.entries.contains_key(
        id,
    ) by {
        assert(between.entries.contains_key(id) && between.entries[id].pinned
            == before.entries[id].pinned);
    }
}

/// What a denylisted application copies is never stored, whatever it is.
pub proof fn a_denied_source_is_never_recorded(
    config: Config,
    class: Seq<char>,
    text: Option<&str>,
)
    requires
        config.denied(class),
    ensures
        !admits(config, Some(class)),
        reason_to_skip(config, Some(class), text) == Some(Skip::Denied),
{
}

/// A copy that cannot be attributed is never denied: it is stored or skipped
/// for what it is.
pub proof fn an_unattributable_copy_is_not_denied(config: Config, text: Option<&str>)
    ensures
        admits(config, None),
        reason_to_skip(config, None, text) != Some(Skip::Denied),
        text matches Some(t) ==> (!blank(t@) && t.len() <= config.max_item_bytes
            ==> reason_to_skip(config, None, text) is None),
{
}

/// A copy is skipped for one of four reasons and no other: its application is
/// on the denylist, it has no text, it is nothing but whitespace and those are
/// not wanted, or it is too large. Which application it came from, if that is
/// not denied, makes no difference.
pub proof fn a_copy_is_skipped_for_a_reason_only(
    config: Config,
    class: Option<Seq<char>>,
    text: Option<&str>,
)
    ensures
        ({
            let denied = class matches Some(c) && exists|i: int|
                0 <= i < config.privacy.denylist@.len() && denies(
                    (#[trigger] config.privacy.denylist@[i])@,
                    c,
                );
            let reason = reason_to_skip(config, class, text);
            &&& reason == Some(Skip::Denied) <==> denied
            &&& reason == Some(Skip::NoText) <==> !denied && text is None
            &&& reason == Some(Skip::Blank) ==> config.ignore_whitespace_only && (text matches Some(
                t,
            ) && forall|k: int| 0 <= k < t@.len() ==> is_white(#[trigger] t@[k]))
            &&& reason == Some(Skip::TooLarge) ==> (text matches Some(t) && t.len()
                > config.max_item_bytes)
            &&& text matches Some(t) ==> (!denied && t.len() <= config.max_item_bytes && (
            !config.ignore_whitespace_only || exists|k: int|
                0 <= k < t@.len() && !is_white(#[trigger] t@[k])) ==> reason is None)
            &&& !denied ==> reason == reason_to_skip(config, None, text)
        }),
{
}

/// Storing a text counts: the history then holds as many unpinned entries as
/// before, and one more for a new text, unless that is more than the
/// configuration allows, and as many as it allows then. That many are evicted
/// as are in excess. Every entry that stays, but for the one that was stored,
/// is as it was.
pub proof fn storing_keeps_count(
    config: Config,
    text: Seq<char>,
    before: History,
    after: History,
    inserted: Inserted,
    evicted: nat,
)
    requires
        is_stored(config, text, before, after, inserted, evicted),
        config.history_size <= i64::MAX,
    ensures
        ({
            let were = before.entries.dom().filter(|id: i64| before.entries[id].pinned == 0).len();
            let are = after.entries.dom().filter(|id: i64| after.entries[id].pinned == 0).len();
            let come = were + if inserted is New {
                1int
            } else {
                0
            };
            &&& are == if come <= config.history_size {
                come
            } else {
                config.history_size as int
            }
            &&& evicted == come - are
        }),
        forall|id: i64|
            id != inserted.spec_id() && #[trigger] after.entries.contains_key(id)
                ==> before.entries.contains_key(id) && after.entries[id] == before.entries[id],
{
    let (now, between) = choose|now: i64, between: History| #[trigger]
        is_recorded(before, between, text, now, inserted) && is_clock_reading(now) && is_trimmed(
            between.entries,
            after.entries,
            row_limit(Some(config.history_size)),
        ) && after.last_id == between.last_id && evicted == loose(between.entries).len() - loose(
            after.entries,
        ).len();
    let were = before.entries.dom().filter(|id: i64| before.entries[id].pinned == 0);
    assert(loose(after.entries) =~= after.entries.dom().filter(
        |id: i64| after.entries[id].pinned == 0,
    ));
    eviction_leaves_as_many_as_asked_for(between.entries, after.entries, config.history_size);
    assert(loose(between.entries) =~= between.entries.dom().filter(
        |id: i64| between.entries[id].pinned == 0,
    ));
    recording_leaves_the_others_alone(before, between, text, now, inserted);
    let id = inserted.spec_id();
    if inserted is New {
        assert(loose(between.entries) =~= were.insert(id)) by {
            assert forall|x: i64| loose(between.entries).contains(x) <==> were.insert(
                id,
            ).contains(x) by {
                assert(between.entries.contains_key(x) == before.entries.contains_key(x) || x
                    == id);
            }
        }
        assert(were =~= loose(between.entries).remove(id));
    } else {
        assert(loose(between.entries) =~= were) by {
            assert forall|x: i64| loose(between.entries).contains(x) <==> were.contains(x) by {
                assert(between.entries.contains_key(x) == before.entries.contains_key(x));
            }
        }
    }
    assert forall|x: i64| x != id && #[trigger] after.entries.contains_key(
        x,
    ) implies before.entries.contains_key(x) && after.entries[x] == before.entries[x] by {
        assert(between.entries.contains_key(x) == before.entries.contains_key(x));
    }
}

} // verus!

//! The picker: the query, the selection, and the last list the daemon handed
//! over. Everything else is the daemon's; what the picker wants done it asks
//! for, and it is told the outcome.

use crate::cli::{describe, is_described, is_unexpected, unexpected, Complaint};
use crate::filter::{fuzzy_score, score};
use crate::history::{differ_at_most_in, removing_takes_the_named_entries_only, History};
use crate::ipc::{Request, Response, Summary};
use crate::ranking::{is_ranking, rank, ranks_before, scores_have_one_ranking};
use crate::rows::{haystack, haystack_of};
use crate::server::Facts;
use crate::text::{
    blank, blanks_around_are_trimmed, trim, trimmed, trimming_leaves_nothing_of_blanks_only,
};
use vstd::prelude::*;
use vstd::string::*;

verus! {

/// What a keypress or a click asked for.
#[derive(Debug, Copy, Clone, PartialEq, Eq, Structural)]
pub enum Action {
    Nothing,
    Close,
    Copy,
    Down,
    Up,
    TogglePin,
    Delete,
    ClearQuery,
}

/// The keys that mean something, each with what is held down with it.
#[derive(Debug, Copy, Clone, PartialEq, Eq, Structural)]
pub enum Chord {
    Escape,
    Enter,
    ArrowDown,
    ArrowUp,
    CtrlN,
    CtrlJ,
    CtrlK,
    CtrlP,
    CtrlD,
    CtrlU,
}

/// What a chord asks for.
pub fn action_for(chord: Chord) -> (action: Action)
    ensures
        action is Close <==> chord is Escape,
        action is Copy <==> chord is Enter,
        action is Down <==> chord is ArrowDown || chord is CtrlN || chord is CtrlJ,
        action is Up <==> chord is ArrowUp || chord is CtrlK,
        action is TogglePin <==> chord is CtrlP,
        action is Delete <==> chord is CtrlD,
        action is ClearQuery <==> chord is CtrlU,
{
    match chord {
        Chord::Escape => Action::Close,
        Chord::Enter => Action::Copy,
        Chord::ArrowDown => Action::Down,
        Chord::CtrlN => Action::Down,
        Chord::CtrlJ => Action::Down,
        Chord::ArrowUp => Action::Up,
        Chord::CtrlK => Action::Up,
        Chord::CtrlP => Action::TogglePin,
        Chord::CtrlD => Action::Delete,
        Chord::CtrlU => Action::ClearQuery,
    }
}

/// The chords in the order in which they are looked for.
pub fn chords() -> (order: Vec<Chord>)
    ensures
        order@ == seq![
            Chord::Escape,
            Chord::Enter,
            Chord::ArrowDown,
            Chord::CtrlN,
            Chord::CtrlJ,
            Chord::ArrowUp,
            Chord::CtrlK,
            Chord::CtrlP,
            Chord::CtrlD,
            Chord::CtrlU,
        ],
{
    vec![
        Chord::Escape,
        Chord::Enter,
        Chord::ArrowDown,
        Chord::CtrlN,
        Chord::CtrlJ,
        Chord::ArrowUp,
        Chord::CtrlK,
        Chord::CtrlP,
        Chord::CtrlD,
        Chord::CtrlU,
    ]
}

/// What is to be done with the daemon's answer.
#[derive(Debug, Copy, Clone, PartialEq, Eq, Structural)]
pub enum Then {
    /// Put the entry on the clipboard.
    Copy,
    /// Load the list again and go after this entry: pinning moves it.
    Follow(i64),
    /// Load the list again.
    Reload,
    /// Show the list, and go after this entry.
    Show(Option<i64>),
}

/// What the picker wants done.
#[derive(Debug)]
pub enum Effect {
    Nothing,
    /// Close the window.
    Close,
    /// Send this to the daemon, and hand the answer back with `then`.
    Ask { request: Request, then: Then },
    /// Put this on the clipboard, and say how it went.
    PutOnClipboard(String),
}

/// What a picker holds.
#[verifier::ext_equal]
pub struct PickerView {
    pub limit: Option<usize>,
    pub pinned_only: bool,
    pub close_on_blur: bool,
    pub query: Seq<char>,
    pub items: Seq<Summary>,
    pub visible: Seq<usize>,
    pub selected: nat,
    pub status: Option<Complaint>,
    pub seen_focus: bool,
    pub scroll_pending: bool,
}

/// The scores of the items for a query.
pub open spec fn scores_of(items: Seq<Summary>, query: Seq<char>) -> Seq<Option<i32>> {
    Seq::new(items.len(), |i: int| fuzzy_score(haystack_of(items[i]), query))
}

/// Every place, in order.
pub open spec fn every_place(count: nat) -> Seq<usize> {
    Seq::new(count, |i: int| i as usize)
}

/// What is shown of the items: all of them, in the daemon's order, where the
/// query is blank; otherwise those that match, the best first.
pub open spec fn is_shown(items: Seq<Summary>, query: Seq<char>, visible: Seq<usize>) -> bool {
    if trimmed(query).len() == 0 {
        visible == every_place(items.len())
    } else {
        is_ranking(scores_of(items, trimmed(query)), visible)
    }
}

/// The row that stands for `row` in a list of `count` rows.
pub open spec fn clamped(row: nat, count: nat) -> nat {
    if count == 0 {
        0
    } else if row < count {
        row
    } else {
        (count - 1) as nat
    }
}

/// The first row that shows the entry with this id.
pub open spec fn is_row_of(items: Seq<Summary>, visible: Seq<usize>, id: i64, row: int) -> bool {
    &&& 0 <= row < visible.len()
    &&& items[visible[row] as int].id == id
    &&& forall|r: int| 0 <= r < row ==> items[(#[trigger] visible[r]) as int].id != id
}

/// The entry with this id is on one of the rows.
pub open spec fn has_row(items: Seq<Summary>, visible: Seq<usize>, id: i64) -> bool {
    exists|r: int| 0 <= r < visible.len() && items[(#[trigger] visible[r]) as int].id == id
}

impl PickerView {
    /// Every row shows an item, no two the same, and the selection is one of
    /// them.
    pub open spec fn valid(self) -> bool {
        &&& forall|r: int|
            0 <= r < self.visible.len() ==> (#[trigger] self.visible[r]) < self.items.len()
        &&& forall|r: int, q: int|
            0 <= r < q < self.visible.len() ==> #[trigger] self.visible[r]
                != #[trigger] self.visible[q]
        &&& self.selected == clamped(self.selected, self.visible.len())
    }

    /// The rows are what the query makes of the items.
    pub open spec fn filtered(self) -> bool {
        is_shown(self.items, self.query, self.visible)
    }

    /// The selected entry.
    pub open spec fn selection(self) -> Option<Summary> {
        if self.selected < self.visible.len() {
            Some(self.items[self.visible[self.selected as int] as int])
        } else {
            None
        }
    }

    /// This, with the query run over the items again.
    pub open spec fn refiltered(self, visible: Seq<usize>) -> PickerView {
        PickerView {
            visible,
            selected: clamped(self.selected, visible.len()),
            scroll_pending: true,
            ..self
        }
    }

    /// One row down, or up; past the last comes the first.
    pub open spec fn moved(self, down: bool) -> PickerView {
        let count = self.visible.len();
        if count == 0 {
            self
        } else {
            PickerView {
                selected: if down {
                    if self.selected + 1 < count {
                        self.selected + 1
                    } else {
                        0
                    }
                } else if self.selected > 0 {
                    (self.selected - 1) as nat
                } else {
                    (count - 1) as nat
                },
                scroll_pending: true,
                ..self
            }
        }
    }

    /// `next` is this with the entry selected, where it is on a row, and this
    /// itself where it is not.
    pub open spec fn selects(self, id: i64, next: PickerView) -> bool {
        if has_row(self.items, self.visible, id) {
            &&& is_row_of(self.items, self.visible, id, next.selected as int)
            &&& next == (PickerView { selected: next.selected, scroll_pending: true, ..self })
        } else {
            next == self
        }
    }

    /// `next` is this after going after an entry, if there is one to go after.
    pub open spec fn follows(self, id: Option<i64>, next: PickerView) -> bool {
        match id {
            Some(id) => self.selects(id, next),
            None => next == self,
        }
    }

    /// The list to load.
    pub open spec fn list_request(self) -> Request {
        Request::List { limit: self.limit, pinned_only: self.pinned_only }
    }

    /// `next` is this with a complaint on the hint bar.
    pub open spec fn complains(self, outcome: Result<Response, String>, next: PickerView) -> bool {
        &&& next == (PickerView { status: next.status, ..self })
        &&& next.status matches Some(complaint) && (match outcome {
            Ok(response) => is_described(response, complaint),
            Err(text) => complaint == Complaint::Message(text),
        })
    }

    /// What an action makes of this, and what it wants done.
    pub open spec fn is_applied(self, action: Action, next: PickerView, effect: Effect) -> bool {
        match action {
            Action::Nothing => next == self && effect is Nothing,
            Action::Close => next == self && effect is Close,
            Action::Copy => next == self && effect == self.copy_effect(),
            Action::Down => next == self.moved(true) && effect is Nothing,
            Action::Up => next == self.moved(false) && effect is Nothing,
            Action::TogglePin => next == self && effect == (match self.selection() {
                Some(item) => Effect::Ask {
                    request: Request::SetPinned { id: item.id, pinned: !item.pinned },
                    then: Then::Follow(item.id),
                },
                None => Effect::Nothing,
            }),
            Action::Delete => next == self && effect == (match self.selection() {
                Some(item) => Effect::Ask {
                    request: Request::Remove { id: item.id },
                    then: Then::Reload,
                },
                None => Effect::Nothing,
            }),
            Action::ClearQuery => {
                let cleared = PickerView { query: Seq::empty(), ..self };
                next == cleared.refiltered(every_place(self.items.len())) && effect is Nothing
            },
        }
    }

    /// Copying fetches the selected entry first: a list only carries previews.
    pub open spec fn copy_effect(self) -> Effect {
        match self.selection() {
            Some(item) => Effect::Ask { request: Request::Get { id: item.id }, then: Then::Copy },
            None => Effect::Nothing,
        }
    }

    /// What the daemon's answer makes of this, and what is wanted next.
    pub open spec fn is_answered(
        self,
        then: Then,
        outcome: Result<Response, String>,
        next: PickerView,
        effect: Effect,
    ) -> bool {
        match (then, outcome) {
            (Then::Copy, Ok(Response::Item(item))) => next == self && effect
                == Effect::PutOnClipboard(item.content),
            (Then::Follow(id), Ok(Response::Affected(_))) => next == self && effect == (
            Effect::Ask { request: self.list_request(), then: Then::Show(Some(id)) }),
            (Then::Reload, Ok(Response::Affected(_))) => next == self && effect == (Effect::Ask {
                request: self.list_request(),
                then: Then::Show(None),
            }),
            (Then::Show(id), Ok(Response::Items(items))) => {
                let loaded = PickerView { items: items@, ..self };
                &&& effect is Nothing
                &&& next.filtered()
                &&& loaded.refiltered(next.visible).follows(id, next)
            },
            (Then::Show(id), _) => {
                let told = PickerView { status: next.status, ..self };
                effect is Nothing && self.complains(outcome, told) && told.follows(id, next)
            },
            _ => effect is Nothing && self.complains(outcome, next),
        }
    }
}

/// The picker's state.
pub struct Picker {
    limit: Option<usize>,
    pinned_only: bool,
    close_on_blur: bool,
    query: String,
    /// Newest-first, pinned-first, exactly as the daemon returned it.
    items: Vec<Summary>,
    /// Indices into `items`, in display order after filtering.
    visible: Vec<usize>,
    /// Index into `visible`, not into `items`.
    selected: usize,
    status: Option<Complaint>,
    /// A window that has never been focused must not close on "focus lost" —
    /// under some compositors that is the state it starts in.
    seen_focus: bool,
    scroll_pending: bool,
}

impl View for Picker {
    type V = PickerView;

    closed spec fn view(&self) -> PickerView {
        PickerView {
            limit: self.limit,
            pinned_only: self.pinned_only,
            close_on_blur: self.close_on_blur,
            query: self.query@,
            items: self.items@,
            visible: self.visible@,
            selected: self.selected as nat,
            status: self.status,
            seen_focus: self.seen_focus,
            scroll_pending: self.scroll_pending,
        }
    }
}

/// The rows to show of `items`.
pub fn filter_items(items: &Vec<Summary>, query: &str) -> (visible: Vec<usize>)
    ensures
        is_shown(items@, query@, visible@),
{
    let query = trim(query);
    if query.as_str().is_empty() {
        let mut visible: Vec<usize> = Vec::new();
        let mut i: usize = 0;
        while i < items.len()
            invariant
                i <= items@.len(),
                visible@ == every_place(i as nat),
            decreases items@.len() - i,
        {
            visible.push(i);
            i += 1;
            proof {
                assert(visible@ =~= every_place(i as nat));
            }
        }
        visible
    } else {
        let mut scores: Vec<Option<i32>> = Vec::new();
        let mut i: usize = 0;
        while i < items.len()
            invariant
                i == scores@.len() <= items@.len(),
                forall|k: int|
                    0 <= k < i ==> #[trigger] scores@[k] == fuzzy_score(
                        haystack_of(items@[k]),
                        query@,
                    ),
            decreases items@.len() - i,
        {
            let hay = haystack(&items[i]);
            scores.push(score(hay.as_str(), query.as_str()));
            i += 1;
        }
        proof {
            assert(scores@ =~= scores_of(items@, query@));
        }
        rank(&scores)
    }
}

/// Filtering leaves rows that all show an item, no two the same.
proof fn lemma_shown_is_valid(items: Seq<Summary>, query: Seq<char>, visible: Seq<usize>)
    requires
        is_shown(items, query, visible),
        items.len() <= usize::MAX,
    ensures
        forall|r: int| 0 <= r < visible.len() ==> (#[trigger] visible[r]) < items.len(),
        forall|r: int, q: int|
            0 <= r < q < visible.len() ==> #[trigger] visible[r] != #[trigger] visible[q],
{
    if trimmed(query).len() != 0 {
        let scores = scores_of(items, trimmed(query));
        assert forall|r: int, q: int| 0 <= r < q < visible.len() implies #[trigger] visible[r]
            != #[trigger] visible[q] by {
            assert(ranks_before(scores, visible[r], visible[q]));
        }
    }
}

impl Picker {
    /// Every picker is valid, at all times.
    #[verifier::type_invariant]
    spec fn well_formed(self) -> bool {
        self@.valid()
    }

    /// A picker on a list that the daemon returned.
    pub fn new(
        items: Vec<Summary>,
        limit: Option<usize>,
        pinned_only: bool,
        close_on_blur: bool,
    ) -> (picker: Self)
        ensures
            picker@.valid(),
            picker@.filtered(),
            picker@ == (PickerView {
                limit,
                pinned_only,
                close_on_blur,
                query: Seq::empty(),
                items: items@,
                visible: every_place(items@.len()),
                selected: 0,
                status: None,
                seen_focus: false,
                scroll_pending: true,
            }),
    {
        let mut picker = Picker {
            limit,
            pinned_only,
            close_on_blur,
            query: String::new(),
            items,
            visible: Vec::new(),
            selected: 0,
            status: None,
            seen_focus: false,
            scroll_pending: false,
        };
        picker.refilter();
        proof {
            assert(picker@.query =~= Seq::empty());
        }
        picker
    }

    /// Re-run the query over the items. Order is the daemon's when the query
    /// is empty — that ordering is the product's core promise and a fuzzy
    /// score has no business overriding it for free.
    fn refilter(&mut self)
        ensures
            final(self)@.valid(),
            final(self)@.filtered(),
            final(self)@ == old(self)@.refiltered(final(self)@.visible),
    {
        proof {
            use_type_invariant(&*self);
        }
        let visible = filter_items(&self.items, self.query.as_str());
        proof {
            assert(self.items@.len() <= usize::MAX) by {
                assert(self.items.len() <= usize::MAX);
            }
            lemma_shown_is_valid(self.items@, self.query@, visible@);
        }
        let count: usize = visible.len();
        let selected: usize = if count == 0 {
            0
        } else if self.selected >= count {
            count - 1
        } else {
            self.selected
        };
        self.selected = 0;
        self.visible = visible;
        self.selected = selected;
        self.scroll_pending = true;
    }

    /// Shows another list. The selection stays on its row.
    fn show(&mut self, items: Vec<Summary>)
        ensures
            final(self)@.valid(),
            final(self)@.filtered(),
            final(self)@ == (PickerView { items: items@, ..old(self)@ }).refiltered(
                final(self)@.visible,
            ),
    {
        proof {
            use_type_invariant(&*self);
        }
        let selected: usize = self.selected;
        self.selected = 0;
        self.visible = Vec::new();
        self.items = items;
        self.refilter();
        let count: usize = self.visible.len();
        if count > 0 {
            self.selected = if selected < count {
                selected
            } else {
                count - 1
            };
        }
    }

    /// Takes in what the user made of the query. The selection goes to the
    /// top.
    pub fn set_query(&mut self, query: String)
        ensures
            final(self)@.valid(),
            final(self)@.filtered(),
            final(self)@ == (PickerView { query: query@, selected: 0, ..old(self)@ }).refiltered(
                final(self)@.visible,
            ),
    {
        proof {
            use_type_invariant(&*self);
        }
        self.query = query;
        self.selected = 0;
        self.refilter();
    }

    fn reload(&self, follow: Option<i64>) -> (effect: Effect)
        ensures
            effect == (Effect::Ask { request: self@.list_request(), then: Then::Show(follow) }),
    {
        Effect::Ask {
            request: Request::List { limit: self.limit, pinned_only: self.pinned_only },
            then: Then::Show(follow),
        }
    }

    /// The selected entry.
    pub fn selected_item(&self) -> (item: Option<&Summary>)
        ensures
            match item {
                Some(item) => self@.selection() == Some(*item),
                None => self@.selection() is None,
            },
    {
        proof {
            use_type_invariant(self);
        }
        if self.selected < self.visible.len() {
            Some(&self.items[self.visible[self.selected]])
        } else {
            None
        }
    }

    /// Carries out what a key asked for. Any deliberate keypress clears a
    /// stale error off the hint bar.
    pub fn press(&mut self, action: Action) -> (effect: Effect)
        ensures
            final(self)@.valid(),
            old(self)@.filtered() ==> final(self)@.filtered(),
            (if action is Nothing {
                old(self)@
            } else {
                PickerView { status: None, ..old(self)@ }
            }).is_applied(action, final(self)@, effect),
    {
        proof {
            use_type_invariant(&*self);
        }
        match action {
            Action::Nothing => {},
            _ => {
                self.status = None;
            },
        }
        self.apply(action)
    }

    fn apply(&mut self, action: Action) -> (effect: Effect)
        ensures
            final(self)@.valid(),
            old(self)@.filtered() ==> final(self)@.filtered(),
            old(self)@.is_applied(action, final(self)@, effect),
    {
        proof {
            use_type_invariant(&*self);
        }
        match action {
            Action::Nothing => Effect::Nothing,
            Action::Close => Effect::Close,
            Action::Copy => self.copy_selected(),
            Action::Down => {
                self.move_selection(1);
                Effect::Nothing
            },
            Action::Up => {
                self.move_selection(-1);
                Effect::Nothing
            },
            Action::TogglePin => self.toggle_pin(),
            Action::Delete => self.delete_selected(),
            Action::ClearQuery => {
                self.query = String::new();
                proof {
                    assert(self.query@ =~= Seq::empty());
                }
                self.refilter();
                Effect::Nothing
            },
        }
    }

    /// Moves the selection one row, down or, for a negative `delta`, up.
    pub fn move_selection(&mut self, delta: isize)
        ensures
            final(self)@.valid(),
            final(self)@ == old(self)@.moved(delta >= 0),
            old(self)@.visible.len() == 0 ==> final(self)@ == old(self)@,
            old(self)@.visible.len() > 0 ==> final(self)@.selected == (old(self)@.selected + (
            if delta >= 0 {
                1
            } else {
                old(self)@.visible.len() - 1
            })) % old(self)@.visible.len() as int,
            final(self)@ == (PickerView {
                selected: final(self)@.selected,
                scroll_pending: final(self)@.scroll_pending,
                ..old(self)@
            }),
    {
        proof {
            use_type_invariant(&*self);
            a_move_is_one_row(old(self)@);
        }
        if self.visible.len() == 0 {
            return ;
        }
        let last: usize = self.visible.len() - 1;
        if delta < 0 {
            if self.selected > 0 {
                self.selected = self.selected - 1;
            } else {
                self.selected = last;
            }
        } else if self.selected >= last {
            self.selected = 0;
        } else {
            self.selected = self.selected + 1;
        }
        self.scroll_pending = true;
    }

    fn copy_selected(&self) -> (effect: Effect)
        ensures
            effect == self@.copy_effect(),
    {
        match self.selected_item() {
            Some(item) => Effect::Ask { request: Request::Get { id: item.id }, then: Then::Copy },
            None => Effect::Nothing,
        }
    }

    fn toggle_pin(&self) -> (effect: Effect)
        ensures
            self@.is_applied(Action::TogglePin, self@, effect),
    {
        match self.selected_item() {
            Some(item) => Effect::Ask {
                request: Request::SetPinned { id: item.id, pinned: !item.pinned },
                then: Then::Follow(item.id),
            },
            None => Effect::Nothing,
        }
    }

    fn delete_selected(&self) -> (effect: Effect)
        ensures
            self@.is_applied(Action::Delete, self@, effect),
    {
        match self.selected_item() {
            Some(item) => Effect::Ask {
                request: Request::Remove { id: item.id },
                then: Then::Reload,
            },
            None => Effect::Nothing,
        }
    }

    fn select_id(&mut self, id: i64)
        ensures
            final(self)@.valid(),
            old(self)@.selects(id, final(self)@),
    {
        proof {
            use_type_invariant(&*self);
        }
        let mut row: usize = 0;
        while row < self.visible.len()
            invariant
                self@ == old(self)@,
                self@.valid(),
                row <= self@.visible.len(),
                forall|r: int|
                    0 <= r < row ==> self@.items[(#[trigger] self@.visible[r]) as int].id != id,
            decreases self@.visible.len() - row,
        {
            if self.items[self.visible[row]].id == id {
                self.selected = row;
                self.scroll_pending = true;
                proof {
                    assert(is_row_of(self@.items, self@.visible, id, row as int));
                }
                return ;
            }
            row += 1;
        }
    }

    fn complain(&mut self, outcome: Result<Response, String>)
        ensures
            final(self)@.valid(),
            old(self)@.complains(outcome, final(self)@),
    {
        proof {
            use_type_invariant(&*self);
        }
        let complaint = match outcome {
            Ok(response) => describe(response),
            Err(text) => Complaint::Message(text),
        };
        self.status = Some(complaint);
    }

    /// Takes in what became of a request.
    pub fn reply(&mut self, then: Then, outcome: Result<Response, String>) -> (effect: Effect)
        ensures
            final(self)@.valid(),
            old(self)@.filtered() ==> final(self)@.filtered(),
            old(self)@.is_answered(then, outcome, final(self)@, effect),
    {
        proof {
            use_type_invariant(&*self);
        }
        match then {
            Then::Copy => match outcome {
                Ok(Response::Item(item)) => Effect::PutOnClipboard(item.content),
                other => {
                    self.complain(other);
                    Effect::Nothing
                },
            },
            Then::Follow(id) => match outcome {
                Ok(Response::Affected(_)) => self.reload(Some(id)),
                other => {
                    self.complain(other);
                    Effect::Nothing
                },
            },
            Then::Reload => match outcome {
                Ok(Response::Affected(_)) => self.reload(None),
                other => {
                    self.complain(other);
                    Effect::Nothing
                },
            },
            Then::Show(follow) => {
                match outcome {
                    Ok(Response::Items(items)) => self.show(items),
                    other => self.complain(other),
                }
                if let Some(id) = follow {
                    self.select_id(id);
                }
                Effect::Nothing
            },
        }
    }

    /// Takes in whether the text reached the clipboard. Staying open after a
    /// successful copy would mean the next window you type into is this one.
    pub fn copied(&mut self, outcome: Result<(), String>) -> (effect: Effect)
        ensures
            final(self)@.valid(),
            match outcome {
                Ok(_) => final(self)@ == old(self)@ && effect is Close,
                Err(text) => effect is Nothing && final(self)@ == (PickerView {
                    status: Some(Complaint::Message(text)),
                    ..old(self)@
                }),
            },
    {
        proof {
            use_type_invariant(&*self);
        }
        match outcome {
            Ok(_) => Effect::Close,
            Err(text) => {
                self.status = Some(Complaint::Message(text));
                Effect::Nothing
            },
        }
    }

    /// Selects a row and copies what is on it.
    pub fn click(&mut self, row: usize) -> (effect: Effect)
        requires
            row < old(self)@.visible.len(),
        ensures
            final(self)@.valid(),
            final(self)@ == (PickerView { selected: row as nat, ..old(self)@ }),
            effect == final(self)@.copy_effect(),
    {
        proof {
            use_type_invariant(&*self);
        }
        self.selected = row;
        self.copy_selected()
    }

    /// Takes in what is known of the focus, and tells whether to close: when
    /// it goes elsewhere, the way a menu does. A picker left behind on another
    /// workspace is worse than one that has to be re-summoned, which is a
    /// keystroke.
    pub fn lost_focus(&mut self, focused: Option<bool>) -> (closes: bool)
        ensures
            final(self)@.valid(),
            final(self)@ == (PickerView {
                seen_focus: old(self)@.seen_focus || focused == Some(true),
                ..old(self)@
            }),
            closes == (focused == Some(false) && old(self)@.close_on_blur && old(self)@.seen_focus),
    {
        proof {
            use_type_invariant(&*self);
        }
        match focused {
            Some(true) => {
                self.seen_focus = true;
                false
            },
            Some(false) => self.close_on_blur && self.seen_focus,
            None => false,
        }
    }

    /// Takes in that the selected row was scrolled to.
    pub fn scrolled(&mut self)
        ensures
            final(self)@.valid(),
            final(self)@ == (PickerView { scroll_pending: false, ..old(self)@ }),
    {
        proof {
            use_type_invariant(&*self);
        }
        self.scroll_pending = false;
    }

    /// The query as it stands.
    pub fn query(&self) -> (query: &str)
        ensures
            query@ == self@.query,
    {
        self.query.as_str()
    }

    /// What stands in place of the rows, if there are none.
    pub fn note(&self) -> (note: Option<&'static str>)
        ensures
            match note {
                Some(text) => self@.visible.len() == 0 && text@ == (if self@.items.len() == 0 {
                    "history is empty"@
                } else {
                    "no match"@
                }),
                None => self@.visible.len() > 0,
            },
    {
        if self.visible.len() > 0 {
            None
        } else if self.items.len() == 0 {
            Some("history is empty")
        } else {
            Some("no match")
        }
    }

    /// How many items there are to filter.
    pub fn item_count(&self) -> (count: usize)
        ensures
            count == self@.items.len(),
    {
        self.items.len()
    }

    /// How many rows there are.
    pub fn row_count(&self) -> (count: usize)
        ensures
            count == self@.visible.len(),
    {
        self.visible.len()
    }

    /// The item on a row.
    pub fn row(&self, row: usize) -> (item: &Summary)
        requires
            row < self@.visible.len(),
        ensures
            *item == self@.items[self@.visible[row as int] as int],
    {
        proof {
            use_type_invariant(self);
        }
        &self.items[self.visible[row]]
    }

    /// The selected row.
    pub fn selected(&self) -> (row: usize)
        ensures
            row == self@.selected,
    {
        self.selected
    }

    /// What the hint bar has to say, if anything went wrong.
    pub fn status(&self) -> (status: &Option<Complaint>)
        ensures
            *status == self@.status,
    {
        &self.status
    }

    /// Whether the selected row has yet to be scrolled to.
    pub fn scroll_pending(&self) -> (pending: bool)
        ensures
            pending == self@.scroll_pending,
    {
        self.scroll_pending
    }
}

/// The request for the list to open the picker on.
pub fn list_request(limit: usize, all: bool, pinned_only: bool) -> (request: Request)
    ensures
        request == (Request::List {
            limit: if all {
                None
            } else {
                Some(limit)
            },
            pinned_only,
        }),
{
    Request::List {
        limit: if all {
            None
        } else {
            Some(limit)
        },
        pinned_only,
    }
}

/// The list to open the picker on, or why there is none.
pub fn opening_list(response: Response) -> (items: Result<Vec<Summary>, Complaint>)
    ensures
        match response {
            Response::Items(listed) => items == Ok::<Vec<Summary>, Complaint>(listed),
            _ => items matches Err(complaint) && is_unexpected(response, complaint),
        },
{
    match response {
        Response::Items(items) => Ok(items),
        other => Err(unexpected(other)),
    }
}

/// Where the query is blank the rows are the daemon's list, in the daemon's
/// order.
pub proof fn an_empty_query_keeps_the_daemons_order(
    items: Seq<Summary>,
    query: Seq<char>,
    visible: Seq<usize>,
)
    requires
        is_shown(items, query, visible),
        items.len() <= usize::MAX,
        blank(query),
    ensures
        visible.len() == items.len(),
        forall|r: int| 0 <= r < items.len() ==> #[trigger] visible[r] == r,
{
    trimming_leaves_nothing_of_blanks_only(query);
}

/// The rows are exactly the items that match the query.
pub proof fn the_rows_are_the_matches(
    items: Seq<Summary>,
    query: Seq<char>,
    visible: Seq<usize>,
    i: int,
)
    requires
        is_shown(items, query, visible),
        items.len() <= usize::MAX,
        0 <= i < items.len(),
    ensures
        visible.contains(i as usize) <==> fuzzy_score(
            haystack_of(items[i]),
            trimmed(query),
        ) is Some,
{
    if trimmed(query).len() == 0 {
        assert(blank(trimmed(query)));
        assert(visible[i] == i as usize);
    } else {
        let scores = scores_of(items, trimmed(query));
        assert(scores[i] == fuzzy_score(haystack_of(items[i]), trimmed(query)));
        if visible.contains(i as usize) {
            let r = choose|r: int| 0 <= r < visible.len() && visible[r] == i as usize;
            assert(scores[visible[r] as int] is Some);
        }
    }
}

/// A better match is never below a worse one, and equal matches keep the
/// daemon's order.
pub proof fn better_matches_come_first(
    items: Seq<Summary>,
    query: Seq<char>,
    visible: Seq<usize>,
    upper: int,
    lower: int,
)
    requires
        is_shown(items, query, visible),
        items.len() <= usize::MAX,
        0 <= upper < lower < visible.len(),
    ensures
        ({
            let first = fuzzy_score(haystack_of(items[visible[upper] as int]), trimmed(query));
            let second = fuzzy_score(haystack_of(items[visible[lower] as int]), trimmed(query));
            &&& first is Some && second is Some
            &&& first->0 > second->0 || (first->0 == second->0 && visible[upper] < visible[lower])
        }),
{
    if trimmed(query).len() == 0 {
        assert(blank(trimmed(query)));
    } else {
        let scores = scores_of(items, trimmed(query));
        assert(scores[visible[upper] as int] is Some);
        assert(scores[visible[lower] as int] is Some);
        assert(ranks_before(scores, visible[upper], visible[lower]));
    }
}

/// The items and the query settle the rows: a list never reshuffles by itself.
pub proof fn a_query_shows_one_list(
    items: Seq<Summary>,
    query: Seq<char>,
    a: Seq<usize>,
    b: Seq<usize>,
)
    requires
        is_shown(items, query, a),
        is_shown(items, query, b),
    ensures
        a == b,
{
    if trimmed(query).len() > 0 {
        scores_have_one_ranking(scores_of(items, trimmed(query)), a, b);
    }
}

/// A move goes one row on, round the ends of the list, and changes nothing but
/// the selection.
pub proof fn a_move_is_one_row(picker: PickerView)
    requires
        picker.valid(),
    ensures
        picker.visible.len() == 0 ==> picker.moved(true) == picker && picker.moved(false) == picker,
        picker.visible.len() > 0 ==> picker.moved(true).selected == (picker.selected + 1)
            % picker.visible.len() && picker.moved(false).selected == (picker.selected
            + picker.visible.len() - 1) % picker.visible.len() as int,
        picker.moved(true).items == picker.items && picker.moved(false).items == picker.items,
        picker.moved(true).visible == picker.visible && picker.moved(false).visible
            == picker.visible,
        picker.moved(true).query == picker.query && picker.moved(false).query == picker.query,
{
    let count = picker.visible.len();
    let row = picker.selected;
    if count > 0 {
        if row + 1 < count {
            vstd::arithmetic::div_mod::lemma_small_mod((row + 1) as nat, count);
        } else {
            vstd::arithmetic::div_mod::lemma_mod_self_0(count as int);
        }
        if row > 0 {
            vstd::arithmetic::div_mod::lemma_small_mod((row - 1) as nat, count);
            vstd::arithmetic::div_mod::lemma_mod_add_multiples_vanish(row - 1, count as int);
            assert(row + count - 1 == count as int + (row - 1));
        } else {
            vstd::arithmetic::div_mod::lemma_small_mod((count - 1) as nat, count);
        }
    }
}

/// Down and up undo each other, at the ends of the list too.
pub proof fn down_and_up_undo_each_other(picker: PickerView)
    requires
        picker.valid(),
    ensures
        picker.moved(true).moved(false).selected == picker.selected,
        picker.moved(false).moved(true).selected == picker.selected,
        picker.moved(true).valid(),
        picker.moved(false).valid(),
{
}

/// A picker after going down a number of times.
pub open spec fn after_steps(picker: PickerView, steps: nat) -> PickerView
    decreases steps,
{
    if steps == 0 {
        picker
    } else {
        after_steps(picker, (steps - 1) as nat).moved(true)
    }
}

/// Going down reaches every row, one after the other, and comes round to the
/// first behind the last.
pub proof fn going_down_comes_round(picker: PickerView, steps: nat)
    requires
        picker.valid(),
        picker.visible.len() > 0,
    ensures
        after_steps(picker, steps).selected == (picker.selected + steps) % picker.visible.len(),
        after_steps(picker, steps).visible == picker.visible,
    decreases steps,
{
    let count = picker.visible.len() as int;
    if steps == 0 {
        vstd::arithmetic::div_mod::lemma_small_mod(picker.selected, count as nat);
    } else {
        going_down_comes_round(picker, (steps - 1) as nat);
        let before = picker.selected + steps - 1;
        vstd::arithmetic::div_mod::lemma_fundamental_div_mod(before, count);
        let (q, r) = (before / count, before % count);
        assert(0 <= r < count) by (nonlinear_arith)
            requires
                count > 0,
                r == before % count,
        ;
        if r + 1 < count {
            vstd::arithmetic::div_mod::lemma_fundamental_div_mod_converse(
                before + 1,
                count,
                q,
                r + 1,
            );
        } else {
            assert(before + 1 == count * (q + 1)) by (nonlinear_arith)
                requires
                    before == count * q + r,
                    r + 1 == count,
            ;
            vstd::arithmetic::div_mod::lemma_fundamental_div_mod_converse(
                before + 1,
                count,
                q + 1,
                0,
            );
        }
    }
}

/// Pinning moves an entry, and the selection goes with it: where the list that
/// comes back shows the entry, it is the one selected.
pub proof fn the_selection_follows_a_pinned_entry(
    picker: PickerView,
    id: i64,
    items: Vec<Summary>,
    next: PickerView,
    effect: Effect,
)
    requires
        picker.is_answered(Then::Show(Some(id)), Ok(Response::Items(items)), next, effect),
        has_row(items@, next.visible, id),
    ensures
        next.selection() matches Some(item) && item.id == id,
{
    let loaded = PickerView { items: items@, ..picker };
    assert(loaded.refiltered(next.visible).selects(id, next));
}

/// Where the query is blank, every entry that the daemon listed has a row.
pub proof fn every_listed_entry_has_a_row(
    items: Seq<Summary>,
    query: Seq<char>,
    visible: Seq<usize>,
    i: int,
)
    requires
        is_shown(items, query, visible),
        items.len() <= usize::MAX,
        blank(query),
        0 <= i < items.len(),
    ensures
        has_row(items, visible, items[i].id),
{
    an_empty_query_keeps_the_daemons_order(items, query, visible);
    assert(items[visible[i] as int].id == items[i].id);
}

/// Toggling a pin asks for the opposite of what the selected entry has, and for
/// no other change; the picker then goes after that entry.
pub proof fn toggling_flips_the_selected_pin(
    picker: PickerView,
    next: PickerView,
    effect: Effect,
    item: Summary,
    history: History,
)
    requires
        picker.is_applied(Action::TogglePin, next, effect),
        picker.selection() == Some(item),
        history.entries.contains_key(item.id),
        item.pinned <==> history.entries[item.id].pinned != 0,
    ensures
        next == picker,
        effect matches Effect::Ask { request, then } && then == Then::Follow(item.id)
            && differ_at_most_in(request.effect(history), history, item.id) && (request.effect(
            history,
        ).entries[item.id].pinned != 0 <==> history.entries[item.id].pinned == 0)
            && request.effect(history).entries[item.id].content
            == history.entries[item.id].content && request.effect(history).entries[item.id].label
            == history.entries[item.id].label,
{
}

/// Deleting asks for the selected entry to go, and for no other change; the
/// picker then loads its list again.
pub proof fn deleting_takes_the_selected_entry(
    picker: PickerView,
    next: PickerView,
    effect: Effect,
    item: Summary,
    history: History,
)
    requires
        picker.is_applied(Action::Delete, next, effect),
        picker.selection() == Some(item),
    ensures
        next == picker,
        effect matches Effect::Ask { request, then } && then == Then::Reload && differ_at_most_in(
            request.effect(history),
            history,
            item.id,
        ) && !request.effect(history).entries.contains_key(item.id),
{
    removing_takes_the_named_entries_only(history, set![item.id]);
}

/// Copying puts the whole content of the selected entry on the clipboard, as
/// the history has it, and changes nothing.
pub proof fn copying_hands_on_the_selected_entry(
    picker: PickerView,
    next: PickerView,
    effect: Effect,
    item: Summary,
    history: History,
    facts: Facts,
    response: Response,
    last: PickerView,
    then_effect: Effect,
)
    requires
        picker.is_applied(Action::Copy, next, effect),
        picker.selection() == Some(item),
        history.entries.contains_key(item.id),
        effect matches Effect::Ask { request, then } ==> request.is_answered(
            history,
            facts,
            response,
        ) && next.is_answered(then, Ok(response), last, then_effect),
    ensures
        last == picker,
        then_effect matches Effect::PutOnClipboard(text) && text@
            == history.entries[item.id].content,
        effect matches Effect::Ask { request, .. } && request.effect(history) == history,
{
}

/// Where nothing is selected no key asks the daemon for anything.
pub proof fn nothing_selected_asks_for_nothing(
    picker: PickerView,
    action: Action,
    next: PickerView,
    effect: Effect,
)
    requires
        picker.is_applied(action, next, effect),
        picker.selection() is None,
    ensures
        effect is Nothing || (action is Close && effect is Close),
{
}

/// Only the key that closes the window closes it at once, only the key that
/// clears the query changes it, and only the keys that move the selection move
/// it, as far as the rows stay.
pub proof fn a_key_does_its_own_work_only(
    picker: PickerView,
    action: Action,
    next: PickerView,
    effect: Effect,
)
    requires
        picker.valid(),
        picker.is_applied(action, next, effect),
    ensures
        effect is Close <==> action is Close,
        action is ClearQuery ==> next.query.len() == 0 && next.visible.len() == picker.items.len(),
        action !is ClearQuery ==> next.query == picker.query && next.visible == picker.visible,
        action !is ClearQuery && action !is Down && action !is Up ==> next == picker,
        next.items == picker.items && next.status == picker.status,
        effect !is PutOnClipboard,
{
}

/// A list is loaded again as it was first asked for, and an answer that does not
/// fit leaves the rows as they are and says why.
pub proof fn an_answer_fits_or_is_told(
    picker: PickerView,
    then: Then,
    outcome: Result<Response, String>,
    next: PickerView,
    effect: Effect,
)
    requires
        picker.is_answered(then, outcome, next, effect),
    ensures
        effect matches Effect::Ask { request, then: after } ==> request == (Request::List {
            limit: picker.limit,
            pinned_only: picker.pinned_only,
        }) && after is Show && next == picker,
        outcome is Err ==> next.status is Some && next.items == picker.items && next.visible
            == picker.visible && next.query == picker.query && effect is Nothing,
        effect is PutOnClipboard <==> then is Copy && (outcome matches Ok(response)
            && response is Item),
        effect !is Close,
        (then is Show && (outcome matches Ok(response) && response is Items)) ==> next.items
            == outcome->Ok_0->Items_0@ && next.query == picker.query && next.status
            == picker.status,
{
}

/// The selection stays on its row while there is such a row, and on the last one
/// where there is not.
pub proof fn the_selection_stays_on_its_row(picker: PickerView, visible: Seq<usize>)
    ensures
        picker.selected < visible.len() ==> picker.refiltered(visible).selected == picker.selected,
        0 < visible.len() <= picker.selected ==> picker.refiltered(visible).selected
            == visible.len() - 1,
        visible.len() == 0 ==> picker.refiltered(visible).selection() is None,
        picker.refiltered(visible).query == picker.query,
        picker.refiltered(visible).items == picker.items,
{
}

/// Spaces around a query change nothing that is shown.
pub proof fn spaces_around_a_query_show_the_same(
    items: Seq<Summary>,
    left: Seq<char>,
    query: Seq<char>,
    right: Seq<char>,
    visible: Seq<usize>,
)
    requires
        blank(left),
        blank(right),
    ensures
        is_shown(items, left + query + right, visible) <==> is_shown(items, query, visible),
{
    blanks_around_are_trimmed(left, query, right);
}

} // verus!

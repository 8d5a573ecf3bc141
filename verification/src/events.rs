//! Events of the X server, and those that wait to be handled.

use std::collections::VecDeque;
use vstd::prelude::*;

verus! {

/// What an event says, as far as capturing is concerned.
#[derive(Debug, Clone, Copy, PartialEq, Eq, Structural)]
pub enum XEvent {
    /// The owner of a selection changed.
    OwnerChanged { selection: u32 },
    /// The answer to a request for a selection; `property` is 0 if the owner
    /// refused.
    SelectionNotify { requestor: u32, property: u32 },
    /// A property was set or, unless `new_value`, deleted.
    PropertyNotify { window: u32, atom: u32, new_value: bool },
    /// An error report.
    Error,
    /// Anything else.
    Other,
}

/// The event that a transfer waits for.
#[derive(Debug, Clone, Copy, PartialEq, Eq, Structural)]
pub enum Awaited {
    /// The answer to our request for a selection.
    Answer { requestor: u32 },
    /// A new value of our property.
    NewValue { window: u32, atom: u32 },
}

impl Awaited {
    /// `event` is what is waited for.
    pub open spec fn meets(self, event: XEvent) -> bool {
        match self {
            Awaited::Answer { requestor } => event matches XEvent::SelectionNotify {
                requestor: r,
                ..
            } && r == requestor,
            Awaited::NewValue { window, atom } => event == (XEvent::PropertyNotify {
                window,
                atom,
                new_value: true,
            }),
        }
    }

    /// Whether `event` is what is waited for.
    pub fn is_met_by(&self, event: &XEvent) -> (met: bool)
        ensures
            met == self.meets(*event),
    {
        match (self, event) {
            (Awaited::Answer { requestor }, XEvent::SelectionNotify { requestor: r, .. }) => *r
                == *requestor,
            (
                Awaited::NewValue { window, atom },
                XEvent::PropertyNotify { window: w, atom: a, new_value },
            ) => *new_value && *w == *window && *a == *atom,
            _ => false,
        }
    }
}

/// Whether an event calls for the clipboard to be read.
pub fn calls_for_capture(event: &XEvent, clipboard: u32) -> (calls: bool)
    ensures
        calls == (*event == (XEvent::OwnerChanged { selection: clipboard })),
{
    match event {
        XEvent::OwnerChanged { selection } => *selection == clipboard,
        _ => false,
    }
}

/// Events pulled off the wire while waiting for a specific one. They are
/// handled later, in the order they came in, so a clipboard change that lands
/// mid-transfer is not dropped.
pub struct EventQueue {
    pending: VecDeque<XEvent>,
}

/// How waiting goes on.
#[derive(Debug, Clone, Copy, PartialEq, Eq, Structural)]
pub enum Wait {
    /// This is the event.
    Got(XEvent),
    /// Look for another event at once.
    Poll,
    /// Nothing came in; look again in a moment.
    Pause,
    /// What is waited for did not come in, and the time is up.
    GiveUp,
}

impl View for EventQueue {
    type V = Seq<XEvent>;

    closed spec fn view(&self) -> Seq<XEvent> {
        self.pending@
    }
}

impl EventQueue {
    /// Nothing is waiting.
    pub fn new() -> (queue: EventQueue)
        ensures
            queue@ == Seq::<XEvent>::empty(),
    {
        EventQueue { pending: VecDeque::new() }
    }

    /// The event that came in first.
    pub fn pop_front(&mut self) -> (event: Option<XEvent>)
        ensures
            match event {
                Some(e) => {
                    &&& old(self)@.len() > 0
                    &&& e == old(self)@.first()
                    &&& final(self)@ == old(self)@.drop_first()
                },
                None => old(self)@.len() == 0 && final(self)@ == old(self)@,
            },
    {
        let event = self.pending.pop_front();
        proof {
            if event is Some {
                assert(self.pending@ =~= old(self)@.drop_first());
            }
        }
        event
    }

    /// Takes the first event that is waited for out of the queue; the others
    /// keep their places.
    pub fn take(&mut self, awaited: &Awaited) -> (event: Option<XEvent>)
        ensures
            match event {
                Some(e) => exists|at: int|
                    {
                        &&& 0 <= at < old(self)@.len()
                        &&& #[trigger] old(self)@[at] == e
                        &&& awaited.meets(e)
                        &&& forall|i: int| 0 <= i < at ==> !awaited.meets(#[trigger] old(self)@[i])
                        &&& final(self)@ == old(self)@.remove(at)
                    },
                None => final(self)@ == old(self)@ && forall|i: int|
                    0 <= i < old(self)@.len() ==> !awaited.meets(#[trigger] old(self)@[i]),
            },
    {
        let mut at: usize = 0;
        while at < self.pending.len()
            invariant
                at <= self.pending@.len(),
                self.pending@ == old(self)@,
                forall|i: int| 0 <= i < at ==> !awaited.meets(#[trigger] old(self)@[i]),
            decreases self.pending@.len() - at,
        {
            if awaited.is_met_by(&self.pending[at]) {
                let event = self.pending.remove(at);
                proof {
                    assert(old(self)@[at as int] == event->0);
                }
                return event;
            }
            at += 1;
        }
        None
    }

    /// What to do after polling for an event: `polled` is what came in, and
    /// `expired` whether the time for waiting is up. Whatever came in and is
    /// not waited for is queued; a stream of such events cannot draw out the
    /// waiting.
    pub fn after_poll(&mut self, awaited: &Awaited, polled: Option<XEvent>, expired: bool) -> (wait:
        Wait)
        ensures
            match polled {
                Some(event) => final(self)@ == queued(old(self)@, *awaited, event) && wait == (
                if awaited.meets(event) {
                    Wait::Got(event)
                } else if expired {
                    Wait::GiveUp
                } else {
                    Wait::Poll
                }),
                None => final(self)@ == old(self)@ && wait == (if expired {
                    Wait::GiveUp
                } else {
                    Wait::Pause
                }),
            },
    {
        match polled {
            Some(event) => if awaited.is_met_by(&event) {
                Wait::Got(event)
            } else {
                self.pending.push_back(event);
                if expired {
                    Wait::GiveUp
                } else {
                    Wait::Poll
                }
            },
            None => if expired {
                Wait::GiveUp
            } else {
                Wait::Pause
            },
        }
    }
}

/// The queue after an event came in: at the end of it, unless it is the one
/// that is waited for.
pub open spec fn queued(before: Seq<XEvent>, awaited: Awaited, event: XEvent) -> Seq<XEvent> {
    if awaited.meets(event) {
        before
    } else {
        before.push(event)
    }
}

/// The queue after some events came in, one after the other.
pub open spec fn queue_after(
    before: Seq<XEvent>,
    awaited: Awaited,
    came: Seq<XEvent>,
) -> Seq<XEvent>
    decreases came.len(),
{
    if came.len() == 0 {
        before
    } else {
        queued(queue_after(before, awaited, came.drop_last()), awaited, came.last())
    }
}

/// Waiting drops no event and reorders none: when the awaited event comes in,
/// those that came before it stand at the end of the queue, in their order.
pub proof fn waiting_drops_nothing(
    before: Seq<XEvent>,
    awaited: Awaited,
    came: Seq<XEvent>,
    event: XEvent,
)
    requires
        forall|i: int| 0 <= i < came.len() ==> !awaited.meets(#[trigger] came[i]),
        awaited.meets(event),
    ensures
        queue_after(before, awaited, came) == before + came,
        queue_after(before, awaited, came.push(event)) == before + came,
    decreases came.len(),
{
    if came.len() > 0 {
        let fewer = came.drop_last();
        assert forall|i: int| 0 <= i < fewer.len() implies !awaited.meets(#[trigger] fewer[i]) by {
            assert(!awaited.meets(came[i]));
        }
        waiting_drops_nothing(before, awaited, fewer, event);
        assert(!awaited.meets(came[came.len() - 1]));
        assert(before + came =~= (before + fewer).push(came.last()));
    } else {
        assert(before + came =~= before);
    }
    assert(came.push(event).drop_last() =~= came);
}

/// An answer is awaited by its requestor, whatever it says; a new value by its
/// window and property. No other event will do, and no event meets two waits
/// that differ.
pub proof fn only_the_awaited_event_will_do(
    one: Awaited,
    other: Awaited,
    event: XEvent,
    window: u32,
    atom: u32,
)
    ensures
        (Awaited::Answer { requestor: window }).meets(
            XEvent::SelectionNotify { requestor: window, property: atom },
        ),
        (Awaited::NewValue { window, atom }).meets(
            XEvent::PropertyNotify { window, atom, new_value: true },
        ),
        one.meets(event) && other.meets(event) ==> one == other,
        one.meets(event) ==> event is SelectionNotify || (event matches XEvent::PropertyNotify {
            new_value,
            ..
        } && new_value),
{
}

} // verus!

//! Retrieving the clipboard: an ICCCM selection transfer, including the INCR
//! chunking protocol for large payloads.
//!
//! The transfer itself only decides. It is told what the X server said and
//! answers with what to do next.

use crate::events::Awaited;
use vstd::prelude::*;

verus! {

/// 32-bit words fetched per `GetProperty` round trip (256 KiB).
pub const CHUNK_LONGS: u32 = 0x1_0000;

/// How long a transfer may take, in milliseconds.
///
/// A wedged or slow-to-respond clipboard owner must not be able to hang the
/// capture loop, which would silently stop recording everything else.
pub const TRANSFER_TIMEOUT_MILLIS: u64 = 2000;

/// The text of `bytes`, whatever is not UTF-8 replaced, as
/// `String::from_utf8_lossy` has it.
pub uninterp spec fn lossy_text(bytes: Seq<u8>) -> Seq<char>;

/// `String::from_utf8_lossy` decodes UTF-8 and replaces what is not. The
/// contract names the text; of valid UTF-8 it is what the bytes encode.
#[verifier::external_body]
pub(crate) fn decode_lossy(bytes: &[u8]) -> (text: String)
    ensures
        text@ == lossy_text(bytes@),
        vstd::utf8::valid_utf8(bytes@) ==> text@ == vstd::utf8::decode_utf8(bytes@),
{
    String::from_utf8_lossy(bytes).into_owned()
}

/// One reply to `GetProperty`.
pub struct Page {
    /// The type of the property; 0 if there is none.
    pub kind: u32,
    pub value: Vec<u8>,
    /// How many bytes are left behind these.
    pub bytes_after: u32,
}

/// What the X server said.
pub enum TransferEvent {
    /// The owner answered; `property` is 0 if it cannot provide text.
    Answered { property: u32 },
    /// A new value of our property arrived.
    Arrived,
    /// What was waited for did not come in time.
    TimedOut,
    /// A page of our property.
    Page(Page),
}

/// What to do next.
pub enum TransferAction {
    /// Wait for this event.
    Await(Awaited),
    /// Read our property from this offset on, in 32-bit words.
    Read { offset: u32 },
    /// Delete our property, which acknowledges it, and wait for this event.
    AcknowledgeAndAwait(Awaited),
    /// Delete our property; the transfer is complete, and these are its bytes.
    AcknowledgeAndFinish(Vec<u8>),
    /// There is nothing text-shaped to store.
    Nothing,
    /// The owner stopped sending after that many bytes.
    Stalled { bytes: usize },
}

/// How far a transfer is.
#[derive(Debug, Clone, Copy, PartialEq, Eq, Structural)]
pub enum Phase {
    /// The owner was asked and has not answered.
    Asked,
    /// Its answer is being read.
    Reading,
    /// It sends in chunks, and the next has not arrived.
    Expecting,
    /// A chunk is being read.
    ReadingChunk,
    /// The transfer is over.
    Over,
}

/// A transfer into the property `dest` of our window.
pub struct Transfer {
    window: u32,
    dest: u32,
    incr: u32,
    phase: Phase,
    received: Vec<u8>,
    page: Vec<u8>,
    offset: u32,
}

/// A transfer as the contracts see it.
#[verifier::ext_equal]
pub struct Progress {
    pub window: u32,
    pub dest: u32,
    /// The type of a property that announces chunks.
    pub incr: u32,
    pub phase: Phase,
    /// The chunks that were received in full.
    pub received: Seq<u8>,
    /// What was read of the property so far.
    pub page: Seq<u8>,
    /// Where to read on.
    pub offset: u32,
}

/// An action as the contracts see it.
pub enum Act {
    Await(Awaited),
    Read { offset: u32 },
    AcknowledgeAndAwait(Awaited),
    AcknowledgeAndFinish(Seq<u8>),
    Nothing,
    Stalled { bytes: nat },
}

impl View for TransferAction {
    type V = Act;

    open spec fn view(&self) -> Act {
        match self {
            TransferAction::Await(awaited) => Act::Await(*awaited),
            TransferAction::Read { offset } => Act::Read { offset: *offset },
            TransferAction::AcknowledgeAndAwait(awaited) => Act::AcknowledgeAndAwait(*awaited),
            TransferAction::AcknowledgeAndFinish(bytes) => Act::AcknowledgeAndFinish(bytes@),
            TransferAction::Nothing => Act::Nothing,
            TransferAction::Stalled { bytes } => Act::Stalled { bytes: *bytes as nat },
        }
    }
}

/// An event as the contracts see it.
pub enum Said {
    Answered { property: u32 },
    Arrived,
    TimedOut,
    Page { kind: u32, value: Seq<u8>, bytes_after: u32 },
}

impl View for TransferEvent {
    type V = Said;

    open spec fn view(&self) -> Said {
        match self {
            TransferEvent::Answered { property } => Said::Answered { property: *property },
            TransferEvent::Arrived => Said::Arrived,
            TransferEvent::TimedOut => Said::TimedOut,
            TransferEvent::Page(page) => Said::Page {
                kind: page.kind,
                value: page.value@,
                bytes_after: page.bytes_after,
            },
        }
    }
}

impl View for Transfer {
    type V = Progress;

    closed spec fn view(&self) -> Progress {
        Progress {
            window: self.window,
            dest: self.dest,
            incr: self.incr,
            phase: self.phase,
            received: self.received@,
            page: self.page@,
            offset: self.offset,
        }
    }
}

/// The offset behind `len` more bytes. Offsets count in 32-bit words, and wrap
/// around.
pub open spec fn advanced(offset: u32, len: nat) -> u32 {
    ((offset + len / 4) % 0x1_0000_0000) as u32
}

/// Reading a property ends with a page that is empty, or behind which nothing
/// is left.
pub open spec fn is_last_page(kind: u32, value: Seq<u8>, bytes_after: u32) -> bool {
    kind == 0 || value.len() == 0 || bytes_after == 0
}

impl Progress {
    /// The arrival of a new value of our property.
    pub open spec fn new_value(self) -> Awaited {
        Awaited::NewValue { window: self.window, atom: self.dest }
    }

    /// The bytes of the property once a page was read.
    pub open spec fn with_page(self, kind: u32, value: Seq<u8>) -> Seq<u8> {
        if kind == 0 {
            self.page
        } else {
            self.page + value
        }
    }

    /// The end of a transfer that ran out of time. One that came in chunks
    /// brought part of the text only, which is as good as nothing.
    pub open spec fn given_up(self) -> (Progress, Act) {
        (
            Progress { phase: Phase::Over, ..self },
            if self.phase == Phase::Expecting || self.phase == Phase::ReadingChunk {
                Act::Stalled { bytes: self.received.len() }
            } else {
                Act::Nothing
            },
        )
    }

    /// How a transfer goes on, `elapsed` milliseconds after it was asked for.
    /// Past its time it is over, whatever is said.
    pub open spec fn next(self, said: Said, elapsed: u64) -> (Progress, Act) {
        if elapsed > TRANSFER_TIMEOUT_MILLIS {
            self.given_up()
        } else {
            self.next_in_time(said)
        }
    }

    /// How a transfer goes on while there is time.
    pub open spec fn next_in_time(self, said: Said) -> (Progress, Act) {
        let over = Progress { phase: Phase::Over, ..self };
        match (self.phase, said) {
            (_, Said::TimedOut) => self.given_up(),
            (Phase::Asked, Said::Answered { property }) => if property == 0 {
                (over, Act::Nothing)
            } else {
                (
                    Progress { phase: Phase::Reading, page: Seq::empty(), offset: 0, ..self },
                    Act::Read { offset: 0 },
                )
            },
            (Phase::Expecting, Said::Arrived) => (
                Progress { phase: Phase::ReadingChunk, page: Seq::empty(), offset: 0, ..self },
                Act::Read { offset: 0 },
            ),
            (Phase::Reading, Said::Page { kind, value, bytes_after }) => {
                let page = self.with_page(kind, value);
                if !is_last_page(kind, value, bytes_after) {
                    self.read_on(page, value.len())
                } else if kind == self.incr {
                    (
                        Progress { phase: Phase::Expecting, page, ..self },
                        Act::AcknowledgeAndAwait(self.new_value()),
                    )
                } else {
                    (Progress { page, ..over }, Act::AcknowledgeAndFinish(page))
                }
            },
            (Phase::ReadingChunk, Said::Page { kind, value, bytes_after }) => {
                let page = self.with_page(kind, value);
                if !is_last_page(kind, value, bytes_after) {
                    self.read_on(page, value.len())
                } else if page.len() > 0 {
                    (
                        Progress {
                            phase: Phase::Expecting,
                            received: self.received + page,
                            page,
                            ..self
                        },
                        Act::AcknowledgeAndAwait(self.new_value()),
                    )
                } else if kind == 0 {
                    // The arrival was that of a value that was already read and
                    // deleted: the announcement's own, or a chunk's.
                    (
                        Progress { phase: Phase::Expecting, ..self },
                        Act::Await(self.new_value()),
                    )
                } else {
                    (over, Act::AcknowledgeAndFinish(self.received))
                }
            },
            _ => (over, Act::Nothing),
        }
    }

    /// Reading on behind a page.
    pub open spec fn read_on(self, page: Seq<u8>, len: nat) -> (Progress, Act) {
        let offset = advanced(self.offset, len);
        (Progress { page, offset, ..self }, Act::Read { offset })
    }
}

fn advance(offset: u32, len: usize) -> (next: u32)
    ensures
        next == advanced(offset, len as nat),
{
    let sum: u128 = offset as u128 + (len / 4) as u128;
    (sum % 0x1_0000_0000) as u32
}

impl Transfer {
    /// A transfer that was just asked for: the property was deleted, and the
    /// owner of the clipboard told to put its text there.
    pub fn begin(window: u32, dest: u32, incr: u32) -> (begun: (Transfer, TransferAction))
        ensures
            begun.0@ == (Progress {
                window,
                dest,
                incr,
                phase: Phase::Asked,
                received: Seq::empty(),
                page: Seq::empty(),
                offset: 0,
            }),
            begun.1@ == Act::Await(Awaited::Answer { requestor: window }),
    {
        let transfer = Transfer {
            window,
            dest,
            incr,
            phase: Phase::Asked,
            received: Vec::new(),
            page: Vec::new(),
            offset: 0,
        };
        proof {
            assert(transfer@.received =~= Seq::empty());
            assert(transfer@.page =~= Seq::empty());
        }
        (transfer, TransferAction::Await(Awaited::Answer { requestor: window }))
    }

    fn acknowledge(&self) -> (action: TransferAction)
        ensures
            action@ == Act::AcknowledgeAndAwait(self@.new_value()),
    {
        TransferAction::AcknowledgeAndAwait(
            Awaited::NewValue { window: self.window, atom: self.dest },
        )
    }

    fn give_up(&mut self) -> (action: TransferAction)
        ensures
            (final(self)@, action@) == old(self)@.given_up(),
    {
        let chunked = match self.phase {
            Phase::Expecting => true,
            Phase::ReadingChunk => true,
            _ => false,
        };
        self.phase = Phase::Over;
        if chunked {
            TransferAction::Stalled { bytes: self.received.len() }
        } else {
            TransferAction::Nothing
        }
    }

    /// Takes what the X server said, and how many milliseconds after the
    /// transfer was asked for, and tells what to do next.
    pub fn step(&mut self, event: TransferEvent, elapsed: u64) -> (action: TransferAction)
        ensures
            (final(self)@, action@) == old(self)@.next(event@, elapsed),
    {
        if elapsed > TRANSFER_TIMEOUT_MILLIS {
            return self.give_up();
        }
        match (self.phase, event) {
            (_, TransferEvent::TimedOut) => self.give_up(),
            (Phase::Asked, TransferEvent::Answered { property }) => if property == 0 {
                self.phase = Phase::Over;
                TransferAction::Nothing
            } else {
                self.phase = Phase::Reading;
                self.page = Vec::new();
                self.offset = 0;
                TransferAction::Read { offset: 0 }
            },
            (Phase::Expecting, TransferEvent::Arrived) => {
                self.phase = Phase::ReadingChunk;
                self.page = Vec::new();
                self.offset = 0;
                TransferAction::Read { offset: 0 }
            },
            (Phase::Reading, TransferEvent::Page(page)) => {
                let last = self.take_page(&page);
                if !last {
                    TransferAction::Read { offset: self.offset }
                } else if page.kind == self.incr {
                    self.phase = Phase::Expecting;
                    self.acknowledge()
                } else {
                    self.phase = Phase::Over;
                    TransferAction::AcknowledgeAndFinish(self.page.clone())
                }
            },
            (Phase::ReadingChunk, TransferEvent::Page(page)) => {
                let last = self.take_page(&page);
                if !last {
                    TransferAction::Read { offset: self.offset }
                } else if self.page.len() > 0 {
                    self.phase = Phase::Expecting;
                    self.received.extend_from_slice(self.page.as_slice());
                    self.acknowledge()
                } else if page.kind == 0 {
                    self.phase = Phase::Expecting;
                    TransferAction::Await(
                        Awaited::NewValue { window: self.window, atom: self.dest },
                    )
                } else {
                    self.phase = Phase::Over;
                    TransferAction::AcknowledgeAndFinish(self.received.clone())
                }
            },
            _ => {
                self.phase = Phase::Over;
                TransferAction::Nothing
            },
        }
    }

    fn take_page(&mut self, page: &Page) -> (last: bool)
        ensures
            last == is_last_page(page.kind, page.value@, page.bytes_after),
            final(self)@ == (if last {
                Progress { page: old(self)@.with_page(page.kind, page.value@), ..old(self)@ }
            } else {
                old(self)@.read_on(old(self)@.page + page.value@, page.value@.len()).0
            }),
    {
        if page.kind == 0 || page.value.len() == 0 {
            proof {
                assert(old(self)@.with_page(page.kind, page.value@) =~= old(self)@.page);
            }
            return true;
        }
        self.page.extend_from_slice(page.value.as_slice());
        proof {
            assert(self@.page =~= old(self)@.page + page.value@);
        }
        if page.bytes_after == 0 {
            return true;
        }
        self.offset = advance(self.offset, page.value.len());
        false
    }
}

/// The text of the bytes that a transfer brought.
pub fn received_text(bytes: &Vec<u8>) -> (text: String)
    ensures
        text@ == lossy_text(bytes@),
        vstd::utf8::valid_utf8(bytes@) ==> text@ == vstd::utf8::decode_utf8(bytes@),
{
    decode_lossy(bytes.as_slice())
}

/// What was said, and how many milliseconds after the transfer was asked for.
pub struct Told {
    pub said: Said,
    pub elapsed: u64,
}

/// How far a transfer is, and what is to be done, after all that was told.
pub open spec fn run(start: Progress, told: Seq<Told>) -> (Progress, Act)
    decreases told.len(),
{
    if told.len() == 0 {
        (start, Act::Nothing)
    } else {
        run(start, told.drop_last()).0.next(told.last().said, told.last().elapsed)
    }
}

/// What was said, without the times.
pub open spec fn said_of(told: Seq<Told>) -> Seq<Said> {
    told.map_values(|t: Told| t.said)
}

/// All of it was told before the time was up.
pub open spec fn in_time(told: Seq<Told>) -> bool {
    forall|i: int| 0 <= i < told.len() ==> (#[trigger] told[i]).elapsed <= TRANSFER_TIMEOUT_MILLIS
}

spec fn run_in_time(start: Progress, said: Seq<Said>) -> (Progress, Act)
    decreases said.len(),
{
    if said.len() == 0 {
        (start, Act::Nothing)
    } else {
        run_in_time(start, said.drop_last()).0.next_in_time(said.last())
    }
}

proof fn lemma_times_do_not_matter_in_time(start: Progress, told: Seq<Told>)
    requires
        in_time(told),
    ensures
        run(start, told) == run_in_time(start, said_of(told)),
    decreases told.len(),
{
    if told.len() > 0 {
        let fewer = told.drop_last();
        assert forall|i: int| 0 <= i < fewer.len() implies (#[trigger] fewer[i]).elapsed
            <= TRANSFER_TIMEOUT_MILLIS by {
            assert(told[i].elapsed <= TRANSFER_TIMEOUT_MILLIS);
        }
        lemma_times_do_not_matter_in_time(start, fewer);
        assert(said_of(told).drop_last() =~= said_of(fewer));
        assert(told[told.len() - 1].elapsed <= TRANSFER_TIMEOUT_MILLIS);
    }
}

/// `pages` are the pages of one property of this type: each holds something,
/// and nothing is left behind the last one only.
pub open spec fn is_whole_property(pages: Seq<Said>, kind: u32) -> bool {
    &&& pages.len() > 0
    &&& kind != 0
    &&& forall|i: int|
        0 <= i < pages.len() ==> (#[trigger] pages[i] matches Said::Page {
            kind: k,
            value,
            bytes_after,
        } && k == kind && value.len() > 0 && (bytes_after == 0 <==> i == pages.len() - 1))
}

/// `pages` is what reading a property shows that is not there.
pub open spec fn is_absent_property(pages: Seq<Said>) -> bool {
    &&& pages.len() == 1
    &&& pages[0] matches Said::Page { kind, value, .. } && kind == 0 && value.len() == 0
}

/// The bytes of some pages, one after the other.
pub open spec fn bytes_of(pages: Seq<Said>) -> Seq<u8>
    decreases pages.len(),
{
    if pages.len() == 0 {
        Seq::empty()
    } else {
        bytes_of(pages.drop_last()) + pages.last()->value
    }
}

proof fn lemma_run_concat(start: Progress, a: Seq<Said>, b: Seq<Said>)
    requires
        b.len() > 0,
    ensures
        run_in_time(start, a + b) == run_in_time(run_in_time(start, a).0, b),
    decreases b.len(),
{
    assert((a + b).drop_last() =~= a + b.drop_last());
    if b.len() > 1 {
        lemma_run_concat(start, a, b.drop_last());
    } else {
        assert(a + b.drop_last() =~= a);
        assert(run_in_time(run_in_time(start, a).0, b.drop_last()).0 == run_in_time(start, a).0);
    }
    assert((a + b).last() == b.last());
}

proof fn lemma_pages_add_up(start: Progress, pages: Seq<Said>, kind: u32, n: int)
    requires
        start.phase == Phase::Reading || start.phase == Phase::ReadingChunk,
        is_whole_property(pages, kind),
        0 <= n < pages.len(),
    ensures
        ({
            let now = run_in_time(start, pages.take(n)).0;
            now == (Progress {
                page: start.page + bytes_of(pages.take(n)),
                offset: now.offset,
                ..start
            })
        }),
    decreases n,
{
    if n > 0 {
        lemma_pages_add_up(start, pages, kind, n - 1);
        assert(pages.take(n).drop_last() =~= pages.take(n - 1));
        assert(pages[n - 1] is Page);
        let now = run_in_time(start, pages.take(n)).0;
        assert(now.page =~= start.page + bytes_of(pages.take(n)));
    } else {
        assert(start.page + bytes_of(pages.take(0)) =~= start.page);
    }
}

proof fn lemma_last_page(start: Progress, pages: Seq<Said>, kind: u32)
    requires
        start.phase == Phase::Reading || start.phase == Phase::ReadingChunk,
        is_whole_property(pages, kind),
    ensures
        ({
            let before = run_in_time(start, pages.drop_last()).0;
            &&& before.phase == start.phase
            &&& before.incr == start.incr
            &&& before.new_value() == start.new_value()
            &&& before.received == start.received
            &&& pages.last() matches Said::Page { kind: k, value, bytes_after: 0 }
            &&& k == kind
            &&& before.with_page(k, value) == start.page + bytes_of(pages)
        }),
{
    let n = pages.len() - 1;
    lemma_pages_add_up(start, pages, kind, n);
    assert(pages.take(n) =~= pages.drop_last());
    assert(pages[n] is Page);
    let before = run_in_time(start, pages.drop_last()).0;
    assert(before.page + pages.last()->value =~= start.page + bytes_of(pages));
}

/// A transfer that is answered in one property, in time, brings all its pages,
/// in their order.
pub proof fn a_plain_transfer_brings_every_page(
    start: Progress,
    told: Seq<Told>,
    property: u32,
    pages: Seq<Said>,
    kind: u32,
)
    requires
        start.phase == Phase::Asked,
        property != 0,
        kind != start.incr,
        is_whole_property(pages, kind),
        in_time(told),
        said_of(told) == seq![Said::Answered { property }] + pages,
    ensures
        run(start, told).1 == Act::AcknowledgeAndFinish(bytes_of(pages)),
{
    let answer = seq![Said::Answered { property }];
    lemma_times_do_not_matter_in_time(start, told);
    assert(answer.drop_last() =~= Seq::empty());
    assert(run_in_time(start, answer.drop_last()).0 == start);
    let reading = run_in_time(start, answer).0;
    assert(reading == start.next_in_time(Said::Answered { property }).0);
    lemma_run_concat(start, answer, pages);
    lemma_last_page(reading, pages, kind);
    assert(reading.page + bytes_of(pages) =~= bytes_of(pages));
}

/// What is said when these values arrive: each arrival is told, and the
/// property is read in full.
pub open spec fn sending(chunks: Seq<Seq<Said>>) -> Seq<Said>
    decreases chunks.len(),
{
    if chunks.len() == 0 {
        Seq::empty()
    } else {
        sending(chunks.drop_last()) + (seq![Said::Arrived] + chunks.last())
    }
}

/// The bytes of all chunks, one after the other.
pub open spec fn bytes_of_chunks(chunks: Seq<Seq<Said>>) -> Seq<u8>
    decreases chunks.len(),
{
    if chunks.len() == 0 {
        Seq::empty()
    } else {
        bytes_of_chunks(chunks.drop_last()) + bytes_of(chunks.last())
    }
}

/// Each arrival is followed by a chunk, or came late: the value that it told
/// of was read and deleted before, and reading shows that nothing is there.
pub open spec fn are_chunks(chunks: Seq<Seq<Said>>, kind: u32) -> bool {
    forall|i: int|
        0 <= i < chunks.len() ==> is_whole_property(#[trigger] chunks[i], kind)
            || is_absent_property(chunks[i])
}

proof fn lemma_chunks_add_up(start: Progress, chunks: Seq<Seq<Said>>, kind: u32)
    requires
        start.phase == Phase::Expecting,
        are_chunks(chunks, kind),
    ensures
        ({
            let now = run_in_time(start, sending(chunks)).0;
            &&& now.phase == Phase::Expecting
            &&& now.new_value() == start.new_value()
            &&& now.received == start.received + bytes_of_chunks(chunks)
        }),
    decreases chunks.len(),
{
    if chunks.len() > 0 {
        let fewer = chunks.drop_last();
        let chunk = chunks.last();
        assert(are_chunks(fewer, kind)) by {
            assert forall|i: int| 0 <= i < fewer.len() implies is_whole_property(
                #[trigger] fewer[i],
                kind,
            ) || is_absent_property(fewer[i]) by {
                assert(chunks[i] == fewer[i]);
            }
        }
        lemma_chunks_add_up(start, fewer, kind);
        assert(chunks[chunks.len() - 1] == chunk);
        let arrival = seq![Said::Arrived];
        let before = run_in_time(start, sending(fewer)).0;
        lemma_run_concat(start, sending(fewer), arrival + chunk);
        lemma_run_concat(before, arrival, chunk);
        assert(arrival.drop_last() =~= Seq::empty());
        assert(run_in_time(before, arrival.drop_last()).0 == before);
        let reading = run_in_time(before, arrival).0;
        assert(reading == before.next_in_time(Said::Arrived).0);
        let now = run_in_time(start, sending(chunks)).0;
        if is_whole_property(chunk, kind) {
            lemma_last_page(reading, chunk, kind);
            assert(reading.page + bytes_of(chunk) =~= bytes_of(chunk));
            lemma_whole_properties_hold_something(chunk, kind);
        } else {
            assert(chunk.drop_last() =~= Seq::empty());
            assert(run_in_time(reading, chunk.drop_last()).0 == reading);
            assert(now == reading.next_in_time(chunk[0]).0);
            assert(bytes_of(chunk.drop_last()) =~= Seq::empty());
            assert(bytes_of(chunk) =~= Seq::empty());
        }
        assert(now.received =~= start.received + bytes_of_chunks(chunks));
    } else {
        assert(start.received + bytes_of_chunks(chunks) =~= start.received);
    }
}

proof fn lemma_whole_properties_hold_something(pages: Seq<Said>, kind: u32)
    requires
        is_whole_property(pages, kind),
    ensures
        bytes_of(pages).len() > 0,
{
    assert(pages[pages.len() - 1] is Page);
}

proof fn lemma_chunks_come_to_an_end(
    start: Progress,
    chunks: Seq<Seq<Said>>,
    kind: u32,
    end: Said,
)
    requires
        start.phase == Phase::Expecting,
        start.received.len() == 0,
        are_chunks(chunks, kind),
        end matches Said::Page { kind: k, value, .. } && k != 0 && value.len() == 0,
    ensures
        run_in_time(start, sending(chunks) + seq![Said::Arrived, end]).1
            == Act::AcknowledgeAndFinish(bytes_of_chunks(chunks)),
{
    lemma_chunks_add_up(start, chunks, kind);
    let before = run_in_time(start, sending(chunks)).0;
    let tail = seq![Said::Arrived, end];
    lemma_run_concat(start, sending(chunks), tail);
    assert(tail.drop_last() =~= seq![Said::Arrived]);
    assert(tail.drop_last().drop_last() =~= Seq::empty());
    assert(run_in_time(before, tail.drop_last().drop_last()).0 == before);
    assert(run_in_time(before, tail.drop_last()).0 == before.next_in_time(Said::Arrived).0);
    assert(before.received =~= bytes_of_chunks(chunks));
}

/// A large payload is announced by a property of the type INCR, and then comes
/// in chunks. Within its time the transfer brings every one of them, in their
/// order, and is complete with the first property that is there and empty.
/// What the announcement itself holds is no part of the text, and arrivals of
/// values that were read before, such as the announcement's own, are passed
/// over.
pub proof fn a_large_transfer_is_driven_to_completion(
    start: Progress,
    told: Seq<Told>,
    property: u32,
    announcement: Seq<Said>,
    chunks: Seq<Seq<Said>>,
    kind: u32,
    end: Said,
)
    requires
        start.phase == Phase::Asked,
        start.received.len() == 0,
        property != 0,
        is_whole_property(announcement, start.incr),
        are_chunks(chunks, kind),
        end matches Said::Page { kind: k, value, .. } && k != 0 && value.len() == 0,
        in_time(told),
        said_of(told) == seq![Said::Answered { property }] + announcement + (sending(chunks)
            + seq![Said::Arrived, end]),
    ensures
        run(start, told).1 == Act::AcknowledgeAndFinish(bytes_of_chunks(chunks)),
{
    lemma_times_do_not_matter_in_time(start, told);
    let answer = seq![Said::Answered { property }];
    assert(answer.drop_last() =~= Seq::empty());
    assert(run_in_time(start, answer.drop_last()).0 == start);
    let reading = run_in_time(start, answer).0;
    assert(reading == start.next_in_time(Said::Answered { property }).0);
    lemma_run_concat(start, answer, announcement);
    lemma_last_page(reading, announcement, start.incr);
    let announced = run_in_time(start, answer + announcement).0;
    assert(announced.phase == Phase::Expecting);
    assert(announced.received == start.received);
    let rest = sending(chunks) + seq![Said::Arrived, end];
    lemma_run_concat(start, answer + announcement, rest);
    lemma_chunks_come_to_an_end(announced, chunks, kind, end);
}

/// The arrival of the announcement itself, told when its property was read and
/// deleted already, is no chunk: the transfer waits on, and has lost nothing.
pub proof fn an_early_arrival_is_passed_over(waiting: Progress, absent: Said, elapsed: u64)
    requires
        waiting.phase == Phase::Expecting,
        is_absent_property(seq![absent]),
        elapsed <= TRANSFER_TIMEOUT_MILLIS,
    ensures
        ({
            let reading = waiting.next(Said::Arrived, elapsed);
            let after = reading.0.next(absent, elapsed);
            &&& reading.1 == (Act::Read { offset: 0 })
            &&& after.1 == Act::Await(waiting.new_value())
            &&& after.0.phase == Phase::Expecting
            &&& after.0.received == waiting.received
        }),
{
    assert(seq![absent][0] == absent);
}

/// Every transfer is bounded: past its time it is over, however far it was and
/// whatever is said, and it asks for nothing more. An owner that keeps sending
/// cannot hold it.
pub proof fn a_transfer_is_bounded(start: Progress, told: Seq<Told>)
    requires
        told.len() > 0,
        told.last().elapsed > TRANSFER_TIMEOUT_MILLIS,
    ensures
        run(start, told).0.phase == Phase::Over,
        run(start, told).1 is Nothing || run(start, told).1 is Stalled,
{
}

/// A transfer that is over stays over.
pub proof fn what_is_over_stays_over(start: Progress, said: Said, elapsed: u64)
    requires
        start.phase == Phase::Over,
    ensures
        start.next(said, elapsed).0.phase == Phase::Over,
        start.next(said, elapsed).1 is Nothing,
{
}

/// A wedged owner cannot hang a transfer: when nothing came in time, whatever
/// was waited for, it is over. What came in part is not handed on.
pub proof fn a_timeout_ends_the_transfer(start: Progress, elapsed: u64)
    ensures
        start.next(Said::TimedOut, elapsed).0.phase == Phase::Over,
        start.next(Said::TimedOut, elapsed).1 == (if start.phase == Phase::Expecting || start.phase
            == Phase::ReadingChunk {
            Act::Stalled { bytes: start.received.len() }
        } else {
            Act::Nothing
        }),
{
}

/// A value is read from its beginning on, page by page: behind a page that is
/// not the last one reading goes on with the word that follows it, and what was
/// read so far is kept.
pub proof fn reading_goes_on_where_it_stopped(
    reading: Progress,
    kind: u32,
    value: Seq<u8>,
    bytes_after: u32,
    elapsed: u64,
)
    requires
        reading.phase == Phase::Reading || reading.phase == Phase::ReadingChunk,
        elapsed <= TRANSFER_TIMEOUT_MILLIS,
        kind != 0,
        value.len() > 0,
        bytes_after != 0,
        reading.offset + value.len() / 4 < 0x1_0000_0000,
    ensures
        ({
            let (after, act) = reading.next(Said::Page { kind, value, bytes_after }, elapsed);
            &&& act matches Act::Read { offset } && offset == reading.offset + value.len() / 4
                && after.offset == offset
            &&& after.page == reading.page + value
            &&& after.phase == reading.phase
            &&& after.received == reading.received
        }),
{
}

/// An owner that cannot provide text is taken at its word, and one that can is
/// read from the beginning on.
pub proof fn an_answer_is_taken_at_its_word(asked: Progress, property: u32, elapsed: u64)
    requires
        asked.phase == Phase::Asked,
        elapsed <= TRANSFER_TIMEOUT_MILLIS,
    ensures
        ({
            let (after, act) = asked.next(Said::Answered { property }, elapsed);
            &&& property == 0 ==> act is Nothing && after.phase == Phase::Over
            &&& property != 0 ==> act == (Act::Read { offset: 0 }) && after.phase == Phase::Reading
                && after.page.len() == 0 && after.offset == 0
        }),
{
}

} // verus!

use clipster::events::{calls_for_capture, Awaited, EventQueue, Wait, XEvent};
use clipster::source::{class_of_text, some_window, source_class, wm_class, Ascent, MAX_ANCESTORS};
use clipster::transfer::{received_text, Page, Transfer, TransferAction, TransferEvent};

const WINDOW: u32 = 11;
const DEST: u32 = 22;
const INCR: u32 = 33;
const TEXT: u32 = 44;

fn page(kind: u32, value: &[u8], bytes_after: u32) -> TransferEvent {
    TransferEvent::Page(Page { kind, value: value.to_vec(), bytes_after })
}

fn answered() -> Transfer {
    let (mut transfer, first) = Transfer::begin(WINDOW, DEST, INCR);
    assert!(matches!(first, TransferAction::Await(Awaited::Answer { requestor: WINDOW })));
    let next = transfer.step(TransferEvent::Answered { property: DEST }, 0);
    assert!(matches!(next, TransferAction::Read { offset: 0 }));
    transfer
}

fn chunked() -> Transfer {
    let mut transfer = answered();
    let next = transfer.step(page(INCR, &[0, 0, 1, 0], 0), 0);
    assert!(matches!(
        next,
        TransferAction::AcknowledgeAndAwait(Awaited::NewValue { window: WINDOW, atom: DEST })
    ));
    transfer
}

fn bytes(action: TransferAction) -> Vec<u8> {
    match action {
        TransferAction::AcknowledgeAndFinish(bytes) => bytes,
        _ => panic!("the transfer is not complete"),
    }
}

#[test]
fn a_transfer_in_one_page() {
    let mut transfer = answered();
    assert_eq!(bytes(transfer.step(page(TEXT, b"hello", 0), 0)), b"hello");
}

#[test]
fn a_transfer_in_many_pages_reads_on_in_words() {
    let mut transfer = answered();
    let next = transfer.step(page(TEXT, b"12345678", 6), 0);
    assert!(matches!(next, TransferAction::Read { offset: 2 }));
    let next = transfer.step(page(TEXT, b"9abc", 2), 0);
    assert!(matches!(next, TransferAction::Read { offset: 3 }));
    assert_eq!(bytes(transfer.step(page(TEXT, b"de", 0), 0)), b"123456789abcde");
}

#[test]
fn a_property_that_went_away_ends_the_reading() {
    let mut transfer = answered();
    transfer.step(page(TEXT, b"1234", 4), 0);
    assert_eq!(bytes(transfer.step(page(0, b"", 0), 0)), b"1234");
    assert_eq!(bytes(answered().step(page(TEXT, b"", 9), 0)), b"");
}

#[test]
fn a_refusal_brings_nothing() {
    let (mut transfer, _) = Transfer::begin(WINDOW, DEST, INCR);
    let next = transfer.step(TransferEvent::Answered { property: 0 }, 0);
    assert!(matches!(next, TransferAction::Nothing));
}

#[test]
fn an_owner_that_does_not_answer_brings_nothing() {
    let (mut transfer, _) = Transfer::begin(WINDOW, DEST, INCR);
    assert!(matches!(transfer.step(TransferEvent::TimedOut, 0), TransferAction::Nothing));
    let late = transfer.step(TransferEvent::Answered { property: DEST }, 0);
    assert!(matches!(late, TransferAction::Nothing));
}

#[test]
fn a_transfer_in_chunks_ends_with_an_empty_one() {
    let mut transfer = chunked();
    for chunk in [&b"one "[..], b"two"] {
        assert!(matches!(
            transfer.step(TransferEvent::Arrived, 0),
            TransferAction::Read { offset: 0 }
        ));
        assert!(matches!(
            transfer.step(page(TEXT, chunk, 0), 0),
            TransferAction::AcknowledgeAndAwait(_)
        ));
    }
    transfer.step(TransferEvent::Arrived, 0);
    assert_eq!(bytes(transfer.step(page(TEXT, b"", 0), 0)), b"one two");
}

#[test]
fn a_transfer_in_chunks_that_stalls_is_an_error() {
    let mut transfer = chunked();
    transfer.step(TransferEvent::Arrived, 0);
    transfer.step(page(TEXT, b"12345", 0), 0);
    let next = transfer.step(TransferEvent::TimedOut, 0);
    assert!(matches!(next, TransferAction::Stalled { bytes: 5 }));
}

#[test]
fn the_announcements_own_arrival_is_no_chunk() {
    let mut transfer = chunked();
    // Its property was read and deleted: nothing is there.
    assert!(matches!(transfer.step(TransferEvent::Arrived, 1), TransferAction::Read { offset: 0 }));
    assert!(matches!(
        transfer.step(page(0, b"", 0), 1),
        TransferAction::Await(Awaited::NewValue { window: WINDOW, atom: DEST })
    ));
    for chunk in [&"\u{e9}".as_bytes()[..1], &"\u{e9}".as_bytes()[1..]] {
        transfer.step(TransferEvent::Arrived, 2);
        transfer.step(page(TEXT, chunk, 0), 2);
        // The arrival of a chunk that is already gone.
        transfer.step(TransferEvent::Arrived, 2);
        assert!(matches!(transfer.step(page(0, b"", 0), 2), TransferAction::Await(_)));
    }
    transfer.step(TransferEvent::Arrived, 2000);
    let all = bytes(transfer.step(page(TEXT, b"", 0), 2000));
    assert_eq!(received_text(&all), "\u{e9}");
}

#[test]
fn an_owner_that_keeps_sending_is_cut_off() {
    let mut transfer = chunked();
    let mut sent = 0;
    for elapsed in [0, 1000, 2000] {
        transfer.step(TransferEvent::Arrived, elapsed);
        let next = transfer.step(page(TEXT, b"more", 0), elapsed);
        assert!(matches!(next, TransferAction::AcknowledgeAndAwait(_)));
        sent += 4;
    }
    match transfer.step(TransferEvent::Arrived, 2001) {
        TransferAction::Stalled { bytes } => assert_eq!(bytes, sent),
        _ => panic!("the transfer goes on"),
    }
    assert!(matches!(transfer.step(page(TEXT, b"more", 0), 0), TransferAction::Nothing));
}

#[test]
fn a_late_answer_brings_nothing() {
    let (mut transfer, _) = Transfer::begin(WINDOW, DEST, INCR);
    let late = transfer.step(TransferEvent::Answered { property: DEST }, 2001);
    assert!(matches!(late, TransferAction::Nothing));
    assert!(matches!(answered().step(page(TEXT, b"late", 0), 2001), TransferAction::Nothing));
}

#[test]
fn what_is_not_utf8_is_replaced() {
    assert_eq!(received_text(&"héllo".as_bytes().to_vec()), "héllo");
    assert_eq!(received_text(&vec![0x68, 0xff, 0x69]), "h\u{fffd}i");
    assert_eq!(received_text(&Vec::new()), "");
}

#[test]
fn events_that_are_not_awaited_wait_in_order() {
    let awaited = Awaited::Answer { requestor: WINDOW };
    let answer = XEvent::SelectionNotify { requestor: WINDOW, property: DEST };
    let change = XEvent::OwnerChanged { selection: 1 };
    let mut queue = EventQueue::new();
    assert_eq!(queue.after_poll(&awaited, Some(change), false), Wait::Poll);
    assert_eq!(queue.after_poll(&awaited, Some(XEvent::Error), true), Wait::GiveUp);
    assert_eq!(queue.after_poll(&awaited, None, false), Wait::Pause);
    assert_eq!(queue.after_poll(&awaited, Some(answer), true), Wait::Got(answer));
    assert_eq!(queue.after_poll(&awaited, None, true), Wait::GiveUp);
    assert_eq!(queue.take(&awaited), None);
    assert_eq!(queue.pop_front(), Some(change));
    assert_eq!(queue.pop_front(), Some(XEvent::Error));
    assert_eq!(queue.pop_front(), None);
}

#[test]
fn a_queued_event_is_taken_out_of_its_place() {
    let awaited = Awaited::NewValue { window: WINDOW, atom: DEST };
    let wanted = XEvent::PropertyNotify { window: WINDOW, atom: DEST, new_value: true };
    let deleted = XEvent::PropertyNotify { window: WINDOW, atom: DEST, new_value: false };
    let other = XEvent::PropertyNotify { window: WINDOW, atom: INCR, new_value: true };
    let answer = Awaited::Answer { requestor: WINDOW };
    let mut queue = EventQueue::new();
    for event in [deleted, other, wanted, XEvent::Other] {
        queue.after_poll(&answer, Some(event), false);
    }
    assert_eq!(queue.take(&awaited), Some(wanted));
    assert_eq!(queue.take(&awaited), None);
    assert_eq!(queue.pop_front(), Some(deleted));
    assert_eq!(queue.pop_front(), Some(other));
    assert_eq!(queue.pop_front(), Some(XEvent::Other));
}

#[test]
fn only_a_change_of_the_clipboard_calls_for_capture() {
    assert!(calls_for_capture(&XEvent::OwnerChanged { selection: 5 }, 5));
    assert!(!calls_for_capture(&XEvent::OwnerChanged { selection: 6 }, 5));
    assert!(!calls_for_capture(&XEvent::Error, 5));
    let other = Awaited::Answer { requestor: 1 };
    assert!(!other.is_met_by(&XEvent::SelectionNotify { requestor: 2, property: 3 }));
}

#[test]
fn a_class_keeps_instance_and_class() {
    assert_eq!(wm_class(&b"keepassxc\0KeePassXC\0".to_vec()).unwrap(), "keepassxc.KeePassXC");
    assert_eq!(wm_class(&b"single".to_vec()).unwrap(), "single");
    assert_eq!(class_of_text("\0\0a\0\0b\0").unwrap(), "a.b");
    assert_eq!(class_of_text(".\0."), Some("...".to_string()));
    assert_eq!(wm_class(&b"\0\0".to_vec()), None);
    assert_eq!(wm_class(&Vec::new()), None);
    assert_eq!(wm_class(&vec![b'a', 0xff, 0, b'b']).unwrap(), "a\u{fffd}.b");
}

#[test]
fn the_search_for_a_class_goes_up_so_far() {
    let mut ascent = Ascent::new();
    for parent in 2..=MAX_ANCESTORS {
        assert_eq!(ascent.climb(parent, 1), Some(parent));
    }
    assert_eq!(ascent.climb(99, 1), None);

    let mut ascent = Ascent::new();
    assert_eq!(ascent.climb(0, 1), None);
    assert_eq!(ascent.climb(1, 1), None);
    assert_eq!(ascent.climb(2, 1), Some(2));
}

#[test]
fn the_focused_window_stands_in_for_the_owner() {
    let some = |s: &str| Some(s.to_string());
    assert_eq!(source_class(some("owner"), some("focused")), some("owner"));
    assert_eq!(source_class(None, some("focused")), some("focused"));
    assert_eq!(source_class(None, None), None);
    assert_eq!((some_window(0), some_window(3)), (None, Some(3)));
}

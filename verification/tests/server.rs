use clipster::ipc::{Request, Response};
use clipster::server::{binding, dispatch, malformed, poisoned, run, settle, Binding, Facts};
use clipster::Store;
use rusqlite::Connection;

fn facts() -> Facts {
    Facts {
        version: "0.1.0".to_string(),
        backend: "x11".to_string(),
        history_size: 500,
        captured_since_start: 9,
        db_path: "/tmp/history.db".to_string(),
    }
}

fn store() -> Store {
    let mut store = Store::open_in_memory().unwrap();
    store.insert("one").unwrap();
    store.insert("two").unwrap();
    store
}

fn affected(response: Response) -> usize {
    match response {
        Response::Affected(n) => n,
        other => panic!("{other:?}"),
    }
}

#[test]
fn a_list_is_answered_with_items() {
    let mut s = store();
    match dispatch(Request::List { limit: Some(1), pinned_only: false }, &mut s, facts()) {
        Response::Items(items) => assert_eq!((items.len(), items[0].id), (1, 2)),
        other => panic!("{other:?}"),
    }
}

#[test]
fn a_lookup_is_answered_with_the_item() {
    let mut s = store();
    match dispatch(Request::Get { id: 1 }, &mut s, facts()) {
        Response::Item(item) => assert_eq!(item.content, "one"),
        other => panic!("{other:?}"),
    }
    match dispatch(Request::Latest, &mut s, facts()) {
        Response::Item(item) => assert_eq!(item.content, "two"),
        other => panic!("{other:?}"),
    }
}

#[test]
fn a_missing_entry_is_reported() {
    let mut s = store();
    assert!(matches!(
        dispatch(Request::Get { id: 3 }, &mut s, facts()),
        Response::NotFound { id: 3 }
    ));
    let requests = vec![
        Request::SetPinned { id: 3, pinned: true },
        Request::SetLabel { id: 3, label: Some("x".to_string()) },
        Request::Remove { id: 3 },
    ];
    for request in requests {
        assert_eq!(affected(dispatch(request, &mut s, facts())), 0);
    }
    let mut empty = Store::open_in_memory().unwrap();
    assert!(matches!(
        dispatch(Request::Latest, &mut empty, facts()),
        Response::NotFound { id: 0 }
    ));
}

#[test]
fn a_change_is_seen_by_the_next_reader() {
    let mut s = store();
    let label = Some("name".to_string());
    assert_eq!(affected(dispatch(Request::SetLabel { id: 1, label }, &mut s, facts())), 1);
    match dispatch(Request::Get { id: 1 }, &mut s, facts()) {
        Response::Item(item) => {
            assert!(item.pinned);
            assert_eq!(item.label.as_deref(), Some("name"));
        }
        other => panic!("{other:?}"),
    }
    let unpin = Request::SetPinned { id: 1, pinned: false };
    assert_eq!(affected(dispatch(unpin, &mut s, facts())), 1);
    assert_eq!(affected(dispatch(Request::Remove { id: 2 }, &mut s, facts())), 1);
    assert!(matches!(
        dispatch(Request::Get { id: 2 }, &mut s, facts()),
        Response::NotFound { id: 2 }
    ));
    assert_eq!(affected(dispatch(Request::Clear { keep_pinned: true }, &mut s, facts())), 1);
}

#[test]
fn clearing_everything_takes_pinned_entries_too() {
    let mut s = store();
    s.set_pinned(1, true).unwrap();
    assert_eq!(affected(dispatch(Request::Clear { keep_pinned: true }, &mut s, facts())), 1);
    assert_eq!(affected(dispatch(Request::Clear { keep_pinned: false }, &mut s, facts())), 1);
    assert_eq!(s.counts().unwrap(), (0, 0));
}

#[test]
fn the_status_tells_counts_and_facts() {
    let mut s = store();
    s.set_pinned(2, true).unwrap();
    match run(Request::Status, &mut s, facts()).unwrap() {
        Response::Status(status) => {
            assert_eq!((status.total, status.pinned), (2, 1));
            assert_eq!(status.version, "0.1.0");
            assert_eq!(status.backend, "x11");
            assert_eq!(status.history_size, 500);
            assert_eq!(status.captured_since_start, 9);
            assert_eq!(status.db_path, "/tmp/history.db");
        }
        other => panic!("{other:?}"),
    }
}

#[test]
fn a_failure_is_answered_with_an_error() {
    let uri = "file:failing?mode=memory&cache=shared";
    let mut s = Store::open(Connection::open(uri).unwrap()).unwrap();
    Connection::open(uri).unwrap().execute_batch("DROP TABLE items").unwrap();
    match dispatch(Request::Latest, &mut s, facts()) {
        Response::Error { message } => assert!(message.starts_with("no such table")),
        other => panic!("{other:?}"),
    }
    assert!(run(Request::Status, &mut s, facts()).is_err());
    match settle(Ok(Response::Affected(4))) {
        Response::Affected(4) => {}
        other => panic!("{other:?}"),
    }
}

#[test]
fn a_line_that_is_no_request_is_answered() {
    match malformed("expected value") {
        Response::Error { message } => assert_eq!(message, "malformed request: expected value"),
        other => panic!("{other:?}"),
    }
    match poisoned("store") {
        Response::Error { message } => assert_eq!(message, "store lock poisoned"),
        other => panic!("{other:?}"),
    }
}

#[test]
fn only_a_dead_socket_is_removed() {
    assert_eq!(binding(false, false), Binding::Bind);
    assert_eq!(binding(true, false), Binding::RemoveStale);
    assert_eq!(binding(true, true), Binding::Refuse);
}

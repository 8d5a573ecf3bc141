use clipster::cli::{
    affected, agrees, begin, conclude, copied, describe, digits, fetch, fetched, human_list,
    plain_list, print_list, status_report, unexpected, Begin, Command, Complaint, End, Format,
};
use clipster::ipc::{frame, unframe, Item, Request, Response, Status, Summary};

fn row(id: i64, pinned: bool, label: Option<&str>, preview: &str) -> Summary {
    Summary {
        id,
        preview: preview.to_string(),
        pinned,
        label: label.map(str::to_string),
        bytes: preview.len(),
        created_at: 0,
        updated_at: 0,
    }
}

fn item(id: i64, content: &str) -> Item {
    Item {
        id,
        content: content.to_string(),
        pinned: false,
        label: None,
        created_at: 0,
        updated_at: 0,
    }
}

fn list(format: Format) -> Command {
    Command::List { limit: 50, all: false, pinned: false, format }
}

fn asked(command: &Command) -> Request {
    match begin(command) {
        Begin::Ask(request) => request,
        other => panic!("{other:?}"),
    }
}

fn out(end: End) -> String {
    match end {
        End::Out(text) => text,
        other => panic!("{other:?}"),
    }
}

fn note(end: End) -> String {
    match end {
        End::Note(text) => text,
        other => panic!("{other:?}"),
    }
}

fn complaint(end: End) -> String {
    match end {
        End::Fail(Complaint::Message(text)) => text,
        other => panic!("{other:?}"),
    }
}

#[test]
fn commands_ask_the_daemon() {
    assert!(matches!(
        asked(&list(Format::Human)),
        Request::List { limit: Some(50), pinned_only: false }
    ));
    let all = Command::List { limit: 50, all: true, pinned: true, format: Format::Json };
    assert!(matches!(asked(&all), Request::List { limit: None, pinned_only: true }));
    assert!(matches!(asked(&Command::Get { id: Some(4) }), Request::Get { id: 4 }));
    assert!(matches!(asked(&Command::Copy { id: None }), Request::Latest));
    assert!(matches!(
        asked(&Command::Pin { id: 4 }),
        Request::SetPinned { id: 4, pinned: true }
    ));
    assert!(matches!(
        asked(&Command::Unpin { id: 4 }),
        Request::SetPinned { id: 4, pinned: false }
    ));
    assert!(matches!(asked(&Command::Rm { id: 4 }), Request::Remove { id: 4 }));
    assert!(matches!(
        asked(&Command::Clear { all: true, yes: true }),
        Request::Clear { keep_pinned: false }
    ));
    assert!(matches!(asked(&Command::Status), Request::Status));
    assert!(matches!(fetch(None), Request::Latest));
}

#[test]
fn a_label_is_given_or_removed() {
    let give = Command::Label { id: 1, text: Some("x".to_string()), remove: false };
    match asked(&give) {
        Request::SetLabel { id: 1, label } => assert_eq!(label.as_deref(), Some("x")),
        other => panic!("{other:?}"),
    }
    let remove = Command::Label { id: 1, text: None, remove: true };
    assert!(matches!(asked(&remove), Request::SetLabel { id: 1, label: None }));
    match begin(&Command::Label { id: 1, text: None, remove: false }) {
        Begin::Fail(why) => assert_eq!(why, "provide a label, or pass --remove to clear it"),
        other => panic!("{other:?}"),
    }
}

#[test]
fn clearing_asks_first() {
    match begin(&Command::Clear { all: false, yes: false }) {
        Begin::Confirm(prompt) => assert_eq!(prompt, "Delete all unpinned entries? [y/N] "),
        other => panic!("{other:?}"),
    }
    match begin(&Command::Clear { all: true, yes: false }) {
        Begin::Confirm(prompt) => {
            assert_eq!(prompt, "Delete ALL entries, including pinned? [y/N] ")
        }
        other => panic!("{other:?}"),
    }
    for answer in ["y", "Y", "yes", " y \n"] {
        assert!(agrees(answer));
    }
    for answer in ["", "n", "YES", "yy", "\n"] {
        assert!(!agrees(answer));
    }
}

#[test]
fn a_list_for_scripts_has_a_line_per_entry() {
    let items = vec![row(12, true, Some("tpl"), "one"), row(3, false, None, "two")];
    assert_eq!(plain_list(&items), "12\tone\n3\ttwo\n");
    assert_eq!(plain_list(&Vec::new()), "");
    assert_eq!(out(conclude(&list(Format::Plain), Response::Items(items))), "12\tone\n3\ttwo\n");
}

#[test]
fn a_list_for_people_separates_pinned_entries() {
    let items = vec![
        row(12, true, Some("tpl"), "one"),
        row(3, false, None, "two"),
        row(100, false, Some("x"), ""),
    ];
    assert_eq!(human_list(&items), " 12 * [tpl] one\n-----+\n  3   two\n100   [x] \n");
    let unpinned = vec![row(1, false, None, "a")];
    assert_eq!(out(print_list(unpinned, Format::Human)), "1   a\n");
}

#[test]
fn there_is_one_separator_at_most() {
    let items = vec![
        row(1, true, None, "a"),
        row(2, false, None, "b"),
        row(3, true, None, "c"),
        row(4, false, None, "d"),
    ];
    assert_eq!(human_list(&items), "1 * a\n---+\n2   b\n3 * c\n4   d\n");
}

#[test]
fn an_empty_list_says_so_to_people_only() {
    assert_eq!(note(print_list(Vec::new(), Format::Human)), "history is empty");
    assert_eq!(out(print_list(Vec::new(), Format::Plain)), "");
    assert!(matches!(print_list(Vec::new(), Format::Json), End::Json(items) if items.is_empty()));
}

#[test]
fn the_width_of_an_id() {
    assert_eq!((digits(0), digits(9), digits(10)), (1, 1, 2));
    assert_eq!((digits(-5), digits(-10)), (1, 2));
    assert_eq!((digits(i64::MAX), digits(i64::MIN)), (19, 20));
    let items = vec![row(-5, false, None, "x"), row(10, false, None, "y")];
    assert_eq!(human_list(&items), "-5   x\n10   y\n");
}

#[test]
fn content_is_written_as_it_is() {
    let response = Response::Item(item(4, "no line end"));
    assert_eq!(out(conclude(&Command::Get { id: Some(4) }, response)), "no line end");
    match conclude(&Command::Copy { id: None }, Response::Item(item(4, "x"))) {
        End::Copy(item) => assert_eq!((item.id, item.content.as_str()), (4, "x")),
        other => panic!("{other:?}"),
    }
    assert_eq!(copied(4, "xclip"), "copied #4 via xclip");
}

#[test]
fn a_missing_entry_is_a_failure() {
    let gone = || Response::NotFound { id: 0 };
    let end = conclude(&Command::Get { id: Some(-7) }, gone());
    assert_eq!(complaint(end), "no entry with id -7");
    assert_eq!(complaint(conclude(&Command::Copy { id: None }, gone())), "history is empty");
    let none = || Response::Affected(0);
    assert_eq!(complaint(conclude(&Command::Rm { id: 3 }, none())), "no entry with id 3");
    assert!(fetched(None, Response::Item(item(1, "x"))).is_ok());
}

#[test]
fn changes_say_what_they_did() {
    let done = || Response::Affected(1);
    assert_eq!(note(conclude(&Command::Pin { id: 3 }, done())), "pinned #3");
    assert_eq!(note(conclude(&Command::Unpin { id: 3 }, done())), "unpinned #3");
    assert_eq!(note(conclude(&Command::Rm { id: 3 }, done())), "removed #3");
    let label = Command::Label { id: 3, text: Some("x".to_string()), remove: false };
    assert_eq!(note(conclude(&label, done())), "labelled #3");
    let clear = Command::Clear { all: false, yes: true };
    assert_eq!(note(conclude(&clear, Response::Affected(0))), "cleared 0 entries");
    assert_eq!(note(conclude(&clear, Response::Affected(12))), "cleared 12 entries");
    assert_eq!(note(affected("pinned", 1, Response::Affected(2))), "pinned #1");
}

#[test]
fn a_response_that_does_not_fit_is_a_failure() {
    let error = || Response::Error { message: "locked".to_string() };
    let commands = vec![
        list(Format::Human),
        Command::Get { id: None },
        Command::Copy { id: None },
        Command::Pin { id: 1 },
        Command::Clear { all: false, yes: true },
        Command::Status,
    ];
    for command in &commands {
        assert_eq!(complaint(conclude(command, error())), "locked");
        let odd = conclude(command, Response::Items(Vec::new()));
        if !matches!(command, Command::List { .. }) {
            assert!(matches!(odd, End::Fail(Complaint::Unexpected(Response::Items(_)))));
        }
    }
    assert!(matches!(
        unexpected(Response::NotFound { id: 2 }),
        Complaint::Unexpected(Response::NotFound { id: 2 })
    ));
    match describe(Response::NotFound { id: 2 }) {
        Complaint::Message(text) => assert_eq!(text, "entry 2 is gone"),
        other => panic!("{other:?}"),
    }
}

#[test]
fn a_status_report_in_full() {
    let status = Status {
        version: "0.1.0".to_string(),
        backend: "x11".to_string(),
        total: 12,
        pinned: 3,
        history_size: 500,
        captured_since_start: 40,
        db_path: "/d/history.db".to_string(),
    };
    let expected = "clipsterd    0.1.0 (x11)\ndatabase     /d/history.db\n\
                    entries      12 (3 pinned)\nhistory_size 500\n\
                    captured     40 since daemon start\n";
    assert_eq!(status_report(&status), expected);
    assert_eq!(out(conclude(&Command::Status, Response::Status(status))), expected);
}

#[test]
fn a_framed_payload_reads_back() {
    assert_eq!(frame(b"{}".to_vec()), b"{}\n");
    assert_eq!(unframe(&frame(b"\"a\\nb\"".to_vec())), b"\"a\\nb\"");
    assert_eq!(unframe(&b"one\ntwo\n".to_vec()), b"one");
    assert_eq!(unframe(&b"cut off".to_vec()), b"cut off");
}

use clipster::cli::Complaint;
use clipster::ipc::{Item, Request, Response, Summary};
use clipster::picker::{
    action_for, chords, filter_items, list_request, opening_list, Action, Chord, Effect, Picker,
    Then,
};

fn entry(id: i64, preview: &str) -> Summary {
    Summary {
        id,
        preview: preview.to_string(),
        pinned: false,
        label: None,
        bytes: preview.len(),
        created_at: 0,
        updated_at: 0,
    }
}

fn entries() -> Vec<Summary> {
    vec![
        entry(5, "https://github.com/rust-lang/rust/pull/128432"),
        entry(4, "commit template git commit --amend --no-edit"),
        entry(3, "ls -la"),
    ]
}

fn picker() -> Picker {
    Picker::new(entries(), Some(200), false, true)
}

fn ids(picker: &Picker) -> Vec<i64> {
    (0..picker.row_count()).map(|row| picker.row(row).id).collect()
}

fn message(picker: &Picker) -> String {
    match picker.status() {
        Some(Complaint::Message(text)) => text.clone(),
        other => panic!("{other:?}"),
    }
}

fn failed(text: &str) -> Result<Response, String> {
    Err(text.to_string())
}

#[test]
fn an_empty_query_shows_the_daemons_list() {
    let picker = picker();
    assert_eq!(ids(&picker), vec![5, 4, 3]);
    assert_eq!(picker.selected(), 0);
    assert_eq!(picker.item_count(), 3);
    assert!(picker.scroll_pending());
    assert_eq!(picker.query(), "");
    assert_eq!(picker.note(), None);
}

#[test]
fn a_query_shows_the_best_match_first() {
    let mut picker = picker();
    picker.press(Action::Down);
    picker.set_query(" gitcom ".to_string());
    assert_eq!(ids(&picker), vec![4, 5]);
    assert_eq!(picker.selected(), 0);
    assert_eq!(picker.selected_item().unwrap().id, 4);
    assert_eq!(picker.query(), " gitcom ");
}

#[test]
fn a_query_that_is_blank_filters_nothing() {
    assert_eq!(filter_items(&entries(), "  \t"), vec![0, 1, 2]);
    assert_eq!(filter_items(&entries(), "ls"), vec![2, 0]);
}

#[test]
fn a_label_is_searched_too() {
    let mut items = entries();
    items[2].label = Some("zebra".to_string());
    assert_eq!(filter_items(&items, "zeb"), vec![2]);
}

#[test]
fn notes_say_why_there_are_no_rows() {
    let mut picker = picker();
    picker.set_query("zzzz".to_string());
    assert_eq!(picker.note(), Some("no match"));
    assert_eq!(picker.selected_item().map(|item| item.id), None);
    assert!(matches!(picker.press(Action::Copy), Effect::Nothing));
    assert!(matches!(picker.press(Action::TogglePin), Effect::Nothing));
    assert!(matches!(picker.press(Action::Delete), Effect::Nothing));
    picker.press(Action::Down);
    assert_eq!(picker.selected(), 0);

    let picker = Picker::new(Vec::new(), None, false, true);
    assert_eq!(picker.note(), Some("history is empty"));
}

#[test]
fn clearing_the_query_keeps_the_row() {
    let mut picker = picker();
    picker.set_query("gitcom".to_string());
    picker.press(Action::Down);
    assert!(matches!(picker.press(Action::ClearQuery), Effect::Nothing));
    assert_eq!(picker.query(), "");
    assert_eq!(ids(&picker), vec![5, 4, 3]);
    assert_eq!(picker.selected(), 1);
}

#[test]
fn the_selection_goes_round() {
    let mut picker = picker();
    picker.scrolled();
    assert!(!picker.scroll_pending());
    picker.press(Action::Up);
    assert_eq!(picker.selected(), 2);
    assert!(picker.scroll_pending());
    picker.press(Action::Down);
    assert_eq!(picker.selected(), 0);
    picker.press(Action::Down);
    picker.press(Action::Up);
    assert_eq!(picker.selected(), 0);
    for _ in 0..4 {
        picker.press(Action::Down);
    }
    assert_eq!(picker.selected(), 1);
}

#[test]
fn a_move_is_one_row_whatever_its_size() {
    let mut picker = picker();
    picker.move_selection(5);
    assert_eq!(picker.selected(), 1);
    picker.move_selection(-5);
    picker.move_selection(isize::MIN);
    assert_eq!(picker.selected(), 2);
    picker.move_selection(0);
    assert_eq!(picker.selected(), 0);
    let mut empty = Picker::new(Vec::new(), None, false, true);
    empty.scrolled();
    empty.move_selection(1);
    assert_eq!((empty.selected(), empty.scroll_pending()), (0, false));
}

#[test]
fn copying_fetches_the_content_first() {
    let mut picker = picker();
    picker.press(Action::Down);
    match picker.press(Action::Copy) {
        Effect::Ask { request: Request::Get { id }, then: Then::Copy } => assert_eq!(id, 4),
        other => panic!("{other:?}"),
    }
    let item = Item {
        id: 4,
        content: "whole\ncontent".to_string(),
        pinned: false,
        label: None,
        created_at: 0,
        updated_at: 0,
    };
    match picker.reply(Then::Copy, Ok(Response::Item(item))) {
        Effect::PutOnClipboard(text) => assert_eq!(text, "whole\ncontent"),
        other => panic!("{other:?}"),
    }
    assert!(matches!(picker.copied(Ok(())), Effect::Close));
}

#[test]
fn a_failed_copy_stays_open_and_says_why() {
    let mut picker = picker();
    let gone = picker.reply(Then::Copy, Ok(Response::NotFound { id: 5 }));
    assert!(matches!(gone, Effect::Nothing));
    assert_eq!(message(&picker), "entry 5 is gone");

    picker.reply(Then::Copy, Ok(Response::Error { message: "disk full".to_string() }));
    assert_eq!(message(&picker), "disk full");

    assert!(matches!(picker.reply(Then::Copy, failed("no daemon")), Effect::Nothing));
    assert_eq!(message(&picker), "no daemon");

    let unexpected = Response::Affected(1);
    assert!(matches!(picker.reply(Then::Copy, Ok(unexpected)), Effect::Nothing));
    assert!(matches!(picker.status(), Some(Complaint::Unexpected(Response::Affected(1)))));

    assert!(matches!(picker.copied(Err("no tool".to_string())), Effect::Nothing));
    assert_eq!(message(&picker), "no tool");
}

#[test]
fn a_keypress_clears_a_stale_error() {
    let mut picker = picker();
    picker.copied(Err("no tool".to_string()));
    picker.press(Action::Nothing);
    assert_eq!(message(&picker), "no tool");
    picker.press(Action::Down);
    assert!(picker.status().is_none());
}

#[test]
fn the_selection_follows_a_pinned_entry() {
    let mut picker = picker();
    picker.press(Action::Down);
    picker.press(Action::Down);
    let then = match picker.press(Action::TogglePin) {
        Effect::Ask { request: Request::SetPinned { id: 3, pinned: true }, then } => then,
        other => panic!("{other:?}"),
    };
    assert_eq!(then, Then::Follow(3));
    let then = match picker.reply(then, Ok(Response::Affected(1))) {
        Effect::Ask { request: Request::List { limit, pinned_only }, then } => {
            assert_eq!((limit, pinned_only), (Some(200), false));
            then
        }
        other => panic!("{other:?}"),
    };
    assert_eq!(then, Then::Show(Some(3)));
    let mut items = entries();
    items.rotate_right(1);
    items[0].pinned = true;
    assert!(matches!(picker.reply(then, Ok(Response::Items(items))), Effect::Nothing));
    assert_eq!(ids(&picker), vec![3, 5, 4]);
    assert_eq!(picker.selected(), 0);
    match picker.press(Action::TogglePin) {
        Effect::Ask { request: Request::SetPinned { id: 3, pinned: false }, .. } => {}
        other => panic!("{other:?}"),
    }
}

#[test]
fn a_list_that_does_not_come_leaves_the_old_one() {
    let mut picker = picker();
    picker.scrolled();
    assert!(matches!(picker.reply(Then::Show(Some(4)), failed("gone")), Effect::Nothing));
    assert_eq!(ids(&picker), vec![5, 4, 3]);
    assert_eq!(picker.selected(), 1);
    assert!(picker.scroll_pending());
    assert_eq!(message(&picker), "gone");
}

#[test]
fn deleting_loads_the_list_again() {
    let mut picker = picker();
    picker.press(Action::Up);
    let then = match picker.press(Action::Delete) {
        Effect::Ask { request: Request::Remove { id: 3 }, then } => then,
        other => panic!("{other:?}"),
    };
    let then = match picker.reply(then, Ok(Response::Affected(1))) {
        Effect::Ask { request: Request::List { .. }, then } => then,
        other => panic!("{other:?}"),
    };
    let mut items = entries();
    items.pop();
    picker.reply(then, Ok(Response::Items(items)));
    assert_eq!(ids(&picker), vec![5, 4]);
    // The selection stays inside the list.
    assert_eq!(picker.selected(), 1);
}

#[test]
fn a_change_that_fails_says_why() {
    let mut picker = picker();
    assert!(matches!(picker.reply(Then::Reload, failed("no daemon")), Effect::Nothing));
    assert_eq!(message(&picker), "no daemon");
    let gone = Ok(Response::NotFound { id: -1 });
    assert!(matches!(picker.reply(Then::Follow(3), gone), Effect::Nothing));
    assert_eq!(message(&picker), "entry -1 is gone");
}

#[test]
fn a_click_copies_the_row() {
    let mut picker = picker();
    picker.copied(Err("stale".to_string()));
    match picker.click(2) {
        Effect::Ask { request: Request::Get { id }, then: Then::Copy } => assert_eq!(id, 3),
        other => panic!("{other:?}"),
    }
    assert_eq!(picker.selected(), 2);
    assert_eq!(message(&picker), "stale");
}

#[test]
fn losing_focus_closes_like_a_menu() {
    let mut picker = picker();
    assert!(!picker.lost_focus(Some(false)));
    assert!(!picker.lost_focus(None));
    assert!(!picker.lost_focus(Some(true)));
    assert!(!picker.lost_focus(None));
    assert!(picker.lost_focus(Some(false)));

    let mut stays = Picker::new(entries(), None, false, false);
    stays.lost_focus(Some(true));
    assert!(!stays.lost_focus(Some(false)));
}

#[test]
fn every_chord_means_something() {
    let expected = vec![
        (Chord::Escape, Action::Close),
        (Chord::Enter, Action::Copy),
        (Chord::ArrowDown, Action::Down),
        (Chord::CtrlN, Action::Down),
        (Chord::CtrlJ, Action::Down),
        (Chord::ArrowUp, Action::Up),
        (Chord::CtrlK, Action::Up),
        (Chord::CtrlP, Action::TogglePin),
        (Chord::CtrlD, Action::Delete),
        (Chord::CtrlU, Action::ClearQuery),
    ];
    let bound: Vec<(Chord, Action)> = chords().into_iter().map(|c| (c, action_for(c))).collect();
    assert_eq!(bound, expected);
    assert!(matches!(picker().press(Action::Close), Effect::Close));
}

#[test]
fn the_window_opens_on_a_list_only() {
    match list_request(50, false, true) {
        Request::List { limit: Some(50), pinned_only: true } => {}
        other => panic!("{other:?}"),
    }
    match list_request(50, true, false) {
        Request::List { limit: None, pinned_only: false } => {}
        other => panic!("{other:?}"),
    }
    assert_eq!(opening_list(Response::Items(entries())).unwrap().len(), 3);
    let error = Response::Error { message: "locked".to_string() };
    match opening_list(error) {
        Err(Complaint::Message(text)) => assert_eq!(text, "locked"),
        other => panic!("{other:?}"),
    }
    match opening_list(Response::NotFound { id: 1 }) {
        Err(Complaint::Unexpected(Response::NotFound { id: 1 })) => {}
        other => panic!("{other:?}"),
    }
}

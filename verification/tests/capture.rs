use clipster::capture::{admits_source, capture, skip_reason, Captured, Skip};
use clipster::store::Inserted;
use clipster::{Config, Store};

fn small() -> Config {
    Config { history_size: 2, max_item_bytes: 5, ..Default::default() }
}

#[test]
fn a_denied_source_is_skipped_whatever_it_copies() {
    let config = small();
    assert!(!admits_source(&config, Some("KeePassXC")));
    assert!(admits_source(&config, Some("Alacritty")));
    assert_eq!(skip_reason(&config, Some("KeePassXC"), Some("x")), Some(Skip::Denied));
    assert_eq!(skip_reason(&config, Some("KeePassXC"), None), Some(Skip::Denied));
}

#[test]
fn an_unattributable_copy_is_stored() {
    assert!(admits_source(&small(), None));
    assert_eq!(skip_reason(&small(), None, Some("x")), None);
}

#[test]
fn what_has_no_text_is_skipped() {
    assert_eq!(skip_reason(&small(), Some("Alacritty"), None), Some(Skip::NoText));
}

#[test]
fn blanks_are_skipped_unless_wanted() {
    let mut config = small();
    assert_eq!(skip_reason(&config, None, Some(" \n")), Some(Skip::Blank));
    assert_eq!(skip_reason(&config, None, Some("")), Some(Skip::Blank));
    config.ignore_whitespace_only = false;
    assert_eq!(skip_reason(&config, None, Some(" \n")), None);
}

#[test]
fn size_is_counted_in_bytes() {
    assert_eq!(skip_reason(&small(), None, Some("12345")), None);
    assert_eq!(skip_reason(&small(), None, Some("123456")), Some(Skip::TooLarge));
    assert_eq!(skip_reason(&small(), None, Some("ééé")), Some(Skip::TooLarge));
}

#[test]
fn a_capture_makes_room_for_itself() {
    let config = small();
    let mut store = Store::open_in_memory().unwrap();
    for (n, text) in ["a", "b", "c"].into_iter().enumerate() {
        let done = capture(&config, None, Some(text), &mut store).unwrap();
        assert!(done.is_new());
        match done {
            Captured::Stored { inserted: Inserted::New(id), evicted: Ok(evicted) } => {
                assert_eq!(id, n as i64 + 1);
                assert_eq!(evicted, if n == 2 { 1 } else { 0 });
            }
            other => panic!("{other:?}"),
        }
    }
    assert_eq!(store.counts().unwrap(), (2, 0));

    let again = capture(&config, None, Some("b"), &mut store).unwrap();
    assert!(!again.is_new());
    assert!(matches!(again, Captured::Stored { inserted: Inserted::Bumped(2), evicted: Ok(0) }));
    assert_eq!(store.latest().unwrap().unwrap().content, "b");
}

#[test]
fn a_skipped_copy_leaves_the_history_alone() {
    let mut store = Store::open_in_memory().unwrap();
    let done = capture(&small(), Some("bitwarden"), Some("x"), &mut store).unwrap();
    assert!(!done.is_new());
    assert!(matches!(done, Captured::Skipped(Skip::Denied)));
    assert_eq!(store.counts().unwrap(), (0, 0));
}

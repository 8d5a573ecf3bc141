use clipster::config::{ConfigWatcher, Privacy, ReadOutcome, Settings};
use clipster::Config;

#[test]
fn denylist_matches_case_insensitive_substring() {
    let cfg = Config::default();
    assert!(cfg.is_denied("KeePassXC"));
    assert!(cfg.is_denied("org.keepassxc.KeePassXC"));
    assert!(!cfg.is_denied("Alacritty"));
}

#[test]
fn empty_denylist_entry_does_not_match_everything() {
    let cfg = Config {
        privacy: Privacy { denylist: vec![String::new()] },
        ..Default::default()
    };
    assert!(!cfg.is_denied("Alacritty"));
}

fn unset() -> Settings {
    Settings {
        history_size: None,
        max_item_bytes: None,
        ignore_whitespace_only: None,
        denylist: None,
    }
}

#[test]
fn the_defaults_are_what_they_are() {
    let cfg = Config::default();
    assert_eq!(cfg.history_size, 500);
    assert_eq!(cfg.max_item_bytes, 1024 * 1024);
    assert!(cfg.ignore_whitespace_only);
    assert_eq!(
        cfg.privacy.denylist,
        vec!["keepassxc", "keepass", "1password", "bitwarden", "enpass", "keeper", "seahorse"]
    );
}

#[test]
fn nothing_set_yields_defaults() {
    assert_eq!(Config::from_settings(unset()), Config::default());
}

#[test]
fn what_is_set_leaves_other_defaults() {
    let cfg = Config::from_settings(Settings { history_size: Some(42), ..unset() });
    assert_eq!(cfg, Config { history_size: 42, ..Default::default() });

    let cfg = Config::from_settings(Settings {
        max_item_bytes: Some(7),
        ignore_whitespace_only: Some(false),
        denylist: Some(vec!["vault".to_string()]),
        ..unset()
    });
    assert_eq!((cfg.history_size, cfg.max_item_bytes), (500, 7));
    assert!(!cfg.ignore_whitespace_only);
    assert!(cfg.is_denied("My-VAULT-App"));
    assert!(!cfg.is_denied("keepassxc"));
}

#[test]
fn letters_beyond_ascii_match_in_any_case() {
    let cfg = Config {
        privacy: Privacy { denylist: vec!["écran".to_string(), "TÜR".to_string()] },
        ..Default::default()
    };
    assert!(cfg.is_denied("ÉCRAN"));
    assert!(cfg.is_denied("Mein-tür-App"));
    assert!(!cfg.is_denied("ecran"));
}

#[test]
fn a_missing_file_is_the_default() {
    assert_eq!(Config::load("/x", ReadOutcome::Missing), Ok(Config::default()));
    let read = ReadOutcome::Read(Settings { history_size: Some(3), ..unset() });
    assert_eq!(Config::load("/x", read).unwrap().history_size, 3);
}

#[test]
fn a_broken_file_is_an_error() {
    let broken = ReadOutcome::Malformed("unknown field".to_string());
    assert_eq!(
        Config::load("/c.toml", broken),
        Err("parsing config at /c.toml: unknown field".to_string())
    );
    let unreadable = ReadOutcome::Unreadable("permission denied".to_string());
    assert_eq!(
        Config::load("/c.toml", unreadable),
        Err("reading config at /c.toml: permission denied".to_string())
    );
}

#[test]
fn a_changed_file_is_taken_over() {
    let sized = |n| Config { history_size: n, ..Default::default() };
    let mut watcher = ConfigWatcher::new(Some(1), Ok(sized(10)));
    assert!(!watcher.is_stale(Some(1)));
    assert!(watcher.is_stale(Some(2)) && watcher.is_stale(None));
    // Not changed: what was loaded is not looked at.
    assert_eq!(watcher.current(Some(1), Ok(sized(11))).history_size, 10);
    assert_eq!(watcher.current(Some(2), Ok(sized(12))).history_size, 12);
    // A typo keeps the previous configuration, and is not tried again.
    assert_eq!(watcher.current(Some(3), Err("typo".to_string())).history_size, 12);
    assert!(!watcher.is_stale(Some(3)));
    assert_eq!(watcher.config().history_size, 12);
    // The file went away.
    assert_eq!(watcher.current(None, Ok(Config::default())).history_size, 500);
}

#[test]
fn a_broken_file_at_the_start_leaves_the_defaults() {
    let mut watcher = ConfigWatcher::new(None, Err("typo".to_string()));
    assert_eq!(*watcher.current(None, Err(String::new())), Config::default());
}

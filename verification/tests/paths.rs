use clipster::clock::timestamp;
use clipster::now_millis;
use clipster::paths::{config_path, data_dir, db_path, runtime_dir, socket_path, Environment};
use std::time::{SystemTime, UNIX_EPOCH};

fn bytes(text: &str) -> Option<Vec<u8>> {
    Some(text.as_bytes().to_vec())
}

fn env() -> Environment {
    Environment {
        home: bytes("/home/me"),
        config_home: None,
        data_home: None,
        runtime_dir: None,
        user: None,
        temp_dir: b"/tmp".to_vec(),
    }
}

#[test]
fn home_is_where_things_are() {
    assert_eq!(config_path(&env()), b"/home/me/.config/clipster/config.toml");
    assert_eq!(db_path(&env()), b"/home/me/.local/share/clipster/history.db");
}

#[test]
fn variables_name_other_places() {
    let set = Environment {
        config_home: bytes("/c/"),
        data_home: bytes("/d"),
        runtime_dir: bytes("/run/user/1"),
        ..env()
    };
    assert_eq!(config_path(&set), b"/c/clipster/config.toml");
    assert_eq!(data_dir(&set), b"/d/clipster");
    assert_eq!(socket_path(&set), b"/run/user/1/clipster/clipsterd.sock");
}

#[test]
fn an_empty_variable_is_no_variable() {
    let set = Environment {
        config_home: bytes(""),
        data_home: bytes(""),
        runtime_dir: bytes(""),
        user: Some("me".to_string()),
        ..env()
    };
    assert_eq!(config_path(&set), config_path(&env()));
    assert_eq!(db_path(&set), db_path(&env()));
    assert_eq!(socket_path(&set), b"/tmp/clipster-me/clipsterd.sock");
}

#[test]
fn without_a_home_there_is_the_temporary_directory() {
    let set = Environment { home: None, ..env() };
    assert_eq!(config_path(&set), b"/tmp/.config/clipster/config.toml");
    assert_eq!(runtime_dir(&set), b"/tmp/clipster-unknown");
    let set = Environment { home: bytes(""), ..env() };
    assert_eq!(config_path(&set), b".config/clipster/config.toml");
}

#[test]
fn a_path_need_not_be_text() {
    let set = Environment { data_home: Some(vec![0x2f, 0xff]), ..env() };
    assert_eq!(data_dir(&set), b"/\xff/clipster");
}

#[test]
fn the_clock_counts_milliseconds() {
    let before = SystemTime::now().duration_since(UNIX_EPOCH).unwrap().as_millis() as i64;
    let now = now_millis();
    let after = SystemTime::now().duration_since(UNIX_EPOCH).unwrap().as_millis() as i64;
    assert!(before <= now && now <= after);
}

#[test]
fn a_timestamp_is_the_low_half() {
    assert_eq!(timestamp(None), 0);
    assert_eq!(timestamp(Some(1_700_000_000_123)), 1_700_000_000_123);
    assert_eq!(timestamp(Some(1 << 63)), i64::MIN);
    assert_eq!(timestamp(Some((1 << 64) + 5)), 5);
    assert_eq!(timestamp(Some(u128::MAX)), -1);
}

use clipster::ipc::Summary;
use clipster::rows::{age, count_text, haystack, row_text};

fn entry(label: Option<&str>, pinned: bool, updated_at: i64) -> Summary {
    Summary {
        id: 7,
        preview: "git commit".to_string(),
        pinned,
        label: label.map(str::to_string),
        bytes: 10,
        created_at: 0,
        updated_at,
    }
}

#[test]
fn age_picks_a_unit_per_magnitude() {
    assert_eq!(age(0), "0s");
    assert_eq!(age(45_000), "45s");
    assert_eq!(age(90_000), "1m");
    assert_eq!(age(3 * 3_600_000), "3h");
    assert_eq!(age(50 * 3_600_000), "2d");
    assert_eq!(age(30 * 86_400_000), "4w");
}

#[test]
fn age_of_a_future_timestamp_does_not_go_negative() {
    // Clock adjustments can put updated_at ahead of now.
    assert_eq!(age(-5_000), "0s");
}

#[test]
fn age_never_outgrows_its_column() {
    // Including a timestamp old enough to overflow the week count, which is
    // why weeks saturate rather than run to four digits.
    for millis in [0i64, 59_000, 3_599_000, 86_399_000, 6 * 86_400_000, 9000 * 86_400_000] {
        assert!(age(millis).len() <= 3, "{}", age(millis));
    }
}

#[test]
fn age_changes_unit_at_the_boundaries() {
    assert_eq!(age(59_999), "59s");
    assert_eq!(age(60_000), "1m");
    assert_eq!(age(3_599_999), "59m");
    assert_eq!(age(3_600_000), "1h");
    assert_eq!(age(86_399_999), "23h");
    assert_eq!(age(86_400_000), "1d");
    assert_eq!(age(604_799_999), "6d");
    assert_eq!(age(604_800_000), "1w");
    assert_eq!(age(98 * 604_800_000), "98w");
    assert_eq!(age(i64::MAX), "99w");
    assert_eq!(age(i64::MIN), "0s");
}

#[test]
fn a_row_shows_age_mark_label_and_preview() {
    let row = row_text(&entry(Some("tpl"), true, 1_000), 46_000);
    assert_eq!(row.age, " 45s ");
    assert_eq!(row.mark, "* ");
    assert_eq!(row.label.as_deref(), Some("[tpl] "));
    assert_eq!(row.preview, "git commit");

    let row = row_text(&entry(None, false, 1_000), 6_000);
    assert_eq!(row.age, "  5s ");
    assert_eq!(row.mark, "  ");
    assert_eq!(row.label, None);
}

#[test]
fn a_query_is_matched_against_label_and_preview() {
    assert_eq!(haystack(&entry(Some("tpl"), false, 0)), "tpl git commit");
    assert_eq!(haystack(&entry(None, false, 0)), "git commit");
}

#[test]
fn the_count_shows_rows_and_items() {
    assert_eq!(count_text(3, 120), "3/120");
    assert_eq!(count_text(0, 0), "0/0");
}

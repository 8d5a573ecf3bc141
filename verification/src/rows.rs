//! One row of the picker: age, pin marker, label, preview.

use crate::cli::{digits_read_back, value_of};
use crate::filter::{a_longer_line_matches_too, fuzzy_score};
use crate::ipc::Summary;
use crate::text::{digits_of, push_number, push_repeated, right_aligned};
use vstd::prelude::*;
use vstd::string::*;

verus! {

/// Whole seconds of an age; one in the future is none.
pub open spec fn seconds_of(millis: i64) -> nat {
    if millis < 0 {
        0
    } else {
        (millis as nat) / 1000
    }
}

/// The number and the unit that an age is told in.
pub open spec fn age_parts(seconds: nat) -> (nat, char) {
    if seconds < 60 {
        (seconds, 's')
    } else if seconds < 3600 {
        (seconds / 60, 'm')
    } else if seconds < 86400 {
        (seconds / 3600, 'h')
    } else if seconds < 604800 {
        (seconds / 86400, 'd')
    } else if seconds / 604800 < 99 {
        (seconds / 604800, 'w')
    } else {
        (99, 'w')
    }
}

/// An age as a number and a unit.
pub open spec fn age_text(millis: i64) -> Seq<char> {
    let (number, unit) = age_parts(seconds_of(millis));
    digits_of(number).push(unit)
}

fn measure(millis: i64) -> (parts: (u64, char))
    ensures
        (parts.0 as nat, parts.1) == age_parts(seconds_of(millis)),
        parts.0 < 100,
{
    let seconds: u64 = if millis < 0 {
        0
    } else {
        millis as u64 / 1000
    };
    if seconds < 60 {
        (seconds, 's')
    } else if seconds < 3600 {
        (seconds / 60, 'm')
    } else if seconds < 86400 {
        (seconds / 3600, 'h')
    } else if seconds < 604800 {
        (seconds / 86400, 'd')
    } else if seconds / 604800 < 99 {
        (seconds / 604800, 'w')
    } else {
        (99, 'w')
    }
}

/// Compact age for the left column: two digits and a unit at most, so the
/// column never shifts. Precision past the unit is noise here.
pub fn age(millis: i64) -> (text: String)
    ensures
        text@ == age_text(millis),
{
    let (number, unit) = measure(millis);
    let mut text = String::new();
    push_number(&mut text, number);
    text.push(unit);
    proof {
        assert(text@ =~= age_text(millis));
    }
    text
}

/// An age never outgrows its column: it is two or three characters.
pub proof fn an_age_never_outgrows_its_column(millis: i64)
    ensures
        2 <= age_text(millis).len() <= 3,
{
    let (number, unit) = age_parts(seconds_of(millis));
    reveal_with_fuel(crate::text::power_of_ten, 3);
    crate::text::small_numbers_are_short(number, 2);
}

/// A later moment makes an age no smaller.
pub proof fn an_age_grows_with_time(earlier: i64, later: i64)
    requires
        earlier <= later,
    ensures
        seconds_of(earlier) <= seconds_of(later),
        age_parts(seconds_of(earlier)).1 == age_parts(seconds_of(later)).1 ==> age_parts(
            seconds_of(earlier),
        ).0 <= age_parts(seconds_of(later)).0,
{
}

/// The parts of a row, each to be drawn in its own colour.
pub struct RowText {
    pub age: String,
    pub mark: &'static str,
    pub label: Option<String>,
    pub preview: String,
}

/// A label in brackets, with a space behind it.
pub open spec fn bracketed(label: Seq<char>) -> Seq<char> {
    "["@ + label + "] "@
}

/// The time since an entry was last touched. It wraps around.
pub open spec fn age_of(item: Summary, now: i64) -> i64 {
    now.wrapping_sub(item.updated_at)
}

/// The text of one row. Monospaced, so the age and marker columns line up
/// without a grid layout.
pub fn row_text(item: &Summary, now: i64) -> (row: RowText)
    ensures
        row.age@ == right_aligned(age_text(age_of(*item, now)), 4).push(' '),
        row.mark@ == (if item.pinned {
            "* "@
        } else {
            "  "@
        }),
        match item.label {
            Some(label) => row.label matches Some(text) && text@ == bracketed(label@),
            None => row.label is None,
        },
        row.preview == item.preview,
{
    let millis: i64 = now.wrapping_sub(item.updated_at);
    let (number, unit) = measure(millis);
    proof {
        an_age_never_outgrows_its_column(millis);
    }
    let mut text = String::new();
    if number < 10 {
        push_repeated(&mut text, ' ', 2);
    } else {
        push_repeated(&mut text, ' ', 1);
    }
    push_number(&mut text, number);
    text.push(unit);
    text.push(' ');
    proof {
        if number >= 10 {
            assert(digits_of((number / 10) as nat).len() == 1);
        }
        assert(text@ =~= right_aligned(age_text(millis), 4).push(' '));
    }
    let label = match &item.label {
        Some(label) => {
            let mut part = "[".to_owned();
            part.append(label.as_str());
            part.append("] ");
            Some(part)
        },
        None => None,
    };
    RowText {
        age: text,
        mark: if item.pinned {
            "* "
        } else {
            "  "
        },
        label,
        preview: item.preview.clone(),
    }
}

/// The age column always takes five characters.
pub proof fn the_age_column_never_shifts(item: Summary, now: i64)
    ensures
        right_aligned(age_text(age_of(item, now)), 4).push(' ').len() == 5,
{
    an_age_never_outgrows_its_column(age_of(item, now));
}

/// The text that a query is matched against.
pub open spec fn haystack_of(item: Summary) -> Seq<char> {
    match item.label {
        Some(label) => label@ + seq![' '] + item.preview@,
        None => item.preview@,
    }
}

/// The text that a query is matched against: the label and the preview.
pub fn haystack(item: &Summary) -> (text: String)
    ensures
        text@ == haystack_of(*item),
{
    match &item.label {
        Some(label) => {
            let mut text = label.clone();
            text.push(' ');
            text.append(item.preview.as_str());
            proof {
                assert(text@ =~= haystack_of(*item));
            }
            text
        },
        None => item.preview.clone(),
    }
}

/// How many of how many rows are shown.
pub fn count_text(shown: usize, all: usize) -> (text: String)
    ensures
        text@ == digits_of(shown as nat) + seq!['/'] + digits_of(all as nat),
{
    let mut text = String::new();
    push_number(&mut text, shown as u64);
    text.push('/');
    push_number(&mut text, all as u64);
    proof {
        assert(text@ =~= digits_of(shown as nat) + seq!['/'] + digits_of(all as nat));
    }
    text
}

/// How many seconds a unit of an age stands for.
pub open spec fn unit_seconds(unit: char) -> nat {
    if unit == 's' {
        1
    } else if unit == 'm' {
        60
    } else if unit == 'h' {
        3600
    } else if unit == 'd' {
        86400
    } else {
        604800
    }
}

/// An age is told in the largest unit that it fills, rounded down: so many of
/// that unit have passed, and not one more. What lies in the future is no age,
/// and beyond ninety-nine weeks the weeks are not counted.
pub proof fn an_age_is_rounded_down(millis: i64, text: String)
    requires
        call_ensures(age, (millis,), text),
    ensures
        ({
            let (number, unit) = (value_of(text@.drop_last()), text@.last());
            let length = unit_seconds(unit) * 1000;
            let passed = if millis < 0 {
                0
            } else {
                millis as int
            };
            &&& text@.len() > 1
            &&& unit == 's' || unit == 'm' || unit == 'h' || unit == 'd' || unit == 'w'
            &&& number * length <= passed
            &&& passed < (number + 1) * length || (unit == 'w' && number == 99)
            &&& unit != 's' ==> number >= 1
            &&& number < if unit == 's' || unit == 'm' {
                60int
            } else if unit == 'h' {
                24
            } else if unit == 'd' {
                7
            } else {
                100
            }
        }),
{
    let (number, unit) = age_parts(seconds_of(millis));
    digits_read_back(number);
    assert(text@.drop_last() =~= digits_of(number));
    assert(text@.last() == unit);
    let seconds = seconds_of(millis) as int;
    let n = number as int;
    let passed = if millis < 0 {
        0
    } else {
        millis as int
    };
    assert(seconds * 1000 <= passed < seconds * 1000 + 1000);
    let length = unit_seconds(unit) as int;
    assert(n * length <= seconds) by {
        if unit == 's' {
            assert(n * 1 <= seconds);
        } else if unit == 'm' {
            assert(n * 60 <= seconds);
        } else if unit == 'h' {
            assert(n * 3600 <= seconds);
        } else if unit == 'd' {
            assert(n * 86400 <= seconds);
        } else {
            assert(n * 604800 <= seconds);
        }
    }
    assert(seconds + 1 <= (n + 1) * length || (unit == 'w' && n == 99)) by {
        if unit == 's' {
            assert(seconds + 1 <= (n + 1) * 1);
        } else if unit == 'm' {
            assert(seconds + 1 <= (n + 1) * 60);
        } else if unit == 'h' {
            assert(seconds + 1 <= (n + 1) * 3600);
        } else if unit == 'd' {
            assert(seconds + 1 <= (n + 1) * 86400);
        } else if n < 99 {
            assert(seconds + 1 <= (n + 1) * 604800);
        }
    }
    assert(n * (length * 1000) == n * length * 1000) by (nonlinear_arith);
    assert((n + 1) * (length * 1000) == (n + 1) * length * 1000) by (nonlinear_arith);
}

/// A row tells its entry: a star exactly if it is pinned, the label in brackets
/// exactly if there is one, and the preview as it is.
pub proof fn a_row_tells_its_entry(item: Summary, now: i64, row: RowText)
    requires
        call_ensures(row_text, (&item, now), row),
    ensures
        row.age@.len() == 5 && row.age@.last() == ' ',
        row.mark@.len() == 2,
        row.mark@[0] == '*' <==> item.pinned,
        row.label is Some <==> item.label is Some,
        item.label matches Some(label) ==> row.label->0@ == seq!['['] + label@ + seq![']', ' '],
        row.preview@ == item.preview@,
{
    reveal_strlit("* ");
    reveal_strlit("  ");
    reveal_strlit("[");
    reveal_strlit("] ");
    the_age_column_never_shifts(item, now);
    if let Some(label) = item.label {
        assert(row.label->0@ =~= seq!['['] + label@ + seq![']', ' ']);
    }
}

/// A query finds an entry by its label and by its preview: what matches either
/// matches the entry.
pub proof fn an_entry_is_found_by_label_and_preview(item: Summary, query: Seq<char>)
    requires
        fuzzy_score(item.preview@, query) is Some || (item.label matches Some(label)
            && fuzzy_score(label@, query) is Some),
    ensures
        fuzzy_score(haystack_of(item), query) is Some,
{
    match item.label {
        None => {},
        Some(label) => {
            let gap = seq![' '];
            let whole = haystack_of(item);
            assert(whole =~= label@ + (gap + item.preview@));
            a_longer_line_matches_too(label@, gap + item.preview@, query);
            assert(whole =~= (label@ + gap) + item.preview@);
            a_longer_line_matches_too(label@ + gap, item.preview@, query);
        },
    }
}

} // verus!

//! Fuzzy matching for the picker's search box.
//!
//! A subsequence matcher with a handful of bonuses. The corpus is a few
//! hundred single-line previews and the query is typed by hand, so the scoring
//! only has to be good enough to put the obvious answer first.

use crate::text::{
    blank, blanks_have_no_case, is_blank, is_white, lower_chars, lowered, lowering_adds_up,
};
use vstd::prelude::*;

verus! {

/// Whether `char::is_alphanumeric` takes a character beyond ASCII for a letter
/// or a number.
pub uninterp spec fn alphanumeric(c: char) -> bool;

/// An ASCII letter or digit.
pub open spec fn ascii_alphanumeric(c: char) -> bool {
    ('0' <= c <= '9') || ('A' <= c <= 'Z') || ('a' <= c <= 'z')
}

/// `char::is_alphanumeric` tells whether a character is a letter or a number
/// in Unicode's terms. In ASCII those are the letters and the digits; of any
/// other character the contract names the property.
pub assume_specification[ char::is_alphanumeric ](c: char) -> (b: bool)
    ensures
        (c as u32) < 0x80 ==> b == ascii_alphanumeric(c),
        (c as u32) >= 0x80 ==> b == alphanumeric(c),
;

/// A character that can be part of a word.
pub open spec fn in_word(c: char) -> bool {
    if (c as u32) < 0x80 {
        ascii_alphanumeric(c)
    } else {
        alphanumeric(c)
    }
}

/// For each character, whether it is part of a word.
pub open spec fn word_flags(s: Seq<char>) -> Seq<bool> {
    s.map_values(|c: char| in_word(c))
}

/// The characters of a query that count: all but the whitespace.
pub open spec fn wanted(query: Seq<char>) -> Seq<char> {
    query.filter(|c: char| !is_white(c))
}

/// The first place of `want` in `hay`, at `from` or behind it.
pub open spec fn first_at(hay: Seq<char>, want: char, from: int) -> Option<int>
    decreases hay.len() - from,
{
    if from < 0 || from >= hay.len() {
        None
    } else if hay[from] == want {
        Some(from)
    } else {
        first_at(hay, want, from + 1)
    }
}

/// One place behind the last of `places`.
pub open spec fn end_of(places: Seq<int>) -> int {
    if places.len() == 0 {
        0
    } else {
        places.last() + 1
    }
}

/// Where `wants` match in `hay`: each as early as possible behind the one
/// before, or nothing if one of them is not found.
pub open spec fn places(hay: Seq<char>, wants: Seq<char>) -> Option<Seq<int>>
    decreases wants.len(),
{
    if wants.len() == 0 {
        Some(Seq::empty())
    } else {
        match places(hay, wants.drop_last()) {
            None => None,
            Some(before) => match first_at(hay, wants.last(), end_of(before)) {
                None => None,
                Some(at) => Some(before.push(at)),
            },
        }
    }
}

/// What the match of one character at `at` adds: a fixed part, a bonus for
/// standing next to the match before it or a cost for the distance skipped,
/// and a bonus at the start of a word.
pub open spec fn points(word: Seq<bool>, before: Seq<int>, at: int) -> int {
    let gap = at - end_of(before);
    let run = if before.len() == 0 {
        0
    } else if gap == 0 {
        15int
    } else if gap < 20 {
        -2 * gap
    } else {
        -40
    };
    let start = if at == 0 || !word[at - 1] {
        8int
    } else {
        0
    };
    10 + run + start
}

/// The points of all matches.
pub open spec fn total(word: Seq<bool>, places: Seq<int>) -> int
    decreases places.len(),
{
    if places.len() == 0 {
        0
    } else {
        total(word, places.drop_last()) + points(word, places.drop_last(), places.last())
    }
}

/// The 32-bit signed number that `n` wraps to.
pub open spec fn wrapped(n: int) -> int {
    (n + 0x8000_0000) % 0x1_0000_0000 - 0x8000_0000
}

/// A quarter of `n`, rounded towards zero.
pub open spec fn quarter(n: int) -> int {
    if n >= 0 {
        n / 4
    } else {
        -(-n / 4)
    }
}

/// The score of a match: its points, less a quarter of where it ends, so that
/// of two equal matches the one that finished earlier ranks higher.
pub open spec fn score_of(word: Seq<bool>, places: Seq<int>) -> int {
    wrapped(total(word, places) - quarter(wrapped(end_of(places))))
}

/// The score of `hay` for `query`, both in lower case, `word` telling which
/// characters of `hay` are part of a word.
pub open spec fn folded_score(hay: Seq<char>, word: Seq<bool>, query: Seq<char>) -> Option<i32> {
    match places(hay, wanted(query)) {
        None => None,
        Some(p) => Some(score_of(word, p) as i32),
    }
}

/// The score of `haystack` for `needle`.
pub open spec fn fuzzy_score(haystack: Seq<char>, needle: Seq<char>) -> Option<i32> {
    if blank(needle) {
        Some(0i32)
    } else {
        folded_score(lowered(haystack), word_flags(lowered(haystack)), lowered(needle))
    }
}

fn flags_of(chars: &Vec<char>) -> (word: Vec<bool>)
    ensures
        word@ == word_flags(chars@),
{
    let mut word: Vec<bool> = Vec::new();
    let mut i: usize = 0;
    while i < chars.len()
        invariant
            i <= chars@.len(),
            word@ == word_flags(chars@.take(i as int)),
        decreases chars@.len() - i,
    {
        proof {
            assert(word_flags(chars@.take(i as int)).push(in_word(chars@[i as int]))
                =~= word_flags(chars@.take(i + 1)));
        }
        word.push(chars[i].is_alphanumeric());
        i += 1;
    }
    proof {
        assert(chars@.take(chars@.len() as int) =~= chars@);
    }
    word
}

/// Score `haystack` against `needle`, or `None` if it does not match.
///
/// Higher is better. Matching is case-insensitive, and whitespace in the
/// query is ignored so "git com" finds "git commit" without the space having
/// to line up. Points beyond the range of `i32` wrap around.
pub fn score(haystack: &str, needle: &str) -> (score: Option<i32>)
    ensures
        score == fuzzy_score(haystack@, needle@),
{
    if is_blank(needle) {
        return Some(0);
    }
    let hay = lower_chars(haystack);
    let word = flags_of(&hay);
    let query = lower_chars(needle);
    score_folded(&hay, &word, &query)
}

fn find_from(hay: &Vec<char>, want: char, from: usize) -> (at: Option<usize>)
    requires
        from <= hay@.len(),
    ensures
        match at {
            Some(i) => first_at(hay@, want, from as int) == Some(i as int) && from <= i < hay@.len(),
            None => first_at(hay@, want, from as int) is None,
        },
{
    let mut i: usize = from;
    while i < hay.len()
        invariant
            from <= i <= hay@.len(),
            first_at(hay@, want, from as int) == first_at(hay@, want, i as int),
        decreases hay@.len() - i,
    {
        if hay[i] == want {
            return Some(i);
        }
        i += 1;
    }
    None
}

/// The 32-bit number that a position wraps to.
fn low_bits(n: usize) -> (r: i32)
    ensures
        r == wrapped(n as int),
{
    let low: u64 = n as u64 % 0x1_0000_0000;
    if low < 0x8000_0000 {
        low as i32
    } else {
        (low as i64 - 0x1_0000_0000) as i32
    }
}

fn quarter_of(n: i32) -> (r: i32)
    ensures
        r == quarter(n as int),
{
    if n >= 0 {
        n / 4
    } else {
        let size: i64 = -(n as i64);
        (-(size / 4)) as i32
    }
}

/// Score lower-case characters against a lower-case query. `word` tells which
/// characters of `hay` are letters or numbers.
pub fn score_folded(hay: &Vec<char>, word: &Vec<bool>, query: &Vec<char>) -> (score: Option<i32>)
    requires
        word@.len() == hay@.len(),
    ensures
        score == folded_score(hay@, word@, query@),
{
    let length: usize = hay.len();
    let mut score: i32 = 0;
    let mut cursor: usize = 0;
    let ghost mut found: Seq<int> = Seq::empty();
    let mut n: usize = 0;
    proof {
        reveal(Seq::filter);
    }
    while n < query.len()
        invariant
            n <= query@.len(),
            word@.len() == hay@.len(),
            cursor <= hay@.len() == length,
            places(hay@, wanted(query@.take(n as int))) == Some(found),
            score == wrapped(total(word@, found)),
            cursor == end_of(found),
            cursor > 0 <==> found.len() > 0,
        decreases query@.len() - n,
    {
        let want = query[n];
        proof {
            reveal(Seq::filter);
            assert(query@.take(n + 1).drop_last() =~= query@.take(n as int));
        }
        if !want.is_whitespace() {
            proof {
                assert(wanted(query@.take(n + 1)) =~= wanted(query@.take(n as int)).push(want));
                assert(wanted(query@.take(n + 1)).drop_last() =~= wanted(query@.take(n as int)));
            }
            let at: usize = match find_from(hay, want, cursor) {
                Some(at) => at,
                None => {
                    proof {
                        lemma_no_match_stays_none(hay@, query@, n + 1);
                    }
                    return None;
                },
            };
            let ghost before = found;
            // Runs of adjacent characters are what distinguishes a real
            // substring hit from letters scattered across the line. The
            // distance skipped to reach a character costs.
            let mut gain: i32 = 10;
            if cursor > 0 {
                let gap: usize = at - cursor;
                if gap == 0 {
                    gain = gain + 15;
                } else if gap < 20 {
                    gain = gain - 2 * gap as i32;
                } else {
                    gain = gain - 40;
                }
            }
            // A match at the start of a word is usually what the user meant.
            if at == 0 || !word[at - 1] {
                gain = gain + 8;
            }
            score = score.wrapping_add(gain);
            cursor = at + 1;
            proof {
                found = before.push(at as int);
                assert(found.drop_last() =~= before);
            }
        }
        n += 1;
    }
    proof {
        assert(query@.take(query@.len() as int) =~= query@);
    }
    Some(score.wrapping_sub(quarter_of(low_bits(cursor))))
}

proof fn lemma_no_match_stays_none(hay: Seq<char>, query: Seq<char>, n: int)
    requires
        0 <= n <= query.len(),
        places(hay, wanted(query.take(n))) is None,
    ensures
        places(hay, wanted(query)) is None,
    decreases query.len() - n,
{
    if n < query.len() {
        reveal(Seq::filter);
        assert(query.take(n + 1).drop_last() =~= query.take(n));
        let kept = wanted(query.take(n));
        if !is_white(query[n]) {
            assert(wanted(query.take(n + 1)) =~= kept.push(query[n]));
            assert(kept.push(query[n]).drop_last() =~= kept);
        } else {
            assert(wanted(query.take(n + 1)) =~= kept);
        }
        lemma_no_match_stays_none(hay, query, n + 1);
    } else {
        assert(query.take(n) =~= query);
    }
}

proof fn lemma_first_at(hay: Seq<char>, want: char, from: int)
    requires
        0 <= from,
    ensures
        match first_at(hay, want, from) {
            Some(at) => from <= at < hay.len() && hay[at] == want && forall|i: int|
                from <= i < at ==> hay[i] != want,
            None => forall|i: int| from <= i < hay.len() ==> hay[i] != want,
        },
    decreases hay.len() - from,
{
    if from < hay.len() && hay[from] != want {
        lemma_first_at(hay, want, from + 1);
    }
}

/// `p` picks the characters of `wants` out of `hay`, in their order.
pub open spec fn picks_out(hay: Seq<char>, wants: Seq<char>, p: Seq<int>) -> bool {
    &&& p.len() == wants.len()
    &&& forall|k: int| 0 <= k < p.len() ==> 0 <= #[trigger] p[k] < hay.len() && hay[p[k]] == wants[k]
    &&& forall|j: int, k: int| 0 <= j < k < p.len() ==> p[j] < p[k]
}

/// The places of a match pick the wanted characters out of the haystack in
/// their order, and there is a match whenever they can be picked out: the
/// matcher finds exactly the haystacks that hold the query as a subsequence.
/// No other way to pick them out has any of them earlier.
pub proof fn a_match_is_a_subsequence(hay: Seq<char>, wants: Seq<char>)
    ensures
        places(hay, wants) is Some <==> exists|p: Seq<int>| picks_out(hay, wants, p),
        places(hay, wants) matches Some(found) ==> picks_out(hay, wants, found) && forall|
            p: Seq<int>,
            k: int,
        |
            picks_out(hay, wants, p) && 0 <= k < p.len() ==> found[k] <= #[trigger] p[k],
    decreases wants.len(),
{
    if wants.len() == 0 {
        assert(picks_out(hay, wants, Seq::empty()));
    } else {
        let fewer = wants.drop_last();
        a_match_is_a_subsequence(hay, fewer);
        assert forall|p: Seq<int>| picks_out(hay, wants, p) implies picks_out(
            hay,
            fewer,
            p.drop_last(),
        ) by {}
        if let Some(before) = places(hay, fewer) {
            let from = end_of(before);
            lemma_first_at(hay, wants.last(), from);
            assert forall|p: Seq<int>| picks_out(hay, wants, p) implies from <= p.last()
                && hay[p.last()] == wants.last() by {
                assert(picks_out(hay, fewer, p.drop_last()));
                if before.len() > 0 {
                    let k = before.len() - 1;
                    assert(before[k] <= p.drop_last()[k]);
                    assert(p[k] < p[k + 1]);
                }
            }
            if let Some(at) = first_at(hay, wants.last(), from) {
                let found = before.push(at);
                assert(picks_out(hay, wants, found));
                assert forall|p: Seq<int>, k: int|
                    picks_out(hay, wants, p) && 0 <= k < p.len() implies found[k]
                    <= #[trigger] p[k] by {
                    assert(picks_out(hay, fewer, p.drop_last()));
                    if k < before.len() {
                        assert(before[k] <= p.drop_last()[k]);
                    }
                }
            }
        }
    }
}

/// Whitespace in the query is ignored: where it stands, and whether it stands
/// there at all, changes no score.
pub proof fn whitespace_in_a_query_is_ignored(
    hay: Seq<char>,
    word: Seq<bool>,
    left: Seq<char>,
    white: Seq<char>,
    right: Seq<char>,
)
    requires
        blank(white),
    ensures
        folded_score(hay, word, left + white + right) == folded_score(hay, word, left + right),
{
    let keep = |c: char| !is_white(c);
    Seq::filter_distributes_over_add(left + white, right, keep);
    Seq::filter_distributes_over_add(left, white, keep);
    Seq::filter_distributes_over_add(left, right, keep);
    lemma_nothing_wanted_of_blanks(white);
    assert(wanted(left + white + right) =~= wanted(left + right));
}

proof fn lemma_nothing_wanted_of_blanks(white: Seq<char>)
    requires
        blank(white),
    ensures
        wanted(white) == Seq::<char>::empty(),
    decreases white.len(),
{
    reveal(Seq::filter);
    if white.len() > 0 {
        assert forall|i: int| 0 <= i < white.drop_last().len() implies is_white(
            #[trigger] white.drop_last()[i],
        ) by {
            assert(is_white(white[i]));
        }
        lemma_nothing_wanted_of_blanks(white.drop_last());
        assert(is_white(white[white.len() - 1]));
    }
}

/// What the user types as a query scores alike with and without whitespace in
/// it.
pub proof fn spaces_between_letters_are_ignored(
    haystack: Seq<char>,
    left: Seq<char>,
    white: Seq<char>,
    right: Seq<char>,
)
    requires
        blank(white),
    ensures
        fuzzy_score(haystack, left + white + right) == fuzzy_score(haystack, left + right),
{
    let hay = lowered(haystack);
    blanks_have_no_case(white);
    lowering_adds_up(left + white, right);
    lowering_adds_up(left, white);
    lowering_adds_up(left, right);
    whitespace_in_a_query_is_ignored(
        hay,
        word_flags(hay),
        lowered(left),
        lowered(white),
        lowered(right),
    );
    let long = left + white + right;
    let short = left + right;
    assert(blank(long) <==> blank(short)) by {
        assert forall|i: int| blank(short) && 0 <= i < long.len() implies is_white(
            #[trigger] long[i],
        ) by {
            if i < left.len() {
                assert(long[i] == short[i]);
            } else if i >= left.len() + white.len() {
                assert(long[i] == short[i - white.len()]);
            } else {
                assert(long[i] == white[i - left.len()]);
            }
        }
        assert forall|i: int| blank(long) && 0 <= i < short.len() implies is_white(
            #[trigger] short[i],
        ) by {
            if i < left.len() {
                assert(long[i] == short[i]);
            } else {
                assert(long[i + white.len()] == short[i]);
            }
        }
    }
}

/// A query with nothing but whitespace matches everything alike.
pub proof fn a_blank_query_matches_everything(
    haystack: Seq<char>,
    hay: Seq<char>,
    word: Seq<bool>,
    query: Seq<char>,
)
    requires
        blank(query),
    ensures
        fuzzy_score(haystack, query) == Some(0i32),
        folded_score(hay, word, query) == Some(0i32),
{
    lemma_nothing_wanted_of_blanks(query);
}

/// Case makes no difference: two haystacks, or two queries, that agree in
/// lower case score alike.
pub proof fn matching_ignores_case(
    haystack1: Seq<char>,
    haystack2: Seq<char>,
    needle1: Seq<char>,
    needle2: Seq<char>,
)
    requires
        lowered(haystack1) == lowered(haystack2),
        lowered(needle1) == lowered(needle2),
    ensures
        fuzzy_score(haystack1, needle1) == fuzzy_score(haystack2, needle2),
{
    let hay = lowered(haystack1);
    if blank(needle1) {
        blanks_have_no_case(needle1);
        a_blank_query_matches_everything(haystack1, hay, word_flags(hay), lowered(needle1));
    }
    if blank(needle2) {
        blanks_have_no_case(needle2);
        a_blank_query_matches_everything(haystack1, hay, word_flags(hay), lowered(needle2));
    }
}

/// For texts of any practical length nothing wraps around: the score is the
/// points of the match less a quarter of where it ends.
pub proof fn a_score_does_not_wrap(hay: Seq<char>, word: Seq<bool>, query: Seq<char>)
    requires
        hay.len() <= 0x4000_0000,
        wanted(query).len() <= 0x100_0000,
    ensures
        match places(hay, wanted(query)) {
            Some(p) => folded_score(hay, word, query) == Some(
                (total(word, p) - end_of(p) / 4) as i32,
            ) && -0x8000_0000 <= total(word, p) - end_of(p) / 4 < 0x8000_0000,
            None => folded_score(hay, word, query) is None,
        },
{
    if let Some(p) = places(hay, wanted(query)) {
        a_match_is_a_subsequence(hay, wanted(query));
        lemma_total_is_bounded(hay, word, p);
        if p.len() > 0 {
            assert(0 <= p[p.len() - 1] < hay.len());
        }
    }
}

proof fn lemma_total_is_bounded(hay: Seq<char>, word: Seq<bool>, p: Seq<int>)
    requires
        forall|k: int| 0 <= k < p.len() ==> 0 <= #[trigger] p[k] < hay.len(),
        forall|j: int, k: int| 0 <= j < k < p.len() ==> p[j] < p[k],
    ensures
        -30 * p.len() <= total(word, p) <= 33 * p.len(),
    decreases p.len(),
{
    if p.len() > 0 {
        lemma_total_is_bounded(hay, word, p.drop_last());
        if p.len() > 1 {
            assert(p[p.len() - 2] < p[p.len() - 1]);
        }
    }
}

/// A haystack matches a query exactly if it holds the query's characters, all
/// but the whitespace and whatever their case, one behind the other.
pub proof fn a_match_holds_every_character_in_order(haystack: Seq<char>, needle: Seq<char>)
    ensures
        ({
            let wants = lowered(needle).filter(|c: char| !is_white(c));
            fuzzy_score(haystack, needle) is Some <==> exists|p: Seq<int>|
                picks_out(lowered(haystack), wants, p)
        }),
{
    let wants = lowered(needle).filter(|c: char| !is_white(c));
    assert(wants == wanted(lowered(needle)));
    if blank(needle) {
        blanks_have_no_case(needle);
        lemma_nothing_wanted_of_blanks(needle);
        assert(picks_out(lowered(haystack), wants, Seq::empty()));
    } else {
        a_match_is_a_subsequence(lowered(haystack), wants);
    }
}

/// Skipping costs. Only a match directly behind the one before earns the bonus
/// of a run. Every character that is skipped costs two points more, up to
/// twenty characters; so of two matches that both stand at a word's start, or
/// both do not, the further one never earns more. The first match of a query
/// costs nothing, wherever it is.
pub proof fn skipping_costs(word: Seq<bool>, before: Seq<int>, at: int, further: int)
    requires
        0 <= end_of(before) <= at < further,
        at > 0,
        word[at - 1] == word[further - 1],
    ensures
        points(word, before, at) >= points(word, before, further),
        before.len() == 0 ==> points(word, before, at) == points(word, before, further),
        before.len() > 0 && at == end_of(before) ==> points(word, before, at) >= points(
            word,
            before,
            further,
        ) + 17,
        before.len() > 0 && end_of(before) < at && further == at + 1 ==> points(word, before, at)
            == points(word, before, further) + (if further - end_of(before) <= 20 {
            2int
        } else {
            0
        }),
{
}

/// A match at the start of a word is worth eight points more than one inside,
/// where the first of all is worth ten points, one right behind another 25, and
/// one far behind another costs 30.
pub proof fn a_words_start_counts(
    starts: Seq<bool>,
    inside: Seq<bool>,
    before: Seq<int>,
    at: int,
)
    requires
        at > 0,
        !starts[at - 1],
        inside[at - 1],
    ensures
        points(starts, before, at) == points(inside, before, at) + 8,
        before.len() == 0 ==> points(inside, before, at) == 10,
        before.len() == 0 ==> points(starts, before, 0) == 18,
        before.len() > 0 && at == end_of(before) ==> points(inside, before, at) == 25,
        before.len() > 0 && at - end_of(before) >= 20 ==> points(inside, before, at) == -30,
{
}

/// What a match adds depends on where the one before it was, and on nothing else
/// that came before.
pub proof fn points_go_by_the_place_before(
    word: Seq<bool>,
    one: Seq<int>,
    other: Seq<int>,
    at: int,
)
    requires
        one.len() > 0,
        other.len() > 0,
        one.last() == other.last(),
    ensures
        points(word, one, at) == points(word, other, at),
{
}

/// Of the ASCII characters, words are made of letters and digits; anything else
/// stands between words.
pub proof fn words_are_letters_and_digits(s: Seq<char>, i: int, c: char)
    requires
        0 <= i < s.len(),
        s[i] == c,
        c < '\u{80}',
    ensures
        word_flags(s).len() == s.len(),
        word_flags(s)[i] <==> '0' <= c <= '9' || 'A' <= c <= 'Z' || 'a' <= c <= 'z',
{
    assert(word_flags(s)[i] == in_word(c));
}

/// The points of a match are those of its characters, each counted once.
pub proof fn points_add_up(word: Seq<bool>, before: Seq<int>, at: int)
    ensures
        total(word, Seq::empty()) == 0,
        total(word, before.push(at)) == total(word, before) + points(word, before, at),
{
    assert(before.push(at).drop_last() =~= before);
}

proof fn lemma_a_prefix_matches_itself(hay: Seq<char>, wants: Seq<char>)
    requires
        wants.is_prefix_of(hay),
    ensures
        places(hay, wants) == Some(Seq::new(wants.len(), |i: int| i)),
{
    let straight = Seq::new(wants.len(), |i: int| i);
    assert(picks_out(hay, wants, straight)) by {
        assert forall|k: int| 0 <= k < straight.len() implies 0 <= #[trigger] straight[k]
            < hay.len() && hay[straight[k]] == wants[k] by {
            assert(hay.take(wants.len() as int)[k] == wants[k]);
        }
    }
    a_match_is_a_subsequence(hay, wants);
    let found = places(hay, wants)->0;
    assert forall|k: int| 0 <= k < found.len() implies found[k] == k by {
        assert(found[k] <= straight[k]);
        lemma_places_are_not_early(found, k);
    }
    assert(found =~= straight);
}

proof fn lemma_places_are_not_early(p: Seq<int>, k: int)
    requires
        0 <= k < p.len(),
        forall|i: int| 0 <= i < p.len() ==> 0 <= #[trigger] p[i],
        forall|i: int, j: int| 0 <= i < j < p.len() ==> p[i] < p[j],
    ensures
        k <= p[k],
    decreases k,
{
    if k > 0 {
        lemma_places_are_not_early(p, k - 1);
        assert(p[k - 1] < p[k]);
    } else {
        assert(0 <= p[0]);
    }
}

proof fn lemma_a_run_earns_most(
    run: Seq<char>,
    other: Seq<char>,
    wants: Seq<char>,
    p: Seq<int>,
    m: int,
)
    requires
        wants.is_prefix_of(run),
        picks_out(other, wants, p),
        0 <= m <= wants.len(),
    ensures
        ({
            let most = total(word_flags(run), Seq::new(m as nat, |i: int| i));
            let less = total(word_flags(other), p.take(m));
            &&& most >= less
            &&& (exists|k: int| 0 < k < m && #[trigger] p[k] != p[k - 1] + 1) ==> most > less
        }),
    decreases m,
{
    let straight = Seq::new(m as nat, |i: int| i);
    if m > 0 {
        lemma_a_run_earns_most(run, other, wants, p, m - 1);
        let (w1, w2) = (word_flags(run), word_flags(other));
        assert(straight.drop_last() =~= Seq::new((m - 1) as nat, |i: int| i));
        assert(p.take(m).drop_last() =~= p.take(m - 1));
        let k = m - 1;
        if k > 0 {
            assert(p[k - 1] < p[k]);
            assert(0 <= p[k - 1] < other.len());
            assert(0 <= p[k] < other.len());
            assert(run.take(wants.len() as int)[k - 1] == wants[k - 1]);
            assert(other[p[k - 1]] == wants[k - 1]);
            assert(w1[k - 1] == in_word(wants[k - 1]));
            assert(w2[p[k - 1]] == in_word(wants[k - 1]));
            assert(p.take(m - 1).last() == p[k - 1]);
        } else {
            assert(0 <= p[0] < other.len());
        }
        if exists|j: int| 0 < j < m && #[trigger] p[j] != p[j - 1] + 1 {
            let j = choose|j: int| 0 < j < m && #[trigger] p[j] != p[j - 1] + 1;
            if j < m - 1 {
                assert(p[j] != p[j - 1] + 1);
            }
        }
    }
}

/// What was typed in one piece is found in one piece: a line that begins with
/// the query ranks above any line in which the same characters match with a gap
/// somewhere.
pub proof fn a_run_at_the_start_beats_a_match_with_a_gap(
    run: Seq<char>,
    other: Seq<char>,
    needle: Seq<char>,
    p: Seq<int>,
    gap: int,
)
    requires
        !blank(needle),
        wanted(lowered(needle)).is_prefix_of(lowered(run)),
        places(lowered(other), wanted(lowered(needle))) == Some(p),
        0 < gap < p.len(),
        p[gap] != p[gap - 1] + 1,
        lowered(run).len() <= 0x4000_0000,
        lowered(other).len() <= 0x4000_0000,
        wanted(lowered(needle)).len() <= 0x100_0000,
    ensures
        fuzzy_score(run, needle) matches Some(most) && (fuzzy_score(other, needle) matches Some(less)
            && most > less),
{
    let (hay1, hay2, query) = (lowered(run), lowered(other), lowered(needle));
    let wants = wanted(query);
    lemma_a_prefix_matches_itself(hay1, wants);
    a_match_is_a_subsequence(hay2, wants);
    lemma_a_run_earns_most(hay1, hay2, wants, p, wants.len() as int);
    assert(p.take(wants.len() as int) =~= p);
    a_score_does_not_wrap(hay1, word_flags(hay1), query);
    a_score_does_not_wrap(hay2, word_flags(hay2), query);
    lemma_places_are_not_early(p, p.len() - 1);
    let straight = Seq::new(wants.len(), |i: int| i);
    assert(end_of(straight) == wants.len());
    assert(end_of(p) >= wants.len());
}

/// Of two matches that earn the same points the one that ends earlier never
/// ranks below the other, and four characters earlier is one point more.
pub proof fn of_equal_matches_the_earlier_ranks_higher(
    early: Seq<char>,
    late: Seq<char>,
    query: Seq<char>,
    p: Seq<int>,
    q: Seq<int>,
)
    requires
        places(early, wanted(query)) == Some(p),
        places(late, wanted(query)) == Some(q),
        total(word_flags(early), p) == total(word_flags(late), q),
        end_of(p) <= end_of(q),
        early.len() <= 0x4000_0000,
        late.len() <= 0x4000_0000,
        wanted(query).len() <= 0x100_0000,
    ensures
        ({
            let high = folded_score(early, word_flags(early), query)->0;
            let low = folded_score(late, word_flags(late), query)->0;
            &&& high >= low
            &&& end_of(q) == end_of(p) + 4 ==> high == low + 1
        }),
{
    a_score_does_not_wrap(early, word_flags(early), query);
    a_score_does_not_wrap(late, word_flags(late), query);
}

/// What matches a part of a line matches the line.
pub proof fn a_longer_line_matches_too(left: Seq<char>, right: Seq<char>, needle: Seq<char>)
    ensures
        fuzzy_score(left, needle) is Some ==> fuzzy_score(left + right, needle) is Some,
        fuzzy_score(right, needle) is Some ==> fuzzy_score(left + right, needle) is Some,
{
    let wants = wanted(lowered(needle));
    let (a, b) = (lowered(left), lowered(right));
    lowering_adds_up(left, right);
    a_match_is_a_subsequence(a, wants);
    a_match_is_a_subsequence(b, wants);
    a_match_is_a_subsequence(a + b, wants);
    if !blank(needle) {
        if let Some(p) = places(a, wants) {
            assert(picks_out(a + b, wants, p));
        }
        if let Some(p) = places(b, wants) {
            let shifted = Seq::new(p.len(), |i: int| p[i] + a.len());
            assert forall|k: int| 0 <= k < shifted.len() implies 0 <= #[trigger] shifted[k] < (a
                + b).len() && (a + b)[shifted[k]] == wants[k] by {
                assert(0 <= p[k] < b.len());
            }
            assert(picks_out(a + b, wants, shifted));
        }
    }
}

} // verus!

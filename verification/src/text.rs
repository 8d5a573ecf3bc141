//! Characters and strings: whitespace, case, trimming, previews, decimal
//! numbers.

use vstd::prelude::*;

verus! {

/// The characters that have Unicode's `White_Space` property.
pub open spec fn is_white(c: char) -> bool {
    let u = c as u32;
    ||| 0x9 <= u <= 0xd
    ||| u == 0x20
    ||| u == 0x85
    ||| u == 0xa0
    ||| u == 0x1680
    ||| 0x2000 <= u <= 0x200a
    ||| u == 0x2028
    ||| u == 0x2029
    ||| u == 0x202f
    ||| u == 0x205f
    ||| u == 0x3000
}

/// `char::is_whitespace` tells whether a character has the `White_Space`
/// property. The contract lists the characters that have it.
pub assume_specification[ char::is_whitespace ](c: char) -> (white: bool)
    ensures
        white == is_white(c),
;

/// `String::push` appends one character.
pub assume_specification[ String::push ](s: &mut String, c: char)
    ensures
        final(s)@ == old(s)@.push(c),
;

/// `s` with every run of whitespace between two words replaced by one space,
/// and without whitespace at either end.
pub open spec fn collapsed(s: Seq<char>) -> Seq<char>
    decreases s.len(),
{
    if s.len() == 0 {
        Seq::empty()
    } else {
        let before = collapsed(s.drop_last());
        let c = s.last();
        if is_white(c) {
            before
        } else if before.len() > 0 && is_white(s[s.len() - 2]) {
            before.push(' ').push(c)
        } else {
            before.push(c)
        }
    }
}

/// `s` without the space it may end in.
pub open spec fn without_trailing_space(s: Seq<char>) -> Seq<char> {
    if s.len() > 0 && s.last() == ' ' {
        s.drop_last()
    } else {
        s
    }
}

/// The one-line form of `s` in at most `max` characters; a longer one is cut
/// there, at the word before if the cut falls behind a space, and gets an
/// ellipsis.
pub open spec fn preview_of(s: Seq<char>, max: nat) -> Seq<char> {
    let line = collapsed(s);
    if line.len() <= max {
        line
    } else {
        without_trailing_space(line.take(max as int)).push('…')
    }
}

proof fn lemma_collapsed_grows(s: Seq<char>, n: int)
    requires
        0 <= n <= s.len(),
    ensures
        collapsed(s.take(n)).is_prefix_of(collapsed(s)),
    decreases s.len() - n,
{
    if n < s.len() {
        lemma_collapsed_grows(s, n + 1);
        assert(s.take(n + 1).drop_last() =~= s.take(n));
        assert(collapsed(s.take(n)).is_prefix_of(collapsed(s.take(n + 1))));
    } else {
        assert(s.take(n) =~= s);
    }
}

/// Collapse an entry to a single line for list views.
///
/// Clipboard content is routinely multi-line (code, logs), and every consumer
/// of a list needs one row per item.
pub fn preview(content: &str, max_chars: usize) -> (line: String)
    ensures
        line@ == preview_of(content@, max_chars as nat),
{
    let mut out = String::new();
    let mut chars: usize = 0;
    let mut pending_space = false;
    for c in it: content.chars()
        invariant
            it.seq() == content@,
            out@ == collapsed(content@.take(it.index() as int)),
            out@.len() == chars,
            chars <= max_chars,
            out@.len() > 0 ==> !is_white(out@.last()),
            pending_space <==> out@.len() > 0 && is_white(content@[it.index() - 1]),
    {
        let ghost n = it.index() as int;
        proof {
            assert(content@.take(n + 1).drop_last() =~= content@.take(n));
        }
        if c.is_whitespace() {
            // Leading whitespace is dropped entirely; interior runs collapse.
            pending_space = chars > 0;
        } else {
            // The pending space counts before it is committed to, so cutting
            // at a word gap leaves no space in front of the ellipsis.
            if chars == max_chars || (pending_space && chars + 1 == max_chars) {
                proof {
                    lemma_collapsed_grows(content@, n + 1);
                    let line = collapsed(content@);
                    assert(line.len() > max_chars);
                    assert(without_trailing_space(line.take(max_chars as int)) =~= out@);
                }
                out.push('…');
                return out;
            }
            if pending_space {
                out.push(' ');
                chars += 1;
                pending_space = false;
            }
            out.push(c);
            chars += 1;
        }
    }
    proof {
        assert(content@.take(content@.len() as int) =~= content@);
    }
    out
}

/// A preview is one line: the only whitespace in it is the space.
pub proof fn preview_is_one_line(s: Seq<char>, max: nat)
    ensures
        forall|i: int|
            0 <= i < preview_of(s, max).len() && is_white(#[trigger] preview_of(s, max)[i])
                ==> preview_of(s, max)[i] == ' ',
{
    lemma_collapsed_shape(s);
}

/// A preview holds at most the characters asked for, and the ellipsis.
pub proof fn preview_is_short(s: Seq<char>, max: nat)
    ensures
        preview_of(s, max).len() <= max + 1,
        collapsed(s).len() <= max ==> preview_of(s, max) == collapsed(s),
        collapsed(s).len() > max ==> preview_of(s, max).last() == '…',
{
    lemma_collapsed_shape(s);
}

/// A preview neither begins nor ends with a space, and the ellipsis of a cut
/// one never stands behind a space.
pub proof fn preview_has_no_loose_space(s: Seq<char>, max: nat)
    ensures
        ({
            let line = preview_of(s, max);
            &&& line.len() > 0 ==> line.first() != ' ' && line.last() != ' '
            &&& collapsed(s).len() > max && line.len() > 1 ==> line[line.len() - 2] != ' '
        }),
{
    lemma_collapsed_shape(s);
}

/// Text that is one trimmed line of single-spaced words, and short enough, is
/// its own preview.
pub proof fn preview_keeps_short_lines(s: Seq<char>, max: nat)
    requires
        s.len() <= max,
        forall|i: int| 0 <= i < s.len() && is_white(#[trigger] s[i]) ==> s[i] == ' ',
        forall|i: int|
            0 <= i < s.len() && #[trigger] s[i] == ' ' ==> 0 < i < s.len() - 1 && s[i - 1] != ' ',
    ensures
        preview_of(s, max) == s,
{
    lemma_collapsed_of_line(s, s.len() as int);
    assert(s.take(s.len() as int) =~= s);
}

proof fn lemma_collapsed_of_line(s: Seq<char>, n: int)
    requires
        0 <= n <= s.len(),
        forall|i: int| 0 <= i < s.len() && is_white(#[trigger] s[i]) ==> s[i] == ' ',
        forall|i: int|
            0 <= i < s.len() && #[trigger] s[i] == ' ' ==> 0 < i < s.len() - 1 && s[i - 1] != ' ',
    ensures
        collapsed(s.take(n)) == (if n > 0 && s[n - 1] == ' ' {
            s.take(n - 1)
        } else {
            s.take(n)
        }),
    decreases n,
{
    if n > 0 {
        lemma_collapsed_of_line(s, n - 1);
        assert(s.take(n).drop_last() =~= s.take(n - 1));
        if n > 1 && s[n - 2] == ' ' {
            assert(s.take(n - 2).push(' ').push(s[n - 1]) =~= s.take(n));
        } else if s[n - 1] != ' ' {
            assert(s.take(n - 1).push(s[n - 1]) =~= s.take(n));
        }
    }
}

/// Two words never stand further apart than one space in a collapsed line, and
/// it has no other whitespace.
proof fn lemma_collapsed_shape(s: Seq<char>)
    ensures
        ({
            let line = collapsed(s);
            &&& forall|i: int| 0 <= i < line.len() && is_white(#[trigger] line[i]) ==> line[i] == ' '
            &&& forall|i: int|
                0 <= i < line.len() && #[trigger] line[i] == ' ' ==> 0 < i < line.len() - 1
                    && line[i - 1] != ' '
        }),
    decreases s.len(),
{
    if s.len() > 0 {
        lemma_collapsed_shape(s.drop_last());
        let before = collapsed(s.drop_last());
        assert(before.len() > 0 ==> before[before.len() - 1] != ' ');
    }
}

/// Collapsing is settled after one round: a collapsed line collapses to
/// itself.
pub proof fn collapsing_twice_is_collapsing_once(s: Seq<char>)
    ensures
        collapsed(collapsed(s)) == collapsed(s),
{
    lemma_collapsed_shape(s);
    let line = collapsed(s);
    lemma_collapsed_of_line(line, line.len() as int);
    assert(line.take(line.len() as int) =~= line);
}

/// The characters of a string, one by one.
pub fn chars_of(s: &str) -> (chars: Vec<char>)
    ensures
        chars@ == s@,
{
    let mut chars: Vec<char> = Vec::new();
    for c in it: s.chars()
        invariant
            it.seq() == s@,
            chars@ == s@.take(it.index() as int),
    {
        proof {
            assert(s@.take(it.index() as int).push(c) =~= s@.take(it.index() + 1));
        }
        chars.push(c);
    }
    proof {
        assert(s@.take(s@.len() as int) =~= s@);
    }
    chars
}

/// The string made of `chars[from..to]`.
pub fn string_of(chars: &Vec<char>, from: usize, to: usize) -> (s: String)
    requires
        from <= to <= chars@.len(),
    ensures
        s@ == chars@.subrange(from as int, to as int),
{
    let mut s = String::new();
    let mut i: usize = from;
    while i < to
        invariant
            from <= i <= to <= chars@.len(),
            s@ == chars@.subrange(from as int, i as int),
        decreases to - i,
    {
        proof {
            assert(chars@.subrange(from as int, i as int).push(chars@[i as int])
                =~= chars@.subrange(from as int, i + 1));
        }
        s.push(chars[i]);
        i += 1;
    }
    s
}

/// `s` without whitespace at either end.
pub open spec fn trimmed(s: Seq<char>) -> Seq<char>
    decreases s.len(),
{
    if s.len() == 0 {
        s
    } else if is_white(s.first()) {
        trimmed(s.drop_first())
    } else if is_white(s.last()) {
        trimmed(s.drop_last())
    } else {
        s
    }
}

/// Nothing but whitespace.
pub open spec fn blank(s: Seq<char>) -> bool {
    forall|i: int| 0 <= i < s.len() ==> is_white(#[trigger] s[i])
}

/// What trims away to nothing is exactly what is blank.
pub proof fn trimming_leaves_nothing_of_blanks_only(s: Seq<char>)
    ensures
        trimmed(s).len() == 0 <==> blank(s),
    decreases s.len(),
{
    if s.len() == 0 {
    } else if is_white(s.first()) {
        trimming_leaves_nothing_of_blanks_only(s.drop_first());
        assert forall|i: int| blank(s.drop_first()) && 0 <= i < s.len() implies is_white(
            #[trigger] s[i],
        ) by {
            if i > 0 {
                assert(s.drop_first()[i - 1] == s[i]);
            }
        }
        assert(blank(s) ==> blank(s.drop_first()));
    } else {
        assert(!blank(s)) by {
            assert(!is_white(s[0]));
        }
        if is_white(s.last()) {
            trimming_leaves_nothing_of_blanks_only(s.drop_last());
            assert(s.drop_last()[0] == s[0]);
        }
    }
}

/// `s` without leading and trailing whitespace.
pub fn trim(s: &str) -> (t: String)
    ensures
        t@ == trimmed(s@),
{
    let chars = chars_of(s);
    let mut from: usize = 0;
    let mut to: usize = chars.len();
    proof {
        assert(chars@.subrange(0, chars@.len() as int) =~= chars@);
    }
    while from < to && chars[from].is_whitespace()
        invariant
            from <= to <= chars@.len(),
            trimmed(chars@) == trimmed(chars@.subrange(from as int, to as int)),
        decreases to - from,
    {
        proof {
            assert(chars@.subrange(from as int, to as int).drop_first()
                =~= chars@.subrange(from + 1, to as int));
        }
        from += 1;
    }
    while from < to && chars[to - 1].is_whitespace()
        invariant
            from <= to <= chars@.len(),
            from < to ==> !is_white(chars@[from as int]),
            trimmed(chars@) == trimmed(chars@.subrange(from as int, to as int)),
        decreases to - from,
    {
        proof {
            assert(chars@.subrange(from as int, to as int).drop_last()
                =~= chars@.subrange(from as int, to - 1));
        }
        to -= 1;
    }
    string_of(&chars, from, to)
}

/// Whether `s` holds nothing but whitespace.
pub fn is_blank(s: &str) -> (b: bool)
    ensures
        b == blank(s@),
{
    for c in it: s.chars()
        invariant
            it.seq() == s@,
            forall|i: int| 0 <= i < it.index() ==> is_white(#[trigger] s@[i]),
    {
        if !c.is_whitespace() {
            return false;
        }
    }
    true
}

/// An ASCII capital made small; any other character as it is.
pub open spec fn ascii_lower(c: char) -> char {
    if 'A' <= c <= 'Z' {
        (c as u32 + 32) as char
    } else {
        c
    }
}

/// `s` with its ASCII capitals made small.
pub open spec fn ascii_lowered(s: Seq<char>) -> Seq<char> {
    s.map_values(|c: char| ascii_lower(c))
}

/// The lower-case mapping of one character that is neither ASCII nor
/// whitespace, as `char::to_lowercase` gives it.
pub uninterp spec fn lowercase_of(c: char) -> Seq<char>;

/// `char::to_lowercase` yields the lower-case mapping of a character. An ASCII
/// character maps to its small form, whitespace has no mapping and stays as it
/// is; of any other character the contract names the mapping.
#[verifier::external_body]
fn lowercase(c: char) -> (mapped: Vec<char>)
    ensures
        (c as u32) < 0x80 ==> mapped@ == seq![ascii_lower(c)],
        is_white(c) ==> mapped@ == seq![c],
        (c as u32) >= 0x80 && !is_white(c) ==> mapped@ == lowercase_of(c),
{
    c.to_lowercase().collect()
}

/// One character in lower case.
pub open spec fn lower(c: char) -> Seq<char> {
    if (c as u32) < 0x80 {
        seq![ascii_lower(c)]
    } else if is_white(c) {
        seq![c]
    } else {
        lowercase_of(c)
    }
}

/// `s` in lower case.
pub open spec fn lowered(s: Seq<char>) -> Seq<char>
    decreases s.len(),
{
    if s.len() == 0 {
        Seq::empty()
    } else {
        lowered(s.drop_last()) + lower(s.last())
    }
}

/// The characters of `s` in lower case.
pub fn lower_chars(s: &str) -> (chars: Vec<char>)
    ensures
        chars@ == lowered(s@),
{
    let mut chars: Vec<char> = Vec::new();
    for c in it: s.chars()
        invariant
            it.seq() == s@,
            chars@ == lowered(s@.take(it.index() as int)),
    {
        let mut mapped = lowercase(c);
        proof {
            assert(s@.take(it.index() + 1).drop_last() =~= s@.take(it.index() as int));
        }
        chars.append(&mut mapped);
    }
    proof {
        assert(s@.take(s@.len() as int) =~= s@);
    }
    chars
}

/// Text is put into lower case part by part.
pub proof fn lowering_adds_up(a: Seq<char>, b: Seq<char>)
    ensures
        lowered(a + b) == lowered(a) + lowered(b),
    decreases b.len(),
{
    if b.len() == 0 {
        assert(a + b =~= a);
        assert(lowered(a) + lowered(b) =~= lowered(a));
    } else {
        lowering_adds_up(a, b.drop_last());
        assert((a + b).drop_last() =~= a + b.drop_last());
        assert(lowered(a) + lowered(b) =~= lowered(a) + lowered(b.drop_last()) + lower(b.last()));
    }
}

/// Whitespace is the same in lower case.
pub proof fn blanks_have_no_case(s: Seq<char>)
    requires
        blank(s),
    ensures
        lowered(s) == s,
    decreases s.len(),
{
    if s.len() > 0 {
        assert forall|i: int| 0 <= i < s.drop_last().len() implies is_white(
            #[trigger] s.drop_last()[i],
        ) by {
            assert(is_white(s[i]));
        }
        blanks_have_no_case(s.drop_last());
        assert(is_white(s[s.len() - 1]));
        assert(lowered(s) =~= s);
    }
}

/// ASCII text in lower case is that text with its capitals made small.
pub proof fn ascii_is_lowered_letter_by_letter(s: Seq<char>)
    requires
        forall|i: int| 0 <= i < s.len() ==> (#[trigger] s[i] as u32) < 0x80,
    ensures
        lowered(s) == ascii_lowered(s),
    decreases s.len(),
{
    if s.len() > 0 {
        assert forall|i: int| 0 <= i < s.drop_last().len() implies (#[trigger] s.drop_last()[i]
            as u32) < 0x80 by {
            assert((s[i] as u32) < 0x80);
        }
        ascii_is_lowered_letter_by_letter(s.drop_last());
        assert((s[s.len() - 1] as u32) < 0x80);
        assert(lowered(s) =~= ascii_lowered(s));
    } else {
        assert(lowered(s) =~= ascii_lowered(s));
    }
}

/// Texts that differ in the case of ASCII letters only are the same in lower
/// case.
pub proof fn ascii_case_vanishes_in_lower_case(a: Seq<char>, b: Seq<char>)
    requires
        ascii_lowered(a) == ascii_lowered(b),
    ensures
        lowered(a) == lowered(b),
    decreases a.len(),
{
    assert(a.len() == b.len()) by {
        assert(ascii_lowered(a).len() == a.len());
        assert(ascii_lowered(b).len() == b.len());
    }
    if a.len() > 0 {
        assert(ascii_lowered(a.drop_last()) =~= ascii_lowered(a).drop_last());
        assert(ascii_lowered(b.drop_last()) =~= ascii_lowered(b).drop_last());
        ascii_case_vanishes_in_lower_case(a.drop_last(), b.drop_last());
        assert(ascii_lowered(a).last() == ascii_lower(a.last()));
        assert(ascii_lowered(b).last() == ascii_lower(b.last()));
    }
}

/// `part` stands in `whole`, in one piece.
pub open spec fn occurs_in(part: Seq<char>, whole: Seq<char>) -> bool {
    exists|at: int|
        0 <= at && at + part.len() <= whole.len() && #[trigger] whole.subrange(
            at,
            at + part.len(),
        ) == part
}

/// Whether `part` stands in `whole`.
pub fn occurs(part: &Vec<char>, whole: &Vec<char>) -> (b: bool)
    ensures
        b == occurs_in(part@, whole@),
{
    if part.len() > whole.len() {
        return false;
    }
    let last: usize = whole.len() - part.len();
    let mut at: usize = 0;
    while at <= last
        invariant
            last == whole@.len() - part@.len(),
            at <= last + 1,
            forall|k: int|
                0 <= k < at ==> #[trigger] whole@.subrange(k, k + part@.len()) != part@,
        decreases last + 1 - at,
    {
        if matches_at(part, whole, at) {
            return true;
        }
        if at == last {
            return false;
        }
        at += 1;
    }
    false
}

fn matches_at(part: &Vec<char>, whole: &Vec<char>, at: usize) -> (b: bool)
    requires
        at + part@.len() <= whole@.len(),
    ensures
        b == (whole@.subrange(at as int, at + part@.len()) == part@),
{
    let end: usize = whole.len();
    let mut i: usize = 0;
    while i < part.len()
        invariant
            i <= part@.len(),
            at + part@.len() <= whole@.len() == end,
            forall|k: int| 0 <= k < i ==> whole@[at + k] == #[trigger] part@[k],
        decreases part@.len() - i,
    {
        if whole[at + i] != part[i] {
            proof {
                assert(whole@.subrange(at as int, at + part@.len())[i as int] != part@[i as int]);
            }
            return false;
        }
        i += 1;
    }
    proof {
        assert(whole@.subrange(at as int, at + part@.len()) =~= part@);
    }
    true
}

/// The character of a decimal digit.
pub open spec fn digit(d: int) -> char {
    ('0' as u32 + d) as char
}

/// The decimal digits of `n`.
pub open spec fn digits_of(n: nat) -> Seq<char>
    decreases n,
{
    if n < 10 {
        seq![digit(n as int)]
    } else {
        digits_of(n / 10).push(digit((n % 10) as int))
    }
}

/// `n` in decimal.
pub open spec fn decimal_of(n: int) -> Seq<char> {
    if n < 0 {
        seq!['-'] + digits_of((-n) as nat)
    } else {
        digits_of(n as nat)
    }
}

/// Appends the decimal digits of `n`.
pub fn push_number(out: &mut String, n: u64)
    ensures
        final(out)@ == old(out)@ + digits_of(n as nat),
    decreases n,
{
    if n >= 10 {
        push_number(out, n / 10);
    }
    out.push((48u8 + (n % 10) as u8) as char);
    proof {
        assert(out@ =~= old(out)@ + digits_of(n as nat));
    }
}

/// Appends `n` in decimal.
pub fn push_decimal(out: &mut String, n: i64)
    ensures
        final(out)@ == old(out)@ + decimal_of(n as int),
{
    if n >= 0 {
        push_number(out, n as u64);
    } else {
        out.push('-');
        let size: u64 = magnitude(n);
        push_number(out, size);
        proof {
            assert(out@ =~= old(out)@ + decimal_of(n as int));
        }
    }
}

/// 10 to the power of `k`.
pub open spec fn power_of_ten(k: nat) -> nat
    decreases k,
{
    if k == 0 {
        1
    } else {
        10 * power_of_ten((k - 1) as nat)
    }
}

/// A number below a power of ten has no more digits than its exponent says.
pub proof fn small_numbers_are_short(n: nat, k: nat)
    requires
        k > 0,
        n < power_of_ten(k),
    ensures
        0 < digits_of(n).len() <= k,
    decreases k,
{
    if n >= 10 {
        if k == 1 {
            assert(power_of_ten(0) == 1);
        }
        small_numbers_are_short(n / 10, (k - 1) as nat);
    }
}

/// How many decimal digits `n` has.
pub fn count_digits(n: u64) -> (count: usize)
    ensures
        count == digits_of(n as nat).len(),
        0 < count <= 20,
    decreases n,
{
    proof {
        reveal_with_fuel(power_of_ten, 21);
        small_numbers_are_short(n as nat, 20);
    }
    if n < 10 {
        1
    } else {
        count_digits(n / 10) + 1
    }
}

/// `n` times the character `c`.
pub open spec fn repeated(c: char, n: int) -> Seq<char> {
    Seq::new(
        if n > 0 {
            n as nat
        } else {
            0
        },
        |i: int| c,
    )
}

/// `s` with spaces in front of it, at least `width` characters in all.
pub open spec fn right_aligned(s: Seq<char>, width: int) -> Seq<char> {
    repeated(' ', width - s.len()) + s
}

/// Appends `n` times the character `c`.
pub fn push_repeated(out: &mut String, c: char, n: usize)
    ensures
        final(out)@ == old(out)@ + repeated(c, n as int),
{
    let mut i: usize = 0;
    proof {
        assert(out@ =~= old(out)@ + repeated(c, 0));
    }
    while i < n
        invariant
            i <= n,
            out@ == old(out)@ + repeated(c, i as int),
        decreases n - i,
    {
        proof {
            assert((old(out)@ + repeated(c, i as int)).push(c) =~= old(out)@ + repeated(c, i + 1));
        }
        out.push(c);
        i += 1;
    }
}

/// Appends `n` in decimal, right-aligned.
pub fn push_aligned(out: &mut String, n: i64, width: usize)
    ensures
        final(out)@ == old(out)@ + right_aligned(decimal_of(n as int), width as int),
{
    let size: u64 = magnitude(n);
    let digits: usize = count_digits(size);
    let len: usize = if n < 0 {
        digits + 1
    } else {
        digits
    };
    if len < width {
        push_repeated(out, ' ', width - len);
    } else {
        proof {
            assert(repeated(' ', width - len) =~= Seq::empty());
            assert(out@ =~= old(out)@ + repeated(' ', width - len));
        }
    }
    push_decimal(out, n);
    proof {
        assert(out@ =~= old(out)@ + right_aligned(decimal_of(n as int), width as int));
    }
}

/// `n` without its sign.
pub fn magnitude(n: i64) -> (size: u64)
    ensures
        size == (if n < 0 {
            -n
        } else {
            n as int
        }),
{
    if n >= 0 {
        n as u64
    } else if n == i64::MIN {
        0x8000_0000_0000_0000
    } else {
        (-n) as u64
    }
}

/// A word is its own line.
pub proof fn a_word_collapses_to_itself(word: Seq<char>)
    requires
        forall|i: int| 0 <= i < word.len() ==> !is_white(#[trigger] word[i]),
    ensures
        collapsed(word) == word,
{
    lemma_collapsed_of_line(word, word.len() as int);
    assert(word.take(word.len() as int) =~= word);
}

/// Whitespace between two texts, however much and of whatever kind, becomes one
/// space between their lines, and none where one of them holds no word.
pub proof fn collapsing_joins_with_one_space(a: Seq<char>, white: Seq<char>, b: Seq<char>)
    requires
        blank(white),
        white.len() > 0,
    ensures
        collapsed(a + white + b) == (if collapsed(a).len() == 0 {
            collapsed(b)
        } else if collapsed(b).len() == 0 {
            collapsed(a)
        } else {
            collapsed(a) + seq![' '] + collapsed(b)
        }),
    decreases b.len(),
{
    let whole = a + white + b;
    if b.len() == 0 {
        lemma_trailing_blanks_collapse(a, white);
        assert(whole =~= a + white);
    } else {
        let fewer = b.drop_last();
        collapsing_joins_with_one_space(a, white, fewer);
        assert(whole.drop_last() =~= a + white + fewer);
        let c = b.last();
        assert(whole.last() == c);
        if !is_white(c) {
            if fewer.len() == 0 {
                assert(whole[whole.len() - 2] == white[white.len() - 1]);
            } else {
                assert(whole[whole.len() - 2] == fewer.last());
                assert(b[b.len() - 2] == fewer.last());
            }
            let (x, y) = (collapsed(a), collapsed(fewer));
            assert((x + seq![' '] + y).push(' ').push(c) =~= x + seq![' '] + y.push(' ').push(c));
            assert((x + seq![' '] + y).push(c) =~= x + seq![' '] + y.push(c));
            assert(x.push(' ').push(c) =~= x + seq![' '] + Seq::<char>::empty().push(c));
            assert(y.len() == 0 ==> y =~= Seq::empty());
            assert(x.len() == 0 ==> x =~= Seq::empty());
        }
    }
}

proof fn lemma_trailing_blanks_collapse(a: Seq<char>, white: Seq<char>)
    requires
        blank(white),
    ensures
        collapsed(a + white) == collapsed(a),
    decreases white.len(),
{
    if white.len() == 0 {
        assert(a + white =~= a);
    } else {
        assert forall|i: int| 0 <= i < white.drop_last().len() implies is_white(
            #[trigger] white.drop_last()[i],
        ) by {
            assert(is_white(white[i]));
        }
        lemma_trailing_blanks_collapse(a, white.drop_last());
        assert((a + white).drop_last() =~= a + white.drop_last());
        assert(is_white(white[white.len() - 1]));
    }
}

/// A preview that is cut is the beginning of the line, as long as asked for, or
/// one shorter where it would end with a space, and the ellipsis.
pub proof fn a_cut_preview_is_the_beginning(s: Seq<char>, max: nat)
    requires
        collapsed(s).len() > max,
    ensures
        ({
            let (line, shown) = (collapsed(s), preview_of(s, max));
            let kept = shown.drop_last();
            &&& shown.len() > 0 && shown.last() == '…'
            &&& kept.is_prefix_of(line)
            &&& kept.len() == max || (kept.len() == max - 1 && line[max - 1] == ' ')
        }),
{
    let line = collapsed(s);
    let first = line.take(max as int);
    assert(without_trailing_space(first).push('…').drop_last() =~= without_trailing_space(first));
}

/// Outside `from..to` there is nothing but whitespace in `s`.
pub open spec fn blank_outside(s: Seq<char>, from: int, to: int) -> bool {
    &&& 0 <= from <= to <= s.len()
    &&& blank(s.take(from))
    &&& blank(s.skip(to))
}

/// Trimming takes whitespace, all of it at both ends, and nothing else.
pub proof fn trimming_takes_the_ends_only(s: Seq<char>)
    ensures
        exists|from: int, to: int| #[trigger]
            blank_outside(s, from, to) && trimmed(s) == s.subrange(from, to),
        trimmed(s).len() > 0 ==> !is_white(trimmed(s).first()) && !is_white(trimmed(s).last()),
    decreases s.len(),
{
    if s.len() == 0 {
        assert(blank_outside(s, 0, 0));
        assert(s.subrange(0, 0) =~= s);
    } else if is_white(s.first()) {
        let rest = s.drop_first();
        trimming_takes_the_ends_only(rest);
        let (from, to) = choose|from: int, to: int| #[trigger]
            blank_outside(rest, from, to) && trimmed(rest) == rest.subrange(from, to);
        lemma_blank_outside_grows_left(s, from, to);
        assert(s.subrange(from + 1, to + 1) =~= rest.subrange(from, to));
    } else if is_white(s.last()) {
        let rest = s.drop_last();
        trimming_takes_the_ends_only(rest);
        let (from, to) = choose|from: int, to: int| #[trigger]
            blank_outside(rest, from, to) && trimmed(rest) == rest.subrange(from, to);
        lemma_blank_outside_grows_right(s, from, to);
        assert(s.subrange(from, to) =~= rest.subrange(from, to));
    } else {
        assert(blank_outside(s, 0, s.len() as int));
        assert(s.subrange(0, s.len() as int) =~= s);
    }
}

proof fn lemma_blank_outside_grows_left(s: Seq<char>, from: int, to: int)
    requires
        s.len() > 0,
        is_white(s.first()),
        blank_outside(s.drop_first(), from, to),
    ensures
        blank_outside(s, from + 1, to + 1),
{
    let rest = s.drop_first();
    assert forall|i: int| 0 <= i < s.take(from + 1).len() implies is_white(
        #[trigger] s.take(from + 1)[i],
    ) by {
        if i > 0 {
            assert(is_white(rest.take(from)[i - 1]));
        }
    }
    assert(s.skip(to + 1) =~= rest.skip(to));
}

proof fn lemma_blank_outside_grows_right(s: Seq<char>, from: int, to: int)
    requires
        s.len() > 0,
        is_white(s.last()),
        blank_outside(s.drop_last(), from, to),
    ensures
        blank_outside(s, from, to),
{
    let rest = s.drop_last();
    assert(s.take(from) =~= rest.take(from));
    assert forall|i: int| 0 <= i < s.skip(to).len() implies is_white(#[trigger] s.skip(to)[i]) by {
        if i < rest.skip(to).len() {
            assert(is_white(rest.skip(to)[i]));
        }
    }
}

proof fn lemma_leading_blanks_are_trimmed(left: Seq<char>, s: Seq<char>)
    requires
        blank(left),
    ensures
        trimmed(left + s) == trimmed(s),
    decreases left.len(),
{
    if left.len() == 0 {
        assert(left + s =~= s);
    } else {
        let fewer = left.drop_first();
        assert forall|i: int| 0 <= i < fewer.len() implies is_white(#[trigger] fewer[i]) by {
            assert(is_white(left[i + 1]));
        }
        lemma_leading_blanks_are_trimmed(fewer, s);
        assert((left + s).drop_first() =~= fewer + s);
        assert(is_white(left[0]));
        assert((left + s).first() == left[0]);
    }
}

proof fn lemma_trailing_blanks_are_trimmed(s: Seq<char>, right: Seq<char>)
    requires
        blank(right),
    ensures
        trimmed(s + right) == trimmed(s),
    decreases s.len() + right.len(),
{
    if right.len() == 0 {
        assert(s + right =~= s);
    } else if s.len() == 0 {
        assert(s + right =~= right);
        trimming_leaves_nothing_of_blanks_only(right);
        assert(trimmed(right) =~= Seq::empty());
        assert(s =~= Seq::empty());
    } else {
        let whole = s + right;
        assert(whole.first() == s.first());
        if is_white(s.first()) {
            assert(whole.drop_first() =~= s.drop_first() + right);
            lemma_trailing_blanks_are_trimmed(s.drop_first(), right);
        } else {
            let fewer = right.drop_last();
            assert forall|i: int| 0 <= i < fewer.len() implies is_white(#[trigger] fewer[i]) by {
                assert(is_white(right[i]));
            }
            assert(is_white(right[right.len() - 1]));
            assert(whole.last() == right.last());
            assert(whole.drop_last() =~= s + fewer);
            lemma_trailing_blanks_are_trimmed(s, fewer);
        }
    }
}

/// Blanks around a text are trimmed away, whatever the text.
pub proof fn blanks_around_are_trimmed(left: Seq<char>, s: Seq<char>, right: Seq<char>)
    requires
        blank(left),
        blank(right),
    ensures
        trimmed(left + s + right) == trimmed(s),
{
    lemma_trailing_blanks_are_trimmed(left + s, right);
    lemma_leading_blanks_are_trimmed(left, s);
}

} // verus!

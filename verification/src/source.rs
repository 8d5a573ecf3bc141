//! Which application the clipboard content came from, for denylist matching.
//!
//! Two strategies, because neither alone is sufficient: the selection owner,
//! which is exact when it works, but is often an unmapped window with no
//! WM_CLASS anywhere up its ancestry; and the focused window, a heuristic that
//! assumes whoever has focus is who copied.

use crate::transfer::{decode_lossy, lossy_text};
use vstd::prelude::*;
use vstd::string::*;

verus! {

/// `raw` with every run of NULs between two parts replaced by one dot, and
/// without NULs at either end.
pub open spec fn dotted(raw: Seq<char>) -> Seq<char>
    decreases raw.len(),
{
    if raw.len() == 0 {
        Seq::empty()
    } else {
        let before = dotted(raw.drop_last());
        let c = raw.last();
        if c == '\0' {
            before
        } else if before.len() > 0 && raw[raw.len() - 2] == '\0' {
            before.push('.').push(c)
        } else {
            before.push(c)
        }
    }
}

/// The class that the text of a WM_CLASS property names, if it names one.
pub open spec fn class_in(raw: Seq<char>) -> Option<Seq<char>> {
    if dotted(raw).len() == 0 {
        None
    } else {
        Some(dotted(raw))
    }
}

/// The text of an optional string.
pub open spec fn text_of(s: Option<String>) -> Option<Seq<char>> {
    match s {
        Some(s) => Some(s@),
        None => None,
    }
}

/// WM_CLASS is "instance\0class\0"; both halves are kept so a denylist entry
/// can match whichever the user knows.
pub fn class_of_text(raw: &str) -> (class: Option<String>)
    ensures
        text_of(class) == class_in(raw@),
{
    let mut out = String::new();
    let mut some = false;
    let mut gap = false;
    for c in it: raw.chars()
        invariant
            it.seq() == raw@,
            out@ == dotted(raw@.take(it.index() as int)),
            some == (out@.len() > 0),
            gap <==> out@.len() > 0 && raw@[it.index() - 1] == '\0',
    {
        proof {
            assert(raw@.take(it.index() + 1).drop_last() =~= raw@.take(it.index() as int));
        }
        if c == '\0' {
            gap = some;
        } else {
            if gap {
                out.push('.');
                gap = false;
            }
            out.push(c);
            some = true;
        }
    }
    proof {
        assert(raw@.take(raw@.len() as int) =~= raw@);
    }
    if some {
        Some(out)
    } else {
        None
    }
}

/// The class that a WM_CLASS property names, if it names one.
pub fn wm_class(value: &Vec<u8>) -> (class: Option<String>)
    ensures
        text_of(class) == (if value@.len() == 0 {
            None
        } else {
            class_in(lossy_text(value@))
        }),
        vstd::utf8::valid_utf8(value@) && value@.len() > 0 ==> text_of(class) == class_in(
            vstd::utf8::decode_utf8(value@),
        ),
{
    if value.len() == 0 {
        return None;
    }
    let raw = decode_lossy(value.as_slice());
    class_of_text(raw.as_str())
}

/// How many windows are looked at on the way up.
pub const MAX_ANCESTORS: u32 = 16;

/// A search for the nearest window with a class, from a window upwards.
pub struct Ascent {
    left: u32,
}

impl Ascent {
    /// How many more windows may be looked at.
    pub closed spec fn remaining(self) -> u32 {
        self.left
    }

    /// A search that is about to look at its first window.
    pub fn new() -> (ascent: Ascent)
        ensures
            ascent.remaining() == MAX_ANCESTORS - 1,
    {
        Ascent { left: MAX_ANCESTORS - 1 }
    }

    /// The window to look at next, when the last one had no class: its parent,
    /// unless that is missing or the root, or enough windows were looked at.
    pub fn climb(&mut self, parent: u32, root: u32) -> (next: Option<u32>)
        ensures
            next == (if parent == 0 || parent == root || old(self).remaining() == 0 {
                None
            } else {
                Some(parent)
            }),
            final(self).remaining() == (if next is Some {
                old(self).remaining() - 1
            } else {
                old(self).remaining() as int
            }),
    {
        if parent == 0 || parent == root || self.left == 0 {
            None
        } else {
            self.left = self.left - 1;
            Some(parent)
        }
    }
}

/// A window, unless it is 0, which stands for none.
pub fn some_window(window: u32) -> (w: Option<u32>)
    ensures
        w == (if window == 0 {
            None
        } else {
            Some(window)
        }),
{
    if window == 0 {
        None
    } else {
        Some(window)
    }
}

/// The class of the owner, or else that of the focused window.
pub fn source_class(owner: Option<String>, focused: Option<String>) -> (class: Option<String>)
    ensures
        class == (if owner is Some {
            owner
        } else {
            focused
        }),
{
    match owner {
        Some(class) => Some(class),
        None => focused,
    }
}

/// A class holds no NUL, and is text.
pub proof fn a_class_holds_no_nul(raw: Seq<char>)
    ensures
        forall|i: int| 0 <= i < dotted(raw).len() ==> #[trigger] dotted(raw)[i] != '\0',
        class_in(raw) matches Some(class) ==> class.len() > 0,
    decreases raw.len(),
{
    if raw.len() > 0 {
        a_class_holds_no_nul(raw.drop_last());
    }
}

/// The usual property names two parts, each ended by a NUL, and the class is
/// the two with a dot between them.
pub proof fn instance_and_class_are_both_kept(instance: Seq<char>, class: Seq<char>)
    requires
        instance.len() > 0,
        class.len() > 0,
        forall|i: int| 0 <= i < instance.len() ==> #[trigger] instance[i] != '\0',
        forall|i: int| 0 <= i < class.len() ==> #[trigger] class[i] != '\0',
    ensures
        dotted(instance + seq!['\0'] + class + seq!['\0']) == instance + seq!['.'] + class,
{
    let one = instance + seq!['\0'];
    lemma_plain_part(instance, instance.len() as int);
    assert(instance.take(instance.len() as int) =~= instance);
    assert(one.drop_last() =~= instance);
    assert(dotted(one) == instance);
    lemma_second_part(one, instance, class, class.len() as int);
    assert(class.take(class.len() as int) =~= class);
    let two = one + class;
    let whole = two + seq!['\0'];
    assert(whole.drop_last() =~= two);
    assert(instance + seq!['\0'] + class + seq!['\0'] =~= whole);
}

proof fn lemma_plain_part(part: Seq<char>, n: int)
    requires
        0 <= n <= part.len(),
        forall|i: int| 0 <= i < part.len() ==> #[trigger] part[i] != '\0',
    ensures
        dotted(part.take(n)) == part.take(n),
    decreases n,
{
    if n > 0 {
        lemma_plain_part(part, n - 1);
        assert(part.take(n).drop_last() =~= part.take(n - 1));
        assert(part.take(n - 1).push(part[n - 1]) =~= part.take(n));
        if n > 1 {
            assert(part[n - 2] != '\0');
        }
    } else {
        assert(part.take(0) =~= Seq::empty());
    }
}

proof fn lemma_second_part(one: Seq<char>, instance: Seq<char>, class: Seq<char>, n: int)
    requires
        one.len() > 0,
        one.last() == '\0',
        instance.len() > 0,
        dotted(one) == instance,
        0 <= n <= class.len(),
        forall|i: int| 0 <= i < class.len() ==> #[trigger] class[i] != '\0',
    ensures
        dotted(one + class.take(n)) == (if n == 0 {
            instance
        } else {
            instance + seq!['.'] + class.take(n)
        }),
    decreases n,
{
    let now = one + class.take(n);
    if n == 0 {
        assert(now =~= one);
    } else {
        lemma_second_part(one, instance, class, n - 1);
        let before = one + class.take(n - 1);
        assert(now.drop_last() =~= before);
        assert(now.last() == class[n - 1]);
        if n == 1 {
            assert(now[now.len() - 2] == '\0');
            assert(instance.push('.').push(class[0]) =~= instance + seq!['.'] + class.take(1));
        } else {
            assert(now[now.len() - 2] == class[n - 2]);
            assert((instance + seq!['.'] + class.take(n - 1)).push(class[n - 1]) =~= instance
                + seq!['.'] + class.take(n));
        }
    }
}

/// A part without NULs is its own class.
pub proof fn a_part_stays_as_it_is(part: Seq<char>)
    requires
        forall|i: int| 0 <= i < part.len() ==> #[trigger] part[i] != '\0',
    ensures
        dotted(part) == part,
{
    lemma_plain_part(part, part.len() as int);
    assert(part.take(part.len() as int) =~= part);
}

/// NULs between two texts, however many, become one dot between their classes,
/// and none where one of them names nothing.
pub proof fn parts_are_joined_with_one_dot(a: Seq<char>, nuls: Seq<char>, b: Seq<char>)
    requires
        nuls.len() > 0,
        forall|i: int| 0 <= i < nuls.len() ==> #[trigger] nuls[i] == '\0',
    ensures
        dotted(a + nuls + b) == (if dotted(a).len() == 0 {
            dotted(b)
        } else if dotted(b).len() == 0 {
            dotted(a)
        } else {
            dotted(a) + seq!['.'] + dotted(b)
        }),
    decreases b.len(),
{
    let whole = a + nuls + b;
    if b.len() == 0 {
        lemma_trailing_nuls_vanish(a, nuls);
        assert(whole =~= a + nuls);
    } else {
        let fewer = b.drop_last();
        parts_are_joined_with_one_dot(a, nuls, fewer);
        assert(whole.drop_last() =~= a + nuls + fewer);
        let c = b.last();
        assert(whole.last() == c);
        if c != '\0' {
            if fewer.len() == 0 {
                assert(whole[whole.len() - 2] == nuls[nuls.len() - 1]);
            } else {
                assert(whole[whole.len() - 2] == fewer.last());
                assert(b[b.len() - 2] == fewer.last());
            }
            let (x, y) = (dotted(a), dotted(fewer));
            assert((x + seq!['.'] + y).push('.').push(c) =~= x + seq!['.'] + y.push('.').push(c));
            assert((x + seq!['.'] + y).push(c) =~= x + seq!['.'] + y.push(c));
            assert(x.push('.').push(c) =~= x + seq!['.'] + Seq::<char>::empty().push(c));
            assert(y.len() == 0 ==> y =~= Seq::empty());
            assert(x.len() == 0 ==> x =~= Seq::empty());
        }
    }
}

proof fn lemma_trailing_nuls_vanish(a: Seq<char>, nuls: Seq<char>)
    requires
        forall|i: int| 0 <= i < nuls.len() ==> #[trigger] nuls[i] == '\0',
    ensures
        dotted(a + nuls) == dotted(a),
    decreases nuls.len(),
{
    if nuls.len() == 0 {
        assert(a + nuls =~= a);
    } else {
        assert forall|i: int| 0 <= i < nuls.drop_last().len() implies #[trigger] nuls.drop_last()[i]
            == '\0' by {
            assert(nuls[i] == '\0');
        }
        lemma_trailing_nuls_vanish(a, nuls.drop_last());
        assert((a + nuls).drop_last() =~= a + nuls.drop_last());
        assert(nuls[nuls.len() - 1] == '\0');
    }
}

/// The owner's class comes first, and the focused window's stands in for it
/// only where the owner has none.
pub proof fn the_owner_comes_first(
    owner: Option<String>,
    focused: Option<String>,
    class: Option<String>,
)
    requires
        call_ensures(source_class, (owner, focused), class),
    ensures
        owner is Some ==> class == owner,
        owner is None ==> class == focused,
{
}

} // verus!

//! Character-level operations on text.

use vstd::prelude::*;

verus! {

/// A class of characters that text can be trimmed of.
#[derive(Clone, Copy, Debug, PartialEq, Eq, Structural)]
pub enum CharClass {
    /// The characters with the Unicode property `White_Space`.
    WhiteSpace,
    /// `[` and `]`.
    SquareBracket,
}

impl CharClass {
    /// Membership in the class.
    pub open spec fn has(self, c: char) -> bool {
        match self {
            CharClass::WhiteSpace => {
                ||| '\u{9}' <= c <= '\u{d}'
                ||| c == '\u{20}'
                ||| c == '\u{85}'
                ||| c == '\u{a0}'
                ||| c == '\u{1680}'
                ||| '\u{2000}' <= c <= '\u{200a}'
                ||| c == '\u{2028}'
                ||| c == '\u{2029}'
                ||| c == '\u{202f}'
                ||| c == '\u{205f}'
                ||| c == '\u{3000}'
            },
            CharClass::SquareBracket => c == '[' || c == ']',
        }
    }

    /// Whether `c` belongs to the class.
    pub fn contains(self, c: char) -> (member: bool)
        ensures
            member == self.has(c),
    {
        match self {
            CharClass::WhiteSpace => ('\u{9}' <= c && c <= '\u{d}') || c == '\u{20}'
                || c == '\u{85}' || c == '\u{a0}' || c == '\u{1680}'
                || ('\u{2000}' <= c && c <= '\u{200a}') || c == '\u{2028}' || c == '\u{2029}'
                || c == '\u{202f}' || c == '\u{205f}' || c == '\u{3000}',
            CharClass::SquareBracket => c == '[' || c == ']',
        }
    }
}

/// `s` without the characters of `class` at either end.
pub open spec fn trimmed(s: Seq<char>, class: CharClass) -> Seq<char>
    decreases s.len(),
{
    if s.len() > 0 && class.has(s.first()) {
        trimmed(s.drop_first(), class)
    } else if s.len() > 0 && class.has(s.last()) {
        trimmed(s.drop_last(), class)
    } else {
        s
    }
}

/// The part of `s` before the first `c`, all of `s` where `c` does not occur.
pub open spec fn up_to(s: Seq<char>, c: char) -> Seq<char> {
    match s.index_of_first(c) {
        Some(i) => s.take(i),
        None => s,
    }
}

/// What follows `prefix` in `s`, if `s` starts with it.
pub open spec fn stripped(s: Seq<char>, prefix: Seq<char>) -> Option<Seq<char>> {
    if prefix.is_prefix_of(s) {
        Some(s.skip(prefix.len() as int))
    } else {
        None
    }
}

/// The characters of `s`, in order.
fn chars_of(s: &str) -> (chars: Vec<char>)
    ensures
        chars@ == s@,
{
    let mut chars: Vec<char> = Vec::new();
    for c in it: s.chars()
        invariant
            it.seq() == s@,
            chars@ == s@.take(it.index()),
    {
        chars.push(c);
    }
    chars
}

/// `s` without the characters of `class` at either end.
pub fn trim<'a>(s: &'a str, class: CharClass) -> (rest: &'a str)
    ensures
        rest@ == trimmed(s@, class),
{
    let chars = chars_of(s);
    let mut from: usize = 0;
    let mut to: usize = chars.len();
    assert(s@.subrange(0, s@.len() as int) == s@);
    while from < to && class.contains(chars[from])
        invariant
            chars@ == s@,
            from <= to == chars.len(),
            trimmed(s@, class) == trimmed(s@.subrange(from as int, to as int), class),
        decreases to - from,
    {
        proof {
            let window = s@.subrange(from as int, to as int);
            assert(window.drop_first() == s@.subrange(from + 1, to as int));
        }
        from = from + 1;
    }
    while from < to && class.contains(chars[to - 1])
        invariant
            chars@ == s@,
            from <= to <= chars.len(),
            from < to ==> !class.has(s@[from as int]),
            trimmed(s@, class) == trimmed(s@.subrange(from as int, to as int), class),
        decreases to - from,
    {
        proof {
            let window = s@.subrange(from as int, to as int);
            assert(window.drop_last() == s@.subrange(from as int, to - 1));
        }
        to = to - 1;
    }
    s.substring_char(from, to)
}

/// The part of `s` before the first `c`, all of `s` where `c` does not occur.
pub fn before<'a>(s: &'a str, c: char) -> (head: &'a str)
    ensures
        head@ == up_to(s@, c),
{
    let chars = chars_of(s);
    let mut i: usize = 0;
    while i < chars.len() && chars[i] != c
        invariant
            chars@ == s@,
            i <= chars.len(),
            forall|j: int| 0 <= j < i ==> s@[j] != c,
        decreases chars.len() - i,
    {
        i = i + 1;
    }
    proof {
        s@.index_of_first_ensures(c);
        if i < chars.len() {
            assert(s@[i as int] == c);
            assert(s@.contains(c));
        }
        assert(s@.take(s@.len() as int) == s@);
    }
    s.substring_char(0, i)
}

/// What follows `prefix` in `s`, if `s` starts with it.
pub fn strip_prefix<'a>(s: &'a str, prefix: &str) -> (rest: Option<&'a str>)
    ensures
        match rest {
            Some(tail) => stripped(s@, prefix@) == Some(tail@),
            None => stripped(s@, prefix@) is None,
        },
{
    let chars = chars_of(s);
    let wanted = chars_of(prefix);
    if chars.len() < wanted.len() {
        return None;
    }
    let mut i: usize = 0;
    while i < wanted.len()
        invariant
            chars@ == s@,
            wanted@ == prefix@,
            i <= wanted.len() <= chars.len(),
            forall|j: int| 0 <= j < i ==> s@[j] == prefix@[j],
        decreases wanted.len() - i,
    {
        if chars[i] != wanted[i] {
            assert(!prefix@.is_prefix_of(s@)) by {
                assert(s@.subrange(0, prefix@.len() as int)[i as int] == s@[i as int]);
            }
            return None;
        }
        i = i + 1;
    }
    assert(prefix@ =~= s@.subrange(0, prefix@.len() as int));
    Some(s.substring_char(wanted.len(), chars.len()))
}

} // verus!

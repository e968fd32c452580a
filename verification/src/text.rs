//! Small string utilities shared by the tokenizer, the value parsers and the
//! expression grammar. Strings are reasoned about through their views as
//! sequences of characters.
use vstd::prelude::*;

verus! {

/// The characters of `s`, in order.
pub fn chars_of(s: &str) -> (v: Vec<char>)
    ensures
        v@ == s@,
{
    let mut v: Vec<char> = Vec::new();
    for c in it: s.chars()
        invariant
            v@ == it.seq().take(it.index() as int),
            it.seq() == s@,
    {
        v.push(c);
        assert(v@ == it.seq().take(it.index() + 1));
    }
    assert(v@ == s@);
    v
}

/// Builds a `String` from characters (`String::from_iter`).
#[verifier::external_body]
pub(crate) fn string_from_chars(chars: &[char]) -> (s: String)
    ensures
        s@ == chars@,
{
    String::from_iter(chars)
}

/// Whether `pattern` occurs in `s` starting at index `at`.
pub open spec fn occurs_at(s: Seq<char>, at: int, pattern: Seq<char>) -> bool {
    0 <= at && at + pattern.len() <= s.len() && s.subrange(at, at + pattern.len()) == pattern
}

/// Whether `pattern` occurs anywhere in `s` (`str::contains`).
pub open spec fn occurs_in(s: Seq<char>, pattern: Seq<char>) -> bool {
    exists|at: int| 0 <= at && #[trigger] occurs_at(s, at, pattern)
}

/// `str::starts_with`.
pub open spec fn begins_with(s: Seq<char>, pattern: Seq<char>) -> bool {
    occurs_at(s, 0, pattern)
}

/// `str::ends_with`.
pub open spec fn finishes_with(s: Seq<char>, pattern: Seq<char>) -> bool {
    occurs_at(s, s.len() - pattern.len(), pattern)
}

/// The lexicographic order of strings by character code (the order of
/// `String`): -1, 0 or 1.
pub open spec fn text_order(a: Seq<char>, b: Seq<char>) -> int
    decreases a.len(),
{
    if a.len() == 0 {
        if b.len() == 0 {
            0
        } else {
            -1
        }
    } else if b.len() == 0 {
        1
    } else if (a[0] as u32) < (b[0] as u32) {
        -1
    } else if (a[0] as u32) > (b[0] as u32) {
        1
    } else {
        text_order(a.drop_first(), b.drop_first())
    }
}

/// Whether `pattern` occurs in `s` at index `at`.
pub fn occurs_at_exec(s: &Vec<char>, at: usize, pattern: &Vec<char>) -> (r: bool)
    ensures
        r == occurs_at(s@, at as int, pattern@),
{
    if at > s.len() || pattern.len() > s.len() - at {
        return false;
    }
    let mut i: usize = 0;
    while i < pattern.len()
        invariant
            at + pattern.len() <= s.len(),
            0 <= i <= pattern.len(),
            forall|k: int| 0 <= k < i ==> s@[at + k] == pattern@[k],
        decreases pattern.len() - i,
    {
        if s[at + i] != pattern[i] {
            assert(s@.subrange(at as int, at + pattern.len())[i as int] != pattern@[i as int]);
            return false;
        }
        i = i + 1;
    }
    assert(s@.subrange(at as int, at + pattern.len()) =~= pattern@);
    true
}

/// `str::contains` on characters.
pub fn occurs_in_exec(s: &Vec<char>, pattern: &Vec<char>) -> (r: bool)
    ensures
        r == occurs_in(s@, pattern@),
{
    if pattern.len() > s.len() {
        assert(forall|at: int| 0 <= at ==> !#[trigger] occurs_at(s@, at, pattern@));
        return false;
    }
    let last = s.len() - pattern.len();
    let mut at: usize = 0;
    loop
        invariant_except_break
            pattern.len() <= s.len(),
            last == s.len() - pattern.len(),
            0 <= at <= last,
            forall|k: int| 0 <= k < at ==> !#[trigger] occurs_at(s@, k, pattern@),
        ensures
            forall|k: int| 0 <= k <= last ==> !#[trigger] occurs_at(s@, k, pattern@),
        decreases last - at,
    {
        if occurs_at_exec(s, at, pattern) {
            return true;
        }
        if at == last {
            break;
        }
        at = at + 1;
    }
    assert forall|k: int| 0 <= k implies !#[trigger] occurs_at(s@, k, pattern@) by {
        if k > last {
            assert(k + pattern@.len() > s@.len());
        }
    }
    false
}

/// Whether the two strings have the same characters.
pub fn same_text(a: &str, b: &str) -> (r: bool)
    ensures
        r == (a@ == b@),
{
    let x = chars_of(a);
    let y = chars_of(b);
    let r = x.len() == y.len() && occurs_at_exec(&x, 0, &y);
    assert(x@.subrange(0, x@.len() as int) =~= x@);
    r
}

/// The lexicographic order of two strings: -1, 0 or 1.
pub fn text_order_exec(a: &Vec<char>, b: &Vec<char>) -> (r: i8)
    ensures
        r as int == text_order(a@, b@),
{
    let mut i: usize = 0;
    assert(a@.skip(0) =~= a@);
    assert(b@.skip(0) =~= b@);
    while i < a.len() && i < b.len()
        invariant
            0 <= i <= a.len(),
            i <= b.len(),
            text_order(a@, b@) == text_order(a@.skip(i as int), b@.skip(i as int)),
        decreases a.len() - i,
    {
        let x = a[i] as u32;
        let y = b[i] as u32;
        if x < y {
            return -1;
        } else if x > y {
            return 1;
        }
        assert(a@.skip(i as int).drop_first() =~= a@.skip(i + 1));
        assert(b@.skip(i as int).drop_first() =~= b@.skip(i + 1));
        i = i + 1;
    }
    if i == a.len() {
        if i == b.len() {
            0
        } else {
            -1
        }
    } else {
        1
    }
}

} // verus!

//! Verified text helpers: substring search, equality, suffix-after-separator,
//! character filtering and replacement, and decimal rendering. These carry the
//! string logic of the parsers, the download-rule matcher and the subpath
//! sanitizer.

use vstd::prelude::*;
use vstd::string::StrSliceExecFns;

verus! {

/// `p` occurs in `t` starting at character position `i`.
pub open spec fn occurs_at(t: Seq<char>, p: Seq<char>, i: int) -> bool {
    0 <= i && i + p.len() <= t.len() && t.subrange(i, i + p.len() as int) == p
}

/// `p` is a (contiguous) substring of `t`.
pub open spec fn contains_seq(t: Seq<char>, p: Seq<char>) -> bool {
    exists|i: int| occurs_at(t, p, i)
}

/// Appends one character. Relies on `String::push`.
#[verifier::external_body]
pub(crate) fn push_char(s: &mut String, c: char)
    ensures
        final(s)@ == old(s)@.push(c),
{
    s.push(c)
}

/// The characters of `s`, in order.
pub fn to_chars(s: &str) -> (r: Vec<char>)
    ensures
        r@ == s@,
{
    let n = s.unicode_len();
    let mut v: Vec<char> = Vec::new();
    let mut i: usize = 0;
    while i < n
        invariant
            i <= n,
            n == s@.len(),
            v@ == s@.subrange(0, i as int),
        decreases n - i,
    {
        let c = s.get_char(i);
        v.push(c);
        i = i + 1;
        assert(v@ =~= s@.subrange(0, i as int));
    }
    assert(v@ =~= s@);
    v
}

/// Whether `p` occurs in `t` at position `i` (both as character vectors).
fn matches_at(t: &Vec<char>, p: &Vec<char>, i: usize) -> (r: bool)
    requires
        i + p@.len() <= t@.len(),
    ensures
        r == occurs_at(t@, p@, i as int),
{
    let tlen = t.len();
    let mut j: usize = 0;
    while j < p.len()
        invariant
            j <= p@.len(),
            i + p@.len() <= t@.len(),
            tlen == t@.len(),
            forall|k: int| 0 <= k < j ==> t@[i + k] == p@[k],
        decreases p@.len() - j,
    {
        if t[i + j] != p[j] {
            assert(t@.subrange(i as int, i + p@.len() as int)[j as int] != p@[j as int]);
            return false;
        }
        j = j + 1;
    }
    assert(t@.subrange(i as int, i + p@.len() as int) =~= p@);
    true
}

/// Substring search over character vectors.
pub fn contains_chars(t: &Vec<char>, p: &Vec<char>) -> (r: bool)
    ensures
        r == contains_seq(t@, p@),
{
    if p.len() > t.len() {
        assert(forall|i: int| !occurs_at(t@, p@, i));
        return false;
    }
    if p.len() == 0 {
        assert(t@.subrange(0, 0) =~= p@);
        assert(occurs_at(t@, p@, 0));
        return true;
    }
    let end = t.len() - p.len();
    let mut i: usize = 0;
    while i <= end
        invariant
            end == t@.len() - p@.len(),
            end < usize::MAX,
            i <= end + 1,
            forall|k: int| 0 <= k < i ==> !occurs_at(t@, p@, k),
        decreases end + 1 - i,
    {
        if matches_at(t, p, i) {
            return true;
        }
        i = i + 1;
    }
    assert(forall|k: int| occurs_at(t@, p@, k) ==> 0 <= k <= end);
    false
}

/// Substring search: does `t` contain `p`?
pub fn contains_str(t: &str, p: &str) -> (r: bool)
    ensures
        r == contains_seq(t@, p@),
{
    let tc = to_chars(t);
    let pc = to_chars(p);
    contains_chars(&tc, &pc)
}

/// Character-for-character equality of two string slices.
pub fn str_eq(a: &str, b: &str) -> (r: bool)
    ensures
        r == (a@ == b@),
{
    let n = a.unicode_len();
    if n != b.unicode_len() {
        return false;
    }
    let mut i: usize = 0;
    while i < n
        invariant
            i <= n,
            n == a@.len(),
            n == b@.len(),
            forall|k: int| 0 <= k < i ==> a@[k] == b@[k],
        decreases n - i,
    {
        if a.get_char(i) != b.get_char(i) {
            return false;
        }
        i = i + 1;
    }
    assert(a@ =~= b@);
    true
}

/// `i` is the last position at which `sep` occurs in `t`.
pub open spec fn is_last_occurrence(t: Seq<char>, sep: Seq<char>, i: int) -> bool {
    occurs_at(t, sep, i) && forall|j: int| i < j ==> !occurs_at(t, sep, j)
}

/// What follows the last occurrence of `sep` in `t`; `t` itself when `sep`
/// does not occur (or is empty).
pub open spec fn after_last(t: Seq<char>, sep: Seq<char>) -> Seq<char> {
    if sep.len() > 0 && contains_seq(t, sep) {
        let i = choose|i: int| is_last_occurrence(t, sep, i);
        t.subrange(i + sep.len() as int, t.len() as int)
    } else {
        t
    }
}

/// The suffix of `t` after the last occurrence of `sep`.
pub fn after_last_str(t: &str, sep: &str) -> (r: String)
    ensures
        r@ == after_last(t@, sep@),
{
    let tc = to_chars(t);
    let sc = to_chars(sep);
    if sep.unicode_len() == 0 || sc.len() > tc.len() {
        assert(sc@.len() > tc@.len() ==> forall|i: int| !occurs_at(t@, sep@, i));
        return t.to_owned();
    }
    let end = tc.len() - sc.len();
    let mut best: usize = 0;
    let mut found: bool = false;
    let mut i: usize = 0;
    while i <= end
        invariant
            end == t@.len() - sep@.len(),
            end < usize::MAX,
            i <= end + 1,
            sep@.len() > 0,
            tc@ == t@,
            sc@ == sep@,
            found ==> best < i && occurs_at(t@, sep@, best as int),
            forall|k: int| 0 <= k < i && !(found && k <= best) ==> !occurs_at(t@, sep@, k),
        decreases end + 1 - i,
    {
        if matches_at(&tc, &sc, i) {
            best = i;
            found = true;
        }
        i = i + 1;
    }
    assert(forall|k: int| occurs_at(t@, sep@, k) ==> 0 <= k <= end);
    if found {
        assert(is_last_occurrence(t@, sep@, best as int));
        proof {
            let w = choose|i: int| is_last_occurrence(t@, sep@, i);
            assert(is_last_occurrence(t@, sep@, w));
            if w != best as int {
                assert(!occurs_at(t@, sep@, if w < best as int { best as int } else { w }));
            }
            assert(w == best as int);
        }
        let from = best + sep.unicode_len();
        let n = t.unicode_len();
        t.substring_char(from, n).to_owned()
    } else {
        assert(!contains_seq(t@, sep@));
        t.to_owned()
    }
}

/// Characters that survive title cleaning: everything but newline and tab.
pub open spec fn keeps_char(c: char) -> bool {
    c != '\n' && c != '\t'
}

/// Removes newline and tab characters.
pub fn clean_title(s: &str) -> (r: String)
    ensures
        r@ == s@.filter(|c: char| keeps_char(c)),
{
    proof {
        reveal(Seq::filter);
    }
    let n = s.unicode_len();
    let mut out = String::new();
    let mut i: usize = 0;
    while i < n
        invariant
            i <= n,
            n == s@.len(),
            out@ == s@.subrange(0, i as int).filter(|c: char| keeps_char(c)),
        decreases n - i,
    {
        proof {
            reveal(Seq::filter);
            assert(s@.subrange(0, i + 1).drop_last() =~= s@.subrange(0, i as int));
            assert(s@.subrange(0, i + 1).last() == s@[i as int]);
        }
        let c = s.get_char(i);
        if c != '\n' && c != '\t' {
            push_char(&mut out, c);
        }
        i = i + 1;
    }
    assert(s@.subrange(0, n as int) =~= s@);
    out
}

/// The filesystem-reserved characters of the subpath sanitizer.
pub open spec fn reserved_char(c: char) -> bool {
    c == '/' || c == '\\' || c == ':' || c == '*' || c == '?' || c == '"' || c == '<' || c == '>'
        || c == '|'
}

/// A reserved character becomes the placeholder; any other stays.
pub open spec fn sanitize_char(c: char) -> char {
    if reserved_char(c) {
        '_'
    } else {
        c
    }
}

/// Replaces every filesystem-reserved character with the placeholder.
pub fn replace_reserved(s: &str) -> (r: String)
    ensures
        r@ == s@.map_values(|c: char| sanitize_char(c)),
{
    let n = s.unicode_len();
    let mut out = String::new();
    let mut i: usize = 0;
    while i < n
        invariant
            i <= n,
            n == s@.len(),
            out@.len() == i,
            forall|k: int| 0 <= k < i ==> out@[k] == sanitize_char(s@[k]),
        decreases n - i,
    {
        let c = s.get_char(i);
        if c == '/' || c == '\\' || c == ':' || c == '*' || c == '?' || c == '"' || c == '<'
            || c == '>' || c == '|' {
            push_char(&mut out, '_');
        } else {
            push_char(&mut out, c);
        }
        i = i + 1;
    }
    assert(out@ =~= s@.map_values(|c: char| sanitize_char(c)));
    out
}

/// The decimal digit `d` as a character.
pub open spec fn dec_digit(d: int) -> char {
    if d == 0 {
        '0'
    } else if d == 1 {
        '1'
    } else if d == 2 {
        '2'
    } else if d == 3 {
        '3'
    } else if d == 4 {
        '4'
    } else if d == 5 {
        '5'
    } else if d == 6 {
        '6'
    } else if d == 7 {
        '7'
    } else if d == 8 {
        '8'
    } else {
        '9'
    }
}

/// The usual decimal rendering of `n`, without leading zeros.
pub open spec fn dec_str(n: int) -> Seq<char>
    decreases n,
{
    if n < 10 {
        seq![dec_digit(n)]
    } else {
        dec_str(n / 10).push(dec_digit(n % 10))
    }
}

fn digit_char(d: usize) -> (c: char)
    requires
        d < 10,
    ensures
        c == dec_digit(d as int),
{
    match d {
        0 => '0',
        1 => '1',
        2 => '2',
        3 => '3',
        4 => '4',
        5 => '5',
        6 => '6',
        7 => '7',
        8 => '8',
        _ => '9',
    }
}

/// Renders `n` in decimal.
pub fn dec_string(n: usize) -> (r: String)
    ensures
        r@ == dec_str(n as int),
    decreases n,
{
    if n < 10 {
        let mut s = String::new();
        push_char(&mut s, digit_char(n));
        assert(s@ =~= seq![dec_digit(n as int)]);
        s
    } else {
        let mut s = dec_string(n / 10);
        push_char(&mut s, digit_char(n % 10));
        s
    }
}

} // verus!

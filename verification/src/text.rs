//! Character classification and string building.

use vstd::prelude::*;

verus! {

/// What `char::is_alphanumeric` answers for a character (Unicode's
/// `Alphabetic` or `Numeric` property).
pub uninterp spec fn is_alphanumeric(c: char) -> bool;

/// Whether a character has Unicode's `White_Space` property, which is what
/// `char::is_whitespace` answers: the 25 code points U+0009 to U+000D,
/// U+0020, U+0085, U+00A0, U+1680, U+2000 to U+200A, U+2028, U+2029, U+202F,
/// U+205F and U+3000.
pub open spec fn is_whitespace(c: char) -> bool {
    let u = c as u32;
    (0x9 <= u <= 0xd) || u == 0x20 || u == 0x85 || u == 0xa0 || u == 0x1680 || (0x2000 <= u <= 0x200a)
        || u == 0x2028 || u == 0x2029 || u == 0x202f || u == 0x205f || u == 0x3000
}

/// Calls `char::is_alphanumeric`; its answer is named, not stated.
#[verifier::external_body]
pub(crate) fn char_is_alphanumeric(c: char) -> (r: bool)
    ensures
        r == is_alphanumeric(c),
{
    c.is_alphanumeric()
}

/// Whether `c` is whitespace (see `is_whitespace`).
pub(crate) fn char_is_whitespace(c: char) -> (r: bool)
    ensures
        r == is_whitespace(c),
{
    let u = c as u32;
    (0x9 <= u && u <= 0xd) || u == 0x20 || u == 0x85 || u == 0xa0 || u == 0x1680 || (0x2000 <= u && u
        <= 0x200a) || u == 0x2028 || u == 0x2029 || u == 0x202f || u == 0x205f || u == 0x3000
}

/// Calls `String::push`, which appends one character.
#[verifier::external_body]
pub(crate) fn push_char(s: &mut String, c: char)
    ensures
        final(s)@ == old(s)@.push(c),
{
    s.push(c);
}

/// A string of `n` spaces.
pub open spec fn spaces(n: nat) -> Seq<char> {
    Seq::new(n, |i: int| ' ')
}

/// Builds a string that holds `n` spaces.
pub fn spaces_string(n: usize) -> (r: String)
    ensures
        r@ == spaces(n as nat),
{
    let mut s = String::new();
    let mut i: usize = 0;
    while i < n
        invariant
            i <= n,
            s@ == spaces(i as nat),
        decreases n - i,
    {
        push_char(&mut s, ' ');
        i = i + 1;
    }
    s
}

/// Builds a string that holds the characters of `cs`.
pub fn string_of_chars(cs: &Vec<char>) -> (r: String)
    ensures
        r@ == cs@,
{
    let mut s = String::new();
    let mut i: usize = 0;
    while i < cs.len()
        invariant
            i <= cs.len(),
            s@ == cs@.take(i as int),
        decreases cs.len() - i,
    {
        push_char(&mut s, cs[i]);
        i = i + 1;
    }
    s
}

/// Appends the characters of `t` to `s`.
pub fn append_str(s: &mut String, t: &str)
    ensures
        final(s)@ == old(s)@ + t@,
{
    let n = t.unicode_len();
    let mut i: usize = 0;
    while i < n
        invariant
            i <= n,
            n == t@.len(),
            s@ == old(s)@ + t@.take(i as int),
        decreases n - i,
    {
        let c = t.get_char(i);
        push_char(s, c);
        i = i + 1;
    }
}

/// The words of `cs` from position `i` on, where `cur` is the word being
/// read: maximal runs of characters that are not whitespace, in order.
pub open spec fn split_from(cs: Seq<char>, i: int, cur: Seq<char>) -> Seq<Seq<char>>
    decreases cs.len() - i,
{
    if i < 0 || i >= cs.len() {
        if cur.len() > 0 { seq![cur] } else { Seq::empty() }
    } else if is_whitespace(cs[i]) {
        (if cur.len() > 0 { seq![cur] } else { Seq::empty() }) + split_from(cs, i + 1, Seq::empty())
    } else {
        split_from(cs, i + 1, cur.push(cs[i]))
    }
}

/// The words of `cs`: maximal runs of characters that are not whitespace.
pub open spec fn words(cs: Seq<char>) -> Seq<Seq<char>> {
    split_from(cs, 0, Seq::empty())
}

/// The characters of each string.
pub open spec fn strs(v: Seq<String>) -> Seq<Seq<char>> {
    v.map_values(|s: String| s@)
}

/// The words of `line`, each as a `String`.
pub fn split_whitespace(line: &String) -> (r: Vec<String>)
    ensures
        strs(r@) == words(line@),
{
    let ghost cs = line@;
    let n = line.as_str().unicode_len();
    let mut out: Vec<String> = Vec::new();
    let mut cur = String::new();
    let mut i: usize = 0;
    while i < n
        invariant
            n == cs.len(),
            cs == line@,
            i <= n,
            strs(out@) + split_from(cs, i as int, cur@) == words(cs),
        decreases n - i,
    {
        let c = line.as_str().get_char(i);
        if char_is_whitespace(c) {
            if cur.unicode_len() > 0 {
                let ghost before = out@;
                out.push(cur);
                assert(strs(out@) + split_from(cs, i + 1, Seq::empty()) =~= strs(before) + split_from(
                    cs,
                    i as int,
                    cur@,
                ));
            } else {
                assert(strs(out@) + split_from(cs, i + 1, Seq::empty()) =~= strs(out@) + split_from(
                    cs,
                    i as int,
                    cur@,
                ));
            }
            cur = String::new();
        } else {
            push_char(&mut cur, c);
        }
        i = i + 1;
    }
    if cur.unicode_len() > 0 {
        out.push(cur);
    }
    out
}

/// Whether `c` is an ASCII digit.
pub open spec fn is_digit(c: char) -> bool {
    '0' <= c && c <= '9'
}

/// The value of a sequence of decimal digits.
pub open spec fn digits_value(ds: Seq<char>) -> nat
    decreases ds.len(),
{
    if ds.len() == 0 {
        0
    } else {
        digits_value(ds.drop_last()) * 10 + ((ds.last() as int) - ('0' as int)) as nat
    }
}

/// Whether every character is an ASCII digit.
pub open spec fn all_digits(ds: Seq<char>) -> bool {
    forall|i: int| 0 <= i < ds.len() ==> is_digit(#[trigger] ds[i])
}

/// The number a word writes in decimal: an optional `+` and at least one
/// digit, of a value that fits in a `usize`; `None` for anything else.
pub open spec fn usize_of(w: Seq<char>) -> Option<usize> {
    let ds = if w.len() > 0 && w[0] == '+' { w.drop_first() } else { w };
    if ds.len() > 0 && all_digits(ds) && digits_value(ds) <= usize::MAX {
        Some(digits_value(ds) as usize)
    } else {
        None
    }
}

proof fn lemma_digits_value_grows(ds: Seq<char>, j: int)
    requires
        0 <= j <= ds.len(),
        forall|i: int| 0 <= i < ds.len() ==> is_digit(#[trigger] ds[i]),
    ensures
        digits_value(ds.take(j)) <= digits_value(ds),
    decreases ds.len() - j,
{
    if j < ds.len() {
        lemma_digits_value_grows(ds.drop_last(), j);
        assert(ds.drop_last().take(j) =~= ds.take(j));
    } else {
        assert(ds.take(j) =~= ds);
    }
}

/// Reads the number that `w` writes in decimal (see `usize_of`).
pub fn parse_usize(w: &String) -> (r: Option<usize>)
    ensures
        r == usize_of(w@),
{
    let n = w.as_str().unicode_len();
    let mut start: usize = 0;
    if n > 0 && w.as_str().get_char(0) == '+' {
        start = 1;
    }
    let ghost ds = if w@.len() > 0 && w@[0] == '+' { w@.drop_first() } else { w@ };
    if start >= n {
        return None;
    }
    let mut value: usize = 0;
    let mut i: usize = start;
    while i < n
        invariant
            n == w@.len(),
            start <= i <= n,
            start < n,
            ds == w@.skip(start as int),
            ds == (if w@.len() > 0 && w@[0] == '+' { w@.drop_first() } else { w@ }),
            forall|k: int| 0 <= k < i - start ==> is_digit(#[trigger] ds[k]),
            value == digits_value(ds.take(i - start)),
        decreases n - i,
    {
        let c = w.as_str().get_char(i);
        assert(ds[i - start] == c);
        if !('0' <= c && c <= '9') {
            return None;
        }
        let d = (c as u32 - '0' as u32) as usize;
        assert(ds.take(i - start + 1).drop_last() =~= ds.take(i - start));
        match value.checked_mul(10) {
            Some(v10) => match v10.checked_add(d) {
                Some(v) => {
                    value = v;
                },
                None => {
                    proof {
                        if all_digits(ds) {
                            lemma_digits_value_grows(ds, i - start + 1);
                        }
                    }
                    return None;
                },
            },
            None => {
                proof {
                    if all_digits(ds) {
                        lemma_digits_value_grows(ds, i - start + 1);
                    }
                }
                return None;
            },
        }
        i = i + 1;
    }
    assert(ds.take(n - start) =~= ds);
    Some(value)
}

} // verus!

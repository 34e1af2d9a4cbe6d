//! The title of a web page, read out of its HTML.
//!
//! A page is scanned rather than parsed: the one element wanted is `<title>`, and the two ways a
//! plain search for it would go wrong — the tag named inside a comment, or the string appearing in
//! a script or a style — are stepped over. The scan works on the document's characters; every tag
//! and delimiter it looks for is ASCII, so a character index is as good as a byte index would be.
use vstd::prelude::*;
use crate::text;

verus! {

broadcast use vstd::seq::group_seq_axioms;

/// Whether `needle` is found in `d` at `i`, ASCII case set aside.
pub open spec fn matches_at(d: Seq<char>, i: int, needle: Seq<char>) -> bool {
    &&& 0 <= i
    &&& i + needle.len() <= d.len()
    &&& forall|k: int| 0 <= k < needle.len() ==> text::ci_eq(d[i + k], #[trigger] needle[k])
}

/// The first index at or after `from` where `needle` is found in `d`, ASCII case set aside.
pub open spec fn first_match(d: Seq<char>, needle: Seq<char>, from: int) -> Option<int>
    decreases d.len() - from,
{
    if from < 0 || from >= d.len() {
        None
    } else if matches_at(d, from, needle) {
        Some(from)
    } else {
        first_match(d, needle, from + 1)
    }
}

/// An index found by a search, as a mathematical integer.
pub open spec fn as_int(o: Option<usize>) -> Option<int> {
    match o {
        Some(i) => Some(i as int),
        None => None,
    }
}

/// What is true of a match that `first_match` finds: it is one, it is at or after where the
/// search started, and no earlier place from there is one.
pub proof fn lemma_first_match(d: Seq<char>, needle: Seq<char>, from: int)
    requires
        0 <= from,
    ensures
        match first_match(d, needle, from) {
            Some(i) => from <= i < d.len() && matches_at(d, i, needle) && forall|j: int|
                from <= j < i ==> !#[trigger] matches_at(d, j, needle),
            None => forall|j: int| from <= j < d.len() ==> !#[trigger] matches_at(d, j, needle),
        },
    decreases d.len() - from,
{
    if from >= d.len() {
    } else if matches_at(d, from, needle) {
    } else {
        lemma_first_match(d, needle, from + 1);
    }
}

/// Whether `haystack` holds `needle` at `index`, ignoring ASCII case.
///
/// Compared a character at a time rather than by lowercasing the document first, so that
/// every index found stays an index into the document as it was.
fn starts_with_ci(haystack: &[char], index: usize, needle: &[char]) -> (r: bool)
    ensures
        r == matches_at(haystack@, index as int, needle@),
{
    if index > haystack.len() || needle.len() > haystack.len() - index {
        return false;
    }
    let mut k: usize = 0;
    while k < needle.len()
        invariant
            index + needle.len() <= haystack.len(),
            k <= needle.len(),
            forall|m: int| 0 <= m < k ==> text::ci_eq(haystack@[index + m], #[trigger] needle@[m]),
        decreases needle.len() - k,
    {
        if !text::eq_ignore_ascii_case(haystack[index + k], needle[k]) {
            return false;
        }
        k += 1;
    }
    true
}

/// The first index at or after `from` where `needle` appears, ignoring ASCII case.
pub(crate) fn find_ci(haystack: &[char], needle: &[char], from: usize) -> (r: Option<usize>)
    ensures
        as_int(r) == first_match(haystack@, needle@, from as int),
{
    let mut index = from;
    while index < haystack.len()
        invariant
            from <= index,
            first_match(haystack@, needle@, from as int) == first_match(
                haystack@,
                needle@,
                index as int,
            ),
        decreases haystack.len() - index,
    {
        if starts_with_ci(haystack, index, needle) {
            return Some(index);
        }
        index += 1;
    }
    None
}

/// Whether `a` and `b` hold the same characters.
fn same_chars(a: &[char], b: &[char]) -> (r: bool)
    ensures
        r == (a@ == b@),
{
    if a.len() != b.len() {
        return false;
    }
    let mut k: usize = 0;
    while k < a.len()
        invariant
            a.len() == b.len(),
            k <= a.len(),
            forall|m: int| 0 <= m < k ==> a@[m] == b@[m],
        decreases a.len() - k,
    {
        if a[k] != b[k] {
            return false;
        }
        k += 1;
    }
    assert(a@ =~= b@);
    true
}

/// The character a named reference stands for, for the names a page title is likely to hold.
pub open spec fn named_entity(name: Seq<char>) -> Option<char> {
    if name == seq!['a', 'm', 'p'] {
        Some('&')
    } else if name == seq!['l', 't'] {
        Some('<')
    } else if name == seq!['g', 't'] {
        Some('>')
    } else if name == seq!['q', 'u', 'o', 't'] {
        Some('"')
    } else if name == seq!['a', 'p', 'o', 's'] {
        Some('\'')
    } else if name == seq!['n', 'b', 's', 'p'] {
        Some(' ')
    } else if name == seq!['e', 'n', 's', 'p'] {
        Some(' ')
    } else if name == seq!['e', 'm', 's', 'p'] {
        Some(' ')
    } else if name == seq!['t', 'h', 'i', 'n', 's', 'p'] {
        Some(' ')
    } else if name == seq!['n', 'd', 'a', 's', 'h'] {
        Some('\u{2013}')
    } else if name == seq!['m', 'd', 'a', 's', 'h'] {
        Some('\u{2014}')
    } else if name == seq!['h', 'o', 'r', 'b', 'a', 'r'] {
        Some('\u{2015}')
    } else if name == seq!['m', 'i', 'n', 'u', 's'] {
        Some('\u{2212}')
    } else if name == seq!['h', 'e', 'l', 'l', 'i', 'p'] {
        Some('\u{2026}')
    } else if name == seq!['m', 'i', 'd', 'd', 'o', 't'] {
        Some('\u{b7}')
    } else if name == seq!['b', 'u', 'l', 'l'] {
        Some('\u{2022}')
    } else if name == seq!['p', 'r', 'i', 'm', 'e'] {
        Some('\u{2032}')
    } else if name == seq!['P', 'r', 'i', 'm', 'e'] {
        Some('\u{2033}')
    } else if name == seq!['l', 's', 'q', 'u', 'o'] {
        Some('\u{2018}')
    } else if name == seq!['r', 's', 'q', 'u', 'o'] {
        Some('\u{2019}')
    } else if name == seq!['s', 'b', 'q', 'u', 'o'] {
        Some('\u{201a}')
    } else if name == seq!['l', 'd', 'q', 'u', 'o'] {
        Some('\u{201c}')
    } else if name == seq!['r', 'd', 'q', 'u', 'o'] {
        Some('\u{201d}')
    } else if name == seq!['b', 'd', 'q', 'u', 'o'] {
        Some('\u{201e}')
    } else if name == seq!['l', 'a', 'q', 'u', 'o'] {
        Some('\u{ab}')
    } else if name == seq!['r', 'a', 'q', 'u', 'o'] {
        Some('\u{bb}')
    } else if name == seq!['l', 's', 'a', 'q', 'u', 'o'] {
        Some('\u{2039}')
    } else if name == seq!['r', 's', 'a', 'q', 'u', 'o'] {
        Some('\u{203a}')
    } else if name == seq!['l', 'p', 'a', 'r'] {
        Some('(')
    } else if name == seq!['r', 'p', 'a', 'r'] {
        Some(')')
    } else if name == seq!['c', 'o', 'p', 'y'] {
        Some('\u{a9}')
    } else if name == seq!['r', 'e', 'g'] {
        Some('\u{ae}')
    } else if name == seq!['t', 'r', 'a', 'd', 'e'] {
        Some('\u{2122}')
    } else if name == seq!['d', 'e', 'g'] {
        Some('\u{b0}')
    } else if name == seq!['p', 'l', 'u', 's', 'm', 'n'] {
        Some('\u{b1}')
    } else if name == seq!['t', 'i', 'm', 'e', 's'] {
        Some('\u{d7}')
    } else if name == seq!['d', 'i', 'v', 'i', 'd', 'e'] {
        Some('\u{f7}')
    } else if name == seq!['m', 'i', 'c', 'r', 'o'] {
        Some('\u{b5}')
    } else if name == seq!['p', 'a', 'r', 'a'] {
        Some('\u{b6}')
    } else if name == seq!['s', 'e', 'c', 't'] {
        Some('\u{a7}')
    } else if name == seq!['d', 'a', 'g', 'g', 'e', 'r'] {
        Some('\u{2020}')
    } else if name == seq!['D', 'a', 'g', 'g', 'e', 'r'] {
        Some('\u{2021}')
    } else if name == seq!['p', 'e', 'r', 'm', 'i', 'l'] {
        Some('\u{2030}')
    } else if name == seq!['f', 'r', 'a', 'c', '1', '2'] {
        Some('\u{bd}')
    } else if name == seq!['f', 'r', 'a', 'c', '1', '4'] {
        Some('\u{bc}')
    } else if name == seq!['f', 'r', 'a', 'c', '3', '4'] {
        Some('\u{be}')
    } else if name == seq!['s', 'u', 'p', '2'] {
        Some('\u{b2}')
    } else if name == seq!['s', 'u', 'p', '3'] {
        Some('\u{b3}')
    } else if name == seq!['s', 'u', 'p', '1'] {
        Some('\u{b9}')
    } else if name == seq!['i', 'q', 'u', 'e', 's', 't'] {
        Some('\u{bf}')
    } else if name == seq!['i', 'e', 'x', 'c', 'l'] {
        Some('\u{a1}')
    } else if name == seq!['b', 'r', 'v', 'b', 'a', 'r'] {
        Some('\u{a6}')
    } else if name == seq!['e', 'u', 'r', 'o'] {
        Some('\u{20ac}')
    } else if name == seq!['p', 'o', 'u', 'n', 'd'] {
        Some('\u{a3}')
    } else if name == seq!['y', 'e', 'n'] {
        Some('\u{a5}')
    } else if name == seq!['c', 'e', 'n', 't'] {
        Some('\u{a2}')
    } else if name == seq!['c', 'u', 'r', 'r', 'e', 'n'] {
        Some('\u{a4}')
    } else if name == seq!['l', 'a', 'r', 'r'] {
        Some('\u{2190}')
    } else if name == seq!['u', 'a', 'r', 'r'] {
        Some('\u{2191}')
    } else if name == seq!['r', 'a', 'r', 'r'] {
        Some('\u{2192}')
    } else if name == seq!['d', 'a', 'r', 'r'] {
        Some('\u{2193}')
    } else if name == seq!['h', 'a', 'r', 'r'] {
        Some('\u{2194}')
    } else {
        None
    }
}

/// The character the reference named `name` stands for, when it is one this library knows.
fn lookup_entity(name: &[char]) -> (r: Option<char>)
    ensures
        r == named_entity(name@),
{
    if same_chars(name, &['a', 'm', 'p']) {
        return Some('&');
    }
    if same_chars(name, &['l', 't']) {
        return Some('<');
    }
    if same_chars(name, &['g', 't']) {
        return Some('>');
    }
    if same_chars(name, &['q', 'u', 'o', 't']) {
        return Some('"');
    }
    if same_chars(name, &['a', 'p', 'o', 's']) {
        return Some('\'');
    }
    if same_chars(name, &['n', 'b', 's', 'p']) {
        return Some(' ');
    }
    if same_chars(name, &['e', 'n', 's', 'p']) {
        return Some(' ');
    }
    if same_chars(name, &['e', 'm', 's', 'p']) {
        return Some(' ');
    }
    if same_chars(name, &['t', 'h', 'i', 'n', 's', 'p']) {
        return Some(' ');
    }
    if same_chars(name, &['n', 'd', 'a', 's', 'h']) {
        return Some('\u{2013}');
    }
    if same_chars(name, &['m', 'd', 'a', 's', 'h']) {
        return Some('\u{2014}');
    }
    if same_chars(name, &['h', 'o', 'r', 'b', 'a', 'r']) {
        return Some('\u{2015}');
    }
    if same_chars(name, &['m', 'i', 'n', 'u', 's']) {
        return Some('\u{2212}');
    }
    if same_chars(name, &['h', 'e', 'l', 'l', 'i', 'p']) {
        return Some('\u{2026}');
    }
    if same_chars(name, &['m', 'i', 'd', 'd', 'o', 't']) {
        return Some('\u{b7}');
    }
    if same_chars(name, &['b', 'u', 'l', 'l']) {
        return Some('\u{2022}');
    }
    if same_chars(name, &['p', 'r', 'i', 'm', 'e']) {
        return Some('\u{2032}');
    }
    if same_chars(name, &['P', 'r', 'i', 'm', 'e']) {
        return Some('\u{2033}');
    }
    if same_chars(name, &['l', 's', 'q', 'u', 'o']) {
        return Some('\u{2018}');
    }
    if same_chars(name, &['r', 's', 'q', 'u', 'o']) {
        return Some('\u{2019}');
    }
    if same_chars(name, &['s', 'b', 'q', 'u', 'o']) {
        return Some('\u{201a}');
    }
    if same_chars(name, &['l', 'd', 'q', 'u', 'o']) {
        return Some('\u{201c}');
    }
    if same_chars(name, &['r', 'd', 'q', 'u', 'o']) {
        return Some('\u{201d}');
    }
    if same_chars(name, &['b', 'd', 'q', 'u', 'o']) {
        return Some('\u{201e}');
    }
    if same_chars(name, &['l', 'a', 'q', 'u', 'o']) {
        return Some('\u{ab}');
    }
    if same_chars(name, &['r', 'a', 'q', 'u', 'o']) {
        return Some('\u{bb}');
    }
    if same_chars(name, &['l', 's', 'a', 'q', 'u', 'o']) {
        return Some('\u{2039}');
    }
    if same_chars(name, &['r', 's', 'a', 'q', 'u', 'o']) {
        return Some('\u{203a}');
    }
    if same_chars(name, &['l', 'p', 'a', 'r']) {
        return Some('(');
    }
    if same_chars(name, &['r', 'p', 'a', 'r']) {
        return Some(')');
    }
    if same_chars(name, &['c', 'o', 'p', 'y']) {
        return Some('\u{a9}');
    }
    if same_chars(name, &['r', 'e', 'g']) {
        return Some('\u{ae}');
    }
    if same_chars(name, &['t', 'r', 'a', 'd', 'e']) {
        return Some('\u{2122}');
    }
    if same_chars(name, &['d', 'e', 'g']) {
        return Some('\u{b0}');
    }
    if same_chars(name, &['p', 'l', 'u', 's', 'm', 'n']) {
        return Some('\u{b1}');
    }
    if same_chars(name, &['t', 'i', 'm', 'e', 's']) {
        return Some('\u{d7}');
    }
    if same_chars(name, &['d', 'i', 'v', 'i', 'd', 'e']) {
        return Some('\u{f7}');
    }
    if same_chars(name, &['m', 'i', 'c', 'r', 'o']) {
        return Some('\u{b5}');
    }
    if same_chars(name, &['p', 'a', 'r', 'a']) {
        return Some('\u{b6}');
    }
    if same_chars(name, &['s', 'e', 'c', 't']) {
        return Some('\u{a7}');
    }
    if same_chars(name, &['d', 'a', 'g', 'g', 'e', 'r']) {
        return Some('\u{2020}');
    }
    if same_chars(name, &['D', 'a', 'g', 'g', 'e', 'r']) {
        return Some('\u{2021}');
    }
    if same_chars(name, &['p', 'e', 'r', 'm', 'i', 'l']) {
        return Some('\u{2030}');
    }
    if same_chars(name, &['f', 'r', 'a', 'c', '1', '2']) {
        return Some('\u{bd}');
    }
    if same_chars(name, &['f', 'r', 'a', 'c', '1', '4']) {
        return Some('\u{bc}');
    }
    if same_chars(name, &['f', 'r', 'a', 'c', '3', '4']) {
        return Some('\u{be}');
    }
    if same_chars(name, &['s', 'u', 'p', '2']) {
        return Some('\u{b2}');
    }
    if same_chars(name, &['s', 'u', 'p', '3']) {
        return Some('\u{b3}');
    }
    if same_chars(name, &['s', 'u', 'p', '1']) {
        return Some('\u{b9}');
    }
    if same_chars(name, &['i', 'q', 'u', 'e', 's', 't']) {
        return Some('\u{bf}');
    }
    if same_chars(name, &['i', 'e', 'x', 'c', 'l']) {
        return Some('\u{a1}');
    }
    if same_chars(name, &['b', 'r', 'v', 'b', 'a', 'r']) {
        return Some('\u{a6}');
    }
    if same_chars(name, &['e', 'u', 'r', 'o']) {
        return Some('\u{20ac}');
    }
    if same_chars(name, &['p', 'o', 'u', 'n', 'd']) {
        return Some('\u{a3}');
    }
    if same_chars(name, &['y', 'e', 'n']) {
        return Some('\u{a5}');
    }
    if same_chars(name, &['c', 'e', 'n', 't']) {
        return Some('\u{a2}');
    }
    if same_chars(name, &['c', 'u', 'r', 'r', 'e', 'n']) {
        return Some('\u{a4}');
    }
    if same_chars(name, &['l', 'a', 'r', 'r']) {
        return Some('\u{2190}');
    }
    if same_chars(name, &['u', 'a', 'r', 'r']) {
        return Some('\u{2191}');
    }
    if same_chars(name, &['r', 'a', 'r', 'r']) {
        return Some('\u{2192}');
    }
    if same_chars(name, &['d', 'a', 'r', 'r']) {
        return Some('\u{2193}');
    }
    if same_chars(name, &['h', 'a', 'r', 'r']) {
        return Some('\u{2194}');
    }
    None
}

/// The value of `c` as a digit in `radix` (`char::to_digit`), for a radix of ten or sixteen.
pub open spec fn digit_value(c: char, radix: u32) -> Option<nat> {
    let u = c as u32;
    let v: int = if '0' <= c <= '9' {
        u - 48
    } else if 'a' <= c <= 'z' {
        u - 97 + 10
    } else if 'A' <= c <= 'Z' {
        u - 65 + 10
    } else {
        radix as int
    };
    if v < radix {
        Some(v as nat)
    } else {
        None
    }
}

/// The number the digits of `s` write in `radix`, when every one of them is a digit.
pub open spec fn digits_value(s: Seq<char>, radix: u32) -> Option<nat>
    decreases s.len(),
{
    if s.len() == 0 {
        Some(0)
    } else {
        match (digits_value(s.drop_last(), radix), digit_value(s.last(), radix)) {
            (Some(v), Some(d)) => Some(v * (radix as nat) + d),
            _ => None,
        }
    }
}

/// What `u32::from_str_radix` makes of `s`: an optional `+`, then at least one digit, and a
/// value that fits.
pub open spec fn parse_u32(s: Seq<char>, radix: u32) -> Option<u32> {
    let digits = if s.len() > 0 && s[0] == '+' {
        s.drop_first()
    } else {
        s
    };
    if digits.len() == 0 {
        None
    } else {
        match digits_value(digits, radix) {
            Some(v) => if v <= u32::MAX {
                Some(v as u32)
            } else {
                None
            },
            None => None,
        }
    }
}

/// A value that has grown past what fits stays past it, however many digits follow.
proof fn lemma_digits_grow(s: Seq<char>, radix: u32, i: int)
    requires
        radix >= 1,
        0 <= i <= s.len(),
        digits_value(s.take(i), radix) is Some,
    ensures
        digits_value(s, radix) matches Some(w) ==> w >= digits_value(s.take(i), radix)->0,
    decreases s.len() - i,
{
    if i < s.len() {
        let t = s.take(i + 1);
        assert(t.drop_last() =~= s.take(i));
        match digits_value(t, radix) {
            Some(w) => {
                let v = digits_value(s.take(i), radix)->0;
                assert(v * radix >= v) by (nonlinear_arith)
                    requires
                        radix >= 1,
                ;
                lemma_digits_grow(s, radix, i + 1);
            },
            None => {
                lemma_digits_none(s, radix, i + 1);
            },
        }
    } else {
        assert(s.take(i) =~= s);
    }
}

/// Once a character that is not a digit has been met, there is no number.
proof fn lemma_digits_none(s: Seq<char>, radix: u32, i: int)
    requires
        0 <= i <= s.len(),
        digits_value(s.take(i), radix) is None,
    ensures
        digits_value(s, radix) is None,
    decreases s.len() - i,
{
    if i < s.len() {
        assert(s.take(i + 1).drop_last() =~= s.take(i));
        lemma_digits_none(s, radix, i + 1);
    } else {
        assert(s.take(i) =~= s);
    }
}

/// The value of `c` as a digit in `radix`.
fn to_digit(c: char, radix: u32) -> (r: Option<u32>)
    requires
        radix == 10 || radix == 16,
    ensures
        match r {
            Some(d) => digit_value(c, radix) == Some(d as nat),
            None => digit_value(c, radix) is None,
        },
{
    let u = c as u32;
    let v: u32 = if '0' <= c && c <= '9' {
        u - 48
    } else if 'a' <= c && c <= 'z' {
        u - 97 + 10
    } else if 'A' <= c && c <= 'Z' {
        u - 65 + 10
    } else {
        radix
    };
    if v < radix {
        Some(v)
    } else {
        None
    }
}

/// `s` read as a number in `radix`, the way `u32::from_str_radix` reads it.
fn parse_number(s: &[char], radix: u32) -> (r: Option<u32>)
    requires
        radix == 10 || radix == 16,
    ensures
        r == parse_u32(s@, radix),
{
    let start: usize = if s.len() > 0 && s[0] == '+' { 1 } else { 0 };
    let ghost digits = if s@.len() > 0 && s@[0] == '+' { s@.drop_first() } else { s@ };
    assert(digits =~= s@.subrange(start as int, s@.len() as int));
    if start >= s.len() {
        return None;
    }
    let mut value: u64 = 0;
    let mut i = start;
    while i < s.len()
        invariant
            start <= i <= s.len(),
            digits == s@.subrange(start as int, s@.len() as int),
            digits == (if s@.len() > 0 && s@[0] == '+' { s@.drop_first() } else { s@ }),
            digits.len() > 0,
            radix == 10 || radix == 16,
            digits_value(digits.take(i - start), radix) == Some(value as nat),
            value <= u32::MAX,
        decreases s.len() - i,
    {
        let ghost before = digits.take(i - start);
        assert(digits.take(i - start + 1).drop_last() =~= before);
        assert(digits.take(i - start + 1).last() == s@[i as int]);
        match to_digit(s[i], radix) {
            None => {
                proof {
                    lemma_digits_none(digits, radix, i - start + 1);
                }
                return None;
            },
            Some(d) => {
                assert(value * (radix as u64) <= 0xffff_ffff * 16) by (nonlinear_arith)
                    requires
                        value <= 0xffff_ffff,
                        radix <= 16,
                ;
                value = value * (radix as u64) + (d as u64);
                if value > 0xffff_ffff {
                    proof {
                        lemma_digits_grow(digits, radix, i - start + 1);
                    }
                    return None;
                }
            },
        }
        i += 1;
    }
    assert(digits.take(i - start) =~= digits);
    Some(value as u32)
}

/// The character whose code is `code`, when it is one (`char::from_u32`): `None` for a value past
/// the last code point and for a surrogate, neither of which is a character.
#[verifier::external_body]
fn char_from_u32(code: u32) -> (r: Option<char>)
    ensures
        r is Some <==> vstd::utf8::is_scalar(code),
        r matches Some(c) ==> c as u32 == code,
{
    char::from_u32(code)
}

/// The longest character reference worth considering: the longest name in the HTML table is 31
/// characters, and a numeric one is shorter still.
pub const MAX_ENTITY_CHARS: usize = 32;

/// The character reference at the start of `t`, which begins with `&`, and how long it is.
///
/// A numeric reference stands for the character with that code, unless that is a control
/// character or no character at all; a named one is looked up. `None` means the `&` is not a
/// reference and is text like any other.
pub open spec fn entity(t: Seq<char>) -> Option<(char, int)> {
    match first_match(t, seq![';'], 0) {
        None => None,
        Some(end) => if end < 1 || end > MAX_ENTITY_CHARS {
            None
        } else {
            let body = t.subrange(1, end);
            let length = end + 1;
            if body.len() > 0 && body[0] == '#' {
                let number = body.drop_first();
                let code = if number.len() > 0 && (number[0] == 'x' || number[0] == 'X') {
                    parse_u32(number.drop_first(), 16)
                } else {
                    parse_u32(number, 10)
                };
                match code {
                    Some(v) => if vstd::utf8::is_scalar(v) && !text::is_cc(v as char) {
                        Some((v as char, length))
                    } else {
                        None
                    },
                    None => None,
                }
            } else {
                match named_entity(body) {
                    Some(c) => Some((c, length)),
                    None => None,
                }
            }
        },
    }
}

/// The character reference at the start of `text`, which begins with `&`, and its length.
///
/// Bounded, because the `;` that ends a reference is not far from its `&`: searching further
/// would only find the punctuation of some later sentence.
fn entity_at(text: &[char]) -> (r: Option<(char, usize)>)
    ensures
        match r {
            Some((c, n)) => entity(text@) == Some((c, n as int)),
            None => entity(text@) is None,
        },
{
    let semicolon = [';'];
    assert(semicolon@ =~= seq![';']);
    let end = match find_ci(text, &semicolon, 0) {
        Some(end) => end,
        None => return None,
    };
    if end < 1 || end > MAX_ENTITY_CHARS {
        return None;
    }
    proof {
        lemma_first_match(text@, seq![';'], 0);
    }
    let body = &text[1..end];
    let length = end + 1;
    if body.len() > 0 && body[0] == '#' {
        let number = &body[1..body.len()];
        assert(number@ =~= body@.drop_first());
        let code = if number.len() > 0 && (number[0] == 'x' || number[0] == 'X') {
            let hex = &number[1..number.len()];
            assert(hex@ =~= number@.drop_first());
            parse_number(hex, 16)
        } else {
            parse_number(number, 10)
        };
        match code {
            Some(v) => match char_from_u32(v) {
                Some(c) => {
                    proof {
                        vstd::utf8::char_u32_cast(c, v);
                    }
                    if text::is_control(c) {
                        None
                    } else {
                        Some((c, length))
                    }
                },
                None => None,
            },
            None => None,
        }
    } else {
        match lookup_entity(body) {
            Some(c) => Some((c, length)),
            None => None,
        }
    }
}

/// `t` with its character references resolved: each `&` that starts a reference is replaced,
/// with the reference, by the character it stands for, and every other character is kept.
pub open spec fn decode(t: Seq<char>) -> Seq<char>
    decreases t.len(),
{
    if t.len() == 0 {
        seq![]
    } else if t[0] != '&' {
        seq![t[0]] + decode(t.drop_first())
    } else {
        match entity(t) {
            Some((c, n)) => if 1 <= n <= t.len() {
                seq![c] + decode(t.skip(n))
            } else {
                seq![t[0]] + decode(t.drop_first())
            },
            None => seq![t[0]] + decode(t.drop_first()),
        }
    }
}

/// A named reference written out, `&`, its name and `;`, reads as the one character the name
/// stands for.
pub proof fn lemma_named_reference_decodes(name: Seq<char>, c: char)
    requires
        named_entity(name) == Some(c),
        name.len() > 0,
        name[0] != '#',
        name.len() < MAX_ENTITY_CHARS,
        forall|i: int| 0 <= i < name.len() ==> #[trigger] name[i] != ';',
    ensures
        decode(seq!['&'] + name + seq![';']) == seq![c],
{
    let t = seq!['&'] + name + seq![';'];
    let end: int = name.len() as int + 1;
    let semi = seq![';'];
    lemma_first_match(t, semi, 0);
    assert(matches_at(t, end, semi)) by {
        assert(t[end] == ';');
        assert forall|k: int| 0 <= k < semi.len() implies text::ci_eq(t[end + k], #[trigger] semi[k]) by {
            assert(k == 0);
        }
    }
    match first_match(t, semi, 0) {
        Some(i) => {
            if i < end {
                assert(text::ci_eq(t[i + 0], semi[0]));
                text::lemma_ci_eq_not_letter(t[i], ';');
                if i == 0 {
                    assert(t[0] == '&');
                } else {
                    assert(t[i] == name[i - 1]);
                }
            }
            assert(i == end);
        },
        None => {},
    }
    assert(t.subrange(1, end) =~= name);
    assert(t.subrange(1, end)[0] == name[0]);
    assert(entity(t) == Some((c, end + 1)));
    assert(t.skip(end + 1) =~= Seq::<char>::empty());
    assert(decode(t.skip(end + 1)) == Seq::<char>::empty());
    assert(decode(t) =~= seq![c]);
}

/// The names a title is likely to use stand for the characters HTML gives them.
pub proof fn lemma_named_references()
    ensures
        named_entity(seq!['a', 'm', 'p']) == Some('&'),
        named_entity(seq!['l', 't']) == Some('<'),
        named_entity(seq!['g', 't']) == Some('>'),
        named_entity(seq!['q', 'u', 'o', 't']) == Some('"'),
        named_entity(seq!['a', 'p', 'o', 's']) == Some('\''),
        named_entity(seq!['n', 'b', 's', 'p']) == Some(' '),
        named_entity(seq!['e', 'n', 's', 'p']) == Some(' '),
        named_entity(seq!['e', 'm', 's', 'p']) == Some(' '),
        named_entity(seq!['t', 'h', 'i', 'n', 's', 'p']) == Some(' '),
        named_entity(seq!['n', 'd', 'a', 's', 'h']) == Some('\u{2013}'),
        named_entity(seq!['m', 'd', 'a', 's', 'h']) == Some('\u{2014}'),
        named_entity(seq!['h', 'o', 'r', 'b', 'a', 'r']) == Some('\u{2015}'),
        named_entity(seq!['m', 'i', 'n', 'u', 's']) == Some('\u{2212}'),
        named_entity(seq!['h', 'e', 'l', 'l', 'i', 'p']) == Some('\u{2026}'),
        named_entity(seq!['m', 'i', 'd', 'd', 'o', 't']) == Some('\u{b7}'),
        named_entity(seq!['b', 'u', 'l', 'l']) == Some('\u{2022}'),
        named_entity(seq!['p', 'r', 'i', 'm', 'e']) == Some('\u{2032}'),
        named_entity(seq!['P', 'r', 'i', 'm', 'e']) == Some('\u{2033}'),
        named_entity(seq!['l', 's', 'q', 'u', 'o']) == Some('\u{2018}'),
        named_entity(seq!['r', 's', 'q', 'u', 'o']) == Some('\u{2019}'),
        named_entity(seq!['s', 'b', 'q', 'u', 'o']) == Some('\u{201a}'),
        named_entity(seq!['l', 'd', 'q', 'u', 'o']) == Some('\u{201c}'),
        named_entity(seq!['r', 'd', 'q', 'u', 'o']) == Some('\u{201d}'),
        named_entity(seq!['b', 'd', 'q', 'u', 'o']) == Some('\u{201e}'),
        named_entity(seq!['l', 'a', 'q', 'u', 'o']) == Some('\u{ab}'),
        named_entity(seq!['r', 'a', 'q', 'u', 'o']) == Some('\u{bb}'),
        named_entity(seq!['l', 's', 'a', 'q', 'u', 'o']) == Some('\u{2039}'),
        named_entity(seq!['r', 's', 'a', 'q', 'u', 'o']) == Some('\u{203a}'),
        named_entity(seq!['l', 'p', 'a', 'r']) == Some('('),
        named_entity(seq!['r', 'p', 'a', 'r']) == Some(')'),
        named_entity(seq!['c', 'o', 'p', 'y']) == Some('\u{a9}'),
        named_entity(seq!['r', 'e', 'g']) == Some('\u{ae}'),
        named_entity(seq!['t', 'r', 'a', 'd', 'e']) == Some('\u{2122}'),
        named_entity(seq!['d', 'e', 'g']) == Some('\u{b0}'),
        named_entity(seq!['p', 'l', 'u', 's', 'm', 'n']) == Some('\u{b1}'),
        named_entity(seq!['t', 'i', 'm', 'e', 's']) == Some('\u{d7}'),
        named_entity(seq!['d', 'i', 'v', 'i', 'd', 'e']) == Some('\u{f7}'),
        named_entity(seq!['m', 'i', 'c', 'r', 'o']) == Some('\u{b5}'),
        named_entity(seq!['p', 'a', 'r', 'a']) == Some('\u{b6}'),
        named_entity(seq!['s', 'e', 'c', 't']) == Some('\u{a7}'),
        named_entity(seq!['d', 'a', 'g', 'g', 'e', 'r']) == Some('\u{2020}'),
        named_entity(seq!['D', 'a', 'g', 'g', 'e', 'r']) == Some('\u{2021}'),
        named_entity(seq!['p', 'e', 'r', 'm', 'i', 'l']) == Some('\u{2030}'),
        named_entity(seq!['f', 'r', 'a', 'c', '1', '2']) == Some('\u{bd}'),
        named_entity(seq!['f', 'r', 'a', 'c', '1', '4']) == Some('\u{bc}'),
        named_entity(seq!['f', 'r', 'a', 'c', '3', '4']) == Some('\u{be}'),
        named_entity(seq!['s', 'u', 'p', '2']) == Some('\u{b2}'),
        named_entity(seq!['s', 'u', 'p', '3']) == Some('\u{b3}'),
        named_entity(seq!['s', 'u', 'p', '1']) == Some('\u{b9}'),
        named_entity(seq!['i', 'q', 'u', 'e', 's', 't']) == Some('\u{bf}'),
        named_entity(seq!['i', 'e', 'x', 'c', 'l']) == Some('\u{a1}'),
        named_entity(seq!['b', 'r', 'v', 'b', 'a', 'r']) == Some('\u{a6}'),
        named_entity(seq!['e', 'u', 'r', 'o']) == Some('\u{20ac}'),
        named_entity(seq!['p', 'o', 'u', 'n', 'd']) == Some('\u{a3}'),
        named_entity(seq!['y', 'e', 'n']) == Some('\u{a5}'),
        named_entity(seq!['c', 'e', 'n', 't']) == Some('\u{a2}'),
        named_entity(seq!['c', 'u', 'r', 'r', 'e', 'n']) == Some('\u{a4}'),
        named_entity(seq!['l', 'a', 'r', 'r']) == Some('\u{2190}'),
        named_entity(seq!['u', 'a', 'r', 'r']) == Some('\u{2191}'),
        named_entity(seq!['r', 'a', 'r', 'r']) == Some('\u{2192}'),
        named_entity(seq!['d', 'a', 'r', 'r']) == Some('\u{2193}'),
        named_entity(seq!['h', 'a', 'r', 'r']) == Some('\u{2194}'),
{
    lemma_named_references_1();
    lemma_named_references_2();
    lemma_named_references_3();
    lemma_named_references_4();
    lemma_named_references_5();
    lemma_named_references_6();
    lemma_named_references_7();
    lemma_named_references_8();
}

/// A stretch of the table of named references: each name below stands for the character HTML
/// gives it.
#[verifier::rlimit(40)]
proof fn lemma_named_references_1()
    ensures
        named_entity(seq!['a', 'm', 'p']) == Some('&'),
        named_entity(seq!['l', 't']) == Some('<'),
        named_entity(seq!['g', 't']) == Some('>'),
        named_entity(seq!['q', 'u', 'o', 't']) == Some('"'),
        named_entity(seq!['a', 'p', 'o', 's']) == Some('\''),
        named_entity(seq!['n', 'b', 's', 'p']) == Some(' '),
        named_entity(seq!['e', 'n', 's', 'p']) == Some(' '),
        named_entity(seq!['e', 'm', 's', 'p']) == Some(' '),
{
}

/// A stretch of the table of named references: each name below stands for the character HTML
/// gives it.
#[verifier::rlimit(40)]
proof fn lemma_named_references_2()
    ensures
        named_entity(seq!['t', 'h', 'i', 'n', 's', 'p']) == Some(' '),
        named_entity(seq!['n', 'd', 'a', 's', 'h']) == Some('\u{2013}'),
        named_entity(seq!['m', 'd', 'a', 's', 'h']) == Some('\u{2014}'),
        named_entity(seq!['h', 'o', 'r', 'b', 'a', 'r']) == Some('\u{2015}'),
        named_entity(seq!['m', 'i', 'n', 'u', 's']) == Some('\u{2212}'),
        named_entity(seq!['h', 'e', 'l', 'l', 'i', 'p']) == Some('\u{2026}'),
        named_entity(seq!['m', 'i', 'd', 'd', 'o', 't']) == Some('\u{b7}'),
        named_entity(seq!['b', 'u', 'l', 'l']) == Some('\u{2022}'),
{
}

/// A stretch of the table of named references: each name below stands for the character HTML
/// gives it.
#[verifier::rlimit(40)]
proof fn lemma_named_references_3()
    ensures
        named_entity(seq!['p', 'r', 'i', 'm', 'e']) == Some('\u{2032}'),
        named_entity(seq!['P', 'r', 'i', 'm', 'e']) == Some('\u{2033}'),
        named_entity(seq!['l', 's', 'q', 'u', 'o']) == Some('\u{2018}'),
        named_entity(seq!['r', 's', 'q', 'u', 'o']) == Some('\u{2019}'),
        named_entity(seq!['s', 'b', 'q', 'u', 'o']) == Some('\u{201a}'),
        named_entity(seq!['l', 'd', 'q', 'u', 'o']) == Some('\u{201c}'),
        named_entity(seq!['r', 'd', 'q', 'u', 'o']) == Some('\u{201d}'),
        named_entity(seq!['b', 'd', 'q', 'u', 'o']) == Some('\u{201e}'),
{
}

/// A stretch of the table of named references: each name below stands for the character HTML
/// gives it.
#[verifier::rlimit(40)]
proof fn lemma_named_references_4()
    ensures
        named_entity(seq!['l', 'a', 'q', 'u', 'o']) == Some('\u{ab}'),
        named_entity(seq!['r', 'a', 'q', 'u', 'o']) == Some('\u{bb}'),
        named_entity(seq!['l', 's', 'a', 'q', 'u', 'o']) == Some('\u{2039}'),
        named_entity(seq!['r', 's', 'a', 'q', 'u', 'o']) == Some('\u{203a}'),
        named_entity(seq!['l', 'p', 'a', 'r']) == Some('('),
        named_entity(seq!['r', 'p', 'a', 'r']) == Some(')'),
        named_entity(seq!['c', 'o', 'p', 'y']) == Some('\u{a9}'),
        named_entity(seq!['r', 'e', 'g']) == Some('\u{ae}'),
{
}

/// A stretch of the table of named references: each name below stands for the character HTML
/// gives it.
#[verifier::rlimit(40)]
proof fn lemma_named_references_5()
    ensures
        named_entity(seq!['t', 'r', 'a', 'd', 'e']) == Some('\u{2122}'),
        named_entity(seq!['d', 'e', 'g']) == Some('\u{b0}'),
        named_entity(seq!['p', 'l', 'u', 's', 'm', 'n']) == Some('\u{b1}'),
        named_entity(seq!['t', 'i', 'm', 'e', 's']) == Some('\u{d7}'),
        named_entity(seq!['d', 'i', 'v', 'i', 'd', 'e']) == Some('\u{f7}'),
        named_entity(seq!['m', 'i', 'c', 'r', 'o']) == Some('\u{b5}'),
        named_entity(seq!['p', 'a', 'r', 'a']) == Some('\u{b6}'),
        named_entity(seq!['s', 'e', 'c', 't']) == Some('\u{a7}'),
{
}

/// A stretch of the table of named references: each name below stands for the character HTML
/// gives it.
#[verifier::rlimit(40)]
proof fn lemma_named_references_6()
    ensures
        named_entity(seq!['d', 'a', 'g', 'g', 'e', 'r']) == Some('\u{2020}'),
        named_entity(seq!['D', 'a', 'g', 'g', 'e', 'r']) == Some('\u{2021}'),
        named_entity(seq!['p', 'e', 'r', 'm', 'i', 'l']) == Some('\u{2030}'),
        named_entity(seq!['f', 'r', 'a', 'c', '1', '2']) == Some('\u{bd}'),
        named_entity(seq!['f', 'r', 'a', 'c', '1', '4']) == Some('\u{bc}'),
        named_entity(seq!['f', 'r', 'a', 'c', '3', '4']) == Some('\u{be}'),
        named_entity(seq!['s', 'u', 'p', '2']) == Some('\u{b2}'),
        named_entity(seq!['s', 'u', 'p', '3']) == Some('\u{b3}'),
{
}

/// A stretch of the table of named references: each name below stands for the character HTML
/// gives it.
#[verifier::rlimit(40)]
proof fn lemma_named_references_7()
    ensures
        named_entity(seq!['s', 'u', 'p', '1']) == Some('\u{b9}'),
        named_entity(seq!['i', 'q', 'u', 'e', 's', 't']) == Some('\u{bf}'),
        named_entity(seq!['i', 'e', 'x', 'c', 'l']) == Some('\u{a1}'),
        named_entity(seq!['b', 'r', 'v', 'b', 'a', 'r']) == Some('\u{a6}'),
        named_entity(seq!['e', 'u', 'r', 'o']) == Some('\u{20ac}'),
        named_entity(seq!['p', 'o', 'u', 'n', 'd']) == Some('\u{a3}'),
        named_entity(seq!['y', 'e', 'n']) == Some('\u{a5}'),
        named_entity(seq!['c', 'e', 'n', 't']) == Some('\u{a2}'),
{
}

/// A stretch of the table of named references: each name below stands for the character HTML
/// gives it.
#[verifier::rlimit(40)]
proof fn lemma_named_references_8()
    ensures
        named_entity(seq!['c', 'u', 'r', 'r', 'e', 'n']) == Some('\u{a4}'),
        named_entity(seq!['l', 'a', 'r', 'r']) == Some('\u{2190}'),
        named_entity(seq!['u', 'a', 'r', 'r']) == Some('\u{2191}'),
        named_entity(seq!['r', 'a', 'r', 'r']) == Some('\u{2192}'),
        named_entity(seq!['d', 'a', 'r', 'r']) == Some('\u{2193}'),
        named_entity(seq!['h', 'a', 'r', 'r']) == Some('\u{2194}'),
{
}

/// A reference that is found covers at least its `&` and its `;`, and no more than is there.
proof fn lemma_entity_length(t: Seq<char>)
    ensures
        match entity(t) {
            Some((c, n)) => 2 <= n <= t.len(),
            None => true,
        },
{
    lemma_first_match(t, seq![';'], 0);
}

/// Resolves the character references in `text`.
///
/// Only the references that turn up in titles are known by name; one that is not known is left
/// exactly as it was written, so `&notanentity;` is not quietly eaten.
pub fn decode_entities(text: &[char]) -> (out: Vec<char>)
    ensures
        out@ == decode(text@),
{
    let mut out: Vec<char> = Vec::new();
    let mut i: usize = 0;
    assert(text@.skip(0) =~= text@);
    assert(out@ + decode(text@) =~= decode(text@));
    while i < text.len()
        invariant
            i <= text.len(),
            decode(text@) == out@ + decode(text@.skip(i as int)),
        decreases text.len() - i,
    {
        let ghost rest = text@.skip(i as int);
        assert(rest.drop_first() =~= text@.skip(i + 1));
        if text[i] != '&' {
            out.push(text[i]);
            i += 1;
        } else {
            let tail = &text[i..text.len()];
            assert(tail@ =~= rest);
            proof {
                lemma_entity_length(rest);
            }
            match entity_at(tail) {
                Some((c, n)) => {
                    assert(rest.skip(n as int) =~= text@.skip(i + n));
                    out.push(c);
                    i += n;
                },
                None => {
                    out.push('&');
                    i += 1;
                },
            }
        }
        assert(decode(text@) == out@ + decode(text@.skip(i as int)));
    }
    assert(text@.skip(i as int) =~= seq![]);
    assert(out@ + seq![] =~= out@);
    out
}

/// `s` with every run of whitespace made a single space, and none left at either end.
pub open spec fn collapse(s: Seq<char>) -> Seq<char>
    decreases s.len(),
{
    if s.len() == 0 {
        seq![]
    } else {
        let r = collapse(s.drop_last());
        let c = s.last();
        if text::is_ws(c) {
            r
        } else if s.len() >= 2 && text::is_ws(s[s.len() - 2]) && r.len() > 0 {
            r.push(' ').push(c)
        } else {
            r.push(c)
        }
    }
}

/// Whether `t` is laid out as one line: no whitespace but single spaces, and none at either end.
pub open spec fn one_line(t: Seq<char>) -> bool {
    &&& t.len() > 0 ==> !text::is_ws(t[0]) && !text::is_ws(t.last())
    &&& forall|i: int|
        0 <= i < t.len() && text::is_ws(#[trigger] t[i]) ==> t[i] == ' ' && 0 < i < t.len() - 1
            && !text::is_ws(t[i - 1]) && !text::is_ws(t[i + 1])
}

/// Collapsing whitespace leaves one line: every run of whitespace inside the text a single space,
/// and none at its ends.
pub proof fn lemma_collapse_is_one_line(s: Seq<char>)
    ensures
        one_line(collapse(s)),
    decreases s.len(),
{
    if s.len() > 0 {
        let r = collapse(s.drop_last());
        lemma_collapse_is_one_line(s.drop_last());
        let c = s.last();
        let t = collapse(s);
        if text::is_ws(c) {
        } else if s.len() >= 2 && text::is_ws(s[s.len() - 2]) && r.len() > 0 {
            assert(t == r.push(' ').push(c));
            assert forall|i: int| 0 <= i < t.len() && text::is_ws(#[trigger] t[i]) implies t[i] == ' '
                && 0 < i < t.len() - 1 && !text::is_ws(t[i - 1]) && !text::is_ws(t[i + 1]) by {
                if i < r.len() {
                    assert(t[i] == r[i]);
                    assert(i < r.len() - 1);
                    assert(t[i + 1] == r[i + 1]);
                }
            }
        } else {
            assert(t == r.push(c));
            assert forall|i: int| 0 <= i < t.len() && text::is_ws(#[trigger] t[i]) implies t[i] == ' '
                && 0 < i < t.len() - 1 && !text::is_ws(t[i - 1]) && !text::is_ws(t[i + 1]) by {
                assert(i < r.len());
                assert(t[i] == r[i]);
                assert(i < r.len() - 1);
                assert(t[i + 1] == r[i + 1]);
            }
        }
    }
}

/// Text with no `&` in it has no references to resolve, and reads as it is.
pub proof fn lemma_decode_plain(t: Seq<char>)
    requires
        forall|i: int| 0 <= i < t.len() ==> t[i] != '&',
    ensures
        decode(t) == t,
    decreases t.len(),
{
    if t.len() > 0 {
        lemma_decode_plain(t.drop_first());
        assert(seq![t[0]] + t.drop_first() =~= t);
    }
}

/// A raw title as it would be read: references resolved, whitespace collapsed, and nothing at
/// all when that leaves nothing.
pub open spec fn tidied(raw: Seq<char>) -> Option<Seq<char>> {
    let t = collapse(decode(raw));
    if t.len() == 0 {
        None
    } else {
        Some(t)
    }
}

/// A raw title as it would be read: references resolved, and runs of whitespace — a `<title>`
/// in a source file is often indented over several lines — collapsed to single spaces.
///
/// `None` for a title that is empty or is nothing but whitespace, which says no more about a
/// page than no title at all does.
fn tidy(raw: &[char]) -> (r: Option<String>)
    ensures
        match r {
            Some(t) => tidied(raw@) == Some(t@),
            None => tidied(raw@) is None,
        },
{
    let decoded = decode_entities(raw);
    let mut out: Vec<char> = Vec::new();
    let mut gap = false;
    let mut i: usize = 0;
    while i < decoded.len()
        invariant
            i <= decoded.len(),
            out@ == collapse(decoded@.take(i as int)),
            gap == (i > 0 && text::is_ws(decoded@[i - 1])),
        decreases decoded.len() - i,
    {
        let c = decoded[i];
        let ghost before = decoded@.take(i as int);
        assert(decoded@.take(i + 1).drop_last() =~= before);
        if text::is_whitespace(c) {
            gap = true;
        } else {
            if gap && out.len() > 0 {
                out.push(' ');
            }
            out.push(c);
            gap = false;
        }
        i += 1;
    }
    assert(decoded@.take(i as int) =~= decoded@);
    if out.len() == 0 {
        None
    } else {
        Some(text::string_of(&out))
    }
}

/// Whether `c` can be part of a tag name.
pub open spec fn is_name_char(c: char) -> bool {
    text::is_ascii_alnum(c) || c == '-'
}

/// The index just past the run of name characters that starts at `i`.
pub open spec fn name_end(d: Seq<char>, i: int) -> int
    decreases d.len() - i,
{
    if 0 <= i < d.len() && is_name_char(d[i]) {
        name_end(d, i + 1)
    } else {
        i
    }
}

pub proof fn lemma_name_end(d: Seq<char>, i: int)
    requires
        0 <= i <= d.len(),
    ensures
        i <= name_end(d, i) <= d.len(),
        forall|k: int| i <= k < name_end(d, i) ==> is_name_char(#[trigger] d[k]),
    decreases d.len() - i,
{
    if 0 <= i < d.len() && is_name_char(d[i]) {
        lemma_name_end(d, i + 1);
    }
}

/// Where the name of the tag that `<` at `open` starts would begin: after a `/`, for a closing tag.
pub open spec fn name_start(d: Seq<char>, open: int) -> int {
    if open + 1 < d.len() && d[open + 1] == '/' {
        open + 2
    } else {
        open + 1
    }
}

/// The name of the tag opened at `open`, as the range of `d` it spans, when `<` there really
/// opens a tag.
pub open spec fn tag_name(d: Seq<char>, open: int) -> Option<(int, int)> {
    if !(0 <= open < d.len() && d[open] == '<') {
        None
    } else {
        let start = name_start(d, open);
        let end = name_end(d, start);
        if end > start {
            Some((start, end))
        } else {
            None
        }
    }
}

/// The tag name at `open`, with the index just past it, when `<` really opens a tag.
///
/// The name is handed back as it is written and compared case-insensitively by the caller: HTML
/// tag names are ASCII.
fn tag_name_at(d: &[char], open: usize) -> (r: Option<(&[char], usize)>)
    ensures
        match r {
            Some((name, end)) => tag_name(d@, open as int) matches Some((s, e)) && e == end
                && name@ == d@.subrange(s, e),
            None => tag_name(d@, open as int) is None,
        },
{
    if open >= d.len() || d[open] != '<' {
        return None;
    }
    let mut index = open + 1;
    if index < d.len() && d[index] == '/' {
        index += 1;
    }
    let start = index;
    proof {
        lemma_name_end(d@, start as int);
    }
    while index < d.len() && (text::ascii_alnum(d[index]) || d[index] == '-')
        invariant
            start <= index <= d.len(),
            name_end(d@, start as int) == name_end(d@, index as int),
        decreases d.len() - index,
    {
        index += 1;
    }
    if index > start {
        Some((&d[start..index], index))
    } else {
        None
    }
}

/// The index of the `>` that closes a tag, scanning from `i` with `quote` the quote that an
/// attribute value open at `i` began with, if one is.
pub open spec fn tag_end_from(d: Seq<char>, i: int, quote: Option<char>) -> Option<int>
    decreases d.len() - i,
{
    if i < 0 || i >= d.len() {
        None
    } else {
        let c = d[i];
        match quote {
            Some(q) => if c == q {
                tag_end_from(d, i + 1, None)
            } else {
                tag_end_from(d, i + 1, quote)
            },
            None => if c == '"' || c == '\'' {
                tag_end_from(d, i + 1, Some(c))
            } else if c == '>' {
                Some(i)
            } else {
                tag_end_from(d, i + 1, None)
            },
        }
    }
}

pub proof fn lemma_tag_end(d: Seq<char>, i: int, quote: Option<char>)
    ensures
        match tag_end_from(d, i, quote) {
            Some(e) => i <= e < d.len() && d[e] == '>',
            None => true,
        },
    decreases d.len() - i,
{
    if i < 0 || i >= d.len() {
    } else {
        let c = d[i];
        match quote {
            Some(q) => if c == q {
                lemma_tag_end(d, i + 1, None);
            } else {
                lemma_tag_end(d, i + 1, quote);
            },
            None => if c == '"' || c == '\'' {
                lemma_tag_end(d, i + 1, Some(c));
            } else if c == '>' {
            } else {
                lemma_tag_end(d, i + 1, None);
            },
        }
    }
}

/// The index of the `>` that closes the tag at or after `from`.
///
/// Quotes are respected, because an attribute value may contain one of these itself, as in
/// `<title data-note="a > b">`.
fn tag_end(d: &[char], from: usize) -> (r: Option<usize>)
    ensures
        as_int(r) == tag_end_from(d@, from as int, None),
{
    let mut quote: Option<char> = None;
    let mut index = from;
    while index < d.len()
        invariant
            from <= index,
            tag_end_from(d@, from as int, None) == tag_end_from(d@, index as int, quote),
        decreases d.len() - index,
    {
        let c = d[index];
        match quote {
            Some(open) => {
                if c == open {
                    quote = None;
                }
            },
            None => {
                if c == '"' || c == '\'' {
                    quote = Some(c);
                } else if c == '>' {
                    return Some(index);
                }
            },
        }
        index += 1;
    }
    None
}

/// The tag that closes the element `name`.
pub open spec fn closing_of(name: Seq<char>) -> Seq<char> {
    seq!['<', '/'] + name
}

/// The index to carry on from after the element `name`, whose text starts at `from`: just past
/// the tag that closes it, or the end of the document when it is never closed.
pub open spec fn skip_to(d: Seq<char>, name: Seq<char>, from: int) -> int {
    match first_match(d, closing_of(name), from) {
        Some(found) => match tag_end_from(d, found, None) {
            Some(end) => end + 1,
            None => d.len() as int,
        },
        None => d.len() as int,
    }
}

pub proof fn lemma_skip_to(d: Seq<char>, name: Seq<char>, from: int)
    requires
        0 <= from <= d.len(),
    ensures
        from < skip_to(d, name, from) <= d.len() || skip_to(d, name, from) == d.len(),
{
    lemma_first_match(d, closing_of(name), from);
    if let Some(found) = first_match(d, closing_of(name), from) {
        lemma_tag_end(d, found, None);
    }
}

/// The index to carry on from after a text-holding element such as `<script>`.
fn skip_element(d: &[char], name: &[char], from: usize) -> (r: usize)
    ensures
        r == skip_to(d@, name@, from as int),
{
    let mut closing: Vec<char> = Vec::new();
    closing.push('<');
    closing.push('/');
    let mut k: usize = 0;
    while k < name.len()
        invariant
            k <= name.len(),
            closing@ == seq!['<', '/'] + name@.take(k as int),
        decreases name.len() - k,
    {
        closing.push(name[k]);
        k += 1;
        assert(closing@ =~= seq!['<', '/'] + name@.take(k as int));
    }
    assert(name@.take(k as int) =~= name@);
    match find_ci(d, &closing, from) {
        Some(found) => match tag_end(d, found) {
            Some(end) => {
                proof {
                    lemma_tag_end(d@, found as int, None);
                }
                assert(end < d.len());
                end + 1
            },
            None => d.len(),
        },
        None => d.len(),
    }
}

/// Whether `a` and `b` are the same word once ASCII case is set aside.
pub open spec fn same_word(a: Seq<char>, b: Seq<char>) -> bool {
    a.len() == b.len() && matches_at(a, 0, b)
}

/// What the scan of `d` from `index` finds: the tidied text of the first `<title>` that is not
/// inside a comment, a script or a style, provided it is closed.
pub open spec fn scan(d: Seq<char>, index: int) -> Option<Seq<char>>
    decreases d.len() - index,
{
    if index < 0 || index > d.len() {
        None
    } else {
        match first_match(d, seq!['<'], index) {
            None => None,
            Some(open) => {
                proof {
                    lemma_first_match(d, seq!['<'], index);
                }
                if matches_at(d, open, seq!['<', '!', '-', '-']) {
                    match first_match(d, seq!['-', '-', '>'], open) {
                        None => None,
                        Some(close) => {
                            proof {
                                lemma_first_match(d, seq!['-', '-', '>'], open);
                            }
                            scan(d, close + 3)
                        },
                    }
                } else {
                    match tag_name(d, open) {
                        None => scan(d, open + 1),
                        Some((start, end)) => {
                            let name = d.subrange(start, end);
                            if same_word(name, seq!['s', 'c', 'r', 'i', 'p', 't']) || same_word(
                                name,
                                seq!['s', 't', 'y', 'l', 'e'],
                            ) {
                                proof {
                                    lemma_name_end(d, name_start(d, open));
                                    lemma_skip_to(d, name, end);
                                }
                                scan(d, skip_to(d, name, end))
                            } else if same_word(name, seq!['t', 'i', 't', 'l', 'e']) {
                                match tag_end_from(d, end, None) {
                                    None => None,
                                    Some(close) => match first_match(
                                        d,
                                        seq!['<', '/', 't', 'i', 't', 'l', 'e'],
                                        close + 1,
                                    ) {
                                        None => None,
                                        Some(stop) => tidied(d.subrange(close + 1, stop)),
                                    },
                                }
                            } else {
                                scan(d, open + 1)
                            }
                        },
                    }
                }
            },
        }
    }
}

/// The title of the HTML document `html`.
pub open spec fn title_of_document(html: Seq<char>) -> Option<Seq<char>> {
    scan(html, 0)
}

/// The `<title>` of an HTML document, tidied into something worth using as a mark's name.
///
/// This scans the document rather than parsing it, and anything the scan cannot make sense of
/// answers `None`, which leaves the caller its fallback name.
pub fn extract_title(html: &str) -> (r: Option<String>)
    ensures
        match r {
            Some(t) => title_of_document(html@) == Some(t@),
            None => title_of_document(html@) is None,
        },
{
    let d = text::chars_of(html);
    let d = d.as_slice();
    let lt = ['<'];
    let comment = ['<', '!', '-', '-'];
    let comment_end = ['-', '-', '>'];
    let script = ['s', 'c', 'r', 'i', 'p', 't'];
    let style = ['s', 't', 'y', 'l', 'e'];
    let title = ['t', 'i', 't', 'l', 'e'];
    let title_end = ['<', '/', 't', 'i', 't', 'l', 'e'];
    assert(lt@ =~= seq!['<']);
    assert(comment@ =~= seq!['<', '!', '-', '-']);
    assert(comment_end@ =~= seq!['-', '-', '>']);
    assert(script@ =~= seq!['s', 'c', 'r', 'i', 'p', 't']);
    assert(style@ =~= seq!['s', 't', 'y', 'l', 'e']);
    assert(title@ =~= seq!['t', 'i', 't', 'l', 'e']);
    assert(title_end@ =~= seq!['<', '/', 't', 'i', 't', 'l', 'e']);
    let mut index: usize = 0;
    while index <= d.len()
        invariant
            d@ == html@,
            scan(d@, 0) == scan(d@, index as int),
            lt@ == seq!['<'],
            comment@ == seq!['<', '!', '-', '-'],
            comment_end@ == seq!['-', '-', '>'],
            script@ == seq!['s', 'c', 'r', 'i', 'p', 't'],
            style@ == seq!['s', 't', 'y', 'l', 'e'],
            title@ == seq!['t', 'i', 't', 'l', 'e'],
            title_end@ == seq!['<', '/', 't', 'i', 't', 'l', 'e'],
        decreases d.len() + 1 - index,
    {
        let open = match find_ci(d, &lt, index) {
            Some(open) => open,
            None => return None,
        };
        proof {
            lemma_first_match(d@, seq!['<'], index as int);
        }
        // A comment is not markup, and may well mention a title in passing.
        if starts_with_ci(d, open, &comment) {
            // Unterminated comments leave no markup behind them that could be trusted.
            let close = match find_ci(d, &comment_end, open) {
                Some(close) => close,
                None => return None,
            };
            proof {
                lemma_first_match(d@, seq!['-', '-', '>'], open as int);
            }
            index = close + 3;
            continue;
        }
        let (name, name_end_at) = match tag_name_at(d, open) {
            Some(found) => found,
            None => {
                index = open + 1;
                continue;
            },
        };
        // A script or a style holds text rather than elements, and that text may contain
        // anything, including the string `<title>`.
        if same_ci(name, &script) || same_ci(name, &style) {
            proof {
                lemma_name_end(d@, name_start(d@, open as int));
                lemma_skip_to(d@, name@, name_end_at as int);
            }
            index = skip_element(d, name, name_end_at);
            continue;
        }
        if same_ci(name, &title) {
            // The text runs from just past this tag to the closing one. A title that is never
            // closed ends the search: what follows is not known to be a title at all.
            let close = match tag_end(d, name_end_at) {
                Some(close) => close,
                None => return None,
            };
            proof {
                lemma_tag_end(d@, name_end_at as int, None);
            }
            assert(close < d.len());
            let text_start = close + 1;
            let stop = match find_ci(d, &title_end, text_start) {
                Some(stop) => stop,
                None => return None,
            };
            proof {
                lemma_first_match(d@, seq!['<', '/', 't', 'i', 't', 'l', 'e'], text_start as int);
            }
            return tidy(&d[text_start..stop]);
        }
        index = open + 1;
    }
    None
}

/// Whether `a` and `b` are the same word once ASCII case is set aside.
fn same_ci(a: &[char], b: &[char]) -> (r: bool)
    ensures
        r == same_word(a@, b@),
{
    a.len() == b.len() && starts_with_ci(a, 0, b)
}

/// Decodes a document's bytes as text: as UTF-8 when they are that, and otherwise as Latin-1,
/// which is lossless for the single-byte encodings that came before it.
pub open spec fn decoded_document(bytes: Seq<u8>) -> Seq<char> {
    if vstd::utf8::valid_utf8(bytes) {
        vstd::utf8::decode_utf8(bytes)
    } else {
        bytes.map_values(|b: u8| b as char)
    }
}

/// The text `bytes` encode in UTF-8, when they are valid UTF-8 (`std::str::from_utf8`).
#[verifier::external_body]
fn utf8_text(bytes: &[u8]) -> (r: Option<String>)
    ensures
        r is Some <==> vstd::utf8::valid_utf8(bytes@),
        r matches Some(s) ==> s@ == vstd::utf8::decode_utf8(bytes@),
{
    std::str::from_utf8(bytes).ok().map(|text| text.to_owned())
}

/// Decodes a document's bytes as text.
///
/// The `Content-Type` header is not consulted for this, since it is left out as often as it is
/// wrong. UTF-8 is tried first because it is what the web is written in; a document that is
/// not UTF-8 is then read as Latin-1, which is right for every ASCII byte in between.
pub fn decode_html(bytes: &[u8]) -> (r: String)
    ensures
        r@ == decoded_document(bytes@),
{
    match utf8_text(bytes) {
        Some(text) => text,
        None => {
            let mut out = String::new();
            let mut i: usize = 0;
            while i < bytes.len()
                invariant
                    i <= bytes.len(),
                    out@ == bytes@.take(i as int).map_values(|b: u8| b as char),
                decreases bytes.len() - i,
            {
                text::push_char(&mut out, bytes[i] as char);
                i += 1;
                assert(out@ =~= bytes@.take(i as int).map_values(|b: u8| b as char));
            }
            assert(bytes@.take(i as int) =~= bytes@);
            out
        },
    }
}

/// `bytes`, one character for each (what a byte means in Latin-1).
pub open spec fn latin1(bytes: Seq<u8>) -> Seq<char> {
    bytes.map_values(|b: u8| b as char)
}

/// Whether the start of a page read so far already holds the tag that closes its title.
///
/// Searched over everything read so far, so a closing tag split across two reads is found once
/// the second has arrived. Every byte of `</title` is ASCII, so the bytes are searched as they
/// are, with no decoding.
pub fn read_enough(head: &[u8]) -> (r: bool)
    ensures
        r == (first_match(latin1(head@), seq!['<', '/', 't', 'i', 't', 'l', 'e'], 0) is Some),
{
    let mut chars: Vec<char> = Vec::new();
    let mut i: usize = 0;
    while i < head.len()
        invariant
            i <= head.len(),
            chars@ == latin1(head@.take(i as int)),
        decreases head.len() - i,
    {
        chars.push(head[i] as char);
        i += 1;
        assert(chars@ =~= latin1(head@.take(i as int)));
    }
    assert(head@.take(i as int) =~= head@);
    let title_end = ['<', '/', 't', 'i', 't', 'l', 'e'];
    assert(title_end@ =~= seq!['<', '/', 't', 'i', 't', 'l', 'e']);
    find_ci(&chars, &title_end, 0).is_some()
}

/// Whether an answer with `status` and `content_type` is worth reading for a title: a success,
/// and HTML or of no stated type at all.
pub open spec fn worth_reading(status: u16, content_type: Option<Seq<char>>) -> bool {
    &&& 200 <= status <= 299
    &&& match content_type {
        Some(t) => first_match(t, seq!['h', 't', 'm', 'l'], 0) is Some,
        None => true,
    }
}

/// Whether an answer is worth reading for a title.
///
/// A status that is not a success is a page without a title, even when it comes with a body of
/// its own. An image or a PDF has no title either, and there is nothing to gain by reading one;
/// an answer that names no type is read anyway, because plenty of small sites omit the header.
pub fn readable_response(status: u16, content_type: Option<&str>) -> (r: bool)
    ensures
        r == worth_reading(
            status,
            match content_type {
                Some(t) => Some(t@),
                None => None,
            },
        ),
{
    if status < 200 || status > 299 {
        return false;
    }
    match content_type {
        None => true,
        Some(t) => {
            let chars = text::chars_of(t);
            let html = ['h', 't', 'm', 'l'];
            assert(html@ =~= seq!['h', 't', 'm', 'l']);
            find_ci(&chars, &html, 0).is_some()
        },
    }
}

} // verus!

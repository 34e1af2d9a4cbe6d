//! Characters and strings: the few facts about Unicode text that the rest of the library is
//! written against, each stated as a spec function and computed by a function proved to follow it.
use vstd::prelude::*;

verus! {

broadcast use vstd::string::group_string_axioms;

/// The code of `c` folded to lower case, for the ASCII letters only.
pub open spec fn ascii_lower(u: u32) -> u32 {
    if 65 <= u <= 90 {
        (u + 32) as u32
    } else {
        u
    }
}

/// Whether two characters are the same letter once ASCII case is set aside.
pub open spec fn ci_eq(a: char, b: char) -> bool {
    ascii_lower(a as u32) == ascii_lower(b as u32)
}

/// Whether `c` is an ASCII letter or digit.
pub open spec fn is_ascii_alnum(c: char) -> bool {
    ('0' <= c <= '9') || ('a' <= c <= 'z') || ('A' <= c <= 'Z')
}

/// Whether `c` carries Unicode's `White_Space` property, which is what `char::is_whitespace`
/// answers.
pub open spec fn is_ws(c: char) -> bool {
    let u = c as u32;
    ||| 0x09 <= u <= 0x0d
    ||| u == 0x20
    ||| u == 0x85
    ||| u == 0xa0
    ||| u == 0x1680
    ||| 0x2000 <= u <= 0x200a
    ||| u == 0x2028
    ||| u == 0x2029
    ||| u == 0x202f
    ||| u == 0x205f
    ||| u == 0x3000
}

/// Whether `c` is in Unicode's general category `Cc`, which is what `char::is_control` answers.
pub open spec fn is_cc(c: char) -> bool {
    let u = c as u32;
    u <= 0x1f || (0x7f <= u <= 0x9f)
}

/// `a` and `b` compared with ASCII case set aside.
pub fn eq_ignore_ascii_case(a: char, b: char) -> (r: bool)
    ensures
        r == ci_eq(a, b),
{
    let x = a as u32;
    let y = b as u32;
    let lx = if 65 <= x && x <= 90 { x + 32 } else { x };
    let ly = if 65 <= y && y <= 90 { y + 32 } else { y };
    lx == ly
}

/// Whether `c` is an ASCII letter or digit.
pub fn ascii_alnum(c: char) -> (r: bool)
    ensures
        r == is_ascii_alnum(c),
{
    ('0' <= c && c <= '9') || ('a' <= c && c <= 'z') || ('A' <= c && c <= 'Z')
}

/// Whether `c` is whitespace, in the sense of Unicode's `White_Space` property.
pub fn is_whitespace(c: char) -> (r: bool)
    ensures
        r == is_ws(c),
{
    let u = c as u32;
    (0x09 <= u && u <= 0x0d) || u == 0x20 || u == 0x85 || u == 0xa0 || u == 0x1680 || (0x2000
        <= u && u <= 0x200a) || u == 0x2028 || u == 0x2029 || u == 0x202f || u == 0x205f || u
        == 0x3000
}

/// Whether `c` is a control character (general category `Cc`).
pub fn is_control(c: char) -> (r: bool)
    ensures
        r == is_cc(c),
{
    let u = c as u32;
    u <= 0x1f || (0x7f <= u && u <= 0x9f)
}

/// Appends `c` to `s` (`String::push`).
#[verifier::external_body]
pub(crate) fn push_char(s: &mut String, c: char)
    ensures
        final(s)@ == old(s)@.push(c),
{
    s.push(c);
}

/// The characters of `s`, one by one.
pub fn chars_of(s: &str) -> (out: Vec<char>)
    ensures
        out@ == s@,
{
    let mut out: Vec<char> = Vec::new();
    for c in it: s.chars()
        invariant
            out@ == it.seq().take(it.index() as int),
            it.seq() == s@,
    {
        out.push(c);
    }
    out
}

/// The string made of `chars`, in order.
pub fn string_of(chars: &[char]) -> (s: String)
    ensures
        s@ == chars@,
{
    let mut s = String::new();
    let mut i: usize = 0;
    while i < chars.len()
        invariant
            i <= chars.len(),
            s@ == chars@.take(i as int),
        decreases chars.len() - i,
    {
        push_char(&mut s, chars[i]);
        i += 1;
        assert(s@ =~= chars@.take(i as int));
    }
    assert(chars@.take(chars.len() as int) =~= chars@);
    s
}

/// The first `n` characters of `s`, all of it when it is no longer than that.
pub open spec fn take_chars(s: Seq<char>, n: nat) -> Seq<char> {
    if s.len() <= n {
        s
    } else {
        s.take(n as int)
    }
}

/// `s` cut to its first `n` characters.
pub fn first_chars(s: &str, n: usize) -> (r: String)
    ensures
        r@ == take_chars(s@, n as nat),
{
    let chars = chars_of(s);
    if chars.len() <= n {
        string_of(&chars)
    } else {
        string_of(&chars[0..n])
    }
}

/// Whether `c` is whitespace at the start or the end of `s`, which `str::trim` removes.
pub open spec fn trimmed_start(s: Seq<char>) -> int
    decreases s.len(),
{
    if s.len() > 0 && is_ws(s[0]) {
        1 + trimmed_start(s.drop_first())
    } else {
        0
    }
}

/// The index just past the last character of `s` that is not whitespace.
pub open spec fn trimmed_end(s: Seq<char>) -> int
    decreases s.len(),
{
    if s.len() > 0 && is_ws(s.last()) {
        trimmed_end(s.drop_last())
    } else {
        s.len() as int
    }
}

/// `s` without the whitespace at either end (`str::trim`).
pub open spec fn trim(s: Seq<char>) -> Seq<char> {
    let t = s.skip(trimmed_start(s));
    t.take(trimmed_end(t))
}

/// The index of the first character of `s` that is not whitespace, or the end of `s`.
fn first_kept(s: &[char]) -> (r: usize)
    ensures
        r == trimmed_start(s@),
        r <= s.len(),
{
    let mut i: usize = 0;
    assert(s@.skip(0) =~= s@);
    while i < s.len() && is_whitespace(s[i])
        invariant
            i <= s.len(),
            trimmed_start(s@) == i + trimmed_start(s@.skip(i as int)),
        decreases s.len() - i,
    {
        assert(s@.skip(i as int).drop_first() =~= s@.skip(i + 1));
        i += 1;
    }
    i
}

/// The index just past the last character of `s` that is not whitespace.
fn last_kept(s: &[char]) -> (r: usize)
    ensures
        r == trimmed_end(s@),
        r <= s.len(),
{
    let mut j: usize = s.len();
    assert(s@.take(j as int) =~= s@);
    while j > 0 && is_whitespace(s[j - 1])
        invariant
            j <= s.len(),
            trimmed_end(s@) == trimmed_end(s@.take(j as int)),
        decreases j,
    {
        assert(s@.take(j as int).drop_last() =~= s@.take(j - 1));
        j -= 1;
    }
    j
}

/// What is left after trimming starts and ends with something other than whitespace.
pub proof fn lemma_trim_edges(s: Seq<char>)
    ensures
        trim(s).len() > 0 ==> !is_ws(trim(s)[0]) && !is_ws(trim(s).last()),
        trim(s).len() <= s.len(),
    decreases s.len(),
{
    if s.len() > 0 && is_ws(s[0]) {
        lemma_trim_edges(s.drop_first());
        lemma_trim_start_bound(s.drop_first());
        assert(s.skip(trimmed_start(s)) =~= s.drop_first().skip(trimmed_start(s.drop_first())));
    } else {
        assert(s.skip(0) =~= s);
        lemma_trim_end_edge(s);
    }
}

/// The whitespace at the start is no longer than the text.
proof fn lemma_trim_start_bound(s: Seq<char>)
    ensures
        0 <= trimmed_start(s) <= s.len(),
    decreases s.len(),
{
    if s.len() > 0 && is_ws(s[0]) {
        lemma_trim_start_bound(s.drop_first());
    }
}

/// Cutting the whitespace off the end leaves something that ends with something else.
proof fn lemma_trim_end_edge(s: Seq<char>)
    ensures
        0 <= trimmed_end(s) <= s.len(),
        trimmed_end(s) > 0 ==> !is_ws(s[trimmed_end(s) - 1]),
    decreases s.len(),
{
    if s.len() > 0 && is_ws(s.last()) {
        lemma_trim_end_edge(s.drop_last());
    }
}

/// Trimming twice is trimming once.
pub proof fn lemma_trim_idempotent(s: Seq<char>)
    ensures
        trim(trim(s)) == trim(s),
{
    lemma_trim_edges(s);
    let t = trim(s);
    if t.len() > 0 {
        assert(trimmed_start(t) == 0);
        assert(t.skip(0) =~= t);
        assert(trimmed_end(t) == t.len());
        assert(t.take(t.len() as int) =~= t);
    } else {
        assert(trim(t) =~= t);
    }
}

/// `s` without the whitespace at either end (`str::trim`).
pub fn trim_str(s: &str) -> (r: String)
    ensures
        r@ == trim(s@),
{
    let chars = chars_of(s);
    let start = first_kept(&chars);
    let rest = &chars[start..chars.len()];
    assert(rest@ =~= s@.skip(start as int));
    let end = last_kept(rest);
    string_of(&rest[0..end])
}

/// `s` with every `c` at its end taken off (`str::trim_end_matches` with a character).
pub open spec fn trim_end_char(s: Seq<char>, c: char) -> Seq<char>
    decreases s.len(),
{
    if s.len() > 0 && s.last() == c {
        trim_end_char(s.drop_last(), c)
    } else {
        s
    }
}

/// Set against a character that is no letter, ignoring ASCII case is no different from plain
/// equality.
pub proof fn lemma_ci_eq_not_letter(x: char, p: char)
    requires
        !('a' <= p <= 'z'),
        !('A' <= p <= 'Z'),
        ci_eq(x, p),
    ensures
        x == p,
{
    assert(x as u32 == p as u32);
}

/// Taking a character off the end leaves the front of what was there.
pub proof fn lemma_trim_end_char_prefix(s: Seq<char>, c: char)
    ensures
        trim_end_char(s, c).len() <= s.len(),
        forall|i: int| 0 <= i < trim_end_char(s, c).len() ==> #[trigger] trim_end_char(s, c)[i] == s[i],
    decreases s.len(),
{
    if s.len() > 0 && s.last() == c {
        lemma_trim_end_char_prefix(s.drop_last(), c);
    }
}

/// Taking a character off the end of `a` followed by `b` only reaches into `b`, when `b` does
/// not consist of that character alone.
pub proof fn lemma_trim_end_char_append(a: Seq<char>, b: Seq<char>, c: char)
    requires
        trim_end_char(b, c).len() > 0,
    ensures
        trim_end_char(a + b, c) == a + trim_end_char(b, c),
    decreases b.len(),
{
    assert(b.len() > 0);
    assert((a + b).last() == b.last());
    if b.last() == c {
        assert((a + b).drop_last() =~= a + b.drop_last());
        lemma_trim_end_char_append(a, b.drop_last(), c);
    }
}

/// `s` with every `c` at its end taken off.
pub fn trim_end_matches(s: &str, c: char) -> (r: String)
    ensures
        r@ == trim_end_char(s@, c),
{
    let chars = chars_of(s);
    let mut j: usize = chars.len();
    assert(chars@.take(j as int) =~= chars@);
    while j > 0 && chars[j - 1] == c
        invariant
            j <= chars.len(),
            trim_end_char(s@, c) == trim_end_char(chars@.take(j as int), c),
            chars@ == s@,
        decreases j,
    {
        assert(chars@.take(j as int).drop_last() =~= chars@.take(j - 1));
        j -= 1;
    }
    string_of(&chars[0..j])
}

/// `a` followed by `b`.
pub fn concat(a: &str, b: &str) -> (r: String)
    ensures
        r@ == a@ + b@,
{
    let mut r = String::new();
    let first = chars_of(a);
    let second = chars_of(b);
    let mut i: usize = 0;
    while i < first.len()
        invariant
            i <= first.len(),
            r@ == first@.take(i as int),
        decreases first.len() - i,
    {
        push_char(&mut r, first[i]);
        i += 1;
        assert(r@ =~= first@.take(i as int));
    }
    assert(first@.take(i as int) =~= a@);
    let mut j: usize = 0;
    while j < second.len()
        invariant
            j <= second.len(),
            r@ == a@ + second@.take(j as int),
        decreases second.len() - j,
    {
        push_char(&mut r, second[j]);
        j += 1;
        assert(r@ =~= a@ + second@.take(j as int));
    }
    assert(second@.take(j as int) =~= b@);
    r
}

/// Whether `a` and `b` hold the same characters.
pub fn same_text(a: &str, b: &str) -> (r: bool)
    ensures
        r == (a@ == b@),
{
    let x = chars_of(a);
    let y = chars_of(b);
    if x.len() != y.len() {
        return false;
    }
    let mut k: usize = 0;
    while k < x.len()
        invariant
            x.len() == y.len(),
            x@ == a@,
            y@ == b@,
            k <= x.len(),
            forall|m: int| 0 <= m < k ==> x@[m] == y@[m],
        decreases x.len() - k,
    {
        if x[k] != y[k] {
            return false;
        }
        k += 1;
    }
    assert(x@ =~= y@);
    true
}

/// Whether `s` is the word `w`, character for character.
pub fn is_word(s: &str, w: &[char]) -> (r: bool)
    ensures
        r == (s@ == w@),
{
    let x = chars_of(s);
    if x.len() != w.len() {
        return false;
    }
    let mut k: usize = 0;
    while k < x.len()
        invariant
            x.len() == w.len(),
            x@ == s@,
            k <= x.len(),
            forall|m: int| 0 <= m < k ==> x@[m] == w@[m],
        decreases x.len() - k,
    {
        if x[k] != w[k] {
            return false;
        }
        k += 1;
    }
    assert(x@ =~= w@);
    true
}

/// The decimal digit for `d`, which is less than ten.
pub open spec fn digit_char(d: nat) -> char {
    ((d + 48) as u8) as char
}

/// `n` written in decimal.
pub open spec fn decimal(n: nat) -> Seq<char>
    decreases n,
{
    if n < 10 {
        seq![digit_char(n)]
    } else {
        decimal(n / 10).push(digit_char(n % 10))
    }
}

/// Writes `n` in decimal at the end of `out`.
pub fn push_decimal(out: &mut String, n: u64)
    ensures
        final(out)@ == old(out)@ + decimal(n as nat),
    decreases n,
{
    if n >= 10 {
        push_decimal(out, n / 10);
    }
    let d = (n % 10) as u8;
    push_char(out, (d + 48) as char);
    assert(out@ =~= old(out)@ + decimal(n as nat)) by {
        if n < 10 {
            assert(old(out)@ + decimal(n as nat) =~= old(out)@.push(digit_char(n as nat)));
        }
    }
}


/// What `str::to_lowercase` makes of a string: each character replaced by its lower-case
/// mapping under the Unicode tables the standard library carries.
pub uninterp spec fn lowercased(s: Seq<char>) -> Seq<char>;

/// `s` in lower case (`str::to_lowercase`).
#[verifier::external_body]
pub(crate) fn to_lowercase(s: &str) -> (r: String)
    ensures
        r@ == lowercased(s@),
{
    s.to_lowercase()
}

/// Where `a` and `b` first part, looking from `i` on: the first place at or after `i` where
/// one of them has ended or the two hold different characters.
pub open spec fn first_difference(a: Seq<char>, b: Seq<char>, i: int) -> int
    decreases a.len() - i,
{
    if 0 <= i < a.len() && i < b.len() && a[i] == b[i] {
        first_difference(a, b, i + 1)
    } else {
        i
    }
}

/// Whether `a` comes before `b` in the order of their characters' code points, a prefix first:
/// the order `String`s compare in, since UTF-8 keeps the order of the code points it encodes.
pub open spec fn precedes(a: Seq<char>, b: Seq<char>) -> bool {
    let d = first_difference(a, b, 0);
    d < b.len() && (d == a.len() || a[d] < b[d])
}

/// Where two texts first part, described: everything before it is shared, and there one of them
/// has ended or the two differ.
pub proof fn lemma_first_difference(a: Seq<char>, b: Seq<char>, i: int)
    requires
        0 <= i <= a.len(),
        i <= b.len(),
    ensures
        i <= first_difference(a, b, i) <= a.len(),
        first_difference(a, b, i) <= b.len(),
        forall|j: int| i <= j < first_difference(a, b, i) ==> a[j] == b[j],
        first_difference(a, b, i) < a.len() && first_difference(a, b, i) < b.len() ==> a[first_difference(a, b, i)]
            != b[first_difference(a, b, i)],
    decreases a.len() - i,
{
    if i < a.len() && i < b.len() && a[i] == b[i] {
        lemma_first_difference(a, b, i + 1);
    }
}

/// The place two texts first part is the one place with that description.
pub proof fn lemma_first_difference_is(a: Seq<char>, b: Seq<char>, d: int)
    requires
        0 <= d <= a.len(),
        d <= b.len(),
        forall|j: int| 0 <= j < d ==> a[j] == b[j],
        d == a.len() || d == b.len() || a[d] != b[d],
    ensures
        first_difference(a, b, 0) == d,
{
    lemma_first_difference(a, b, 0);
    let f = first_difference(a, b, 0);
    if f < d {
        assert(a[f] == b[f]);
    } else if f > d {
        assert(a[d] == b[d]);
    }
}

/// Nothing comes before itself.
pub proof fn lemma_precedes_irreflexive(a: Seq<char>)
    ensures
        !precedes(a, a),
{
    lemma_first_difference_is(a, a, a.len() as int);
}

/// Of two texts, one comes before the other or they are the same.
pub proof fn lemma_precedes_total(a: Seq<char>, b: Seq<char>)
    ensures
        precedes(a, b) || precedes(b, a) || a == b,
{
    lemma_first_difference(a, b, 0);
    let d = first_difference(a, b, 0);
    assert(forall|j: int| 0 <= j < d ==> b[j] == a[j]);
    lemma_first_difference_is(b, a, d);
    if d == a.len() && d == b.len() {
        assert(a =~= b);
    } else if d < a.len() && d < b.len() {
        assert(a[d] != b[d]);
    }
}

/// Coming before is transitive.
pub proof fn lemma_precedes_transitive(a: Seq<char>, b: Seq<char>, c: Seq<char>)
    requires
        precedes(a, b),
        precedes(b, c),
    ensures
        precedes(a, c),
{
    lemma_first_difference(a, b, 0);
    lemma_first_difference(b, c, 0);
    let d1 = first_difference(a, b, 0);
    let d2 = first_difference(b, c, 0);
    if d1 < d2 {
        assert(forall|j: int| 0 <= j < d1 ==> a[j] == c[j]);
        if d1 < a.len() {
            assert(b[d1] == c[d1]);
            assert(a[d1] < c[d1]);
        }
        lemma_first_difference_is(a, c, d1);
    } else if d1 > d2 {
        assert(forall|j: int| 0 <= j < d2 ==> a[j] == c[j]);
        assert(a[d2] == b[d2]);
        lemma_first_difference_is(a, c, d2);
    } else {
        assert(forall|j: int| 0 <= j < d1 ==> a[j] == c[j]);
        if d1 < a.len() {
            assert(a[d1] < c[d1]);
        }
        lemma_first_difference_is(a, c, d1);
    }
}

/// Whether `a` comes before `b` (see [`precedes`]).
pub fn comes_before(a: &[char], b: &[char]) -> (r: bool)
    ensures
        r == precedes(a@, b@),
{
    let mut i: usize = 0;
    while i < a.len() && i < b.len() && a[i] == b[i]
        invariant
            i <= a.len(),
            i <= b.len(),
            first_difference(a@, b@, 0) == first_difference(a@, b@, i as int),
        decreases a.len() - i,
    {
        i += 1;
    }
    i < b.len() && (i == a.len() || a[i] < b[i])
}

} // verus!

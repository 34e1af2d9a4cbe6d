//! Finding a mark by typing at it.
//!
//! The matching itself is `fuzzy_matcher`'s: skim's matcher, which reports *where* a pattern
//! matched as well as how well, and the window both picks those characters out of the row and
//! orders the list by that score. This module is the thin adapter between that matcher and what
//! the rest of the window wants to know, so that filtering, ordering and highlighting cannot
//! disagree about why a row is in the list.
use fuzzy_matcher::FuzzyMatcher;
use fuzzy_matcher::skim::SkimMatcherV2;
use vstd::prelude::*;
use crate::text;

verus! {

broadcast use vstd::utf8::char_is_scalar;

/// What the matcher found, and how good it was.
pub struct Found {
    /// How well the query matched, higher being better.
    ///
    /// Only comparable with other scores for the same query, which is all it is used for: it is
    /// what puts the row that answers the query best at the top of the list.
    pub score: i64,
    /// The characters the query matched, as byte offsets into the text they were found in: one
    /// for each character of the query, in order with nothing repeated.
    pub indices: Vec<usize>,
}

/// Whether `pattern` can be found in `text` a character at a time, in order, with ASCII case set
/// aside: what skim's matcher asks of a text before it scores it.
pub open spec fn is_ci_subsequence(pattern: Seq<char>, text: Seq<char>) -> bool
    decreases text.len(),
{
    if pattern.len() == 0 {
        true
    } else if text.len() == 0 {
        false
    } else if text::ci_eq(text[0], pattern[0]) {
        is_ci_subsequence(pattern.drop_first(), text.drop_first())
    } else {
        is_ci_subsequence(pattern, text.drop_first())
    }
}

/// The score and the matched character positions that skim's matcher, with case ignored, gives
/// `pattern` in `text`.
pub uninterp spec fn skim_match(text: Seq<char>, pattern: Seq<char>) -> Option<(i64, Seq<usize>)>;

/// Runs skim's matcher (`SkimMatcherV2::fuzzy_indices`, case ignored) on `text`.
///
/// Trusted to answer what `skim_match` names, and what its source shows plainly: a pattern with
/// nothing in it matches everything, with a score of zero and no positions, and any other pattern
/// matches exactly when its characters occur in `text` in order, ASCII case aside.
///
/// Nothing is said of the score, nor of the positions. The matcher scores in `i32` from a floor of
/// `i16::MIN` that stands for "no alignment", and across a long enough gap between two matched
/// characters a real alignment's score falls under that floor; the positions it then traces back
/// need not be characters that match, nor one for each pattern character. `find` checks them.
#[verifier::external_body]
fn skim_indices(text: &str, pattern: &str) -> (r: Option<(i64, Vec<usize>)>)
    ensures
        r matches Some((score, hits)) ==> skim_match(text@, pattern@) == Some((score, hits@)),
        r is None ==> skim_match(text@, pattern@) is None,
        r is Some <==> is_ci_subsequence(pattern@, text@),
        r matches Some((score, hits)) ==> (pattern@.len() == 0 ==> score == 0 && hits@.len() == 0),
{
    SkimMatcherV2::default().ignore_case().fuzzy_indices(text, pattern)
}

/// Whether `hits` are positions that a match of `pattern` in `text` can stand on: one for each
/// character of the pattern, rising, each a character equal to its pattern character, ASCII case
/// aside.
pub open spec fn fits(text: Seq<char>, pattern: Seq<char>, hits: Seq<usize>) -> bool {
    &&& hits.len() == pattern.len()
    &&& rising_within(hits, text.len() as int)
    &&& forall|k: int|
        0 <= k < hits.len() ==> text::ci_eq(text[#[trigger] hits[k] as int], pattern[k])
}

/// The positions where `pattern` first turns up among the first `n` characters of `text`, a
/// character at a time: each pattern character at the first character after the last one taken
/// that equals it, ASCII case aside.
pub open spec fn first_matches(text: Seq<char>, pattern: Seq<char>, n: int) -> Seq<usize>
    decreases n,
{
    if n <= 0 {
        seq![]
    } else {
        let before = first_matches(text, pattern, n - 1);
        if before.len() < pattern.len() && text::ci_eq(text[n - 1], pattern[before.len() as int]) {
            before.push((n - 1) as usize)
        } else {
            before
        }
    }
}

/// The positions a match is shown at: the matcher's, where they fit the pattern, and where they
/// do not, the first place the pattern turns up.
pub open spec fn positions_of(text: Seq<char>, pattern: Seq<char>, hits: Seq<usize>) -> Seq<usize> {
    if fits(text, pattern, hits) {
        hits
    } else {
        first_matches(text, pattern, text.len() as int)
    }
}

/// Whether `hits` rises from first to last, each one the position of a character in a text of
/// `len` characters.
pub open spec fn rising_within(hits: Seq<usize>, len: int) -> bool {
    &&& forall|k: int, l: int| 0 <= k < l < hits.len() ==> #[trigger] hits[k] < #[trigger] hits[l]
    &&& forall|k: int| 0 <= k < hits.len() ==> #[trigger] hits[k] < len
}

/// Whether `offset` is where a character of `text` starts that is `c`, ASCII case aside.
pub open spec fn starts_character_like(text: Seq<char>, c: char, offset: usize) -> bool {
    exists|j: int|
        0 <= j < text.len() && offset == byte_offset(text, j) && #[trigger] text::ci_eq(text[j], c)
}

/// A query as it is searched for: its whitespace dropped. A space is how a query is broken into
/// the words someone remembers, not a character to find.
pub open spec fn searched_for(query: Seq<char>) -> Seq<char> {
    query.filter(|c: char| !text::is_ws(c))
}

/// The byte at which the character at `i` of `text` starts: the length of the UTF-8 encoding of
/// everything before it.
pub open spec fn byte_offset(text: Seq<char>, i: int) -> int {
    vstd::utf8::encode_utf8(text.take(i)).len() as int
}

/// The byte offsets of the characters of `text` whose positions are among `hits`, first to last.
pub open spec fn offsets_of(text: Seq<char>, hits: Seq<usize>, n: int) -> Seq<usize>
    decreases n,
{
    if n <= 0 {
        seq![]
    } else {
        let before = offsets_of(text, hits, n - 1);
        if hits.contains((n - 1) as usize) {
            before.push(byte_offset(text, n - 1) as usize)
        } else {
            before
        }
    }
}

/// What `find` answers for `query` in `text`.
pub open spec fn found_in(text: Seq<char>, query: Seq<char>) -> Option<(i64, Seq<usize>)> {
    match skim_match(text, searched_for(query)) {
        Some((score, hits)) => Some(
            (
                score,
                offsets_of(
                    text,
                    positions_of(text, searched_for(query), hits),
                    text.len() as int,
                ),
            ),
        ),
        None => None,
    }
}

/// The characters a match is shown on are the ones the matcher aligned, whenever those are
/// characters of the query in order: the offsets found are exactly the byte offsets of the
/// matcher's positions, under the matcher's score.
pub proof fn lemma_matcher_positions_are_shown(text: Seq<char>, query: Seq<char>)
    requires
        skim_match(text, searched_for(query)) matches Some((_, hits)) && fits(
            text,
            searched_for(query),
            hits,
        ),
    ensures
        match skim_match(text, searched_for(query)) {
            Some((score, hits)) => found_in(text, query) == Some(
                (score, offsets_of(text, hits, text.len() as int)),
            ),
            None => false,
        },
{
}

/// A character starts after every character before it.
pub proof fn lemma_byte_offset_increases(text: Seq<char>, i: int, j: int)
    requires
        0 <= i < j <= text.len(),
    ensures
        byte_offset(text, i) < byte_offset(text, j),
    decreases j - i,
{
    lemma_byte_offset_step(text, j - 1);
    if i < j - 1 {
        lemma_byte_offset_increases(text, i, j - 1);
    }
}

/// Whether `offset` is where one of the first `n` characters of `text` starts, one whose position
/// is among `hits`.
pub open spec fn picked_start(text: Seq<char>, hits: Seq<usize>, n: int, offset: usize) -> bool {
    exists|j: int| 0 <= j < n && hits.contains(j as usize) && offset == byte_offset(text, j) as usize
}

/// The offsets a match reports are where characters start, one for each character picked out,
/// first to last: each is the start of a character whose position the matcher picked, and each
/// comes after the one before it.
pub proof fn lemma_offsets_are_character_starts(text: Seq<char>, hits: Seq<usize>, n: int)
    requires
        0 <= n <= text.len(),
        vstd::utf8::encode_utf8(text).len() <= usize::MAX,
    ensures
        forall|k: int|
            0 <= k < offsets_of(text, hits, n).len() ==> picked_start(
                text,
                hits,
                n,
                #[trigger] offsets_of(text, hits, n)[k],
            ),
        forall|k: int, l: int|
            0 <= k < l < offsets_of(text, hits, n).len() ==> #[trigger] offsets_of(text, hits, n)[k]
                < #[trigger] offsets_of(text, hits, n)[l],
    decreases n,
{
    if n > 0 {
        lemma_offsets_are_character_starts(text, hits, n - 1);
        let before = offsets_of(text, hits, n - 1);
        assert forall|k: int| 0 <= k < before.len() implies picked_start(text, hits, n, before[k]) by {
            assert(picked_start(text, hits, n - 1, before[k]));
            let j = choose|j: int|
                0 <= j < n - 1 && hits.contains(j as usize) && before[k] == byte_offset(text, j) as usize;
            assert(0 <= j < n && hits.contains(j as usize) && before[k] == byte_offset(text, j) as usize);
        }
        if hits.contains((n - 1) as usize) {
            let now = before.push(byte_offset(text, n - 1) as usize);
            assert(offsets_of(text, hits, n) == now);
            lemma_byte_offset_bound(text, n - 1);
            assert forall|k: int| 0 <= k < now.len() implies picked_start(text, hits, n, #[trigger] now[k]) by {
                if k < before.len() {
                    assert(now[k] == before[k]);
                } else {
                    assert(now[k] == byte_offset(text, n - 1) as usize);
                    assert(hits.contains((n - 1) as usize));
                }
            }
            assert forall|k: int, l: int| 0 <= k < l < now.len() implies #[trigger] now[k]
                < #[trigger] now[l] by {
                if l < before.len() {
                    assert(now[k] == before[k] && now[l] == before[l]);
                } else {
                    assert(now[k] == before[k]);
                    assert(picked_start(text, hits, n - 1, before[k]));
                    let j = choose|j: int|
                        0 <= j < n - 1 && hits.contains(j as usize) && before[k] == byte_offset(text, j) as usize;
                    lemma_byte_offset_increases(text, j, n - 1);
                    lemma_byte_offset_bound(text, j);
                    assert(now[l] == byte_offset(text, n - 1) as usize);
                }
            }
        } else {
            assert(offsets_of(text, hits, n) == before);
        }
    }
}

/// Where the positions rise, the offsets picked out of the first `n` characters are the starts of
/// the positions below `n`, in the same order: the first `c` of them, and no others.
proof fn lemma_offsets_follow_hits(text: Seq<char>, hits: Seq<usize>, n: int) -> (c: int)
    requires
        0 <= n <= text.len() <= usize::MAX,
        forall|k: int, l: int| 0 <= k < l < hits.len() ==> #[trigger] hits[k] < #[trigger] hits[l],
    ensures
        0 <= c <= hits.len(),
        forall|k: int| 0 <= k < c ==> #[trigger] hits[k] < n,
        forall|k: int| c <= k < hits.len() ==> #[trigger] hits[k] >= n,
        offsets_of(text, hits, n).len() == c,
        forall|k: int|
            0 <= k < c ==> #[trigger] offsets_of(text, hits, n)[k] == byte_offset(
                text,
                hits[k] as int,
            ) as usize,
    decreases n,
{
    if n == 0 {
        0
    } else {
        let c0 = lemma_offsets_follow_hits(text, hits, n - 1);
        let before = offsets_of(text, hits, n - 1);
        if hits.contains((n - 1) as usize) {
            let i = choose|i: int| 0 <= i < hits.len() && hits[i] == (n - 1) as usize;
            assert(i >= c0) by {
                if i < c0 {
                    assert(hits[i] < n - 1);
                }
            }
            assert(i == c0) by {
                if i > c0 {
                    assert(hits[c0] < hits[i]);
                }
            }
            let now = before.push(byte_offset(text, n - 1) as usize);
            assert(offsets_of(text, hits, n) == now);
            assert forall|k: int| c0 + 1 <= k < hits.len() implies #[trigger] hits[k] >= n by {
                assert(hits[c0] < hits[k]);
            }
            assert forall|k: int| 0 <= k < c0 + 1 implies #[trigger] now[k] == byte_offset(
                text,
                hits[k] as int,
            ) as usize by {
                if k < c0 {
                    assert(now[k] == before[k]);
                }
            }
            c0 + 1
        } else {
            assert(offsets_of(text, hits, n) == before);
            assert forall|k: int| c0 <= k < hits.len() implies #[trigger] hits[k] >= n by {
                if hits[k] == (n - 1) as usize {
                    assert(hits.contains((n - 1) as usize));
                }
            }
            c0
        }
    }
}

/// The first places a pattern turns up are positions of characters that match it, rising, no
/// more of them than the pattern has characters.
proof fn lemma_first_matches_line_up(text: Seq<char>, pattern: Seq<char>, n: int)
    requires
        0 <= n <= text.len() <= usize::MAX,
    ensures
        first_matches(text, pattern, n).len() <= pattern.len(),
        forall|k: int, l: int|
            0 <= k < l < first_matches(text, pattern, n).len() ==> #[trigger] first_matches(
                text,
                pattern,
                n,
            )[k] < #[trigger] first_matches(text, pattern, n)[l],
        forall|k: int|
            0 <= k < first_matches(text, pattern, n).len() ==> #[trigger] first_matches(
                text,
                pattern,
                n,
            )[k] < n,
        forall|k: int|
            0 <= k < first_matches(text, pattern, n).len() ==> text::ci_eq(
                text[#[trigger] first_matches(text, pattern, n)[k] as int],
                pattern[k],
            ),
    decreases n,
{
    if n > 0 {
        lemma_first_matches_line_up(text, pattern, n - 1);
        let before = first_matches(text, pattern, n - 1);
        if before.len() < pattern.len() && text::ci_eq(text[n - 1], pattern[before.len() as int]) {
            let now = before.push((n - 1) as usize);
            assert(first_matches(text, pattern, n) == now);
            assert forall|k: int, l: int| 0 <= k < l < now.len() implies #[trigger] now[k]
                < #[trigger] now[l] by {
                assert(now[k] == before[k]);
                if l < before.len() {
                    assert(now[l] == before[l]);
                }
            }
            assert forall|k: int| 0 <= k < now.len() implies text::ci_eq(
                text[#[trigger] now[k] as int],
                pattern[k],
            ) && now[k] < n by {
                if k < before.len() {
                    assert(now[k] == before[k]);
                }
            }
        } else {
            assert(first_matches(text, pattern, n) == before);
        }
    }
}

/// Where a pattern is a subsequence of what is left of the text, the first places it turns up
/// take in all of it.
proof fn lemma_first_matches_complete(text: Seq<char>, pattern: Seq<char>, n: int)
    requires
        0 <= n <= text.len() <= usize::MAX,
        first_matches(text, pattern, n).len() == pattern.len() || is_ci_subsequence(
            pattern.skip(first_matches(text, pattern, n).len() as int),
            text.skip(n),
        ),
    ensures
        first_matches(text, pattern, text.len() as int).len() == pattern.len(),
    decreases text.len() - n,
{
    let c = first_matches(text, pattern, n).len() as int;
    lemma_first_matches_line_up(text, pattern, n);
    if n == text.len() {
        if c < pattern.len() {
            assert(text.skip(n).len() == 0);
            assert(pattern.skip(c).len() > 0);
        }
    } else {
        if c < pattern.len() {
            let ps = pattern.skip(c);
            let ts = text.skip(n);
            assert(ts[0] == text[n]);
            assert(ps[0] == pattern[c]);
            assert(ts.drop_first() =~= text.skip(n + 1));
            assert(ps.drop_first() =~= pattern.skip(c + 1));
        }
        lemma_first_matches_complete(text, pattern, n + 1);
    }
}

/// Whether `hits` fit `pattern` in `text`.
fn positions_fit(text: &[char], pattern: &[char], hits: &[usize]) -> (r: bool)
    ensures
        r == fits(text@, pattern@, hits@),
{
    if hits.len() != pattern.len() {
        return false;
    }
    let mut k: usize = 0;
    while k < hits.len()
        invariant
            k <= hits.len(),
            hits.len() == pattern.len(),
            forall|a: int, b: int| 0 <= a < b < k ==> #[trigger] hits@[a] < #[trigger] hits@[b],
            forall|a: int| 0 <= a < k ==> #[trigger] hits@[a] < text@.len(),
            forall|a: int|
                0 <= a < k ==> text::ci_eq(text@[#[trigger] hits@[a] as int], pattern@[a]),
        decreases hits.len() - k,
    {
        let h = hits[k];
        if h >= text.len() {
            return false;
        }
        if k > 0 && hits[k - 1] >= h {
            return false;
        }
        if !text::eq_ignore_ascii_case(text[h], pattern[k]) {
            return false;
        }
        assert forall|a: int, b: int| 0 <= a < b < k + 1 implies #[trigger] hits@[a]
            < #[trigger] hits@[b] by {
            if b == k && a < k - 1 {
                assert(hits@[a] < hits@[k - 1]);
            }
        }
        k += 1;
    }
    true
}

/// The first places `pattern` turns up in `text`.
fn first_match_positions(text: &[char], pattern: &[char]) -> (r: Vec<usize>)
    ensures
        r@ == first_matches(text@, pattern@, text@.len() as int),
{
    let mut out: Vec<usize> = Vec::new();
    let mut i: usize = 0;
    while i < text.len()
        invariant
            i <= text.len(),
            out@ == first_matches(text@, pattern@, i as int),
        decreases text.len() - i,
    {
        if out.len() < pattern.len() && text::eq_ignore_ascii_case(text[i], pattern[out.len()]) {
            out.push(i);
        }
        i += 1;
    }
    out
}

/// The UTF-8 encoding of two texts one after the other is the two encodings one after the other.
pub proof fn lemma_encode_concat(a: Seq<char>, b: Seq<char>)
    ensures
        vstd::utf8::encode_utf8(a + b) == vstd::utf8::encode_utf8(a) + vstd::utf8::encode_utf8(b),
    decreases a.len(),
{
    if a.len() == 0 {
        assert(a + b =~= b);
        assert(vstd::utf8::encode_utf8(a) =~= seq![]);
        assert(seq![] + vstd::utf8::encode_utf8(b) =~= vstd::utf8::encode_utf8(b));
    } else {
        assert((a + b).drop_first() =~= a.drop_first() + b);
        assert((a + b)[0] == a[0]);
        lemma_encode_concat(a.drop_first(), b);
        assert(vstd::utf8::encode_scalar(a[0] as u32) + (vstd::utf8::encode_utf8(a.drop_first())
            + vstd::utf8::encode_utf8(b)) =~= (vstd::utf8::encode_scalar(a[0] as u32)
            + vstd::utf8::encode_utf8(a.drop_first())) + vstd::utf8::encode_utf8(b));
    }
}

/// How many bytes `c` takes in UTF-8.
pub open spec fn utf8_width(c: char) -> int {
    vstd::utf8::encode_scalar(c as u32).len() as int
}

/// Each character starts where the one before it ends.
pub proof fn lemma_byte_offset_step(text: Seq<char>, i: int)
    requires
        0 <= i < text.len(),
    ensures
        byte_offset(text, i + 1) == byte_offset(text, i) + utf8_width(text[i]),
        utf8_width(text[i]) >= 1,
{
    assert(text.take(i + 1) =~= text.take(i) + seq![text[i]]);
    lemma_encode_concat(text.take(i), seq![text[i]]);
    let one = seq![text[i]];
    assert(one.drop_first() =~= Seq::<char>::empty());
    assert(vstd::utf8::encode_utf8(Seq::<char>::empty()) =~= Seq::<u8>::empty());
    assert(vstd::utf8::encode_utf8(one) =~= vstd::utf8::encode_scalar(one[0] as u32)
        + vstd::utf8::encode_utf8(one.drop_first()));
}

/// No character starts past the end of the text.
pub proof fn lemma_byte_offset_bound(text: Seq<char>, i: int)
    requires
        0 <= i <= text.len(),
    ensures
        byte_offset(text, i) <= vstd::utf8::encode_utf8(text).len(),
{
    assert(text =~= text.take(i) + text.skip(i));
    lemma_encode_concat(text.take(i), text.skip(i));
}

/// How many bytes `c` takes in UTF-8 (`char::len_utf8`).
pub(crate) fn width(c: char) -> (r: usize)
    ensures
        r == utf8_width(c),
{
    let u = c as u32;
    if u <= 0x7f {
        1
    } else if u <= 0x7ff {
        2
    } else if u <= 0xffff {
        3
    } else {
        4
    }
}

/// Where the characters the matcher picked out are, in bytes.
///
/// The matcher counts characters, and a string is indexed by bytes: the two part company at the
/// first character that is not one byte long, which a page's title is quite likely to have.
fn character_offsets(text: &str, hits: &[usize]) -> (r: Vec<usize>)
    ensures
        r@ == offsets_of(text@, hits@, text@.len() as int),
        forall|k: int, l: int| 0 <= k < l < r@.len() ==> #[trigger] r@[k] < #[trigger] r@[l],
        rising_within(hits@, text@.len() as int) ==> r@.len() == hits@.len(),
        rising_within(hits@, text@.len() as int) ==> forall|k: int|
            0 <= k < r@.len() ==> #[trigger] r@[k] == byte_offset(text@, hits@[k] as int),
{
    let chars = text::chars_of(text);
    let total = text.as_bytes().len();
    let mut picked: Vec<bool> = Vec::new();
    let mut i: usize = 0;
    while i < chars.len()
        invariant
            i <= chars.len(),
            picked@.len() == i,
            forall|k: int| 0 <= k < i ==> !#[trigger] picked@[k],
        decreases chars.len() - i,
    {
        picked.push(false);
        i += 1;
    }
    let mut h: usize = 0;
    while h < hits.len()
        invariant
            h <= hits.len(),
            picked@.len() == chars@.len(),
            forall|k: int|
                0 <= k < chars@.len() ==> (#[trigger] picked@[k] <==> hits@.take(h as int).contains(
                    k as usize,
                )),
        decreases hits.len() - h,
    {
        let hit = hits[h];
        if hit < picked.len() {
            picked.set(hit, true);
        }
        h += 1;
        assert forall|k: int| 0 <= k < chars@.len() implies (#[trigger] picked@[k]
            <==> hits@.take(h as int).contains(k as usize)) by {
            let taken = hits@.take(h as int);
            assert(taken =~= hits@.take(h - 1).push(hit));
            if picked@[k] && !hits@.take(h - 1).contains(k as usize) {
                assert(taken[h - 1] == k as usize);
            }
            if taken.contains(k as usize) && !hits@.take(h - 1).contains(k as usize) {
                let j = choose|j: int| 0 <= j < taken.len() && taken[j] == k as usize;
                assert(j == h - 1);
            }
        }
    }
    assert(hits@.take(h as int) =~= hits@);
    let mut out: Vec<usize> = Vec::new();
    let mut offset: usize = 0;
    let mut i: usize = 0;
    while i < chars.len()
        invariant
            chars@ == text@,
            i <= chars.len(),
            picked@.len() == chars@.len(),
            forall|k: int| 0 <= k < chars@.len() ==> (#[trigger] picked@[k] <==> hits@.contains(k as usize)),
            offset == byte_offset(text@, i as int),
            total == vstd::utf8::encode_utf8(text@).len(),
            out@ == offsets_of(text@, hits@, i as int),
        decreases chars.len() - i,
    {
        proof {
            lemma_byte_offset_step(text@, i as int);
            lemma_byte_offset_bound(text@, i + 1);
        }
        if picked[i] {
            out.push(offset);
        }
        offset = offset + width(chars[i]);
        i += 1;
    }
    proof {
        let n = text@.len() as int;
        lemma_offsets_are_character_starts(text@, hits@, n);
        if rising_within(hits@, n) {
            let c = lemma_offsets_follow_hits(text@, hits@, n);
            if c < hits@.len() {
                assert(hits@[c] < n);
            }
            assert forall|k: int| 0 <= k < out@.len() implies #[trigger] out@[k] == byte_offset(
                text@,
                hits@[k] as int,
            ) by {
                assert(hits@[k] < n);
                lemma_byte_offset_bound(text@, hits@[k] as int);
            }
        }
    }
    out
}

/// The best match `query` finds in `text`, or `None` when it finds none.
///
/// `Some` with no offsets for a query with nothing in it, which matches everything and picks
/// nothing out.
pub fn find(text: &str, query: &str) -> (r: Option<Found>)
    ensures
        match r {
            Some(f) => found_in(text@, query@) == Some((f.score, f.indices@)),
            None => found_in(text@, query@) is None,
        },
        r is Some <==> is_ci_subsequence(searched_for(query@), text@),
        searched_for(query@).len() == 0 ==> (r matches Some(f) && f.score == 0
            && f.indices@.len() == 0),
        r matches Some(f) ==> f.indices@.len() == searched_for(query@).len(),
        r matches Some(f) ==> forall|k: int, l: int|
            0 <= k < l < f.indices@.len() ==> #[trigger] f.indices@[k] < #[trigger] f.indices@[l],
        r matches Some(f) ==> forall|k: int|
            0 <= k < f.indices@.len() ==> starts_character_like(
                text@,
                searched_for(query@)[k],
                #[trigger] f.indices@[k],
            ),
        match (r, skim_match(text@, searched_for(query@))) {
            (Some(f), Some((_, hits))) => fits(text@, searched_for(query@), hits) ==> f.indices@
                == offsets_of(text@, hits, text@.len() as int),
            _ => true,
        },
{
    let asked = text::chars_of(query);
    let mut kept = String::new();
    let mut i: usize = 0;
    while i < asked.len()
        invariant
            i <= asked.len(),
            asked@ == query@,
            kept@ == searched_for(asked@.take(i as int)),
        decreases asked.len() - i,
    {
        let c = asked[i];
        proof {
            let before = asked@.take(i as int);
            assert(asked@.take(i + 1) =~= before.push(c));
            Seq::<char>::filter_distributes_over_add(before, seq![c], |c: char| !text::is_ws(c));
            reveal_with_fuel(Seq::filter, 2);
            assert(before + seq![c] =~= before.push(c));
        }
        if !text::is_whitespace(c) {
            text::push_char(&mut kept, c);
        }
        i += 1;
        proof {
            assert(kept@ =~= searched_for(asked@.take(i as int)));
        }
    }
    assert(asked@.take(i as int) =~= query@);
    match skim_indices(text, kept.as_str()) {
        Some((score, hits)) => {
            let letters = text::chars_of(text);
            let wanted = text::chars_of(kept.as_str());
            let positions = if positions_fit(&letters, &wanted, &hits) {
                hits
            } else {
                proof {
                    let n = letters.len() as int;
                    assert(first_matches(text@, kept@, 0) =~= Seq::<usize>::empty());
                    assert(kept@.skip(0) =~= kept@);
                    assert(text@.skip(0) =~= text@);
                    lemma_first_matches_complete(text@, kept@, 0);
                    lemma_first_matches_line_up(text@, kept@, n);
                }
                first_match_positions(&letters, &wanted)
            };
            let indices = character_offsets(text, &positions);
            proof {
                assert(positions@ == positions_of(text@, kept@, hits@));
                assert(fits(text@, kept@, positions@));
                if positions@.len() == 0 {
                    lemma_empty_offsets(text@, positions@, text@.len() as int);
                }
                assert forall|k: int| 0 <= k < indices@.len() implies starts_character_like(
                    text@,
                    kept@[k],
                    #[trigger] indices@[k],
                ) by {
                    let j = positions@[k] as int;
                    assert(text::ci_eq(text@[j], kept@[k]));
                }
            }
            Some(Found { score, indices })
        },
        None => None,
    }
}

/// No positions, no offsets.
proof fn lemma_empty_offsets(text: Seq<char>, hits: Seq<usize>, n: int)
    requires
        hits.len() == 0,
    ensures
        offsets_of(text, hits, n).len() == 0,
    decreases n,
{
    if n > 0 {
        lemma_empty_offsets(text, hits, n - 1);
    }
}

/// Which characters of `text` the query picked out: the ones whose byte offsets the match found.
pub open spec fn picked_out(text: Seq<char>, query: Seq<char>) -> Seq<bool> {
    Seq::new(
        text.len(),
        |i: int|
            match found_in(text, query) {
                Some((_, offsets)) => offsets.contains(byte_offset(text, i) as usize),
                None => false,
            },
    )
}

/// The runs of `flags`: each stretch of equal flags as where it starts, where it ends and what the
/// flag is, first to last, no two neighbours alike.
pub open spec fn runs(flags: Seq<bool>) -> Seq<(int, int, bool)>
    decreases flags.len(),
{
    if flags.len() == 0 {
        seq![]
    } else {
        let before = runs(flags.drop_last());
        if before.len() > 0 && before.last().2 == flags.last() {
            before.update(before.len() - 1, (before.last().0, flags.len() as int, flags.last()))
        } else {
            before.push((flags.len() - 1, flags.len() as int, flags.last()))
        }
    }
}

/// Whether `rs` covers `flags` end to end as runs: in order, each run holding one flag, no run
/// empty and no two neighbours the same.
pub open spec fn covers(flags: Seq<bool>, rs: Seq<(int, int, bool)>) -> bool {
    &&& flags.len() == 0 ==> rs.len() == 0
    &&& flags.len() > 0 ==> rs.len() > 0 && rs[0].0 == 0 && rs.last().1 == flags.len()
    &&& forall|k: int| 0 <= k < rs.len() ==> 0 <= (#[trigger] rs[k]).0 < rs[k].1 <= flags.len()
    &&& forall|k: int|
        0 <= k < rs.len() - 1 ==> (#[trigger] rs[k]).1 == rs[k + 1].0 && rs[k].2 != rs[k + 1].2
    &&& forall|k: int, i: int|
        0 <= k < rs.len() && (#[trigger] rs[k]).0 <= i < rs[k].1 ==> #[trigger] flags[i] == rs[k].2
}

/// A flag like the last run's makes that run one longer.
proof fn lemma_run_grows(flags: Seq<bool>, before: Seq<(int, int, bool)>)
    requires
        flags.len() > 0,
        covers(flags.drop_last(), before),
        before.len() > 0,
        before.last().2 == flags.last(),
    ensures
        covers(
            flags,
            before.update(before.len() - 1, (before.last().0, flags.len() as int, flags.last())),
        ),
{
    let rest = flags.drop_last();
    let n = flags.len() as int;
    let now = before.update(before.len() - 1, (before.last().0, n, flags.last()));
    assert forall|k: int, i: int|
        0 <= k < now.len() && (#[trigger] now[k]).0 <= i < now[k].1 implies #[trigger] flags[i]
        == now[k].2 by {
        if k < now.len() - 1 {
            assert(now[k] == before[k]);
            assert(flags[i] == rest[i]);
        } else if i < n - 1 {
            assert(flags[i] == rest[i]);
            assert(before[k].0 <= i < before[k].1);
        }
    }
    assert forall|k: int| 0 <= k < now.len() - 1 implies (#[trigger] now[k]).1 == now[k + 1].0
        && now[k].2 != now[k + 1].2 by {
        assert(now[k] == before[k]);
        if k + 1 < now.len() - 1 {
            assert(now[k + 1] == before[k + 1]);
        }
    }
}

/// A flag unlike the last run's starts a run of its own.
proof fn lemma_run_starts(flags: Seq<bool>, before: Seq<(int, int, bool)>)
    requires
        flags.len() > 0,
        covers(flags.drop_last(), before),
        !(before.len() > 0 && before.last().2 == flags.last()),
    ensures
        covers(flags, before.push((flags.len() - 1, flags.len() as int, flags.last()))),
{
    let rest = flags.drop_last();
    let n = flags.len() as int;
    let now = before.push((n - 1, n, flags.last()));
    assert forall|k: int, i: int|
        0 <= k < now.len() && (#[trigger] now[k]).0 <= i < now[k].1 implies #[trigger] flags[i]
        == now[k].2 by {
        if k < now.len() - 1 {
            assert(now[k] == before[k]);
            assert(flags[i] == rest[i]);
        }
    }
    assert forall|k: int| 0 <= k < now.len() - 1 implies (#[trigger] now[k]).1 == now[k + 1].0
        && now[k].2 != now[k + 1].2 by {
        assert(now[k] == before[k]);
        if k + 1 < now.len() - 1 {
            assert(now[k + 1] == before[k + 1]);
        }
    }
}

/// The runs of a list of flags cover it end to end, in order, each run holding one flag and no
/// two neighbouring runs the same one: the stretches a line is drawn in leave nothing out,
/// overlap nowhere, and split only where the colour changes.
pub proof fn lemma_runs_cover(flags: Seq<bool>)
    ensures
        covers(flags, runs(flags)),
    decreases flags.len(),
{
    if flags.len() > 0 {
        let rest = flags.drop_last();
        lemma_runs_cover(rest);
        let before = runs(rest);
        if before.len() > 0 && before.last().2 == flags.last() {
            lemma_run_grows(flags, before);
        } else {
            lemma_run_starts(flags, before);
        }
    }
}

/// A stretch of a line drawn in one colour: the bytes it covers, and whether they are characters
/// the query picked out.
pub struct Stretch {
    pub start: usize,
    pub end: usize,
    pub lit: bool,
}

/// A line of text cut into the stretches that are drawn alike: each run of characters the query
/// picked out, and each run of the rest, in order and covering the whole line.
///
/// A line the query picked nothing out of, and every line while the search box is empty, is one
/// stretch from end to end, so a row with no query in play is drawn exactly as it always was.
pub fn stretches(text: &str, query: &str) -> (r: Vec<Stretch>)
    ensures
        r@.len() == runs(picked_out(text@, query@)).len(),
        forall|k: int|
            0 <= k < r@.len() ==> {
                let run = #[trigger] runs(picked_out(text@, query@))[k];
                &&& r@[k].start == byte_offset(text@, run.0)
                &&& r@[k].end == byte_offset(text@, run.1)
                &&& r@[k].lit == run.2
            },
{
    let chars = text::chars_of(text);
    let total = text.as_bytes().len();
    let hits: Vec<usize> = match find(text, query) {
        Some(found) => found.indices,
        None => Vec::new(),
    };
    let ghost flags = picked_out(text@, query@);
    let mut out: Vec<Stretch> = Vec::new();
    let mut offset: usize = 0;
    let mut i: usize = 0;
    while i < chars.len()
        invariant
            chars@ == text@,
            i <= chars.len(),
            flags == picked_out(text@, query@),
            forall|j: int|
                0 <= j < chars@.len() ==> #[trigger] flags[j] == hits@.contains(
                    byte_offset(text@, j) as usize,
                ),
            offset == byte_offset(text@, i as int),
            total == vstd::utf8::encode_utf8(text@).len(),
            out@.len() == runs(flags.take(i as int)).len(),
            forall|k: int|
                0 <= k < out@.len() ==> {
                    let run = #[trigger] runs(flags.take(i as int))[k];
                    &&& out@[k].start == byte_offset(text@, run.0)
                    &&& out@[k].end == byte_offset(text@, run.1)
                    &&& out@[k].lit == run.2
                },
            forall|k: int|
                0 <= k < runs(flags.take(i as int)).len() ==> 0 <= (#[trigger] runs(
                    flags.take(i as int),
                )[k]).0 < runs(flags.take(i as int))[k].1 <= i,
        decreases chars.len() - i,
    {
        proof {
            lemma_byte_offset_step(text@, i as int);
            lemma_byte_offset_bound(text@, i + 1);
        }
        let mut lit = false;
        let mut h: usize = 0;
        while h < hits.len()
            invariant
                h <= hits@.len(),
                lit == hits@.take(h as int).contains(offset),
            decreases hits.len() - h,
        {
            let ghost shorter = hits@.take(h as int);
            let ghost longer = hits@.take(h + 1);
            assert(longer =~= shorter.push(hits@[h as int]));
            if hits[h] == offset {
                lit = true;
                assert(longer[h as int] == offset);
            }
            proof {
                if shorter.contains(offset) {
                    let j = choose|j: int| 0 <= j < shorter.len() && shorter[j] == offset;
                    assert(longer[j] == offset);
                }
                if longer.contains(offset) && hits@[h as int] != offset {
                    let j = choose|j: int| 0 <= j < longer.len() && longer[j] == offset;
                    assert(shorter[j] == offset);
                }
            }
            h += 1;
        }
        assert(hits@.take(h as int) =~= hits@);
        let next = offset + width(chars[i]);
        let ghost before = runs(flags.take(i as int));
        assert(flags.take(i + 1).drop_last() =~= flags.take(i as int));
        assert(flags.take(i + 1).last() == lit);
        let extend = out.len() > 0 && out[out.len() - 1].lit == lit;
        if extend {
            let last = out.pop().unwrap();
            out.push(Stretch { start: last.start, end: next, lit });
        } else {
            out.push(Stretch { start: offset, end: next, lit });
        }
        offset = next;
        i += 1;
    }
    assert(flags.take(i as int) =~= flags);
    out
}

} // verus!

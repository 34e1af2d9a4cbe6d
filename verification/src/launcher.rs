//! What the window decides: which marks a query keeps and in what order, what a typed line is
//! saved as, and how the window's state moves from one answer of the server to the next.
//!
//! Everything here is a function of what the window holds and what has just arrived. Drawing it,
//! reading the keyboard and talking to the server are done around it, by the program.
use vstd::prelude::*;
use crate::mark;
use crate::mark::Mark;
use crate::title;
use crate::search;
use crate::text;
use crate::session_file;
use crate::session_file::Stored;

verus! {

/// The larger of two scores.
pub open spec fn max_score(a: i64, b: i64) -> i64 {
    if a >= b {
        a
    } else {
        b
    }
}

/// How well `mark` answers `query`: the better of what its name and its link score, or `None`
/// when neither of them answers it.
pub open spec fn score_of(mark: Mark, query: Seq<char>) -> Option<i64> {
    match (search::found_in(mark.name@, query), search::found_in(mark.content@, query)) {
        (Some((a, _)), Some((b, _))) => Some(max_score(a, b)),
        (Some((a, _)), None) => Some(a),
        (None, Some((b, _))) => Some(b),
        (None, None) => None,
    }
}

/// A mark answers a query as well as the better of its two lines does: it has a score exactly
/// when its name or its link matches, that score is no lower than either line's, and it is the
/// score of one of them.
pub proof fn lemma_score_is_the_better_line(mark: Mark, query: Seq<char>)
    ensures
        score_of(mark, query) is Some <==> (search::found_in(mark.name@, query) is Some
            || search::found_in(mark.content@, query) is Some),
        search::found_in(mark.name@, query) matches Some((a, _)) ==> (score_of(mark, query) matches Some(
            s,
        ) && s >= a),
        search::found_in(mark.content@, query) matches Some((b, _)) ==> (score_of(
            mark,
            query,
        ) matches Some(s) && s >= b),
        score_of(mark, query) matches Some(s) ==> ((search::found_in(mark.name@, query) matches Some(
            (a, _),
        ) && s == a) || (search::found_in(mark.content@, query) matches Some((b, _)) && s == b)),
{
}

/// Whether `t` names a scheme: holds `://` somewhere.
pub open spec fn names_scheme(t: Seq<char>) -> bool {
    exists|i: int|
        0 <= i && i + 3 <= t.len() && #[trigger] t[i] == ':' && t[i + 1] == '/' && t[i + 2] == '/'
}

/// A bare host is taken as `http://`: an address typed without `://` in it is accepted exactly
/// when the same address typed with `http://` in front of it is, and comes to the same address.
pub proof fn lemma_bare_host_is_http(typed: Seq<char>)
    requires
        text::trim_end_char(text::trim(typed), '/').len() > 0,
        !names_scheme(text::trim_end_char(text::trim(typed), '/')),
    ensures
        instance_address_of(typed) is Ok <==> instance_address_of(
            seq!['h', 't', 't', 'p', ':', '/', '/'] + text::trim(typed),
        ) is Ok,
        instance_address_of(typed) is Ok ==> instance_address_of(typed) == instance_address_of(
            seq!['h', 't', 't', 'p', ':', '/', '/'] + text::trim(typed),
        ),
{
    let scheme = seq!['h', 't', 't', 'p', ':', '/', '/'];
    let sep = seq![':', '/', '/'];
    let t0 = text::trim(typed);
    let t = text::trim_end_char(t0, '/');
    let with_http = scheme + t0;
    text::lemma_trim_end_char_prefix(t0, '/');
    text::lemma_trim_edges(typed);
    assert(t0.len() > 0);
    // `http://` followed by a trimmed address is already trimmed.
    assert(with_http[0] == 'h');
    assert(with_http.last() == t0.last());
    assert(text::trimmed_start(with_http) == 0);
    assert(with_http.skip(0) =~= with_http);
    assert(text::trimmed_end(with_http) == with_http.len());
    assert(with_http.take(with_http.len() as int) =~= with_http);
    assert(text::trim(with_http) == with_http);
    text::lemma_trim_end_char_append(scheme, t0, '/');
    assert(text::trim_end_char(text::trim(with_http), '/') == scheme + t);
    // What is typed holds no `://`, and with `http://` in front it does.
    title::lemma_first_match(t, sep, 0);
    if title::first_match(t, sep, 0) is Some {
        let i = title::first_match(t, sep, 0)->0;
        assert(title::matches_at(t, i, sep));
        assert(sep[0] == ':' && sep[1] == '/' && sep[2] == '/');
        assert(text::ci_eq(t[i], sep[0]));
        assert(text::ci_eq(t[i + 1], sep[1]));
        assert(text::ci_eq(t[i + 2], sep[2]));
        text::lemma_ci_eq_not_letter(t[i], ':');
        text::lemma_ci_eq_not_letter(t[i + 1], '/');
        text::lemma_ci_eq_not_letter(t[i + 2], '/');
        assert(t[i] == ':' && t[i + 1] == '/' && t[i + 2] == '/');
        assert(names_scheme(t));
    }
    let both = scheme + t;
    title::lemma_first_match(both, sep, 0);
    assert(title::matches_at(both, 4, sep)) by {
        assert forall|k: int| 0 <= k < sep.len() implies text::ci_eq(both[4 + k], #[trigger] sep[k]) by {
            assert(both[4 + k] == scheme[4 + k]);
        }
    }
}

/// Whether the entry at `i` goes before the one at `j`, for the scores `scores`: a better
/// score first, and the order they came in between equal ones.
pub open spec fn ranks_before(scores: Seq<Option<i64>>, i: int, j: int) -> bool {
    let a = scores[i]->0;
    let b = scores[j]->0;
    a > b || (a == b && i < j)
}

/// Whether `order` lists the entries that have a score, each once, best score first.
pub open spec fn is_ranked(scores: Seq<Option<i64>>, order: Seq<int>) -> bool {
    &&& forall|k: int| 0 <= k < order.len() ==> 0 <= #[trigger] order[k] < scores.len()
    &&& forall|k: int| 0 <= k < order.len() ==> (#[trigger] scores[order[k]]) is Some
    &&& forall|i: int| 0 <= i < scores.len() && (#[trigger] scores[i]) is Some ==> order.contains(i)
    &&& forall|k: int, l: int|
        0 <= k < l < order.len() ==> ranks_before(scores, #[trigger] order[k], #[trigger] order[l])
}

/// What each of `marks` scores against `query`.
pub open spec fn mark_scores(marks: Seq<Mark>, query: Seq<char>) -> Seq<Option<i64>> {
    marks.map_values(|m: Mark| score_of(m, query))
}

/// How many of `scores` are scores at all: the length of the list they rank.
pub open spec fn kept_count(scores: Seq<Option<i64>>) -> nat
    decreases scores.len(),
{
    if scores.len() == 0 {
        0
    } else {
        kept_count(scores.drop_last()) + if scores.last() is Some {
            1nat
        } else {
            0nat
        }
    }
}

/// How many of `marks` the query keeps: the length of the list the window draws.
pub open spec fn listed(marks: Seq<Mark>, query: Seq<char>) -> nat {
    kept_count(mark_scores(marks, query))
}

/// Whether `order` lists the marks `query` keeps, each once, best answer first: the list the
/// window draws, as positions in `marks`.
pub open spec fn is_ranking(marks: Seq<Mark>, query: Seq<char>, order: Seq<int>) -> bool {
    is_ranked(mark_scores(marks, query), order)
}

/// The list the window draws for `query`, as positions in `marks`: the one order that ranks
/// them (see [`lemma_one_ranking`]).
pub open spec fn listing(marks: Seq<Mark>, query: Seq<char>) -> Seq<int> {
    choose|order: Seq<int>| is_ranking(marks, query, order)
}

/// The mark the selection `selected` points at in the list for `query`, or nothing when the
/// list is shorter than that.
pub open spec fn selection(marks: Seq<Mark>, query: Seq<char>, selected: int) -> Option<Mark> {
    let order = listing(marks, query);
    if 0 <= selected < order.len() {
        Some(marks[order[selected]])
    } else {
        None
    }
}

/// Two orders that both rank `scores` agree on their first `k` places.
proof fn lemma_rankings_agree(scores: Seq<Option<i64>>, a: Seq<int>, b: Seq<int>, k: int)
    requires
        is_ranked(scores, a),
        is_ranked(scores, b),
        0 <= k <= a.len(),
        k <= b.len(),
    ensures
        forall|j: int| 0 <= j < k ==> a[j] == b[j],
    decreases k,
{
    if k > 0 {
        lemma_rankings_agree(scores, a, b, k - 1);
        let i = k - 1;
        let x = a[i];
        let y = b[i];
        if x != y {
            assert(scores[x] is Some);
            assert(b.contains(x));
            let j = choose|j: int| 0 <= j < b.len() && b[j] == x;
            assert(scores[y] is Some);
            assert(a.contains(y));
            let h = choose|h: int| 0 <= h < a.len() && a[h] == y;
            if j < i {
                assert(a[j] == x);
                assert(ranks_before(scores, a[j], a[i]));
            } else if h < i {
                assert(b[h] == y);
                assert(ranks_before(scores, b[h], b[i]));
            } else {
                assert(ranks_before(scores, b[i], b[j]));
                assert(ranks_before(scores, a[i], a[h]));
            }
        }
    }
}

/// Only one order ranks a list of scores: best score first, and the order the entries came in
/// between equal scores.
pub proof fn lemma_one_order(scores: Seq<Option<i64>>, a: Seq<int>, b: Seq<int>)
    requires
        is_ranked(scores, a),
        is_ranked(scores, b),
    ensures
        a == b,
{
    if a.len() <= b.len() {
        lemma_rankings_agree(scores, a, b, a.len() as int);
        if a.len() < b.len() {
            let y = b[a.len() as int];
            assert(scores[y] is Some);
            assert(a.contains(y));
            let h = choose|h: int| 0 <= h < a.len() && a[h] == y;
            assert(b[h] == y);
            assert(ranks_before(scores, b[h], b[a.len() as int]));
        }
    } else {
        lemma_rankings_agree(scores, a, b, b.len() as int);
        let x = a[b.len() as int];
        assert(scores[x] is Some);
        assert(b.contains(x));
        let j = choose|j: int| 0 <= j < b.len() && b[j] == x;
        assert(a[j] == x);
        assert(ranks_before(scores, a[j], a[b.len() as int]));
    }
    assert(a =~= b);
}

/// The order of the list is settled by the scores alone: only one order ranks the marks, best
/// answer first and the server's order between equal answers.
pub proof fn lemma_one_ranking(marks: Seq<Mark>, query: Seq<char>, a: Seq<int>, b: Seq<int>)
    requires
        is_ranking(marks, query, a),
        is_ranking(marks, query, b),
    ensures
        a == b,
{
    lemma_one_order(mark_scores(marks, query), a, b);
}

/// The one order that ranks `scores` (see [`lemma_one_order`]).
pub open spec fn ranking_of(scores: Seq<Option<i64>>) -> Seq<int> {
    choose|order: Seq<int>| is_ranked(scores, order)
}

/// How well `mark` answers `query`, or `None` when neither its name nor its link does.
///
/// The better of the two: a mark found by its name and one found by the page it points at are
/// both answers to the query, and which of them answers it better is what the matcher's score
/// says.
pub fn score(mark: &Mark, query: &str) -> (r: Option<i64>)
    ensures
        r == score_of(*mark, query@),
        search::searched_for(query@).len() == 0 ==> r == Some(0i64),
        search::found_in(mark.name@, query@) matches Some((a, _)) ==> (r matches Some(s) && s >= a),
        search::found_in(mark.content@, query@) matches Some((b, _)) ==> (r matches Some(s) && s
            >= b),
        r matches Some(s) ==> ((search::found_in(mark.name@, query@) matches Some((a, _)) && s == a)
            || (search::found_in(mark.content@, query@) matches Some((b, _)) && s == b)),
{
    proof {
        lemma_score_is_the_better_line(*mark, query@);
    }
    let name = match search::find(mark.name.as_str(), query) {
        Some(found) => Some(found.score),
        None => None,
    };
    let link = match search::find(mark.content.as_str(), query) {
        Some(found) => Some(found.score),
        None => None,
    };
    match (name, link) {
        (Some(name), Some(link)) => Some(
            if name >= link {
                name
            } else {
                link
            },
        ),
        (Some(name), None) => Some(name),
        (None, Some(link)) => Some(link),
        (None, None) => None,
    }
}

/// The marks the query keeps, the best answer to it first.
///
/// The ranking is stable: anything the matcher scored the same keeps the order it arrived in —
/// which is every mark while the search box is empty, so the list is left exactly as the server
/// sent it until there is something to rank.
pub fn filter_marks<'a>(marks: &'a [Mark], query: &str) -> (r: Vec<&'a Mark>)
    ensures
        is_ranking(marks@, query@, listing(marks@, query@)),
        r@.len() == listing(marks@, query@).len(),
        forall|k: int| 0 <= k < r@.len() ==> *r@[k] == marks@[#[trigger] listing(marks@, query@)[k]],
        r@.len() == listed(marks@, query@),
        search::searched_for(query@).len() == 0 ==> r@.len() == marks@.len() && forall|k: int|
            0 <= k < marks@.len() ==> *r@[k] == #[trigger] marks@[k],
{
    let mut scores: Vec<Option<i64>> = Vec::new();
    let mut i: usize = 0;
    while i < marks.len()
        invariant
            i <= marks.len(),
            scores@ == mark_scores(marks@, query@).take(i as int),
            search::searched_for(query@).len() == 0 ==> forall|k: int|
                0 <= k < i ==> #[trigger] scores@[k] == Some(0i64),
        decreases marks.len() - i,
    {
        scores.push(score(&marks[i], query));
        i += 1;
        assert(scores@ =~= mark_scores(marks@, query@).take(i as int));
    }
    assert(scores@ =~= mark_scores(marks@, query@));
    let order = rank_by_score(&scores);
    let mut out: Vec<&'a Mark> = Vec::new();
    let mut k: usize = 0;
    while k < order.len()
        invariant
            k <= order@.len(),
            out@.len() == k,
            forall|m: int| 0 <= m < order@.len() ==> #[trigger] order@[m] < marks.len(),
            forall|m: int| 0 <= m < k ==> *out@[m] == marks@[#[trigger] order@[m] as int],
        decreases order.len() - k,
    {
        out.push(&marks[order[k]]);
        k += 1;
    }
    proof {
        if search::searched_for(query@).len() == 0 {
            assert(forall|m: int| 0 <= m < scores@.len() ==> #[trigger] scores@[m] == Some(0i64));
            assert(order@.len() == marks@.len());
            assert forall|k: int| 0 <= k < marks@.len() implies *out@[k] == #[trigger] marks@[k] by {
                assert(order@[k] == k);
            }
        }
    }
    let ghost positions = order@.map_values(|p: usize| p as int);
    assert(is_ranking(marks@, query@, positions)) by {
        assert forall|m: int|
            0 <= m < marks@.len() && (#[trigger] mark_scores(marks@, query@)[m]) is Some implies positions.contains(m) by {
            let k = choose|k: int| 0 <= k < order@.len() && order@[k] == m;
            assert(positions[k] == m);
        }
    }
    proof {
        lemma_one_ranking(marks@, query@, positions, listing(marks@, query@));
    }
    out
}

/// The positions of the entries that have a score, best score first, and in the order they came
/// in between equal scores.
pub(crate) fn rank_by_score(scores: &[Option<i64>]) -> (order: Vec<usize>)
    ensures
        forall|k: int| 0 <= k < order@.len() ==> #[trigger] order@[k] < scores.len(),
        forall|k: int| 0 <= k < order@.len() ==> (#[trigger] scores@[order@[k] as int]) is Some,
        forall|m: int|
            0 <= m < scores@.len() && (#[trigger] scores@[m]) is Some ==> exists|k: int|
                0 <= k < order@.len() && order@[k] == m,
        forall|k: int, l: int|
            0 <= k < l < order@.len() ==> ranks_before(
                scores@,
                #[trigger] order@[k] as int,
                #[trigger] order@[l] as int,
            ),
        (forall|m: int| 0 <= m < scores@.len() ==> #[trigger] scores@[m] == Some(0i64)) ==> (
        order@.len() == scores@.len() && forall|k: int| 0 <= k < order@.len() ==> #[trigger] order@[k] == k),
        order@.len() == kept_count(scores@),
{
    let ghost all_zero = forall|m: int| 0 <= m < scores@.len() ==> #[trigger] scores@[m] == Some(0i64);
    let mut kept: Vec<i64> = Vec::new();
    let mut order: Vec<usize> = Vec::new();
    let mut i: usize = 0;
    while i < scores.len()
        invariant
            i <= scores.len(),
            all_zero == forall|m: int| 0 <= m < scores@.len() ==> #[trigger] scores@[m] == Some(0i64),
            kept@.len() == order@.len(),
            forall|k: int| 0 <= k < order@.len() ==> #[trigger] order@[k] < i,
            forall|k: int| 0 <= k < order@.len() ==> scores@[order@[k] as int] == Some(#[trigger] kept@[k]),
            forall|m: int|
                0 <= m < i && (#[trigger] scores@[m]) is Some ==> exists|k: int|
                    0 <= k < order@.len() && order@[k] == m,
            forall|k: int, l: int|
                0 <= k < l < order@.len() ==> #[trigger] kept@[k] > #[trigger] kept@[l] || (kept@[k]
                    == kept@[l] && order@[k] < order@[l]),
            all_zero ==> order@.len() == i && forall|k: int| 0 <= k < order@.len() ==> #[trigger] order@[k] == k,
            order@.len() == kept_count(scores@.take(i as int)),
        decreases scores.len() - i,
    {
        assert(scores@.take(i + 1).drop_last() =~= scores@.take(i as int));
        if let Some(s) = scores[i] {
            // Put after every entry that scored at least as well: those came first, and stay
            // ahead of it.
            let mut at = order.len();
            while at > 0 && kept[at - 1] < s
                invariant
                    at <= order@.len(),
                    kept@.len() == order@.len(),
                    forall|k: int| at <= k < order@.len() ==> #[trigger] kept@[k] < s,
                decreases at,
            {
                at -= 1;
            }
            let ghost old_order = order@;
            let ghost old_kept = kept@;
            proof {
                if all_zero {
                    assert(scores@[i as int] == Some(0i64));
                    if at < old_order.len() {
                        assert(scores@[old_order[at as int] as int] == Some(old_kept[at as int]));
                    }
                }
            }
            order.insert(at, i);
            kept.insert(at, s);
            assert forall|k: int, l: int| 0 <= k < l < order@.len() implies #[trigger] kept@[k]
                > #[trigger] kept@[l] || (kept@[k] == kept@[l] && order@[k] < order@[l]) by {
                if l < at {
                } else if l == at {
                    if k < at - 1 {
                        assert(old_kept[k] > old_kept[at - 1] || (old_kept[k] == old_kept[at - 1]
                            && old_order[k] < old_order[at - 1]));
                    }
                } else if k < at {
                    assert(old_kept[k] > old_kept[l - 1] || (old_kept[k] == old_kept[l - 1]
                        && old_order[k] < old_order[l - 1]));
                } else if k == at {
                } else {
                    assert(old_kept[k - 1] > old_kept[l - 1] || (old_kept[k - 1] == old_kept[l - 1]
                        && old_order[k - 1] < old_order[l - 1]));
                }
            }
            assert forall|m: int| 0 <= m < i + 1 && (#[trigger] scores@[m]) is Some implies exists|k: int|
                0 <= k < order@.len() && order@[k] == m by {
                if m == i {
                    assert(order@[at as int] == m);
                } else {
                    let k = choose|k: int| 0 <= k < old_order.len() && old_order[k] == m;
                    if k < at {
                        assert(order@[k] == m);
                    } else {
                        assert(order@[k + 1] == m);
                    }
                }
            }
            assert forall|k: int| 0 <= k < order@.len() implies scores@[order@[k] as int] == Some(
                #[trigger] kept@[k],
            ) by {
                if k > at {
                    assert(order@[k] == old_order[k - 1]);
                }
            }
        } else {
            proof {
                if all_zero {
                    assert(scores@[i as int] == Some(0i64));
                }
            }
        }
        i += 1;
    }
    assert(scores@.take(i as int) =~= scores@);
    assert forall|k: int, l: int| 0 <= k < l < order@.len() implies ranks_before(
        scores@,
        #[trigger] order@[k] as int,
        #[trigger] order@[l] as int,
    ) by {
        assert(kept@[k] > kept@[l] || (kept@[k] == kept@[l] && order@[k] < order@[l]));
        assert(scores@[order@[k] as int] == Some(kept@[k]));
        assert(scores@[order@[l] as int] == Some(kept@[l]));
    }
    assert forall|k: int| 0 <= k < order@.len() implies (#[trigger] scores@[order@[k] as int]) is Some by {
        assert(scores@[order@[k] as int] == Some(kept@[k]));
    }
    order
}

/// The mark the selection points at, if the filter still leaves one there.
pub fn selected_mark<'a>(marks: &'a [Mark], query: &str, selected: usize) -> (r: Option<&'a Mark>)
    ensures
        match r {
            Some(m) => selection(marks@, query@, selected as int) == Some(*m),
            None => selection(marks@, query@, selected as int) is None,
        },
{
    let listed = filter_marks(marks, query);
    if selected < listed.len() {
        Some(listed[selected])
    } else {
        None
    }
}

/// The server rejects a longer name, so a name derived from the search box is cut to this many
/// characters instead of being refused after a round trip.
pub const MAX_NAME_CHARS: usize = 200;

/// How much of the search text the footer hint repeats before cutting it short.
pub const HINT_CHARS: usize = 36;

/// `text` as a hint shows it: whole when it is at most `max` characters, and otherwise its first
/// `max` characters followed by an ellipsis.
pub open spec fn shortened(text: Seq<char>, max: nat) -> Seq<char> {
    if text.len() <= max {
        text
    } else {
        text.take(max as int).push('\u{2026}')
    }
}

/// Cuts `text` to `max` characters for a hint, showing that it was cut.
pub fn shorten(text: &str, max: usize) -> (r: String)
    ensures
        r@ == shortened(text@, max as nat),
{
    let chars = text::chars_of(text);
    if chars.len() <= max {
        return text::string_of(&chars);
    }
    let mut shortened = text::string_of(&chars[0..max]);
    text::push_char(&mut shortened, '\u{2026}');
    shortened
}

/// What goes between one hint along the bottom of the window and the next.
pub open spec fn hint_separator() -> Seq<char> {
    seq![' ', '\u{2022}', ' ']
}

/// `items` one after another, with `sep` between each and the next.
pub open spec fn joined(items: Seq<Seq<char>>, sep: Seq<char>) -> Seq<char>
    decreases items.len(),
{
    if items.len() == 0 {
        seq![]
    } else if items.len() == 1 {
        items[0]
    } else {
        joined(items.drop_last(), sep) + sep + items.last()
    }
}

/// The hints as one line, each separated from the next by a bullet.
pub fn hints(items: &[&str]) -> (r: String)
    ensures
        r@ == joined(items@.map_values(|s: &str| s@), hint_separator()),
{
    let ghost views = items@.map_values(|s: &str| s@);
    let separator = text::string_of(&[' ', '\u{2022}', ' ']);
    let mut out = String::new();
    let mut i: usize = 0;
    while i < items.len()
        invariant
            i <= items.len(),
            views == items@.map_values(|s: &str| s@),
            separator@ == hint_separator(),
            out@ == joined(views.take(i as int), hint_separator()),
        decreases items.len() - i,
    {
        assert(views.take(i + 1).drop_last() =~= views.take(i as int));
        if i > 0 {
            out = text::concat(out.as_str(), separator.as_str());
        }
        out = text::concat(out.as_str(), items[i]);
        i += 1;
        assert(out@ == joined(views.take(i as int), hint_separator())) by {
            if i == 1 {
                assert(views.take(0) =~= Seq::<Seq<char>>::empty());
                assert(views.take(1) =~= seq![views[0]]);
            }
        }
    }
    assert(views.take(i as int) =~= views);
    out
}

/// Which server to open against: the one the environment names, or the one the last run's
/// session was kept for, and nothing at all when neither says.
///
/// A function of those two answers rather than of the machine, so that the rule this client is
/// built on — that it has no server of its own — is one that can be stated of it.
pub fn server_to_start_from(named: Option<String>, stored: Option<&str>) -> (r: String)
    ensures
        named matches Some(n) ==> r@ == n@,
        named is None ==> (stored matches Some(s) ==> r@ == s@),
        named is None && stored is None ==> r@ == Seq::<char>::empty(),
{
    match named {
        Some(named) => named,
        None => match stored {
            Some(stored) => stored.to_owned(),
            None => String::new(),
        },
    }
}

/// The address of a server named from outside, as this client uses it: without the whitespace
/// around it or the `/`s at its end, and no address at all when that leaves nothing.
pub open spec fn named_address(named: Option<String>) -> Option<Seq<char>> {
    match named {
        Some(n) => {
            let a = text::trim_end_char(text::trim(n@), '/');
            if a.len() > 0 {
                Some(a)
            } else {
                None
            }
        },
        None => None,
    }
}

/// A session token handed in from outside, without the whitespace around it, and no token at all
/// when that leaves nothing.
pub open spec fn handed_token(handed: Option<String>) -> Option<Seq<char>> {
    match handed {
        Some(t) => if text::trim(t@).len() > 0 {
            Some(text::trim(t@))
        } else {
            None
        },
        None => None,
    }
}

/// The server a run starts against: the one named from outside, or else the one the kept session
/// belongs to, or else none.
pub open spec fn start_address(named: Option<String>, kept: Option<Stored>) -> Seq<char> {
    match named_address(named) {
        Some(a) => a,
        None => match session_file::session_in(kept) {
            Some((b, _)) => b,
            None => Seq::empty(),
        },
    }
}

/// The session a run starts with. None without a server. A token handed in together with a named
/// server is that server's session, and wins over the one kept on disk; a token handed in without
/// a server to present it to is of no use. Otherwise the kept session, when it belongs to the
/// server the run starts against.
pub open spec fn start_token(named: Option<String>, handed: Option<String>, kept: Option<Stored>)
    -> Option<Seq<char>> {
    let base = start_address(named, kept);
    if base.len() == 0 {
        None
    } else if named_address(named) is Some && handed_token(handed) is Some {
        handed_token(handed)
    } else {
        match session_file::session_in(kept) {
            Some((b, t)) => if b == base {
                Some(t)
            } else {
                None
            },
            None => None,
        }
    }
}

/// The server address named from outside, in the form the rest of the client uses.
fn named_server(named: Option<String>) -> (r: Option<String>)
    ensures
        match r {
            Some(a) => named_address(named) == Some(a@),
            None => named_address(named) is None,
        },
{
    match named {
        Some(n) => {
            let trimmed = text::trim_str(n.as_str());
            let a = text::trim_end_matches(trimmed.as_str(), '/');
            if a.as_str().is_empty() {
                None
            } else {
                Some(a)
            }
        },
        None => None,
    }
}

/// The session token handed in from outside, when it is one.
fn handed_in_token(handed: Option<String>) -> (r: Option<String>)
    ensures
        match r {
            Some(t) => handed_token(handed) == Some(t@),
            None => handed_token(handed) is None,
        },
{
    match handed {
        Some(t) => {
            let t = text::trim_str(t.as_str());
            if t.as_str().is_empty() {
                None
            } else {
                Some(t)
            }
        },
        None => None,
    }
}

/// The server to talk to, and the session to start from: from the server address and the token
/// handed in from outside, as they were given, and from the session kept on disk.
///
/// There is no server this client falls back on: with none named and none kept, the address is
/// empty and the sign-in dialog asks. A server named from outside wins over the one the kept
/// session belongs to, and a token handed in beside it wins over the kept one; a token handed in
/// with no server named is nothing this client can use.
pub fn starting_session(named: Option<String>, handed: Option<String>, kept: Option<Stored>) -> (r: (
    String,
    Option<String>,
))
    ensures
        r.0@ == start_address(named, kept),
        match r.1 {
            Some(t) => start_token(named, handed, kept) == Some(t@),
            None => start_token(named, handed, kept) is None,
        },
{
    let address = named_server(named);
    let from_named = address.is_some();
    let stored = session_file::stored(kept);
    let stored_base: Option<&str> = match &stored {
        Some((b, _)) => Some(b.as_str()),
        None => None,
    };
    let base_url = server_to_start_from(address, stored_base);
    if base_url.as_str().is_empty() {
        return (base_url, None);
    }
    if from_named {
        if let Some(t) = handed_in_token(handed) {
            return (base_url, Some(t));
        }
    }
    let token = match stored {
        Some((b, t)) => if text::same_text(b.as_str(), base_url.as_str()) {
            Some(t)
        } else {
            None
        },
        None => None,
    };
    (base_url, token)
}

/// What is stored for a mark created from the search box: the address of the link it opens,
/// when it is one, and the text as it was typed otherwise.
pub open spec fn stored_content_of(typed: Seq<char>) -> Seq<char> {
    match mark::web_link_of(typed) {
        Some(p) => p.3,
        None => typed,
    }
}

/// What to store for a mark created from the search box: the typed text, with `https://` added
/// when it is a bare host such as `github.com`.
pub fn stored_content(typed: &str) -> (r: String)
    ensures
        r@ == stored_content_of(typed@),
{
    match mark::web_link(typed) {
        Some(url) => url.address,
        None => typed.to_owned(),
    }
}

/// The name a mark made of `content` gets when its page has none to give: the host a link points
/// at, and the text itself otherwise, cut to what the server accepts.
pub open spec fn fallback_name(content: Seq<char>) -> Seq<char> {
    let name = match mark::web_link_of(content) {
        Some(p) => match p.1 {
            Some(host) => host,
            None => content,
        },
        None => content,
    };
    text::take_chars(name, MAX_NAME_CHARS as nat)
}

/// Names a mark created from the search box.
///
/// A link is named after its host, which is also what its favicon stands for; anything else
/// keeps the text it was typed as. The server caps a name at 200 characters, so it is cut here
/// rather than refused after a round trip.
pub fn mark_name(content: &str) -> (r: String)
    ensures
        r@ == fallback_name(content@),
{
    let name = match mark::web_link(content) {
        Some(url) => match url.host {
            Some(host) => host,
            None => content.to_owned(),
        },
        None => content.to_owned(),
    };
    text::first_chars(name.as_str(), MAX_NAME_CHARS)
}

/// The name a new mark is saved under: the page's own title when it gave one, cut to what the
/// server accepts, and `fallback` otherwise.
pub fn named_after(title: Option<String>, fallback: String) -> (r: String)
    ensures
        r@ == match title {
            Some(t) => text::take_chars(t@, MAX_NAME_CHARS as nat),
            None => fallback@,
        },
{
    match title {
        Some(title) => text::first_chars(title.as_str(), MAX_NAME_CHARS),
        None => fallback,
    }
}

/// The answer the sign-in dialog gives to an address that is not one.
pub open spec fn not_an_address(trimmed: Seq<char>) -> Seq<char> {
    trimmed + " is not a server address."@
}

/// The server address as typed, in the form this client uses it: the parser's spelling of it,
/// without a trailing slash — or why it is no address at all.
pub open spec fn instance_address_of(typed: Seq<char>) -> Result<Seq<char>, Seq<char>> {
    let trimmed = text::trim_end_char(text::trim(typed), '/');
    if trimmed.len() == 0 {
        Err("Which server? Type its address."@)
    } else {
        let with_scheme = if title::first_match(trimmed, seq![':', '/', '/'], 0) is Some {
            trimmed
        } else {
            seq!['h', 't', 't', 'p', ':', '/', '/'] + trimmed
        };
        match mark::url_parse(with_scheme) {
            Some(p) => if (p.0 == mark::http() || p.0 == mark::https()) && p.1 is Some {
                Ok(text::trim_end_char(p.3, '/'))
            } else {
                Err(not_an_address(trimmed))
            },
            None => Err(not_an_address(trimmed)),
        }
    }
}

/// The server address as typed into the sign-in dialog, in the form the rest of this client uses:
/// a scheme, a host, and no trailing slash.
///
/// A bare host is taken as `http://`: the address is typed by hand, and nobody types the scheme
/// first. Anything without a host in it is refused, because a client pointed at nothing can only
/// fail later and less clearly.
pub fn instance_address(typed: &str) -> (r: Result<String, String>)
    ensures
        match r {
            Ok(a) => instance_address_of(typed@) == Ok::<Seq<char>, Seq<char>>(a@),
            Err(e) => instance_address_of(typed@) == Err::<Seq<char>, Seq<char>>(e@),
        },
{
    let trimmed_both = text::trim_str(typed);
    let trimmed = text::trim_end_matches(trimmed_both.as_str(), '/');
    if trimmed.as_str().is_empty() {
        return Err("Which server? Type its address.".to_owned());
    }
    let chars = text::chars_of(trimmed.as_str());
    let separator = [':', '/', '/'];
    assert(separator@ =~= seq![':', '/', '/']);
    let with_scheme = if title::find_ci(&chars, &separator, 0).is_some() {
        trimmed.as_str().to_owned()
    } else {
        let scheme = text::string_of(&['h', 't', 't', 'p', ':', '/', '/']);
        text::concat(scheme.as_str(), trimmed.as_str())
    };
    match mark::parse_url(with_scheme.as_str()) {
        Some(url) => {
            let web = text::is_word(&url.scheme, &['h', 't', 't', 'p']) || text::is_word(
                &url.scheme,
                &['h', 't', 't', 'p', 's'],
            );
            if web && url.host.is_some() {
                Ok(text::trim_end_matches(url.address.as_str(), '/'))
            } else {
                Err(text::concat(trimmed.as_str(), " is not a server address."))
            }
        },
        None => Err(text::concat(trimmed.as_str(), " is not a server address.")),
    }
}

/// The last thing worth telling the user, shown above the key hints.
pub struct Notice {
    pub text: String,
    pub error: bool,
}

impl Notice {
    /// Something that went as asked.
    pub fn info(text: String) -> (r: Notice)
        ensures
            r.text@ == text@,
            !r.error,
    {
        Notice { text, error: false }
    }

    /// Something that did not.
    pub fn error(text: String) -> (r: Notice)
        ensures
            r.text@ == text@,
            r.error,
    {
        Notice { text, error: true }
    }
}

} // verus!

//! Fuzzy subsequence matcher used to rank command names and file paths.
//!
//! [`score`] returns `None` when the query is not a subsequence of the
//! candidate (ignoring ASCII case), and otherwise a score where **lower is
//! better**. Scores are kept in tenths of a point so that every weight is
//! an exact integer:
//!
//! * exact match (ASCII-case-insensitive) → large bonus
//! * consecutive matched characters → bonus
//! * gaps between matches → penalty per skipped character
//! * match at a word boundary (start, after punctuation, or camelCase) → bonus
//! * later match positions → small penalty per index (prefer earlier hits)

use vstd::prelude::*;

use crate::text::{lower_seq, 
    ascii_is_lower, ascii_is_upper, ascii_lower, char_is_alphanumeric, chars_eq_ignore_case,
    chars_of, eq_ignore_case, is_ascii_lower, is_ascii_upper, lower, alphanumeric,
};

verus! {

/// Score, in tenths, when the whole candidate equals the query (ignoring case).
pub const EXACT_BONUS: i128 = -1000;

/// Score change, in tenths, per matched character on a word boundary.
pub const BOUNDARY_BONUS: i128 = -100;

/// Score change, in tenths, when a match immediately follows the previous one.
pub const CONSECUTIVE_BONUS: i128 = -50;

/// Score change, in tenths, per skipped character between two matches.
pub const GAP_PENALTY: i128 = 20;

/// Score change, in tenths, per index of a match's position.
pub const POSITION_PENALTY: i128 = 1;

/// Position `idx` of `hay` starts a word: it is the first character, or it
/// follows a character that is not alphanumeric, or it is an ASCII capital
/// following an ASCII lowercase letter.
pub open spec fn boundary_at(hay: Seq<char>, idx: int) -> bool {
    idx == 0 || {
        let prev = hay[idx - 1];
        !alphanumeric(prev) || (is_ascii_lower(prev) && is_ascii_upper(hay[idx]))
    }
}

/// The first index at or after `from` whose character lowercases to `target`.
pub open spec fn next_match(hay: Seq<char>, from: int, target: char) -> Option<int>
    decreases hay.len() - from,
{
    if from >= hay.len() {
        None
    } else if lower(hay[from]) == target {
        Some(from)
    } else {
        next_match(hay, from + 1, target)
    }
}

/// Where the first `k` characters of `needle` land in `hay` when each one
/// is matched, ignoring ASCII case, at the earliest position after the
/// previous match; `None` when some character finds no match.
pub open spec fn greedy_positions(needle: Seq<char>, hay: Seq<char>, k: nat) -> Option<Seq<int>>
    decreases k,
{
    if k == 0 {
        Some(Seq::empty())
    } else {
        match greedy_positions(needle, hay, (k - 1) as nat) {
            None => None,
            Some(ps) => {
                let from = if ps.len() == 0 { 0 } else { ps.last() + 1 };
                match next_match(hay, from, lower(needle[k - 1])) {
                    None => None,
                    Some(i) => Some(ps.push(i)),
                }
            },
        }
    }
}

/// What the `j`-th matched position contributes to the score.
pub open spec fn step_score(hay: Seq<char>, ps: Seq<int>, j: int) -> int {
    let idx = ps[j];
    (if boundary_at(hay, idx) { BOUNDARY_BONUS as int } else { 0 }) + (if j == 0 {
        0
    } else if ps[j - 1] + 1 == idx {
        CONSECUTIVE_BONUS as int
    } else {
        GAP_PENALTY * (idx - ps[j - 1] - 1)
    }) + POSITION_PENALTY * idx
}

/// Sum of the contributions of the first `k` matched positions.
pub open spec fn total_score(hay: Seq<char>, ps: Seq<int>, k: nat) -> int
    decreases k,
{
    if k == 0 {
        0
    } else {
        total_score(hay, ps, (k - 1) as nat) + step_score(hay, ps, k - 1)
    }
}

/// The score of `needle` against `hay`, in tenths: `Some(0)` for an empty
/// needle, [`EXACT_BONUS`] when the two are equal ignoring ASCII case,
/// `None` when the needle is not a case-insensitive subsequence, and
/// otherwise the summed contributions of the greedy match.
pub open spec fn match_score(needle: Seq<char>, hay: Seq<char>) -> Option<int> {
    if needle.len() == 0 {
        Some(0)
    } else if eq_ignore_case(hay, needle) {
        Some(EXACT_BONUS as int)
    } else {
        match greedy_positions(needle, hay, needle.len()) {
            None => None,
            Some(ps) => Some(total_score(hay, ps, ps.len())),
        }
    }
}

/// An executable score and its mathematical value agree.
pub open spec fn same_score(r: Option<i128>, s: Option<int>) -> bool {
    match r {
        Some(v) => s == Some(v as int),
        None => s is None,
    }
}

/// Whether position `idx` of `hay` starts a word (see [`boundary_at`]).
pub fn is_boundary(hay: &[char], idx: usize) -> (r: bool)
    requires
        idx == 0 || idx < hay@.len(),
    ensures
        r == boundary_at(hay@, idx as int),
{
    if idx == 0 {
        return true;
    }
    let prev = hay[idx - 1];
    !char_is_alphanumeric(prev) || (ascii_is_lower(prev) && ascii_is_upper(hay[idx]))
}

proof fn lemma_next_match_found(hay: Seq<char>, from: int, target: char, i: int)
    requires
        0 <= from <= i < hay.len(),
        lower(hay[i]) == target,
        forall|j: int| from <= j < i ==> lower(#[trigger] hay[j]) != target,
    ensures
        next_match(hay, from, target) == Some(i),
    decreases i - from,
{
    if from < i {
        lemma_next_match_found(hay, from + 1, target, i);
    }
}

proof fn lemma_next_match_none(hay: Seq<char>, from: int, target: char)
    requires
        0 <= from <= hay.len(),
        forall|j: int| from <= j < hay.len() ==> lower(#[trigger] hay[j]) != target,
    ensures
        next_match(hay, from, target) is None,
    decreases hay.len() - from,
{
    if from < hay.len() {
        lemma_next_match_none(hay, from + 1, target);
    }
}

/// Score a fuzzy match of `needle` against `haystack`, in tenths of a
/// point. `None` if `needle` is not a subsequence of `haystack` (ignoring
/// ASCII case); otherwise lower is a better match.
///
/// A string never holds more than `isize::MAX` bytes, hence never more
/// characters; that bound keeps every partial sum within `i128`.
pub fn score(needle: &str, haystack: &str) -> (r: Option<i128>)
    requires
        haystack@.len() <= isize::MAX,
    ensures
        same_score(r, match_score(needle@, haystack@)),
{
    let nee = chars_of(needle);
    let hay = chars_of(haystack);
    if nee.len() == 0 {
        return Some(0);
    }
    if chars_eq_ignore_case(&hay, &nee) {
        return Some(EXACT_BONUS);
    }
    let ghost n = nee@;
    let ghost hs = hay@;
    let ghost mut ps: Seq<int> = Seq::empty();
    let mut total: i128 = 0;
    let mut h: usize = 0;
    let mut last_match: Option<usize> = None;
    let mut k: usize = 0;
    while k < nee.len()
        invariant
            n == nee@,
            hs == hay@,
            n == needle@,
            hs == haystack@,
            hs.len() <= isize::MAX,
            k <= n.len(),
            ps.len() == k,
            greedy_positions(n, hs, k as nat) == Some(ps),
            h <= hs.len(),
            k == 0 ==> h == 0 && last_match is None,
            k > 0 ==> last_match == Some((h - 1) as usize) && ps.last() == h - 1,
            forall|j: int| 0 <= j < k ==> 0 <= #[trigger] ps[j] < h,
            total == total_score(hs, ps, k as nat),
            -150 * k <= total <= 20 * h + k * h,
            k <= h,
            n.len() > 0,
            !eq_ignore_case(hs, n),
        decreases n.len() - k,
    {
        let target = ascii_lower(nee[k]);
        let mut idx = h;
        while idx < hay.len() && ascii_lower(hay[idx]) != target
            invariant
                hs == hay@,
                h <= idx <= hs.len(),
                forall|j: int| h <= j < idx ==> lower(#[trigger] hs[j]) != target,
            decreases hs.len() - idx,
        {
            idx = idx + 1;
        }
        if idx >= hay.len() {
            proof {
                lemma_next_match_none(hs, h as int, target);
                assert(greedy_positions(n, hs, (k + 1) as nat) is None);
                lemma_greedy_none_stays(n, hs, (k + 1) as nat, n.len());
            }
            return None;
        }
        proof {
            lemma_next_match_found(hs, h as int, target, idx as int);
        }
        let ghost old_total = total;
        let ghost old_ps = ps;
        assert(k * h <= 0x4000_0000_0000_0000_0000_0000_0000_0000) by (nonlinear_arith)
            requires
                k <= h,
                h <= 0x8000_0000_0000_0000,
        ;
        if is_boundary(hay.as_slice(), idx) {
            total = total + BOUNDARY_BONUS;
        }
        match last_match {
            Some(prev) => {
                if prev + 1 == idx {
                    total = total + CONSECUTIVE_BONUS;
                } else {
                    let gap = (idx - prev - 1) as i128;
                    total = total + GAP_PENALTY * gap;
                }
            },
            None => {},
        }
        total = total + POSITION_PENALTY * (idx as i128);
        proof {
            ps = ps.push(idx as int);
            assert(greedy_positions(n, hs, (k + 1) as nat) == Some(ps));
            assert(ps[k as int] == idx);
            assert forall|j: int| 0 <= j < k implies #[trigger] ps[j] == old_ps[j] by {}
            lemma_total_prefix(hs, old_ps, ps, k as nat);
            assert(total == total_score(hs, ps, (k + 1) as nat));
            assert(k * h <= k * (idx + 1)) by (nonlinear_arith)
                requires
                    h <= idx + 1,
            ;
            assert((k + 1) * (idx + 1) == k * (idx + 1) + idx + 1) by (nonlinear_arith);
        }
        last_match = Some(idx);
        h = idx + 1;
        k = k + 1;
    }
    proof {
        assert(n.len() == k);
    }
    Some(total)
}

proof fn lemma_greedy_none_stays(n: Seq<char>, hay: Seq<char>, k: nat, m: nat)
    requires
        k <= m,
        greedy_positions(n, hay, k) is None,
    ensures
        greedy_positions(n, hay, m) is None,
    decreases m - k,
{
    if k < m {
        lemma_greedy_none_stays(n, hay, k, (m - 1) as nat);
    }
}

proof fn lemma_total_prefix(hay: Seq<char>, a: Seq<int>, b: Seq<int>, k: nat)
    requires
        k <= a.len(),
        k <= b.len(),
        forall|j: int| 0 <= j < k ==> #[trigger] a[j] == b[j],
    ensures
        total_score(hay, a, k) == total_score(hay, b, k),
    decreases k,
{
    if k > 0 {
        lemma_total_prefix(hay, a, b, (k - 1) as nat);
        assert(step_score(hay, a, k - 1) == step_score(hay, b, k - 1));
    }
}

} // verus!

verus! {

/// `ps` places the characters of `needle`, in order, at strictly increasing
/// positions of `hay` holding the same character up to ASCII case.
pub open spec fn embeds(needle: Seq<char>, hay: Seq<char>, ps: Seq<int>) -> bool {
    &&& ps.len() == needle.len()
    &&& forall|j: int| 0 <= j < ps.len() ==> 0 <= #[trigger] ps[j] < hay.len()
    &&& forall|i: int, j: int| 0 <= i < j < ps.len() ==> #[trigger] ps[i] < #[trigger] ps[j]
    &&& forall|j: int| 0 <= j < ps.len() ==> lower(hay[#[trigger] ps[j]]) == lower(needle[j])
}

/// `needle` is a subsequence of `hay` when ASCII case is ignored.
pub open spec fn is_subsequence_ignore_case(needle: Seq<char>, hay: Seq<char>) -> bool {
    exists|ps: Seq<int>| embeds(needle, hay, ps)
}

proof fn lemma_next_match_sound(hay: Seq<char>, from: int, target: char)
    requires
        0 <= from,
    ensures
        next_match(hay, from, target) matches Some(i) ==> from <= i < hay.len() && lower(hay[i])
            == target,
    decreases hay.len() - from,
{
    if from < hay.len() && lower(hay[from]) != target {
        lemma_next_match_sound(hay, from + 1, target);
    }
}

proof fn lemma_next_match_leftmost(hay: Seq<char>, from: int, target: char, q: int)
    requires
        0 <= from <= q < hay.len(),
        lower(hay[q]) == target,
    ensures
        next_match(hay, from, target) matches Some(i) && i <= q,
    decreases q - from,
{
    if lower(hay[from]) != target {
        lemma_next_match_leftmost(hay, from + 1, target, q);
    }
}

proof fn lemma_greedy_sound(needle: Seq<char>, hay: Seq<char>, k: nat)
    requires
        k <= needle.len(),
    ensures
        greedy_positions(needle, hay, k) matches Some(ps) ==> {
            &&& ps.len() == k
            &&& forall|j: int| 0 <= j < k ==> 0 <= #[trigger] ps[j] < hay.len()
            &&& forall|i: int, j: int| 0 <= i < j < k ==> #[trigger] ps[i] < #[trigger] ps[j]
            &&& forall|j: int| 0 <= j < k ==> lower(hay[#[trigger] ps[j]]) == lower(needle[j])
        },
    decreases k,
{
    if k > 0 {
        lemma_greedy_sound(needle, hay, (k - 1) as nat);
        if let Some(ps) = greedy_positions(needle, hay, (k - 1) as nat) {
            let from = if ps.len() == 0 { 0 } else { ps.last() + 1 };
            lemma_next_match_sound(hay, from, lower(needle[k - 1]));
            if let Some(i) = next_match(hay, from, lower(needle[k - 1])) {
                let qs = ps.push(i);
                assert(lower(lower(needle[k - 1])) == lower(needle[k - 1]));
                assert forall|a: int, b: int| 0 <= a < b < k implies #[trigger] qs[a]
                    < #[trigger] qs[b] by {
                    if b == k - 1 && a < k - 2 {
                        assert(ps[a] < ps[k - 2]);
                    }
                }
            }
        }
    }
}

proof fn lemma_greedy_complete(needle: Seq<char>, hay: Seq<char>, qs: Seq<int>, k: nat)
    requires
        embeds(needle, hay, qs),
        k <= needle.len(),
    ensures
        greedy_positions(needle, hay, k) matches Some(ps) && ps.len() == k && (forall|j: int|
            0 <= j < k ==> #[trigger] ps[j] <= qs[j]),
    decreases k,
{
    if k > 0 {
        lemma_greedy_complete(needle, hay, qs, (k - 1) as nat);
        lemma_greedy_sound(needle, hay, (k - 1) as nat);
        let ps = greedy_positions(needle, hay, (k - 1) as nat)->0;
        let from = if ps.len() == 0 { 0 } else { ps.last() + 1 };
        if k > 1 {
            assert(qs[k - 2] < qs[k - 1]);
            assert(ps[k - 2] <= qs[k - 2]);
        }
        assert(0 <= qs[k - 1] < hay.len());
        assert(lower(hay[qs[k - 1]]) == lower(needle[k - 1]));
        assert(lower(lower(needle[k - 1])) == lower(needle[k - 1]));
        lemma_next_match_leftmost(hay, from, lower(needle[k - 1]), qs[k - 1]);
        let i = next_match(hay, from, lower(needle[k - 1]))->0;
        let rs = ps.push(i);
        assert(greedy_positions(needle, hay, k) == Some(rs));
        assert forall|j: int| 0 <= j < k implies #[trigger] rs[j] <= qs[j] by {
            if j < k - 1 {
                assert(rs[j] == ps[j]);
            }
        }
    }
}

/// A score exists exactly when the needle is a subsequence of the
/// candidate, ignoring ASCII case.
pub proof fn law_score_some_iff_subsequence(needle: Seq<char>, hay: Seq<char>)
    ensures
        match_score(needle, hay) is Some <==> is_subsequence_ignore_case(needle, hay),
{
    if needle.len() == 0 {
        assert(embeds(needle, hay, Seq::<int>::empty()));
    } else if eq_ignore_case(hay, needle) {
        let ps = Seq::new(needle.len(), |j: int| j);
        assert(lower(hay[ps[0]]) == lower(needle[0]));
        assert(embeds(needle, hay, ps));
    } else {
        lemma_greedy_sound(needle, hay, needle.len());
        if is_subsequence_ignore_case(needle, hay) {
            let qs = choose|qs: Seq<int>| embeds(needle, hay, qs);
            lemma_greedy_complete(needle, hay, qs, needle.len());
        }
        if let Some(ps) = greedy_positions(needle, hay, needle.len()) {
            assert(embeds(needle, hay, ps));
        }
    }
}

proof fn lemma_greedy_case(n1: Seq<char>, n2: Seq<char>, hay: Seq<char>, k: nat)
    requires
        k <= n1.len(),
        n1.len() == n2.len(),
        forall|i: int| 0 <= i < n1.len() ==> #[trigger] lower(n1[i]) == lower(n2[i]),
    ensures
        greedy_positions(n1, hay, k) == greedy_positions(n2, hay, k),
    decreases k,
{
    if k > 0 {
        lemma_greedy_case(n1, n2, hay, (k - 1) as nat);
        assert(lower(n1[k - 1]) == lower(n2[k - 1]));
    }
}

/// The case of the needle's ASCII letters never changes the score.
pub proof fn law_needle_case_insensitive(n1: Seq<char>, n2: Seq<char>, hay: Seq<char>)
    requires
        lower_seq(n1) == lower_seq(n2),
    ensures
        match_score(n1, hay) == match_score(n2, hay),
{
    assert(n1.len() == lower_seq(n1).len());
    assert forall|i: int| 0 <= i < n1.len() implies #[trigger] lower(n1[i]) == lower(n2[i]) by {
        assert(lower_seq(n1)[i] == lower(n1[i]));
        assert(lower_seq(n2)[i] == lower(n2[i]));
    }
    lemma_greedy_case(n1, n2, hay, n1.len());
    assert(eq_ignore_case(hay, n1) == eq_ignore_case(hay, n2));
}

/// An empty needle matches every candidate with score zero.
pub proof fn law_empty_needle_scores_zero(hay: Seq<char>)
    ensures
        match_score(Seq::empty(), hay) == Some(0int),
{
}

} // verus!

verus! {

/// A candidate equal to the needle up to ASCII case scores the exact-match
/// bonus.
pub proof fn law_exact_match_scores_bonus(needle: Seq<char>, hay: Seq<char>)
    requires
        needle.len() > 0,
        eq_ignore_case(hay, needle),
    ensures
        match_score(needle, hay) == Some(EXACT_BONUS as int),
{
}

/// Whether the needle matches at all does not depend on the ASCII case of
/// the candidate (its case only moves word boundaries, hence the score).
pub proof fn law_candidate_case_keeps_matching(needle: Seq<char>, h1: Seq<char>, h2: Seq<char>)
    requires
        lower_seq(h1) == lower_seq(h2),
    ensures
        match_score(needle, h1) is Some <==> match_score(needle, h2) is Some,
{
    law_score_some_iff_subsequence(needle, h1);
    law_score_some_iff_subsequence(needle, h2);
    assert(h1.len() == lower_seq(h1).len());
    assert forall|i: int| 0 <= i < h1.len() implies #[trigger] lower(h1[i]) == lower(h2[i]) by {
        assert(lower_seq(h1)[i] == lower(h1[i]));
        assert(lower_seq(h2)[i] == lower(h2[i]));
    }
    if is_subsequence_ignore_case(needle, h1) {
        let ps = choose|ps: Seq<int>| embeds(needle, h1, ps);
        assert(embeds(needle, h2, ps));
    }
    if is_subsequence_ignore_case(needle, h2) {
        let ps = choose|ps: Seq<int>| embeds(needle, h2, ps);
        assert(embeds(needle, h1, ps));
    }
}

} // verus!

verus! {

/// Where words start in a candidate: at its first character, after any
/// character that is not alphanumeric (punctuation, `_`, `.`, `/`, space,
/// ...), and at an ASCII capital that follows an ASCII lowercase letter
/// (camelCase). After any other alphanumeric character (a digit, a letter
/// followed by a lowercase letter, a capital followed by a capital) no word
/// starts.
pub proof fn law_word_boundaries(hay: Seq<char>, idx: int)
    requires
        0 <= idx < hay.len(),
    ensures
        idx == 0 ==> boundary_at(hay, idx),
        idx > 0 && !alphanumeric(hay[idx - 1]) ==> boundary_at(hay, idx),
        idx > 0 && 'a' <= hay[idx - 1] <= 'z' && 'A' <= hay[idx] <= 'Z' ==> boundary_at(hay, idx),
        idx > 0 && alphanumeric(hay[idx - 1]) && !('a' <= hay[idx - 1] <= 'z' && 'A' <= hay[idx]
            <= 'Z') ==> !boundary_at(hay, idx),
        idx > 0 && 'A' <= hay[idx - 1] <= 'Z' && 'A' <= hay[idx] <= 'Z' ==> !boundary_at(hay, idx),
        idx > 0 && 'a' <= hay[idx - 1] <= 'z' && 'a' <= hay[idx] <= 'z' ==> !boundary_at(hay, idx),
{
}

/// A one-character needle that does not equal the whole candidate scores
/// its first case-insensitive occurrence: ten points (in tenths, -100) off
/// when that occurrence starts a word, plus one tenth per position.
pub proof fn law_single_character_score(c: char, hay: Seq<char>, i: int)
    requires
        0 <= i < hay.len(),
        lower(hay[i]) == lower(c),
        forall|j: int| 0 <= j < i ==> lower(#[trigger] hay[j]) != lower(c),
        !eq_ignore_case(hay, seq![c]),
    ensures
        match_score(seq![c], hay) == Some((if boundary_at(hay, i) { -100int } else { 0int }) + i),
{
    let n = seq![c];
    lemma_next_match_found(hay, 0, lower(c), i);
    assert(greedy_positions(n, hay, 0) == Some(Seq::<int>::empty()));
    assert(Seq::<int>::empty().push(i) =~= seq![i]);
    assert(greedy_positions(n, hay, 1) == Some(seq![i]));
    assert(total_score(hay, seq![i], 0) == 0);
    assert(total_score(hay, seq![i], 1) == step_score(hay, seq![i], 0));
}


/// A two-character needle that does not equal the whole candidate scores
/// the first occurrence `i` of its first character and the first occurrence
/// `j` of its second after `i`: each earns the word-boundary bonus where a
/// word starts and one tenth per position, and the second earns five points
/// (-50 tenths) when it directly follows the first, or else costs two points
/// (20 tenths) per character skipped between them.
pub proof fn law_two_character_score(a: char, b: char, hay: Seq<char>, i: int, j: int)
    requires
        0 <= i < j < hay.len(),
        lower(hay[i]) == lower(a),
        forall|q: int| 0 <= q < i ==> lower(#[trigger] hay[q]) != lower(a),
        lower(hay[j]) == lower(b),
        forall|q: int| i < q < j ==> lower(#[trigger] hay[q]) != lower(b),
        !eq_ignore_case(hay, seq![a, b]),
    ensures
        match_score(seq![a, b], hay) == Some(
            (if boundary_at(hay, i) { -100int } else { 0int }) + i + (if boundary_at(hay, j) {
                -100int
            } else {
                0int
            }) + j + (if j == i + 1 { -50int } else { 20 * (j - i - 1) }),
        ),
{
    let n = seq![a, b];
    lemma_next_match_found(hay, 0, lower(a), i);
    lemma_next_match_found(hay, i + 1, lower(b), j);
    assert(greedy_positions(n, hay, 0) == Some(Seq::<int>::empty()));
    assert(Seq::<int>::empty().push(i) =~= seq![i]);
    assert(greedy_positions(n, hay, 1) == Some(seq![i]));
    assert(seq![i].push(j) =~= seq![i, j]);
    assert(greedy_positions(n, hay, 2) == Some(seq![i, j]));
    let ps = seq![i, j];
    assert(total_score(hay, ps, 0) == 0);
    assert(total_score(hay, ps, 1) == step_score(hay, ps, 0));
    assert(total_score(hay, ps, 2) == step_score(hay, ps, 0) + step_score(hay, ps, 1));
}

} // verus!

//! `@`-file mention autocomplete: path completion for the prompt.
//!
//! When the user types `@src/re…`, the query is split into the directory
//! prefix (`src/`, kept verbatim) and the partial file name (`re`). The
//! entries of that directory are ranked with the fuzzy matcher against the
//! partial name, best first; directories keep a trailing `/` so the user can
//! drill in. Reading the directory is the caller's business: it hands the
//! listing in, or `None` when the directory could not be read.

use vstd::prelude::*;

use crate::fuzzy::{match_score, score};
use crate::text::{chars_of, push_char, string_from_chars};

verus! {

/// A single file/directory completion candidate.
#[derive(Debug, Clone, PartialEq, Eq)]
pub struct FileSuggestion {
    /// Path text to substitute after the `@`, relative to the base
    /// directory, e.g. `"src/render/"` or `"Cargo.toml"`. Directories carry
    /// a trailing `/`.
    pub display: String,
    /// Whether this entry is a directory.
    pub is_dir: bool,
}

impl View for FileSuggestion {
    type V = (Seq<char>, bool);

    open spec fn view(&self) -> (Seq<char>, bool) {
        (self.display@, self.is_dir)
    }
}

/// One entry of a directory listing: its (UTF-8) name and whether it is a
/// directory.
#[derive(Debug, Clone, PartialEq, Eq)]
pub struct ListedEntry {
    pub name: String,
    pub is_dir: bool,
}

impl View for ListedEntry {
    type V = (Seq<char>, bool);

    open spec fn view(&self) -> (Seq<char>, bool) {
        (self.name@, self.is_dir)
    }
}

/// A ranked candidate: its score, its display text and whether it is a
/// directory.
pub type Candidate = (int, Seq<char>, bool);

/// Index of the last `/` among the first `j` characters of `q`.
pub open spec fn last_slash_before(q: Seq<char>, j: int) -> Option<int>
    decreases j,
{
    if j <= 0 {
        None
    } else if q[j - 1] == '/' {
        Some(j - 1)
    } else {
        last_slash_before(q, j - 1)
    }
}

/// The directory prefix of a query: everything up to and including its
/// last `/`, or nothing when it has none.
pub open spec fn dir_part(q: Seq<char>) -> Seq<char> {
    match last_slash_before(q, q.len() as int) {
        Some(i) => q.take(i + 1),
        None => Seq::empty(),
    }
}

/// The partial file name of a query: everything after its last `/`, or the
/// whole query when it has none.
pub open spec fn file_part(q: Seq<char>) -> Seq<char> {
    match last_slash_before(q, q.len() as int) {
        Some(i) => q.skip(i + 1),
        None => q,
    }
}

/// A dotfile name.
pub open spec fn is_hidden(name: Seq<char>) -> bool {
    name.len() > 0 && name[0] == '.'
}

/// Hidden entries are offered only when the partial name starts with `.`.
pub open spec fn offered(file: Seq<char>, name: Seq<char>) -> bool {
    !is_hidden(name) || is_hidden(file)
}

/// The completion text for an entry: directory prefix, name, and a `/` for
/// directories.
pub open spec fn display_of(dir: Seq<char>, name: Seq<char>, is_dir: bool) -> Seq<char> {
    if is_dir {
        dir + name + seq!['/']
    } else {
        dir + name
    }
}

/// The offered entries that the partial name matches, in listing order,
/// with their scores.
pub open spec fn candidates(dir: Seq<char>, file: Seq<char>, entries: Seq<(Seq<char>, bool)>) -> Seq<
    Candidate,
>
    decreases entries.len(),
{
    if entries.len() == 0 {
        Seq::empty()
    } else {
        let prev = candidates(dir, file, entries.drop_last());
        let name = entries.last().0;
        let is_dir = entries.last().1;
        if offered(file, name) && match_score(file, name) is Some {
            prev.push((match_score(file, name)->0, display_of(dir, name, is_dir), is_dir))
        } else {
            prev
        }
    }
}

/// Insert `c` into `sorted` after every element whose score is not greater
/// than its own.
pub open spec fn insert_by_score(sorted: Seq<Candidate>, c: Candidate) -> Seq<Candidate>
    decreases sorted.len(),
{
    if sorted.len() == 0 {
        seq![c]
    } else if sorted.last().0 <= c.0 {
        sorted.push(c)
    } else {
        insert_by_score(sorted.drop_last(), c).push(sorted.last())
    }
}

/// Stable sort by ascending score: candidates with equal scores keep their
/// listing order.
pub open spec fn sort_by_score(cs: Seq<Candidate>) -> Seq<Candidate>
    decreases cs.len(),
{
    if cs.len() == 0 {
        Seq::empty()
    } else {
        insert_by_score(sort_by_score(cs.drop_last()), cs.last())
    }
}

/// The suggestions for `query` over a directory listing: none when the
/// directory could not be read, otherwise the best `limit` candidates,
/// best (lowest score) first.
pub open spec fn suggestions(
    query: Seq<char>,
    listing: Option<Seq<(Seq<char>, bool)>>,
    limit: nat,
) -> Seq<(Seq<char>, bool)> {
    match listing {
        None => Seq::empty(),
        Some(entries) => {
            let ranked = sort_by_score(candidates(dir_part(query), file_part(query), entries));
            let n = if limit < ranked.len() { limit } else { ranked.len() };
            ranked.take(n as int).map_values(|c: Candidate| (c.1, c.2))
        },
    }
}

/// The abstract value of a listing.
pub open spec fn listing_view(listing: Option<Vec<ListedEntry>>) -> Option<Seq<(Seq<char>, bool)>> {
    match listing {
        None => None,
        Some(es) => Some(es@.map_values(|e: ListedEntry| e@)),
    }
}

/// Split a query into its directory prefix (kept verbatim, trailing `/`
/// included) and the partial file name that is fuzzy-matched.
pub fn split_query(query: &str) -> (parts: (String, String))
    ensures
        parts.0@ == dir_part(query@),
        parts.1@ == file_part(query@),
{
    let q = chars_of(query);
    let mut j = q.len();
    while j > 0 && q[j - 1] != '/'
        invariant
            j <= q@.len(),
            last_slash_before(q@, q@.len() as int) == last_slash_before(q@, j as int),
        decreases j,
    {
        j = j - 1;
    }
    let dir = string_from_chars(&q, 0, j);
    let file = string_from_chars(&q, j, q.len());
    proof {
        assert(q@.subrange(0, q@.len() as int) =~= q@);
        assert(q@.subrange(0, j as int) =~= q@.take(j as int));
        assert(q@.subrange(j as int, q@.len() as int) =~= q@.skip(j as int));
    }
    (dir, file)
}

/// The parallel score and suggestion vectors, as candidates.
pub open spec fn zip_candidates(scores: Seq<i128>, sugg: Seq<FileSuggestion>) -> Seq<Candidate> {
    Seq::new(scores.len(), |i: int| (scores[i] as int, sugg[i].display@, sugg[i].is_dir))
}

proof fn lemma_insert_by_score_at(s: Seq<Candidate>, c: Candidate, p: int)
    requires
        0 <= p <= s.len(),
        p == 0 || s[p - 1].0 <= c.0,
        forall|j: int| p <= j < s.len() ==> #[trigger] s[j].0 > c.0,
    ensures
        insert_by_score(s, c) == s.insert(p, c),
    decreases s.len(),
{
    if s.len() == 0 {
        assert(s.insert(p, c) =~= seq![c]);
    } else if s.last().0 <= c.0 {
        assert(p == s.len());
        assert(s.insert(p, c) =~= s.push(c));
    } else {
        let d = s.drop_last();
        lemma_insert_by_score_at(d, c, p);
        assert(d.insert(p, c).push(s.last()) =~= s.insert(p, c));
    }
}

/// Rank the entries of the directory named by the query's prefix for the
/// `@`-mention `query`. `listing` is `None` when that directory could not be
/// read, which yields no suggestions rather than an error. Hidden entries
/// (dotfiles) are only offered when the partial name itself starts with
/// `.`. Returns at most `limit` results, best match first; equally good
/// matches keep their listing order.
pub fn suggest(query: &str, listing: Option<Vec<ListedEntry>>, limit: usize) -> (out: Vec<
    FileSuggestion,
>)
    requires
        listing matches Some(es) ==> forall|i: int|
            0 <= i < es@.len() ==> (#[trigger] es@[i]).name@.len() <= isize::MAX,
    ensures
        out@.map_values(|s: FileSuggestion| s@) == suggestions(query@, listing_view(listing), limit as nat),
{
    let entries = match listing {
        None => {
            let out: Vec<FileSuggestion> = Vec::new();
            assert(out@.map_values(|s: FileSuggestion| s@) =~= Seq::<(Seq<char>, bool)>::empty());
            return out;
        },
        Some(es) => es,
    };
    let ghost ev = entries@.map_values(|e: ListedEntry| e@);
    let (dir, file) = split_query(query);
    let file_chars = chars_of(file.as_str());
    let file_hidden = file_chars.len() > 0 && file_chars[0] == '.';
    let mut scores: Vec<i128> = Vec::new();
    let mut sugg: Vec<FileSuggestion> = Vec::new();
    let mut i: usize = 0;
    while i < entries.len()
        invariant
            ev == entries@.map_values(|e: ListedEntry| e@),
            forall|k: int| 0 <= k < entries@.len() ==> (#[trigger] entries@[k]).name@.len() <= isize::MAX,
            dir@ == dir_part(query@),
            file@ == file_part(query@),
            file_hidden == is_hidden(file@),
            i <= entries@.len(),
            scores@.len() == sugg@.len(),
            zip_candidates(scores@, sugg@) == sort_by_score(
                candidates(dir@, file@, ev.take(i as int)),
            ),
        decreases entries@.len() - i,
    {
        let ghost before = zip_candidates(scores@, sugg@);
        assert(ev.take(i + 1).drop_last() =~= ev.take(i as int));
        assert(ev.take(i + 1).last() == entries@[i as int]@);
        let name = entries[i].name.as_str();
        let is_dir = entries[i].is_dir;
        let name_chars = chars_of(name);
        let name_hidden = name_chars.len() > 0 && name_chars[0] == '.';
        let ghost cur = candidates(dir@, file@, ev.take(i as int));
        let ghost next = candidates(dir@, file@, ev.take(i + 1));
        assert(name_hidden == is_hidden(name@));
        if !name_hidden || file_hidden {
            match score(file.as_str(), name) {
                Some(s) => {
                    let mut display = dir.clone();
                    display.append(name);
                    if is_dir {
                        push_char(&mut display, '/');
                    }
                    let ghost c: Candidate = (s as int, display@, is_dir);
                    assert(display@ =~= display_of(dir@, name@, is_dir));
                    let mut p = scores.len();
                    while p > 0 && scores[p - 1] > s
                        invariant
                            p <= scores@.len(),
                            scores@.len() == sugg@.len(),
                            before == zip_candidates(scores@, sugg@),
                            forall|j: int| p <= j < scores@.len() ==> #[trigger] scores@[j] > s,
                        decreases p,
                    {
                        p = p - 1;
                    }
                    proof {
                        lemma_insert_by_score_at(before, c, p as int);
                    }
                    scores.insert(p, s);
                    sugg.insert(p, FileSuggestion { display, is_dir });
                    assert(zip_candidates(scores@, sugg@) =~= before.insert(p as int, c));
                    assert(next == cur.push(c));
                    assert(cur.push(c).drop_last() =~= cur);
                },
                None => {
                    assert(next == cur);
                },
            }
        } else {
            assert(next == cur);
        }
        i = i + 1;
    }
    assert(ev.take(entries@.len() as int) =~= ev);
    let ghost ranked = zip_candidates(scores@, sugg@);
    let n = if limit < sugg.len() { limit } else { sugg.len() };
    sugg.truncate(n);
    assert(sugg@.map_values(|s: FileSuggestion| s@) =~= ranked.take(n as int).map_values(
        |c: Candidate| (c.1, c.2),
    ));
    sugg
}

} // verus!

verus! {

/// Candidates in ascending score order.
pub open spec fn sorted_by_score(s: Seq<Candidate>) -> bool {
    forall|i: int, j: int| 0 <= i < j < s.len() ==> #[trigger] s[i].0 <= #[trigger] s[j].0
}

/// The candidates whose score is `v`.
pub open spec fn scoring(v: int) -> spec_fn(Candidate) -> bool {
    |c: Candidate| c.0 == v
}

/// An entry that is not a dotfile.
pub open spec fn visible() -> spec_fn((Seq<char>, bool)) -> bool {
    |e: (Seq<char>, bool)| !is_hidden(e.0)
}

proof fn lemma_insert_by_score(s: Seq<Candidate>, c: Candidate)
    requires
        sorted_by_score(s),
    ensures
        sorted_by_score(insert_by_score(s, c)),
        insert_by_score(s, c).len() == s.len() + 1,
        insert_by_score(s, c).last().0 == (if s.len() == 0 || s.last().0 <= c.0 {
            c.0
        } else {
            s.last().0
        }),
        insert_by_score(s, c).to_multiset() == s.to_multiset().insert(c),
        forall|v: int|
            #[trigger] insert_by_score(s, c).filter(scoring(v)) == if c.0 == v {
                s.filter(scoring(v)).push(c)
            } else {
                s.filter(scoring(v))
            },
    decreases s.len(),
{
    broadcast use vstd::seq_lib::group_to_multiset_ensures;

    let r = insert_by_score(s, c);
    if s.len() == 0 {
        assert(r =~= Seq::<Candidate>::empty().push(c));
        assert forall|v: int| #[trigger] r.filter(scoring(v)) == if c.0 == v {
            s.filter(scoring(v)).push(c)
        } else {
            s.filter(scoring(v))
        } by {
            Seq::<Candidate>::empty().lemma_filter_push(c, scoring(v));
        }
    } else if s.last().0 <= c.0 {
        assert forall|i: int, j: int| 0 <= i < j < r.len() implies #[trigger] r[i].0
            <= #[trigger] r[j].0 by {
            if j == s.len() && i < s.len() - 1 {
                assert(s[i].0 <= s[s.len() - 1].0);
            }
        }
        assert forall|v: int| #[trigger] r.filter(scoring(v)) == if c.0 == v {
            s.filter(scoring(v)).push(c)
        } else {
            s.filter(scoring(v))
        } by {
            s.lemma_filter_push(c, scoring(v));
        }
    } else {
        let d = s.drop_last();
        let l = s.last();
        assert(sorted_by_score(d));
        lemma_insert_by_score(d, c);
        let t = insert_by_score(d, c);
        assert(r == t.push(l));
        assert(d.len() == 0 || d.last().0 <= l.0);
        assert forall|i: int, j: int| 0 <= i < j < r.len() implies #[trigger] r[i].0
            <= #[trigger] r[j].0 by {
            if j == r.len() - 1 && i < t.len() - 1 {
                assert(t[i].0 <= t[t.len() - 1].0);
            }
        }
        assert(s == d.push(l));
        assert(t.to_multiset().insert(l) =~= d.to_multiset().insert(l).insert(c));
        assert forall|v: int| #[trigger] r.filter(scoring(v)) == if c.0 == v {
            s.filter(scoring(v)).push(c)
        } else {
            s.filter(scoring(v))
        } by {
            t.lemma_filter_push(l, scoring(v));
            d.lemma_filter_push(l, scoring(v));
        }
    }
}

/// Ranking lists the candidates in ascending score order, keeps every
/// candidate exactly once, and keeps the listing order among candidates
/// with the same score.
pub proof fn law_ranking_is_stable_sort(cs: Seq<Candidate>)
    ensures
        sorted_by_score(sort_by_score(cs)),
        sort_by_score(cs).to_multiset() == cs.to_multiset(),
        forall|v: int| #[trigger] sort_by_score(cs).filter(scoring(v)) == cs.filter(scoring(v)),
    decreases cs.len(),
{
    broadcast use vstd::seq_lib::group_to_multiset_ensures;

    if cs.len() == 0 {
        assert forall|v: int| #[trigger] sort_by_score(cs).filter(scoring(v)) == cs.filter(
            scoring(v),
        ) by {
            reveal(Seq::filter);
        }
    } else {
        let d = cs.drop_last();
        law_ranking_is_stable_sort(d);
        lemma_insert_by_score(sort_by_score(d), cs.last());
        assert(cs == d.push(cs.last()));
        assert forall|v: int| #[trigger] sort_by_score(cs).filter(scoring(v)) == cs.filter(
            scoring(v),
        ) by {
            d.lemma_filter_push(cs.last(), scoring(v));
        }
    }
}

/// Never more suggestions than the limit.
pub proof fn law_at_most_limit(
    query: Seq<char>,
    listing: Option<Seq<(Seq<char>, bool)>>,
    limit: nat,
)
    ensures
        suggestions(query, listing, limit).len() <= limit,
{
}

/// An unreadable directory gives no suggestions.
pub proof fn law_unreadable_directory_is_empty(query: Seq<char>, limit: nat)
    ensures
        suggestions(query, None, limit) == Seq::<(Seq<char>, bool)>::empty(),
{
}

/// Unless the partial name starts with `.`, dotfiles are never offered:
/// the candidates are those of the listing with its dotfiles removed.
pub proof fn law_hidden_entries_withheld(
    dir: Seq<char>,
    file: Seq<char>,
    entries: Seq<(Seq<char>, bool)>,
)
    requires
        !is_hidden(file),
    ensures
        candidates(dir, file, entries) == candidates(dir, file, entries.filter(visible())),
    decreases entries.len(),
{
    if entries.len() == 0 {
        reveal(Seq::filter);
    } else {
        let d = entries.drop_last();
        law_hidden_entries_withheld(dir, file, d);
        assert(entries == d.push(entries.last()));
        d.lemma_filter_push(entries.last(), visible());
        if visible()(entries.last()) {
            let f = d.filter(visible());
            assert(f.push(entries.last()).drop_last() == f);
        }
    }
}

proof fn lemma_candidates_shape(dir: Seq<char>, file: Seq<char>, entries: Seq<(Seq<char>, bool)>)
    ensures
        forall|i: int|
            0 <= i < candidates(dir, file, entries).len() ==> {
                let c = #[trigger] candidates(dir, file, entries)[i];
                &&& c.1.len() >= dir.len()
                &&& c.1.take(dir.len() as int) == dir
                &&& c.2 ==> c.1.len() > 0 && c.1.last() == '/'
            },
    decreases entries.len(),
{
    if entries.len() > 0 {
        lemma_candidates_shape(dir, file, entries.drop_last());
        let name = entries.last().0;
        let is_dir = entries.last().1;
        let disp = display_of(dir, name, is_dir);
        assert(disp.take(dir.len() as int) =~= dir);
        if is_dir {
            assert(disp.last() == '/');
        }
        let prev = candidates(dir, file, entries.drop_last());
        let all = candidates(dir, file, entries);
        assert forall|i: int| 0 <= i < all.len() implies {
            let c = #[trigger] all[i];
            &&& c.1.len() >= dir.len()
            &&& c.1.take(dir.len() as int) == dir
            &&& c.2 ==> c.1.len() > 0 && c.1.last() == '/'
        } by {
            if i < prev.len() {
                assert(all[i] == prev[i]);
            }
        }
    }
}

/// Every suggestion starts with the query's directory prefix, and every
/// directory suggestion ends with `/`.
pub proof fn law_prefix_kept_and_directories_end_in_slash(
    query: Seq<char>,
    listing: Option<Seq<(Seq<char>, bool)>>,
    limit: nat,
)
    ensures
        forall|k: int|
            0 <= k < suggestions(query, listing, limit).len() ==> {
                let s = #[trigger] suggestions(query, listing, limit)[k];
                &&& s.0.take(dir_part(query).len() as int) == dir_part(query)
                &&& s.1 ==> s.0.len() > 0 && s.0.last() == '/'
            },
{
    broadcast use vstd::seq_lib::group_to_multiset_ensures;

    if let Some(entries) = listing {
        let dir = dir_part(query);
        let cs = candidates(dir, file_part(query), entries);
        let ranked = sort_by_score(cs);
        law_ranking_is_stable_sort(cs);
        lemma_candidates_shape(dir, file_part(query), entries);
        assert forall|k: int| 0 <= k < ranked.len() implies {
            let c = #[trigger] ranked[k];
            &&& c.1.take(dir.len() as int) == dir
            &&& c.2 ==> c.1.len() > 0 && c.1.last() == '/'
        } by {
            let c = ranked[k];
            assert(ranked.contains(c));
            assert(ranked.to_multiset().count(c) > 0);
            assert(cs.contains(c));
            let i = choose|i: int| 0 <= i < cs.len() && cs[i] == c;
            assert(cs[i] == c);
        }
    }
}

} // verus!

verus! {

/// A listed entry is offered and matched by the partial name.
pub open spec fn admitted(file: Seq<char>, e: (Seq<char>, bool)) -> bool {
    offered(file, e.0) && match_score(file, e.0) is Some
}

/// The candidate a listed entry gives: its score, display text and kind.
pub open spec fn entry_candidate(dir: Seq<char>, file: Seq<char>, e: (Seq<char>, bool)) -> Candidate {
    (match_score(file, e.0)->0, display_of(dir, e.0, e.1), e.1)
}

/// All candidates of a listing for a query, best first.
pub open spec fn ranking(query: Seq<char>, entries: Seq<(Seq<char>, bool)>) -> Seq<Candidate> {
    sort_by_score(candidates(dir_part(query), file_part(query), entries))
}

proof fn lemma_candidates_from_entries(
    dir: Seq<char>,
    file: Seq<char>,
    entries: Seq<(Seq<char>, bool)>,
)
    ensures
        forall|k: int|
            0 <= k < candidates(dir, file, entries).len() ==> exists|i: int|
                0 <= i < entries.len() && admitted(file, entries[i])
                    && #[trigger] candidates(dir, file, entries)[k] == entry_candidate(
                    dir,
                    file,
                    entries[i],
                ),
    decreases entries.len(),
{
    if entries.len() > 0 {
        let d = entries.drop_last();
        lemma_candidates_from_entries(dir, file, d);
        let prev = candidates(dir, file, d);
        let all = candidates(dir, file, entries);
        assert forall|k: int| 0 <= k < all.len() implies exists|i: int|
            0 <= i < entries.len() && admitted(file, entries[i]) && #[trigger] all[k]
                == entry_candidate(dir, file, entries[i]) by {
            if k < prev.len() {
                assert(all[k] == prev[k]);
                let i = choose|i: int|
                    0 <= i < d.len() && admitted(file, d[i]) && prev[k] == entry_candidate(
                        dir,
                        file,
                        d[i],
                    );
                assert(entries[i] == d[i]);
            } else {
                let i = entries.len() - 1;
                assert(entries[i] == entries.last());
            }
        }
    }
}

proof fn lemma_ranking_from_entries(query: Seq<char>, entries: Seq<(Seq<char>, bool)>)
    ensures
        forall|k: int|
            0 <= k < ranking(query, entries).len() ==> exists|i: int|
                0 <= i < entries.len() && admitted(file_part(query), entries[i])
                    && #[trigger] ranking(query, entries)[k] == entry_candidate(
                    dir_part(query),
                    file_part(query),
                    entries[i],
                ),
{
    broadcast use vstd::seq_lib::group_to_multiset_ensures;

    let dir = dir_part(query);
    let file = file_part(query);
    let cs = candidates(dir, file, entries);
    let r = ranking(query, entries);
    law_ranking_is_stable_sort(cs);
    lemma_candidates_from_entries(dir, file, entries);
    assert forall|k: int| 0 <= k < r.len() implies exists|i: int|
        0 <= i < entries.len() && admitted(file, entries[i]) && #[trigger] r[k] == entry_candidate(
            dir,
            file,
            entries[i],
        ) by {
        let c = r[k];
        assert(r.contains(c));
        assert(r.to_multiset().count(c) > 0);
        assert(cs.contains(c));
        let m = choose|m: int| 0 <= m < cs.len() && cs[m] == c;
        assert(cs[m] == c);
    }
}

/// The limit keeps the best: there are `min(limit, candidates)`
/// suggestions, they are the first entries of the ranking (which holds every
/// candidate once), and every candidate left out scores no better than every
/// one kept.
pub proof fn law_limit_keeps_the_best(
    query: Seq<char>,
    entries: Seq<(Seq<char>, bool)>,
    limit: nat,
)
    ensures
        ({
            let cs = candidates(dir_part(query), file_part(query), entries);
            let r = ranking(query, entries);
            let n = if limit < cs.len() { limit } else { cs.len() };
            &&& suggestions(query, Some(entries), limit).len() == n
            &&& r.to_multiset() == cs.to_multiset()
            &&& r.len() == cs.len()
            &&& forall|k: int|
                0 <= k < n ==> #[trigger] suggestions(query, Some(entries), limit)[k] == (
                    r[k].1,
                    r[k].2,
                )
            &&& forall|i: int, j: int| 0 <= i < n <= j < r.len() ==> #[trigger] r[i].0 <= #[trigger] r[j].0
        }),
{
    broadcast use vstd::seq_lib::group_to_multiset_ensures;

    let cs = candidates(dir_part(query), file_part(query), entries);
    let r = ranking(query, entries);
    let n = if limit < cs.len() { limit } else { cs.len() };
    law_ranking_is_stable_sort(cs);
    assert(r.len() == r.to_multiset().len());
    assert(cs.len() == cs.to_multiset().len());
    assert(r.len() == cs.len());
    let out = suggestions(query, Some(entries), limit);
    assert(out == r.take(n as int).map_values(|c: Candidate| (c.1, c.2)));
    assert(out.len() == n);
    assert forall|k: int| 0 <= k < n implies #[trigger] out[k] == (r[k].1, r[k].2) by {
        assert(r.take(n as int)[k] == r[k]);
    }
}

/// Each suggestion is built from one listed entry that the partial name
/// admits (its display is the prefix, the name and, for a directory, a
/// `/`), and the suggestions run from best to worst by those entries'
/// scores.
pub proof fn law_suggestions_come_from_entries(
    query: Seq<char>,
    entries: Seq<(Seq<char>, bool)>,
    limit: nat,
)
    ensures
        forall|k: int|
            0 <= k < suggestions(query, Some(entries), limit).len() ==> exists|i: int|
                0 <= i < entries.len() && admitted(file_part(query), entries[i])
                    && ranking(query, entries)[k] == entry_candidate(
                    dir_part(query),
                    file_part(query),
                    entries[i],
                ) && #[trigger] suggestions(query, Some(entries), limit)[k] == (
                    display_of(dir_part(query), entries[i].0, entries[i].1),
                    entries[i].1,
                ),
        forall|a: int, b: int|
            0 <= a < b < suggestions(query, Some(entries), limit).len() ==> #[trigger] ranking(
                query,
                entries,
            )[a].0 <= #[trigger] ranking(query, entries)[b].0,
{
    let cs = candidates(dir_part(query), file_part(query), entries);
    let r = ranking(query, entries);
    let out = suggestions(query, Some(entries), limit);
    law_ranking_is_stable_sort(cs);
    law_limit_keeps_the_best(query, entries, limit);
    lemma_ranking_from_entries(query, entries);
    assert forall|k: int| 0 <= k < out.len() implies exists|i: int|
        0 <= i < entries.len() && admitted(file_part(query), entries[i]) && r[k] == entry_candidate(
            dir_part(query),
            file_part(query),
            entries[i],
        ) && #[trigger] out[k] == (display_of(dir_part(query), entries[i].0, entries[i].1), entries[i].1) by {
        assert(r[k] == r[k]);
        assert(out[k] == (r[k].1, r[k].2));
    }
}

/// Unless the partial name starts with `.`, no suggestion names a dotfile:
/// what follows the directory prefix never starts with `.`.
pub proof fn law_no_dotfiles_in_output(
    query: Seq<char>,
    entries: Seq<(Seq<char>, bool)>,
    limit: nat,
)
    requires
        !is_hidden(file_part(query)),
    ensures
        forall|k: int|
            0 <= k < suggestions(query, Some(entries), limit).len() ==> !is_hidden(
                (#[trigger] suggestions(query, Some(entries), limit)[k]).0.skip(
                    dir_part(query).len() as int,
                ),
            ),
{
    let dir = dir_part(query);
    let out = suggestions(query, Some(entries), limit);
    law_suggestions_come_from_entries(query, entries, limit);
    assert forall|k: int| 0 <= k < out.len() implies !is_hidden(
        (#[trigger] out[k]).0.skip(dir.len() as int),
    ) by {
        let i = choose|i: int|
            0 <= i < entries.len() && admitted(file_part(query), entries[i]) && ranking(
                query,
                entries,
            )[k] == entry_candidate(dir, file_part(query), entries[i]) && out[k] == (
                display_of(dir, entries[i].0, entries[i].1),
                entries[i].1,
            );
        let name = entries[i].0;
        let rest = out[k].0.skip(dir.len() as int);
        if entries[i].1 {
            assert(rest =~= name + seq!['/']);
        } else {
            assert(rest =~= name);
        }
        if name.len() > 0 {
            assert(rest[0] == name[0]);
        }
    }
}

} // verus!

verus! {

/// No two entries of a listing share a name.
pub open spec fn distinct_names(entries: Seq<(Seq<char>, bool)>) -> bool {
    forall|i: int, j: int| 0 <= i < j < entries.len() ==> #[trigger] entries[i].0 != #[trigger] entries[j].0
}

/// No entry name holds a `/` (as in a real directory listing).
pub open spec fn slash_free(entries: Seq<(Seq<char>, bool)>) -> bool {
    forall|i: int, k: int| 0 <= i < entries.len() && 0 <= k < entries[i].0.len() ==> #[trigger] entries[i].0[k] != '/'
}

proof fn lemma_display_injective(dir: Seq<char>, n1: Seq<char>, d1: bool, n2: Seq<char>, d2: bool)
    requires
        forall|k: int| 0 <= k < n1.len() ==> #[trigger] n1[k] != '/',
        forall|k: int| 0 <= k < n2.len() ==> #[trigger] n2[k] != '/',
        display_of(dir, n1, d1) == display_of(dir, n2, d2),
    ensures
        n1 == n2,
        d1 == d2,
{
    let x = display_of(dir, n1, d1);
    let t1 = if d1 { n1.push('/') } else { n1 };
    let t2 = if d2 { n2.push('/') } else { n2 };
    assert(x.skip(dir.len() as int) =~= t1);
    assert(display_of(dir, n2, d2).skip(dir.len() as int) =~= t2);
    assert(t1 == t2);
    if d1 && !d2 {
        assert(n2[n2.len() - 1] == t1[t1.len() - 1]);
    } else if !d1 && d2 {
        assert(n1[n1.len() - 1] == t2[t2.len() - 1]);
    } else if d1 && d2 {
        assert(n1 =~= t1.drop_last());
        assert(n2 =~= t2.drop_last());
    }
}

proof fn lemma_candidates_no_duplicates(
    dir: Seq<char>,
    file: Seq<char>,
    entries: Seq<(Seq<char>, bool)>,
)
    requires
        distinct_names(entries),
        slash_free(entries),
    ensures
        candidates(dir, file, entries).no_duplicates(),
    decreases entries.len(),
{
    if entries.len() > 0 {
        let d = entries.drop_last();
        let l = entries.last();
        assert(distinct_names(d)) by {
            assert forall|i: int, j: int| 0 <= i < j < d.len() implies #[trigger] d[i].0
                != #[trigger] d[j].0 by {
                assert(d[i] == entries[i] && d[j] == entries[j]);
            }
        }
        assert(slash_free(d)) by {
            assert forall|i: int, k: int| 0 <= i < d.len() && 0 <= k < d[i].0.len() implies #[trigger] d[i].0[k]
                != '/' by {
                assert(d[i] == entries[i]);
            }
        }
        lemma_candidates_no_duplicates(dir, file, d);
        lemma_candidates_from_entries(dir, file, d);
        let prev = candidates(dir, file, d);
        if admitted(file, l) {
            let c = entry_candidate(dir, file, l);
            let all = prev.push(c);
            assert(candidates(dir, file, entries) == all);
            assert forall|k: int| 0 <= k < prev.len() implies #[trigger] prev[k] != c by {
                let i = choose|i: int|
                    0 <= i < d.len() && admitted(file, d[i]) && prev[k] == entry_candidate(
                        dir,
                        file,
                        d[i],
                    );
                if prev[k] == c {
                    assert(d[i] == entries[i]);
                    assert(forall|q: int| 0 <= q < d[i].0.len() ==> #[trigger] d[i].0[q] != '/');
                    assert(forall|q: int| 0 <= q < l.0.len() ==> #[trigger] l.0[q] != '/') by {
                        assert(l == entries[entries.len() - 1]);
                    }
                    lemma_display_injective(dir, d[i].0, d[i].1, l.0, l.1);
                    assert(entries[i].0 != entries[entries.len() - 1].0);
                }
            }
            assert forall|a: int, b: int|
                0 <= a < all.len() && 0 <= b < all.len() && a != b implies all[a] != all[b] by {
                if a < prev.len() && b < prev.len() {
                    assert(all[a] == prev[a] && all[b] == prev[b]);
                } else if a < prev.len() {
                    assert(all[a] == prev[a]);
                } else if b < prev.len() {
                    assert(all[b] == prev[b]);
                }
            }
        }
    }
}

/// For a listing of distinct names without `/` (as a directory has), no
/// two suggestions share a display text.
pub proof fn law_displays_distinct(
    query: Seq<char>,
    entries: Seq<(Seq<char>, bool)>,
    limit: nat,
)
    requires
        distinct_names(entries),
        slash_free(entries),
    ensures
        forall|a: int, b: int|
            0 <= a < b < suggestions(query, Some(entries), limit).len() ==> (#[trigger] suggestions(
                query,
                Some(entries),
                limit,
            )[a]).0 != (#[trigger] suggestions(query, Some(entries), limit)[b]).0,
{
    let dir = dir_part(query);
    let file = file_part(query);
    let cs = candidates(dir, file, entries);
    let r = ranking(query, entries);
    let out = suggestions(query, Some(entries), limit);
    lemma_candidates_no_duplicates(dir, file, entries);
    law_ranking_is_stable_sort(cs);
    cs.lemma_multiset_has_no_duplicates();
    r.lemma_multiset_has_no_duplicates_conv();
    law_limit_keeps_the_best(query, entries, limit);
    law_suggestions_come_from_entries(query, entries, limit);
    assert forall|a: int, b: int| 0 <= a < b < out.len() implies (#[trigger] out[a]).0
        != (#[trigger] out[b]).0 by {
        let i = choose|i: int|
            0 <= i < entries.len() && admitted(file, entries[i]) && r[a] == entry_candidate(
                dir,
                file,
                entries[i],
            ) && out[a] == (display_of(dir, entries[i].0, entries[i].1), entries[i].1);
        let j = choose|j: int|
            0 <= j < entries.len() && admitted(file, entries[j]) && r[b] == entry_candidate(
                dir,
                file,
                entries[j],
            ) && out[b] == (display_of(dir, entries[j].0, entries[j].1), entries[j].1);
        if out[a].0 == out[b].0 {
            assert(forall|q: int| 0 <= q < entries[i].0.len() ==> #[trigger] entries[i].0[q] != '/');
            assert(forall|q: int| 0 <= q < entries[j].0.len() ==> #[trigger] entries[j].0[q] != '/');
            lemma_display_injective(dir, entries[i].0, entries[i].1, entries[j].0, entries[j].1);
            if i != j {
                if i < j {
                    assert(entries[i].0 != entries[j].0);
                } else {
                    assert(entries[j].0 != entries[i].0);
                }
            }
            assert(r[a] == r[b]);
            assert(r.len() == cs.len());
        }
    }
}

} // verus!

verus! {

proof fn lemma_candidates_hold_admitted(
    dir: Seq<char>,
    file: Seq<char>,
    entries: Seq<(Seq<char>, bool)>,
    i: int,
)
    requires
        0 <= i < entries.len(),
        admitted(file, entries[i]),
    ensures
        candidates(dir, file, entries).contains(entry_candidate(dir, file, entries[i])),
        candidates(dir, file, entries).len() <= entries.len(),
    decreases entries.len(),
{
    let d = entries.drop_last();
    let prev = candidates(dir, file, d);
    let all = candidates(dir, file, entries);
    if i == entries.len() - 1 {
        lemma_candidates_len(dir, file, d);
        assert(all == prev.push(entry_candidate(dir, file, entries[i])));
        assert(all[prev.len() as int] == entry_candidate(dir, file, entries[i]));
    } else {
        assert(d[i] == entries[i]);
        lemma_candidates_hold_admitted(dir, file, d, i);
        let k = choose|k: int| 0 <= k < prev.len() && prev[k] == entry_candidate(dir, file, d[i]);
        if admitted(file, entries.last()) {
            assert(all == prev.push(entry_candidate(dir, file, entries.last())));
            assert(all[k] == prev[k]);
        } else {
            assert(all == prev);
        }
    }
}

proof fn lemma_candidates_len(dir: Seq<char>, file: Seq<char>, entries: Seq<(Seq<char>, bool)>)
    ensures
        candidates(dir, file, entries).len() <= entries.len(),
    decreases entries.len(),
{
    if entries.len() > 0 {
        lemma_candidates_len(dir, file, entries.drop_last());
    }
}

/// Given room for the whole listing, every entry that the partial name
/// fuzzy-matches is suggested, unless it is a dotfile and the partial name
/// does not start with `.` (names starting with `_` or anything else are
/// offered like any other). Its suggestion is the directory prefix, the
/// name and, for a directory, a `/`.
pub proof fn law_suggest_complete(
    query: Seq<char>,
    entries: Seq<(Seq<char>, bool)>,
    limit: nat,
    i: int,
)
    requires
        0 <= i < entries.len(),
        limit >= entries.len(),
        entries[i].0.len() == 0 || entries[i].0[0] != '.' || (file_part(query).len() > 0
            && file_part(query)[0] == '.'),
        match_score(file_part(query), entries[i].0) is Some,
    ensures
        exists|k: int|
            0 <= k < suggestions(query, Some(entries), limit).len() && #[trigger] suggestions(
                query,
                Some(entries),
                limit,
            )[k] == (
                dir_part(query) + entries[i].0 + (if entries[i].1 {
                    seq!['/']
                } else {
                    Seq::<char>::empty()
                }),
                entries[i].1,
            ),
{
    broadcast use vstd::seq_lib::group_to_multiset_ensures;

    let dir = dir_part(query);
    let file = file_part(query);
    let cs = candidates(dir, file, entries);
    let r = ranking(query, entries);
    let out = suggestions(query, Some(entries), limit);
    let e = entries[i];
    assert(admitted(file, e));
    lemma_candidates_hold_admitted(dir, file, entries, i);
    let c = entry_candidate(dir, file, e);
    law_limit_keeps_the_best(query, entries, limit);
    assert(cs.to_multiset().count(c) > 0);
    assert(r.contains(c));
    let k = choose|k: int| 0 <= k < r.len() && r[k] == c;
    assert(out[k] == (r[k].1, r[k].2));
    let expected = dir + e.0 + (if e.1 { seq!['/'] } else { Seq::<char>::empty() });
    assert(display_of(dir, e.0, e.1) =~= expected);
    assert(out[k] == (expected, e.1));
}

/// Only dotfiles are ever withheld: an entry whose name does not start with
/// `.` is offered for every partial name.
pub proof fn law_only_dotfiles_withheld(file: Seq<char>, name: Seq<char>)
    requires
        name.len() == 0 || name[0] != '.',
    ensures
        offered(file, name),
{
}

} // verus!

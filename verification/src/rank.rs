//! Matching and ranking: score every index entry against the query, keep the
//! matches, and order them by descending score. Ties keep scan order (the
//! sort is stable), which is this crate's documented tie-break; descriptor
//! entries get a fixed bias so they outrank equally-scoring raw executables.

use vstd::prelude::*;
use vstd::string::*;

use crate::fuzzy::{
    fuzzy_indices, is_subsequence, lemma_accept_implies_folded_subsequence, skim_accepts,
    skim_match,
};
use crate::state::{models, ResultModel, SearchResult, SourceKind};
use crate::strutil::{file_stem, spec_file_stem};

verus! {

/// The fixed bias added to the fuzzy score of descriptor-sourced entries.
pub const DESCRIPTOR_BIAS: i64 = 1000;

/// The searchable text of an entry: its display name, one space, and the file
/// stem of its origin path (the name alone when the path has no stem), so a
/// query can hit either the human label or the underlying file name.
pub open spec fn spec_searchable(m: ResultModel) -> Seq<char> {
    match spec_file_stem(m.path) {
        Some(st) => m.name + seq![' '] + st,
        None => m.name,
    }
}

/// The searchable text of an entry, per [`spec_searchable`].
pub fn searchable_text(r: &SearchResult) -> (t: String)
    ensures
        t@ == spec_searchable(r@),
{
    match file_stem(r.path.as_str()) {
        Some(st) => {
            let mut t = r.name.clone();
            t.append(" ");
            t.append(st.as_str());
            proof {
                reveal_strlit(" ");
                assert(t@ =~= r@.name + seq![' '] + st@);
            }
            t
        },
        None => r.name.clone(),
    }
}

/// The score an entry is ranked by: the raw fuzzy score, plus the fixed bias
/// when the entry came from a descriptor (saturating at the top of the
/// range).
pub open spec fn biased_score(raw: i64, source: SourceKind) -> i64 {
    if source == SourceKind::DesktopDescriptor {
        if raw <= i64::MAX - DESCRIPTOR_BIAS {
            (raw + DESCRIPTOR_BIAS) as i64
        } else {
            i64::MAX
        }
    } else {
        raw
    }
}

fn bias_score(raw: i64, source: SourceKind) -> (b: i64)
    ensures
        b == biased_score(raw, source),
{
    match source {
        SourceKind::DesktopDescriptor => {
            if raw <= i64::MAX - DESCRIPTOR_BIAS {
                raw + DESCRIPTOR_BIAS
            } else {
                i64::MAX
            }
        },
        SourceKind::RawExecutable => raw,
    }
}

/// What ranking makes of one entry: `None` when the matcher rejects its
/// searchable text, otherwise the entry with its ephemeral fields set to the
/// biased score and the matched positions.
pub open spec fn spec_match_entry(m: ResultModel, q: Seq<char>) -> Option<ResultModel> {
    if skim_accepts(spec_searchable(m), q) {
        let sm = skim_match(spec_searchable(m), q);
        Some(
            ResultModel {
                score: biased_score(sm.0, m.source),
                indices: sm.1,
                selected: false,
                ..m
            },
        )
    } else {
        None
    }
}

/// The matching entries of the index, in scan order, each carrying its score.
pub open spec fn spec_matches(cache: Seq<ResultModel>, q: Seq<char>) -> Seq<ResultModel>
    decreases cache.len(),
{
    if cache.len() == 0 {
        Seq::empty()
    } else {
        match_tail(cache[0], q) + spec_matches(cache.drop_first(), q)
    }
}

/// What one entry contributes to the match list.
pub open spec fn match_tail(m: ResultModel, q: Seq<char>) -> Seq<ResultModel> {
    match spec_match_entry(m, q) {
        Some(d) => seq![d],
        None => Seq::<ResultModel>::empty(),
    }
}

proof fn lemma_spec_matches_push(cache: Seq<ResultModel>, q: Seq<char>, m: ResultModel)
    ensures
        spec_matches(cache.push(m), q) == spec_matches(cache, q) + match_tail(m, q),
    decreases cache.len(),
{
    let pushed = cache.push(m);
    if cache.len() == 0 {
        assert(pushed.drop_first() =~= Seq::<ResultModel>::empty());
        assert(pushed[0] == m);
        assert(spec_matches(pushed.drop_first(), q) == Seq::<ResultModel>::empty());
        assert(spec_matches(pushed, q) == match_tail(m, q) + spec_matches(
            pushed.drop_first(),
            q,
        ));
        assert(spec_matches(cache, q) == Seq::<ResultModel>::empty());
        assert(spec_matches(pushed, q) =~= spec_matches(cache, q) + match_tail(m, q));
    } else {
        assert(pushed.drop_first() =~= cache.drop_first().push(m));
        assert(pushed[0] == cache[0]);
        lemma_spec_matches_push(cache.drop_first(), q, m);
        assert(spec_matches(pushed.drop_first(), q) == spec_matches(cache.drop_first(), q)
            + match_tail(m, q));
        assert(spec_matches(pushed, q) == match_tail(cache[0], q) + spec_matches(
            pushed.drop_first(),
            q,
        ));
        assert(spec_matches(cache, q) == match_tail(cache[0], q) + spec_matches(
            cache.drop_first(),
            q,
        ));
        assert(spec_matches(pushed, q) =~= spec_matches(cache, q) + match_tail(m, q));
    }
}

/// Insertion of one entry into a descending-sorted sequence: it goes before
/// the first entry whose score does not exceed its own, so among equal scores
/// the inserted (earlier-scanned) entry comes first.
pub open spec fn spec_insert_desc(m: ResultModel, s: Seq<ResultModel>) -> Seq<ResultModel>
    decreases s.len(),
{
    if s.len() == 0 {
        seq![m]
    } else if m.score >= s[0].score {
        seq![m] + s
    } else {
        seq![s[0]] + spec_insert_desc(m, s.drop_first())
    }
}

/// Stable insertion sort by descending score.
pub open spec fn spec_sort_desc(s: Seq<ResultModel>) -> Seq<ResultModel>
    decreases s.len(),
{
    if s.len() == 0 {
        Seq::empty()
    } else {
        spec_insert_desc(s[0], spec_sort_desc(s.drop_first()))
    }
}

/// Scores descending along the sequence.
pub open spec fn sorted_desc(s: Seq<ResultModel>) -> bool {
    forall|i: int, j: int| 0 <= i < j < s.len() ==> s[i].score >= s[j].score
}

pub proof fn lemma_insert_desc_len(m: ResultModel, s: Seq<ResultModel>)
    ensures
        spec_insert_desc(m, s).len() == s.len() + 1,
    decreases s.len(),
{
    if s.len() > 0 && m.score < s[0].score {
        lemma_insert_desc_len(m, s.drop_first());
    }
}

/// Everything in the inserted sequence is the new entry or one of the old.
pub proof fn lemma_insert_desc_members(m: ResultModel, s: Seq<ResultModel>)
    ensures
        spec_insert_desc(m, s).contains(m),
        forall|x: ResultModel| s.contains(x) ==> #[trigger] spec_insert_desc(m, s).contains(x),
        forall|x: ResultModel|
            #[trigger] spec_insert_desc(m, s).contains(x) ==> x == m || s.contains(x),
    decreases s.len(),
{
    let out = spec_insert_desc(m, s);
    if s.len() == 0 {
        assert(out[0] == m);
    } else if m.score >= s[0].score {
        assert(out[0] == m);
        assert forall|x: ResultModel| s.contains(x) implies #[trigger] out.contains(x) by {
            let i = choose|i: int| 0 <= i < s.len() && s[i] == x;
            assert(out[i + 1] == x);
        }
        assert forall|x: ResultModel| #[trigger] out.contains(x) implies x == m || s.contains(x) by {
            let i = choose|i: int| 0 <= i < out.len() && out[i] == x;
            if i > 0 {
                assert(s[i - 1] == x);
            }
        }
    } else {
        lemma_insert_desc_members(m, s.drop_first());
        let rest = spec_insert_desc(m, s.drop_first());
        assert(out[0] == s[0]);
        assert forall|x: ResultModel| s.contains(x) implies #[trigger] out.contains(x) by {
            let i = choose|i: int| 0 <= i < s.len() && s[i] == x;
            if i == 0 {
                assert(out[0] == x);
            } else {
                assert(s.drop_first()[i - 1] == x);
                assert(rest.contains(x));
                let j = choose|j: int| 0 <= j < rest.len() && rest[j] == x;
                assert(out[j + 1] == x);
            }
        }
        assert(rest.contains(m));
        let j = choose|j: int| 0 <= j < rest.len() && rest[j] == m;
        assert(out[j + 1] == m);
        assert forall|x: ResultModel| #[trigger] out.contains(x) implies x == m || s.contains(x) by {
            let i = choose|i: int| 0 <= i < out.len() && out[i] == x;
            if i == 0 {
                assert(s[0] == x);
            } else {
                assert(rest[i - 1] == x);
                assert(rest.contains(x));
                if x != m {
                    assert(s.drop_first().contains(x));
                    let k = choose|k: int| 0 <= k < s.drop_first().len() && s.drop_first()[k] == x;
                    assert(s[k + 1] == x);
                }
            }
        }
    }
}

pub proof fn lemma_insert_desc_sorted(m: ResultModel, s: Seq<ResultModel>)
    requires
        sorted_desc(s),
    ensures
        sorted_desc(spec_insert_desc(m, s)),
    decreases s.len(),
{
    let out = spec_insert_desc(m, s);
    if s.len() == 0 {
    } else if m.score >= s[0].score {
        assert forall|i: int, j: int| 0 <= i < j < out.len() implies out[i].score >= out[j].score by {
            if i > 0 {
                assert(out[i] == s[i - 1] && out[j] == s[j - 1]);
            } else {
                assert(out[j] == s[j - 1]);
                if j > 1 {
                    assert(s[0].score >= s[j - 1].score);
                }
            }
        }
    } else {
        lemma_insert_desc_sorted(m, s.drop_first());
        lemma_insert_desc_members(m, s.drop_first());
        lemma_insert_desc_len(m, s.drop_first());
        let rest = spec_insert_desc(m, s.drop_first());
        assert forall|i: int, j: int| 0 <= i < j < out.len() implies out[i].score >= out[j].score by {
            if i > 0 {
                assert(out[i] == rest[i - 1] && out[j] == rest[j - 1]);
            } else {
                assert(out[j] == rest[j - 1]);
                assert(rest.contains(rest[j - 1]));
                if rest[j - 1] == m {
                    assert(s[0].score >= m.score);
                } else {
                    assert(s.drop_first().contains(rest[j - 1]));
                    let k = choose|k: int|
                        0 <= k < s.drop_first().len() && s.drop_first()[k] == rest[j - 1];
                    assert(s[k + 1] == rest[j - 1]);
                }
            }
        }
    }
}

pub proof fn lemma_sort_desc_sorted(s: Seq<ResultModel>)
    ensures
        sorted_desc(spec_sort_desc(s)),
    decreases s.len(),
{
    if s.len() > 0 {
        lemma_sort_desc_sorted(s.drop_first());
        lemma_insert_desc_sorted(s[0], spec_sort_desc(s.drop_first()));
    }
}

/// Sorting neither invents nor loses entries.
pub proof fn lemma_sort_desc_members(s: Seq<ResultModel>)
    ensures
        forall|x: ResultModel| s.contains(x) <==> #[trigger] spec_sort_desc(s).contains(x),
    decreases s.len(),
{
    if s.len() > 0 {
        lemma_sort_desc_members(s.drop_first());
        lemma_insert_desc_members(s[0], spec_sort_desc(s.drop_first()));
        assert forall|x: ResultModel| s.contains(x) implies #[trigger] spec_sort_desc(s).contains(
            x,
        ) by {
            let i = choose|i: int| 0 <= i < s.len() && s[i] == x;
            if i > 0 {
                assert(s.drop_first()[i - 1] == x);
            }
        }
        assert forall|x: ResultModel| #[trigger] spec_sort_desc(s).contains(x) implies s.contains(
            x,
        ) by {
            if x != s[0] {
                assert(s.drop_first().contains(x));
                let k = choose|k: int| 0 <= k < s.drop_first().len() && s.drop_first()[k] == x;
                assert(s[k + 1] == x);
            } else {
                assert(s[0] == x);
            }
        }
    }
}

/// The full ranking of an index against a query: the matching entries,
/// scored, stably sorted by descending score.
pub open spec fn spec_rank(cache: Seq<ResultModel>, q: Seq<char>) -> Seq<ResultModel> {
    spec_sort_desc(spec_matches(cache, q))
}

fn insert_desc(out: &mut Vec<SearchResult>, e: SearchResult)
    ensures
        models(final(out)@) == spec_insert_desc(e@, models(old(out)@)),
{
    let ghost ms = models(old(out)@);
    let mut j: usize = 0;
    while j < out.len() && out[j].score > e.score
        invariant
            0 <= j <= out.len(),
            ms == models(out@),
            *out == *old(out),
            forall|k: int| 0 <= k < j ==> ms[k].score > e@.score,
        decreases out.len() - j,
    {
        assert(ms[j as int] == out@[j as int]@);
        j = j + 1;
    }
    proof {
        if j < out.len() {
            assert(ms[j as int] == out@[j as int]@);
        }
        lemma_insert_desc_at(e@, ms, j as int);
    }
    out.insert(j, e);
    proof {
        assert(models(out@) =~= ms.take(j as int) + seq![e@] + ms.skip(j as int));
    }
}

proof fn lemma_insert_desc_at(m: ResultModel, s: Seq<ResultModel>, j: int)
    requires
        0 <= j <= s.len(),
        forall|k: int| 0 <= k < j ==> s[k].score > m.score,
        j < s.len() ==> m.score >= s[j].score,
    ensures
        spec_insert_desc(m, s) == s.take(j) + seq![m] + s.skip(j),
    decreases j,
{
    if j == 0 {
        if s.len() == 0 {
            assert(spec_insert_desc(m, s) =~= s.take(0) + seq![m] + s.skip(0));
        } else {
            assert(spec_insert_desc(m, s) =~= s.take(0) + seq![m] + s.skip(0));
        }
    } else {
        assert(s[0].score > m.score);
        lemma_insert_desc_at(m, s.drop_first(), j - 1);
        assert(seq![s[0]] + (s.drop_first().take(j - 1) + seq![m] + s.drop_first().skip(j - 1))
            =~= s.take(j) + seq![m] + s.skip(j));
    }
}

fn sort_desc(v: &Vec<SearchResult>) -> (out: Vec<SearchResult>)
    ensures
        models(out@) == spec_sort_desc(models(v@)),
{
    let mut out: Vec<SearchResult> = Vec::new();
    let mut i: usize = v.len();
    proof {
        assert(models(v@).skip(i as int) =~= Seq::<ResultModel>::empty());
        assert(models(out@) =~= Seq::<ResultModel>::empty());
    }
    while i > 0
        invariant
            0 <= i <= v.len(),
            models(out@) == spec_sort_desc(models(v@).skip(i as int)),
        decreases i,
    {
        let ghost before = models(v@).skip(i as int);
        i = i - 1;
        let e = v[i].clone();
        proof {
            assert(models(v@).skip(i as int).drop_first() =~= before);
            assert(models(v@).skip(i as int)[0] == v@[i as int]@);
        }
        insert_desc(&mut out, e);
    }
    proof {
        assert(models(v@).skip(0) =~= models(v@));
    }
    out
}

/// Rank the whole index against a query: every entry whose searchable text
/// the matcher accepts appears exactly once, carrying its biased score and
/// matched positions, ordered by descending score with scan order as the
/// tie-break.
pub fn rank(cache: &Vec<SearchResult>, query: &str) -> (r: Vec<SearchResult>)
    ensures
        models(r@) == spec_rank(models(cache@), query@),
{
    let mut matched: Vec<SearchResult> = Vec::new();
    let mut i: usize = 0;
    proof {
        assert(models(cache@).take(0) =~= Seq::<ResultModel>::empty());
        assert(models(matched@) =~= spec_matches(models(cache@).take(0), query@));
    }
    while i < cache.len()
        invariant
            0 <= i <= cache.len(),
            models(matched@) == spec_matches(models(cache@).take(i as int), query@),
        decreases cache.len() - i,
    {
        let entry = &cache[i];
        let text = searchable_text(entry);
        let ghost prefix = models(cache@).take(i as int);
        match fuzzy_indices(text.as_str(), query) {
            Some((raw, indices)) => {
                let mut e = entry.clone();
                e.score = bias_score(raw, e.source);
                e.indices = indices;
                e.selected = false;
                proof {
                    assert(spec_match_entry(cache@[i as int]@, query@) == Some(e@));
                }
                matched.push(e);
            },
            None => {
                proof {
                    assert(spec_match_entry(cache@[i as int]@, query@) is None);
                }
            },
        }
        proof {
            lemma_spec_matches_push(prefix, query@, cache@[i as int]@);
            assert(models(cache@).take(i + 1) =~= prefix.push(cache@[i as int]@));
            assert(models(matched@) =~= spec_matches(models(cache@).take(i + 1), query@));
        }
        i = i + 1;
    }
    proof {
        assert(models(cache@).take(cache@.len() as int) =~= models(cache@));
    }
    sort_desc(&matched)
}

/// Ranking-bias law: when a descriptor-sourced entry and a raw executable
/// share one searchable text and the matcher accepts it, every ranking places
/// the descriptor entry before the executable. (The one excluded input is a
/// raw fuzzy score at the very top of the `i64` range, where the saturating
/// bias cannot raise it further.)
pub proof fn lemma_ranking_bias(cache: Seq<ResultModel>, q: Seq<char>, i: int, j: int)
    requires
        0 <= i < cache.len(),
        0 <= j < cache.len(),
        cache[i].source == SourceKind::DesktopDescriptor,
        cache[j].source == SourceKind::RawExecutable,
        spec_searchable(cache[i]) == spec_searchable(cache[j]),
        skim_accepts(spec_searchable(cache[i]), q),
        skim_match(spec_searchable(cache[i]), q).0 < i64::MAX,
    ensures
        spec_rank(cache, q).contains(spec_match_entry(cache[i], q)->Some_0),
        spec_rank(cache, q).contains(spec_match_entry(cache[j], q)->Some_0),
        forall|p: int, r: int|
            0 <= p < spec_rank(cache, q).len() && 0 <= r < spec_rank(cache, q).len()
                && #[trigger] spec_rank(cache, q)[p] == spec_match_entry(cache[i], q)->Some_0
                && #[trigger] spec_rank(cache, q)[r] == spec_match_entry(cache[j], q)->Some_0
                ==> p < r,
{
    let di = spec_match_entry(cache[i], q)->Some_0;
    let dj = spec_match_entry(cache[j], q)->Some_0;
    let raw = skim_match(spec_searchable(cache[i]), q).0;
    assert(di.score == biased_score(raw, SourceKind::DesktopDescriptor));
    assert(dj.score == biased_score(raw, SourceKind::RawExecutable));
    assert(di.score > dj.score);
    lemma_spec_matches_contains(cache, q, i);
    lemma_spec_matches_contains(cache, q, j);
    lemma_sort_desc_members(spec_matches(cache, q));
    lemma_sort_desc_sorted(spec_matches(cache, q));
    let out = spec_rank(cache, q);
    assert forall|p: int, r: int|
        0 <= p < out.len() && 0 <= r < out.len() && #[trigger] out[p] == di && #[trigger] out[r]
            == dj implies p < r by {
        assert(di != dj);
        if p > r {
            assert(out[r].score >= out[p].score);
        }
    }
}

/// Every entry that matches appears among the matches.
pub proof fn lemma_spec_matches_contains(cache: Seq<ResultModel>, q: Seq<char>, i: int)
    requires
        0 <= i < cache.len(),
        spec_match_entry(cache[i], q) is Some,
    ensures
        spec_matches(cache, q).contains(spec_match_entry(cache[i], q)->Some_0),
    decreases cache.len(),
{
    let d = spec_match_entry(cache[i], q)->Some_0;
    if i == 0 {
        assert(spec_matches(cache, q)[0] == d);
    } else {
        lemma_spec_matches_contains(cache.drop_first(), q, i - 1);
        let rest = spec_matches(cache.drop_first(), q);
        let k = choose|k: int| 0 <= k < rest.len() && rest[k] == d;
        match spec_match_entry(cache[0], q) {
            Some(m) => {
                assert(spec_matches(cache, q)[k + 1] == d);
            },
            None => {
                assert(spec_matches(cache, q)[k] == d);
            },
        }
    }
}

/// Every ranked entry came from a matching index entry.
pub proof fn lemma_spec_matches_accepted(cache: Seq<ResultModel>, q: Seq<char>)
    ensures
        forall|x: ResultModel|
            #[trigger] spec_matches(cache, q).contains(x) ==> skim_accepts(spec_searchable(x), q),
    decreases cache.len(),
{
    if cache.len() > 0 {
        lemma_spec_matches_accepted(cache.drop_first(), q);
        let rest = spec_matches(cache.drop_first(), q);
        assert forall|x: ResultModel| #[trigger] spec_matches(cache, q).contains(x)
            implies skim_accepts(spec_searchable(x), q) by {
            match spec_match_entry(cache[0], q) {
                Some(m) => {
                    let k = choose|k: int|
                        0 <= k < spec_matches(cache, q).len() && spec_matches(cache, q)[k] == x;
                    if k == 0 {
                        assert(x == m);
                        assert(spec_searchable(m) == spec_searchable(cache[0]));
                    } else {
                        assert(rest[k - 1] == x);
                        assert(rest.contains(x));
                    }
                },
                None => {
                    assert(rest.contains(x));
                },
            }
        }
    }
}

/// Subsequence-invariant law: ranking never returns an entry whose searchable
/// text does not contain the query characters as an ordered subsequence
/// (ASCII-case-folded).
pub proof fn lemma_subsequence_invariant(cache: Seq<ResultModel>, q: Seq<char>, k: int)
    requires
        0 <= k < spec_rank(cache, q).len(),
    ensures
        is_subsequence(q, spec_searchable(spec_rank(cache, q)[k]), false),
{
    let out = spec_rank(cache, q);
    let x = out[k];
    assert(out.contains(x));
    lemma_sort_desc_members(spec_matches(cache, q));
    lemma_spec_matches_accepted(cache, q);
    assert(skim_accepts(spec_searchable(x), q));
    if q.len() > 0 {
        lemma_accept_implies_folded_subsequence(spec_searchable(x), q);
    }
}

} // verus!

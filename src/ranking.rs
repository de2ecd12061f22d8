use vstd::prelude::*;
use crate::model::{ResultView, SearchResult};
use crate::resolver::{ActionView, PendingAction};

verus! {

/// A result together with the action it stands for, before ranking.
#[derive(Debug)]
pub struct Candidate {
    pub result: SearchResult,
    pub action: PendingAction,
}

pub struct CandView {
    pub result: ResultView,
    pub action: ActionView,
}

impl View for Candidate {
    type V = CandView;

    open spec fn view(&self) -> CandView {
        CandView { result: self.result@, action: self.action@ }
    }
}

/// The views of a sequence of candidates.
pub open spec fn cand_views(v: Seq<Candidate>) -> Seq<CandView> {
    v.map_values(|c: Candidate| c@)
}

/// The first position in `s` whose score is below `v`, or the length of `s`.
pub open spec fn first_below(s: Seq<CandView>, v: i64) -> nat
    decreases s.len(),
{
    if s.len() == 0 {
        0
    } else if s[0].result.score < v {
        0
    } else {
        1 + first_below(s.drop_first(), v)
    }
}

/// `x` placed after every entry of `s` that scores at least as high.
pub open spec fn insert_ranked(s: Seq<CandView>, x: CandView) -> Seq<CandView> {
    s.insert(first_below(s, x.result.score) as int, x)
}

/// The stable sort of `s` by descending score: entries of equal score keep
/// the order in which they were found.
pub open spec fn ranked(s: Seq<CandView>) -> Seq<CandView>
    decreases s.len(),
{
    if s.len() == 0 {
        s
    } else {
        insert_ranked(ranked(s.drop_last()), s.last())
    }
}

/// Scores never increase along `s`.
pub open spec fn descending(s: Seq<CandView>) -> bool {
    forall|i: int, j: int| 0 <= i < j < s.len() ==> s[i].result.score >= s[j].result.score
}

/// How many ranked results are kept under a cap: at most the cap, and one
/// less when a web-search entry follows and the cap (above one) is reached.
pub open spec fn kept_count(n: nat, cap: nat, with_search: bool) -> nat {
    let k = if n < cap {
        n
    } else {
        cap
    };
    if with_search && cap > 1 && k == cap {
        (cap - 1) as nat
    } else {
        k
    }
}

proof fn lemma_first_below(s: Seq<CandView>, v: i64)
    ensures
        first_below(s, v) <= s.len(),
        forall|j: int| 0 <= j < first_below(s, v) ==> s[j].result.score >= v,
        first_below(s, v) < s.len() ==> s[first_below(s, v) as int].result.score < v,
    decreases s.len(),
{
    if s.len() > 0 && s[0].result.score >= v {
        let t = s.drop_first();
        lemma_first_below(t, v);
        assert forall|j: int| 0 <= j < first_below(s, v) implies s[j].result.score >= v by {
            if j > 0 {
                assert(s[j] == t[j - 1]);
            }
        }
        if first_below(s, v) < s.len() {
            assert(s[first_below(s, v) as int] == t[first_below(t, v) as int]);
        }
    }
}

proof fn lemma_first_below_step(s: Seq<CandView>, p: int, v: i64)
    requires
        0 <= p < s.len(),
        s[p].result.score >= v,
    ensures
        first_below(s.subrange(p, s.len() as int), v) == 1 + first_below(s.subrange(p + 1, s.len() as int), v),
{
    let t = s.subrange(p, s.len() as int);
    assert(t[0] == s[p]);
    assert(t.drop_first() =~= s.subrange(p + 1, s.len() as int));
}

/// Ranking keeps the entries' number and orders them by descending score.
pub proof fn lemma_ranked(s: Seq<CandView>)
    ensures
        ranked(s).len() == s.len(),
        descending(ranked(s)),
    decreases s.len(),
{
    if s.len() > 0 {
        let r = ranked(s.drop_last());
        lemma_ranked(s.drop_last());
        let x = s.last();
        let v = x.result.score;
        lemma_first_below(r, v);
        let p = first_below(r, v) as int;
        let out = r.insert(p, x);
        assert forall|i: int, j: int| 0 <= i < j < out.len() implies out[i].result.score
            >= out[j].result.score by {
            if j < p {
                assert(out[i] == r[i] && out[j] == r[j]);
            } else if j == p {
                assert(out[i] == r[i]);
            } else if i < p {
                assert(out[i] == r[i] && out[j] == r[j - 1]);
            } else if i == p {
                assert(out[j] == r[j - 1]);
                assert(r[p].result.score < v);
                assert(r[p].result.score >= r[j - 1].result.score || p == j - 1);
            } else {
                assert(out[i] == r[i - 1] && out[j] == r[j - 1]);
            }
        }
    }
}

/// Orders candidates by descending score; equal scores keep their order.
pub fn rank(cands: Vec<Candidate>) -> (r: Vec<Candidate>)
    ensures
        cand_views(r@) == ranked(cand_views(cands@)),
{
    let ghost all = cand_views(cands@);
    let n: usize = cands.len();
    let mut rest = cands;
    let mut out: Vec<Candidate> = Vec::new();
    let mut i: usize = 0;
    assert(all.subrange(0, 0) =~= Seq::<CandView>::empty());
    assert(cand_views(rest@) =~= all.subrange(0, n as int));
    while rest.len() > 0
        invariant
            n == all.len(),
            i <= n,
            rest@.len() == n - i,
            cand_views(rest@) == all.subrange(i as int, n as int),
            cand_views(out@) == ranked(all.subrange(0, i as int)),
        decreases rest@.len(),
    {
        let ghost before = rest@;
        let x = rest.remove(0);
        proof {
            assert(cand_views(before)[0] == x@);
            assert(all.subrange(i as int, n as int)[0] == all[i as int]);
            assert(cand_views(rest@) =~= all.subrange(i + 1, n as int)) by {
                assert forall|k: int| 0 <= k < rest@.len() implies cand_views(rest@)[k] == all.subrange(i + 1, n as int)[k] by {
                    assert(rest@[k] == before[k + 1]);
                    assert(cand_views(before)[k + 1] == all.subrange(i as int, n as int)[k + 1]);
                }
            }
        }
        let ghost ov = cand_views(out@);
        let v = x.result.score;
        let mut p: usize = 0;
        assert(ov.subrange(0, ov.len() as int) =~= ov);
        while p < out.len() && out[p].result.score >= v
            invariant
                ov == cand_views(out@),
                p <= out@.len(),
                first_below(ov, v) == p + first_below(ov.subrange(p as int, ov.len() as int), v),
            decreases out@.len() - p,
        {
            proof {
                assert(ov[p as int] == out@[p as int]@);
                lemma_first_below_step(ov, p as int, v);
            }
            p = p + 1;
        }
        proof {
            if p < out@.len() {
                assert(ov[p as int] == out@[p as int]@);
            }
            let t = ov.subrange(p as int, ov.len() as int);
            if t.len() > 0 {
                assert(t[0] == ov[p as int]);
            }
        }
        out.insert(p, x);
        proof {
            assert(cand_views(out@) =~= ov.insert(p as int, x@));
            let pre = all.subrange(0, i + 1);
            assert(pre.drop_last() =~= all.subrange(0, i as int));
            assert(pre.last() == all[i as int]);
        }
        i = i + 1;
    }
    assert(all.subrange(0, n as int) =~= all);
    out
}

} // verus!
verus! {

/// The first position in `s` whose score is at most `v`, or the length of `s`:
/// where an entry of score `v`, found before all of `s`, goes in its ranking.
pub open spec fn first_not_above(s: Seq<CandView>, v: i64) -> nat
    decreases s.len(),
{
    if s.len() == 0 {
        0
    } else if s[0].result.score <= v {
        0
    } else {
        1 + first_not_above(s.drop_first(), v)
    }
}

/// Placing an entry at `first_not_above` keeps a ranking in descending order.
pub proof fn lemma_place_keeps_descending(s: Seq<CandView>, x: CandView)
    requires
        descending(s),
    ensures
        first_not_above(s, x.result.score) <= s.len(),
        descending(s.insert(first_not_above(s, x.result.score) as int, x)),
{
    let v = x.result.score;
    lemma_first_not_above(s, v);
    let p = first_not_above(s, v) as int;
    let out = s.insert(p, x);
    assert forall|i: int, j: int| 0 <= i < j < out.len() implies out[i].result.score
        >= out[j].result.score by {
        if j < p {
            assert(out[i] == s[i] && out[j] == s[j]);
        } else if j == p {
            assert(out[i] == s[i] && out[j] == x);
        } else if i < p {
            assert(out[i] == s[i] && out[j] == s[j - 1]);
        } else if i == p {
            assert(out[i] == x && out[j] == s[j - 1]);
            assert(s[p].result.score <= v);
            assert(s[p].result.score >= s[j - 1].result.score || p == j - 1);
        } else {
            assert(out[i] == s[i - 1] && out[j] == s[j - 1]);
        }
    }
}

proof fn lemma_first_not_above(s: Seq<CandView>, v: i64)
    ensures
        first_not_above(s, v) <= s.len(),
        forall|j: int| 0 <= j < first_not_above(s, v) ==> s[j].result.score > v,
        first_not_above(s, v) < s.len() ==> s[first_not_above(s, v) as int].result.score <= v,
    decreases s.len(),
{
    if s.len() > 0 && s[0].result.score > v {
        let t = s.drop_first();
        lemma_first_not_above(t, v);
        assert forall|j: int| 0 <= j < first_not_above(s, v) implies s[j].result.score > v by {
            if j > 0 {
                assert(s[j] == t[j - 1]);
            }
        }
        if first_not_above(s, v) < s.len() {
            assert(s[first_not_above(s, v) as int] == t[first_not_above(t, v) as int]);
        }
    }
}

/// Finds where an entry of score `v`, found before all of `s`, goes.
pub fn place_of(s: &Vec<Candidate>, v: i64) -> (r: usize)
    ensures
        r == first_not_above(cand_views(s@), v),
        r <= s@.len(),
{
    let ghost sv = cand_views(s@);
    let mut p: usize = 0;
    assert(sv.subrange(0, sv.len() as int) =~= sv);
    while p < s.len() && s[p].result.score > v
        invariant
            sv == cand_views(s@),
            p <= s@.len(),
            first_not_above(sv, v) == p + first_not_above(sv.subrange(p as int, sv.len() as int), v),
        decreases s@.len() - p,
    {
        proof {
            let t = sv.subrange(p as int, sv.len() as int);
            assert(t[0] == sv[p as int]);
            assert(sv[p as int] == s@[p as int]@);
            assert(t.drop_first() =~= sv.subrange(p + 1, sv.len() as int));
        }
        p = p + 1;
    }
    proof {
        let t = sv.subrange(p as int, sv.len() as int);
        if t.len() > 0 {
            assert(t[0] == sv[p as int]);
            assert(sv[p as int] == s@[p as int]@);
        }
    }
    p
}

} // verus!

use vstd::prelude::*;
use crate::model::{app_views, AppView, ApplicationInfo};
use crate::text::{lower_of, lowercase, same_text, text_less, text_lt};

verus! {

/// Whether an application in `s` has the id `id`.
pub open spec fn has_id(s: Seq<AppView>, id: Seq<char>) -> bool {
    exists|j: int| 0 <= j < s.len() && (#[trigger] s[j]).id == id
}

/// `s` with each id kept at its first occurrence only.
pub open spec fn dedup_first(s: Seq<AppView>) -> Seq<AppView>
    decreases s.len(),
{
    if s.len() == 0 {
        s
    } else {
        let d = dedup_first(s.drop_last());
        if has_id(d, s.last().id) {
            d
        } else {
            d.push(s.last())
        }
    }
}

/// The key applications are ordered by: the lower-cased name.
pub open spec fn name_key(a: AppView) -> Seq<char> {
    lower_of(a.name)
}

/// The first position in `s` whose key is above `k`, or the length of `s`.
pub open spec fn first_above(s: Seq<AppView>, k: Seq<char>) -> nat
    decreases s.len(),
{
    if s.len() == 0 {
        0
    } else if text_lt(k, name_key(s[0])) {
        0
    } else {
        1 + first_above(s.drop_first(), k)
    }
}

/// The stable sort of `s` by ascending lower-cased name: applications with
/// equal keys keep their order.
pub open spec fn sorted_by_name(s: Seq<AppView>) -> Seq<AppView>
    decreases s.len(),
{
    if s.len() == 0 {
        s
    } else {
        let r = sorted_by_name(s.drop_last());
        r.insert(first_above(r, name_key(s.last())) as int, s.last())
    }
}

/// The merged snapshot: native apps, then packaged apps, each id kept at its
/// first occurrence, ordered by name without regard to case.
pub open spec fn merged(native: Seq<AppView>, packaged: Seq<AppView>) -> Seq<AppView> {
    sorted_by_name(dedup_first(native + packaged))
}

fn contains_id(apps: &Vec<ApplicationInfo>, id: &str) -> (r: bool)
    ensures
        r == has_id(app_views(apps@), id@),
{
    let ghost v = app_views(apps@);
    let mut i: usize = 0;
    while i < apps.len()
        invariant
            v == app_views(apps@),
            i <= apps@.len(),
            forall|j: int| 0 <= j < i ==> (#[trigger] v[j]).id != id@,
        decreases apps@.len() - i,
    {
        if same_text(apps[i].id.as_str(), id) {
            assert(v[i as int].id == id@);
            return true;
        }
        i = i + 1;
    }
    false
}

fn dedup_by_id(all: &Vec<ApplicationInfo>) -> (r: Vec<ApplicationInfo>)
    ensures
        app_views(r@) == dedup_first(app_views(all@)),
{
    let ghost v = app_views(all@);
    let mut out: Vec<ApplicationInfo> = Vec::new();
    let mut i: usize = 0;
    assert(v.subrange(0, 0) =~= Seq::<AppView>::empty());
    assert(app_views(out@) =~= Seq::<AppView>::empty());
    while i < all.len()
        invariant
            v == app_views(all@),
            i <= all@.len(),
            app_views(out@) == dedup_first(v.subrange(0, i as int)),
        decreases all@.len() - i,
    {
        let a = &all[i];
        proof {
            let pre = v.subrange(0, i + 1);
            assert(pre.drop_last() =~= v.subrange(0, i as int));
            assert(pre.last() == a@);
        }
        if !contains_id(&out, a.id.as_str()) {
            let ghost before = app_views(out@);
            out.push(a.copy());
            assert(app_views(out@) =~= before.push(a@));
        }
        i = i + 1;
    }
    assert(v.subrange(0, all@.len() as int) =~= v);
    out
}

proof fn lemma_first_above_step(s: Seq<AppView>, p: int, k: Seq<char>)
    requires
        0 <= p < s.len(),
        !text_lt(k, name_key(s[p])),
    ensures
        first_above(s.subrange(p, s.len() as int), k) == 1 + first_above(s.subrange(p + 1, s.len() as int), k),
{
    let t = s.subrange(p, s.len() as int);
    assert(t[0] == s[p]);
    assert(t.drop_first() =~= s.subrange(p + 1, s.len() as int));
}

fn sort_by_name(apps: Vec<ApplicationInfo>) -> (r: Vec<ApplicationInfo>)
    ensures
        app_views(r@) == sorted_by_name(app_views(apps@)),
{
    let ghost all = app_views(apps@);
    let n: usize = apps.len();
    let mut out: Vec<ApplicationInfo> = Vec::new();
    let mut keys: Vec<String> = Vec::new();
    let mut i: usize = 0;
    assert(all.subrange(0, 0) =~= Seq::<AppView>::empty());
    while i < n
        invariant
            n == apps@.len(),
            all == app_views(apps@),
            i <= n,
            keys@.len() == out@.len(),
            forall|j: int| 0 <= j < out@.len() ==> (#[trigger] keys@[j])@ == name_key(out@[j]@),
            app_views(out@) == sorted_by_name(all.subrange(0, i as int)),
        decreases n - i,
    {
        let a = &apps[i];
        let k = lowercase(a.name.as_str());
        let ghost ov = app_views(out@);
        let mut p: usize = 0;
        assert(ov.subrange(0, ov.len() as int) =~= ov);
        while p < out.len() && !text_less(k.as_str(), keys[p].as_str())
            invariant
                ov == app_views(out@),
                keys@.len() == out@.len(),
                forall|j: int| 0 <= j < out@.len() ==> (#[trigger] keys@[j])@ == name_key(out@[j]@),
                k@ == name_key(a@),
                p <= out@.len(),
                first_above(ov, k@) == p + first_above(ov.subrange(p as int, ov.len() as int), k@),
            decreases out@.len() - p,
        {
            proof {
                assert(ov[p as int] == out@[p as int]@);
                lemma_first_above_step(ov, p as int, k@);
            }
            p = p + 1;
        }
        proof {
            let t = ov.subrange(p as int, ov.len() as int);
            if t.len() > 0 {
                assert(t[0] == ov[p as int]);
                assert(ov[p as int] == out@[p as int]@);
            }
        }
        let ghost old_keys = keys@;
        let ghost old_out = out@;
        out.insert(p, a.copy());
        keys.insert(p, k);
        proof {
            assert(app_views(out@) =~= ov.insert(p as int, a@));
            assert forall|j: int| 0 <= j < out@.len() implies (#[trigger] keys@[j])@ == name_key(out@[j]@) by {
                if j < p {
                    assert(keys@[j] == old_keys[j] && out@[j] == old_out[j]);
                } else if j > p {
                    assert(keys@[j] == old_keys[j - 1] && out@[j] == old_out[j - 1]);
                }
            }
            let pre = all.subrange(0, i + 1);
            assert(pre.drop_last() =~= all.subrange(0, i as int));
            assert(pre.last() == a@);
        }
        i = i + 1;
    }
    assert(all.subrange(0, n as int) =~= all);
    out
}

/// Merges the collectors' outputs into one snapshot: native apps first, then
/// packaged apps; an id seen before is dropped; the result is ordered by
/// lower-cased name, equal names keeping their order.
pub fn merge_index(native: Vec<ApplicationInfo>, packaged: Vec<ApplicationInfo>) -> (r: Vec<ApplicationInfo>)
    ensures
        app_views(r@) == merged(app_views(native@), app_views(packaged@)),
{
    let ghost nv = app_views(native@);
    let ghost pv = app_views(packaged@);
    let mut all = native;
    let mut rest = packaged;
    all.append(&mut rest);
    assert(app_views(all@) =~= nv + pv);
    let unique = dedup_by_id(&all);
    sort_by_name(unique)
}

/// Merging depends on the collectors' outputs alone: equal outputs give an
/// equal snapshot, with the same ids in the same order.
pub proof fn merge_is_deterministic(n1: Seq<AppView>, p1: Seq<AppView>, n2: Seq<AppView>, p2: Seq<AppView>)
    requires
        n1 == n2,
        p1 == p2,
    ensures
        merged(n1, p1) == merged(n2, p2),
        merged(n1, p1).map_values(|a: AppView| a.id) == merged(n2, p2).map_values(|a: AppView| a.id),
{
}

} // verus!
verus! {

/// No two applications in `s` share an id.
pub open spec fn distinct_ids(s: Seq<AppView>) -> bool {
    forall|i: int, j: int| 0 <= i < j < s.len() ==> s[i].id != s[j].id
}

/// `s` is ordered by lower-cased name.
pub open spec fn name_ordered(s: Seq<AppView>) -> bool {
    forall|i: int, j: int| 0 <= i < j < s.len() ==> !text_lt(name_key(s[j]), name_key(s[i]))
}

proof fn lemma_dedup_distinct(s: Seq<AppView>)
    ensures
        distinct_ids(dedup_first(s)),
        forall|id: Seq<char>| has_id(dedup_first(s), id) <==> has_id(s, id),
    decreases s.len(),
{
    if s.len() > 0 {
        let init = s.drop_last();
        lemma_dedup_distinct(init);
        let d = dedup_first(init);
        assert forall|id: Seq<char>| has_id(init, id) implies has_id(s, id) by {
            if has_id(init, id) {
                let j = choose|j: int| 0 <= j < init.len() && (#[trigger] init[j]).id == id;
                assert(s[j] == init[j]);
            }
        }
        assert forall|id: Seq<char>| has_id(s, id) implies has_id(init, id) || s.last().id == id by {
            if has_id(s, id) {
                let j = choose|j: int| 0 <= j < s.len() && (#[trigger] s[j]).id == id;
                if j < init.len() {
                    assert(init[j] == s[j]);
                }
            }
        }
        if !has_id(d, s.last().id) {
            let e = d.push(s.last());
            assert(e[d.len() as int] == s.last());
            assert forall|id: Seq<char>| has_id(e, id) <==> has_id(s, id) by {
                if has_id(d, id) {
                    let j = choose|j: int| 0 <= j < d.len() && (#[trigger] d[j]).id == id;
                    assert(e[j] == d[j]);
                }
                if has_id(e, id) {
                    let j = choose|j: int| 0 <= j < e.len() && (#[trigger] e[j]).id == id;
                    if j < d.len() {
                        assert(e[j] == d[j]);
                    }
                }
            }
            assert forall|i: int, j: int| 0 <= i < j < e.len() implies e[i].id != e[j].id by {
                assert(e[i] == d[i]);
                if j < d.len() {
                    assert(e[j] == d[j]);
                } else {
                    assert(!(d[i].id == s.last().id));
                }
            }
        } else {
            assert(has_id(s, s.last().id)) by {
                assert(s[s.len() - 1] == s.last());
            }
        }
    }
}

proof fn lemma_first_above(s: Seq<AppView>, k: Seq<char>)
    ensures
        first_above(s, k) <= s.len(),
        forall|j: int| 0 <= j < first_above(s, k) ==> !text_lt(k, name_key(#[trigger] s[j])),
        first_above(s, k) < s.len() ==> text_lt(k, name_key(s[first_above(s, k) as int])),
    decreases s.len(),
{
    if s.len() > 0 && !text_lt(k, name_key(s[0])) {
        let t = s.drop_first();
        lemma_first_above(t, k);
        assert forall|j: int| 0 <= j < first_above(s, k) implies !text_lt(k, name_key(#[trigger] s[j])) by {
            if j > 0 {
                assert(s[j] == t[j - 1]);
            }
        }
        if first_above(s, k) < s.len() {
            assert(s[first_above(s, k) as int] == t[first_above(t, k) as int]);
        }
    }
}

proof fn lemma_sorted_by_name(s: Seq<AppView>)
    ensures
        sorted_by_name(s).len() == s.len(),
        name_ordered(sorted_by_name(s)),
        forall|id: Seq<char>| has_id(sorted_by_name(s), id) <==> has_id(s, id),
        distinct_ids(s) ==> distinct_ids(sorted_by_name(s)),
    decreases s.len(),
{
    if s.len() > 0 {
        let init = s.drop_last();
        let x = s.last();
        lemma_sorted_by_name(init);
        let r = sorted_by_name(init);
        let k = name_key(x);
        lemma_first_above(r, k);
        let p = first_above(r, k) as int;
        let out = r.insert(p, x);
        assert(out[p] == x);
        assert forall|i: int, j: int| 0 <= i < j < out.len() implies !text_lt(name_key(out[j]), name_key(out[i])) by {
            if j < p {
                assert(out[i] == r[i] && out[j] == r[j]);
            } else if j == p {
                assert(out[i] == r[i]);
            } else if i < p {
                assert(out[i] == r[i] && out[j] == r[j - 1]);
            } else if i == p {
                assert(out[j] == r[j - 1]);
                if text_lt(name_key(r[j - 1]), k) {
                    crate::text::lemma_text_lt_transitive(name_key(r[j - 1]), k, name_key(r[p]));
                    if j - 1 > p {
                        assert(!text_lt(name_key(r[j - 1]), name_key(r[p])));
                    } else {
                        crate::text::lemma_text_lt_irreflexive(name_key(r[p]));
                    }
                }
            } else {
                assert(out[i] == r[i - 1] && out[j] == r[j - 1]);
            }
        }
        assert forall|id: Seq<char>| has_id(init, id) implies has_id(s, id) by {
            if has_id(init, id) {
                let j = choose|j: int| 0 <= j < init.len() && (#[trigger] init[j]).id == id;
                assert(s[j] == init[j]);
            }
        }
        assert(s[s.len() - 1] == x);
        assert forall|id: Seq<char>| has_id(out, id) <==> has_id(s, id) by {
            if has_id(out, id) {
                let j = choose|j: int| 0 <= j < out.len() && (#[trigger] out[j]).id == id;
                if j < p {
                    assert(out[j] == r[j]);
                } else if j > p {
                    assert(out[j] == r[j - 1]);
                }
            }
            if has_id(s, id) {
                let j = choose|j: int| 0 <= j < s.len() && (#[trigger] s[j]).id == id;
                if j < init.len() {
                    assert(init[j] == s[j]);
                    assert(has_id(init, id));
                    assert(has_id(r, id));
                    let m = choose|m: int| 0 <= m < r.len() && (#[trigger] r[m]).id == id;
                    if m < p {
                        assert(out[m] == r[m]);
                    } else {
                        assert(out[m + 1] == r[m]);
                    }
                }
            }
        }
        if distinct_ids(s) {
            assert(distinct_ids(init)) by {
                assert forall|i: int, j: int| 0 <= i < j < init.len() implies init[i].id != init[j].id by {
                    assert(init[i] == s[i] && init[j] == s[j]);
                }
            }
            assert(!has_id(r, x.id)) by {
                if has_id(init, x.id) {
                    let j = choose|j: int| 0 <= j < init.len() && (#[trigger] init[j]).id == x.id;
                    assert(init[j] == s[j]);
                }
            }
            assert forall|i: int, j: int| 0 <= i < j < out.len() implies out[i].id != out[j].id by {
                if j < p {
                    assert(out[i] == r[i] && out[j] == r[j]);
                } else if j == p {
                    assert(out[i] == r[i]);
                } else if i < p {
                    assert(out[i] == r[i] && out[j] == r[j - 1]);
                } else if i == p {
                    assert(out[j] == r[j - 1]);
                } else {
                    assert(out[i] == r[i - 1] && out[j] == r[j - 1]);
                }
            }
        }
    }
}

proof fn lemma_dedup_keeps_distinct(s: Seq<AppView>)
    requires
        distinct_ids(s),
    ensures
        dedup_first(s) == s,
    decreases s.len(),
{
    if s.len() > 0 {
        let init = s.drop_last();
        assert(distinct_ids(init)) by {
            assert forall|i: int, j: int| 0 <= i < j < init.len() implies init[i].id != init[j].id by {
                assert(init[i] == s[i] && init[j] == s[j]);
            }
        }
        lemma_dedup_keeps_distinct(init);
        assert(!has_id(init, s.last().id)) by {
            if has_id(init, s.last().id) {
                let j = choose|j: int| 0 <= j < init.len() && (#[trigger] init[j]).id == s.last().id;
                assert(init[j] == s[j]);
                assert(s[s.len() - 1] == s.last());
            }
        }
        assert(init.push(s.last()) =~= s);
    }
}

proof fn lemma_sorted_keeps_ordered(s: Seq<AppView>)
    requires
        name_ordered(s),
    ensures
        sorted_by_name(s) == s,
    decreases s.len(),
{
    if s.len() > 0 {
        let init = s.drop_last();
        assert(name_ordered(init)) by {
            assert forall|i: int, j: int| 0 <= i < j < init.len() implies !text_lt(name_key(init[j]), name_key(init[i])) by {
                assert(init[i] == s[i] && init[j] == s[j]);
            }
        }
        lemma_sorted_keeps_ordered(init);
        let k = name_key(s.last());
        lemma_first_above(init, k);
        if first_above(init, k) < init.len() {
            let p = first_above(init, k) as int;
            assert(init[p] == s[p]);
            assert(s[s.len() - 1] == s.last());
        }
        assert(init.insert(init.len() as int, s.last()) =~= s);
    }
}

/// The merged snapshot holds each id once and is ordered by lower-cased
/// name; merging it again, with nothing new, gives it back unchanged.
pub proof fn merge_is_idempotent(native: Seq<AppView>, packaged: Seq<AppView>)
    ensures
        distinct_ids(merged(native, packaged)),
        name_ordered(merged(native, packaged)),
        merged(merged(native, packaged), Seq::empty()) == merged(native, packaged),
{
    let d = dedup_first(native + packaged);
    lemma_dedup_distinct(native + packaged);
    lemma_sorted_by_name(d);
    let m = merged(native, packaged);
    assert(m + Seq::<AppView>::empty() =~= m);
    lemma_dedup_keeps_distinct(m);
    lemma_sorted_keeps_ordered(m);
}

} // verus!

use vstd::prelude::*;
use fuzzy_matcher::skim::SkimMatcherV2;
use fuzzy_matcher::FuzzyMatcher;
use crate::model::{AppView, ApplicationInfo, BookmarkEntry, BookmarkView};

verus! {

/// Penalty on a match against an application keyword.
pub const APP_KEYWORD_PENALTY: i64 = 5;

/// Penalty on a match against a bookmark's folder path.
pub const FOLDER_PENALTY: i64 = 5;

/// Penalty on a match against a bookmark's URL or one of its keywords.
pub const BOOKMARK_FIELD_PENALTY: i64 = 8;

/// The skim (v2, default configuration) fuzzy score of `pattern` against
/// `choice`, or `None` when the pattern is no subsequence of the choice.
pub uninterp spec fn skim_score(choice: Seq<char>, pattern: Seq<char>) -> Option<i64>;

/// Relies on `SkimMatcherV2::fuzzy_match` with the default configuration: the
/// score depends on the two texts alone, is an `i32` score widened to `i64`,
/// an empty pattern matches with score 0, and a pattern longer than the choice
/// never matches.
#[verifier::external_body]
pub(crate) fn fuzzy_score(choice: &str, pattern: &str) -> (r: Option<i64>)
    ensures
        r == skim_score(choice@, pattern@),
        r matches Some(x) ==> i32::MIN <= x <= i32::MAX,
        pattern@.len() == 0 ==> r == Some(0i64),
        pattern@.len() > choice@.len() ==> r is None,
{
    SkimMatcherV2::default().fuzzy_match(choice, pattern)
}

/// A score lowered by a penalty.
pub open spec fn penalized(s: Option<i64>, penalty: int) -> Option<int> {
    match s {
        Some(x) => Some(x - penalty),
        None => None,
    }
}

/// A score as a mathematical integer.
pub open spec fn widened(s: Option<i64>) -> Option<int> {
    match s {
        Some(x) => Some(x as int),
        None => None,
    }
}

/// The better of two optional scores.
pub open spec fn better(best: Option<int>, cand: Option<int>) -> Option<int> {
    match cand {
        None => best,
        Some(c) => match best {
            None => Some(c),
            Some(b) => if c > b {
                Some(c)
            } else {
                Some(b)
            },
        },
    }
}

/// What one keyword contributes: its penalized score; an empty keyword
/// contributes nothing (it matches no query but the empty one).
pub open spec fn keyword_score(kw: Seq<char>, q: Seq<char>, penalty: int) -> Option<int> {
    if kw.len() == 0 && q.len() == 0 {
        None
    } else {
        penalized(skim_score(kw, q), penalty)
    }
}

/// The best of `start` and every keyword's contribution.
pub open spec fn keywords_best(start: Option<int>, kws: Seq<Seq<char>>, q: Seq<char>, penalty: int) -> Option<int>
    decreases kws.len(),
{
    if kws.len() == 0 {
        start
    } else {
        better(keywords_best(start, kws.drop_last(), q, penalty), keyword_score(kws.last(), q, penalty))
    }
}

/// An application's score: its name, or a penalized keyword, whichever is best.
pub open spec fn app_score(app: AppView, q: Seq<char>) -> Option<int> {
    keywords_best(widened(skim_score(app.name, q)), app.keywords, q, APP_KEYWORD_PENALTY as int)
}

/// The best score over a bookmark's title, folder path and URL.
pub open spec fn bookmark_fields_score(b: BookmarkView, q: Seq<char>) -> Option<int> {
    let title = widened(skim_score(b.title, q));
    let folder = match b.folder_path {
        Some(p) => better(title, penalized(skim_score(p, q), FOLDER_PENALTY as int)),
        None => title,
    };
    better(folder, penalized(skim_score(b.url, q), BOOKMARK_FIELD_PENALTY as int))
}

/// A bookmark's score: the best over its fields and its penalized keywords.
pub open spec fn bookmark_score(b: BookmarkView, q: Seq<char>) -> Option<int> {
    keywords_best(bookmark_fields_score(b, q), b.keywords, q, BOOKMARK_FIELD_PENALTY as int)
}

/// Scores within this range stay in range after any penalty.
pub open spec fn in_score_range(s: Option<int>) -> bool {
    s matches Some(x) ==> i32::MIN - BOOKMARK_FIELD_PENALTY <= x <= i32::MAX
}

/// Folds one optional score into the best so far.
fn take_better(best: Option<i64>, cand: Option<i64>) -> (r: Option<i64>)
    ensures
        widened(r) == better(widened(best), widened(cand)),
{
    match cand {
        None => best,
        Some(c) => match best {
            None => Some(c),
            Some(b) => if c > b {
                Some(c)
            } else {
                Some(b)
            },
        },
    }
}

/// A fuzzy score lowered by a penalty.
fn penalized_score(choice: &str, query: &str, penalty: i64) -> (r: Option<i64>)
    requires
        0 <= penalty <= BOOKMARK_FIELD_PENALTY,
    ensures
        widened(r) == penalized(skim_score(choice@, query@), penalty as int),
        in_score_range(widened(r)),
{
    match fuzzy_score(choice, query) {
        Some(s) => Some(s - penalty),
        None => None,
    }
}

fn best_with_keywords(start: Option<i64>, keywords: &Vec<String>, query: &str, penalty: i64) -> (r: Option<i64>)
    requires
        0 <= penalty <= BOOKMARK_FIELD_PENALTY,
        in_score_range(widened(start)),
    ensures
        widened(r) == keywords_best(widened(start), crate::model::texts(keywords@), query@, penalty as int),
        in_score_range(widened(r)),
{
    let ghost kws = crate::model::texts(keywords@);
    let mut best = start;
    let mut i: usize = 0;
    while i < keywords.len()
        invariant
            0 <= penalty <= BOOKMARK_FIELD_PENALTY,
            kws == crate::model::texts(keywords@),
            i <= keywords@.len(),
            widened(best) == keywords_best(widened(start), kws.subrange(0, i as int), query@, penalty as int),
            in_score_range(widened(best)),
        decreases keywords@.len() - i,
    {
        let kw = &keywords[i];
        proof {
            assert(kws.subrange(0, i + 1).drop_last() =~= kws.subrange(0, i as int));
            assert(kws.subrange(0, i + 1).last() == kw@);
        }
        if kw.unicode_len() != 0 || query.unicode_len() != 0 {
            let cand = penalized_score(kw.as_str(), query, penalty);
            best = take_better(best, cand);
        }
        i = i + 1;
    }
    assert(kws.subrange(0, keywords@.len() as int) =~= kws);
    best
}

/// Scores an application against a query: the best of its name and its
/// keywords, each keyword match lowered by a fixed penalty.
pub fn match_application(app: &ApplicationInfo, query: &str) -> (r: Option<i64>)
    ensures
        widened(r) == app_score(app@, query@),
{
    let name = fuzzy_score(app.name.as_str(), query);
    best_with_keywords(name, &app.keywords, query, APP_KEYWORD_PENALTY)
}

/// Scores a bookmark against a query: the best of its title, its folder path,
/// its URL and its keywords, each field but the title lowered by a penalty.
pub fn match_bookmark(bookmark: &BookmarkEntry, query: &str) -> (r: Option<i64>)
    ensures
        widened(r) == bookmark_score(bookmark@, query@),
{
    let mut best = fuzzy_score(bookmark.title.as_str(), query);
    match &bookmark.folder_path {
        Some(path) => {
            let cand = penalized_score(path.as_str(), query, FOLDER_PENALTY);
            best = take_better(best, cand);
        },
        None => {},
    }
    let cand = penalized_score(bookmark.url.as_str(), query, BOOKMARK_FIELD_PENALTY);
    best = take_better(best, cand);
    best_with_keywords(best, &bookmark.keywords, query, BOOKMARK_FIELD_PENALTY)
}

proof fn lemma_keywords_best_at_least(start: int, kws: Seq<Seq<char>>, q: Seq<char>, penalty: int)
    ensures
        keywords_best(Some(start), kws, q, penalty) matches Some(b) && b >= start,
    decreases kws.len(),
{
    if kws.len() > 0 {
        lemma_keywords_best_at_least(start, kws.drop_last(), q, penalty);
    }
}

proof fn lemma_keywords_best_single(start: Option<int>, kw: Seq<char>, q: Seq<char>, penalty: int)
    ensures
        keywords_best(start, seq![kw], q, penalty) == better(start, keyword_score(kw, q, penalty)),
{
    reveal_with_fuel(keywords_best, 2);
    assert(seq![kw].drop_last() =~= Seq::<Seq<char>>::empty());
    assert(seq![kw].last() == kw);
}

proof fn lemma_keywords_best_at_most(start: Option<int>, kws: Seq<Seq<char>>, q: Seq<char>, penalty: int, m: int)
    requires
        start matches Some(x) ==> x <= m,
        forall|i: int| 0 <= i < kws.len() ==>
            (#[trigger] skim_score(kws[i], q) matches Some(x) ==> x - penalty <= m),
    ensures
        keywords_best(start, kws, q, penalty) matches Some(b) ==> b <= m,
    decreases kws.len(),
{
    if kws.len() > 0 {
        let init = kws.drop_last();
        assert forall|i: int| 0 <= i < init.len() implies
            (#[trigger] skim_score(init[i], q) matches Some(x) ==> x - penalty <= m) by {
            assert(init[i] == kws[i]);
        }
        lemma_keywords_best_at_most(start, init, q, penalty, m);
        let last = kws.len() - 1;
        assert(kws.last() == kws[last]);
    }
}

/// An application that matches by name with score `s` ranks at `s` or above,
/// while one that matches only through keywords of score at most `s` ranks at
/// `s` less the keyword penalty or below.
pub proof fn name_match_outranks_keyword_match(named: AppView, by_keyword: AppView, q: Seq<char>, s: i64)
    requires
        skim_score(named.name, q) == Some(s),
        skim_score(by_keyword.name, q) is None,
        forall|i: int| 0 <= i < by_keyword.keywords.len() ==>
            (#[trigger] skim_score(by_keyword.keywords[i], q) matches Some(x) ==> x <= s),
    ensures
        app_score(named, q) matches Some(a) && a >= s,
        app_score(by_keyword, q) matches Some(b) ==> b <= s - APP_KEYWORD_PENALTY,
{
    lemma_keywords_best_at_least(s as int, named.keywords, q, APP_KEYWORD_PENALTY as int);
    lemma_keywords_best_at_most(None, by_keyword.keywords, q, APP_KEYWORD_PENALTY as int, s - APP_KEYWORD_PENALTY);
}

/// A bookmark that matches by title with score `s` ranks at `s` or above,
/// while one whose title does not match and whose folder path, URL and
/// keywords score at most `s` ranks at `s` less the folder penalty or below,
/// and at `s` less the URL penalty or below when it has no folder path.
pub proof fn title_match_outranks_field_match(titled: BookmarkView, by_field: BookmarkView, q: Seq<char>, s: i64)
    requires
        skim_score(titled.title, q) == Some(s),
        skim_score(by_field.title, q) is None,
        by_field.folder_path matches Some(p) ==> (skim_score(p, q) matches Some(x) ==> x <= s),
        skim_score(by_field.url, q) matches Some(x) ==> x <= s,
        forall|i: int| 0 <= i < by_field.keywords.len() ==>
            (#[trigger] skim_score(by_field.keywords[i], q) matches Some(x) ==> x <= s),
    ensures
        bookmark_score(titled, q) matches Some(a) && a >= s,
        bookmark_score(by_field, q) matches Some(b) ==> b <= s - FOLDER_PENALTY,
        by_field.folder_path is None ==> (bookmark_score(by_field, q) matches Some(b) ==> b <= s
            - BOOKMARK_FIELD_PENALTY),
{
    let t = bookmark_fields_score(titled, q);
    assert(t matches Some(x) && x >= s);
    let x = t->0;
    lemma_keywords_best_at_least(x, titled.keywords, q, BOOKMARK_FIELD_PENALTY as int);
    lemma_keywords_best_at_most(bookmark_fields_score(by_field, q), by_field.keywords, q, BOOKMARK_FIELD_PENALTY as int, s - FOLDER_PENALTY);
    if by_field.folder_path is None {
        lemma_keywords_best_at_most(bookmark_fields_score(by_field, q), by_field.keywords, q, BOOKMARK_FIELD_PENALTY as int, s - BOOKMARK_FIELD_PENALTY);
    }
}

/// A name match of score `v` gives an application the score `v`; the same
/// text as its only keyword, with a name that does not match, gives `v` less
/// the keyword penalty.
pub proof fn keyword_match_scores_penalty_below_name(a: AppView, b: AppView, q: Seq<char>, v: i64)
    requires
        q.len() > 0,
        skim_score(a.name, q) == Some(v),
        a.keywords.len() == 0,
        skim_score(b.name, q) is None,
        b.keywords == seq![a.name],
    ensures
        app_score(a, q) == Some(v as int),
        app_score(b, q) == Some(v - APP_KEYWORD_PENALTY),
{
    lemma_keywords_best_single(None, a.name, q, APP_KEYWORD_PENALTY as int);
}

/// The same match of score `v` gives a bookmark `v` in its title, `v` less
/// the folder penalty in its folder path, and `v` less the field penalty in
/// its URL or as its only keyword, when nothing else of it matches.
pub proof fn bookmark_field_penalties(
    bt: BookmarkView,
    bf: BookmarkView,
    bu: BookmarkView,
    bk: BookmarkView,
    s: Seq<char>,
    t: Seq<char>,
    u: Seq<char>,
    q: Seq<char>,
    v: i64,
)
    requires
        q.len() > 0,
        skim_score(s, q) == Some(v),
        skim_score(t, q) is None,
        skim_score(u, q) is None,
        bt.title == s && bt.url == u && bt.folder_path is None && bt.keywords.len() == 0,
        bf.title == t && bf.url == u && bf.folder_path == Some(s) && bf.keywords.len() == 0,
        bu.title == t && bu.url == s && bu.folder_path is None && bu.keywords.len() == 0,
        bk.title == t && bk.url == u && bk.folder_path is None && bk.keywords == seq![s],
    ensures
        bookmark_score(bt, q) == Some(v as int),
        bookmark_score(bf, q) == Some(v - FOLDER_PENALTY),
        bookmark_score(bu, q) == Some(v - BOOKMARK_FIELD_PENALTY),
        bookmark_score(bk, q) == Some(v - BOOKMARK_FIELD_PENALTY),
{
    lemma_keywords_best_single(bookmark_fields_score(bk, q), s, q, BOOKMARK_FIELD_PENALTY as int);
}

} // verus!

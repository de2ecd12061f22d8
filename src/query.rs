use vstd::prelude::*;
use crate::config::{normalize_max_results, AppConfig};
use crate::mode::{mode_of, QueryMode};
use crate::model::{
    opt_text, result_views, AppType, AppView, ApplicationInfo, BookmarkEntry, BookmarkView,
    ResultView, SearchResult, app_views, bookmark_views,
};
use crate::ranking::{
    cand_views, first_not_above, kept_count, lemma_place_keeps_descending, lemma_ranked, place_of, rank, ranked,
    descending, CandView, Candidate,
};
use crate::resolver::{bindings_map, ActionTable, ActionView, PendingAction};
use crate::scoring::{app_score, bookmark_score, match_application, match_bookmark};
use vstd::utf8::encode_utf8;
use crate::text::{is_blank, is_url_like, trim, trimmed, url_like};

verus! {

/// The score of the "open as URL" entry.
pub const URL_SCORE: i64 = 200;

/// Whether a byte is kept as it is by percent-encoding.
pub open spec fn unreserved(b: u8) -> bool {
    (48 <= b <= 57) || (65 <= b <= 90) || (97 <= b <= 122) || b == 45 || b == 46 || b == 95 || b == 126
}

/// An upper-case hexadecimal digit.
pub open spec fn hex_upper(d: int) -> char {
    if d < 10 {
        ((d + 48) as u8) as char
    } else {
        ((d + 55) as u8) as char
    }
}

/// The percent-encoding of some bytes.
pub open spec fn percent_encoded(b: Seq<u8>) -> Seq<char>
    decreases b.len(),
{
    if b.len() == 0 {
        Seq::empty()
    } else {
        let x = b.last();
        percent_encoded(b.drop_last()) + if unreserved(x) {
            seq![x as char]
        } else {
            seq!['%', hex_upper(x as int / 16), hex_upper(x as int % 16)]
        }
    }
}

/// Relies on `urlencoding::encode`: every byte of the UTF-8 text but ASCII
/// letters, digits and `-._~` becomes `%` and two upper-case hex digits.
#[verifier::external_body]
fn percent_encode(s: &str) -> (r: String)
    ensures
        r@ == percent_encoded(encode_utf8(s@)),
{
    urlencoding::encode(s).into_owned()
}

/// The decimal digits of `n`.
pub open spec fn decimal_text(n: nat) -> Seq<char>
    decreases n,
{
    if n < 10 {
        digit_text(n)
    } else {
        decimal_text(n / 10) + digit_text(n % 10)
    }
}

/// One decimal digit.
pub open spec fn digit_text(d: nat) -> Seq<char> {
    if d == 0 {
        "0"@
    } else if d == 1 {
        "1"@
    } else if d == 2 {
        "2"@
    } else if d == 3 {
        "3"@
    } else if d == 4 {
        "4"@
    } else if d == 5 {
        "5"@
    } else if d == 6 {
        "6"@
    } else if d == 7 {
        "7"@
    } else if d == 8 {
        "8"@
    } else {
        "9"@
    }
}

fn digit_str(d: usize) -> (r: &'static str)
    requires
        d < 10,
    ensures
        r@ == digit_text(d as nat),
{
    if d == 0 {
        "0"
    } else if d == 1 {
        "1"
    } else if d == 2 {
        "2"
    } else if d == 3 {
        "3"
    } else if d == 4 {
        "4"
    } else if d == 5 {
        "5"
    } else if d == 6 {
        "6"
    } else if d == 7 {
        "7"
    } else if d == 8 {
        "8"
    } else {
        "9"
    }
}

/// Writes `value` in decimal.
pub fn decimal(value: usize) -> (r: String)
    ensures
        r@ == decimal_text(value as nat),
{
    let mut acc = String::from_str(digit_str(value % 10));
    let mut n: usize = value / 10;
    while n > 0
        invariant
            n > 0 ==> decimal_text(value as nat) == decimal_text(n as nat) + acc@,
            n == 0 ==> decimal_text(value as nat) == acc@,
        decreases n,
    {
        let d = String::from_str(digit_str(n % 10));
        let ghost old_acc = acc@;
        acc = d.concat(acc.as_str());
        proof {
            assert(decimal_text(value as nat) == decimal_text((n / 10) as nat) + digit_text((n % 10) as nat) + old_acc
                || n < 10);
            if n >= 10 {
                assert(decimal_text((n / 10) as nat) + digit_text((n % 10) as nat) + old_acc =~= decimal_text(
                    (n / 10) as nat,
                ) + acc@);
            }
        }
        n = n / 10;
    }
    acc
}

/// The "open as URL" entry for a query.
pub open spec fn url_candidate(t: Seq<char>) -> CandView {
    CandView {
        result: ResultView {
            id: "url-0"@,
            title: "打开网址: "@ + t,
            subtitle: t,
            icon: Seq::empty(),
            score: URL_SCORE,
            action_id: "url"@,
        },
        action: ActionView::Url(t),
    }
}

/// The line under an application's name: its description, or its path.
pub open spec fn app_subtitle(a: AppView) -> Seq<char> {
    match a.description {
        Some(d) => if d.len() > 0 {
            d
        } else {
            a.path
        },
        None => a.path,
    }
}

/// The entry for a matched application.
pub open spec fn app_candidate(a: AppView, score: i64) -> CandView {
    CandView {
        result: ResultView {
            id: "app-"@ + a.id,
            title: a.name,
            subtitle: app_subtitle(a),
            icon: a.icon,
            score: score,
            action_id: if a.app_type == AppType::Win32 {
                "app"@
            } else {
                "uwp"@
            },
        },
        action: ActionView::Application(a),
    }
}

/// The line under a bookmark's title.
pub open spec fn bookmark_subtitle(b: BookmarkView) -> Seq<char> {
    match b.folder_path {
        Some(p) => "收藏夹 · "@ + p + " · "@ + b.url,
        None => "收藏夹 · "@ + b.url,
    }
}

/// The entry for a matched bookmark.
pub open spec fn bookmark_candidate(b: BookmarkView, score: i64) -> CandView {
    CandView {
        result: ResultView {
            id: "bookmark-"@ + b.id,
            title: b.title,
            subtitle: bookmark_subtitle(b),
            icon: Seq::empty(),
            score: score,
            action_id: "bookmark"@,
        },
        action: ActionView::Bookmark(b),
    }
}

/// The trailing web-search entry; `n` is the number of entries found before it.
pub open spec fn search_candidate(t: Seq<char>, n: nat) -> CandView {
    CandView {
        result: ResultView {
            id: "search-"@ + decimal_text(n),
            title: "在 Google 上搜索: "@ + t,
            subtitle: "Google 搜索"@,
            icon: Seq::empty(),
            score: i64::MIN,
            action_id: "search"@,
        },
        action: ActionView::Search("https://google.com/search?q="@ + percent_encoded(encode_utf8(t))),
    }
}

/// The entries of the matching applications, in index order.
pub open spec fn app_candidates(apps: Seq<AppView>, t: Seq<char>) -> Seq<CandView>
    decreases apps.len(),
{
    if apps.len() == 0 {
        Seq::empty()
    } else {
        let before = app_candidates(apps.drop_last(), t);
        match app_score(apps.last(), t) {
            Some(s) => before.push(app_candidate(apps.last(), s as i64)),
            None => before,
        }
    }
}

/// The entries of the matching bookmarks, in index order.
pub open spec fn bookmark_candidates(bms: Seq<BookmarkView>, t: Seq<char>) -> Seq<CandView>
    decreases bms.len(),
{
    if bms.len() == 0 {
        Seq::empty()
    } else {
        let before = bookmark_candidates(bms.drop_last(), t);
        match bookmark_score(bms.last(), t) {
            Some(s) => before.push(bookmark_candidate(bms.last(), s as i64)),
            None => before,
        }
    }
}

/// The application and bookmark entries a trimmed query matches, in index
/// order, each kind only where mode and settings allow it.
pub open spec fn matched(
    t: Seq<char>,
    mode: QueryMode,
    use_apps: bool,
    use_bookmarks: bool,
    apps: Seq<AppView>,
    bms: Seq<BookmarkView>,
) -> Seq<CandView> {
    (if mode.allows_applications() && use_apps {
        app_candidates(apps, t)
    } else {
        Seq::empty()
    }) + (if mode.allows_bookmarks() && use_bookmarks {
        bookmark_candidates(bms, t)
    } else {
        Seq::empty()
    })
}

/// Every entry a trimmed query finds, in the order found: the URL entry,
/// then the matched applications and bookmarks.
pub open spec fn found(
    t: Seq<char>,
    mode: QueryMode,
    use_apps: bool,
    use_bookmarks: bool,
    apps: Seq<AppView>,
    bms: Seq<BookmarkView>,
) -> Seq<CandView> {
    (if url_like(t) {
        seq![url_candidate(t)]
    } else {
        Seq::empty()
    }) + matched(t, mode, use_apps, use_bookmarks, apps, bms)
}

/// How many ranked matches are shown: those that fit under the cap beside
/// the URL entry, which is always shown.
pub open spec fn kept_matches(n: nat, cap: nat, with_url: bool, with_search: bool) -> nat {
    if with_url {
        let k = kept_count(n + 1, cap, with_search);
        if k > 0 {
            (k - 1) as nat
        } else {
            0
        }
    } else {
        kept_count(n, cap, with_search)
    }
}

/// Ranked matches cut to the cap, with the URL entry, if any, placed among
/// them by its score whatever the cap.
pub open spec fn placed(r: Seq<CandView>, url: Option<CandView>, cap: nat, with_search: bool) -> Seq<CandView> {
    let kept = r.take(kept_matches(r.len(), cap, url is Some, with_search) as int);
    match url {
        Some(u) => kept.insert(first_not_above(kept, u.result.score) as int, u),
        None => kept,
    }
}

/// The entries shown for a trimmed query: the matches ranked and cut to the
/// cap, the URL entry (when the query looks like one) placed among them by
/// its score whatever the cap, then the web-search entry where the mode
/// offers it.
pub open spec fn shown(
    t: Seq<char>,
    mode: QueryMode,
    cap: nat,
    use_apps: bool,
    use_bookmarks: bool,
    apps: Seq<AppView>,
    bms: Seq<BookmarkView>,
) -> Seq<CandView> {
    let f = found(t, mode, use_apps, use_bookmarks, apps, bms);
    let r = ranked(matched(t, mode, use_apps, use_bookmarks, apps, bms));
    let url = if url_like(t) {
        Some(url_candidate(t))
    } else {
        None
    };
    let with_url = placed(r, url, cap, mode.allows_web_search());
    if mode.allows_web_search() {
        with_url.push(search_candidate(t, f.len()))
    } else {
        with_url
    }
}

/// The entries shown for a query under the given settings.
pub open spec fn shown_for(
    query: Seq<char>,
    mode: Option<Seq<char>>,
    config: &AppConfig,
    apps: Seq<AppView>,
    bms: Seq<BookmarkView>,
) -> Seq<CandView> {
    shown(
        trimmed(query),
        mode_of(mode),
        config.result_limit(),
        config.enable_app_results,
        config.enable_bookmark_results,
        apps,
        bms,
    )
}

/// The rows of shown entries.
pub open spec fn rows_of(s: Seq<CandView>) -> Seq<ResultView> {
    s.map_values(|c: CandView| c.result)
}

/// The id bindings of shown entries.
pub open spec fn table_of(s: Seq<CandView>) -> Map<Seq<char>, ActionView> {
    bindings_map(s.map_values(|c: CandView| (c.result.id, c.action)))
}

/// What a non-blank query produces: the rows to show, and the actions behind
/// them by id.
#[derive(Debug)]
pub struct QueryOutcome {
    pub results: Vec<SearchResult>,
    pub actions: ActionTable,
}

fn string_of(s: &str) -> (r: String)
    ensures
        r@ == s@,
{
    String::from_str(s)
}

fn url_entry(t: &str) -> (r: Candidate)
    ensures
        r@ == url_candidate(t@),
{
    Candidate {
        result: SearchResult {
            id: string_of("url-0"),
            title: string_of("打开网址: ").concat(t),
            subtitle: string_of(t),
            icon: String::new(),
            score: URL_SCORE,
            action_id: string_of("url"),
        },
        action: PendingAction::Url(string_of(t)),
    }
}

fn app_entry(app: &ApplicationInfo, score: i64) -> (r: Candidate)
    ensures
        r@ == app_candidate(app@, score),
{
    let subtitle = match &app.description {
        Some(d) => if d.unicode_len() > 0 {
            d.clone()
        } else {
            app.path.clone()
        },
        None => app.path.clone(),
    };
    let action_id = match app.app_type {
        AppType::Win32 => string_of("app"),
        AppType::Uwp => string_of("uwp"),
    };
    Candidate {
        result: SearchResult {
            id: string_of("app-").concat(app.id.as_str()),
            title: app.name.clone(),
            subtitle,
            icon: app.icon_b64.clone(),
            score,
            action_id,
        },
        action: PendingAction::Application(app.copy()),
    }
}

fn bookmark_entry(b: &BookmarkEntry, score: i64) -> (r: Candidate)
    ensures
        r@ == bookmark_candidate(b@, score),
{
    let subtitle = match &b.folder_path {
        Some(p) => string_of("收藏夹 · ").concat(p.as_str()).concat(" · ").concat(b.url.as_str()),
        None => string_of("收藏夹 · ").concat(b.url.as_str()),
    };
    Candidate {
        result: SearchResult {
            id: string_of("bookmark-").concat(b.id.as_str()),
            title: b.title.clone(),
            subtitle,
            icon: String::new(),
            score,
            action_id: string_of("bookmark"),
        },
        action: PendingAction::Bookmark(b.copy()),
    }
}

/// The web-search URL for a query.
pub fn search_url(t: &str) -> (r: String)
    ensures
        r@ == "https://google.com/search?q="@ + percent_encoded(encode_utf8(t@)),
{
    string_of("https://google.com/search?q=").concat(percent_encode(t).as_str())
}

fn search_entry(t: &str, n: usize) -> (r: Candidate)
    ensures
        r@ == search_candidate(t@, n as nat),
{
    Candidate {
        result: SearchResult {
            id: string_of("search-").concat(decimal(n).as_str()),
            title: string_of("在 Google 上搜索: ").concat(t),
            subtitle: string_of("Google 搜索"),
            icon: String::new(),
            score: i64::MIN,
            action_id: string_of("search"),
        },
        action: PendingAction::Search(search_url(t)),
    }
}

} // verus!
verus! {

fn collect_apps(out: &mut Vec<Candidate>, apps: &Vec<ApplicationInfo>, t: &str)
    ensures
        cand_views(final(out)@) == cand_views(old(out)@) + app_candidates(app_views(apps@), t@),
{
    let ghost start = cand_views(out@);
    let ghost all = app_views(apps@);
    let mut i: usize = 0;
    assert(all.subrange(0, 0) =~= Seq::<AppView>::empty());
    assert(start + Seq::<CandView>::empty() =~= start);
    while i < apps.len()
        invariant
            all == app_views(apps@),
            i <= apps@.len(),
            cand_views(out@) == start + app_candidates(all.subrange(0, i as int), t@),
        decreases apps@.len() - i,
    {
        let ghost before = cand_views(out@);
        let app = &apps[i];
        proof {
            let pre = all.subrange(0, i + 1);
            assert(pre.drop_last() =~= all.subrange(0, i as int));
            assert(pre.last() == app@);
        }
        match match_application(app, t) {
            Some(score) => {
                out.push(app_entry(app, score));
                assert(cand_views(out@) =~= before.push(app_candidate(app@, score)));
            },
            None => {},
        }
        i = i + 1;
    }
    assert(all.subrange(0, apps@.len() as int) =~= all);
}

fn collect_bookmarks(out: &mut Vec<Candidate>, bookmarks: &Vec<BookmarkEntry>, t: &str)
    ensures
        cand_views(final(out)@) == cand_views(old(out)@) + bookmark_candidates(bookmark_views(bookmarks@), t@),
{
    let ghost start = cand_views(out@);
    let ghost all = bookmark_views(bookmarks@);
    let mut i: usize = 0;
    assert(all.subrange(0, 0) =~= Seq::<BookmarkView>::empty());
    assert(start + Seq::<CandView>::empty() =~= start);
    while i < bookmarks.len()
        invariant
            all == bookmark_views(bookmarks@),
            i <= bookmarks@.len(),
            cand_views(out@) == start + bookmark_candidates(all.subrange(0, i as int), t@),
        decreases bookmarks@.len() - i,
    {
        let ghost before = cand_views(out@);
        let b = &bookmarks[i];
        proof {
            let pre = all.subrange(0, i + 1);
            assert(pre.drop_last() =~= all.subrange(0, i as int));
            assert(pre.last() == b@);
        }
        match match_bookmark(b, t) {
            Some(score) => {
                out.push(bookmark_entry(b, score));
                assert(cand_views(out@) =~= before.push(bookmark_candidate(b@, score)));
            },
            None => {},
        }
        i = i + 1;
    }
    assert(all.subrange(0, bookmarks@.len() as int) =~= all);
}

fn split_outcome(shown: &Vec<Candidate>) -> (r: QueryOutcome)
    ensures
        result_views(r.results@) == rows_of(cand_views(shown@)),
        r.actions@ == table_of(cand_views(shown@)),
{
    let ghost all = cand_views(shown@);
    let mut results: Vec<SearchResult> = Vec::new();
    let mut actions = ActionTable::new();
    let mut i: usize = 0;
    proof {
        assert(all.subrange(0, 0).map_values(|c: CandView| (c.result.id, c.action)) =~= Seq::<
            (Seq<char>, ActionView),
        >::empty());
        assert(result_views(results@) =~= rows_of(all.subrange(0, 0)));
    }
    while i < shown.len()
        invariant
            all == cand_views(shown@),
            i <= shown@.len(),
            result_views(results@) == rows_of(all.subrange(0, i as int)),
            actions@ == table_of(all.subrange(0, i as int)),
        decreases shown@.len() - i,
    {
        let c = &shown[i];
        let ghost old_results = results@;
        results.push(c.result.copy());
        assert(result_views(results@) =~= result_views(old_results).push(c.result@));
        actions.bind(c.result.id.clone(), c.action.copy());
        proof {
            let pre = all.subrange(0, i + 1);
            assert(pre.drop_last() =~= all.subrange(0, i as int));
            assert(pre.last() == c@);
            let b = pre.map_values(|c: CandView| (c.result.id, c.action));
            assert(b.drop_last() =~= all.subrange(0, i as int).map_values(
                |c: CandView| (c.result.id, c.action),
            ));
            assert(rows_of(pre) =~= rows_of(all.subrange(0, i as int)).push(c@.result));
        }
        i = i + 1;
    }
    assert(all.subrange(0, shown@.len() as int) =~= all);
    QueryOutcome { results, actions }
}

/// The view of an optional candidate.
pub open spec fn opt_cand(c: Option<Candidate>) -> Option<CandView> {
    match c {
        Some(x) => Some(x@),
        None => None,
    }
}

fn cut_and_place(ranked: Vec<Candidate>, url: Option<Candidate>, cap: usize, with_search: bool) -> (r: Vec<Candidate>)
    requires
        url is Some ==> ranked@.len() < usize::MAX,
    ensures
        cand_views(r@) == placed(cand_views(ranked@), opt_cand(url), cap as nat, with_search),
{
    let mut out = ranked;
    let len = out.len();
    let total = match &url {
        Some(_) => len + 1,
        None => len,
    };
    let mut keep = if total < cap {
        total
    } else {
        cap
    };
    if with_search && cap > 1 && keep == cap {
        keep = cap - 1;
    }
    match &url {
        Some(_) => {
            keep = if keep > 0 {
                keep - 1
            } else {
                0
            };
        },
        None => {},
    }
    let ghost rv = cand_views(out@);
    out.truncate(keep);
    assert(cand_views(out@) =~= rv.take(keep as int));
    match url {
        Some(u) => {
            let ghost kept = cand_views(out@);
            let p = place_of(&out, u.result.score);
            out.insert(p, u);
            assert(cand_views(out@) =~= kept.insert(p as int, u@));
        },
        None => {},
    }
    out
}

/// Runs a query: nothing for a blank query; otherwise the ranked, capped
/// rows, and a fresh table that binds each shown row's id to its action.
pub fn run_query(
    query: &str,
    mode: Option<String>,
    config: &AppConfig,
    apps: &Vec<ApplicationInfo>,
    bookmarks: &Vec<BookmarkEntry>,
) -> (r: Option<QueryOutcome>)
    ensures
        r is None <==> is_blank(query@),
        r matches Some(o) ==> {
            let s = shown_for(query@, opt_text(mode), config, app_views(apps@), bookmark_views(bookmarks@));
            &&& result_views(o.results@) == rows_of(s)
            &&& o.actions@ == table_of(s)
        },
{
    let ghost mode_text = opt_text(mode);
    let t = trim(query);
    if t.unicode_len() == 0 {
        return None;
    }
    let qm = QueryMode::from_option(mode);
    let cap = normalize_max_results(None, config.max_results) as usize;
    let ghost apps_v = app_views(apps@);
    let ghost bms_v = bookmark_views(bookmarks@);
    let mut cands: Vec<Candidate> = Vec::new();
    if is_url_like(t) {
        cands.push(url_entry(t));
        assert(cand_views(cands@) =~= seq![url_candidate(t@)]);
    } else {
        assert(cand_views(cands@) =~= Seq::<CandView>::empty());
    }
    let ghost url_part = cand_views(cands@);
    let use_apps = qm.allows_applications() && config.enable_app_results;
    if use_apps {
        collect_apps(&mut cands, apps, t);
    } else {
        assert(cand_views(cands@) =~= url_part + Seq::<CandView>::empty());
    }
    let ghost app_part = cand_views(cands@);
    let use_bookmarks = qm.allows_bookmarks() && config.enable_bookmark_results;
    if use_bookmarks {
        collect_bookmarks(&mut cands, bookmarks, t);
    } else {
        assert(cand_views(cands@) =~= app_part + Seq::<CandView>::empty());
    }
    let ghost f = found(t@, qm, config.enable_app_results, config.enable_bookmark_results, apps_v, bms_v);
    let ghost mt = matched(t@, qm, config.enable_app_results, config.enable_bookmark_results, apps_v, bms_v);
    assert(cand_views(cands@) =~= f);
    let n = cands.len();
    let with_url = is_url_like(t);
    let mut url_cand: Option<Candidate> = None;
    if with_url {
        let ghost before = cands@;
        let uc = cands.remove(0);
        assert(uc@ == url_candidate(t@)) by {
            assert(cand_views(before)[0] == f[0]);
        }
        url_cand = Some(uc);
        assert(cand_views(cands@) =~= mt) by {
            assert forall|k: int| 0 <= k < cands@.len() implies cand_views(cands@)[k] == mt[k] by {
                assert(cands@[k] == before[k + 1]);
                assert(cand_views(before)[k + 1] == f[k + 1]);
            }
        }
    } else {
        assert(cand_views(cands@) =~= mt);
    }
    assert(url_cand matches Some(u) ==> u@ == url_candidate(t@));
    assert(with_url <==> url_cand is Some);
    assert(opt_cand(url_cand) == if url_like(t@) {
        Some(url_candidate(t@))
    } else {
        None
    });
    let ranked_cands = rank(cands);
    proof {
        lemma_ranked(mt);
    }
    let mut ranked_cands = cut_and_place(ranked_cands, url_cand, cap, qm.allows_web_search());
    if qm.allows_web_search() {
        let ghost kept = cand_views(ranked_cands@);
        ranked_cands.push(search_entry(t, n));
        assert(cand_views(ranked_cands@) =~= kept.push(search_candidate(t@, n as nat)));
    }
    assert(cand_views(ranked_cands@) == shown_for(query@, mode_text, config, apps_v, bms_v));
    Some(split_outcome(&ranked_cands))
}

/// The shown entries number at most the cap, one more only when the cap is at
/// most one and a web-search entry follows; all but that trailing entry come
/// in descending score; a query that looks like a URL always shows its URL
/// entry. A cap of zero leaves no room for that entry, so it is excluded for
/// such queries.
pub proof fn shown_within_cap_and_ordered(
    t: Seq<char>,
    mode: QueryMode,
    cap: nat,
    use_apps: bool,
    use_bookmarks: bool,
    apps: Seq<AppView>,
    bms: Seq<BookmarkView>,
)
    requires
        cap > 0 || !url_like(t),
    ensures
        ({
            let s = shown(t, mode, cap, use_apps, use_bookmarks, apps, bms);
            let extra: int = if mode.allows_web_search() {
                1
            } else {
                0
            };
            &&& s.len() <= cap + if cap <= 1 {
                extra
            } else {
                0
            }
            &&& descending(s.take(s.len() - extra))
            &&& mode.allows_web_search() ==> s.last().result.score == i64::MIN
            &&& url_like(t) ==> s.contains(url_candidate(t))
        }),
{
    let m = matched(t, mode, use_apps, use_bookmarks, apps, bms);
    lemma_ranked(m);
    let r = ranked(m);
    let search = mode.allows_web_search();
    let k = kept_matches(r.len(), cap, url_like(t), search);
    let kept = r.take(k as int);
    let s = shown(t, mode, cap, use_apps, use_bookmarks, apps, bms);
    assert(descending(kept)) by {
        assert forall|i: int, j: int| 0 <= i < j < kept.len() implies kept[i].result.score
            >= kept[j].result.score by {
            assert(kept[i] == r[i] && kept[j] == r[j]);
        }
    }
    let url = if url_like(t) {
        Some(url_candidate(t))
    } else {
        None
    };
    let w = placed(r, url, cap, search);
    if url_like(t) {
        let u = url_candidate(t);
        lemma_place_keeps_descending(kept, u);
        let p = first_not_above(kept, u.result.score) as int;
        assert(w[p] == u);
        if search {
            assert(s[p] == w[p]);
        }
    }
    if search {
        assert(s.take(s.len() - 1) =~= w);
    } else {
        assert(s.take(s.len() as int) =~= w);
    }
}

/// Every row a query shows is bound in the table that the query installs.
pub proof fn shown_ids_resolve(s: Seq<CandView>, i: int)
    requires
        0 <= i < s.len(),
    ensures
        table_of(s).contains_key(s[i].result.id),
        rows_of(s)[i].id == s[i].result.id,
{
    let b = s.map_values(|c: CandView| (c.result.id, c.action));
    crate::resolver::lemma_bindings_has(b, i);
}

/// Once a later query has installed its table, an id that the later query
/// does not show is no longer bound.
pub proof fn unshown_ids_are_stale(s: Seq<CandView>, id: Seq<char>)
    requires
        forall|i: int| 0 <= i < s.len() ==> (#[trigger] s[i]).result.id != id,
    ensures
        !table_of(s).contains_key(id),
{
    let b = s.map_values(|c: CandView| (c.result.id, c.action));
    assert forall|j: int| 0 <= j < b.len() implies (#[trigger] b[j]).0 != id by {
        assert(b[j].0 == s[j].result.id);
    }
    crate::resolver::lemma_bindings_absent(b, id);
}

} // verus!

use rust_launcher::config::AppConfig;
use rust_launcher::model::{AppType, ApplicationInfo, BookmarkEntry, SearchResult};
use rust_launcher::query::{decimal, run_query, search_url};
use rust_launcher::resolver::{ExecuteError, LaunchPlan};
use rust_launcher::state::{execute_action, submit_query, AppState};

fn app(id: &str, name: &str, keywords: &[&str]) -> ApplicationInfo {
    ApplicationInfo {
        id: id.to_string(),
        name: name.to_string(),
        path: format!("C:\\Apps\\{name}.exe"),
        app_type: AppType::Win32,
        icon_b64: String::new(),
        description: None,
        keywords: keywords.iter().map(|k| k.to_string()).collect(),
    }
}

fn bookmark(id: &str, title: &str, url: &str) -> BookmarkEntry {
    BookmarkEntry {
        id: id.to_string(),
        title: title.to_string(),
        url: url.to_string(),
        folder_path: None,
        keywords: Vec::new(),
    }
}

fn state_with(apps: Vec<ApplicationInfo>, bookmarks: Vec<BookmarkEntry>) -> AppState {
    let mut state = AppState::new();
    state.app_index = apps;
    state.bookmark_index = bookmarks;
    state
}

fn assert_ranked(results: &[SearchResult], trailing_search: bool) {
    let end = if trailing_search { results.len() - 1 } else { results.len() };
    for pair in results[..end].windows(2) {
        assert!(pair[0].score >= pair[1].score);
    }
}

#[test]
fn chrome_and_charts_rank_before_web_search() {
    let mut state = state_with(
        vec![app("chrome", "Chrome", &[])],
        vec![bookmark("1", "Charts", "https://charts.example.org")],
    );
    let results = submit_query(&mut state, "chr", Some("all".to_string()));
    assert_eq!(results.len(), 3);
    let last = results.last().unwrap();
    assert_eq!(last.action_id, "search");
    assert_eq!(last.title, "在 Google 上搜索: chr");
    assert_eq!(last.subtitle, "Google 搜索");
    assert_eq!(
        execute_action(&state, &last.id),
        Ok(LaunchPlan::OpenUrl("https://google.com/search?q=chr".to_string()))
    );
    assert_eq!(last.score, i64::MIN);
    let titles: Vec<&str> = results[..2].iter().map(|r| r.title.as_str()).collect();
    assert!(titles.contains(&"Chrome"));
    assert!(titles.contains(&"Charts"));
    assert_ranked(&results, true);
}

#[test]
fn fifteen_matches_under_cap_ten_show_nine_and_search() {
    let apps: Vec<ApplicationInfo> =
        (0..15).map(|i| app(&format!("a{i}"), &format!("Tool{i:02}"), &[])).collect();
    let mut state = state_with(apps, Vec::new());
    state.config.max_results = 10;
    let results = submit_query(&mut state, "tool", None);
    assert_eq!(results.len(), 10);
    assert_eq!(results.iter().filter(|r| r.action_id == "app").count(), 9);
    assert_eq!(results[9].action_id, "search");
    assert_ranked(&results, true);
}

#[test]
fn cap_holds_without_web_search() {
    let apps: Vec<ApplicationInfo> =
        (0..15).map(|i| app(&format!("a{i}"), &format!("Tool{i:02}"), &[])).collect();
    let mut state = state_with(apps, Vec::new());
    state.config.max_results = 10;
    let results = submit_query(&mut state, "tool", Some("apps".to_string()));
    assert_eq!(results.len(), 10);
    assert!(results.iter().all(|r| r.action_id == "app"));
    assert_ranked(&results, false);
}

#[test]
fn cap_is_clamped_to_its_range() {
    let apps: Vec<ApplicationInfo> =
        (0..80).map(|i| app(&format!("a{i}"), &format!("Tool{i:02}"), &[])).collect();
    let mut state = state_with(apps, Vec::new());
    state.config.max_results = 1;
    assert_eq!(submit_query(&mut state, "tool", None).len(), 10);
    state.config.max_results = 500;
    assert_eq!(submit_query(&mut state, "tool", None).len(), 60);
}

#[test]
fn blank_query_shows_nothing_and_keeps_actions() {
    let mut state = state_with(vec![app("chrome", "Chrome", &[])], Vec::new());
    let first = submit_query(&mut state, "chrome", None);
    let id = first[0].id.clone();
    assert!(submit_query(&mut state, "   \t ", None).is_empty());
    assert!(execute_action(&state, &id).is_ok());
    assert!(run_query("  ", None, &AppConfig::default(), &Vec::new(), &Vec::new()).is_none());
}

#[test]
fn every_shown_id_resolves() {
    let mut state = state_with(
        vec![app("chrome", "Chrome", &[]), app("code", "Code", &["chromium"])],
        vec![bookmark("7", "Chrome docs", "https://developer.chrome.com")],
    );
    let results = submit_query(&mut state, "chrome", None);
    assert!(results.len() >= 3);
    for r in &results {
        assert!(execute_action(&state, &r.id).is_ok(), "{} is stale", r.id);
    }
}

#[test]
fn earlier_ids_go_stale_after_a_new_query() {
    let mut state = state_with(
        vec![app("chrome", "Chrome", &[]), app("paint", "Paint", &[])],
        Vec::new(),
    );
    let first = submit_query(&mut state, "chrome", Some("apps".to_string()));
    assert_eq!(first.len(), 1);
    let old_id = first[0].id.clone();
    let second = submit_query(&mut state, "paint", Some("apps".to_string()));
    assert!(second.iter().all(|r| r.id != old_id));
    assert_eq!(execute_action(&state, &old_id), Err(ExecuteError::Stale));
}

#[test]
fn execute_plans_follow_the_action_kind() {
    let mut uwp = app("uwp:calc", "Calculator", &[]);
    uwp.app_type = AppType::Uwp;
    uwp.path = "Microsoft.Calc!App".to_string();
    let mut state = state_with(
        vec![app("chrome", "Chrome", &[]), uwp],
        vec![bookmark("9", "Calendar", "https://cal.example.org")],
    );
    let results = submit_query(&mut state, "c", None);
    for r in &results {
        let plan = execute_action(&state, &r.id).unwrap();
        match r.action_id.as_str() {
            "app" => assert_eq!(plan, LaunchPlan::StartProcess("C:\\Apps\\Chrome.exe".to_string())),
            "uwp" => assert_eq!(plan, LaunchPlan::ActivatePackage("Microsoft.Calc!App".to_string())),
            "bookmark" => assert_eq!(plan, LaunchPlan::OpenUrl("https://cal.example.org".to_string())),
            "search" => assert_eq!(plan, LaunchPlan::OpenUrl("https://google.com/search?q=c".to_string())),
            other => panic!("unexpected action {other}"),
        }
    }
}

#[test]
fn url_like_query_offers_url_entry_first() {
    let mut state = state_with(Vec::new(), Vec::new());
    let results = submit_query(&mut state, "  example.com  ", None);
    assert_eq!(results.len(), 2);
    assert_eq!(results[0].id, "url-0");
    assert_eq!(results[0].score, 200);
    assert_eq!(results[0].subtitle, "example.com");
    assert_eq!(results[0].title, "打开网址: example.com");
    assert_eq!(results[0].action_id, "url");
    assert_eq!(results[1].id, "search-1");
    assert_eq!(
        execute_action(&state, "url-0"),
        Ok(LaunchPlan::OpenUrl("example.com".to_string()))
    );
}

#[test]
fn search_mode_offers_only_url_and_search() {
    let mut state = state_with(vec![app("chrome", "Chrome", &[])], Vec::new());
    let results = submit_query(&mut state, "chrome", Some(" S ".to_string()));
    assert_eq!(results.len(), 1);
    assert_eq!(results[0].action_id, "search");
    assert_eq!(results[0].id, "search-0");
}

#[test]
fn bookmark_mode_and_disabled_sources() {
    let mut state = state_with(
        vec![app("chrome", "Chrome", &[])],
        vec![bookmark("1", "Chrome store", "https://store.example.org")],
    );
    let results = submit_query(&mut state, "chrome", Some("Bookmarks".to_string()));
    assert_eq!(results.len(), 1);
    assert_eq!(results[0].id, "bookmark-1");
    assert_eq!(results[0].subtitle, "收藏夹 · https://store.example.org");
    state.config.enable_bookmark_results = false;
    let results = submit_query(&mut state, "chrome", None);
    assert_eq!(results.len(), 2);
    assert_eq!(results[0].id, "app-chrome");
}

#[test]
fn app_subtitle_prefers_description() {
    let mut described = app("chrome", "Chrome", &[]);
    described.description = Some("Web browser".to_string());
    let mut empty = app("charm", "Charm", &[]);
    empty.description = Some(String::new());
    let mut state = state_with(vec![described, empty], Vec::new());
    let results = submit_query(&mut state, "ch", Some("app".to_string()));
    let chrome = results.iter().find(|r| r.title == "Chrome").unwrap();
    assert_eq!(chrome.subtitle, "Web browser");
    let charm = results.iter().find(|r| r.title == "Charm").unwrap();
    assert_eq!(charm.subtitle, "C:\\Apps\\Charm.exe");
}

#[test]
fn equal_scores_keep_discovery_order() {
    let apps = vec![app("b", "Notes", &[]), app("a", "Notes", &[]), app("c", "Notes", &[])];
    let mut state = state_with(apps, Vec::new());
    let results = submit_query(&mut state, "notes", Some("r".to_string()));
    let ids: Vec<&str> = results.iter().map(|r| r.id.as_str()).collect();
    assert_eq!(ids, vec!["app-b", "app-a", "app-c"]);
}

#[test]
fn search_url_is_percent_encoded() {
    assert_eq!(search_url("a b&c"), "https://google.com/search?q=a%20b%26c");
    assert_eq!(search_url("é"), "https://google.com/search?q=%C3%A9");
    assert_eq!(search_url("x-y_z.~"), "https://google.com/search?q=x-y_z.~");
}

#[test]
fn decimal_writes_digits() {
    assert_eq!(decimal(0), "0");
    assert_eq!(decimal(7), "7");
    assert_eq!(decimal(10), "10");
    assert_eq!(decimal(4096), "4096");
}

#[test]
fn url_entry_survives_a_full_cap() {
    let query = "https://docs.example.org/reference/guide";
    let bookmarks: Vec<BookmarkEntry> = (0..20)
        .map(|i| BookmarkEntry {
            id: format!("{i}"),
            title: query.to_string(),
            url: query.to_string(),
            folder_path: Some("work".to_string()),
            keywords: Vec::new(),
        })
        .collect();
    let mut state = state_with(Vec::new(), bookmarks);
    state.config.max_results = 10;
    let results = submit_query(&mut state, query, None);
    assert!(results[0].score > 200);
    assert_eq!(results.len(), 10);
    assert!(results.iter().any(|r| r.id == "url-0"));
    assert_eq!(results.iter().filter(|r| r.action_id == "bookmark").count(), 8);
    assert_eq!(results[9].action_id, "search");
    assert_ranked(&results, true);
}

#[test]
fn folder_subtitle_uses_original_separator() {
    let mut b = bookmark("5", "Rust book", "https://doc.rust-lang.org/book");
    b.folder_path = Some("Dev/Rust".to_string());
    let mut state = state_with(Vec::new(), vec![b]);
    let results = submit_query(&mut state, "rust book", Some("b".to_string()));
    assert_eq!(results[0].subtitle, "收藏夹 · Dev/Rust · https://doc.rust-lang.org/book");
}

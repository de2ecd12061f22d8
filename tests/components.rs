use rust_launcher::collectors::{packaged_app, registry_entry_listed, registry_entry_to_app, sort_distinct, RegistryEntry};
use rust_launcher::config::{
    default_enable_app_results, default_enable_bookmark_results, default_force_english_input,
    default_launch_on_startup, default_max_results, default_prefix_app, default_prefix_bookmark,
    default_prefix_search, default_query_delay, normalize_max_results, normalize_query_delay,
    plan_settings_update, AppConfig, SettingsError, SettingsUpdatePayload,
};
use rust_launcher::icon::{
    after_cache_lookup, after_extraction, cache_file_name, icon_cache_key, icon_index_or_zero, icon_source, icon_to_base64,
    swap_red_blue, to_hex, IconSource, IconStep,
};
use rust_launcher::index::merge_index;
use rust_launcher::mode::QueryMode;
use rust_launcher::model::{AppType, ApplicationInfo, BookmarkEntry};
use rust_launcher::paths::{collapse_backslashes, folder_without_separators, pick_largest_exe, reference_executable, startup_command_value};
use rust_launcher::resolver::{ActionTable, ExecuteError, PendingAction};
use rust_launcher::scoring::{match_application, match_bookmark};
use rust_launcher::state::{get_settings, AppState};
use rust_launcher::text::{count_tokens, is_url_like, same_text, starts_with, text_less, trim, wide_to_string};
use std::collections::HashMap;

fn app(id: &str, name: &str, keywords: &[&str]) -> ApplicationInfo {
    ApplicationInfo {
        id: id.to_string(),
        name: name.to_string(),
        path: format!("C:\\Apps\\{name}.exe"),
        app_type: AppType::Win32,
        icon_b64: String::new(),
        description: None,
        keywords: keywords.iter().map(|k| k.to_string()).collect(),
    }
}

#[test]
fn url_heuristic_examples() {
    assert!(is_url_like("https://example.com"));
    assert!(is_url_like("example.com"));
    assert!(!is_url_like("example com"));
    assert!(!is_url_like("open notepad"));
    assert!(is_url_like("http://a b"));
    assert!(!is_url_like("a. b"));
}

#[test]
fn text_helpers() {
    assert_eq!(trim("  a b \t\n"), "a b");
    assert_eq!(trim(" \u{3000} "), "");
    assert_eq!(count_tokens("  one two  three "), 3);
    assert_eq!(count_tokens("   "), 0);
    assert!(starts_with("https://x", "https://"));
    assert!(!starts_with("http", "https"));
    assert!(same_text("abc", "abc"));
    assert!(!same_text("abc", "abd"));
    assert!(text_less("abc", "abd"));
    assert!(text_less("ab", "abc"));
    assert!(!text_less("b", "abc"));
    assert!(!text_less("abc", "abc"));
}

#[test]
fn mode_tokens() {
    assert_eq!(QueryMode::from_option(None), QueryMode::All);
    assert_eq!(QueryMode::from_option(Some(" BOOKMARK ".to_string())), QueryMode::Bookmark);
    assert_eq!(QueryMode::from_option(Some("b".to_string())), QueryMode::Bookmark);
    assert_eq!(QueryMode::from_option(Some("Application".to_string())), QueryMode::Application);
    assert_eq!(QueryMode::from_option(Some("r".to_string())), QueryMode::Application);
    assert_eq!(QueryMode::from_option(Some("search".to_string())), QueryMode::Search);
    assert_eq!(QueryMode::from_option(Some("whatever".to_string())), QueryMode::All);
    assert!(QueryMode::All.allows_bookmarks() && QueryMode::All.allows_applications() && QueryMode::All.allows_web_search());
    assert!(!QueryMode::Search.allows_applications() && !QueryMode::Search.allows_bookmarks());
    assert!(!QueryMode::Bookmark.allows_web_search() && !QueryMode::Application.allows_web_search());
}

#[test]
fn name_match_outranks_keyword_match() {
    let named = app("n", "Notepad", &[]);
    let by_keyword = app("k", "Editor", &["Notepad"]);
    let a = match_application(&named, "note").unwrap();
    let b = match_application(&by_keyword, "note").unwrap();
    assert_eq!(b, a - 5);
    assert!(a > b);
    assert_eq!(match_application(&app("x", "Paint", &["", "brush"]), "note"), None);
}

#[test]
fn title_match_outranks_field_matches() {
    let titled = BookmarkEntry {
        id: "1".to_string(),
        title: "rust".to_string(),
        url: "https://a.example".to_string(),
        folder_path: None,
        keywords: Vec::new(),
    };
    let s = match_bookmark(&titled, "rust").unwrap();
    let by_folder = BookmarkEntry {
        id: "2".to_string(),
        title: "Docs".to_string(),
        url: "https://b.example".to_string(),
        folder_path: Some("rust".to_string()),
        keywords: Vec::new(),
    };
    assert_eq!(match_bookmark(&by_folder, "rust").unwrap(), s - 5);
    let by_keyword = BookmarkEntry {
        id: "3".to_string(),
        title: "Docs".to_string(),
        url: "https://b.example".to_string(),
        folder_path: None,
        keywords: vec!["rust".to_string()],
    };
    assert_eq!(match_bookmark(&by_keyword, "rust").unwrap(), s - 8);
    let none = BookmarkEntry {
        id: "4".to_string(),
        title: "Docs".to_string(),
        url: "https://b.example".to_string(),
        folder_path: None,
        keywords: Vec::new(),
    };
    assert_eq!(match_bookmark(&none, "rust"), None);
}

#[test]
fn config_defaults() {
    let c = AppConfig::default();
    assert_eq!(c.global_hotkey, "Alt+Space");
    assert_eq!(c.query_delay_ms, default_query_delay());
    assert_eq!(default_query_delay(), 120);
    assert_eq!(default_max_results(), 40);
    assert!(default_enable_app_results() && default_enable_bookmark_results());
    assert_eq!(default_prefix_app(), "r");
    assert_eq!(default_prefix_bookmark(), "b");
    assert_eq!(default_prefix_search(), "s");
    assert!(!default_launch_on_startup());
    assert!(default_force_english_input());
    let state = AppState::new();
    assert_eq!(get_settings(&state).max_results, 40);
    assert!(state.app_index.is_empty() && state.registered_hotkey.is_none());
}

#[test]
fn normalization_clamps() {
    assert_eq!(normalize_query_delay(Some(10), 300), 50);
    assert_eq!(normalize_query_delay(Some(5000), 300), 2000);
    assert_eq!(normalize_query_delay(None, 300), 300);
    assert_eq!(normalize_max_results(Some(3), 20), 10);
    assert_eq!(normalize_max_results(Some(61), 20), 60);
    assert_eq!(normalize_max_results(None, 25), 25);
}

#[test]
fn settings_update_plans() {
    let current = AppConfig::default();
    let blank = SettingsUpdatePayload { global_hotkey: Some("  ".to_string()), ..Default::default() };
    assert_eq!(plan_settings_update(&current, blank).err(), Some(SettingsError::EmptyHotkey));

    let same = SettingsUpdatePayload { global_hotkey: Some(" Alt+Space ".to_string()), ..Default::default() };
    let change = plan_settings_update(&current, same).unwrap();
    assert_eq!(change.rebind_hotkey, None);

    let updates = SettingsUpdatePayload {
        global_hotkey: Some(" Ctrl+K ".to_string()),
        query_delay_ms: Some(1),
        max_results: Some(100),
        enable_app_results: Some(false),
        enable_bookmark_results: None,
        prefix_app: Some("  a ".to_string()),
        prefix_bookmark: Some("   ".to_string()),
        prefix_search: None,
    };
    let change = plan_settings_update(&current, updates).unwrap();
    assert_eq!(change.rebind_hotkey.as_deref(), Some("Ctrl+K"));
    assert_eq!(change.config.global_hotkey, "Ctrl+K");
    assert_eq!(change.config.query_delay_ms, 50);
    assert_eq!(change.config.max_results, 60);
    assert!(!change.config.enable_app_results);
    assert!(change.config.enable_bookmark_results);
    assert_eq!(change.config.prefix_app, "a");
    assert_eq!(change.config.prefix_bookmark, "b");
    assert_eq!(change.config.prefix_search, "s");
}

#[test]
fn merge_dedups_and_sorts_by_name() {
    let native = vec![app("w:1", "zoom", &[]), app("dup", "Alpha", &[]), app("w:2", "beta", &[])];
    let mut packaged_dup = app("dup", "Other", &[]);
    packaged_dup.app_type = AppType::Uwp;
    let packaged = vec![packaged_dup, app("u:1", "Beta", &[])];
    let merged = merge_index(native, packaged);
    let names: Vec<&str> = merged.iter().map(|a| a.name.as_str()).collect();
    assert_eq!(names, vec!["Alpha", "beta", "Beta", "zoom"]);
    assert_eq!(merged[0].app_type, AppType::Win32);
}

#[test]
fn merge_is_repeatable() {
    let build = || {
        merge_index(
            vec![app("w:2", "Gimp", &[]), app("w:1", "code", &[]), app("w:1", "Code copy", &[])],
            vec![app("u:1", "Calc", &[]), app("u:2", "calc", &[])],
        )
    };
    let first: Vec<String> = build().iter().map(|a| a.id.clone()).collect();
    let second: Vec<String> = build().iter().map(|a| a.id.clone()).collect();
    assert_eq!(first, second);
    assert_eq!(first, vec!["u:1", "u:2", "w:1", "w:2"]);
}

#[test]
fn registry_entries_become_descriptors() {
    let entry = RegistryEntry {
        system_component: None,
        no_display: Some(0),
        display_name: Some("  Notepad++ ".to_string()),
        publisher: Some("Don Ho".to_string()),
        display_version: Some("8.6".to_string()),
    };
    assert!(registry_entry_listed(&entry));
    let app = registry_entry_to_app(
        &entry,
        "SOFTWARE\\Uninstall",
        "Notepad++",
        Some("C:\\npp\\notepad++.exe".to_string()),
        "ICON".to_string(),
    )
    .unwrap();
    assert_eq!(app.id, "win32:installed:software\\uninstall:notepad++");
    assert_eq!(app.name, "Notepad++");
    assert_eq!(app.path, "C:\\npp\\notepad++.exe");
    assert_eq!(app.description.as_deref(), Some("Don Ho"));
    assert_eq!(app.keywords, vec!["8.6", "Don Ho", "Notepad++"]);
    assert_eq!(app.icon_b64, "ICON");
    assert!(registry_entry_to_app(&entry, "p", "e", None, String::new()).is_none());
}

#[test]
fn hidden_registry_entries_are_skipped() {
    let system = RegistryEntry { system_component: Some(1), display_name: Some("X".to_string()), ..Default::default() };
    assert!(!registry_entry_listed(&system));
    let hidden = RegistryEntry { no_display: Some(1), display_name: Some("X".to_string()), ..Default::default() };
    assert!(registry_entry_to_app(&hidden, "p", "e", Some("x.exe".to_string()), String::new()).is_none());
    let unnamed = RegistryEntry { display_name: Some("   ".to_string()), ..Default::default() };
    assert!(!registry_entry_listed(&unnamed));
    let blank_publisher = RegistryEntry {
        display_name: Some("Tool".to_string()),
        publisher: Some("  ".to_string()),
        display_version: Some(" ".to_string()),
        ..Default::default()
    };
    let app = registry_entry_to_app(&blank_publisher, "p", "E", Some("t.exe".to_string()), String::new()).unwrap();
    assert_eq!(app.description, None);
    assert_eq!(app.keywords, vec!["Tool"]);
}

#[test]
fn packaged_apps_become_descriptors() {
    let app = packaged_app(
        "Microsoft.WindowsCalculator_8wekyb3d8bbwe!App",
        "Calculator",
        Some(String::new()),
        Some("Microsoft.WindowsCalculator".to_string()),
        Some("Calculator".to_string()),
        None,
        Some(vec![1, 2, 3, 4]),
    );
    assert_eq!(app.id, "uwp:microsoft.windowscalculator_8wekyb3d8bbwe!app");
    assert_eq!(app.path, "Microsoft.WindowsCalculator_8wekyb3d8bbwe!App");
    assert_eq!(app.app_type, AppType::Uwp);
    assert_eq!(app.description, None);
    assert_eq!(app.icon_b64, "AQIDBA==");
    assert_eq!(
        app.keywords,
        vec!["Calculator", "Microsoft.WindowsCalculator", "Microsoft.WindowsCalculator_8wekyb3d8bbwe!App"]
    );
    let bare = packaged_app("A!b", "B", Some("desc".to_string()), None, None, None, Some(Vec::new()));
    assert_eq!(bare.icon_b64, "");
    assert_eq!(bare.description.as_deref(), Some("desc"));
    assert_eq!(bare.keywords, vec!["A!b", "B", "desc"]);
}

#[test]
fn keywords_sorted_and_distinct() {
    let v: Vec<String> = ["b", "a", "b", "C", "a"].iter().map(|s| s.to_string()).collect();
    assert_eq!(sort_distinct(&v), vec!["C", "a", "b"]);
    assert!(sort_distinct(&Vec::new()).is_empty());
}

#[test]
fn executable_references() {
    assert_eq!(reference_executable("  \"C:\\Prog\\app.exe\",0 ").as_deref(), Some("C:\\Prog\\app.exe"));
    assert_eq!(reference_executable("C:\\a.exe;1").as_deref(), Some("C:\\a.exe"));
    assert_eq!(reference_executable("   "), None);
    assert_eq!(reference_executable("\"\",3"), None);
    assert_eq!(collapse_backslashes("C:\\\\a\\\\\\b"), "C:\\a\\\\b");
    assert_eq!(folder_without_separators("C:\\Prog\\//").as_deref(), Some("C:\\Prog"));
    assert_eq!(folder_without_separators("\\/"), None);
}

#[test]
fn largest_executable_wins() {
    let files = vec![
        ("C:\\p\\small.exe".to_string(), 10u64),
        ("C:\\p\\big.EXE".to_string(), 50),
        ("C:\\p\\readme.txt".to_string(), 999),
        ("C:\\p\\also.exe".to_string(), 50),
        ("C:\\p\\.exe".to_string(), 5000),
    ];
    assert_eq!(pick_largest_exe(&files).as_deref(), Some("C:\\p\\also.exe"));
    assert_eq!(pick_largest_exe(&vec![("a.txt".to_string(), 1)]), None);
}

#[test]
fn icon_keys_are_digests() {
    let key = icon_cache_key("C:\\Windows\\NOTEPAD.exe", 0);
    assert_eq!(key, "7dbf97f97c9bd36a244154ce418f4615768ce9b3");
    assert_eq!(icon_cache_key("c:\\windows\\notepad.exe", 0), key);
    assert_eq!(icon_cache_key("c:\\windows\\notepad.exe", -1), "78659f64230c3f1120574081173852df9bb894f2");
    assert_eq!(cache_file_name(&key), format!("{key}.b64"));
    assert_eq!(to_hex(&vec![0, 15, 16, 255]), "000f10ff");
}

#[test]
fn repeated_icon_request_extracts_once() {
    let mut disk: HashMap<String, String> = HashMap::new();
    let mut extractions = 0;
    let mut request = |path: &str| -> String {
        let key = icon_cache_key(path, 0);
        match after_cache_lookup(disk.get(&key).cloned()) {
            IconStep::Cached(icon) => icon,
            IconStep::Extract => {
                extractions += 1;
                let outcome = after_extraction(Some("iVBORw0KGgo=".to_string()));
                if let Some(data) = outcome.store {
                    disk.insert(key, data);
                }
                outcome.icon
            }
        }
    };
    let first = request("C:\\Tools\\app.exe");
    let second = request("c:\\tools\\APP.exe");
    assert_eq!(first.as_bytes(), second.as_bytes());
    drop(request);
    assert_eq!(extractions, 1);
    let failed = after_extraction(None);
    assert_eq!(failed.icon, "");
    assert_eq!(failed.store, None);
}

#[test]
fn action_table_binds_and_reports_stale() {
    let mut table = ActionTable::new();
    assert_eq!(table.resolve("x").err(), Some(ExecuteError::Stale));
    table.bind("x".to_string(), PendingAction::Url("a".to_string()));
    table.bind("x".to_string(), PendingAction::Url("b".to_string()));
    match table.resolve("x") {
        Ok(PendingAction::Url(u)) => assert_eq!(u, "b"),
        other => panic!("unexpected {other:?}"),
    }
    assert_eq!(table.resolve("y").err(), Some(ExecuteError::Stale));
}

#[test]
fn wide_buffers_decode_up_to_nul() {
    let units: Vec<u16> = "C:\\Windows".encode_utf16().chain([0, 65, 66]).collect();
    assert_eq!(wide_to_string(&units).as_deref(), Some("C:\\Windows"));
    assert_eq!(wide_to_string(&[0, 65]), None);
    assert_eq!(wide_to_string(&[]), None);
    assert_eq!(wide_to_string(&[0xD800, 0]), None);
    assert_eq!(wide_to_string(&[0x00E9]).as_deref(), Some("é"));
}

#[test]
fn startup_command_quotes_paths_with_spaces() {
    assert_eq!(startup_command_value("C:\\Program Files\\L\\l.exe"), "\"C:\\Program Files\\L\\l.exe\"");
    assert_eq!(startup_command_value("C:\\L\\l.exe"), "C:\\L\\l.exe");
}

#[test]
fn lowered_tokens_name_modes() {
    assert_eq!(QueryMode::mode_for_lowered("bookmarks"), QueryMode::Bookmark);
    assert_eq!(QueryMode::mode_for_lowered("apps"), QueryMode::Application);
    assert_eq!(QueryMode::mode_for_lowered("s"), QueryMode::Search);
    assert_eq!(QueryMode::mode_for_lowered("Search"), QueryMode::All);
    assert_eq!(QueryMode::mode_for_lowered(""), QueryMode::All);
}

#[test]
fn keyword_and_field_penalties_are_exact() {
    let v = match_application(&app("a", "Firefox", &[]), "fox").unwrap();
    assert_eq!(match_application(&app("b", "Browser", &["Firefox"]), "fox"), Some(v - 5));
    let base = |title: &str, url: &str, folder: Option<&str>, kw: &[&str]| BookmarkEntry {
        id: "x".to_string(),
        title: title.to_string(),
        url: url.to_string(),
        folder_path: folder.map(|f| f.to_string()),
        keywords: kw.iter().map(|k| k.to_string()).collect(),
    };
    let v = match_bookmark(&base("Firefox", "zzz", None, &[]), "fox").unwrap();
    assert_eq!(match_bookmark(&base("Docs", "zzz", Some("Firefox"), &[]), "fox"), Some(v - 5));
    assert_eq!(match_bookmark(&base("Docs", "Firefox", None, &[]), "fox"), Some(v - 8));
    assert_eq!(match_bookmark(&base("Docs", "zzz", None, &["Firefox"]), "fox"), Some(v - 8));
}

#[test]
fn icon_sources_and_indexes() {
    assert_eq!(icon_source(""), IconSource::NoIcon);
    assert_eq!(icon_source("%SystemRoot%\\notepad.exe"), IconSource::Expand);
    assert_eq!(icon_source("C:\\a.exe"), IconSource::Direct);
    assert_eq!(icon_index_or_zero(-3), 0);
    assert_eq!(icon_index_or_zero(4), 4);
}

#[test]
fn pixels_swap_to_rgba() {
    let mut p = vec![1, 2, 3, 4, 10, 20, 30, 40];
    swap_red_blue(&mut p);
    assert_eq!(p, vec![3, 2, 1, 4, 30, 20, 10, 40]);
}

#[test]
fn icon_pixels_encode_as_base64_png() {
    let icon = icon_to_base64(vec![0, 0, 255, 255, 255, 0, 0, 255], 2, 1).unwrap();
    assert!(icon.starts_with("iVBORw0KGgo"));
    let same = icon_to_base64(vec![0, 0, 255, 255, 255, 0, 0, 255], 2, 1).unwrap();
    assert_eq!(icon, same);
    let swapped = icon_to_base64(vec![255, 0, 0, 255, 0, 0, 255, 255], 2, 1).unwrap();
    assert_ne!(icon, swapped);
    assert_eq!(icon_to_base64(vec![0, 0, 0], 1, 1), None);
    assert_eq!(icon_to_base64(vec![0; 8], 1, 1), None);
}

use vstd::prelude::*;
use crate::text::{trim, trimmed, same_text};

verus! {

pub const MIN_QUERY_DELAY_MS: u64 = 50;
pub const MAX_QUERY_DELAY_MS: u64 = 2000;
pub const MIN_RESULT_LIMIT: u32 = 10;
pub const MAX_RESULT_LIMIT: u32 = 60;

/// The launcher's settings.
#[derive(Clone, Debug)]
pub struct AppConfig {
    pub global_hotkey: String,
    pub query_delay_ms: u64,
    pub max_results: u32,
    pub enable_app_results: bool,
    pub enable_bookmark_results: bool,
    pub prefix_app: String,
    pub prefix_bookmark: String,
    pub prefix_search: String,
    pub launch_on_startup: bool,
    pub force_english_input: bool,
}

/// A partial change of the settings; absent fields are left as they are.
#[derive(Debug, Default)]
pub struct SettingsUpdatePayload {
    pub global_hotkey: Option<String>,
    pub query_delay_ms: Option<u64>,
    pub max_results: Option<u32>,
    pub enable_app_results: Option<bool>,
    pub enable_bookmark_results: Option<bool>,
    pub prefix_app: Option<String>,
    pub prefix_bookmark: Option<String>,
    pub prefix_search: Option<String>,
}

/// Why a settings update was refused.
#[derive(Debug, PartialEq, Eq, Structural)]
pub enum SettingsError {
    /// The hotkey was blank.
    EmptyHotkey,
}

/// The settings after an update, and the hotkey to register, if it changed.
#[derive(Debug)]
pub struct SettingsChange {
    pub config: AppConfig,
    pub rebind_hotkey: Option<String>,
}

/// `v` brought into `[lo, hi]`.
pub open spec fn clamped(v: int, lo: int, hi: int) -> int {
    if v < lo {
        lo
    } else if v > hi {
        hi
    } else {
        v
    }
}

pub fn default_query_delay() -> (r: u64)
    ensures
        r == 120,
{
    120
}

pub fn default_max_results() -> (r: u32)
    ensures
        r == 40,
{
    40
}

pub fn default_enable_app_results() -> (r: bool)
    ensures
        r,
{
    true
}

pub fn default_enable_bookmark_results() -> (r: bool)
    ensures
        r,
{
    true
}

pub fn default_prefix_app() -> (r: String)
    ensures
        r@ == seq!['r'],
{
    proof {
        reveal_strlit("r");
    }
    String::from_str("r")
}

pub fn default_prefix_bookmark() -> (r: String)
    ensures
        r@ == seq!['b'],
{
    proof {
        reveal_strlit("b");
    }
    String::from_str("b")
}

pub fn default_prefix_search() -> (r: String)
    ensures
        r@ == seq!['s'],
{
    proof {
        reveal_strlit("s");
    }
    String::from_str("s")
}

pub fn default_launch_on_startup() -> (r: bool)
    ensures
        !r,
{
    false
}

pub fn default_force_english_input() -> (r: bool)
    ensures
        r,
{
    true
}

/// The default global hotkey.
pub open spec fn default_hotkey() -> Seq<char> {
    "Alt+Space"@
}

impl Default for AppConfig {
    fn default() -> (r: AppConfig)
        ensures
            r.is_default(),
    {
        AppConfig {
            global_hotkey: String::from_str("Alt+Space"),
            query_delay_ms: default_query_delay(),
            max_results: default_max_results(),
            enable_app_results: default_enable_app_results(),
            enable_bookmark_results: default_enable_bookmark_results(),
            prefix_app: default_prefix_app(),
            prefix_bookmark: default_prefix_bookmark(),
            prefix_search: default_prefix_search(),
            launch_on_startup: default_launch_on_startup(),
            force_english_input: default_force_english_input(),
        }
    }
}

impl AppConfig {
    /// A field-by-field copy.
    pub fn copy(&self) -> (r: AppConfig)
        ensures
            r.same_as(self),
    {
        AppConfig {
            global_hotkey: self.global_hotkey.clone(),
            query_delay_ms: self.query_delay_ms,
            max_results: self.max_results,
            enable_app_results: self.enable_app_results,
            enable_bookmark_results: self.enable_bookmark_results,
            prefix_app: self.prefix_app.clone(),
            prefix_bookmark: self.prefix_bookmark.clone(),
            prefix_search: self.prefix_search.clone(),
            launch_on_startup: self.launch_on_startup,
            force_english_input: self.force_english_input,
        }
    }

    /// Whether every field holds its default.
    pub open spec fn is_default(&self) -> bool {
        &&& self.global_hotkey@ == default_hotkey()
        &&& self.query_delay_ms == 120
        &&& self.max_results == 40
        &&& self.enable_app_results
        &&& self.enable_bookmark_results
        &&& self.prefix_app@ == seq!['r']
        &&& self.prefix_bookmark@ == seq!['b']
        &&& self.prefix_search@ == seq!['s']
        &&& !self.launch_on_startup
        &&& self.force_english_input
    }

    /// Whether two settings agree in every field.
    pub open spec fn same_as(&self, o: &AppConfig) -> bool {
        &&& self.global_hotkey@ == o.global_hotkey@
        &&& self.query_delay_ms == o.query_delay_ms
        &&& self.max_results == o.max_results
        &&& self.enable_app_results == o.enable_app_results
        &&& self.enable_bookmark_results == o.enable_bookmark_results
        &&& self.prefix_app@ == o.prefix_app@
        &&& self.prefix_bookmark@ == o.prefix_bookmark@
        &&& self.prefix_search@ == o.prefix_search@
        &&& self.launch_on_startup == o.launch_on_startup
        &&& self.force_english_input == o.force_english_input
    }

    /// The number of results a query may show.
    pub open spec fn result_limit(&self) -> nat {
        clamped(self.max_results as int, MIN_RESULT_LIMIT as int, MAX_RESULT_LIMIT as int) as nat
    }
}

/// The debounce delay to keep: the candidate, or the current value, clamped
/// to the accepted range.
pub fn normalize_query_delay(candidate: Option<u64>, current: u64) -> (r: u64)
    ensures
        r == clamped(
            match candidate {
                Some(v) => v,
                None => current,
            } as int,
            MIN_QUERY_DELAY_MS as int,
            MAX_QUERY_DELAY_MS as int,
        ),
{
    let value = match candidate {
        Some(v) => v,
        None => current,
    };
    if value < MIN_QUERY_DELAY_MS {
        MIN_QUERY_DELAY_MS
    } else if value > MAX_QUERY_DELAY_MS {
        MAX_QUERY_DELAY_MS
    } else {
        value
    }
}

/// The result cap to keep: the candidate, or the current value, clamped to
/// the accepted range.
pub fn normalize_max_results(candidate: Option<u32>, current: u32) -> (r: u32)
    ensures
        r == clamped(
            match candidate {
                Some(v) => v,
                None => current,
            } as int,
            MIN_RESULT_LIMIT as int,
            MAX_RESULT_LIMIT as int,
        ),
{
    let value = match candidate {
        Some(v) => v,
        None => current,
    };
    if value < MIN_RESULT_LIMIT {
        MIN_RESULT_LIMIT
    } else if value > MAX_RESULT_LIMIT {
        MAX_RESULT_LIMIT
    } else {
        value
    }
}

/// The prefix to keep: the trimmed candidate when it is not blank, else the
/// current one.
pub open spec fn updated_prefix(candidate: Option<String>, current: Seq<char>) -> Seq<char> {
    match candidate {
        Some(p) => if trimmed(p@).len() > 0 {
            trimmed(p@)
        } else {
            current
        },
        None => current,
    }
}

fn update_prefix(candidate: Option<String>, current: &String) -> (r: String)
    ensures
        r@ == updated_prefix(candidate, current@),
{
    match candidate {
        Some(p) => {
            let t = trim(p.as_str());
            if t.unicode_len() > 0 {
                String::from_str(t)
            } else {
                current.clone()
            }
        },
        None => current.clone(),
    }
}

/// An optional flag applied over the current one.
pub open spec fn updated_flag(candidate: Option<bool>, current: bool) -> bool {
    match candidate {
        Some(v) => v,
        None => current,
    }
}

/// The hotkey after an update: the trimmed candidate, or the current one.
pub open spec fn updated_hotkey(candidate: Option<String>, current: Seq<char>) -> Seq<char> {
    match candidate {
        Some(h) => trimmed(h@),
        None => current,
    }
}

/// The hotkey to register after an update: the trimmed candidate, when it
/// differs from the current one.
pub open spec fn hotkey_to_bind(candidate: Option<String>, current: Seq<char>) -> Option<Seq<char>> {
    match candidate {
        Some(h) => if trimmed(h@) != current {
            Some(trimmed(h@))
        } else {
            None
        },
        None => None,
    }
}

/// Applies a settings update: a blank hotkey is refused; a new hotkey (after
/// trimming) is to be registered; the delay and cap are clamped when given;
/// blank prefixes are ignored; other fields are kept.
pub fn plan_settings_update(current: &AppConfig, updates: SettingsUpdatePayload) -> (r: Result<SettingsChange, SettingsError>)
    ensures
        r is Err <==> (updates.global_hotkey matches Some(h) && trimmed(h@).len() == 0),
        r matches Err(e) ==> e == SettingsError::EmptyHotkey,
        r matches Ok(c) ==> {
            &&& c.config.global_hotkey@ == updated_hotkey(updates.global_hotkey, current.global_hotkey@)
            &&& crate::model::opt_text(c.rebind_hotkey) == hotkey_to_bind(updates.global_hotkey, current.global_hotkey@)
            &&& c.config.query_delay_ms == match updates.query_delay_ms {
                Some(v) => clamped(v as int, MIN_QUERY_DELAY_MS as int, MAX_QUERY_DELAY_MS as int) as u64,
                None => current.query_delay_ms,
            }
            &&& c.config.max_results == match updates.max_results {
                Some(v) => clamped(v as int, MIN_RESULT_LIMIT as int, MAX_RESULT_LIMIT as int) as u32,
                None => current.max_results,
            }
            &&& c.config.enable_app_results == updated_flag(updates.enable_app_results, current.enable_app_results)
            &&& c.config.enable_bookmark_results == updated_flag(updates.enable_bookmark_results, current.enable_bookmark_results)
            &&& c.config.prefix_app@ == updated_prefix(updates.prefix_app, current.prefix_app@)
            &&& c.config.prefix_bookmark@ == updated_prefix(updates.prefix_bookmark, current.prefix_bookmark@)
            &&& c.config.prefix_search@ == updated_prefix(updates.prefix_search, current.prefix_search@)
            &&& c.config.launch_on_startup == current.launch_on_startup
            &&& c.config.force_english_input == current.force_english_input
        },
{
    let mut config = current.copy();
    let mut rebind_hotkey: Option<String> = None;
    match updates.global_hotkey {
        Some(h) => {
            let t = trim(h.as_str());
            if t.unicode_len() == 0 {
                return Err(SettingsError::EmptyHotkey);
            }
            if !same_text(t, current.global_hotkey.as_str()) {
                rebind_hotkey = Some(String::from_str(t));
            }
            config.global_hotkey = String::from_str(t);
        },
        None => {},
    }
    match updates.query_delay_ms {
        Some(_) => {
            config.query_delay_ms = normalize_query_delay(updates.query_delay_ms, current.query_delay_ms);
        },
        None => {},
    }
    match updates.max_results {
        Some(_) => {
            config.max_results = normalize_max_results(updates.max_results, current.max_results);
        },
        None => {},
    }
    match updates.enable_app_results {
        Some(v) => {
            config.enable_app_results = v;
        },
        None => {},
    }
    match updates.enable_bookmark_results {
        Some(v) => {
            config.enable_bookmark_results = v;
        },
        None => {},
    }
    config.prefix_app = update_prefix(updates.prefix_app, &current.prefix_app);
    config.prefix_bookmark = update_prefix(updates.prefix_bookmark, &current.prefix_bookmark);
    config.prefix_search = update_prefix(updates.prefix_search, &current.prefix_search);
    Ok(SettingsChange { config, rebind_hotkey })
}

} // verus!

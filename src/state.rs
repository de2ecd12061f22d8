use vstd::prelude::*;
use crate::config::AppConfig;
use crate::model::{app_views, bookmark_views, opt_text, result_views, ApplicationInfo, BookmarkEntry, SearchResult};
use crate::query::{rows_of, run_query, shown_for, table_of};
use crate::resolver::{plan_launch, plan_matches, ActionTable, ExecuteError, LaunchPlan};
use crate::text::is_blank;

verus! {

/// Everything the launcher keeps between calls: the index snapshot, the
/// settings, the actions of the latest query and the registered hotkey.
#[derive(Debug)]
pub struct AppState {
    pub app_index: Vec<ApplicationInfo>,
    pub bookmark_index: Vec<BookmarkEntry>,
    pub config: AppConfig,
    pub pending_actions: ActionTable,
    pub registered_hotkey: Option<String>,
}

impl AppState {
    /// An empty index, default settings, no pending actions, no hotkey.
    pub fn new() -> (r: AppState)
        ensures
            r.app_index@.len() == 0,
            r.bookmark_index@.len() == 0,
            r.config.is_default(),
            r.pending_actions@ == Map::<Seq<char>, crate::resolver::ActionView>::empty(),
            r.registered_hotkey is None,
    {
        AppState {
            app_index: Vec::new(),
            bookmark_index: Vec::new(),
            config: AppConfig::default(),
            pending_actions: ActionTable::new(),
            registered_hotkey: None,
        }
    }
}

/// Answers a query against the current snapshot and settings. A blank query
/// shows nothing and changes nothing; any other query replaces the pending
/// actions, wholesale, with those of the rows it shows.
pub fn submit_query(state: &mut AppState, query: &str, mode: Option<String>) -> (r: Vec<SearchResult>)
    ensures
        final(state).app_index == old(state).app_index,
        final(state).bookmark_index == old(state).bookmark_index,
        final(state).config == old(state).config,
        final(state).registered_hotkey == old(state).registered_hotkey,
        is_blank(query@) ==> r@.len() == 0 && final(state).pending_actions == old(state).pending_actions,
        !is_blank(query@) ==> {
            let s = shown_for(
                query@,
                opt_text(mode),
                &old(state).config,
                app_views(old(state).app_index@),
                bookmark_views(old(state).bookmark_index@),
            );
            &&& result_views(r@) == rows_of(s)
            &&& final(state).pending_actions@ == table_of(s)
        },
{
    match run_query(query, mode, &state.config, &state.app_index, &state.bookmark_index) {
        None => Vec::new(),
        Some(outcome) => {
            state.pending_actions = outcome.actions;
            outcome.results
        },
    }
}

/// Resolves a shown row's id to the launch it asks for, or the stale-result
/// error when the latest query did not show it.
pub fn execute_action(state: &AppState, id: &str) -> (r: Result<LaunchPlan, ExecuteError>)
    ensures
        r is Ok <==> state.pending_actions@.contains_key(id@),
        r matches Ok(p) ==> plan_matches(p, state.pending_actions@[id@]),
        r matches Err(e) ==> e == ExecuteError::Stale,
{
    match state.pending_actions.resolve(id) {
        Ok(action) => Ok(plan_launch(&action)),
        Err(e) => Err(e),
    }
}

/// A copy of the current settings.
pub fn get_settings(state: &AppState) -> (r: AppConfig)
    ensures
        r.same_as(&state.config),
{
    state.config.copy()
}

} // verus!

use vstd::prelude::*;
use crate::model::{AppType, AppView, ApplicationInfo, BookmarkEntry, BookmarkView};
use crate::text::same_text;

verus! {

/// What executing a shown result does.
#[derive(Clone, Debug)]
pub enum PendingAction {
    Application(ApplicationInfo),
    Bookmark(BookmarkEntry),
    Url(String),
    Search(String),
}

pub enum ActionView {
    Application(AppView),
    Bookmark(BookmarkView),
    Url(Seq<char>),
    Search(Seq<char>),
}

impl View for PendingAction {
    type V = ActionView;

    open spec fn view(&self) -> ActionView {
        match self {
            PendingAction::Application(a) => ActionView::Application(a@),
            PendingAction::Bookmark(b) => ActionView::Bookmark(b@),
            PendingAction::Url(u) => ActionView::Url(u@),
            PendingAction::Search(u) => ActionView::Search(u@),
        }
    }
}

impl PendingAction {
    /// A field-by-field copy.
    pub fn copy(&self) -> (r: PendingAction)
        ensures
            r@ == self@,
    {
        match self {
            PendingAction::Application(a) => PendingAction::Application(a.copy()),
            PendingAction::Bookmark(b) => PendingAction::Bookmark(b.copy()),
            PendingAction::Url(u) => PendingAction::Url(u.clone()),
            PendingAction::Search(u) => PendingAction::Search(u.clone()),
        }
    }
}

/// Why executing a result failed.
#[derive(Debug, PartialEq, Eq)]
pub enum ExecuteError {
    /// The result belongs to a query that a newer one has replaced.
    Stale,
    /// The launcher refused; the text is the system's message.
    Launch(String),
}

/// The outside work that an action asks for.
#[derive(Clone, Debug, PartialEq, Eq)]
pub enum LaunchPlan {
    /// Start a native executable, in its parent folder.
    StartProcess(String),
    /// Activate a packaged app by its app id.
    ActivatePackage(String),
    /// Hand a URL to the system's default handler.
    OpenUrl(String),
}

/// The text a launch works on: an executable path, an app id or a URL.
pub open spec fn launch_target(a: ActionView) -> Seq<char> {
    match a {
        ActionView::Application(app) => app.path,
        ActionView::Bookmark(b) => b.url,
        ActionView::Url(u) => u,
        ActionView::Search(u) => u,
    }
}

/// Whether a plan is of the kind that an action asks for.
pub open spec fn plan_matches(p: LaunchPlan, a: ActionView) -> bool {
    match p {
        LaunchPlan::StartProcess(t) => a matches ActionView::Application(app) && app.app_type == AppType::Win32
            && t@ == launch_target(a),
        LaunchPlan::ActivatePackage(t) => a matches ActionView::Application(app) && app.app_type == AppType::Uwp
            && t@ == launch_target(a),
        LaunchPlan::OpenUrl(t) => !(a is Application) && t@ == launch_target(a),
    }
}

/// Chooses the collaborator for an action: native apps are started, packaged
/// apps activated, and bookmarks, URLs and searches opened as URLs.
pub fn plan_launch(action: &PendingAction) -> (r: LaunchPlan)
    ensures
        plan_matches(r, action@),
{
    match action {
        PendingAction::Application(app) => match app.app_type {
            AppType::Win32 => LaunchPlan::StartProcess(app.path.clone()),
            AppType::Uwp => LaunchPlan::ActivatePackage(app.path.clone()),
        },
        PendingAction::Bookmark(b) => LaunchPlan::OpenUrl(b.url.clone()),
        PendingAction::Url(u) => LaunchPlan::OpenUrl(u.clone()),
        PendingAction::Search(u) => LaunchPlan::OpenUrl(u.clone()),
    }
}

/// The actions of one query, by result id.
#[derive(Debug)]
pub struct ActionTable {
    pub entries: Vec<(String, PendingAction)>,
}

/// The map that a list of bindings describes; a later binding of an id
/// replaces an earlier one.
pub open spec fn bindings_map(s: Seq<(Seq<char>, ActionView)>) -> Map<Seq<char>, ActionView>
    decreases s.len(),
{
    if s.len() == 0 {
        Map::empty()
    } else {
        bindings_map(s.drop_last()).insert(s.last().0, s.last().1)
    }
}

/// The views of a list of bindings.
pub open spec fn binding_views(s: Seq<(String, PendingAction)>) -> Seq<(Seq<char>, ActionView)> {
    s.map_values(|e: (String, PendingAction)| (e.0@, e.1@))
}

impl View for ActionTable {
    type V = Map<Seq<char>, ActionView>;

    open spec fn view(&self) -> Map<Seq<char>, ActionView> {
        bindings_map(binding_views(self.entries@))
    }
}

/// Nothing is bound to an id that no binding names.
pub proof fn lemma_bindings_absent(s: Seq<(Seq<char>, ActionView)>, id: Seq<char>)
    requires
        forall|j: int| 0 <= j < s.len() ==> (#[trigger] s[j]).0 != id,
    ensures
        !bindings_map(s).contains_key(id),
    decreases s.len(),
{
    if s.len() > 0 {
        let init = s.drop_last();
        assert forall|j: int| 0 <= j < init.len() implies (#[trigger] init[j]).0 != id by {
            assert(init[j] == s[j]);
        }
        lemma_bindings_absent(init, id);
        assert(s.last() == s[s.len() - 1]);
    }
}

proof fn lemma_bindings_last(s: Seq<(Seq<char>, ActionView)>, i: int)
    requires
        0 <= i < s.len(),
        forall|j: int| i < j < s.len() ==> (#[trigger] s[j]).0 != s[i].0,
    ensures
        bindings_map(s).contains_key(s[i].0),
        bindings_map(s)[s[i].0] == s[i].1,
    decreases s.len(),
{
    let init = s.drop_last();
    assert(s.last() == s[s.len() - 1]);
    if i < s.len() - 1 {
        assert forall|j: int| i < j < init.len() implies (#[trigger] init[j]).0 != init[i].0 by {
            assert(init[j] == s[j]);
        }
        lemma_bindings_last(init, i);
        assert(init[i] == s[i]);
    }
}

/// Every id that a binding names is bound.
pub proof fn lemma_bindings_has(s: Seq<(Seq<char>, ActionView)>, i: int)
    requires
        0 <= i < s.len(),
    ensures
        bindings_map(s).contains_key(s[i].0),
    decreases s.len(),
{
    let init = s.drop_last();
    assert(s.last() == s[s.len() - 1]);
    if i < s.len() - 1 {
        assert(init[i] == s[i]);
        lemma_bindings_has(init, i);
    }
}

impl ActionTable {
    /// A table that binds nothing.
    pub fn new() -> (r: ActionTable)
        ensures
            r@ == Map::<Seq<char>, ActionView>::empty(),
    {
        ActionTable { entries: Vec::new() }
    }

    /// Binds `id` to `action`, replacing an earlier binding of `id`.
    pub fn bind(&mut self, id: String, action: PendingAction)
        ensures
            final(self)@ == old(self)@.insert(id@, action@),
    {
        let ghost before = binding_views(self.entries@);
        self.entries.push((id, action));
        proof {
            let after = binding_views(self.entries@);
            assert(after.drop_last() =~= before);
        }
    }

    /// The action bound to `id`, or the stale-result error when this table
    /// binds nothing to it.
    pub fn resolve(&self, id: &str) -> (r: Result<PendingAction, ExecuteError>)
        ensures
            r is Ok <==> self@.contains_key(id@),
            r matches Ok(a) ==> a@ == self@[id@],
            r matches Err(e) ==> e == ExecuteError::Stale,
    {
        let ghost s = binding_views(self.entries@);
        let mut i: usize = self.entries.len();
        while i > 0
            invariant
                s == binding_views(self.entries@),
                i <= self.entries@.len(),
                forall|j: int| i <= j < s.len() ==> (#[trigger] s[j]).0 != id@,
            decreases i,
        {
            let k = i - 1;
            if same_text(self.entries[k].0.as_str(), id) {
                proof {
                    assert(s[k as int].0 == id@);
                    lemma_bindings_last(s, k as int);
                }
                return Ok(self.entries[k].1.copy());
            }
            assert(s[k as int].0 != id@);
            i = k;
        }
        proof {
            lemma_bindings_absent(s, id@);
        }
        Err(ExecuteError::Stale)
    }
}

} // verus!

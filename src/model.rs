use vstd::prelude::*;

verus! {

/// How an application is started: a native executable, or a packaged app id.
#[derive(Clone, Copy, PartialEq, Eq, Debug, Structural)]
pub enum AppType {
    Win32,
    Uwp,
}

/// One installed application in the index.
#[derive(Clone, Debug)]
pub struct ApplicationInfo {
    pub id: String,
    pub name: String,
    /// The executable path of a native app, or the app id of a packaged one.
    pub path: String,
    pub app_type: AppType,
    /// A base64-encoded raster image, or empty.
    pub icon_b64: String,
    pub description: Option<String>,
    pub keywords: Vec<String>,
}

/// One saved bookmark in the index.
#[derive(Clone, Debug)]
pub struct BookmarkEntry {
    pub id: String,
    pub title: String,
    pub url: String,
    pub folder_path: Option<String>,
    pub keywords: Vec<String>,
}

/// One row shown for a query; it carries no action, only what is displayed.
#[derive(Clone, Debug)]
pub struct SearchResult {
    pub id: String,
    pub title: String,
    pub subtitle: String,
    pub icon: String,
    pub score: i64,
    pub action_id: String,
}

pub struct AppView {
    pub id: Seq<char>,
    pub name: Seq<char>,
    pub path: Seq<char>,
    pub app_type: AppType,
    pub icon: Seq<char>,
    pub description: Option<Seq<char>>,
    pub keywords: Seq<Seq<char>>,
}

pub struct BookmarkView {
    pub id: Seq<char>,
    pub title: Seq<char>,
    pub url: Seq<char>,
    pub folder_path: Option<Seq<char>>,
    pub keywords: Seq<Seq<char>>,
}

pub struct ResultView {
    pub id: Seq<char>,
    pub title: Seq<char>,
    pub subtitle: Seq<char>,
    pub icon: Seq<char>,
    pub score: i64,
    pub action_id: Seq<char>,
}

/// The characters of each string of a sequence.
pub open spec fn texts(v: Seq<String>) -> Seq<Seq<char>> {
    v.map_values(|s: String| s@)
}

/// The characters of an optional string.
pub open spec fn opt_text(o: Option<String>) -> Option<Seq<char>> {
    match o {
        Some(s) => Some(s@),
        None => None,
    }
}

impl View for ApplicationInfo {
    type V = AppView;

    open spec fn view(&self) -> AppView {
        AppView {
            id: self.id@,
            name: self.name@,
            path: self.path@,
            app_type: self.app_type,
            icon: self.icon_b64@,
            description: opt_text(self.description),
            keywords: texts(self.keywords@),
        }
    }
}

impl View for BookmarkEntry {
    type V = BookmarkView;

    open spec fn view(&self) -> BookmarkView {
        BookmarkView {
            id: self.id@,
            title: self.title@,
            url: self.url@,
            folder_path: opt_text(self.folder_path),
            keywords: texts(self.keywords@),
        }
    }
}

impl View for SearchResult {
    type V = ResultView;

    open spec fn view(&self) -> ResultView {
        ResultView {
            id: self.id@,
            title: self.title@,
            subtitle: self.subtitle@,
            icon: self.icon@,
            score: self.score,
            action_id: self.action_id@,
        }
    }
}

/// The views of a sequence of applications.
pub open spec fn app_views(v: Seq<ApplicationInfo>) -> Seq<AppView> {
    v.map_values(|a: ApplicationInfo| a@)
}

/// The views of a sequence of bookmarks.
pub open spec fn bookmark_views(v: Seq<BookmarkEntry>) -> Seq<BookmarkView> {
    v.map_values(|b: BookmarkEntry| b@)
}

/// The views of a sequence of results.
pub open spec fn result_views(v: Seq<SearchResult>) -> Seq<ResultView> {
    v.map_values(|r: SearchResult| r@)
}

/// A copy of each string.
pub fn copy_texts(v: &Vec<String>) -> (r: Vec<String>)
    ensures
        texts(r@) == texts(v@),
{
    let mut r: Vec<String> = Vec::new();
    let mut i: usize = 0;
    while i < v.len()
        invariant
            i <= v@.len(),
            r@.len() == i,
            forall|j: int| 0 <= j < i ==> r@[j]@ == v@[j]@,
        decreases v@.len() - i,
    {
        r.push(v[i].clone());
        i = i + 1;
    }
    assert(texts(r@) =~= texts(v@));
    r
}

/// A copy of an optional string.
pub fn copy_opt_text(o: &Option<String>) -> (r: Option<String>)
    ensures
        opt_text(r) == opt_text(*o),
{
    match o {
        Some(s) => Some(s.clone()),
        None => None,
    }
}

impl ApplicationInfo {
    /// A field-by-field copy.
    pub fn copy(&self) -> (r: ApplicationInfo)
        ensures
            r@ == self@,
    {
        ApplicationInfo {
            id: self.id.clone(),
            name: self.name.clone(),
            path: self.path.clone(),
            app_type: self.app_type,
            icon_b64: self.icon_b64.clone(),
            description: copy_opt_text(&self.description),
            keywords: copy_texts(&self.keywords),
        }
    }
}

impl SearchResult {
    /// A field-by-field copy.
    pub fn copy(&self) -> (r: SearchResult)
        ensures
            r@ == self@,
    {
        SearchResult {
            id: self.id.clone(),
            title: self.title.clone(),
            subtitle: self.subtitle.clone(),
            icon: self.icon.clone(),
            score: self.score,
            action_id: self.action_id.clone(),
        }
    }
}

impl BookmarkEntry {
    /// A field-by-field copy.
    pub fn copy(&self) -> (r: BookmarkEntry)
        ensures
            r@ == self@,
    {
        BookmarkEntry {
            id: self.id.clone(),
            title: self.title.clone(),
            url: self.url.clone(),
            folder_path: copy_opt_text(&self.folder_path),
            keywords: copy_texts(&self.keywords),
        }
    }
}

} // verus!

use vstd::prelude::*;
use crate::text::{lower_of, lowercase, same_text, trim, trimmed};

verus! {

/// Which kinds of results a query asks for.
#[derive(Clone, Copy, PartialEq, Eq, Debug, Structural)]
pub enum QueryMode {
    All,
    Bookmark,
    Application,
    Search,
}

/// The mode named by a lower-case token; unknown tokens mean every kind.
pub open spec fn mode_for_token(t: Seq<char>) -> QueryMode {
    if t == "bookmark"@ || t == "bookmarks"@ || t == "b"@ {
        QueryMode::Bookmark
    } else if t == "app"@ || t == "apps"@ || t == "application"@ || t == "r"@ {
        QueryMode::Application
    } else if t == "search"@ || t == "s"@ {
        QueryMode::Search
    } else {
        QueryMode::All
    }
}

/// The mode of an optional token, compared after trimming and lower-casing.
pub open spec fn mode_of(mode: Option<Seq<char>>) -> QueryMode {
    match mode {
        Some(m) => mode_for_token(lower_of(trimmed(m))),
        None => QueryMode::All,
    }
}

fn is_token(t: &str, lit: &str) -> (r: bool)
    ensures
        r == (t@ == lit@),
{
    same_text(t, lit)
}

impl QueryMode {
    /// Reads a mode token: trimmed, compared without case, `All` when absent
    /// or unknown.
    pub fn from_option(mode: Option<String>) -> (r: QueryMode)
        ensures
            r == mode_of(crate::model::opt_text(mode)),
    {
        match mode {
            None => {
                assert(crate::model::opt_text(mode) == None::<Seq<char>>);
                QueryMode::All
            },
            Some(m) => {
                assert(crate::model::opt_text(mode) == Some(m@));
                let lowered = lowercase(trim(m.as_str()));
                QueryMode::mode_for_lowered(lowered.as_str())
            },
        }
    }

    /// The mode that a trimmed, lower-cased token names; `All` when it names
    /// none.
    pub fn mode_for_lowered(t: &str) -> (r: QueryMode)
        ensures
            r == mode_for_token(t@),
    {
        if is_token(t, "bookmark") || is_token(t, "bookmarks") || is_token(t, "b") {
            QueryMode::Bookmark
        } else if is_token(t, "app") || is_token(t, "apps") || is_token(t, "application") || is_token(t, "r") {
            QueryMode::Application
        } else if is_token(t, "search") || is_token(t, "s") {
            QueryMode::Search
        } else {
            QueryMode::All
        }
    }

    pub open spec fn spec_allows_bookmarks(&self) -> bool {
        *self == QueryMode::All || *self == QueryMode::Bookmark
    }

    pub open spec fn spec_allows_applications(&self) -> bool {
        *self == QueryMode::All || *self == QueryMode::Application
    }

    pub open spec fn spec_allows_web_search(&self) -> bool {
        *self == QueryMode::All || *self == QueryMode::Search
    }

    /// Bookmarks are scored in `All` and `Bookmark` mode.
    #[verifier::when_used_as_spec(spec_allows_bookmarks)]
    pub fn allows_bookmarks(&self) -> (r: bool)
        ensures
            r == self.spec_allows_bookmarks(),
    {
        matches!(self, QueryMode::All | QueryMode::Bookmark)
    }

    /// Applications are scored in `All` and `Application` mode.
    #[verifier::when_used_as_spec(spec_allows_applications)]
    pub fn allows_applications(&self) -> (r: bool)
        ensures
            r == self.spec_allows_applications(),
    {
        matches!(self, QueryMode::All | QueryMode::Application)
    }

    /// The web-search entry is offered in `All` and `Search` mode.
    #[verifier::when_used_as_spec(spec_allows_web_search)]
    pub fn allows_web_search(&self) -> (r: bool)
        ensures
            r == self.spec_allows_web_search(),
    {
        matches!(self, QueryMode::All | QueryMode::Search)
    }
}

} // verus!

use vstd::prelude::*;

verus! {

/// The colour in which a repository is listed.
#[derive(Clone, Copy, Debug, PartialEq, Eq, Structural)]
pub enum Colour {
    White,
    Rgb(u8, u8, u8),
}

/// A repository that the launcher can open: `keyword` is the command that
/// opens it, `path` is handed to that command.
#[derive(Debug)]
pub struct Repo {
    pub id: String,
    pub path: String,
    pub colour: Colour,
    pub keyword: String,
}

/// The mathematical content of a [`Repo`].
pub struct RepoView {
    pub id: Seq<char>,
    pub path: Seq<char>,
    pub colour: Colour,
    pub keyword: Seq<char>,
}

impl View for Repo {
    type V = RepoView;

    open spec fn view(&self) -> RepoView {
        RepoView { id: self.id@, path: self.path@, colour: self.colour, keyword: self.keyword@ }
    }
}

/// The repository that a settings entry starts from before its fields are read.
pub open spec fn blank_repo() -> RepoView {
    RepoView { id: Seq::empty(), path: Seq::empty(), colour: Colour::White, keyword: Seq::empty() }
}

/// The views of a sequence of repositories.
pub open spec fn repos_view(repos: Seq<Repo>) -> Seq<RepoView> {
    repos.map_values(|r: Repo| r@)
}

impl Clone for Repo {
    fn clone(&self) -> (copy: Repo)
        ensures
            copy@ == self@,
    {
        Repo {
            id: self.id.clone(),
            path: self.path.clone(),
            colour: self.colour,
            keyword: self.keyword.clone(),
        }
    }
}

impl Repo {
    /// An empty repository, listed in white.
    pub fn new() -> (repo: Repo)
        ensures
            repo@ == blank_repo(),
    {
        Repo { id: String::new(), path: String::new(), colour: Colour::White, keyword: String::new() }
    }
}

} // verus!

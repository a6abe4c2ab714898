use vstd::prelude::*;

use crate::repo::{repos_view, Colour, Repo, RepoView};
use crate::text::{chars_of, contains_chars, has_substring, occurs_at};

verus! {

/// The launcher's state: what the user typed, where the cursor stands, the
/// known repositories and those that the search lets through.
#[derive(Debug)]
pub struct App {
    pub search_str: String,
    pub selected_idx: usize,
    pub repos: Vec<Repo>,
    pub filtered_repos: Vec<Repo>,
}

/// The mathematical content of an [`App`].
#[verifier::ext_equal]
pub struct AppView {
    pub search: Seq<char>,
    pub selected: nat,
    pub repos: Seq<RepoView>,
    pub filtered: Seq<RepoView>,
}

impl View for App {
    type V = AppView;

    open spec fn view(&self) -> AppView {
        AppView {
            search: self.search_str@,
            selected: self.selected_idx as nat,
            repos: repos_view(self.repos@),
            filtered: repos_view(self.filtered_repos@),
        }
    }
}

impl Default for App {
    fn default() -> (app: App)
        ensures
            app@ == (AppView {
                search: Seq::empty(),
                selected: 0,
                repos: Seq::empty(),
                filtered: Seq::empty(),
            }),
    {
        let app = App {
            search_str: String::new(),
            selected_idx: 0,
            repos: Vec::new(),
            filtered_repos: Vec::new(),
        };
        assert(app@ =~= (AppView {
            search: Seq::empty(),
            selected: 0,
            repos: Seq::empty(),
            filtered: Seq::empty(),
        }));
        app
    }
}

/// A repository is let through by the search when the search text stands
/// somewhere in its id.
pub open spec fn matches_search(repo: RepoView, search: Seq<char>) -> bool {
    has_substring(repo.id, search)
}

/// The repositories that the search lets through, in their order.
pub open spec fn search_results(repos: Seq<RepoView>, search: Seq<char>) -> Seq<RepoView>
    decreases repos.len(),
{
    if repos.len() == 0 {
        Seq::empty()
    } else {
        let rest = search_results(repos.drop_last(), search);
        if matches_search(repos.last(), search) {
            rest.push(repos.last())
        } else {
            rest
        }
    }
}

/// One line of the repository list as it is drawn.
#[derive(Debug)]
pub struct ListRow {
    pub label: String,
    pub colour: Colour,
    /// The cursor stands on this line: it is drawn on the repository's
    /// colour rather than in it.
    pub highlighted: bool,
}

impl App {
    /// Recomputes the repositories that the current search lets through.
    pub fn update_filtered_repos(&mut self)
        ensures
            final(self)@ == (AppView {
                filtered: search_results(old(self)@.repos, old(self)@.search),
                ..old(self)@
            }),
    {
        let search = chars_of(self.search_str.as_str());
        let mut filtered: Vec<Repo> = Vec::new();
        let mut i: usize = 0;
        while i < self.repos.len()
            invariant
                search@ == self.search_str@,
                i <= self.repos@.len(),
                repos_view(filtered@) == search_results(
                    repos_view(self.repos@).take(i as int),
                    self.search_str@,
                ),
            decreases self.repos@.len() - i,
        {
            let ghost all = repos_view(self.repos@);
            assert(all.take(i + 1).drop_last() =~= all.take(i as int));
            assert(all.take(i + 1).last() == self.repos@[i as int]@);
            let id = chars_of(self.repos[i].id.as_str());
            if contains_chars(&id, &search) {
                let ghost before = filtered@;
                filtered.push(self.repos[i].clone());
                assert(repos_view(filtered@) =~= repos_view(before).push(self.repos@[i as int]@));
            }
            i += 1;
        }
        assert(repos_view(self.repos@).take(i as int) =~= repos_view(self.repos@));
        self.filtered_repos = filtered;
        assert(self@ =~= (AppView {
            filtered: search_results(old(self)@.repos, old(self)@.search),
            ..old(self)@
        }));
    }

    /// The lines of the repository list: one for each repository that the
    /// search lets through, labelled with its id, the one under the cursor
    /// highlighted.
    pub fn list_rows(&self) -> (rows: Vec<ListRow>)
        ensures
            rows@.len() == self.filtered_repos@.len(),
            forall|i: int|
                #![trigger rows@[i]]
                0 <= i < rows@.len() ==> {
                    &&& rows@[i].label@ == self.filtered_repos@[i].id@
                    &&& rows@[i].colour == self.filtered_repos@[i].colour
                    &&& rows@[i].highlighted == (i == self.selected_idx)
                },
    {
        let mut rows: Vec<ListRow> = Vec::new();
        let mut i: usize = 0;
        while i < self.filtered_repos.len()
            invariant
                i <= self.filtered_repos@.len(),
                rows@.len() == i,
                forall|k: int|
                    #![trigger rows@[k]]
                    0 <= k < i ==> {
                        &&& rows@[k].label@ == self.filtered_repos@[k].id@
                        &&& rows@[k].colour == self.filtered_repos@[k].colour
                        &&& rows@[k].highlighted == (k == self.selected_idx)
                    },
            decreases self.filtered_repos@.len() - i,
        {
            let repo = &self.filtered_repos[i];
            rows.push(
                ListRow {
                    label: repo.id.clone(),
                    colour: repo.colour,
                    highlighted: i == self.selected_idx,
                },
            );
            i += 1;
        }
        rows
    }
}

/// An empty search lets every repository through, in its order.
pub proof fn law_empty_search_lists_all(repos: Seq<RepoView>)
    ensures
        search_results(repos, Seq::empty()) == repos,
    decreases repos.len(),
{
    if repos.len() > 0 {
        law_empty_search_lists_all(repos.drop_last());
        assert(repos.last().id.subrange(0, 0) =~= Seq::<char>::empty());
        assert(occurs_at(repos.last().id, Seq::empty(), 0));
        assert(repos.drop_last().push(repos.last()) =~= repos);
    }
}

/// What the search lets through are repositories of the list that match
/// it, and every repository that matches it is let through.
pub proof fn law_search_results_are_the_matches(repos: Seq<RepoView>, search: Seq<char>)
    ensures
        forall|r: RepoView| #[trigger]
            search_results(repos, search).contains(r) <==> (repos.contains(r) && matches_search(
                r,
                search,
            )),
    decreases repos.len(),
{
    if repos.len() > 0 {
        law_search_results_are_the_matches(repos.drop_last(), search);
        let rest = search_results(repos.drop_last(), search);
        assert forall|r: RepoView| #[trigger]
            search_results(repos, search).contains(r) <==> (repos.contains(r) && matches_search(
                r,
                search,
            )) by {
            if repos.contains(r) {
                let k: int = choose|k: int| 0 <= k < repos.len() && repos[k] == r;
                if k < repos.len() - 1 {
                    assert(repos.drop_last()[k] == r);
                }
            }
            if repos.drop_last().contains(r) {
                let k: int = choose|k: int| 0 <= k < repos.drop_last().len() && repos.drop_last()[k] == r;
                assert(repos[k] == r);
            }
            if matches_search(repos.last(), search) {
                if rest.push(repos.last()).contains(r) && r != repos.last() {
                    let k: int = choose|k: int| 0 <= k < rest.push(repos.last()).len() && rest.push(repos.last())[k] == r;
                    assert(rest[k] == r);
                }
                if rest.contains(r) {
                    let k: int = choose|k: int| 0 <= k < rest.len() && rest[k] == r;
                    assert(rest.push(repos.last())[k] == r);
                }
                assert(rest.push(repos.last())[rest.len() as int] == repos.last());
            }
            assert(repos[repos.len() - 1] == repos.last());
        }
    }
}

} // verus!

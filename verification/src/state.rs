//! Application state: the registry of tracked repositories and the records
//! kept per repository (worktrees, branch metadata).
use vstd::prelude::*;

use crate::strs::str_eq;

verus! {

/// Represents a repository in the registry.
#[derive(Debug, Clone)]
pub struct Repository {
    pub path: String,
    pub name: String,
    pub last_fetch: Option<String>,
}

/// The text after the last `/` of a path (all of it when there is none).
pub open spec fn after_last_slash(p: Seq<char>) -> Seq<char>
    decreases p.len(),
{
    if p.len() == 0 {
        p
    } else if p.last() == '/' {
        seq![]
    } else {
        after_last_slash(p.drop_last()).push(p.last())
    }
}

/// The name a repository at a canonical path is registered under: the
/// path's last component, or `unknown` where it has none (the root).
pub open spec fn repo_name(path: Seq<char>) -> Seq<char> {
    if after_last_slash(path).len() == 0 {
        "unknown"@
    } else {
        after_last_slash(path)
    }
}

impl Repository {
    /// The repository at a canonical path (resolving the path is the
    /// caller's part), named after its last component.
    pub fn new(canonical_path: &str) -> (r: Self)
        ensures
            r.path@ == canonical_path@,
            r.name@ == repo_name(canonical_path@),
            r.last_fetch is None,
    {
        let cs = crate::strs::chars_of(canonical_path);
        let ghost p = canonical_path@;
        let mut j: usize = cs.len();
        assert(p.take(p.len() as int) =~= p);
        assert(p.subrange(p.len() as int, p.len() as int) =~= Seq::<char>::empty());
        while j > 0 && cs[j - 1] != '/'
            invariant
                j <= cs.len(),
                cs@ == p,
                after_last_slash(p) == after_last_slash(p.take(j as int)) + p.subrange(j as int, p.len() as int),
            decreases j,
        {
            assert(p.take(j as int).drop_last() =~= p.take(j - 1));
            assert(p.subrange(j - 1, p.len() as int) =~= seq![p[j - 1]] + p.subrange(j as int, p.len() as int));
            assert(after_last_slash(p.take(j as int)) == after_last_slash(p.take(j - 1)).push(p[j - 1]));
            assert(after_last_slash(p.take(j - 1)).push(p[j - 1]) + p.subrange(j as int, p.len() as int)
                =~= after_last_slash(p.take(j - 1)) + p.subrange(j - 1, p.len() as int));
            j = j - 1;
        }
        assert(after_last_slash(p.take(j as int)) =~= Seq::<char>::empty());
        assert(after_last_slash(p) =~= p.subrange(j as int, p.len() as int));
        let name = if j == cs.len() {
            proof {
                reveal_strlit("unknown");
            }
            "unknown".to_owned()
        } else {
            crate::strs::string_of_range(&cs, j, cs.len())
        };
        Repository { path: canonical_path.to_owned(), name, last_fetch: None }
    }

    /// A field-by-field copy.
    pub fn duplicate(&self) -> (r: Self)
        ensures
            r == *self,
    {
        Repository {
            path: self.path.clone(),
            name: self.name.clone(),
            last_fetch: match &self.last_fetch {
                Some(t) => Some(t.clone()),
                None => None,
            },
        }
    }
}

/// Whether a repository lies elsewhere than `path`.
pub open spec fn elsewhere(path: Seq<char>) -> spec_fn(Repository) -> bool {
    |r: Repository| r.path@ != path
}

/// The paths of a list of repositories.
pub open spec fn repo_paths(repos: Seq<Repository>) -> Seq<Seq<char>> {
    repos.map_values(|r: Repository| r.path@)
}

/// No path is tracked twice.
pub open spec fn paths_unique(repos: Seq<Repository>) -> bool {
    forall|i: int, j: int| 0 <= i < j < repos.len() ==> repos[i].path@ != repos[j].path@
}

/// Represents the registry of tracked repositories.
#[derive(Debug)]
pub struct Registry {
    repositories: Vec<Repository>,
}

/// Why a registry update was refused.
#[derive(Debug, Clone, PartialEq, Eq)]
pub enum RegistryError {
    /// No repository with the given path is tracked.
    NotFound(String),
}

/// The message shown for a registry error.
pub open spec fn registry_error_text(e: RegistryError) -> Seq<char> {
    match e {
        RegistryError::NotFound(path) => "Repository not found in registry: "@ + path@,
    }
}

impl RegistryError {
    /// The message shown for the error.
    pub fn message(&self) -> (s: String)
        ensures
            s@ == registry_error_text(*self),
    {
        match self {
            RegistryError::NotFound(path) => {
                let mut s = "Repository not found in registry: ".to_owned();
                crate::strs::push_str(&mut s, path.as_str());
                s
            },
        }
    }
}

impl Registry {
    /// The repositories, in the order they were added.
    pub closed spec fn repos(&self) -> Seq<Repository> {
        self.repositories@
    }

    /// The registry's invariant: paths are unique.
    pub open spec fn wf(&self) -> bool {
        paths_unique(self.repos())
    }

    /// An empty registry.
    pub fn empty() -> (r: Self)
        ensures
            r.repos().len() == 0,
            r.wf(),
    {
        Registry { repositories: Vec::new() }
    }

    /// A registry holding the given repositories (as read back from disk),
    /// keeping the first entry of any path listed twice.
    pub fn from_repositories(repos: Vec<Repository>) -> (r: Self)
        ensures
            r.wf(),
            forall|i: int| 0 <= i < repos@.len() ==> repo_paths(r.repos()).contains(#[trigger] repos@[i].path@),
            forall|i: int| 0 <= i < r.repos().len() ==> repos@.contains(#[trigger] r.repos()[i]),
    {
        let mut r = Registry::empty();
        let mut i: usize = 0;
        while i < repos.len()
            invariant
                i <= repos.len(),
                r.wf(),
                forall|k: int| 0 <= k < i ==> repo_paths(r.repos()).contains(#[trigger] repos@[k].path@),
                forall|k: int| 0 <= k < r.repos().len() ==> repos@.contains(#[trigger] r.repos()[k]),
            decreases repos.len() - i,
        {
            let ghost before = r.repos();
            r.add(repos[i].duplicate());
            proof {
                assert forall|k: int| 0 <= k < r.repos().len() implies repos@.contains(#[trigger] r.repos()[k]) by {
                    if k < before.len() {
                        assert(r.repos()[k] == before[k]);
                    } else {
                        assert(r.repos()[k] == repos@[i as int]);
                    }
                }
                assert forall|k: int| 0 <= k < i + 1 implies repo_paths(r.repos()).contains(#[trigger] repos@[k].path@) by {
                    if k < i {
                        let j = choose|j: int| 0 <= j < repo_paths(before).len() && repo_paths(before)[j] == repos@[k].path@;
                        assert(repo_paths(r.repos())[j] == repos@[k].path@);
                    } else if !repo_paths(before).contains(repos@[k].path@) {
                        assert(repo_paths(r.repos())[before.len() as int] == repos@[k].path@);
                    }
                }
            }
            i = i + 1;
        }
        r
    }

    /// Whether a repository with this path is tracked.
    pub fn contains_path(&self, path: &str) -> (b: bool)
        ensures
            b == repo_paths(self.repos()).contains(path@),
    {
        let mut i: usize = 0;
        while i < self.repositories.len()
            invariant
                i <= self.repositories.len(),
                forall|k: int| 0 <= k < i ==> self.repositories@[k].path@ != path@,
            decreases self.repositories.len() - i,
        {
            if str_eq(self.repositories[i].path.as_str(), path) {
                assert(repo_paths(self.repos())[i as int] == path@);
                return true;
            }
            i = i + 1;
        }
        proof {
            if repo_paths(self.repos()).contains(path@) {
                let k = choose|k: int| 0 <= k < repo_paths(self.repos()).len() && repo_paths(self.repos())[k] == path@;
                assert(self.repositories@[k].path@ == path@);
            }
        }
        false
    }

    /// Adds a repository (whose path the caller has already resolved); a
    /// path that is already tracked is left as it is.
    pub fn add(&mut self, repo: Repository)
        requires
            old(self).wf(),
        ensures
            final(self).wf(),
            repo_paths(old(self).repos()).contains(repo.path@) ==> final(self).repos() == old(self).repos(),
            !repo_paths(old(self).repos()).contains(repo.path@) ==> final(self).repos() == old(self).repos().push(repo),
    {
        if self.contains_path(repo.path.as_str()) {
            return;
        }
        let ghost before = self.repos();
        self.repositories.push(repo);
        proof {
            assert forall|i: int, j: int| 0 <= i < j < self.repos().len() implies self.repos()[i].path@
                != self.repos()[j].path@ by {
                if j == before.len() {
                    assert(repo_paths(before)[i] == before[i].path@);
                }
            }
        }
    }

    /// Removes every repository with this path.
    pub fn remove(&mut self, path: &str)
        requires
            old(self).wf(),
        ensures
            final(self).wf(),
            final(self).repos() == old(self).repos().filter(elsewhere(path@)),
    {
        let ghost before = self.repos();
        let mut kept: Vec<Repository> = Vec::new();
        let mut i: usize = 0;
        while i < self.repositories.len()
            invariant
                i <= self.repositories.len(),
                before == self.repositories@,
                kept@ == before.take(i as int).filter(elsewhere(path@)),
            decreases self.repositories.len() - i,
        {
            assert(before.take(i + 1).drop_last() =~= before.take(i as int));
            assert(before.take(i + 1).last() == before[i as int]);
            assert(before.take(i + 1).filter(elsewhere(path@)) == if elsewhere(path@)(before[i as int]) {
                before.take(i as int).filter(elsewhere(path@)).push(before[i as int])
            } else {
                before.take(i as int).filter(elsewhere(path@))
            }) by {
                reveal(Seq::filter);
            }
            if !str_eq(self.repositories[i].path.as_str(), path) {
                kept.push(self.repositories[i].duplicate());
            }
            i = i + 1;
        }
        assert(before.take(before.len() as int) =~= before);
        self.repositories = kept;
        proof {
            lemma_filter_keeps_unique(before, path@);
        }
    }

    /// List all repositories in the registry.
    pub fn list(&self) -> (r: &[Repository])
        ensures
            r@ == self.repos(),
    {
        self.repositories.as_slice()
    }

    /// Records the last fetch time of the repository with this path.
    pub fn update_fetch_time(&mut self, path: &str, time: String) -> (r: Result<(), RegistryError>)
        requires
            old(self).wf(),
        ensures
            final(self).wf(),
            r is Ok <==> repo_paths(old(self).repos()).contains(path@),
            r is Err ==> final(self).repos() == old(self).repos(),
            r is Err ==> (r matches Err(RegistryError::NotFound(p)) && p@ == path@),
            r is Ok ==> final(self).repos().len() == old(self).repos().len() && forall|i: int|
                0 <= i < old(self).repos().len() ==> #[trigger] final(self).repos()[i] == if old(
                    self,
                ).repos()[i].path@ == path@ {
                    Repository { last_fetch: Some(time), ..old(self).repos()[i] }
                } else {
                    old(self).repos()[i]
                },
    {
        let mut i: usize = 0;
        while i < self.repositories.len()
            invariant
                i <= self.repositories.len(),
                self.repositories@ == old(self).repos(),
                paths_unique(old(self).repos()),
                forall|k: int| 0 <= k < i ==> self.repositories@[k].path@ != path@,
            decreases self.repositories.len() - i,
        {
            if str_eq(self.repositories[i].path.as_str(), path) {
                let mut repo = self.repositories[i].duplicate();
                repo.last_fetch = Some(time);
                self.repositories.set(i, repo);
                proof {
                    assert forall|a: int, b: int| 0 <= a < b < self.repos().len() implies self.repos()[a].path@
                        != self.repos()[b].path@ by {
                        assert(self.repos()[a].path@ == old(self).repos()[a].path@);
                        assert(self.repos()[b].path@ == old(self).repos()[b].path@);
                    }
                    assert(repo_paths(old(self).repos())[i as int] == path@);
                    assert forall|k: int| 0 <= k < old(self).repos().len() && k != i implies old(self).repos()[k].path@
                        != path@ by {
                        if k > i {
                            assert(old(self).repos()[i as int].path@ != old(self).repos()[k].path@);
                        }
                    }
                }
                return Ok(());
            }
            i = i + 1;
        }
        proof {
            if repo_paths(old(self).repos()).contains(path@) {
                let k = choose|k: int| 0 <= k < repo_paths(old(self).repos()).len() && repo_paths(old(self).repos())[k] == path@;
                assert(self.repositories@[k].path@ == path@);
            }
        }
        Err(RegistryError::NotFound(path.to_owned()))
    }
}

proof fn lemma_filter_keeps_unique(s: Seq<Repository>, path: Seq<char>)
    requires
        paths_unique(s),
    ensures
        paths_unique(s.filter(elsewhere(path))),
    decreases s.len(),
{
    reveal(Seq::filter);
    if s.len() > 0 {
        let rest = s.drop_last();
        assert(paths_unique(rest));
        lemma_filter_keeps_unique(rest, path);
        let f = rest.filter(elsewhere(path));
        if s.last().path@ != path {
            assert forall|i: int| 0 <= i < f.len() implies f[i].path@ != s.last().path@ by {
                assert(f.contains(f[i]));
                rest.lemma_filter_contains_rev(elsewhere(path), f[i]);
                let k = choose|k: int| 0 <= k < rest.len() && rest[k] == f[i];
                assert(s[k] == rest[k]);
            }
            assert(s.filter(elsewhere(path)) == f.push(s.last())) by {
                reveal(Seq::filter);
            }
        }
    }
}

/// Represents a worktree in a repository.
#[derive(Debug, Clone)]
pub struct Worktree {
    pub name: String,
    pub path: String,
    pub branch: String,
    pub created_at: String,
}

impl Worktree {
    /// A field-by-field copy.
    pub fn duplicate(&self) -> (r: Self)
        ensures
            r == *self,
    {
        Worktree {
            name: self.name.clone(),
            path: self.path.clone(),
            branch: self.branch.clone(),
            created_at: self.created_at.clone(),
        }
    }
}

/// Represents a branch-issue association.
#[derive(Debug, Clone)]
pub struct BranchMetadata {
    pub branch: String,
    pub jira_issue: Option<String>,
    pub github_pr: Option<u32>,
    pub created_at: String,
}

impl BranchMetadata {
    /// A field-by-field copy.
    pub fn duplicate(&self) -> (r: Self)
        ensures
            r == *self,
    {
        BranchMetadata {
            branch: self.branch.clone(),
            jira_issue: match &self.jira_issue {
                Some(j) => Some(j.clone()),
                None => None,
            },
            github_pr: self.github_pr,
            created_at: self.created_at.clone(),
        }
    }
}

} // verus!

//! The decisions behind creating a worktree: where it goes, what it is
//! called, and which existing things stop it.
use vstd::prelude::*;

use crate::state::Worktree;
use crate::strs::{concat, push_char, push_str};

verus! {

/// A slash in a branch name becomes a dash in a directory name.
pub open spec fn dash_for_slash(c: char) -> char {
    if c == '/' {
        '-'
    } else {
        c
    }
}

/// The branch name made usable as a directory name.
pub open spec fn safe_name_spec(branch: Seq<char>) -> Seq<char> {
    Seq::new(branch.len(), |i: int| dash_for_slash(branch[i]))
}

/// The branch name with every `/` replaced by `-`, for use as a directory
/// and worktree name.
pub fn safe_branch_name(branch_name: &str) -> (r: String)
    ensures
        r@ == safe_name_spec(branch_name@),
{
    let mut r = String::new();
    let mut i: usize = 0;
    let n = branch_name.unicode_len();
    while i < n
        invariant
            i <= n,
            n == branch_name@.len(),
            r@ == safe_name_spec(branch_name@).take(i as int),
        decreases n - i,
    {
        let c = branch_name.get_char(i);
        if c == '/' {
            push_char(&mut r, '-');
        } else {
            push_char(&mut r, c);
        }
        i = i + 1;
        assert(r@ =~= safe_name_spec(branch_name@).take(i as int));
    }
    assert(safe_name_spec(branch_name@).take(n as int) =~= safe_name_spec(branch_name@));
    r
}

/// The name of the directory, beside the repository, that holds its
/// worktrees: the repository's directory name (`repo` when it has none)
/// followed by `-worktrees`.
pub fn worktrees_dir_name(repo_name: Option<&str>) -> (r: String)
    ensures
        r@ == match repo_name {
            Some(n) => n@,
            None => "repo"@,
        } + "-worktrees"@,
{
    match repo_name {
        Some(n) => concat(n, "-worktrees"),
        None => concat("repo", "-worktrees"),
    }
}

/// What was found on disk and in the repository before a worktree is
/// created.
#[derive(Debug, Clone, Copy, PartialEq, Eq)]
pub struct WorktreeSurroundings {
    /// The worktree's directory exists already.
    pub directory_exists: bool,
    /// Git already has a worktree with the worktree's name.
    pub worktree_registered: bool,
    /// A local branch carries the worktree's name.
    pub conflicting_branch_exists: bool,
}

/// Why a worktree cannot be created.
#[derive(Debug, Clone, PartialEq, Eq)]
pub enum WorktreeConflict {
    /// The directory at this path exists already.
    DirectoryExists(String),
    /// Git has a worktree with this name already.
    WorktreeExists(String),
    /// A branch with this name exists, which would clash with the worktree.
    BranchConflict(String),
}

/// The message shown for a worktree conflict.
pub open spec fn worktree_conflict_text(c: WorktreeConflict) -> Seq<char> {
    match c {
        WorktreeConflict::DirectoryExists(path) => "Worktree directory already exists at "@ + path@
            + ". Please remove it or use a different branch name."@,
        WorktreeConflict::WorktreeExists(name) => "A worktree named '"@ + name@
            + "' already exists. This could be due to a previous attempt to create this worktree."@,
        WorktreeConflict::BranchConflict(name) => "A branch named '"@ + name@
            + "' already exists, which conflicts with the worktree name. Please delete this branch first or use a different branch name."@,
    }
}

impl WorktreeConflict {
    /// The message shown to the user.
    pub fn message(&self) -> (s: String)
        ensures
            s@ == worktree_conflict_text(*self),
    {
        match self {
            WorktreeConflict::DirectoryExists(path) => {
                let mut s = concat("Worktree directory already exists at ", path.as_str());
                push_str(&mut s, ". Please remove it or use a different branch name.");
                s
            },
            WorktreeConflict::WorktreeExists(name) => {
                let mut s = concat("A worktree named '", name.as_str());
                push_str(
                    &mut s,
                    "' already exists. This could be due to a previous attempt to create this worktree.",
                );
                s
            },
            WorktreeConflict::BranchConflict(name) => {
                let mut s = concat("A branch named '", name.as_str());
                push_str(
                    &mut s,
                    "' already exists, which conflicts with the worktree name. Please delete this branch first or use a different branch name.",
                );
                s
            },
        }
    }
}

/// The first obstacle to creating the worktree `name` at `path`, checked
/// in this order: the directory, a registered worktree, a clashing branch.
pub fn worktree_conflict(found: WorktreeSurroundings, name: &str, path: &str) -> (r: Result<(), WorktreeConflict>)
    ensures
        found.directory_exists ==> (r matches Err(WorktreeConflict::DirectoryExists(p)) && p@ == path@),
        !found.directory_exists && found.worktree_registered ==> (r matches Err(
            WorktreeConflict::WorktreeExists(n),
        ) && n@ == name@),
        !found.directory_exists && !found.worktree_registered && found.conflicting_branch_exists ==> (r matches Err(
            WorktreeConflict::BranchConflict(n),
        ) && n@ == name@),
        r is Ok <==> !found.directory_exists && !found.worktree_registered && !found.conflicting_branch_exists,
{
    if found.directory_exists {
        Err(WorktreeConflict::DirectoryExists(path.to_owned()))
    } else if found.worktree_registered {
        Err(WorktreeConflict::WorktreeExists(name.to_owned()))
    } else if found.conflicting_branch_exists {
        Err(WorktreeConflict::BranchConflict(name.to_owned()))
    } else {
        Ok(())
    }
}

/// The record kept of a worktree created for `branch_name` at `path`: it is
/// named after the branch, made safe as a directory name.
pub fn worktree_record(branch_name: &str, path: String, created_at: String) -> (w: Worktree)
    ensures
        w.name@ == safe_name_spec(branch_name@),
        w.path == path,
        w.branch@ == branch_name@,
        w.created_at == created_at,
{
    Worktree { name: safe_branch_name(branch_name), path, branch: branch_name.to_owned(), created_at }
}

} // verus!

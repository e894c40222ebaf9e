//! Small decisions shared by the commands: which repository a command works
//! on, what a branch is associated with, and whether the user agreed.
use vstd::prelude::*;

use crate::repo_state::{branch_record, RepoState};
use crate::state::BranchMetadata;
use crate::strs::{chars_of, concat, lower_chars, lower_seq, push_str, trim, trim_chars};

verus! {

/// Represents an associated item for a branch.
#[derive(Debug, Clone, PartialEq, Eq)]
pub enum BranchAssociatedItem {
    /// Associated Jira issue key.
    JiraIssue(String),
    /// Associated GitHub PR number.
    GitHubPr(u32),
    /// No associated item found.
    NoAssociation,
}

impl BranchAssociatedItem {
    /// What a branch record associates the branch with: its Jira issue
    /// first, else its pull request, else nothing. A branch without a
    /// record, or a detached HEAD, has nothing.
    pub fn for_record(record: Option<&BranchMetadata>) -> (r: Self)
        ensures
            match record {
                Some(m) => match m.jira_issue {
                    Some(j) => r == BranchAssociatedItem::JiraIssue(j),
                    None => match m.github_pr {
                        Some(n) => r == BranchAssociatedItem::GitHubPr(n),
                        None => r == BranchAssociatedItem::NoAssociation,
                    },
                },
                None => r == BranchAssociatedItem::NoAssociation,
            },
    {
        match record {
            Some(m) => match &m.jira_issue {
                Some(j) => BranchAssociatedItem::JiraIssue(j.clone()),
                None => match m.github_pr {
                    Some(n) => BranchAssociatedItem::GitHubPr(n),
                    None => BranchAssociatedItem::NoAssociation,
                },
            },
            None => BranchAssociatedItem::NoAssociation,
        }
    }

    /// The Jira issue key, when that is what the branch is associated with.
    pub fn jira_issue(self) -> (r: Option<String>)
        ensures
            match self {
                BranchAssociatedItem::JiraIssue(k) => r == Some(k),
                _ => r is None,
            },
    {
        match self {
            BranchAssociatedItem::JiraIssue(key) => Some(key),
            _ => None,
        }
    }

    /// The pull request number, when that is what the branch is associated
    /// with.
    pub fn github_pr(self) -> (r: Option<u32>)
        ensures
            match self {
                BranchAssociatedItem::GitHubPr(n) => r == Some(n),
                _ => r is None,
            },
    {
        match self {
            BranchAssociatedItem::GitHubPr(number) => Some(number),
            _ => None,
        }
    }
}

/// What the checked-out branch is associated with, from the repository
/// state: `head_branch` is the branch HEAD names, none for a detached HEAD.
pub open spec fn current_item_spec(head_branch: Option<Seq<char>>, records: Seq<BranchMetadata>) -> Option<
    BranchMetadata,
> {
    match head_branch {
        Some(b) => branch_record(records, b),
        None => None,
    }
}

/// The item associated with the checked-out branch (see
/// `BranchAssociatedItem::for_record`).
pub fn get_current_branch_associated_item(head_branch: Option<&str>, repo_state: &RepoState) -> (r:
    BranchAssociatedItem)
    ensures
        match current_item_spec(
            match head_branch {
                Some(b) => Some(b@),
                None => None,
            },
            repo_state.branches@,
        ) {
            Some(m) => match m.jira_issue {
                Some(j) => r == BranchAssociatedItem::JiraIssue(j),
                None => match m.github_pr {
                    Some(n) => r == BranchAssociatedItem::GitHubPr(n),
                    None => r == BranchAssociatedItem::NoAssociation,
                },
            },
            None => r == BranchAssociatedItem::NoAssociation,
        },
{
    match head_branch {
        Some(b) => BranchAssociatedItem::for_record(repo_state.get_branch_issue_by_branch(b)),
        None => BranchAssociatedItem::NoAssociation,
    }
}

/// The Jira issue of the checked-out branch, if that is what it is
/// associated with.
pub fn get_current_branch_jira_issue(head_branch: Option<&str>, repo_state: &RepoState) -> (r: Option<String>)
    ensures
        r == (match current_item_spec(
            match head_branch {
                Some(b) => Some(b@),
                None => None,
            },
            repo_state.branches@,
        ) {
            Some(m) => m.jira_issue,
            None => None,
        }),
{
    get_current_branch_associated_item(head_branch, repo_state).jira_issue()
}

/// The pull request of the checked-out branch, if that is what it is
/// associated with (a Jira issue takes precedence).
pub fn get_current_branch_github_pr(head_branch: Option<&str>, repo_state: &RepoState) -> (r: Option<u32>)
    ensures
        r == (match current_item_spec(
            match head_branch {
                Some(b) => Some(b@),
                None => None,
            },
            repo_state.branches@,
        ) {
            Some(m) => if m.jira_issue is Some {
                None
            } else {
                m.github_pr
            },
            None => None,
        }),
{
    get_current_branch_associated_item(head_branch, repo_state).github_pr()
}

/// Why no repository could be settled on.
#[derive(Debug, Clone, PartialEq, Eq)]
pub enum RepoPathError {
    /// The path given does not exist.
    PathDoesNotExist(String),
    /// The path exists but no repository holds it.
    NotARepository(String),
    /// No path was given and the working directory is in no repository.
    NoCurrentRepository,
}

/// The message shown when no repository could be settled on.
pub open spec fn repo_path_error_text(e: RepoPathError) -> Seq<char> {
    match e {
        RepoPathError::PathDoesNotExist(p) => "Repository path does not exist: "@ + p@,
        RepoPathError::NotARepository(p) => "Failed to detect repository at path: "@ + p@,
        RepoPathError::NoCurrentRepository => "No repository specified and not in a git repository"@ + ""@,
    }
}

impl RepoPathError {
    /// The message shown to the user.
    pub fn message(&self) -> (s: String)
        ensures
            s@ == repo_path_error_text(*self),
    {
        match self {
            RepoPathError::PathDoesNotExist(p) => concat("Repository path does not exist: ", p.as_str()),
            RepoPathError::NotARepository(p) => concat("Failed to detect repository at path: ", p.as_str()),
            RepoPathError::NoCurrentRepository => concat(
                "No repository specified and not in a git repository",
                "",
            ),
        }
    }
}

/// The repository a command works on. With a path given, it must exist
/// (`path_exists`) and lie in a repository, whose working directory is
/// `detected`; without one, `detected` is the repository of the working
/// directory. `detected` is only looked at once the path is known to exist.
pub fn resolve_repository_path(repo_arg: Option<&str>, path_exists: bool, detected: Option<String>) -> (r: Result<
    String,
    RepoPathError,
>)
    ensures
        match repo_arg {
            Some(p) => if !path_exists {
                r matches Err(RepoPathError::PathDoesNotExist(q)) && q@ == p@
            } else {
                match detected {
                    Some(d) => r == Ok::<String, RepoPathError>(d),
                    None => r matches Err(RepoPathError::NotARepository(q)) && q@ == p@,
                }
            },
            None => match detected {
                Some(d) => r == Ok::<String, RepoPathError>(d),
                None => r == Err::<String, RepoPathError>(RepoPathError::NoCurrentRepository),
            },
        },
{
    match repo_arg {
        Some(path) => {
            if !path_exists {
                return Err(RepoPathError::PathDoesNotExist(path.to_owned()));
            }
            match detected {
                Some(d) => Ok(d),
                None => Err(RepoPathError::NotARepository(path.to_owned())),
            }
        },
        None => match detected {
            Some(d) => Ok(d),
            None => Err(RepoPathError::NoCurrentRepository),
        },
    }
}

/// Whether a typed answer confirms: `y` or `yes`, ignoring case and
/// surrounding white space.
pub open spec fn confirms(input: Seq<char>) -> bool {
    let a = lower_seq(trim(input));
    a == "y"@ || a == "yes"@
}

/// Whether the answer typed at a `[y/N]` prompt confirms.
pub fn is_confirmation(input: &str) -> (b: bool)
    ensures
        b == confirms(input@),
{
    let chars = chars_of(input);
    let trimmed = trim_chars(chars.as_slice());
    let a = lower_chars(trimmed.as_slice());
    proof {
        reveal_strlit("y");
        reveal_strlit("yes");
        assert("y"@ =~= seq!['y']);
        assert("yes"@ =~= seq!['y', 'e', 's']);
    }
    if a.len() == 1 {
        proof {
            if a@[0] == 'y' {
                assert(a@ =~= seq!['y']);
            }
        }
        a[0] == 'y'
    } else if a.len() == 3 {
        proof {
            if a@[0] == 'y' && a@[1] == 'e' && a@[2] == 's' {
                assert(a@ =~= seq!['y', 'e', 's']);
            }
        }
        a[0] == 'y' && a[1] == 'e' && a[2] == 's'
    } else {
        false
    }
}

} // verus!

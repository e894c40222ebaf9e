//! The decisions a branch switch makes around its Git work: which branch an
//! issue or pull request leads to, what happens to a branch name, which
//! branch a new branch grows from, and how the repository state is updated
//! afterwards.
use vstd::prelude::*;

use crate::graph::BranchName;
use crate::jira::{JiraTicketParser, parse_spec};
use crate::repo_state::{
    RepoState, RepoStateError, carries_issue, current_time_rfc3339, has_dependency, metadata_not_for, not_involving,
    reaches,
};
use crate::state::BranchMetadata;
use crate::strs::{
    chars_eq, chars_of, decimal, decimal_string, lemma_decimal_injective, lemma_decimal_len, lower_chars, lower_seq,
    push_decimal_wide, push_str, str_eq, string_of, string_of_range, unicode_lowercase,
};
use crate::switch::{
    BranchBase, BranchBaseSource, BranchDependencyUpdate, BranchParentReference, BranchStateMutations,
    IssueAssociation, ParentBranchOption, PullRequestHeadInfo, derive_jira_branch_name, derive_pr_branch_name, opt_string_view,
    opt_view, parse_jira_issue_key, sanitize_remote_name, sanitize_spec, select_repo_url, select_repo_url_spec,
};

verus! {

/// Description of the base commit used when creating or updating a branch.
#[derive(Debug, Clone)]
pub struct BranchCreationBase {
    /// Commit identifier (hex object id) used for the new branch tip.
    pub commit: String,
    /// Source reference that produced the commit.
    pub source: BranchBaseSource,
}

/// Concrete actions that a branch switch may perform.
#[derive(Debug, Clone)]
pub enum BranchSwitchAction {
    /// The requested branch was already checked out.
    AlreadyCurrent,
    /// The branch existed and was checked out locally.
    CheckedOutExisting,
    /// The branch was fetched from a remote and checked out.
    CheckedOutRemote {
        /// Remote that supplied the branch contents.
        remote: String,
        /// Remote reference that was checked out (e.g. `origin/feature/foo`).
        remote_ref: BranchName,
    },
    /// A new local branch was created from the provided base.
    Created {
        /// Description of the base commit and branch used for the new branch.
        base: BranchCreationBase,
        /// Remote tracking branch configured for the new branch, when applicable.
        upstream: Option<String>,
    },
}

/// Result of a branch switch.
#[derive(Debug, Clone)]
pub struct BranchSwitchOutcome {
    /// Branch name that was ultimately checked out.
    pub branch: BranchName,
    /// Summary of the action that was taken.
    pub action: BranchSwitchAction,
    /// Metadata updates that should be applied after the switch completes.
    pub state_mutations: BranchStateMutations,
}

/// Resolved base for a new branch, including the commit to fork from.
#[derive(Debug, Clone)]
pub struct BranchBaseResolution {
    base: BranchBase,
    commit: String,
}

impl BranchBaseResolution {
    pub closed spec fn base_spec(&self) -> BranchBase {
        self.base
    }

    pub closed spec fn commit_spec(&self) -> Seq<char> {
        self.commit@
    }

    /// Base the new branch on `HEAD`.
    pub fn head(commit: String) -> (r: Self)
        ensures
            r.base_spec() is Head,
            r.commit_spec() == commit@,
    {
        BranchBaseResolution { base: BranchBase::Head, commit }
    }

    /// Base the new branch on a parent branch.
    pub fn parent(name: String, commit: String) -> (r: Self)
        ensures
            r.base_spec() == (BranchBase::Parent { name }),
            r.commit_spec() == commit@,
    {
        BranchBaseResolution { base: BranchBase::Parent { name }, commit }
    }

    /// The commit to use when creating the branch.
    pub fn commit(&self) -> (r: &str)
        ensures
            r@ == self.commit_spec(),
    {
        self.commit.as_str()
    }

    /// Optional parent branch name that should be linked to the new branch.
    pub fn parent_name(&self) -> (r: Option<&str>)
        ensures
            match self.base_spec() {
                BranchBase::Head => r is None,
                BranchBase::Parent { name } => r matches Some(n) && n@ == name@,
            },
    {
        self.base.parent_name()
    }

    /// The source reported for this base: `HEAD`, or the parent branch.
    pub fn source(&self) -> (r: BranchBaseSource)
        ensures
            match self.base_spec() {
                BranchBase::Head => r is Head,
                BranchBase::Parent { name } => r matches BranchBaseSource::LocalBranch(b) && b@ == name@,
            },
    {
        match &self.base {
            BranchBase::Head => BranchBaseSource::Head,
            BranchBase::Parent { name } => BranchBaseSource::LocalBranch(BranchName::new(name.as_str())),
        }
    }

    /// The outcome of creating `branch_name` from this base: the branch is
    /// created from the base commit and, when the base is a parent branch,
    /// the new branch is to depend on it.
    pub fn created_outcome(&self, branch_name: &str) -> (r: BranchSwitchOutcome)
        ensures
            r.branch@ == branch_name@,
            r.action matches BranchSwitchAction::Created { base, upstream } && base.commit@ == self.commit_spec()
                && upstream is None && match self.base_spec() {
                BranchBase::Head => base.source is Head,
                BranchBase::Parent { name } => base.source matches BranchBaseSource::LocalBranch(b) && b@ == name@,
            },
            r.state_mutations.issue is None,
            r.state_mutations.github_pr is None,
            match self.base_spec() {
                BranchBase::Head => r.state_mutations.dependency is None,
                BranchBase::Parent { name } => r.state_mutations.dependency matches Some(
                    BranchDependencyUpdate::SetParent(BranchParentReference::Branch(p)),
                ) && p@ == name@,
            },
    {
        let mut state_mutations = BranchStateMutations::none();
        match self.parent_name() {
            Some(parent) => {
                state_mutations.dependency = Some(
                    BranchDependencyUpdate::SetParent(BranchParentReference::Branch(BranchName::new(parent))),
                );
            },
            None => {},
        }
        BranchSwitchOutcome {
            branch: BranchName::new(branch_name),
            action: BranchSwitchAction::Created {
                base: BranchCreationBase { commit: self.commit.clone(), source: self.source() },
                upstream: None,
            },
            state_mutations,
        }
    }
}

/// Why a switch stopped.
#[derive(Debug, Clone, PartialEq, Eq)]
pub enum SwitchError {
    /// The branch does not exist locally and creation was not allowed.
    BranchMissing(String),
    /// No branch is recorded for the Jira issue and creation was not allowed.
    NoBranchForIssue(String),
    /// No branch is recorded for the pull request and creation was not allowed.
    NoBranchForPullRequest(u32),
    /// `--parent=current` was asked for while HEAD is detached.
    DetachedHead,
    /// The parent branch named for a new branch does not exist.
    ParentNotFound(String),
    /// The pull request's head repository offers no clone URL to fetch from.
    NoCloneUrl,
}

/// The message shown for a switch error.
pub open spec fn switch_error_text(e: SwitchError) -> Seq<char> {
    match e {
        SwitchError::BranchMissing(name) => "Branch '"@ + name@
            + "' does not exist locally. Enable creation before switching."@,
        SwitchError::NoBranchForIssue(key) => "No branch found for Jira issue "@ + key@
            + ". Enable creation to make one."@,
        SwitchError::NoBranchForPullRequest(n) => "No branch found for GitHub PR #"@ + decimal(n as nat)
            + ". Enable creation to make one."@,
        SwitchError::DetachedHead => "HEAD is not on a branch. Create a branch first or use `--parent none`."@,
        SwitchError::NoCloneUrl => "Pull request head repository does not expose a usable clone URL"@,
        SwitchError::ParentNotFound(parent) => "Parent branch '"@ + parent@
            + "' was not found. Create it first and record dependencies with `twig branch depend` or `twig branch root add`."@,
    }
}

impl SwitchError {
    /// The message shown to the user.
    pub fn message(&self) -> (s: String)
        ensures
            s@ == switch_error_text(*self),
    {
        match self {
            SwitchError::BranchMissing(name) => {
                let mut s = "Branch '".to_owned();
                push_str(&mut s, name.as_str());
                push_str(&mut s, "' does not exist locally. Enable creation before switching.");
                s
            },
            SwitchError::NoBranchForIssue(key) => {
                let mut s = "No branch found for Jira issue ".to_owned();
                push_str(&mut s, key.as_str());
                push_str(&mut s, ". Enable creation to make one.");
                s
            },
            SwitchError::NoBranchForPullRequest(n) => {
                let mut s = "No branch found for GitHub PR #".to_owned();
                let d = decimal_string(*n as u64);
                push_str(&mut s, d.as_str());
                push_str(&mut s, ". Enable creation to make one.");
                s
            },
            SwitchError::DetachedHead => "HEAD is not on a branch. Create a branch first or use `--parent none`.".to_owned(),
            SwitchError::NoCloneUrl => "Pull request head repository does not expose a usable clone URL".to_owned(),
            SwitchError::ParentNotFound(parent) => {
                let mut s = "Parent branch '".to_owned();
                push_str(&mut s, parent.as_str());
                push_str(
                    &mut s,
                    "' was not found. Create it first and record dependencies with `twig branch depend` or `twig branch root add`.",
                );
                s
            },
        }
    }
}

/// What switching to a branch name does, in order: nothing when it is
/// checked out already, a checkout when it exists locally, a refusal when
/// it is missing and may not be created, else a try of `origin` and, failing
/// that, creation from the requested base.
#[derive(Debug, Clone, Copy, PartialEq, Eq, Structural)]
pub enum SwitchStep {
    AlreadyCurrent,
    CheckoutExisting,
    Refuse,
    TryRemoteThenCreate,
}

/// The step for switching to `target` (see `SwitchStep`).
pub open spec fn switch_step_spec(head: Option<Seq<char>>, target: Seq<char>, exists_locally: bool, create_missing: bool) -> SwitchStep {
    if head == Some(target) {
        SwitchStep::AlreadyCurrent
    } else if exists_locally {
        SwitchStep::CheckoutExisting
    } else if !create_missing {
        SwitchStep::Refuse
    } else {
        SwitchStep::TryRemoteThenCreate
    }
}

/// Decides how to switch to `target`, given the branch HEAD names, whether
/// the branch exists locally, and whether missing branches may be created.
pub fn switch_step(head: Option<&str>, target: &str, exists_locally: bool, create_missing: bool) -> (r: SwitchStep)
    ensures
        r == switch_step_spec(
            match head {
                Some(h) => Some(h@),
                None => None,
            },
            target@,
            exists_locally,
            create_missing,
        ),
{
    let current = match head {
        Some(h) => str_eq(h, target),
        None => false,
    };
    if current {
        SwitchStep::AlreadyCurrent
    } else if exists_locally {
        SwitchStep::CheckoutExisting
    } else if !create_missing {
        SwitchStep::Refuse
    } else {
        SwitchStep::TryRemoteThenCreate
    }
}

/// The outcome of a switch that needed no creation.
pub fn plain_outcome(branch: &str, step: SwitchStep, remote: Option<&str>) -> (r: BranchSwitchOutcome)
    ensures
        r.branch@ == branch@,
        r.state_mutations.dependency is None && r.state_mutations.issue is None && r.state_mutations.github_pr is None,
        step == SwitchStep::AlreadyCurrent ==> r.action is AlreadyCurrent,
        step != SwitchStep::AlreadyCurrent && remote is None ==> r.action is CheckedOutExisting,
        step != SwitchStep::AlreadyCurrent && remote is Some ==> (r.action matches BranchSwitchAction::CheckedOutRemote {
            remote: rm,
            remote_ref,
        } && rm@ == remote->0@ && remote_ref@ == remote->0@ + seq!['/'] + branch@),
{
    let action = if step == SwitchStep::AlreadyCurrent {
        BranchSwitchAction::AlreadyCurrent
    } else {
        match remote {
            None => BranchSwitchAction::CheckedOutExisting,
            Some(rm) => {
                let mut rf = rm.to_owned();
                crate::strs::push_char(&mut rf, '/');
                push_str(&mut rf, branch);
                BranchSwitchAction::CheckedOutRemote { remote: rm.to_owned(), remote_ref: BranchName::from_string(rf) }
            },
        }
    };
    BranchSwitchOutcome { branch: BranchName::new(branch), action, state_mutations: BranchStateMutations::none() }
}

/// Where a Jira issue leads: the branch recorded for it (the earliest such
/// record), else, when creation is allowed, the branch named after the key,
/// which is then to be associated with the issue.
pub fn branch_for_jira(repo_state: &RepoState, issue_key: &str, create_missing: bool) -> (r: Result<
    (String, Option<IssueAssociation>),
    SwitchError,
>)
    ensures
        (exists|i: int|
            0 <= i < repo_state.branches@.len() && carries_issue(repo_state.branches@[i], issue_key@)) ==> (r matches Ok(
            (b, None),
        ) && exists|i: int|
            0 <= i < repo_state.branches@.len() && carries_issue(repo_state.branches@[i], issue_key@)
                && repo_state.branches@[i].branch@ == b@ && forall|j: int|
                0 <= j < i ==> !carries_issue(repo_state.branches@[j], issue_key@)),
        !(exists|i: int| 0 <= i < repo_state.branches@.len() && carries_issue(repo_state.branches@[i], issue_key@))
            ==> if create_missing {
            r matches Ok((b, Some(a))) && b@ == unicode_lowercase(issue_key@) && a.key@ == issue_key@
        } else {
            r matches Err(SwitchError::NoBranchForIssue(k)) && k@ == issue_key@
        },
{
    match repo_state.get_branch_issue_by_jira(issue_key) {
        Some(record) => Ok((record.branch.clone(), None)),
        None => {
            if !create_missing {
                return Err(SwitchError::NoBranchForIssue(issue_key.to_owned()));
            }
            let name = derive_jira_branch_name(issue_key);
            Ok((name, Some(IssueAssociation { key: issue_key.to_owned() })))
        },
    }
}

/// Where a pull request leads: the branch recorded for it (the earliest
/// such record), else, when creation is allowed, `pr/<number>`, which is
/// then to be associated with the pull request.
pub fn branch_for_pr(repo_state: &RepoState, pr_number: u32, create_missing: bool) -> (r: Result<
    (String, Option<u32>),
    SwitchError,
>)
    ensures
        (exists|i: int| 0 <= i < repo_state.branches@.len() && repo_state.branches@[i].github_pr == Some(pr_number))
            ==> (r matches Ok((b, None)) && exists|i: int|
            0 <= i < repo_state.branches@.len() && repo_state.branches@[i].github_pr == Some(pr_number)
                && repo_state.branches@[i].branch@ == b@ && forall|j: int|
                0 <= j < i ==> repo_state.branches@[j].github_pr != Some(pr_number)),
        !(exists|i: int| 0 <= i < repo_state.branches@.len() && repo_state.branches@[i].github_pr == Some(pr_number))
            ==> if create_missing {
            r matches Ok((b, Some(n))) && b@ == seq!['p', 'r', '/'] + decimal(pr_number as nat) && n == pr_number
        } else {
            r == Err::<(String, Option<u32>), SwitchError>(SwitchError::NoBranchForPullRequest(pr_number))
        },
{
    match repo_state.get_branch_issue_by_pr(pr_number) {
        Some(record) => Ok((record.branch.clone(), None)),
        None => {
            if !create_missing {
                return Err(SwitchError::NoBranchForPullRequest(pr_number));
            }
            Ok((derive_pr_branch_name(pr_number), Some(pr_number)))
        },
    }
}

/// The branch a named parent stands for: where the name parses as a Jira
/// issue key and a branch is recorded for that issue, that branch (the
/// earliest record); else the name itself.
pub fn parent_branch_for(jira_parser: Option<&JiraTicketParser>, repo_state: &RepoState, parent: &str) -> (r: String)
    ensures
        parent_choice_holds(jira_parser, repo_state, parent@, r),
{
    match jira_parser {
        Some(parser) => match parse_jira_issue_key(parser, parent) {
            Some(key) => match repo_state.get_branch_issue_by_jira(key.as_str()) {
                Some(record) => record.branch.clone(),
                None => parent.to_owned(),
            },
            None => parent.to_owned(),
        },
        None => parent.to_owned(),
    }
}

/// Which commit a new branch grows from: HEAD's (no parent recorded), or
/// the tip of a parent branch.
#[derive(Debug, Clone, PartialEq, Eq)]
pub enum BaseTarget {
    Head,
    ParentBranch(String),
}

/// The base the `--parent` choice asks for: HEAD; the checked-out branch
/// (refused on a detached HEAD); or a named branch, resolved through the
/// Jira records (see `parent_branch_for`).
pub fn resolve_branch_base(
    parent_option: &ParentBranchOption,
    head_branch: Option<&str>,
    jira_parser: Option<&JiraTicketParser>,
    repo_state: &RepoState,
) -> (r: Result<BaseTarget, SwitchError>)
    ensures
        match parent_option {
            ParentBranchOption::Head => r == Ok::<BaseTarget, SwitchError>(BaseTarget::Head),
            ParentBranchOption::CurrentBranch => match head_branch {
                Some(h) => r matches Ok(BaseTarget::ParentBranch(b)) && b@ == h@,
                None => r == Err::<BaseTarget, SwitchError>(SwitchError::DetachedHead),
            },
            ParentBranchOption::Named(name) => r matches Ok(BaseTarget::ParentBranch(b)) && parent_choice_holds(
                jira_parser,
                repo_state,
                name@,
                b,
            ),
        },
{
    match parent_option {
        ParentBranchOption::Head => Ok(BaseTarget::Head),
        ParentBranchOption::CurrentBranch => match head_branch {
            Some(h) => Ok(BaseTarget::ParentBranch(h.to_owned())),
            None => Err(SwitchError::DetachedHead),
        },
        ParentBranchOption::Named(name) => {
            let b = parent_branch_for(jira_parser, repo_state, name.as_str());
            Ok(BaseTarget::ParentBranch(b))
        },
    }
}

/// `r` is the branch `parent_branch_for` gives for `parent`.
pub open spec fn parent_choice_holds(
    jira_parser: Option<&JiraTicketParser>,
    repo_state: &RepoState,
    parent: Seq<char>,
    r: String,
) -> bool {
    match jira_parser {
        Some(p) => match parse_spec(p.mode(), parent) {
            Ok(key) => if exists|i: int|
                0 <= i < repo_state.branches@.len() && carries_issue(repo_state.branches@[i], key) {
                exists|i: int|
                    0 <= i < repo_state.branches@.len() && carries_issue(repo_state.branches@[i], key)
                        && repo_state.branches@[i].branch@ == r@ && forall|j: int|
                        0 <= j < i ==> !carries_issue(repo_state.branches@[j], key)
            } else {
                r@ == parent
            },
            Err(_) => r@ == parent,
        },
        None => r@ == parent,
    }
}

/// The record written last for the branch by a set of mutations: the pull
/// request's when there is one, else the issue's.
pub open spec fn last_record(m: BranchStateMutations) -> Option<(Option<String>, Option<u32>)> {
    if m.github_pr is Some {
        Some((None, m.github_pr))
    } else if m.issue is Some {
        Some((Some(m.issue->0.key), None))
    } else {
        None
    }
}

/// The dependency a set of mutations asks to add for the branch.
pub open spec fn parent_to_add(m: BranchStateMutations) -> Option<BranchName> {
    match m.dependency {
        Some(BranchDependencyUpdate::SetParent(BranchParentReference::Branch(p))) => Some(p),
        _ => None,
    }
}

/// Filtering twice by the same predicate is filtering once.
proof fn lemma_filter_twice(s: Seq<BranchMetadata>, f: spec_fn(BranchMetadata) -> bool)
    ensures
        s.filter(f).filter(f) == s.filter(f),
    decreases s.len(),
{
    if s.len() > 0 {
        lemma_filter_twice(s.drop_last(), f);
        assert(s.drop_last().push(s.last()) =~= s);
        s.drop_last().lemma_filter_push(s.last(), f);
        s.drop_last().filter(f).lemma_filter_push(s.last(), f);
    } else {
        assert(s.filter(f) =~= s) by {
            reveal(Seq::filter);
        }
    }
}

/// Applies the metadata updates planned by a switch to the repository
/// state: the branch's dependencies are cleared or a parent is added (a
/// refused dependency stops here, with its error), then the issue and the
/// pull request are recorded for the branch in that order, each replacing
/// the branch's record.
pub fn apply_branch_state_mutations(repo_state: &mut RepoState, outcome: &BranchSwitchOutcome) -> (r: Result<
    (),
    RepoStateError,
>)
    ensures
        final(repo_state).worktrees == old(repo_state).worktrees,
        final(repo_state).root_branches == old(repo_state).root_branches,
        match parent_to_add(outcome.state_mutations) {
            Some(p) => {
                &&& (r is Err <==> has_dependency(old(repo_state).dependencies@, outcome.branch@, p@) || reaches(
                    old(repo_state).dependencies@,
                    p@,
                    outcome.branch@,
                ))
                &&& (has_dependency(old(repo_state).dependencies@, outcome.branch@, p@) ==> (r matches Err(
                    RepoStateError::DependencyExists { child, parent },
                ) && child@ == outcome.branch@ && parent@ == p@))
                &&& (!has_dependency(old(repo_state).dependencies@, outcome.branch@, p@) && reaches(
                    old(repo_state).dependencies@,
                    p@,
                    outcome.branch@,
                ) ==> (r matches Err(RepoStateError::WouldCreateCycle { child, parent }) && child@ == outcome.branch@
                    && parent@ == p@))
                &&& (r is Ok ==> final(repo_state).dependencies@.drop_last() == old(repo_state).dependencies@
                    && final(repo_state).dependencies@.len() == old(repo_state).dependencies@.len() + 1
                    && final(repo_state).dependencies@.last().child@ == outcome.branch@
                    && final(repo_state).dependencies@.last().parent@ == p@
                    && crate::repo_state::is_record_id(final(repo_state).dependencies@.last().id@)
                    && crate::repo_state::is_utc_time(final(repo_state).dependencies@.last().created_at@))
                &&& (r is Err ==> final(repo_state).dependencies@ == old(repo_state).dependencies@
                    && final(repo_state).branches@ == old(repo_state).branches@)
            },
            None => {
                &&& r is Ok
                &&& (outcome.state_mutations.dependency matches Some(BranchDependencyUpdate::Clear)
                    ==> final(repo_state).dependencies@ == old(repo_state).dependencies@.filter(
                    not_involving(outcome.branch@),
                ))
                &&& (!(outcome.state_mutations.dependency matches Some(BranchDependencyUpdate::Clear))
                    ==> final(repo_state).dependencies@ == old(repo_state).dependencies@)
            },
        },
        r is Ok ==> match last_record(outcome.state_mutations) {
            None => final(repo_state).branches@ == old(repo_state).branches@,
            Some((jira, pr)) => {
                let kept = old(repo_state).branches@.filter(metadata_not_for(outcome.branch@));
                &&& final(repo_state).branches@.len() == kept.len() + 1
                &&& final(repo_state).branches@.drop_last() == kept
                &&& final(repo_state).branches@.last().branch@ == outcome.branch@
                &&& final(repo_state).branches@.last().jira_issue == jira
                &&& final(repo_state).branches@.last().github_pr == pr
            },
        },
{
    let m = &outcome.state_mutations;
    if m.is_empty() {
        return Ok(());
    }
    let branch = outcome.branch.as_str();
    match &m.dependency {
        Some(BranchDependencyUpdate::Clear) => {
            repo_state.remove_all_dependencies_for_branch(branch);
        },
        Some(BranchDependencyUpdate::SetParent(BranchParentReference::Branch(name))) => {
            match repo_state.add_dependency(branch.to_owned(), name.as_str().to_owned()) {
                Ok(()) => {},
                Err(e) => {
                    return Err(e);
                },
            }
        },
        _ => {},
    }
    let ghost f = metadata_not_for(outcome.branch@);
    let ghost start = repo_state.branches@;
    match &m.issue {
        Some(issue) => {
            repo_state.add_branch_issue(
                BranchMetadata {
                    branch: branch.to_owned(),
                    jira_issue: Some(issue.key.clone()),
                    github_pr: None,
                    created_at: current_time_rfc3339(),
                },
            );
        },
        None => {},
    }
    match m.github_pr {
        Some(pr) => {
            let ghost mid = repo_state.branches@;
            repo_state.add_branch_issue(
                BranchMetadata {
                    branch: branch.to_owned(),
                    jira_issue: None,
                    github_pr: Some(pr),
                    created_at: current_time_rfc3339(),
                },
            );
            proof {
                if m.issue is Some {
                    let rec = mid.last();
                    assert(mid == start.filter(f).push(rec));
                    start.filter(f).lemma_filter_push(rec, f);
                    lemma_filter_twice(start, f);
                    assert(mid.filter(f) == start.filter(f));
                }
            }
        },
        None => {},
    }
    Ok(())
}

/// The text before the first `/` (all of it when there is none).
pub open spec fn before_slash(s: Seq<char>) -> Seq<char>
    decreases s.len(),
{
    if s.len() == 0 {
        s
    } else if s[0] == '/' {
        seq![]
    } else {
        seq![s[0]] + before_slash(s.drop_first())
    }
}

/// Two texts are equal but for the case of ASCII letters.
pub open spec fn eq_ignore_ascii_case(a: Seq<char>, b: Seq<char>) -> bool {
    lower_seq(a) == lower_seq(b)
}

/// Whose fork a pull request comes from: the head's owner, else the owner
/// part of its repository name, else `pr-<number>`.
pub open spec fn fork_owner(head: PullRequestHeadInfo, pr_number: u32) -> Seq<char> {
    match head.owner_login {
        Some(o) => o@,
        None => match head.repo_full_name {
            Some(f) => before_slash(f@),
            None => seq!['p', 'r', '-'] + decimal(pr_number as nat),
        },
    }
}

/// The name a fork remote starts from: `fork-<owner>`, the owner sanitized
/// (`fork-pr-<number>` should that ever be `origin`).
pub open spec fn fork_remote_base(head: PullRequestHeadInfo, pr_number: u32) -> Seq<char> {
    let name = seq!['f', 'o', 'r', 'k', '-'] + sanitize_spec(fork_owner(head, pr_number));
    if name == "origin"@ {
        seq!['f', 'o', 'r', 'k', '-', 'p', 'r', '-'] + decimal(pr_number as nat)
    } else {
        name
    }
}

/// The `k`-th name tried for a fork remote: the base, then `<base>-2`,
/// `<base>-3`, and so on.
pub open spec fn candidate_name(base: Seq<char>, k: nat) -> Seq<char> {
    if k <= 1 {
        base
    } else {
        base + seq!['-'] + decimal(k)
    }
}

/// The URL of the remote called `name` among the repository's remotes
/// (name, URL), if there is such a remote.
pub open spec fn remote_url_lookup(remotes: Seq<(String, Option<String>)>, name: Seq<char>) -> Option<
    Option<Seq<char>>,
>
    decreases remotes.len(),
{
    if remotes.len() == 0 {
        None
    } else if remotes[0].0@ == name {
        Some(opt_string_view(remotes[0].1))
    } else {
        remote_url_lookup(remotes.drop_first(), name)
    }
}

/// A remote called `name` exists and points somewhere other than `url`.
pub open spec fn name_blocked(remotes: Seq<(String, Option<String>)>, name: Seq<char>, url: Seq<char>) -> bool {
    remote_url_lookup(remotes, name) matches Some(u) && u != Some(url)
}

/// Where a pull request's head is fetched from: nothing to decide when the
/// head names no repository or names `origin`'s own (compared ignoring ASCII
/// case); else a fork remote from the base name and the clone URL that
/// suits the origin's scheme, or no URL at all.
pub open spec fn pr_remote_choice(
    head: PullRequestHeadInfo,
    origin_url: Seq<char>,
    origin_owner: Seq<char>,
    origin_repo: Seq<char>,
    pr_number: u32,
) -> Option<Option<(Seq<char>, Seq<char>)>> {
    if head.repo_full_name is None && head.owner_login is None {
        None
    } else if head.repo_full_name matches Some(f) && eq_ignore_ascii_case(f@, origin_owner + seq!['/'] + origin_repo) {
        None
    } else {
        match select_repo_url_spec(opt_string_view(head.ssh_url), opt_string_view(head.clone_url), origin_url) {
            None => Some(None),
            Some(u) => Some(Some((fork_remote_base(head, pr_number), u))),
        }
    }
}

/// The `k`-th candidate is the first one not taken by a remote pointing
/// elsewhere.
pub open spec fn first_usable_candidate(
    remotes: Seq<(String, Option<String>)>,
    base: Seq<char>,
    url: Seq<char>,
    k: nat,
) -> bool {
    &&& k >= 1
    &&& forall|j: nat| 1 <= j < k ==> name_blocked(remotes, #[trigger] candidate_name(base, j), url)
    &&& !name_blocked(remotes, candidate_name(base, k), url)
}

/// The text before the first `/`.
fn before_slash_exec(s: &str) -> (r: String)
    ensures
        r@ == before_slash(s@),
{
    let cs = chars_of(s);
    let ghost v = s@;
    let mut i: usize = 0;
    assert(v.subrange(0, v.len() as int) =~= v);
    assert(v.subrange(0, 0) =~= Seq::<char>::empty());
    while i < cs.len() && cs[i] != '/'
        invariant
            i <= cs.len(),
            cs@ == v,
            before_slash(v) == v.subrange(0, i as int) + before_slash(v.subrange(i as int, v.len() as int)),
        decreases cs.len() - i,
    {
        let ghost rest = v.subrange(i as int, v.len() as int);
        assert(rest.drop_first() =~= v.subrange(i + 1, v.len() as int));
        assert(v.subrange(0, i + 1) =~= v.subrange(0, i as int) + seq![v[i as int]]);
        i = i + 1;
    }
    proof {
        let rest = v.subrange(i as int, v.len() as int);
        if i < cs.len() {
            assert(rest[0] == '/');
        } else {
            assert(rest.len() == 0);
        }
        assert(before_slash(rest) =~= Seq::<char>::empty());
        assert(before_slash(v) =~= v.subrange(0, i as int));
    }
    string_of_range(cs.as_slice(), 0, i)
}

/// Equality ignoring the case of ASCII letters.
fn eq_ignore_ascii_case_exec(a: &str, b: &str) -> (r: bool)
    ensures
        r == eq_ignore_ascii_case(a@, b@),
{
    let x = lower_chars(chars_of(a).as_slice());
    let y = lower_chars(chars_of(b).as_slice());
    chars_eq(x.as_slice(), y.as_slice())
}

/// The base name for a fork remote (see `fork_remote_base`).
fn fork_remote_base_exec(head: &PullRequestHeadInfo, pr_number: u32) -> (r: String)
    ensures
        r@ == fork_remote_base(*head, pr_number),
{
    let owner = match &head.owner_login {
        Some(o) => o.clone(),
        None => match &head.repo_full_name {
            Some(f) => before_slash_exec(f.as_str()),
            None => {
                let mut s = "pr-".to_owned();
                proof {
                    reveal_strlit("pr-");
                }
                let d = decimal_string(pr_number as u64);
                push_str(&mut s, d.as_str());
                s
            },
        },
    };
    assert(owner@ == fork_owner(*head, pr_number));
    let mut name = "fork-".to_owned();
    proof {
        reveal_strlit("fork-");
    }
    let clean = sanitize_remote_name(owner.as_str());
    push_str(&mut name, clean.as_str());
    assert(name@ =~= seq!['f', 'o', 'r', 'k', '-'] + sanitize_spec(fork_owner(*head, pr_number)));
    if str_eq(name.as_str(), "origin") {
        let mut alt = "fork-pr-".to_owned();
        proof {
            reveal_strlit("fork-pr-");
        }
        let d = decimal_string(pr_number as u64);
        push_str(&mut alt, d.as_str());
        assert(alt@ =~= seq!['f', 'o', 'r', 'k', '-', 'p', 'r', '-'] + decimal(pr_number as nat));
        alt
    } else {
        name
    }
}

/// The `suffix`-th candidate name for a fork remote.
fn candidate_name_exec(base: &str, suffix: u128) -> (r: String)
    requires
        suffix >= 1,
    ensures
        r@ == candidate_name(base@, suffix as nat),
{
    if suffix == 1 {
        return base.to_owned();
    }
    let mut cs = chars_of(base);
    cs.push('-');
    push_decimal_wide(&mut cs, suffix);
    string_of(cs.as_slice())
}

/// The index of the first remote called `name`.
fn find_remote(remotes: &Vec<(String, Option<String>)>, name: &str) -> (r: Option<usize>)
    ensures
        match r {
            Some(i) => i < remotes@.len() && remotes@[i as int].0@ == name@ && remote_url_lookup(remotes@, name@)
                == Some(opt_string_view(remotes@[i as int].1)),
            None => remote_url_lookup(remotes@, name@) is None,
        },
{
    let ghost v = remotes@;
    let mut i: usize = 0;
    assert(v.subrange(0, v.len() as int) =~= v);
    while i < remotes.len()
        invariant
            i <= remotes.len(),
            v == remotes@,
            remote_url_lookup(v, name@) == remote_url_lookup(v.subrange(i as int, v.len() as int), name@),
        decreases remotes.len() - i,
    {
        let ghost rest = v.subrange(i as int, v.len() as int);
        assert(rest[0] == v[i as int]);
        if str_eq(remotes[i].0.as_str(), name) {
            return Some(i);
        }
        assert(rest.drop_first() =~= v.subrange(i + 1, v.len() as int));
        i = i + 1;
    }
    None
}

/// The choice is a fork remote with this base name and URL.
proof fn lemma_fork_choice(
    head: PullRequestHeadInfo,
    origin_url: Seq<char>,
    origin_owner: Seq<char>,
    origin_repo: Seq<char>,
    pr_number: u32,
    base: Seq<char>,
    url: Seq<char>,
)
    requires
        pr_remote_choice(head, origin_url, origin_owner, origin_repo, pr_number) == Some(Some((base, url))),
    ensures
        match pr_remote_choice(head, origin_url, origin_owner, origin_repo, pr_number) {
            Some(Some((b, u))) => b == base && u == url,
            _ => false,
        },
{
}

/// Two different candidates have different names.
proof fn lemma_candidates_distinct(base: Seq<char>, j: nat, k: nat)
    requires
        1 <= j < k,
    ensures
        candidate_name(base, j) != candidate_name(base, k),
{
    lemma_decimal_len(k);
    let ck = candidate_name(base, k);
    if j == 1 {
        assert(ck.len() > base.len());
    } else {
        let cj = candidate_name(base, j);
        lemma_decimal_len(j);
        if cj == ck {
            assert(cj.subrange(base.len() + 1int, cj.len() as int) =~= decimal(j));
            assert(ck.subrange(base.len() + 1int, ck.len() as int) =~= decimal(k));
            lemma_decimal_injective(j, k);
        }
    }
}

/// Distinct indices below `n` number at most `n`.
proof fn lemma_distinct_indices(used: Seq<int>, n: int)
    requires
        used.no_duplicates(),
        forall|t: int| 0 <= t < used.len() ==> 0 <= #[trigger] used[t] < n,
        n >= 0,
    ensures
        used.len() <= n,
{
    used.unique_seq_to_set();
    vstd::set_lib::lemma_int_range(0, n);
    assert(used.to_set().subset_of(vstd::set_lib::set_int_range(0, n)));
    vstd::set_lib::lemma_len_subset(used.to_set(), vstd::set_lib::set_int_range(0, n));
}

/// The remote to fetch a pull request's head from, given the repository's
/// remotes (name, URL): `origin` when the head lives there; else a fork
/// remote, the first candidate name (`fork-<owner>`, `fork-<owner>-2`, ...)
/// that no remote pointing elsewhere holds. Returns the name, whether the
/// remote is still to be created, and the URL to create it with.
pub fn resolve_pr_remote(
    head: &PullRequestHeadInfo,
    origin_url: &str,
    origin_owner: &str,
    origin_repo: &str,
    pr_number: u32,
    remotes: &Vec<(String, Option<String>)>,
) -> (r: Result<(String, bool, Option<String>), SwitchError>)
    ensures
        match pr_remote_choice(*head, origin_url@, origin_owner@, origin_repo@, pr_number) {
            None => r matches Ok((n, created, u)) && n@ == "origin"@ && !created && u is None,
            Some(None) => r == Err::<(String, bool, Option<String>), SwitchError>(SwitchError::NoCloneUrl),
            Some(Some((base, url))) => r matches Ok((n, created, u)) && (exists|k: nat|
                first_usable_candidate(remotes@, base, url, k) && n@ == candidate_name(base, k)) && created == (
            remote_url_lookup(remotes@, n@) is None) && (created ==> opt_string_view(u) == Some(url)) && (!created
                ==> u is None),
        },
{
    if head.repo_full_name.is_none() && head.owner_login.is_none() {
        proof {
            reveal_strlit("origin");
        }
        return Ok(("origin".to_owned(), false, None));
    }
    match &head.repo_full_name {
        Some(full) => {
            let mut normalized = origin_owner.to_owned();
            crate::strs::push_char(&mut normalized, '/');
            push_str(&mut normalized, origin_repo);
            if eq_ignore_ascii_case_exec(full.as_str(), normalized.as_str()) {
                assert(normalized@ =~= origin_owner@ + seq!['/'] + origin_repo@);
                return Ok(("origin".to_owned(), false, None));
            }
            assert(normalized@ =~= origin_owner@ + seq!['/'] + origin_repo@);
        },
        None => {},
    }
    let ssh = match &head.ssh_url {
        Some(u) => Some(u.as_str()),
        None => None,
    };
    let https = match &head.clone_url {
        Some(u) => Some(u.as_str()),
        None => None,
    };
    assert(opt_view(ssh) == opt_string_view(head.ssh_url));
    assert(opt_view(https) == opt_string_view(head.clone_url));
    let url = match select_repo_url(ssh, https, origin_url) {
        Some(u) => u,
        None => {
            return Err(SwitchError::NoCloneUrl);
        },
    };
    let base = fork_remote_base_exec(head, pr_number);
    assert(pr_remote_choice(*head, origin_url@, origin_owner@, origin_repo@, pr_number) == Some(
        Some((base@, url@)),
    ));
    let remote_count = remotes.len();
    let ghost n = remotes@.len() as int;
    let mut suffix: u128 = 1;
    let mut candidate = candidate_name_exec(base.as_str(), suffix);
    let ghost mut used: Seq<int> = seq![];
    loop
        invariant
            n == remotes@.len(),
            n == remote_count,
            pr_remote_choice(*head, origin_url@, origin_owner@, origin_repo@, pr_number) == Some(
                Some((base@, url@)),
            ),
            1 <= suffix,
            used.len() == suffix - 1,
            used.len() <= n,
            used.no_duplicates(),
            forall|t: int|
                0 <= t < used.len() ==> 0 <= #[trigger] used[t] < n && remotes@[used[t]].0@ == candidate_name(
                    base@,
                    (t + 1) as nat,
                ),
            candidate@ == candidate_name(base@, suffix as nat),
            forall|j: nat| 1 <= j < suffix ==> name_blocked(remotes@, #[trigger] candidate_name(base@, j), url@),
        decreases n + 1 - suffix,
    {
        match find_remote(remotes, candidate.as_str()) {
            None => {
                assert(first_usable_candidate(remotes@, base@, url@, suffix as nat));
                proof {
                    lemma_fork_choice(*head, origin_url@, origin_owner@, origin_repo@, pr_number, base@, url@);
                }
                return Ok((candidate, true, Some(url)));
            },
            Some(i) => {
                let same = match &remotes[i].1 {
                    Some(u) => str_eq(u.as_str(), url.as_str()),
                    None => false,
                };
                if same {
                    assert(first_usable_candidate(remotes@, base@, url@, suffix as nat));
                    proof {
                        lemma_fork_choice(*head, origin_url@, origin_owner@, origin_repo@, pr_number, base@, url@);
                    }
                    return Ok((candidate, false, None));
                }
                proof {
                    assert(name_blocked(remotes@, candidate_name(base@, suffix as nat), url@));
                    assert forall|t: int| 0 <= t < used.len() implies used[t] != i as int by {
                        lemma_candidates_distinct(base@, (t + 1) as nat, suffix as nat);
                    }
                    let old_used = used;
                    used = used.push(i as int);
                    assert forall|a: int, b: int| 0 <= a < b < used.len() implies used[a] != used[b] by {
                        if b < old_used.len() {
                            assert(old_used[a] != old_used[b]);
                        }
                    }
                    lemma_distinct_indices(used, n);
                }
                suffix = suffix + 1;
                candidate = candidate_name_exec(base.as_str(), suffix);
            },
        }
    }
}

} // verus!

//! Branch switching: classification of user input, request and outcome
//! types, and the naming rules for branches and fork remotes.
use vstd::prelude::*;

use crate::github::{GitHubPr, GitRemoteScheme, PrParse, detect_spec, pr_spec, github_host, pull_segment};
use crate::graph::BranchName;
use crate::jira::{JiraParsingMode, JiraTicketParser, parse_spec};
use crate::strs::{
    CharClass, chars_of, contains, contains_exec, decimal, decimal_string, is_alnum, is_alnum_exec,
    occurs_at, occurs_at_exec, owned, parse_u32, parse_u32_spec, push_str, run_len, run_len_from,
    slice_range, starts_with, starts_with_exec, str_eq, string_of, string_of_range, to_lowercase,
    trim, trim_bounds, trim_start_matches, trim_start_matches_pos, unicode_lowercase, all_decimal_digits,
    in_class, is_decimal_digit, is_upper, lemma_run_len,
};

verus! {

/// Input variants accepted by branch switching workflows.
#[derive(Debug, Clone, PartialEq, Eq)]
pub enum SwitchInput {
    /// Switch based on a Jira issue key (e.g., `PROJ-123`).
    JiraIssueKey(String),
    /// Switch based on a Jira issue URL.
    JiraIssueUrl(String),
    /// Switch based on a GitHub pull request id.
    GitHubPrId(u32),
    /// Switch based on a GitHub pull request URL.
    GitHubPrUrl(u32),
    /// Switch to a concrete branch name.
    BranchName(String),
}

/// The meaning of a `SwitchInput`, by views.
pub enum SwitchInputView {
    JiraIssueKey(Seq<char>),
    JiraIssueUrl(Seq<char>),
    GitHubPrId(u32),
    GitHubPrUrl(u32),
    BranchName(Seq<char>),
}

pub open spec fn switch_input_view(i: SwitchInput) -> SwitchInputView {
    match i {
        SwitchInput::JiraIssueKey(s) => SwitchInputView::JiraIssueKey(s@),
        SwitchInput::JiraIssueUrl(s) => SwitchInputView::JiraIssueUrl(s@),
        SwitchInput::GitHubPrId(n) => SwitchInputView::GitHubPrId(n),
        SwitchInput::GitHubPrUrl(n) => SwitchInputView::GitHubPrUrl(n),
        SwitchInput::BranchName(s) => SwitchInputView::BranchName(s@),
    }
}

/// `/browse/`
pub open spec fn browse_segment() -> Seq<char> {
    seq!['/', 'b', 'r', 'o', 'w', 's', 'e', '/']
}

/// The issue key of a Jira URL match starting at `i`: `/browse/`, two or
/// more capital letters, a hyphen and one or more digits.
pub open spec fn jira_url_key_at(s: Seq<char>, i: int) -> Option<Seq<char>> {
    if occurs_at(s, browse_segment(), i) {
        let u = i + 8;
        let k = run_len(s.subrange(u, s.len() as int), CharClass::Upper) as int;
        if k >= 2 && u + k < s.len() && s[u + k] == '-' {
            let d = u + k + 1;
            let j = run_len(s.subrange(d, s.len() as int), CharClass::DecimalDigit) as int;
            if j >= 1 {
                Some(s.subrange(u, d + j))
            } else {
                None
            }
        } else {
            None
        }
    } else {
        None
    }
}

/// The leftmost Jira URL key at or after `p`.
pub open spec fn first_jira_url_key(s: Seq<char>, p: int) -> Option<Seq<char>>
    decreases s.len() - p,
{
    if p < 0 || p >= s.len() {
        None
    } else {
        match jira_url_key_at(s, p) {
            Some(k) => Some(k),
            None => first_jira_url_key(s, p + 1),
        }
    }
}

/// What `detect_switch_input` decides.
pub open spec fn detect_switch_spec(mode: Option<JiraParsingMode>, s: Seq<char>) -> SwitchInputView {
    let pr = pr_spec(s);
    let jira_url = first_jira_url_key(s, 0);
    let cleaned = trim_start_matches(trim_start_matches(s, "PR#"@), "#"@);
    if contains(s, github_host()) && contains(s, pull_segment()) && pr is Found {
        SwitchInputView::GitHubPrUrl(pr->Found_2)
    } else if (contains(s, "atlassian.net/browse/"@) || (starts_with(s, "http"@) && contains(
        s,
        browse_segment(),
    ))) && jira_url is Some {
        SwitchInputView::JiraIssueUrl(jira_url->0)
    } else if parse_u32_spec(cleaned) is Some {
        SwitchInputView::GitHubPrId(parse_u32_spec(cleaned)->0)
    } else if mode is Some && parse_spec(mode->0, s) is Ok {
        SwitchInputView::JiraIssueKey(parse_spec(mode->0, s)->Ok_0)
    } else {
        SwitchInputView::BranchName(s)
    }
}

pub open spec fn parser_mode(p: Option<&JiraTicketParser>) -> Option<JiraParsingMode> {
    match p {
        Some(parser) => Some(parser.mode()),
        None => None,
    }
}

/// Bounds of the issue key of a Jira URL match starting at `i`.
fn jira_url_key_at_exec(s: &[char], i: usize) -> (r: Option<(usize, usize)>)
    requires
        i < s.len(),
    ensures
        match r {
            Some((a, b)) => a <= b <= s.len() && jira_url_key_at(s@, i as int) == Some(
                s@.subrange(a as int, b as int),
            ),
            None => jira_url_key_at(s@, i as int) is None,
        },
{
    let seg: [char; 8] = ['/', 'b', 'r', 'o', 'w', 's', 'e', '/'];
    assert(seg@ =~= browse_segment());
    if !occurs_at_exec(s, seg.as_slice(), i) {
        return None;
    }
    let u = i + 8;
    let k = run_len_from(s, u, CharClass::Upper);
    if k >= 2 && u + k < s.len() && s[u + k] == '-' {
        let d = u + k + 1;
        let j = run_len_from(s, d, CharClass::DecimalDigit);
        if j >= 1 {
            Some((u, d + j))
        } else {
            None
        }
    } else {
        None
    }
}

/// Extract a Jira issue key from a Jira URL.
pub fn extract_jira_issue_from_url(url: &str) -> (r: Option<String>)
    ensures
        match r {
            Some(k) => first_jira_url_key(url@, 0) == Some(k@),
            None => first_jira_url_key(url@, 0) is None,
        },
{
    let s = chars_of(url);
    let s = s.as_slice();
    let mut p: usize = 0;
    while p < s.len()
        invariant
            p <= s.len(),
            s@ == url@,
            first_jira_url_key(s@, 0) == first_jira_url_key(s@, p as int),
        decreases s.len() - p,
    {
        match jira_url_key_at_exec(s, p) {
            Some((a, b)) => {
                assert(first_jira_url_key(s@, p as int) == jira_url_key_at(s@, p as int));
                let k = string_of_range(s, a, b);
                assert(k@ == s@.subrange(a as int, b as int));
                return Some(k);
            },
            None => {},
        }
        p = p + 1;
    }
    None
}

/// Parse and normalize a Jira issue key using the provided parser.
pub fn parse_jira_issue_key(parser: &JiraTicketParser, input: &str) -> (r: Option<String>)
    ensures
        match r {
            Some(k) => parse_spec(parser.mode(), input@) == Ok::<Seq<char>, Seq<char>>(k@),
            None => parse_spec(parser.mode(), input@) is Err,
        },
{
    match parser.parse(input) {
        Ok(k) => Some(k),
        Err(_) => None,
    }
}

/// Detect the switch input type (branch/Jira/PR) from raw user input.
pub fn detect_switch_input(jira_parser: Option<&JiraTicketParser>, input: &str) -> (r: SwitchInput)
    ensures
        switch_input_view(r) == detect_switch_spec(parser_mode(jira_parser), input@),
{
    let s = chars_of(input);
    let sl = s.as_slice();
    let host: [char; 10] = ['g', 'i', 't', 'h', 'u', 'b', '.', 'c', 'o', 'm'];
    assert(host@ =~= github_host());
    let pull: [char; 6] = ['/', 'p', 'u', 'l', 'l', '/'];
    assert(pull@ =~= pull_segment());
    if contains_exec(sl, host.as_slice()) && contains_exec(sl, pull.as_slice()) {
        match GitHubPr::parse(input) {
            Ok(pr) => {
                return SwitchInput::GitHubPrUrl(pr.number);
            },
            Err(_) => {},
        }
    }
    let browse: [char; 8] = ['/', 'b', 'r', 'o', 'w', 's', 'e', '/'];
    assert(browse@ =~= browse_segment());
    if contains_exec(sl, chars_of("atlassian.net/browse/").as_slice()) || (starts_with_exec(
        sl,
        chars_of("http").as_slice(),
    ) && contains_exec(sl, browse.as_slice())) {
        match extract_jira_issue_from_url(input) {
            Some(key) => {
                return SwitchInput::JiraIssueUrl(key);
            },
            None => {},
        }
    }
    let a = trim_start_matches_pos(sl, chars_of("PR#").as_slice());
    let rest = slice_range(sl, a, sl.len());
    let b = trim_start_matches_pos(rest.as_slice(), chars_of("#").as_slice());
    let cleaned = slice_range(rest.as_slice(), b, rest.len());
    match parse_u32(cleaned.as_slice()) {
        Some(n) => {
            return SwitchInput::GitHubPrId(n);
        },
        None => {},
    }
    match jira_parser {
        Some(parser) => {
            match parse_jira_issue_key(parser, input) {
                Some(key) => {
                    return SwitchInput::JiraIssueKey(key);
                },
                None => {},
            }
        },
        None => {},
    }
    SwitchInput::BranchName(input.to_owned())
}

/// Specifies how the parent branch should be resolved when creating a new
/// branch.
#[derive(Debug, Clone, PartialEq, Eq)]
pub enum ParentBranchOption {
    /// Use the repository HEAD commit without recording a parent dependency.
    Head,
    /// Use the currently checked-out branch as the parent.
    CurrentBranch,
    /// Use a specific branch by name, or resolve via a Jira issue key.
    Named(String),
}

/// The meaning of a `--parent` value: `None` for the head, `Some(None)` for
/// the current branch, `Some(Some(name))` for a named branch.
pub open spec fn parent_option_spec(value: Option<Seq<char>>) -> Option<Option<Seq<char>>> {
    match value {
        None => None,
        Some(v) => {
            let t = trim(v);
            if t.len() == 0 || t == "none"@ {
                None
            } else if t == "current"@ {
                Some(None)
            } else {
                Some(Some(t))
            }
        },
    }
}

pub open spec fn parent_option_view(o: ParentBranchOption) -> Option<Option<Seq<char>>> {
    match o {
        ParentBranchOption::Head => None,
        ParentBranchOption::CurrentBranch => Some(None),
        ParentBranchOption::Named(n) => Some(Some(n@)),
    }
}

impl ParentBranchOption {
    /// Parse a CLI `--parent` value.
    pub fn from_cli_value(value: Option<&str>) -> (r: Self)
        ensures
            parent_option_view(r) == parent_option_spec(
                match value {
                    Some(v) => Some(v@),
                    None => None,
                },
            ),
    {
        match value {
            None => ParentBranchOption::Head,
            Some(v) => {
                let cs = chars_of(v);
                let (a, b) = trim_bounds(cs.as_slice());
                let t = string_of_range(cs.as_slice(), a, b);
                if b == a || str_eq(t.as_str(), "none") {
                    ParentBranchOption::Head
                } else if str_eq(t.as_str(), "current") {
                    ParentBranchOption::CurrentBranch
                } else {
                    ParentBranchOption::Named(t)
                }
            },
        }
    }
}

/// Options controlling how switch helpers behave.
#[derive(Debug, Clone)]
pub struct SwitchExecutionOptions {
    /// Whether to create the target branch when it is missing.
    pub create_missing: bool,
    /// Parent selection hint when creating a new branch.
    pub parent_option: ParentBranchOption,
}

/// The branch name used for a Jira issue: the key in lower case.
pub fn derive_jira_branch_name(issue_key: &str) -> (r: String)
    ensures
        r@ == unicode_lowercase(issue_key@),
{
    to_lowercase(issue_key)
}

/// The branch name used for a pull request: `pr/<number>`.
pub fn derive_pr_branch_name(pr_number: u32) -> (r: String)
    ensures
        r@ == seq!['p', 'r', '/'] + decimal(pr_number as nat),
{
    let mut r = String::new();
    crate::strs::push_char(&mut r, 'p');
    crate::strs::push_char(&mut r, 'r');
    crate::strs::push_char(&mut r, '/');
    let d = decimal_string(pr_number as u64);
    push_str(&mut r, d.as_str());
    assert(r@ =~= seq!['p', 'r', '/'] + decimal(pr_number as nat));
    r
}

/// Source used when creating a new branch.
#[derive(Clone, Debug)]
pub enum BranchBase {
    /// Use the repository's current `HEAD` commit.
    Head,
    /// Use a specific parent branch name.
    Parent { name: String },
}

impl BranchBase {
    /// The parent branch name when there is one.
    pub fn parent_name(&self) -> (r: Option<&str>)
        ensures
            match self {
                BranchBase::Head => r is None,
                BranchBase::Parent { name } => r matches Some(n) && n@ == name@,
            },
    {
        match self {
            BranchBase::Head => None,
            BranchBase::Parent { name } => Some(name.as_str()),
        }
    }
}

/// Request describing a branch switch operation.
#[derive(Debug, Clone)]
pub struct BranchSwitchRequest {
    /// Target that the user wants to end up on.
    pub target: BranchSwitchTarget,
    /// Whether the service may create new branches when the target is missing.
    pub creation_policy: BranchCreationPolicy,
    /// Preference for the parent/base when creating a new branch.
    pub parent: BranchParentRequest,
    /// When true, the service plans actions without mutating the repository.
    pub dry_run: bool,
}

impl BranchSwitchRequest {
    /// A branch-name based request that allows branch creation.
    pub fn for_branch(name: BranchName) -> (r: Self)
        ensures
            r.target matches BranchSwitchTarget::Branch(b) && b == name,
            r.creation_policy == BranchCreationPolicy::AllowCreate,
            r.parent is Default,
            !r.dry_run,
    {
        BranchSwitchRequest {
            target: BranchSwitchTarget::Branch(name),
            creation_policy: BranchCreationPolicy::AllowCreate,
            parent: BranchParentRequest::Default,
            dry_run: false,
        }
    }
}

/// Target for a branch switch request.
#[derive(Debug, Clone)]
pub enum BranchSwitchTarget {
    /// Switch to the root of the current branch's dependency tree.
    DependencyRoot,
    /// Switch to an explicit branch name.
    Branch(BranchName),
    /// Switch to (or create) a branch associated with an external issue.
    Issue(IssueReference),
    /// Switch to (or create) a branch associated with a GitHub pull request.
    GitHubPullRequest(GitHubPullRequestReference),
}

/// Reference to an external issue/work item.
#[derive(Debug, Clone, PartialEq, Eq)]
pub struct IssueReference {
    /// Issue identifier (`PROJ-123`, `#42`, etc.).
    pub key: String,
    /// Optional human readable summary.
    pub summary: Option<String>,
}

impl IssueReference {
    /// Construct a reference with the given key and no summary.
    pub fn new(key: String) -> (r: Self)
        ensures
            r.key == key,
            r.summary is None,
    {
        IssueReference { key, summary: None }
    }

    /// Convenience helper for Jira references.
    pub fn jira(key: String) -> (r: Self)
        ensures
            r.key == key,
            r.summary is None,
    {
        Self::new(key)
    }
}

/// Reference to a GitHub pull request.
#[derive(Debug, Clone)]
pub struct GitHubPullRequestReference {
    /// Owning user or organisation for the repository.
    pub owner: Option<String>,
    /// Repository name.
    pub repository: Option<String>,
    /// Pull request sequence number.
    pub number: u32,
    /// Optional head information when already known.
    pub head: Option<PullRequestHead>,
}

impl GitHubPullRequestReference {
    /// Construct a reference with only the number.
    pub fn new(number: u32) -> (r: Self)
        ensures
            r.owner is None,
            r.repository is None,
            r.number == number,
            r.head is None,
    {
        GitHubPullRequestReference { owner: None, repository: None, number, head: None }
    }
}

/// Description of a pull request head reference.
#[derive(Debug, Clone)]
pub struct PullRequestHead {
    /// Branch name advertised by the pull request head.
    pub branch: BranchName,
    /// Optional remote name if it should be tracked explicitly.
    pub remote: Option<String>,
}

/// Policy controlling whether a missing branch may be created.
#[derive(Debug, Clone, Copy, PartialEq, Eq, Structural)]
pub enum BranchCreationPolicy {
    /// Only allow switching when the branch already exists locally.
    RequireExisting,
    /// Permit the service to create the branch when it cannot be found.
    AllowCreate,
}

/// Preference for resolving the parent/base branch when creating a branch.
#[derive(Debug, Clone)]
pub enum BranchParentRequest {
    /// Use the repository's current HEAD commit without linking dependencies.
    Default,
    /// Use the currently checked-out branch as the parent.
    CurrentBranch,
    /// Use an explicitly named branch.
    Explicit(BranchName),
    /// Resolve the parent branch by looking up the provided issue key.
    IssueKey(String),
    /// Do not link the new branch to any parent.
    NoParent,
}

/// Source of a branch base resolution.
#[derive(Debug, Clone)]
pub enum BranchBaseSource {
    /// The repository's HEAD commit.
    Head,
    /// An existing local branch.
    LocalBranch(BranchName),
    /// A remote tracking branch.
    RemoteBranch {
        /// Remote name (`origin`, `upstream`, etc.).
        remote: String,
        /// Branch name advertised by the remote.
        branch: BranchName,
    },
}

/// Planned metadata updates that accompany a branch switch.
#[derive(Debug, Clone)]
pub struct BranchStateMutations {
    /// Desired dependency relationship for the branch.
    pub dependency: Option<BranchDependencyUpdate>,
    /// Issue key to associate with the branch.
    pub issue: Option<IssueAssociation>,
    /// GitHub pull request number to associate with the branch.
    pub github_pr: Option<u32>,
}

impl BranchStateMutations {
    /// A mutation set that changes nothing.
    pub fn none() -> (m: Self)
        ensures
            m.dependency is None,
            m.issue is None,
            m.github_pr is None,
    {
        BranchStateMutations { dependency: None, issue: None, github_pr: None }
    }

    /// Whether the mutation set is empty.
    pub fn is_empty(&self) -> (b: bool)
        ensures
            b == (self.dependency is None && self.issue is None && self.github_pr is None),
    {
        self.dependency.is_none() && self.issue.is_none() && self.github_pr.is_none()
    }
}

/// Association between a branch and an external issue tracker item.
#[derive(Debug, Clone, PartialEq, Eq)]
pub struct IssueAssociation {
    /// Identifier within the tracker (currently Jira).
    pub key: String,
}

/// Desired dependency relationship for a branch.
#[derive(Debug, Clone)]
pub enum BranchDependencyUpdate {
    /// Remove any existing dependency metadata.
    Clear,
    /// Set the dependency parent to the provided branch reference.
    SetParent(BranchParentReference),
}

/// Reference to a parent branch used when updating dependency metadata.
#[derive(Debug, Clone)]
pub enum BranchParentReference {
    /// Dependency pointing at an explicit branch name.
    Branch(BranchName),
    /// Dependency resolved via an issue tracker key.
    IssueKey(String),
}

/// Subset of pull request head data needed for fork detection and remote
/// setup.
#[derive(Debug, Clone)]
pub struct PullRequestHeadInfo {
    /// Head branch name advertised by the pull request.
    pub branch: String,
    /// Full repository name for the head (e.g. `"forker/repo"`).
    pub repo_full_name: Option<String>,
    /// Login of the head repository owner (e.g. `"forker"`).
    pub owner_login: Option<String>,
    /// SSH clone URL for the head repository.
    pub ssh_url: Option<String>,
    /// HTTPS clone URL for the head repository.
    pub clone_url: Option<String>,
}

/// Bundles all inputs required to checkout a pull request branch locally.
#[derive(Debug, Clone)]
pub struct PullRequestCheckoutRequest {
    /// Pull request number.
    pub pr_number: u32,
    /// Head information extracted from the pull request.
    pub head: PullRequestHeadInfo,
    /// URL of the `origin` remote in the local repository.
    pub origin_url: String,
    /// Owner portion of the origin remote.
    pub origin_owner: String,
    /// Repository name portion of the origin remote.
    pub origin_repo: String,
    /// Optional parent branch to record as a dependency.
    pub parent: Option<String>,
}

/// Outcome of checking out a pull request branch.
#[derive(Debug, Clone)]
pub struct PullRequestCheckoutOutcome {
    /// Local branch name that was checked out.
    pub branch_name: String,
    /// Name of the remote that was used to fetch the branch.
    pub remote_name: String,
    /// `true` when a new fork remote was created during checkout.
    pub fork_remote_created: bool,
    /// URL of the fork remote, when one was created.
    pub fork_remote_url: Option<String>,
}

/// A remote-name character: ASCII letters and digits, `-` and `_` are kept.
pub open spec fn remote_char(c: char) -> char {
    if is_alnum(c) || c == '-' || c == '_' {
        c
    } else {
        '-'
    }
}

pub open spec fn is_dash_or_underscore(c: char) -> bool {
    c == '-' || c == '_'
}

/// What `sanitize_remote_name` returns.
pub open spec fn sanitize_spec(name: Seq<char>) -> Seq<char> {
    let mapped = name.map_values(|c: char| remote_char(c));
    let t = strip_dash_underscore(mapped);
    if t.len() == 0 {
        "remote"@
    } else {
        t
    }
}

/// `s` without leading and trailing `-` and `_`.
pub open spec fn strip_dash_underscore(s: Seq<char>) -> Seq<char> {
    let a = leading_du(s);
    let b = s.len() - trailing_du(s.subrange(a as int, s.len() as int));
    s.subrange(a as int, b as int)
}

/// The number of leading `-`/`_` characters.
pub open spec fn leading_du(s: Seq<char>) -> nat
    decreases s.len(),
{
    if s.len() > 0 && is_dash_or_underscore(s[0]) {
        1 + leading_du(s.drop_first())
    } else {
        0
    }
}

/// The number of trailing `-`/`_` characters.
pub open spec fn trailing_du(s: Seq<char>) -> nat
    decreases s.len(),
{
    if s.len() > 0 && is_dash_or_underscore(s.last()) {
        1 + trailing_du(s.drop_last())
    } else {
        0
    }
}

proof fn lemma_leading_du(s: Seq<char>, k: int)
    requires
        0 <= k <= s.len(),
        forall|j: int| 0 <= j < k ==> is_dash_or_underscore(#[trigger] s[j]),
        k == s.len() || !is_dash_or_underscore(s[k]),
    ensures
        leading_du(s) == k,
    decreases k,
{
    if k > 0 {
        lemma_leading_du(s.drop_first(), k - 1);
    }
}

proof fn lemma_trailing_du(s: Seq<char>, k: int)
    requires
        0 <= k <= s.len(),
        forall|j: int| s.len() - k <= j < s.len() ==> is_dash_or_underscore(#[trigger] s[j]),
        k == s.len() || !is_dash_or_underscore(s[s.len() - k - 1]),
    ensures
        trailing_du(s) == k,
    decreases k,
{
    if k > 0 {
        lemma_trailing_du(s.drop_last(), k - 1);
    }
}

proof fn lemma_leading_facts(s: Seq<char>)
    ensures
        leading_du(s) <= s.len(),
        forall|j: int| 0 <= j < leading_du(s) ==> is_dash_or_underscore(#[trigger] s[j]),
        leading_du(s) < s.len() ==> !is_dash_or_underscore(s[leading_du(s) as int]),
    decreases s.len(),
{
    if s.len() > 0 && is_dash_or_underscore(s[0]) {
        lemma_leading_facts(s.drop_first());
        assert forall|j: int| 0 <= j < leading_du(s) implies is_dash_or_underscore(#[trigger] s[j]) by {
            if j > 0 {
                assert(s[j] == s.drop_first()[j - 1]);
            }
        }
    }
}

proof fn lemma_trailing_facts(s: Seq<char>)
    ensures
        trailing_du(s) <= s.len(),
        forall|j: int| s.len() - trailing_du(s) <= j < s.len() ==> is_dash_or_underscore(#[trigger] s[j]),
        trailing_du(s) < s.len() ==> !is_dash_or_underscore(s[s.len() - trailing_du(s) - 1]),
    decreases s.len(),
{
    if s.len() > 0 && is_dash_or_underscore(s.last()) {
        lemma_trailing_facts(s.drop_last());
        assert forall|j: int| s.len() - trailing_du(s) <= j < s.len() implies is_dash_or_underscore(#[trigger] s[j]) by {
            if j < s.len() - 1 {
                assert(s[j] == s.drop_last()[j]);
            }
        }
    }
}

/// A name is a usable remote name: not empty, made of ASCII letters and
/// digits, `-` and `_`, and neither starting nor ending with `-` or `_`.
pub open spec fn clean_remote_name(r: Seq<char>) -> bool {
    &&& r.len() > 0
    &&& forall|i: int| 0 <= i < r.len() ==> is_alnum(#[trigger] r[i]) || r[i] == '-' || r[i] == '_'
    &&& !is_dash_or_underscore(r[0])
    &&& !is_dash_or_underscore(r.last())
}

/// Sanitizing gives a usable remote name, leaves a usable remote name as it
/// is (so sanitizing twice is sanitizing once), and gives `remote` for a
/// name without ASCII letters or digits.
pub proof fn lemma_sanitize_remote_name(name: Seq<char>)
    ensures
        clean_remote_name(sanitize_spec(name)),
        sanitize_spec(sanitize_spec(name)) == sanitize_spec(name),
        (forall|i: int| 0 <= i < name.len() ==> !is_alnum(#[trigger] name[i])) ==> sanitize_spec(name) == "remote"@,
{
    reveal_strlit("remote");
    let mapped = name.map_values(|c: char| remote_char(c));
    let a = leading_du(mapped);
    lemma_leading_facts(mapped);
    let rest = mapped.subrange(a as int, mapped.len() as int);
    lemma_trailing_facts(rest);
    let t = strip_dash_underscore(mapped);
    if t.len() > 0 {
        assert(t[0] == mapped[a as int]);
        assert(t.last() == rest[rest.len() - trailing_du(rest) - 1]);
        assert forall|i: int| 0 <= i < t.len() implies is_alnum(#[trigger] t[i]) || t[i] == '-' || t[i] == '_' by {
            assert(t[i] == mapped[a + i]);
        }
    }
    assert(clean_remote_name(sanitize_spec(name)));
    lemma_clean_is_kept(sanitize_spec(name));
    if forall|i: int| 0 <= i < name.len() ==> !is_alnum(#[trigger] name[i]) {
        assert forall|j: int| 0 <= j < mapped.len() implies is_dash_or_underscore(#[trigger] mapped[j]) by {
            assert(!is_alnum(name[j]));
        }
        lemma_leading_du(mapped, mapped.len() as int);
        assert(t.len() == 0);
    }
}

/// A usable remote name comes out of sanitizing unchanged.
proof fn lemma_clean_is_kept(r: Seq<char>)
    requires
        clean_remote_name(r),
    ensures
        sanitize_spec(r) == r,
{
    let mapped = r.map_values(|c: char| remote_char(c));
    assert(mapped =~= r);
    lemma_leading_du(r, 0);
    assert(r.subrange(0, r.len() as int) =~= r);
    lemma_trailing_du(r, 0);
    assert(strip_dash_underscore(r) =~= r);
}

/// Sanitize a string for use as a Git remote name: characters other than
/// ASCII letters, digits, `-` and `_` become `-`, leading and trailing `-` and
/// `_` are stripped, and an empty result becomes `remote`.
pub fn sanitize_remote_name(name: &str) -> (r: String)
    ensures
        r@ == sanitize_spec(name@),
{
    let cs = chars_of(name);
    let mut mapped: Vec<char> = Vec::new();
    let mut i: usize = 0;
    while i < cs.len()
        invariant
            i <= cs.len(),
            mapped@ == cs@.take(i as int).map_values(|c: char| remote_char(c)),
        decreases cs.len() - i,
    {
        let c = cs[i];
        let m = if is_alnum_exec(c) || c == '-' || c == '_' {
            c
        } else {
            '-'
        };
        mapped.push(m);
        i = i + 1;
        assert(mapped@ =~= cs@.take(i as int).map_values(|c: char| remote_char(c)));
    }
    assert(cs@.take(cs.len() as int) =~= cs@);
    let ghost ms = mapped@;
    let mut a: usize = 0;
    while a < mapped.len() && (mapped[a] == '-' || mapped[a] == '_')
        invariant
            a <= mapped.len(),
            forall|j: int| 0 <= j < a ==> is_dash_or_underscore(#[trigger] ms[j]),
            ms == mapped@,
        decreases mapped.len() - a,
    {
        a = a + 1;
    }
    proof {
        lemma_leading_du(ms, a as int);
    }
    let mut b: usize = mapped.len();
    while b > a && (mapped[b - 1] == '-' || mapped[b - 1] == '_')
        invariant
            a <= b <= mapped.len(),
            forall|j: int| b <= j < ms.len() ==> is_dash_or_underscore(#[trigger] ms[j]),
            ms == mapped@,
        decreases b,
    {
        b = b - 1;
    }
    proof {
        let t = ms.subrange(a as int, ms.len() as int);
        let k = (ms.len() - b) as int;
        assert forall|j: int| t.len() - k <= j < t.len() implies is_dash_or_underscore(
            #[trigger] t[j],
        ) by {
            assert(t[j] == ms[a + j]);
        }
        if k < t.len() {
            assert(t[t.len() - k - 1] == ms[b - 1]);
        }
        lemma_trailing_du(t, k);
    }
    if b == a {
        "remote".to_owned()
    } else {
        string_of_range(mapped.as_slice(), a, b)
    }
}

/// Which clone URL a fork remote should use.
pub open spec fn select_repo_url_spec(
    ssh_url: Option<Seq<char>>,
    clone_url: Option<Seq<char>>,
    origin_url: Seq<char>,
) -> Option<Seq<char>> {
    if detect_spec(origin_url) == GitRemoteScheme::Ssh {
        if ssh_url is Some {
            ssh_url
        } else {
            clone_url
        }
    } else {
        if clone_url is Some {
            clone_url
        } else {
            ssh_url
        }
    }
}

pub open spec fn opt_view(o: Option<&str>) -> Option<Seq<char>> {
    match o {
        Some(s) => Some(s@),
        None => None,
    }
}

pub open spec fn opt_string_view(o: Option<String>) -> Option<Seq<char>> {
    match o {
        Some(s) => Some(s@),
        None => None,
    }
}

/// Choose the best clone URL for a fork remote based on the origin URL
/// scheme: an SSH origin prefers the SSH URL, any other origin the HTTPS
/// clone URL; either falls back to the other.
pub fn select_repo_url(ssh_url: Option<&str>, clone_url: Option<&str>, origin_url: &str) -> (r:
    Option<String>)
    ensures
        opt_string_view(r) == select_repo_url_spec(opt_view(ssh_url), opt_view(clone_url), origin_url@),
{
    let first_ssh = GitRemoteScheme::detect(origin_url).prefers_ssh();
    let (first, second) = if first_ssh {
        (ssh_url, clone_url)
    } else {
        (clone_url, ssh_url)
    };
    match first {
        Some(u) => Some(u.to_owned()),
        None => match second {
            Some(u) => Some(u.to_owned()),
            None => None,
        },
    }
}

// ---------------------------------------------------------------------------
// Laws
// ---------------------------------------------------------------------------

/// A Jira issue URL: some lead-in, `/browse/`, the project's capitals, `-`
/// and the issue number's digits.
pub open spec fn jira_url(lead: Seq<char>, project: Seq<char>, digits: Seq<char>) -> Seq<char> {
    lead + browse_segment() + project + seq!['-'] + digits
}

/// The key of a Jira URL, as the URL spells it.
pub open spec fn jira_key(project: Seq<char>, digits: Seq<char>) -> Seq<char> {
    project + seq!['-'] + digits
}

/// No `/browse/` match starts before the first `b` that could follow its
/// slash.
proof fn lemma_jira_skip_to(s: Seq<char>, j: int, i: int)
    requires
        0 <= j <= i < s.len(),
        forall|k: int| j < k <= i ==> s[k] != 'b',
    ensures
        first_jira_url_key(s, j) == first_jira_url_key(s, i),
    decreases i - j,
{
    if j < i {
        if occurs_at(s, browse_segment(), j) {
            assert(s.subrange(j, j + 8)[1] == s[j + 1]);
        }
        lemma_jira_skip_to(s, j + 1, i);
    }
}

/// The key found in a Jira URL whose digits are followed by anything but a
/// digit.
proof fn lemma_jira_url_key(lead: Seq<char>, project: Seq<char>, digits: Seq<char>, rest: Seq<char>)
    requires
        forall|k: int| 0 <= k < lead.len() ==> lead[k] != 'b',
        project.len() >= 2,
        forall|k: int| 0 <= k < project.len() ==> is_upper(project[k]),
        digits.len() > 0,
        all_decimal_digits(digits),
        rest.len() == 0 || !is_decimal_digit(rest[0]),
    ensures
        first_jira_url_key(jira_url(lead, project, digits) + rest, 0) == Some(jira_key(project, digits)),
        occurs_at(jira_url(lead, project, digits) + rest, browse_segment(), lead.len() as int),
{
    let s = jira_url(lead, project, digits) + rest;
    let i0 = lead.len() as int;
    let u = i0 + 8;
    let d = u + project.len() + 1;
    let e = d + digits.len();
    assert(s.len() == e + rest.len());
    assert forall|k: int| 0 <= k < i0 implies s[k] == lead[k] by {}
    assert(s.subrange(i0, i0 + 8) =~= browse_segment());
    assert forall|k: int| 0 <= k < project.len() implies s[u + k] == project[k] by {}
    assert(s[u + project.len()] == '-');
    assert forall|k: int| 0 <= k < digits.len() implies s[d + k] == digits[k] by {}
    if rest.len() > 0 {
        assert(s[e] == rest[0]);
    }
    let tu = s.subrange(u, s.len() as int);
    assert forall|j: int| 0 <= j < project.len() implies in_class(CharClass::Upper, #[trigger] tu[j]) by {
        assert(tu[j] == s[u + j]);
    }
    assert(tu[project.len() as int] == '-');
    lemma_run_len(tu, CharClass::Upper, project.len() as int);
    let td = s.subrange(d, s.len() as int);
    assert forall|j: int| 0 <= j < digits.len() implies in_class(CharClass::DecimalDigit, #[trigger] td[j]) by {
        assert(td[j] == s[d + j]);
    }
    if rest.len() > 0 {
        assert(td[digits.len() as int] == rest[0]);
    }
    lemma_run_len(td, CharClass::DecimalDigit, digits.len() as int);
    assert(s.subrange(u, e) =~= jira_key(project, digits));
    assert(jira_url_key_at(s, i0) == Some(jira_key(project, digits)));
    if i0 > 0 {
        assert(s[i0] == '/');
        lemma_jira_skip_to(s, 0, i0);
    }
}

/// The key taken from a Jira URL is the key it spells, whatever follows the
/// number (a query such as `?focusedCommentId=456`, a fragment, a further
/// path, or nothing), as long as it does not go on with a digit; and an
/// `http` URL of that shape that is no GitHub URL is taken for a Jira issue
/// URL with that key. The lead-in holds no `b`, so that no `/browse/`
/// starts within it.
pub proof fn lemma_jira_key_ignores_what_follows(
    mode: Option<JiraParsingMode>,
    lead: Seq<char>,
    project: Seq<char>,
    digits: Seq<char>,
    rest: Seq<char>,
)
    requires
        forall|k: int| 0 <= k < lead.len() ==> lead[k] != 'b',
        project.len() >= 2,
        forall|k: int| 0 <= k < project.len() ==> is_upper(project[k]),
        digits.len() > 0,
        all_decimal_digits(digits),
        rest.len() == 0 || !is_decimal_digit(rest[0]),
    ensures
        first_jira_url_key(jira_url(lead, project, digits) + rest, 0) == Some(jira_key(project, digits)),
        first_jira_url_key(jira_url(lead, project, digits) + rest, 0) == first_jira_url_key(
            jira_url(lead, project, digits),
            0,
        ),
        starts_with(jira_url(lead, project, digits) + rest, "http"@) && !contains(
            jira_url(lead, project, digits) + rest,
            github_host(),
        ) ==> detect_switch_spec(mode, jira_url(lead, project, digits) + rest) == SwitchInputView::JiraIssueUrl(
            jira_key(project, digits),
        ),
{
    lemma_jira_url_key(lead, project, digits, rest);
    lemma_jira_url_key(lead, project, digits, seq![]);
    assert(jira_url(lead, project, digits) + seq![] =~= jira_url(lead, project, digits));
    let s = jira_url(lead, project, digits) + rest;
    assert(contains(s, browse_segment()));
}

} // verus!

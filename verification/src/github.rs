//! GitHub URL parsing: remote schemes, repositories and pull requests.
use vstd::prelude::*;

use crate::strs::{
    all_decimal_digits, chars_of, concat, decimal, in_class, is_decimal_digit, lemma_run_len, occurs_at,
    occurs_at_exec, parse_u32, parse_u32_spec, push_char, push_str, run_len, run_len_from, starts_with,
    starts_with_exec, string_of_range, CharClass,
};

verus! {

/// Git remote URL scheme.
#[derive(Debug, Clone, Copy, PartialEq, Eq, Structural)]
pub enum GitRemoteScheme {
    /// SSH protocol (`ssh://` or SCP-style `git@host:path`)
    Ssh,
    /// HTTPS protocol
    Https,
    /// HTTP protocol (insecure)
    Http,
    /// Git protocol (`git://`)
    Git,
    /// Local file path or `file://` URL
    File,
}

/// The first position of `c` in `s` at or after `from`, if any.
pub open spec fn first_char_from(s: Seq<char>, c: char, from: int) -> Option<int>
    decreases s.len() - from,
{
    if from < 0 || from >= s.len() {
        None
    } else if s[from] == c {
        Some(from)
    } else {
        first_char_from(s, c, from + 1)
    }
}

/// SCP-style syntax `user@host:path`: an `@`, a later `:`, and the `:` not
/// followed by `//`.
pub open spec fn is_scp_style_spec(url: Seq<char>) -> bool {
    match first_char_from(url, '@', 0) {
        Some(at) => match first_char_from(url, ':', at) {
            Some(colon) => !starts_with(url.subrange(colon + 1, url.len() as int), seq!['/', '/']),
            None => false,
        },
        None => false,
    }
}

/// The scheme of a remote URL.
pub open spec fn detect_spec(url: Seq<char>) -> GitRemoteScheme {
    if starts_with(url, "https://"@) {
        GitRemoteScheme::Https
    } else if starts_with(url, "http://"@) {
        GitRemoteScheme::Http
    } else if starts_with(url, "git://"@) {
        GitRemoteScheme::Git
    } else if starts_with(url, "file://"@) {
        GitRemoteScheme::File
    } else if starts_with(url, "ssh://"@) || is_scp_style_spec(url) {
        GitRemoteScheme::Ssh
    } else {
        GitRemoteScheme::File
    }
}

/// The first position of `c` in `s` at or after `from`.
pub fn find_char_from(s: &[char], c: char, from: usize) -> (r: Option<usize>)
    ensures
        match r {
            Some(i) => first_char_from(s@, c, from as int) == Some(i as int),
            None => first_char_from(s@, c, from as int) is None,
        },
    decreases s.len() - from,
{
    if from >= s.len() {
        None
    } else if s[from] == c {
        Some(from)
    } else {
        find_char_from(s, c, from + 1)
    }
}

impl GitRemoteScheme {
    /// Detect the scheme from a remote URL string.
    pub fn detect(url: &str) -> (r: Self)
        ensures
            r == detect_spec(url@),
    {
        let s = chars_of(url);
        let s = s.as_slice();
        if starts_with_exec(s, chars_of("https://").as_slice()) {
            GitRemoteScheme::Https
        } else if starts_with_exec(s, chars_of("http://").as_slice()) {
            GitRemoteScheme::Http
        } else if starts_with_exec(s, chars_of("git://").as_slice()) {
            GitRemoteScheme::Git
        } else if starts_with_exec(s, chars_of("file://").as_slice()) {
            GitRemoteScheme::File
        } else if starts_with_exec(s, chars_of("ssh://").as_slice()) || Self::is_scp_style(s) {
            GitRemoteScheme::Ssh
        } else {
            GitRemoteScheme::File
        }
    }

    /// Whether a URL uses SCP-style syntax (`user@host:path`).
    pub fn is_scp_style(url: &[char]) -> (b: bool)
        ensures
            b == is_scp_style_spec(url@),
    {
        match find_char_from(url, '@', 0) {
            Some(at) => match find_char_from(url, ':', at) {
                Some(colon) => {
                    proof {
                        lemma_first_char_in_range(url@, ':', at as int);
                        assert(first_char_from(url@, ':', at as int) == Some(colon as int));
                        assert(colon < url.len());
                    }
                    let rest = string_of_range(url, colon + 1, url.len());
                    let rest_chars = chars_of(rest.as_str());
                    let slashes: [char; 2] = ['/', '/'];
                    let b = starts_with_exec(rest_chars.as_slice(), slashes.as_slice());
                    assert(slashes@ =~= seq!['/', '/']);
                    !b
                },
                None => false,
            },
            None => false,
        }
    }

    /// Whether this scheme uses SSH-based authentication. `git://` does not.
    pub fn prefers_ssh(&self) -> (b: bool)
        ensures
            b == (*self == GitRemoteScheme::Ssh),
    {
        match self {
            GitRemoteScheme::Ssh => true,
            _ => false,
        }
    }
}

/// A found position is inside the string.
pub proof fn lemma_first_char_in_range(s: Seq<char>, c: char, from: int)
    ensures
        match first_char_from(s, c, from) {
            Some(i) => from <= i < s.len() && s[i] == c,
            None => true,
        },
    decreases s.len() - from,
{
    if from >= 0 && from < s.len() && s[from] != c {
        lemma_first_char_in_range(s, c, from + 1);
    }
}

/// `github.com`
pub open spec fn github_host() -> Seq<char> {
    seq!['g', 'i', 't', 'h', 'u', 'b', '.', 'c', 'o', 'm']
}

/// `/pull/`
pub open spec fn pull_segment() -> Seq<char> {
    seq!['/', 'p', 'u', 'l', 'l', '/']
}

/// The owner and repository of a GitHub URL match that starts at `i`:
/// `github.com`, then `/` or `:`, then the owner (no `/`), a `/`, and the
/// repository name (no `/` and no `.`).
pub open spec fn repo_match_at(s: Seq<char>, i: int) -> Option<(Seq<char>, Seq<char>)> {
    if occurs_at(s, github_host(), i) && i + 10 < s.len() && (s[i + 10] == '/' || s[i + 10]
        == ':') {
        let o = i + 11;
        let ol = run_len(s.subrange(o, s.len() as int), CharClass::NotSlash) as int;
        let sl = o + ol;
        if ol >= 1 && sl < s.len() {
            let r = sl + 1;
            let rl = run_len(s.subrange(r, s.len() as int), CharClass::NotSlashDot) as int;
            if rl >= 1 {
                Some((s.subrange(o, sl), s.subrange(r, r + rl)))
            } else {
                None
            }
        } else {
            None
        }
    } else {
        None
    }
}

/// The leftmost repository match at or after `p`.
pub open spec fn first_repo_match(s: Seq<char>, p: int) -> Option<(Seq<char>, Seq<char>)>
    decreases s.len() - p,
{
    if p < 0 || p >= s.len() {
        None
    } else {
        match repo_match_at(s, p) {
            Some(m) => Some(m),
            None => first_repo_match(s, p + 1),
        }
    }
}

/// The pull request number digits of a match starting at `i`:
/// `github.com/<owner>/<repo>/pull/<digits>`.
pub open spec fn pr_match_at(s: Seq<char>, i: int) -> Option<Seq<char>> {
    if occurs_at(s, github_host().push('/'), i) {
        let o = i + 11;
        let ol = run_len(s.subrange(o, s.len() as int), CharClass::NotSlash) as int;
        let a = o + ol;
        if ol >= 1 && a < s.len() {
            let r = a + 1;
            let rl = run_len(s.subrange(r, s.len() as int), CharClass::NotSlash) as int;
            let b = r + rl;
            if rl >= 1 && occurs_at(s, pull_segment(), b) {
                let d = b + 6;
                let dl = run_len(s.subrange(d, s.len() as int), CharClass::DecimalDigit) as int;
                if dl >= 1 {
                    Some(s.subrange(d, d + dl))
                } else {
                    None
                }
            } else {
                None
            }
        } else {
            None
        }
    } else {
        None
    }
}

/// The leftmost pull request match at or after `p`.
pub open spec fn first_pr_match(s: Seq<char>, p: int) -> Option<Seq<char>>
    decreases s.len() - p,
{
    if p < 0 || p >= s.len() {
        None
    } else {
        match pr_match_at(s, p) {
            Some(m) => Some(m),
            None => first_pr_match(s, p + 1),
        }
    }
}

/// Why a GitHub URL could not be parsed.
#[derive(Debug, Clone)]
pub enum GitHubUrlError {
    /// No `github.com/<owner>/<repo>` in the URL; holds the URL.
    NotARepository(String),
    /// No `/pull/<number>` in the URL; holds the URL.
    NoPullRequestNumber(String),
    /// The pull request digits are not a `u32` (too large, or digits of
    /// another script); holds them.
    InvalidPullRequestNumber(String),
}

impl GitHubUrlError {
    /// The human readable description of the error.
    pub fn message(&self) -> (s: String)
        ensures
            match self {
                GitHubUrlError::NotARepository(u) => s@ == "Could not extract owner and repo from URL: "@
                    + u@,
                GitHubUrlError::NoPullRequestNumber(u) => s@ == "Could not extract PR number from URL: "@
                    + u@,
                GitHubUrlError::InvalidPullRequestNumber(d) => s@ == "Failed to parse PR number '"@
                    + d@ + "' as a valid integer"@,
            },
    {
        match self {
            GitHubUrlError::NotARepository(u) => concat(
                "Could not extract owner and repo from URL: ",
                u.as_str(),
            ),
            GitHubUrlError::NoPullRequestNumber(u) => concat(
                "Could not extract PR number from URL: ",
                u.as_str(),
            ),
            GitHubUrlError::InvalidPullRequestNumber(d) => {
                let mut s = concat("Failed to parse PR number '", d.as_str());
                push_str(&mut s, "' as a valid integer");
                s
            },
        }
    }
}

/// Parsed GitHub repository reference.
#[derive(Debug, Clone)]
pub struct GitHubRepo {
    /// Repository owner (user or organization)
    pub owner: String,
    /// Repository name
    pub repo: String,
}

/// The repository named by a URL, or `None`.
pub open spec fn repo_spec(url: Seq<char>) -> Option<(Seq<char>, Seq<char>)> {
    first_repo_match(url, 0)
}

/// What `GitHubRepo::parse` returns, by views.
pub open spec fn repo_result_view(r: Result<GitHubRepo, GitHubUrlError>) -> Option<(Seq<char>, Seq<char>)> {
    match r {
        Ok(g) => Some((g.owner@, g.repo@)),
        Err(_) => None,
    }
}

/// Bounds of a repository match starting at `i`: owner `[o, sl)`, name
/// `[sl + 1, end)`.
fn repo_match_at_exec(s: &[char], i: usize) -> (r: Option<(usize, usize, usize)>)
    requires
        i < s.len(),
    ensures
        match r {
            Some((o, sl, end)) => o <= sl < end <= s.len() && repo_match_at(s@, i as int) == Some(
                (s@.subrange(o as int, sl as int), s@.subrange(sl + 1, end as int)),
            ),
            None => repo_match_at(s@, i as int) is None,
        },
{
    let host: [char; 10] = ['g', 'i', 't', 'h', 'u', 'b', '.', 'c', 'o', 'm'];
    assert(host@ =~= github_host());
    if !occurs_at_exec(s, host.as_slice(), i) {
        return None;
    }
    if s.len() - i <= 10 {
        return None;
    }
    if !(s[i + 10] == '/' || s[i + 10] == ':') {
        return None;
    }
    let o = i + 11;
    let ol = run_len_from(s, o, CharClass::NotSlash);
    let sl = o + ol;
    if ol >= 1 && sl < s.len() {
        let rl = run_len_from(s, sl + 1, CharClass::NotSlashDot);
        if rl >= 1 {
            Some((o, sl, sl + 1 + rl))
        } else {
            None
        }
    } else {
        None
    }
}

/// Bounds of the leftmost repository match.
fn find_repo_match(s: &[char]) -> (r: Option<(usize, usize, usize)>)
    ensures
        match r {
            Some((o, sl, end)) => o <= sl < end <= s.len() && first_repo_match(s@, 0) == Some(
                (s@.subrange(o as int, sl as int), s@.subrange(sl + 1, end as int)),
            ),
            None => first_repo_match(s@, 0) is None,
        },
{
    let mut p: usize = 0;
    while p < s.len()
        invariant
            p <= s.len(),
            first_repo_match(s@, 0) == first_repo_match(s@, p as int),
        decreases s.len() - p,
    {
        match repo_match_at_exec(s, p) {
            Some(b) => {
                return Some(b);
            },
            None => {},
        }
        p = p + 1;
    }
    None
}

impl GitHubRepo {
    /// Parse a GitHub URL to extract the repository owner and name.
    pub fn parse(url: &str) -> (r: Result<Self, GitHubUrlError>)
        ensures
            repo_result_view(r) == repo_spec(url@),
            r matches Err(e) ==> e matches GitHubUrlError::NotARepository(u) && u@ == url@,
    {
        let s = chars_of(url);
        match find_repo_match(s.as_slice()) {
            Some((o, sl, end)) => Ok(
                GitHubRepo {
                    owner: string_of_range(s.as_slice(), o, sl),
                    repo: string_of_range(s.as_slice(), sl + 1, end),
                },
            ),
            None => Err(GitHubUrlError::NotARepository(url.to_owned())),
        }
    }

    /// The full repository path as `owner/repo`.
    pub fn full_name(&self) -> (s: String)
        ensures
            s@ == self.owner@ + seq!['/'] + self.repo@,
    {
        let mut s = self.owner.clone();
        push_char(&mut s, '/');
        push_str(&mut s, self.repo.as_str());
        s
    }
}

/// Parsed GitHub pull request reference.
#[derive(Debug, Clone)]
pub struct GitHubPr {
    /// Repository owner (user or organization)
    pub owner: String,
    /// Repository name
    pub repo: String,
    /// Pull request number
    pub number: u32,
}

/// What `GitHubPr::parse` decides: the owner, repository and number, or
/// which error comes.
pub enum PrParse {
    Found(Seq<char>, Seq<char>, u32),
    NotARepository,
    NoNumber,
    NumberUnparsable(Seq<char>),
}

pub open spec fn pr_spec(url: Seq<char>) -> PrParse {
    match first_repo_match(url, 0) {
        None => PrParse::NotARepository,
        Some((owner, repo)) => match first_pr_match(url, 0) {
            None => PrParse::NoNumber,
            Some(digits) => match parse_u32_spec(digits) {
                Some(n) => PrParse::Found(owner, repo, n),
                None => PrParse::NumberUnparsable(digits),
            },
        },
    }
}

pub open spec fn pr_result_matches(r: Result<GitHubPr, GitHubUrlError>, url: Seq<char>) -> bool {
    match (r, pr_spec(url)) {
        (Ok(p), PrParse::Found(o, rp, n)) => p.owner@ == o && p.repo@ == rp && p.number == n,
        (Err(GitHubUrlError::NotARepository(u)), PrParse::NotARepository) => u@ == url,
        (Err(GitHubUrlError::NoPullRequestNumber(u)), PrParse::NoNumber) => u@ == url,
        (Err(GitHubUrlError::InvalidPullRequestNumber(d)), PrParse::NumberUnparsable(ds)) => d@ == ds,
        _ => false,
    }
}

/// Bounds of the pull request digits of a match starting at `i`.
fn pr_match_at_exec(s: &[char], i: usize) -> (r: Option<(usize, usize)>)
    requires
        i < s.len(),
    ensures
        match r {
            Some((d, end)) => d <= end <= s.len() && pr_match_at(s@, i as int) == Some(
                s@.subrange(d as int, end as int),
            ),
            None => pr_match_at(s@, i as int) is None,
        },
{
    let host: [char; 11] = ['g', 'i', 't', 'h', 'u', 'b', '.', 'c', 'o', 'm', '/'];
    assert(host@ =~= github_host().push('/'));
    let pull: [char; 6] = ['/', 'p', 'u', 'l', 'l', '/'];
    assert(pull@ =~= pull_segment());
    if !occurs_at_exec(s, host.as_slice(), i) {
        return None;
    }
    let o = i + 11;
    let ol = run_len_from(s, o, CharClass::NotSlash);
    let a = o + ol;
    if !(ol >= 1 && a < s.len()) {
        return None;
    }
    let r = a + 1;
    let rl = run_len_from(s, r, CharClass::NotSlash);
    let b = r + rl;
    if !(rl >= 1 && occurs_at_exec(s, pull.as_slice(), b)) {
        return None;
    }
    let d = b + 6;
    let dl = run_len_from(s, d, CharClass::DecimalDigit);
    if dl >= 1 {
        Some((d, d + dl))
    } else {
        None
    }
}

/// Bounds of the digits of the leftmost pull request match.
fn find_pr_match(s: &[char]) -> (r: Option<(usize, usize)>)
    ensures
        match r {
            Some((d, end)) => d <= end <= s.len() && first_pr_match(s@, 0) == Some(
                s@.subrange(d as int, end as int),
            ),
            None => first_pr_match(s@, 0) is None,
        },
{
    let mut p: usize = 0;
    while p < s.len()
        invariant
            p <= s.len(),
            first_pr_match(s@, 0) == first_pr_match(s@, p as int),
        decreases s.len() - p,
    {
        match pr_match_at_exec(s, p) {
            Some(b) => {
                return Some(b);
            },
            None => {},
        }
        p = p + 1;
    }
    None
}

impl GitHubPr {
    /// Parse a GitHub pull request URL.
    pub fn parse(url: &str) -> (r: Result<Self, GitHubUrlError>)
        ensures
            pr_result_matches(r, url@),
    {
        let repo = match GitHubRepo::parse(url) {
            Ok(repo) => repo,
            Err(e) => {
                return Err(e);
            },
        };
        let s = chars_of(url);
        match find_pr_match(s.as_slice()) {
            Some((d, end)) => {
                let digits = string_of_range(s.as_slice(), d, end);
                let dv = chars_of(digits.as_str());
                match parse_u32(dv.as_slice()) {
                    Some(n) => Ok(GitHubPr { owner: repo.owner, repo: repo.repo, number: n }),
                    None => Err(GitHubUrlError::InvalidPullRequestNumber(digits)),
                }
            },
            None => Err(GitHubUrlError::NoPullRequestNumber(url.to_owned())),
        }
    }

    /// The repository portion of this pull request reference.
    pub fn repo(&self) -> (r: GitHubRepo)
        ensures
            r.owner@ == self.owner@,
            r.repo@ == self.repo@,
    {
        GitHubRepo { owner: self.owner.clone(), repo: self.repo.clone() }
    }
}

// ---------------------------------------------------------------------------
// Laws
// ---------------------------------------------------------------------------

/// A pull request URL: some lead-in, `github.com/`, the owner, `/`, the
/// repository, `/pull/` and the number's digits.
pub open spec fn pr_url(lead: Seq<char>, owner: Seq<char>, repo: Seq<char>, digits: Seq<char>) -> Seq<char> {
    lead + github_host() + seq!['/'] + owner + seq!['/'] + repo + pull_segment() + digits
}

/// No match of either pattern starts at a position that does not hold `g`.
proof fn lemma_no_match_without_g(s: Seq<char>, k: int)
    requires
        0 <= k < s.len(),
        s[k] != 'g',
    ensures
        pr_match_at(s, k) is None,
        repo_match_at(s, k) is None,
{
    if occurs_at(s, github_host().push('/'), k) {
        assert(s.subrange(k, k + 11)[0] == s[k]);
    }
    if occurs_at(s, github_host(), k) {
        assert(s.subrange(k, k + 10)[0] == s[k]);
    }
}

/// The leftmost matches are not found before the first `g` at or after
/// `j`.
proof fn lemma_skip_to(s: Seq<char>, j: int, i: int)
    requires
        0 <= j <= i < s.len(),
        forall|k: int| j <= k < i ==> s[k] != 'g',
    ensures
        first_pr_match(s, j) == first_pr_match(s, i),
        first_repo_match(s, j) == first_repo_match(s, i),
    decreases i - j,
{
    if j < i {
        lemma_no_match_without_g(s, j);
        lemma_skip_to(s, j + 1, i);
    }
}

/// Where the parts of a pull request URL stand, and what the two patterns
/// find in it when the digits are followed by anything but a digit.
#[verifier::rlimit(30)]
proof fn lemma_pr_url_matches(lead: Seq<char>, owner: Seq<char>, repo: Seq<char>, digits: Seq<char>, rest: Seq<char>)
    requires
        forall|k: int| 0 <= k < lead.len() ==> lead[k] != 'g',
        owner.len() > 0,
        forall|k: int| 0 <= k < owner.len() ==> owner[k] != '/',
        repo.len() > 0,
        forall|k: int| 0 <= k < repo.len() ==> repo[k] != '/' && repo[k] != '.',
        digits.len() > 0,
        all_decimal_digits(digits),
        rest.len() == 0 || !is_decimal_digit(rest[0]),
    ensures
        first_pr_match(pr_url(lead, owner, repo, digits) + rest, 0) == Some(digits),
        first_repo_match(pr_url(lead, owner, repo, digits) + rest, 0) == Some((owner, repo)),
{
    let s = pr_url(lead, owner, repo, digits) + rest;
    let i0 = lead.len() as int;
    let o0 = i0 + 11;
    let r0 = o0 + owner.len() + 1;
    let b = r0 + repo.len();
    let d0 = b + 6;
    let e = d0 + digits.len();
    assert(s.len() == e + rest.len());
    assert forall|k: int| 0 <= k < i0 implies s[k] == lead[k] by {}
    assert(s.subrange(i0, i0 + 11) =~= github_host().push('/'));
    assert(s.subrange(i0, i0 + 10) =~= github_host());
    assert forall|k: int| 0 <= k < owner.len() implies s[o0 + k] == owner[k] by {}
    assert(s[o0 + owner.len()] == '/');
    assert forall|k: int| 0 <= k < repo.len() implies s[r0 + k] == repo[k] by {}
    assert(s.subrange(b, b + 6) =~= pull_segment());
    assert forall|k: int| 0 <= k < digits.len() implies s[d0 + k] == digits[k] by {}
    if rest.len() > 0 {
        assert(s[e] == rest[0]);
    }
    // The owner, the repository and the digits are maximal runs.
    let to = s.subrange(o0, s.len() as int);
    assert forall|j: int| 0 <= j < owner.len() implies in_class(CharClass::NotSlash, #[trigger] to[j]) by {
        assert(to[j] == s[o0 + j]);
    }
    assert(to[owner.len() as int] == s[o0 + owner.len()]);
    lemma_run_len(to, CharClass::NotSlash, owner.len() as int);
    let tr = s.subrange(r0, s.len() as int);
    assert forall|j: int| 0 <= j < repo.len() implies in_class(CharClass::NotSlash, #[trigger] tr[j]) by {
        assert(tr[j] == s[r0 + j]);
    }
    assert forall|j: int| 0 <= j < repo.len() implies in_class(CharClass::NotSlashDot, #[trigger] tr[j]) by {
        assert(tr[j] == s[r0 + j]);
    }
    assert(tr[repo.len() as int] == s[b]);
    assert(s[b] == '/');
    lemma_run_len(tr, CharClass::NotSlash, repo.len() as int);
    lemma_run_len(tr, CharClass::NotSlashDot, repo.len() as int);
    let td = s.subrange(d0, s.len() as int);
    assert forall|j: int| 0 <= j < digits.len() implies in_class(CharClass::DecimalDigit, #[trigger] td[j]) by {
        assert(td[j] == s[d0 + j]);
    }
    if rest.len() > 0 {
        assert(td[digits.len() as int] == rest[0]);
    }
    lemma_run_len(td, CharClass::DecimalDigit, digits.len() as int);
    assert(s.subrange(d0, e) =~= digits);
    assert(s.subrange(o0, o0 + owner.len()) =~= owner);
    assert(s.subrange(r0, r0 + repo.len()) =~= repo);
    assert(pr_match_at(s, i0) == Some(digits));
    assert(repo_match_at(s, i0) == Some((owner, repo)));
    lemma_skip_to(s, 0, i0);
}

/// The number of a pull request URL is read from its digits alone: what
/// follows them (a further path such as `/files`, a query, a fragment, or
/// nothing), as long as it does not go on with a digit, changes nothing.
/// The lead-in holds no `g`, so that no match starts before `github.com`
/// (as with `https://`).
pub proof fn lemma_pr_number_ignores_what_follows(
    lead: Seq<char>,
    owner: Seq<char>,
    repo: Seq<char>,
    digits: Seq<char>,
    rest: Seq<char>,
)
    requires
        forall|k: int| 0 <= k < lead.len() ==> lead[k] != 'g',
        owner.len() > 0,
        forall|k: int| 0 <= k < owner.len() ==> owner[k] != '/',
        repo.len() > 0,
        forall|k: int| 0 <= k < repo.len() ==> repo[k] != '/' && repo[k] != '.',
        digits.len() > 0,
        all_decimal_digits(digits),
        rest.len() == 0 || !is_decimal_digit(rest[0]),
    ensures
        pr_spec(pr_url(lead, owner, repo, digits) + rest) == pr_spec(pr_url(lead, owner, repo, digits)),
        parse_u32_spec(digits) matches Some(n) ==> pr_spec(pr_url(lead, owner, repo, digits) + rest)
            == PrParse::Found(owner, repo, n),
        parse_u32_spec(digits) is None ==> pr_spec(pr_url(lead, owner, repo, digits) + rest)
            == PrParse::NumberUnparsable(digits),
{
    lemma_pr_url_matches(lead, owner, repo, digits, rest);
    lemma_pr_url_matches(lead, owner, repo, digits, seq![]);
    assert(pr_url(lead, owner, repo, digits) + seq![] =~= pr_url(lead, owner, repo, digits));
}

} // verus!

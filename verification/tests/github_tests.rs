use twig::github::{GitHubPr, GitHubRepo, GitHubUrlError, GitRemoteScheme};

#[test]
fn detect_https() {
    assert_eq!(GitRemoteScheme::detect("https://github.com/owner/repo"), GitRemoteScheme::Https);
    assert_eq!(GitRemoteScheme::detect("https://github.com/owner/repo.git"), GitRemoteScheme::Https);
}

#[test]
fn detect_http() {
    assert_eq!(GitRemoteScheme::detect("http://github.com/owner/repo"), GitRemoteScheme::Http);
}

#[test]
fn detect_ssh_explicit() {
    assert_eq!(GitRemoteScheme::detect("ssh://git@github.com/owner/repo"), GitRemoteScheme::Ssh);
}

#[test]
fn detect_ssh_scp_style() {
    assert_eq!(GitRemoteScheme::detect("git@github.com:owner/repo.git"), GitRemoteScheme::Ssh);
    assert_eq!(GitRemoteScheme::detect("user@host:path/to/repo"), GitRemoteScheme::Ssh);
}

#[test]
fn detect_git_protocol() {
    assert_eq!(GitRemoteScheme::detect("git://github.com/owner/repo"), GitRemoteScheme::Git);
}

#[test]
fn detect_file() {
    assert_eq!(GitRemoteScheme::detect("file:///path/to/repo"), GitRemoteScheme::File);
    assert_eq!(GitRemoteScheme::detect("/path/to/repo"), GitRemoteScheme::File);
    assert_eq!(GitRemoteScheme::detect("../relative/path"), GitRemoteScheme::File);
}

#[test]
fn detect_scp_with_scheme_like_colon_is_file() {
    assert_eq!(GitRemoteScheme::detect("a@b://c"), GitRemoteScheme::File);
}

#[test]
fn prefers_ssh() {
    assert!(GitRemoteScheme::Ssh.prefers_ssh());
    assert!(!GitRemoteScheme::Git.prefers_ssh());
    assert!(!GitRemoteScheme::Https.prefers_ssh());
    assert!(!GitRemoteScheme::Http.prefers_ssh());
    assert!(!GitRemoteScheme::File.prefers_ssh());
}

#[test]
fn parse_https() {
    let repo = GitHubRepo::parse("https://github.com/omenien/twig").unwrap();
    assert_eq!(repo.owner, "omenien");
    assert_eq!(repo.repo, "twig");
}

#[test]
fn parse_git_suffix_and_trailing_slash() {
    let repo = GitHubRepo::parse("https://github.com/omenien/twig.git/").unwrap();
    assert_eq!(repo.owner, "omenien");
    assert_eq!(repo.repo, "twig");
}

#[test]
fn parse_with_path() {
    let repo = GitHubRepo::parse("https://github.com/omenien/twig/pull/123").unwrap();
    assert_eq!(repo.owner, "omenien");
    assert_eq!(repo.repo, "twig");
}

#[test]
fn parse_ssh() {
    let repo = GitHubRepo::parse("git@github.com:omenien/twig.git").unwrap();
    assert_eq!(repo.owner, "omenien");
    assert_eq!(repo.repo, "twig");
}

#[test]
fn github_parse_invalid() {
    assert!(GitHubRepo::parse("https://example.com/not-github").is_err());
    assert!(GitHubRepo::parse("https://github.com/only-owner").is_err());
    assert!(GitHubPr::parse("https://github.com/omenien/twig").is_err());
    assert!(GitHubPr::parse("https://github.com/omenien/twig/pull/abc").is_err());
}

#[test]
fn full_name() {
    let repo = GitHubRepo::parse("https://github.com/omenien/twig").unwrap();
    assert_eq!(repo.full_name(), "omenien/twig");
}

#[test]
fn parse_valid() {
    let pr = GitHubPr::parse("https://github.com/omenien/twig/pull/123").unwrap();
    assert_eq!(pr.owner, "omenien");
    assert_eq!(pr.repo, "twig");
    assert_eq!(pr.number, 123);
}

#[test]
fn parse_with_fragment_and_query() {
    let pr = GitHubPr::parse("https://github.com/omenien/twig/pull/456#discussion_r123456789").unwrap();
    assert_eq!(pr.number, 456);
    let pr = GitHubPr::parse("https://github.com/omenien/twig/pull/456?utm_source=test").unwrap();
    assert_eq!(pr.number, 456);
}


#[test]
fn repo_accessor() {
    let pr = GitHubPr::parse("https://github.com/omenien/twig/pull/123").unwrap();
    let repo = pr.repo();
    assert_eq!(repo.owner, "omenien");
    assert_eq!(repo.repo, "twig");
}

#[test]
fn github_pr_errors_name_their_cause() {
    match GitHubPr::parse("https://example.com/x") {
        Err(GitHubUrlError::NotARepository(u)) => assert_eq!(u, "https://example.com/x"),
        _ => panic!("expected NotARepository"),
    }
    match GitHubPr::parse("https://github.com/o/r") {
        Err(e) => assert_eq!(e.message(), "Could not extract PR number from URL: https://github.com/o/r"),
        _ => panic!("expected NoPullRequestNumber"),
    }
    match GitHubPr::parse("https://github.com/o/r/pull/99999999999") {
        Err(GitHubUrlError::InvalidPullRequestNumber(d)) => assert_eq!(d, "99999999999"),
        _ => panic!("expected InvalidPullRequestNumber"),
    }
}

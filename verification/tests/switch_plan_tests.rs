use twig::graph::BranchName;
use twig::jira::{JiraParsingConfig, JiraTicketParser};
use twig::repo_state::{BranchDependency, RepoState, RepoStateError};
use twig::state::BranchMetadata;
use twig::switch::{BranchBaseSource, BranchDependencyUpdate, BranchParentReference, BranchStateMutations, IssueAssociation};
use twig::switch_plan::{
    apply_branch_state_mutations, branch_for_jira, branch_for_pr, parent_branch_for, plain_outcome, switch_step,
    BranchBaseResolution, BranchSwitchAction, BranchSwitchOutcome, SwitchError, SwitchStep,
};
use twig::switch_plan::resolve_pr_remote;
use twig::switch::ParentBranchOption;
use twig::switch_plan::{resolve_branch_base, BaseTarget};

fn record(branch: &str, jira: Option<&str>, pr: Option<u32>) -> BranchMetadata {
    BranchMetadata {
        branch: branch.to_string(),
        jira_issue: jira.map(|s| s.to_string()),
        github_pr: pr,
        created_at: "2024-01-01T00:00:00Z".to_string(),
    }
}

fn outcome(branch: &str, mutations: BranchStateMutations) -> BranchSwitchOutcome {
    BranchSwitchOutcome {
        branch: BranchName::new(branch),
        action: BranchSwitchAction::CheckedOutExisting,
        state_mutations: mutations,
    }
}

#[test]
fn switch_step_follows_the_order_of_checks() {
    assert_eq!(switch_step(Some("main"), "main", true, false), SwitchStep::AlreadyCurrent);
    assert_eq!(switch_step(Some("main"), "feature", true, false), SwitchStep::CheckoutExisting);
    assert_eq!(switch_step(None, "feature", false, false), SwitchStep::Refuse);
    assert_eq!(switch_step(Some("main"), "feature", false, true), SwitchStep::TryRemoteThenCreate);
}

#[test]
fn remote_checkout_outcome_names_the_remote_ref() {
    let o = plain_outcome("feature/x", SwitchStep::TryRemoteThenCreate, Some("origin"));
    match o.action {
        BranchSwitchAction::CheckedOutRemote { remote, remote_ref } => {
            assert_eq!(remote, "origin");
            assert_eq!(remote_ref.as_str(), "origin/feature/x");
        }
        _ => panic!("expected a remote checkout"),
    }
    assert!(o.state_mutations.is_empty());
}

#[test]
fn jira_and_pr_lookups_use_recorded_branches_first() {
    let mut state = RepoState::default();
    state.branches.push(record("feat/login", Some("PROJ-1"), None));
    state.branches.push(record("review", None, Some(42)));

    let (b, assoc) = branch_for_jira(&state, "PROJ-1", false).unwrap();
    assert_eq!(b, "feat/login");
    assert!(assoc.is_none());

    let (b, assoc) = branch_for_jira(&state, "PROJ-2", true).unwrap();
    assert_eq!(b, "proj-2");
    assert_eq!(assoc, Some(IssueAssociation { key: "PROJ-2".to_string() }));

    let err = branch_for_jira(&state, "PROJ-3", false).unwrap_err();
    assert_eq!(err.message(), "No branch found for Jira issue PROJ-3. Enable creation to make one.");

    assert_eq!(branch_for_pr(&state, 42, false).unwrap(), ("review".to_string(), None));
    assert_eq!(branch_for_pr(&state, 7, true).unwrap(), ("pr/7".to_string(), Some(7)));
    let err = branch_for_pr(&state, 7, false).unwrap_err();
    assert_eq!(err, SwitchError::NoBranchForPullRequest(7));
    assert_eq!(err.message(), "No branch found for GitHub PR #7. Enable creation to make one.");
}

#[test]
fn named_parent_resolves_through_jira_records() {
    let mut state = RepoState::default();
    state.branches.push(record("feat/login", Some("PROJ-1"), None));
    let parser = JiraTicketParser::new(JiraParsingConfig::default());
    assert_eq!(parent_branch_for(Some(&parser), &state, "PROJ-1"), "feat/login");
    assert_eq!(parent_branch_for(Some(&parser), &state, "main"), "main");
    assert_eq!(parent_branch_for(None, &state, "PROJ-1"), "PROJ-1");
}

#[test]
fn created_outcome_links_the_parent() {
    let base = BranchBaseResolution::parent("main".to_string(), "abc123".to_string());
    assert_eq!(base.commit(), "abc123");
    assert_eq!(base.parent_name(), Some("main"));
    let o = base.created_outcome("feature");
    match &o.action {
        BranchSwitchAction::Created { base, upstream } => {
            assert_eq!(base.commit, "abc123");
            assert!(matches!(&base.source, BranchBaseSource::LocalBranch(b) if b.as_str() == "main"));
            assert!(upstream.is_none());
        }
        _ => panic!("expected a created branch"),
    }
    assert!(matches!(
        &o.state_mutations.dependency,
        Some(BranchDependencyUpdate::SetParent(BranchParentReference::Branch(p))) if p.as_str() == "main"
    ));

    let head = BranchBaseResolution::head("def456".to_string());
    assert_eq!(head.parent_name(), None);
    assert!(matches!(head.source(), BranchBaseSource::Head));
    assert!(head.created_outcome("x").state_mutations.is_empty());
}

#[test]
fn state_mutations_record_dependency_issue_and_pr() {
    let mut state = RepoState::default();
    state.branches.push(record("feature", Some("OLD-1"), None));
    let mut m = BranchStateMutations::none();
    m.dependency = Some(BranchDependencyUpdate::SetParent(BranchParentReference::Branch(BranchName::new("main"))));
    m.issue = Some(IssueAssociation { key: "PROJ-9".to_string() });
    m.github_pr = Some(12);
    apply_branch_state_mutations(&mut state, &outcome("feature", m)).unwrap();
    assert_eq!(state.dependencies.len(), 1);
    assert_eq!(state.dependencies[0].child, "feature");
    assert_eq!(state.dependencies[0].parent, "main");
    assert_eq!(state.branches.len(), 1);
    assert_eq!(state.branches[0].jira_issue, None);
    assert_eq!(state.branches[0].github_pr, Some(12));
}

#[test]
fn refused_dependency_stops_the_update() {
    let mut state = RepoState::default();
    state.dependencies.push(BranchDependency {
        id: "d".to_string(),
        child: "main".to_string(),
        parent: "feature".to_string(),
        created_at: "t".to_string(),
    });
    let mut m = BranchStateMutations::none();
    m.dependency = Some(BranchDependencyUpdate::SetParent(BranchParentReference::Branch(BranchName::new("main"))));
    m.issue = Some(IssueAssociation { key: "PROJ-9".to_string() });
    let err = apply_branch_state_mutations(&mut state, &outcome("feature", m)).unwrap_err();
    assert_eq!(err, RepoStateError::WouldCreateCycle { child: "feature".to_string(), parent: "main".to_string() });
    assert!(state.branches.is_empty());
    assert_eq!(state.dependencies.len(), 1);

    let mut m = BranchStateMutations::none();
    m.dependency = Some(BranchDependencyUpdate::Clear);
    apply_branch_state_mutations(&mut state, &outcome("feature", m)).unwrap();
    assert!(state.dependencies.is_empty());
}

#[test]
fn switch_error_messages() {
    assert_eq!(
        SwitchError::BranchMissing("x".to_string()).message(),
        "Branch 'x' does not exist locally. Enable creation before switching."
    );
    assert_eq!(
        SwitchError::DetachedHead.message(),
        "HEAD is not on a branch. Create a branch first or use `--parent none`."
    );
    assert!(SwitchError::ParentNotFound("p".to_string()).message().starts_with("Parent branch 'p' was not found."));
}

fn head(full: Option<&str>, owner: Option<&str>, ssh: Option<&str>, https: Option<&str>) -> twig::switch::PullRequestHeadInfo {
    twig::switch::PullRequestHeadInfo {
        branch: "topic".to_string(),
        repo_full_name: full.map(|s| s.to_string()),
        owner_login: owner.map(|s| s.to_string()),
        ssh_url: ssh.map(|s| s.to_string()),
        clone_url: https.map(|s| s.to_string()),
    }
}

#[test]
fn pr_remote_is_origin_for_same_repository() {
    let h = head(Some("Omenien/Twig"), Some("omenien"), None, Some("https://github.com/omenien/twig.git"));
    let r = resolve_pr_remote(&h, "https://github.com/omenien/twig.git", "omenien", "twig", 5, &Vec::new()).unwrap();
    assert_eq!(r, ("origin".to_string(), false, None));
    let h = head(None, None, None, None);
    let r = resolve_pr_remote(&h, "https://github.com/omenien/twig.git", "omenien", "twig", 5, &Vec::new()).unwrap();
    assert_eq!(r.0, "origin");
}

#[test]
fn pr_remote_creates_or_reuses_fork_remotes() {
    let url = "https://github.com/forker/twig.git";
    let h = head(Some("forker/twig"), Some("Forker.Name"), Some("git@github.com:forker/twig.git"), Some(url));
    let origin = "https://github.com/omenien/twig.git";
    let r = resolve_pr_remote(&h, origin, "omenien", "twig", 5, &Vec::new()).unwrap();
    assert_eq!(r, ("fork-Forker-Name".to_string(), true, Some(url.to_string())));

    let remotes = vec![("fork-Forker-Name".to_string(), Some(url.to_string()))];
    let r = resolve_pr_remote(&h, origin, "omenien", "twig", 5, &remotes).unwrap();
    assert_eq!(r, ("fork-Forker-Name".to_string(), false, None));

    let remotes = vec![
        ("fork-Forker-Name".to_string(), Some("https://elsewhere/x.git".to_string())),
        ("fork-Forker-Name-2".to_string(), None),
    ];
    let r = resolve_pr_remote(&h, origin, "omenien", "twig", 5, &remotes).unwrap();
    assert_eq!(r, ("fork-Forker-Name-3".to_string(), true, Some(url.to_string())));

    let ssh_origin = "git@github.com:omenien/twig.git";
    let h2 = head(Some("forker/twig"), None, Some("git@github.com:forker/twig.git"), Some(url));
    let r = resolve_pr_remote(&h2, ssh_origin, "omenien", "twig", 5, &Vec::new()).unwrap();
    assert_eq!(r, ("fork-forker".to_string(), true, Some("git@github.com:forker/twig.git".to_string())));

    let h3 = head(Some("forker/twig"), None, None, None);
    assert_eq!(
        resolve_pr_remote(&h3, origin, "omenien", "twig", 5, &Vec::new()).unwrap_err(),
        SwitchError::NoCloneUrl
    );
}

#[test]
fn branch_base_follows_the_parent_option() {
    let mut state = RepoState::default();
    state.branches.push(record("feat/login", Some("PROJ-1"), None));
    let parser = JiraTicketParser::new(JiraParsingConfig::default());
    assert_eq!(resolve_branch_base(&ParentBranchOption::Head, Some("main"), None, &state), Ok(BaseTarget::Head));
    assert_eq!(
        resolve_branch_base(&ParentBranchOption::CurrentBranch, Some("main"), None, &state),
        Ok(BaseTarget::ParentBranch("main".to_string()))
    );
    assert_eq!(
        resolve_branch_base(&ParentBranchOption::CurrentBranch, None, None, &state),
        Err(SwitchError::DetachedHead)
    );
    assert_eq!(
        resolve_branch_base(&ParentBranchOption::Named("PROJ-1".to_string()), None, Some(&parser), &state),
        Ok(BaseTarget::ParentBranch("feat/login".to_string()))
    );
}

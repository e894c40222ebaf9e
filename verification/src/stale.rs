//! Stale branches: which branches count as stale, what is shown of them,
//! and the order they are offered for pruning in.
use vstd::prelude::*;

use crate::lex::{lemma_lex_total, lemma_lex_trans, lex_le, string_le};
use crate::repo_state::{parents_of, str_views, RepoState};
use crate::state::BranchMetadata;
use crate::netrc::{cviews, lines_from, split_lines};
use crate::strs::{chars_of, string_of, string_of_range};

verus! {

broadcast use vstd::seq_lib::group_to_multiset_ensures;

/// Information about a commit.
#[derive(Debug)]
pub struct CommitInfo {
    pub hash: String,
    pub message: String,
    pub author: String,
    pub date: String,
}

/// Information about a stale branch for pruning.
#[derive(Debug)]
pub struct StaleBranchInfo {
    pub name: String,
    pub last_commit_date: String,
    pub last_commit_hash: String,
    pub parent_branch: Option<String>,
    pub novel_commits: Vec<CommitInfo>,
    pub jira_issue: Option<String>,
    pub github_pr: Option<u32>,
}

/// Summary of a pruning session.
#[derive(Debug)]
pub struct PruneSummary {
    pub total_stale: usize,
    pub deleted: Vec<String>,
    pub skipped: Vec<String>,
    pub errors: Vec<(String, String)>,
}

impl Default for PruneSummary {
    /// Nothing stale, deleted, skipped or failed.
    fn default() -> (s: Self)
        ensures
            s.total_stale == 0,
            s.deleted@.len() == 0,
            s.skipped@.len() == 0,
            s.errors@.len() == 0,
    {
        PruneSummary { total_stale: 0, deleted: Vec::new(), skipped: Vec::new(), errors: Vec::new() }
    }
}

/// Seconds in a day.
pub const SECONDS_PER_DAY: i64 = 86400;

/// The instant, in seconds since the Unix epoch, before which a last commit
/// makes a branch stale: `days` days before `now_secs`. The cut-off may not
/// fall before the epoch.
pub fn stale_cutoff_secs(now_secs: i64, days: u32) -> (c: i64)
    requires
        now_secs >= days * SECONDS_PER_DAY,
    ensures
        c == now_secs - days * SECONDS_PER_DAY,
{
    now_secs - (days as i64) * SECONDS_PER_DAY
}

/// The first eight characters of a commit hash.
pub fn short_hash(hash: &str) -> (r: String)
    requires
        hash@.len() >= 8,
    ensures
        r@ == hash@.take(8),
{
    let c = chars_of(hash);
    let r = string_of_range(c.as_slice(), 0, 8);
    assert(c@.subrange(0, 8) =~= hash@.take(8));
    r
}

/// The summary line of a commit message: its first line, empty for an
/// empty message.
pub open spec fn summary_line(message: Seq<char>) -> Seq<char> {
    if lines_from(message, 0).len() == 0 {
        seq![]
    } else {
        lines_from(message, 0)[0]
    }
}

/// A commit not on the parent branch, as listed for pruning: the short
/// hash, the summary line, the author (`Unknown` when it has no name) and
/// the formatted date.
pub fn novel_commit(hash: &str, message: &str, author: Option<&str>, date: String) -> (r: CommitInfo)
    requires
        hash@.len() >= 8,
    ensures
        r.hash@ == hash@.take(8),
        r.message@ == summary_line(message@),
        r.author@ == match author {
            Some(a) => a@,
            None => "Unknown"@,
        },
        r.date == date,
{
    let cs = chars_of(message);
    let lines = split_lines(cs.as_slice());
    let summary = if lines.len() == 0 {
        String::new()
    } else {
        assert(cviews(lines@)[0] == lines@[0]@);
        string_of(lines[0].as_slice())
    };
    let who = match author {
        Some(a) => a.to_owned(),
        None => "Unknown".to_owned(),
    };
    CommitInfo { hash: short_hash(hash), message: summary, author: who, date }
}

/// The record of a branch whose last commit was at `commit_time`, when that
/// is before `cutoff`; otherwise `None`. The commit is shown by its date and
/// the first eight characters of its hash.
pub fn stale_entry(name: String, commit_time: i64, cutoff: i64, commit_date: String, commit_hash: &str) -> (r:
    Option<StaleBranchInfo>)
    requires
        commit_hash@.len() >= 8,
    ensures
        r is Some <==> commit_time < cutoff,
        r matches Some(info) ==> {
            &&& info.name == name
            &&& info.last_commit_date == commit_date
            &&& info.last_commit_hash@ == commit_hash@.take(8)
            &&& info.parent_branch is None
            &&& info.novel_commits@.len() == 0
            &&& info.jira_issue is None
            &&& info.github_pr is None
        },
{
    if commit_time < cutoff {
        Some(
            StaleBranchInfo {
                name,
                last_commit_date: commit_date,
                last_commit_hash: short_hash(commit_hash),
                parent_branch: None,
                novel_commits: Vec::new(),
                jira_issue: None,
                github_pr: None,
            },
        )
    } else {
        None
    }
}

/// Fills in what the repository state knows of a stale branch: its first
/// recorded parent, and the Jira issue and pull request of its record.
pub fn enhance_branch_info(state: &RepoState, info: StaleBranchInfo) -> (r: StaleBranchInfo)
    ensures
        r.name == info.name,
        r.last_commit_date == info.last_commit_date,
        r.last_commit_hash == info.last_commit_hash,
        r.novel_commits == info.novel_commits,
        match r.parent_branch {
            Some(p) => parents_of(state.dependencies@, info.name@).len() > 0 && p@ == parents_of(
                state.dependencies@,
                info.name@,
            )[0],
            None => parents_of(state.dependencies@, info.name@).len() == 0,
        },
        (forall|i: int| 0 <= i < state.branches@.len() ==> state.branches@[i].branch@ != info.name@) ==> (
        r.jira_issue == info.jira_issue && r.github_pr == info.github_pr),
        forall|i: int|
            0 <= i < state.branches@.len() && state.branches@[i].branch@ == info.name@ && (forall|j: int|
                0 <= j < i ==> state.branches@[j].branch@ != info.name@) ==> r.jira_issue
                == state.branches@[i].jira_issue && r.github_pr == state.branches@[i].github_pr,
{
    let mut info = info;
    let parents = state.get_dependency_parents(info.name.as_str());
    assert(str_views(parents@).len() == parents@.len());
    if parents.len() > 0 {
        assert(str_views(parents@)[0] == parents@[0]@);
        info.parent_branch = Some(parents[0].to_owned());
    } else {
        info.parent_branch = None;
    }
    let record: Option<&BranchMetadata> = state.get_branch_issue_by_branch(info.name.as_str());
    match record {
        Some(m) => {
            info.jira_issue = match &m.jira_issue {
                Some(j) => Some(j.clone()),
                None => None,
            };
            info.github_pr = m.github_pr;
        },
        None => {},
    }
    info
}

/// `s` with `x` placed after every element whose name comes before or
/// equals its own, and before the rest.
pub open spec fn insert_by_name(s: Seq<StaleBranchInfo>, x: StaleBranchInfo) -> Seq<StaleBranchInfo>
    decreases s.len(),
{
    if s.len() == 0 {
        seq![x]
    } else if lex_le(s.last().name@, x.name@) {
        s.push(x)
    } else {
        insert_by_name(s.drop_last(), x).push(s.last())
    }
}

/// The entries sorted by name, equal names keeping their order: each entry
/// in turn placed after those before it whose names come first or are equal.
pub open spec fn sorted_by_name(v: Seq<StaleBranchInfo>) -> Seq<StaleBranchInfo>
    decreases v.len(),
{
    if v.len() == 0 {
        seq![]
    } else {
        insert_by_name(sorted_by_name(v.drop_last()), v.last())
    }
}

/// Names in order: each comes before or equals every later one.
pub open spec fn names_sorted(s: Seq<StaleBranchInfo>) -> bool {
    forall|i: int, j: int| 0 <= i < j < s.len() ==> lex_le(#[trigger] s[i].name@, #[trigger] s[j].name@)
}

/// Inserting after the last element that is not greater is inserting by
/// name.
proof fn lemma_insert_by_name_at(s: Seq<StaleBranchInfo>, x: StaleBranchInfo, p: int)
    requires
        0 <= p <= s.len(),
        p == 0 || lex_le(s[p - 1].name@, x.name@),
        forall|j: int| p <= j < s.len() ==> !lex_le(#[trigger] s[j].name@, x.name@),
    ensures
        insert_by_name(s, x) == s.insert(p, x),
    decreases s.len(),
{
    if s.len() == 0 {
        assert(s.insert(p, x) =~= seq![x]);
    } else if p == s.len() {
        assert(s.insert(p, x) =~= s.push(x));
    } else {
        assert(!lex_le(s[s.len() - 1].name@, x.name@));
        let t = s.drop_last();
        assert forall|j: int| p <= j < t.len() implies !lex_le(#[trigger] t[j].name@, x.name@) by {
            assert(t[j] == s[j]);
        }
        if p > 0 {
            assert(t[p - 1] == s[p - 1]);
        }
        lemma_insert_by_name_at(t, x, p);
        assert(t.insert(p, x).push(s.last()) =~= s.insert(p, x));
    }
}

/// Inserting by name keeps every element and adds `x`.
pub proof fn lemma_insert_by_name_multiset(s: Seq<StaleBranchInfo>, x: StaleBranchInfo)
    ensures
        insert_by_name(s, x).to_multiset() == s.to_multiset().insert(x),
    decreases s.len(),
{
    broadcast use vstd::seq_lib::to_multiset_build;
    broadcast use vstd::multiset::group_multiset_axioms;

    if s.len() == 0 {
        assert(seq![x] =~= s.push(x));
    } else if lex_le(s.last().name@, x.name@) {
    } else {
        let t = s.drop_last();
        lemma_insert_by_name_multiset(t, x);
        assert(t.push(s.last()) =~= s);
        assert(insert_by_name(s, x).to_multiset() =~= s.to_multiset().insert(x));
    }
}

/// Inserting by name into entries sorted by name keeps them sorted.
pub proof fn lemma_insert_by_name_sorted(s: Seq<StaleBranchInfo>, x: StaleBranchInfo)
    requires
        names_sorted(s),
    ensures
        names_sorted(insert_by_name(s, x)),
    decreases s.len(),
{
    if s.len() > 0 {
        let t = s.drop_last();
        let n = insert_by_name(s, x);
        if lex_le(s.last().name@, x.name@) {
            assert forall|i: int, j: int| 0 <= i < j < n.len() implies lex_le(#[trigger] n[i].name@, #[trigger] n[j].name@) by {
                if j == s.len() {
                    if i < s.len() - 1 {
                        lemma_lex_trans(s[i].name@, s.last().name@, x.name@);
                    }
                }
            }
        } else {
            assert(names_sorted(t));
            lemma_insert_by_name_sorted(t, x);
            let m = insert_by_name(t, x);
            lemma_insert_by_name_multiset(t, x);
            lemma_lex_total(s.last().name@, x.name@);
            assert forall|i: int, j: int| 0 <= i < j < n.len() implies lex_le(#[trigger] n[i].name@, #[trigger] n[j].name@) by {
                if j == m.len() {
                    assert(n[i] == m[i]);
                    assert(m.to_multiset().count(m[i]) > 0);
                    if m[i] != x {
                        assert(t.to_multiset().count(m[i]) > 0);
                        let k = choose|k: int| 0 <= k < t.len() && t[k] == m[i];
                        assert(s[k] == t[k]);
                    }
                }
            }
        }
    }
}

/// The sorted entries are sorted by name and hold the same entries.
pub proof fn lemma_sorted_by_name(v: Seq<StaleBranchInfo>)
    ensures
        names_sorted(sorted_by_name(v)),
        sorted_by_name(v).to_multiset() == v.to_multiset(),
    decreases v.len(),
{
    broadcast use vstd::seq_lib::to_multiset_build;

    if v.len() > 0 {
        lemma_sorted_by_name(v.drop_last());
        lemma_insert_by_name_sorted(sorted_by_name(v.drop_last()), v.last());
        lemma_insert_by_name_multiset(sorted_by_name(v.drop_last()), v.last());
        assert(v.drop_last().push(v.last()) =~= v);
    }
}

/// Sorts stale branches by name, as the pruning walk offers them; entries
/// with equal names keep their order.
pub fn sort_by_name(branches: Vec<StaleBranchInfo>) -> (r: Vec<StaleBranchInfo>)
    ensures
        r@ == sorted_by_name(branches@),
        names_sorted(r@),
        r@.to_multiset() == branches@.to_multiset(),
{
    let ghost input = branches@;
    assert(input.len() == branches.len());
    let mut rest = branches;
    let mut out: Vec<StaleBranchInfo> = Vec::new();
    let mut i: usize = 0;
    while rest.len() > 0
        invariant
            i + rest@.len() == input.len(),
            input.len() <= usize::MAX,
            rest@ == input.subrange(i as int, input.len() as int),
            out@ == sorted_by_name(input.take(i as int)),
        decreases rest@.len(),
    {
        let x = rest.remove(0);
        assert(x == input[i as int]);
        let mut p: usize = out.len();
        while p > 0 && !string_le(out[p - 1].name.as_str(), x.name.as_str())
            invariant
                p <= out.len(),
                forall|j: int| p <= j < out.len() ==> !lex_le(#[trigger] out@[j].name@, x.name@),
            decreases p,
        {
            p = p - 1;
        }
        proof {
            lemma_insert_by_name_at(out@, x, p as int);
            assert(input.take(i + 1).drop_last() =~= input.take(i as int));
        }
        out.insert(p, x);
        i = i + 1;
        assert(rest@ =~= input.subrange(i as int, input.len() as int));
    }
    assert(input.take(input.len() as int) =~= input);
    proof {
        lemma_sorted_by_name(input);
    }
    out
}

} // verus!

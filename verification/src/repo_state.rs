//! Repository-local state: worktrees, branch metadata, user-defined branch
//! dependencies and root branches, with the rules that keep the dependency
//! graph free of cycles and the root list with at most one default.
use vstd::prelude::*;

use crate::state::{BranchMetadata, Worktree};
use crate::strs::{
    chars_eq, chars_of, concat, is_white, push_char, push_str, slice_range, str_eq, trim, trim_bounds,
};

verus! {

#[verifier::external_type_specification]
#[verifier::external_body]
pub struct ExJsonValue(serde_json::Value);

/// A fresh random identifier: `uuid::Uuid::new_v4`, written in the
/// hyphenated form of its `Display` impl (36 characters, hyphens after the
/// 8th, 12th, 16th and 20th hex digit). Which identifier comes out is chance.
#[verifier::external_body]
fn new_record_id() -> (id: String)
    ensures
        id@.len() == 36,
        id@[8] == '-' && id@[13] == '-' && id@[18] == '-' && id@[23] == '-',
{
    uuid::Uuid::new_v4().to_string()
}

/// The shape of a record id: 36 characters with hyphens at positions 8,
/// 13, 18 and 23 (a hyphenated UUID).
pub open spec fn is_record_id(id: Seq<char>) -> bool {
    id.len() == 36 && id[8] == '-' && id[13] == '-' && id[18] == '-' && id[23] == '-'
}

/// The shape every current-time text has: at least 25 characters, ending
/// with the UTC offset `+00:00`.
pub open spec fn is_utc_time(t: Seq<char>) -> bool {
    t.len() >= 25 && t.subrange(t.len() - 6, t.len() as int) == "+00:00"@
}

/// The current time, `chrono::Utc::now`, written by `DateTime::to_rfc3339`.
/// The time rests on the clock; what holds of every such text is stated: a
/// date, `T` and a time of at least 19 characters in all (more for a year
/// past 9999), then the UTC offset `+00:00`. The positions of the
/// separators are left unsaid, as a year outside 0..=9999 moves them.
#[verifier::external_body]
pub(crate) fn current_time_rfc3339() -> (r: String)
    ensures
        is_utc_time(r@),
{
    chrono::Utc::now().to_rfc3339()
}

/// `serde_json::Value::default()`, the JSON `null`. The value is opaque here.
#[verifier::external_body]
fn json_null() -> serde_json::Value {
    serde_json::Value::default()
}

/// Represents a user-defined branch dependency: `child` depends on `parent`.
#[derive(Debug, Clone)]
pub struct BranchDependency {
    pub id: String,
    pub child: String,
    pub parent: String,
    pub created_at: String,
}

impl BranchDependency {
    /// A field-by-field copy.
    pub fn duplicate(&self) -> (r: Self)
        ensures
            r == *self,
    {
        BranchDependency {
            id: self.id.clone(),
            child: self.child.clone(),
            parent: self.parent.clone(),
            created_at: self.created_at.clone(),
        }
    }
}

/// Represents a user-defined root branch.
#[derive(Debug, Clone)]
pub struct RootBranch {
    pub id: String,
    pub branch: String,
    pub is_default: bool,
    pub created_at: String,
}

impl RootBranch {
    /// A field-by-field copy.
    pub fn duplicate(&self) -> (r: Self)
        ensures
            r == *self,
    {
        RootBranch {
            id: self.id.clone(),
            branch: self.branch.clone(),
            is_default: self.is_default,
            created_at: self.created_at.clone(),
        }
    }
}

/// Why a change to the repository state was refused.
#[derive(Debug, Clone, PartialEq, Eq)]
pub enum RepoStateError {
    /// The dependency of `child` on `parent` is already recorded.
    DependencyExists { child: String, parent: String },
    /// `parent` already depends on `child`, directly or not.
    WouldCreateCycle { child: String, parent: String },
    /// The branch is not marked as a root.
    NotARoot(String),
}

/// The message shown for a repository state error.
pub open spec fn repo_state_error_text(e: RepoStateError) -> Seq<char> {
    match e {
        RepoStateError::DependencyExists { child, parent } => "Dependency from '"@ + child@ + "' to '"@ + parent@
            + "' already exists"@,
        RepoStateError::WouldCreateCycle { child, parent } => "Adding dependency from '"@ + child@ + "' to '"@
            + parent@ + "' would create a circular dependency"@,
        RepoStateError::NotARoot(branch) => "Branch '"@ + branch@ + "' is not marked as a root"@,
    }
}

impl RepoStateError {
    /// The message shown to the user.
    pub fn message(&self) -> (s: String)
        ensures
            s@ == repo_state_error_text(*self),
    {
        match self {
            RepoStateError::DependencyExists { child, parent } => {
                let mut s = concat("Dependency from '", child.as_str());
                push_str(&mut s, "' to '");
                push_str(&mut s, parent.as_str());
                push_str(&mut s, "' already exists");
                s
            },
            RepoStateError::WouldCreateCycle { child, parent } => {
                let mut s = concat("Adding dependency from '", child.as_str());
                push_str(&mut s, "' to '");
                push_str(&mut s, parent.as_str());
                push_str(&mut s, "' would create a circular dependency");
                s
            },
            RepoStateError::NotARoot(branch) => {
                let mut s = concat("Branch '", branch.as_str());
                push_str(&mut s, "' is not marked as a root");
                s
            },
        }
    }
}

/// Worktrees other than the one with this name.
pub open spec fn worktree_not_named(name: Seq<char>) -> spec_fn(Worktree) -> bool {
    |w: Worktree| w.name@ != name
}

/// Branch records other than the one for this branch.
pub open spec fn metadata_not_for(branch: Seq<char>) -> spec_fn(BranchMetadata) -> bool {
    |m: BranchMetadata| m.branch@ != branch
}

/// The first record for `branch`.
pub open spec fn branch_record(bs: Seq<BranchMetadata>, branch: Seq<char>) -> Option<BranchMetadata>
    decreases bs.len(),
{
    if bs.len() == 0 {
        None
    } else if bs[0].branch@ == branch {
        Some(bs[0])
    } else {
        branch_record(bs.drop_first(), branch)
    }
}

proof fn lemma_branch_record_at(bs: Seq<BranchMetadata>, branch: Seq<char>, i: int)
    requires
        0 <= i <= bs.len(),
        forall|j: int| 0 <= j < i ==> bs[j].branch@ != branch,
        i < bs.len() ==> bs[i].branch@ == branch,
    ensures
        branch_record(bs, branch) == if i < bs.len() {
            Some(bs[i])
        } else {
            None
        },
    decreases i,
{
    if i > 0 {
        let t = bs.drop_first();
        assert forall|j: int| 0 <= j < i - 1 implies t[j].branch@ != branch by {
            assert(t[j] == bs[j + 1]);
        }
        if i < bs.len() {
            assert(t[i - 1] == bs[i]);
        }
        lemma_branch_record_at(t, branch, i - 1);
    }
}

/// Whether a branch record carries this issue key.
pub open spec fn carries_issue(m: BranchMetadata, key: Seq<char>) -> bool {
    m.jira_issue matches Some(j) && j@ == key
}

/// `child` depends directly on `parent`.
pub open spec fn depends_on(deps: Seq<BranchDependency>, child: Seq<char>, parent: Seq<char>) -> bool {
    exists|k: int| 0 <= k < deps.len() && deps[k].child@ == child && deps[k].parent@ == parent
}

/// The `k`-th branch of a chain depends directly on the next one.
pub open spec fn chain_step(deps: Seq<BranchDependency>, p: Seq<Seq<char>>, k: int) -> bool {
    depends_on(deps, p[k], p[k + 1])
}

/// A non-empty chain of branches, each depending directly on the next.
pub open spec fn is_chain(deps: Seq<BranchDependency>, p: Seq<Seq<char>>) -> bool {
    &&& p.len() >= 1
    &&& forall|k: int| 0 <= k < p.len() - 1 ==> #[trigger] chain_step(deps, p, k)
}

/// `from` is `to`, or depends on it directly or through other branches.
pub open spec fn reaches(deps: Seq<BranchDependency>, from: Seq<char>, to: Seq<char>) -> bool {
    exists|p: Seq<Seq<char>>| #[trigger] is_chain(deps, p) && p[0] == from && p.last() == to
}

/// No branch depends on itself, directly or through other branches.
pub open spec fn acyclic(deps: Seq<BranchDependency>) -> bool {
    forall|p: Seq<Seq<char>>| #[trigger] is_chain(deps, p) && p.len() >= 2 ==> p[0] != p.last()
}

/// The dependency of `child` on `parent` is recorded.
pub open spec fn has_dependency(deps: Seq<BranchDependency>, child: Seq<char>, parent: Seq<char>) -> bool {
    depends_on(deps, child, parent)
}

/// Dependencies other than that of `child` on `parent`.
pub open spec fn not_the_dependency(child: Seq<char>, parent: Seq<char>) -> spec_fn(BranchDependency) -> bool {
    |d: BranchDependency| !(d.child@ == child && d.parent@ == parent)
}

/// Dependencies in which `branch` takes no part.
pub open spec fn not_involving(branch: Seq<char>) -> spec_fn(BranchDependency) -> bool {
    |d: BranchDependency| d.child@ != branch && d.parent@ != branch
}

/// The branches that depend directly on `parent`, in the order recorded.
pub open spec fn children_of(deps: Seq<BranchDependency>, parent: Seq<char>) -> Seq<Seq<char>>
    decreases deps.len(),
{
    if deps.len() == 0 {
        seq![]
    } else {
        let rest = children_of(deps.drop_last(), parent);
        if deps.last().parent@ == parent {
            rest.push(deps.last().child@)
        } else {
            rest
        }
    }
}

/// The branches that `child` depends on directly, in the order recorded.
pub open spec fn parents_of(deps: Seq<BranchDependency>, child: Seq<char>) -> Seq<Seq<char>>
    decreases deps.len(),
{
    if deps.len() == 0 {
        seq![]
    } else {
        let rest = parents_of(deps.drop_last(), child);
        if deps.last().child@ == child {
            rest.push(deps.last().parent@)
        } else {
            rest
        }
    }
}

/// A chain extended by one more direct dependency is a chain.
proof fn lemma_chain_push(deps: Seq<BranchDependency>, p: Seq<Seq<char>>, next: Seq<char>)
    requires
        is_chain(deps, p),
        depends_on(deps, p.last(), next),
    ensures
        is_chain(deps, p.push(next)),
        p.push(next)[0] == p[0],
        p.push(next).last() == next,
{
    let q = p.push(next);
    assert forall|k: int| 0 <= k < q.len() - 1 implies #[trigger] chain_step(deps, q, k) by {
        if k < p.len() - 1 {
            assert(chain_step(deps, p, k));
        }
    }
}

/// A set of branches closed under direct dependency holds the end of every
/// chain that starts in it.
proof fn lemma_closed_holds_chain_end(deps: Seq<BranchDependency>, vs: Seq<Seq<char>>, p: Seq<Seq<char>>)
    requires
        is_chain(deps, p),
        vs.contains(p[0]),
        forall|i: int, k: int|
            0 <= i < vs.len() && 0 <= k < deps.len() && #[trigger] deps[k].child@ == #[trigger] vs[i]
                ==> vs.contains(deps[k].parent@),
    ensures
        vs.contains(p.last()),
    decreases p.len(),
{
    if p.len() > 1 {
        assert(chain_step(deps, p, 0));
        let k = choose|k: int| 0 <= k < deps.len() && deps[k].child@ == p[0] && deps[k].parent@ == p[1];
        let i = choose|i: int| 0 <= i < vs.len() && vs[i] == p[0];
        assert(deps[k].child@ == vs[i]);
        let q = p.drop_first();
        assert forall|j: int| 0 <= j < q.len() - 1 implies #[trigger] chain_step(deps, q, j) by {
            assert(chain_step(deps, p, j + 1));
        }
        lemma_closed_holds_chain_end(deps, vs, q);
    }
}

/// A direct dependency among `deps` plus `d` is one among `deps` or `d`.
proof fn lemma_depends_on_push(deps: Seq<BranchDependency>, d: BranchDependency, x: Seq<char>, y: Seq<char>)
    ensures
        depends_on(deps.push(d), x, y) <==> depends_on(deps, x, y) || (x == d.child@ && y == d.parent@),
{
    let n = deps.push(d);
    if depends_on(n, x, y) {
        let k = choose|k: int| 0 <= k < n.len() && n[k].child@ == x && n[k].parent@ == y;
        if k < deps.len() {
            assert(deps[k] == n[k]);
        }
    }
    if depends_on(deps, x, y) {
        let k = choose|k: int| 0 <= k < deps.len() && deps[k].child@ == x && deps[k].parent@ == y;
        assert(n[k] == deps[k]);
    }
    if x == d.child@ && y == d.parent@ {
        assert(n[deps.len() as int] == d);
    }
}

/// Reaching is transitive.
pub proof fn lemma_reaches_trans(deps: Seq<BranchDependency>, a: Seq<char>, b: Seq<char>, c: Seq<char>)
    requires
        reaches(deps, a, b),
        reaches(deps, b, c),
    ensures
        reaches(deps, a, c),
{
    let p1 = choose|p: Seq<Seq<char>>| #[trigger] is_chain(deps, p) && p[0] == a && p.last() == b;
    let p2 = choose|p: Seq<Seq<char>>| #[trigger] is_chain(deps, p) && p[0] == b && p.last() == c;
    let p = p1 + p2.drop_first();
    assert forall|k: int| 0 <= k < p.len() - 1 implies #[trigger] chain_step(deps, p, k) by {
        if k < p1.len() - 1 {
            assert(chain_step(deps, p1, k));
        } else {
            let j = k - p1.len() + 1;
            assert(chain_step(deps, p2, j));
            if k == p1.len() - 1 {
                assert(p[k] == p2[0]);
            } else {
                assert(p[k] == p2[j]);
            }
            assert(p[k + 1] == p2[j + 1]);
        }
    }
    if p2.len() == 1 {
        assert(p.last() == p1.last());
    } else {
        assert(p.last() == p2.last());
    }
    assert(is_chain(deps, p));
}

/// Every chain among `deps` plus `d` is a chain among `deps`, or passes
/// through the new dependency: then among `deps` its start reaches
/// `d.child` and `d.parent` reaches its end.
proof fn lemma_chain_after_push(deps: Seq<BranchDependency>, d: BranchDependency, p: Seq<Seq<char>>)
    requires
        is_chain(deps.push(d), p),
    ensures
        is_chain(deps, p) || (reaches(deps, p[0], d.child@) && reaches(deps, d.parent@, p.last())),
    decreases p.len(),
{
    let n = deps.push(d);
    if p.len() > 1 {
        let q = p.drop_last();
        assert forall|k: int| 0 <= k < q.len() - 1 implies #[trigger] chain_step(n, q, k) by {
            assert(chain_step(n, p, k));
        }
        lemma_chain_after_push(deps, d, q);
        let x = q.last();
        let y = p.last();
        assert(chain_step(n, p, p.len() - 2));
        lemma_depends_on_push(deps, d, x, y);
        assert(p =~= q.push(y));
        let single = seq![d.parent@];
        assert(is_chain(deps, single));
        if depends_on(deps, x, y) {
            if is_chain(deps, q) {
                lemma_chain_push(deps, q, y);
            } else {
                let c = choose|c: Seq<Seq<char>>| #[trigger] is_chain(deps, c) && c[0] == d.parent@ && c.last() == x;
                lemma_chain_push(deps, c, y);
            }
        } else {
            if is_chain(deps, q) {
                assert(reaches(deps, p[0], d.child@));
            }
        }
    } else {
        assert(is_chain(deps, p));
    }
}

/// Recording `d` keeps the dependencies acyclic when `d.parent` does not
/// reach `d.child` already.
proof fn lemma_push_keeps_acyclic(deps: Seq<BranchDependency>, d: BranchDependency)
    requires
        acyclic(deps),
        !reaches(deps, d.parent@, d.child@),
    ensures
        acyclic(deps.push(d)),
{
    let n = deps.push(d);
    assert forall|p: Seq<Seq<char>>| #[trigger] is_chain(n, p) && p.len() >= 2 implies p[0] != p.last() by {
        lemma_chain_after_push(deps, d, p);
        if !is_chain(deps, p) && p[0] == p.last() {
            lemma_reaches_trans(deps, d.parent@, p[0], d.child@);
        }
    }
}

/// Some dependency has this parent.
pub open spec fn is_some_parent(deps: Seq<BranchDependency>, x: Seq<char>) -> bool {
    exists|k: int| 0 <= k < deps.len() && deps[k].parent@ == x
}

/// Distinct branches that are each some dependency's parent are no more
/// than the dependencies.
proof fn lemma_distinct_parents_bound(deps: Seq<BranchDependency>, q: Seq<Seq<char>>)
    requires
        q.no_duplicates(),
        forall|i: int| 0 <= i < q.len() ==> is_some_parent(deps, #[trigger] q[i]),
    ensures
        q.len() <= deps.len(),
{
    let parents = deps.map_values(|d: BranchDependency| d.parent@);
    q.unique_seq_to_set();
    parents.lemma_cardinality_of_set();
    assert(q.to_set().subset_of(parents.to_set())) by {
        assert forall|x: Seq<char>| q.to_set().contains(x) implies parents.to_set().contains(x) by {
            let i = choose|i: int| 0 <= i < q.len() && q[i] == x;
            let k = choose|k: int| 0 <= k < deps.len() && deps[k].parent@ == q[i];
            assert(parents[k] == x);
        }
    }
    vstd::seq_lib::seq_to_set_is_finite(parents);
    vstd::set_lib::lemma_len_subset(q.to_set(), parents.to_set());
}

/// The string slices of `v` hold these characters.
pub open spec fn str_views(v: Seq<&str>) -> Seq<Seq<char>> {
    v.map_values(|s: &str| s@)
}

/// Whether some string slice of `v` equals `s`.
fn holds_str(v: &Vec<&str>, s: &str) -> (found: bool)
    ensures
        found == str_views(v@).contains(s@),
{
    let mut i: usize = 0;
    while i < v.len()
        invariant
            i <= v.len(),
            forall|j: int| 0 <= j < i ==> v@[j]@ != s@,
        decreases v.len() - i,
    {
        if str_eq(v[i], s) {
            assert(str_views(v@)[i as int] == s@);
            return true;
        }
        i = i + 1;
    }
    proof {
        if str_views(v@).contains(s@) {
            let j = choose|j: int| 0 <= j < str_views(v@).len() && str_views(v@)[j] == s@;
            assert(v@[j]@ == s@);
        }
    }
    false
}

/// Roots other than this branch.
pub open spec fn root_not_for(branch: Seq<char>) -> spec_fn(RootBranch) -> bool {
    |r: RootBranch| r.branch@ != branch
}

/// The roots with no default among them.
pub open spec fn without_default(roots: Seq<RootBranch>) -> Seq<RootBranch> {
    Seq::new(roots.len(), |j: int| RootBranch { is_default: false, ..roots[j] })
}

/// The roots with the one at `idx` as the only default.
pub open spec fn default_at(roots: Seq<RootBranch>, idx: int) -> Seq<RootBranch> {
    Seq::new(roots.len(), |j: int| RootBranch { is_default: j == idx, ..roots[j] })
}

/// The roots with exactly those for `branch` as defaults.
pub open spec fn default_for(roots: Seq<RootBranch>, branch: Seq<char>) -> Seq<RootBranch> {
    Seq::new(roots.len(), |j: int| RootBranch { is_default: roots[j].branch@ == branch, ..roots[j] })
}

/// `idx` is the first root for `branch`.
pub open spec fn first_root_for(roots: Seq<RootBranch>, branch: Seq<char>, idx: int) -> bool {
    &&& 0 <= idx < roots.len()
    &&& roots[idx].branch@ == branch
    &&& forall|j: int| 0 <= j < idx ==> roots[j].branch@ != branch
}

/// Some root is for `branch`.
pub open spec fn is_root_spec(roots: Seq<RootBranch>, branch: Seq<char>) -> bool {
    exists|i: int| 0 <= i < roots.len() && roots[i].branch@ == branch
}

/// No branch is a root twice, and at most one root is the default.
pub open spec fn roots_wf(roots: Seq<RootBranch>) -> bool {
    &&& forall|i: int, j: int| 0 <= i < j < roots.len() ==> roots[i].branch@ != roots[j].branch@
    &&& forall|i: int, j: int| 0 <= i < j < roots.len() ==> !(roots[i].is_default && roots[j].is_default)
}

/// What `add_root` leaves of the roots: an existing root becomes the only
/// default if asked; a new one is appended, after the other defaults are
/// cleared if it is to be the default.
pub open spec fn roots_after_add(roots: Seq<RootBranch>, added: RootBranch) -> Seq<RootBranch> {
    if is_root_spec(roots, added.branch@) {
        if added.is_default {
            let idx = choose|idx: int| first_root_for(roots, added.branch@, idx);
            default_at(roots, idx)
        } else {
            roots
        }
    } else if added.is_default {
        without_default(roots).push(added)
    } else {
        roots.push(added)
    }
}

/// The branch of the first default root.
pub open spec fn default_root_spec(roots: Seq<RootBranch>) -> Option<Seq<char>>
    decreases roots.len(),
{
    if roots.len() == 0 {
        None
    } else if roots[0].is_default {
        Some(roots[0].branch@)
    } else {
        default_root_spec(roots.drop_first())
    }
}

/// The branches of the roots.
pub open spec fn root_names(roots: Seq<RootBranch>) -> Seq<Seq<char>> {
    roots.map_values(|r: RootBranch| r.branch@)
}

/// The first root for a branch is unique.
proof fn lemma_first_root_unique(roots: Seq<RootBranch>, branch: Seq<char>, a: int, b: int)
    requires
        first_root_for(roots, branch, a),
        first_root_for(roots, branch, b),
    ensures
        a == b,
{
}

/// The roots after `add_root_at` with this identifier and time are `now`.
pub open spec fn final_roots_witness(
    now: Seq<RootBranch>,
    before: Seq<RootBranch>,
    id: String,
    branch: String,
    is_default: bool,
    created_at: String,
) -> bool {
    now == roots_after_add(before, RootBranch { id, branch, is_default, created_at })
}

/// Dropping the roots for a branch keeps the roots well-formed.
proof fn lemma_filter_keeps_roots_wf(s: Seq<RootBranch>, branch: Seq<char>)
    requires
        roots_wf(s),
    ensures
        roots_wf(s.filter(root_not_for(branch))),
    decreases s.len(),
{
    reveal(Seq::filter);
    if s.len() > 0 {
        let rest = s.drop_last();
        assert(roots_wf(rest));
        lemma_filter_keeps_roots_wf(rest, branch);
        let f = rest.filter(root_not_for(branch));
        if s.last().branch@ != branch {
            assert forall|i: int| 0 <= i < f.len() implies f[i].branch@ != s.last().branch@ && !(f[i].is_default
                && s.last().is_default) by {
                assert(f.contains(f[i]));
                rest.lemma_filter_contains_rev(root_not_for(branch), f[i]);
                let k = choose|k: int| 0 <= k < rest.len() && rest[k] == f[i];
                assert(s[k] == rest[k]);
            }
            assert(s.filter(root_not_for(branch)) == f.push(s.last()));
        }
    }
}

/// Removing a dependency right after recording it gives back the
/// dependencies as they were.
pub proof fn lemma_remove_undoes_add_dependency(deps: Seq<BranchDependency>, d: BranchDependency)
    requires
        !has_dependency(deps, d.child@, d.parent@),
    ensures
        deps.push(d).filter(not_the_dependency(d.child@, d.parent@)) == deps,
    decreases deps.len(),
{
    let keep = not_the_dependency(d.child@, d.parent@);
    reveal(Seq::filter);
    assert(deps.push(d).drop_last() =~= deps);
    assert forall|k: int| 0 <= k < deps.len() implies keep(deps[k]) by {
        if !keep(deps[k]) {
            assert(deps[k].child@ == d.child@ && deps[k].parent@ == d.parent@);
        }
    }
    lemma_filter_all_kept(deps, keep);
}

/// Filtering by a predicate that every element meets changes nothing.
proof fn lemma_filter_all_kept<T>(s: Seq<T>, keep: spec_fn(T) -> bool)
    requires
        forall|k: int| 0 <= k < s.len() ==> keep(s[k]),
    ensures
        s.filter(keep) == s,
    decreases s.len(),
{
    reveal(Seq::filter);
    if s.len() > 0 {
        lemma_filter_all_kept(s.drop_last(), keep);
        assert(s.drop_last().push(s.last()) =~= s);
    } else {
        assert(s.filter(keep) =~= s);
    }
}

/// A branch is among the children of `parent` exactly when it depends on
/// `parent` directly, and `parent` is among its parents exactly then too.
pub proof fn lemma_children_and_parents_agree(deps: Seq<BranchDependency>, child: Seq<char>, parent: Seq<char>)
    ensures
        children_of(deps, parent).contains(child) <==> has_dependency(deps, child, parent),
        parents_of(deps, child).contains(parent) <==> has_dependency(deps, child, parent),
    decreases deps.len(),
{
    if deps.len() > 0 {
        let rest = deps.drop_last();
        lemma_children_and_parents_agree(rest, child, parent);
        lemma_depends_on_push(rest, deps.last(), child, parent);
        assert(rest.push(deps.last()) =~= deps);
        let cr = children_of(rest, parent);
        let pr = parents_of(rest, child);
        if deps.last().parent@ == parent {
            assert(cr.push(deps.last().child@).contains(child) <==> cr.contains(child) || deps.last().child@
                == child) by {
                if cr.push(deps.last().child@).contains(child) {
                    let i = choose|i: int| 0 <= i < cr.len() + 1 && cr.push(deps.last().child@)[i] == child;
                    if i < cr.len() {
                        assert(cr[i] == child);
                    }
                }
                if cr.contains(child) {
                    let i = choose|i: int| 0 <= i < cr.len() && cr[i] == child;
                    assert(cr.push(deps.last().child@)[i] == child);
                }
                if deps.last().child@ == child {
                    assert(cr.push(deps.last().child@)[cr.len() as int] == child);
                }
            }
        }
        if deps.last().child@ == child {
            assert(pr.push(deps.last().parent@).contains(parent) <==> pr.contains(parent) || deps.last().parent@
                == parent) by {
                if pr.push(deps.last().parent@).contains(parent) {
                    let i = choose|i: int| 0 <= i < pr.len() + 1 && pr.push(deps.last().parent@)[i] == parent;
                    if i < pr.len() {
                        assert(pr[i] == parent);
                    }
                }
                if pr.contains(parent) {
                    let i = choose|i: int| 0 <= i < pr.len() && pr[i] == parent;
                    assert(pr.push(deps.last().parent@)[i] == parent);
                }
                if deps.last().parent@ == parent {
                    assert(pr.push(deps.last().parent@)[pr.len() as int] == parent);
                }
            }
        }
    }
}

/// After adding a worktree, it is the only one with its name, so looking
/// the name up finds it.
pub proof fn lemma_added_worktree_is_found(worktrees: Seq<Worktree>, added: Worktree)
    ensures
        ({
            let now = worktrees.filter(worktree_not_named(added.name@)).push(added);
            &&& now.last() == added
            &&& forall|i: int| 0 <= i < now.len() - 1 ==> now[i].name@ != added.name@
        }),
{
    let f = worktrees.filter(worktree_not_named(added.name@));
    assert forall|i: int| 0 <= i < f.len() implies f[i].name@ != added.name@ by {
        worktrees.filter_lemma(worktree_not_named(added.name@));
        assert(worktree_not_named(added.name@)(f[i]));
    }
    assert forall|i: int| 0 <= i < f.push(added).len() - 1 implies f.push(added)[i].name@ != added.name@ by {
        assert(f.push(added)[i] == f[i]);
    }
}

/// After recording a branch's metadata, it is the only record for that
/// branch, so looking the branch up finds it.
pub proof fn lemma_added_branch_issue_is_found(records: Seq<BranchMetadata>, added: BranchMetadata)
    ensures
        ({
            let now = records.filter(metadata_not_for(added.branch@)).push(added);
            &&& now.last() == added
            &&& forall|i: int| 0 <= i < now.len() - 1 ==> now[i].branch@ != added.branch@
        }),
{
    let f = records.filter(metadata_not_for(added.branch@));
    assert forall|i: int| 0 <= i < f.len() implies f[i].branch@ != added.branch@ by {
        records.filter_lemma(metadata_not_for(added.branch@));
        assert(metadata_not_for(added.branch@)(f[i]));
    }
    assert forall|i: int| 0 <= i < f.push(added).len() - 1 implies f.push(added)[i].branch@ != added.branch@ by {
        assert(f.push(added)[i] == f[i]);
    }
}

/// When exactly the roots for one branch are defaults, that branch is the
/// default root.
proof fn lemma_default_root_of_single(roots: Seq<RootBranch>, branch: Seq<char>)
    requires
        exists|i: int| 0 <= i < roots.len() && roots[i].is_default,
        forall|i: int| 0 <= i < roots.len() && roots[i].is_default ==> roots[i].branch@ == branch,
    ensures
        default_root_spec(roots) == Some(branch),
    decreases roots.len(),
{
    if !roots[0].is_default {
        let rest = roots.drop_first();
        let i = choose|i: int| 0 <= i < roots.len() && roots[i].is_default;
        assert(rest[i - 1] == roots[i]);
        assert forall|j: int| 0 <= j < rest.len() && rest[j].is_default implies rest[j].branch@ == branch by {
            assert(rest[j] == roots[j + 1]);
        }
        lemma_default_root_of_single(rest, branch);
    }
}

/// Adding a root as the default makes it the default root.
pub proof fn lemma_added_default_root_is_default(roots: Seq<RootBranch>, added: RootBranch)
    requires
        added.is_default,
    ensures
        default_root_spec(roots_after_add(roots, added)) == Some(added.branch@),
{
    let now = roots_after_add(roots, added);
    if is_root_spec(roots, added.branch@) {
        let idx = choose|idx: int| first_root_for(roots, added.branch@, idx);
        let i = choose|i: int| 0 <= i < roots.len() && roots[i].branch@ == added.branch@;
        if !first_root_for(roots, added.branch@, idx) {
            lemma_first_root_exists(roots, added.branch@, i);
        }
        assert(now[idx].is_default);
    } else {
        assert(now[roots.len() as int] == added);
    }
    lemma_default_root_of_single(now, added.branch@);
}

/// A branch that is a root has a first root entry.
proof fn lemma_first_root_exists(roots: Seq<RootBranch>, branch: Seq<char>, i: int)
    requires
        0 <= i < roots.len(),
        roots[i].branch@ == branch,
    ensures
        exists|idx: int| first_root_for(roots, branch, idx),
    decreases i,
{
    if forall|j: int| 0 <= j < i ==> roots[j].branch@ != branch {
        assert(first_root_for(roots, branch, i));
    } else {
        let j = choose|j: int| 0 <= j < i && roots[j].branch@ == branch;
        lemma_first_root_exists(roots, branch, j);
    }
}

/// Making a root branch the default makes it the default root.
pub proof fn lemma_set_default_root_is_default(roots: Seq<RootBranch>, branch: Seq<char>)
    requires
        is_root_spec(roots, branch),
    ensures
        default_root_spec(default_for(roots, branch)) == Some(branch),
{
    let now = default_for(roots, branch);
    let i = choose|i: int| 0 <= i < roots.len() && roots[i].branch@ == branch;
    assert(now[i].is_default);
    lemma_default_root_of_single(now, branch);
}

/// `[i, j)` is a line of `s`: it starts at the beginning or after a line
/// break, ends at the end or at a line break, and holds no line break.
pub open spec fn is_line(s: Seq<char>, i: int, j: int) -> bool {
    &&& 0 <= i <= j <= s.len()
    &&& (i == 0 || s[i - 1] == '\n')
    &&& (j == s.len() || s[j] == '\n')
    &&& forall|k: int| i <= k < j ==> s[k] != '\n'
}

/// Some line of `s`, trimmed of white space, is `t`.
pub open spec fn has_trimmed_line(s: Seq<char>, t: Seq<char>) -> bool {
    exists|i: int, j: int| #[trigger] is_line(s, i, j) && trim(s.subrange(i, j)) == t
}

/// The `.gitignore` content once the state directory is ignored, or `None`
/// when a line of it already reads `.twig/`: the entry goes on a line of its
/// own at the end.
pub open spec fn gitignore_after_save(existing: Seq<char>) -> Option<Seq<char>> {
    if has_trimmed_line(existing, ".twig/"@) {
        None
    } else {
        let closed = if existing.len() > 0 && existing.last() != '\n' {
            existing.push('\n')
        } else {
            existing
        };
        Some(closed + ".twig/\n"@)
    }
}

/// Whether the line `text[from..to]`, trimmed, is `target`.
fn trimmed_line_is(text: &Vec<char>, from: usize, to: usize, target: &Vec<char>) -> (b: bool)
    requires
        from <= to <= text.len(),
    ensures
        b == (trim(text@.subrange(from as int, to as int)) == target@),
{
    let line = slice_range(text.as_slice(), from, to);
    let (a, z) = trim_bounds(line.as_slice());
    let t = slice_range(line.as_slice(), a, z);
    chars_eq(t.as_slice(), target.as_slice())
}

/// The `.gitignore` content with the state directory ignored, from what the
/// file held (empty when there is none); `None` when it is already ignored.
pub fn gitignore_with_state_dir(existing: &str) -> (r: Option<String>)
    ensures
        match gitignore_after_save(existing@) {
            Some(t) => r is Some && r->0@ == t,
            None => r is None,
        },
{
    let text = chars_of(existing);
    let entry = ".twig/";
    let target = chars_of(entry);
    let ghost s = text@;
    let n = text.len();
    let mut start: usize = 0;
    let mut pos: usize = 0;
    while pos < n
        invariant
            s == text@,
            s == existing@,
            n == text.len(),
            target@ == ".twig/"@,
            start <= pos <= n,
            start == 0 || s[start - 1] == '\n',
            forall|k: int| start <= k < pos ==> s[k] != '\n',
            forall|i: int, j: int| #[trigger] is_line(s, i, j) && i < start ==> trim(s.subrange(i, j)) != target@,
        decreases n - pos,
    {
        if text[pos] == '\n' {
            if trimmed_line_is(&text, start, pos, &target) {
                assert(is_line(s, start as int, pos as int));
                assert(trim(s.subrange(start as int, pos as int)) == ".twig/"@);
                assert(has_trimmed_line(existing@, ".twig/"@));
                return None;
            }
            proof {
                assert forall|i: int, j: int| #[trigger] is_line(s, i, j) && i < pos + 1 implies trim(
                    s.subrange(i, j),
                ) != target@ by {
                    if i >= start {
                        if i > start {
                            assert(s[i - 1] != '\n');
                        }
                        if j > pos {
                            assert(s[pos as int] != '\n');
                        }
                        if j < pos {
                            assert(s[j] != '\n');
                        }
                    }
                }
            }
            start = pos + 1;
        }
        pos = pos + 1;
    }
    if trimmed_line_is(&text, start, n, &target) {
        assert(is_line(s, start as int, n as int));
        return None;
    }
    proof {
        assert forall|i: int, j: int| #[trigger] is_line(s, i, j) implies trim(s.subrange(i, j)) != target@ by {
            if i >= start {
                if i > start {
                    assert(s[i - 1] != '\n');
                }
                if j < n {
                    assert(s[j] != '\n');
                }
            }
        }
        reveal_strlit(".twig/");
    }
    let mut out = existing.to_owned();
    if n > 0 && text[n - 1] != '\n' {
        push_char(&mut out, '\n');
    }
    push_str(&mut out, ".twig/\n");
    Some(out)
}

/// The repository-local state.
#[derive(Debug)]
pub struct RepoState {
    pub version: u32,
    pub updated_at: String,
    pub worktrees: Vec<Worktree>,
    pub branches: Vec<BranchMetadata>,
    pub dependencies: Vec<BranchDependency>,
    pub root_branches: Vec<RootBranch>,
    pub config_overrides: serde_json::Value,
}

/// The empty state: no worktrees, branch records, dependencies or roots.
pub open spec fn is_empty_state(s: RepoState) -> bool {
    &&& s.worktrees@.len() == 0
    &&& s.branches@.len() == 0
    &&& s.dependencies@.len() == 0
    &&& s.root_branches@.len() == 0
}

impl Default for RepoState {
    /// Version 0, stamped with the Unix epoch, holding nothing.
    fn default() -> (s: Self)
        ensures
            s.version == 0,
            s.updated_at@ == "1970-01-01T00:00:00+00:00"@,
            is_empty_state(s),
    {
        RepoState {
            version: 0,
            updated_at: String::from_str("1970-01-01T00:00:00+00:00"),
            worktrees: Vec::new(),
            branches: Vec::new(),
            dependencies: Vec::new(),
            root_branches: Vec::new(),
            config_overrides: json_null(),
        }
    }
}

impl RepoState {
    /// The state of a repository that has none recorded yet: version 1,
    /// stamped with `updated_at`, holding nothing.
    pub fn initial(updated_at: String, config_overrides: serde_json::Value) -> (s: Self)
        ensures
            s.version == 1,
            s.updated_at == updated_at,
            s.config_overrides == config_overrides,
            is_empty_state(s),
    {
        RepoState {
            version: 1,
            updated_at,
            worktrees: Vec::new(),
            branches: Vec::new(),
            dependencies: Vec::new(),
            root_branches: Vec::new(),
            config_overrides,
        }
    }

    /// Adds a worktree, replacing any with the same name.
    pub fn add_worktree(&mut self, worktree: Worktree)
        ensures
            final(self).worktrees@ == old(self).worktrees@.filter(worktree_not_named(worktree.name@)).push(
                worktree,
            ),
            final(self).branches == old(self).branches,
            final(self).dependencies == old(self).dependencies,
            final(self).root_branches == old(self).root_branches,
    {
        self.retain_worktrees_not_named(worktree.name.as_str());
        self.worktrees.push(worktree);
    }

    /// Drops every worktree with this name; says whether there was one.
    fn retain_worktrees_not_named(&mut self, name: &str) -> (found: bool)
        ensures
            final(self).worktrees@ == old(self).worktrees@.filter(worktree_not_named(name@)),
            found == exists|i: int| 0 <= i < old(self).worktrees@.len() && old(self).worktrees@[i].name@ == name@,
            final(self).branches == old(self).branches,
            final(self).dependencies == old(self).dependencies,
            final(self).root_branches == old(self).root_branches,
    {
        let ghost before = self.worktrees@;
        let ghost keep = worktree_not_named(name@);
        let mut kept: Vec<Worktree> = Vec::new();
        let mut found = false;
        let mut i: usize = 0;
        while i < self.worktrees.len()
            invariant
                i <= self.worktrees.len(),
                before == self.worktrees@,
                keep == worktree_not_named(name@),
                kept@ == before.take(i as int).filter(keep),
                found == exists|k: int| 0 <= k < i && before[k].name@ == name@,
            decreases self.worktrees.len() - i,
        {
            assert(before.take(i + 1).drop_last() =~= before.take(i as int));
            assert(before.take(i + 1).filter(keep) == if keep(before[i as int]) {
                before.take(i as int).filter(keep).push(before[i as int])
            } else {
                before.take(i as int).filter(keep)
            }) by {
                reveal(Seq::filter);
            }
            if str_eq(self.worktrees[i].name.as_str(), name) {
                found = true;
            } else {
                kept.push(self.worktrees[i].duplicate());
            }
            i = i + 1;
        }
        assert(before.take(before.len() as int) =~= before);
        self.worktrees = kept;
        found
    }

    /// Removes the worktree with this name; says whether there was one.
    pub fn remove_worktree(&mut self, name: &str) -> (removed: bool)
        ensures
            final(self).worktrees@ == old(self).worktrees@.filter(worktree_not_named(name@)),
            removed == exists|i: int| 0 <= i < old(self).worktrees@.len() && old(self).worktrees@[i].name@ == name@,
            final(self).branches == old(self).branches,
            final(self).dependencies == old(self).dependencies,
            final(self).root_branches == old(self).root_branches,
    {
        self.retain_worktrees_not_named(name)
    }

    /// The first worktree with this name.
    pub fn get_worktree(&self, name: &str) -> (r: Option<&Worktree>)
        ensures
            r is None <==> forall|i: int| 0 <= i < self.worktrees@.len() ==> self.worktrees@[i].name@ != name@,
            r is Some ==> exists|i: int|
                0 <= i < self.worktrees@.len() && self.worktrees@[i] == *r->0 && self.worktrees@[i].name@ == name@
                    && forall|j: int| 0 <= j < i ==> self.worktrees@[j].name@ != name@,
    {
        let mut i: usize = 0;
        while i < self.worktrees.len()
            invariant
                i <= self.worktrees.len(),
                forall|j: int| 0 <= j < i ==> self.worktrees@[j].name@ != name@,
            decreases self.worktrees.len() - i,
        {
            if str_eq(self.worktrees[i].name.as_str(), name) {
                return Some(&self.worktrees[i]);
            }
            i = i + 1;
        }
        None
    }

    /// All worktrees, in the order they were added.
    pub fn list_worktrees(&self) -> (r: &[Worktree])
        ensures
            r@ == self.worktrees@,
    {
        self.worktrees.as_slice()
    }

    /// Records a branch's metadata, replacing any record for that branch.
    pub fn add_branch_issue(&mut self, branch_issue: BranchMetadata)
        ensures
            final(self).branches@ == old(self).branches@.filter(metadata_not_for(branch_issue.branch@)).push(
                branch_issue,
            ),
            final(self).worktrees == old(self).worktrees,
            final(self).dependencies == old(self).dependencies,
            final(self).root_branches == old(self).root_branches,
    {
        let ghost before = self.branches@;
        let ghost keep = metadata_not_for(branch_issue.branch@);
        let mut kept: Vec<BranchMetadata> = Vec::new();
        let mut i: usize = 0;
        while i < self.branches.len()
            invariant
                i <= self.branches.len(),
                before == self.branches@,
                keep == metadata_not_for(branch_issue.branch@),
                kept@ == before.take(i as int).filter(keep),
            decreases self.branches.len() - i,
        {
            assert(before.take(i + 1).drop_last() =~= before.take(i as int));
            assert(before.take(i + 1).filter(keep) == if keep(before[i as int]) {
                before.take(i as int).filter(keep).push(before[i as int])
            } else {
                before.take(i as int).filter(keep)
            }) by {
                reveal(Seq::filter);
            }
            if !str_eq(self.branches[i].branch.as_str(), branch_issue.branch.as_str()) {
                kept.push(self.branches[i].duplicate());
            }
            i = i + 1;
        }
        assert(before.take(before.len() as int) =~= before);
        kept.push(branch_issue);
        self.branches = kept;
    }

    /// The metadata recorded for this branch.
    pub fn get_branch_issue_by_branch(&self, branch: &str) -> (r: Option<&BranchMetadata>)
        ensures
            match branch_record(self.branches@, branch@) {
                Some(m) => r is Some && *r->0 == m,
                None => r is None,
            },
            r is None <==> forall|i: int| 0 <= i < self.branches@.len() ==> self.branches@[i].branch@ != branch@,
            r is Some ==> exists|i: int|
                0 <= i < self.branches@.len() && self.branches@[i] == *r->0 && self.branches@[i].branch@ == branch@
                    && forall|j: int| 0 <= j < i ==> self.branches@[j].branch@ != branch@,
    {
        let mut i: usize = 0;
        while i < self.branches.len()
            invariant
                i <= self.branches.len(),
                forall|j: int| 0 <= j < i ==> self.branches@[j].branch@ != branch@,
            decreases self.branches.len() - i,
        {
            if str_eq(self.branches[i].branch.as_str(), branch) {
                proof {
                    lemma_branch_record_at(self.branches@, branch@, i as int);
                }
                return Some(&self.branches[i]);
            }
            i = i + 1;
        }
        proof {
            lemma_branch_record_at(self.branches@, branch@, self.branches@.len() as int);
        }
        None
    }

    /// The metadata of a branch associated with this Jira issue (the
    /// earliest such record).
    pub fn get_branch_issue_by_jira(&self, jira_issue: &str) -> (r: Option<&BranchMetadata>)
        ensures
            r is None <==> forall|i: int| 0 <= i < self.branches@.len() ==> !carries_issue(self.branches@[i], jira_issue@),
            r is Some ==> exists|i: int|
                0 <= i < self.branches@.len() && self.branches@[i] == *r->0 && carries_issue(self.branches@[i], jira_issue@)
                    && forall|j: int| 0 <= j < i ==> !carries_issue(self.branches@[j], jira_issue@),
    {
        let mut i: usize = 0;
        while i < self.branches.len()
            invariant
                i <= self.branches.len(),
                forall|j: int| 0 <= j < i ==> !carries_issue(self.branches@[j], jira_issue@),
            decreases self.branches.len() - i,
        {
            match &self.branches[i].jira_issue {
                Some(j) => {
                    if str_eq(j.as_str(), jira_issue) {
                        return Some(&self.branches[i]);
                    }
                },
                None => {},
            }
            i = i + 1;
        }
        None
    }

    /// The metadata of a branch associated with this pull request (the
    /// earliest such record).
    pub fn get_branch_issue_by_pr(&self, pr_number: u32) -> (r: Option<&BranchMetadata>)
        ensures
            r is None <==> forall|i: int| 0 <= i < self.branches@.len() ==> self.branches@[i].github_pr != Some(pr_number),
            r is Some ==> exists|i: int|
                0 <= i < self.branches@.len() && self.branches@[i] == *r->0 && self.branches@[i].github_pr == Some(pr_number)
                    && forall|j: int| 0 <= j < i ==> self.branches@[j].github_pr != Some(pr_number),
    {
        let mut i: usize = 0;
        while i < self.branches.len()
            invariant
                i <= self.branches.len(),
                forall|j: int| 0 <= j < i ==> self.branches@[j].github_pr != Some(pr_number),
            decreases self.branches.len() - i,
        {
            match self.branches[i].github_pr {
                Some(n) => {
                    if n == pr_number {
                        return Some(&self.branches[i]);
                    }
                },
                None => {},
            }
            i = i + 1;
        }
        None
    }

    /// Whether `start` reaches `end`: is it, or depends on it directly or
    /// through other branches. A breadth-first walk along the recorded
    /// dependencies from child to parent.
    fn has_dependency_path(&self, start: &str, end: &str) -> (r: bool)
        ensures
            r == reaches(self.dependencies@, start@, end@),
    {
        let ghost d = self.dependencies@;
        let mut visited: Vec<&str> = Vec::new();
        visited.push(start);
        proof {
            assert(str_views(visited@) =~= seq![start@]);
            let p = seq![start@];
            assert(is_chain(d, p));
        }
        let mut head: usize = 0;
        while head < visited.len()
            invariant
                d == self.dependencies@,
                1 <= visited.len() <= d.len() + 1,
                head <= visited.len(),
                str_views(visited@)[0] == start@,
                str_views(visited@).no_duplicates(),
                forall|i: int| 0 <= i < visited.len() ==> reaches(d, start@, #[trigger] str_views(visited@)[i]),
                forall|i: int|
                    1 <= i < visited.len() ==> is_some_parent(d, #[trigger] str_views(visited@)[i]),
                forall|i: int| 0 <= i < head ==> #[trigger] str_views(visited@)[i] != end@,
                forall|i: int, k: int|
                    0 <= i < head && 0 <= k < d.len() && #[trigger] d[k].child@ == #[trigger] str_views(visited@)[i]
                        ==> str_views(visited@).contains(d[k].parent@),
            decreases d.len() + 1 - head,
        {
            let current: &str = visited[head];
            assert(str_views(visited@)[head as int] == current@);
            if str_eq(current, end) {
                return true;
            }
            let mut k: usize = 0;
            while k < self.dependencies.len()
                invariant
                    d == self.dependencies@,
                    1 <= visited.len() <= d.len() + 1,
                    head < visited.len(),
                    current@ == str_views(visited@)[head as int],
                    current@ != end@,
                    str_views(visited@)[0] == start@,
                    str_views(visited@).no_duplicates(),
                    forall|i: int| 0 <= i < visited.len() ==> reaches(d, start@, #[trigger] str_views(visited@)[i]),
                    forall|i: int|
                        1 <= i < visited.len() ==> is_some_parent(d, #[trigger] str_views(visited@)[i]),
                    forall|i: int| 0 <= i < head ==> #[trigger] str_views(visited@)[i] != end@,
                    forall|i: int, k: int|
                        0 <= i < head && 0 <= k < d.len() && #[trigger] d[k].child@ == #[trigger] str_views(
                            visited@,
                        )[i] ==> str_views(visited@).contains(d[k].parent@),
                    forall|j: int|
                        0 <= j < k && #[trigger] d[j].child@ == current@ ==> str_views(visited@).contains(d[j].parent@),
                decreases d.len() - k,
            {
                let dep = &self.dependencies[k];
                if str_eq(dep.child.as_str(), current) {
                    if !holds_str(&visited, dep.parent.as_str()) {
                        let ghost old_views = str_views(visited@);
                        proof {
                            let q = old_views.subrange(1, old_views.len() as int).push(dep.parent@);
                            assert forall|i: int, j: int| 0 <= i < q.len() && 0 <= j < q.len() && i != j implies q[i]
                                != q[j] by {
                                if i < q.len() - 1 && j < q.len() - 1 {
                                    assert(q[i] == old_views[i + 1]);
                                    assert(q[j] == old_views[j + 1]);
                                } else if i == q.len() - 1 {
                                    assert(q[j] == old_views[j + 1]);
                                } else {
                                    assert(q[i] == old_views[i + 1]);
                                }
                            }
                            assert forall|i: int| 0 <= i < q.len() implies is_some_parent(d, #[trigger] q[i]) by {
                                if i < q.len() - 1 {
                                    assert(q[i] == old_views[i + 1]);
                                } else {
                                    assert(d[k as int].parent@ == q[i]);
                                }
                            }
                            lemma_distinct_parents_bound(d, q);
                            let c = choose|c: Seq<Seq<char>>| #[trigger] is_chain(d, c) && c[0] == start@ && c.last() == current@;
                            assert(reaches(d, start@, current@));
                            assert(depends_on(d, c.last(), dep.parent@));
                            lemma_chain_push(d, c, dep.parent@);
                        }
                        visited.push(dep.parent.as_str());
                        proof {
                            assert(str_views(visited@) =~= old_views.push(dep.parent@));
                            let c = choose|c: Seq<Seq<char>>| #[trigger] is_chain(d, c) && c[0] == start@ && c.last() == current@;
                            lemma_chain_push(d, c, dep.parent@);
                            let nv = str_views(visited@);
                            assert forall|i: int| 0 <= i < visited.len() implies reaches(d, start@, #[trigger] nv[i]) by {
                                if i < old_views.len() {
                                    assert(nv[i] == old_views[i]);
                                } else {
                                    assert(is_chain(d, c.push(dep.parent@)));
                                }
                            }
                            assert forall|i: int| 1 <= i < visited.len() implies is_some_parent(d, #[trigger] nv[i]) by {
                                if i < old_views.len() {
                                    assert(nv[i] == old_views[i]);
                                } else {
                                    assert(d[k as int].parent@ == nv[i]);
                                }
                            }
                            assert forall|i: int, k2: int|
                                0 <= i < head && 0 <= k2 < d.len() && #[trigger] d[k2].child@ == #[trigger] nv[i]
                                    implies nv.contains(d[k2].parent@) by {
                                assert(nv[i] == old_views[i]);
                                assert(old_views.contains(d[k2].parent@));
                                let w = choose|w: int| 0 <= w < old_views.len() && old_views[w] == d[k2].parent@;
                                assert(nv[w] == old_views[w]);
                            }
                            assert forall|j: int| 0 <= j <= k && #[trigger] d[j].child@ == current@ implies nv.contains(
                                d[j].parent@,
                            ) by {
                                if j < k {
                                    assert(old_views.contains(d[j].parent@));
                                    let w = choose|w: int| 0 <= w < old_views.len() && old_views[w] == d[j].parent@;
                                    assert(nv[w] == old_views[w]);
                                } else {
                                    assert(nv[old_views.len() as int] == d[j].parent@);
                                }
                            }
                            assert forall|i: int| 0 <= i < head implies #[trigger] nv[i] != end@ by {
                                assert(nv[i] == old_views[i]);
                            }
                        }
                    }
                }
                k = k + 1;
            }
            head = head + 1;
        }
        proof {
            if reaches(d, start@, end@) {
                let p = choose|p: Seq<Seq<char>>| #[trigger] is_chain(d, p) && p[0] == start@ && p.last() == end@;
                assert(str_views(visited@).contains(p[0]));
                lemma_closed_holds_chain_end(d, str_views(visited@), p);
                let i = choose|i: int| 0 <= i < str_views(visited@).len() && str_views(visited@)[i] == end@;
                assert(str_views(visited@)[i] != end@);
            }
        }
        false
    }

    /// Whether the dependency of `child` on `parent` is recorded.
    fn dependency_recorded(&self, child: &str, parent: &str) -> (b: bool)
        ensures
            b == has_dependency(self.dependencies@, child@, parent@),
    {
        let mut i: usize = 0;
        while i < self.dependencies.len()
            invariant
                i <= self.dependencies.len(),
                forall|j: int|
                    0 <= j < i ==> !(#[trigger] self.dependencies@[j].child@ == child@ && self.dependencies@[j].parent@
                        == parent@),
            decreases self.dependencies.len() - i,
        {
            if str_eq(self.dependencies[i].child.as_str(), child) && str_eq(
                self.dependencies[i].parent.as_str(),
                parent,
            ) {
                return true;
            }
            i = i + 1;
        }
        false
    }

    /// Whether recording that `child` depends on `parent` would close a
    /// cycle: `parent` already reaches `child`.
    fn would_create_cycle(&self, child: &str, parent: &str) -> (b: bool)
        ensures
            b == reaches(self.dependencies@, parent@, child@),
    {
        self.has_dependency_path(parent, child)
    }

    /// Records that `child` depends on `parent`, under this identifier and
    /// creation time. Refused when that dependency is already recorded, or
    /// when `parent` already reaches `child` (a branch cannot depend on
    /// itself).
    pub fn add_dependency_at(&mut self, child: String, parent: String, id: String, created_at: String) -> (r: Result<
        (),
        RepoStateError,
    >)
        ensures
            r is Ok <==> !has_dependency(old(self).dependencies@, child@, parent@) && !reaches(
                old(self).dependencies@,
                parent@,
                child@,
            ),
            has_dependency(old(self).dependencies@, child@, parent@) ==> r == Err::<(), RepoStateError>(
                RepoStateError::DependencyExists { child, parent },
            ),
            !has_dependency(old(self).dependencies@, child@, parent@) && reaches(
                old(self).dependencies@,
                parent@,
                child@,
            ) ==> r == Err::<(), RepoStateError>(RepoStateError::WouldCreateCycle { child, parent }),
            r is Ok ==> final(self).dependencies@ == old(self).dependencies@.push(
                BranchDependency { id, child, parent, created_at },
            ),
            r is Err ==> final(self).dependencies@ == old(self).dependencies@,
            acyclic(old(self).dependencies@) ==> acyclic(final(self).dependencies@),
            final(self).worktrees == old(self).worktrees,
            final(self).branches == old(self).branches,
            final(self).root_branches == old(self).root_branches,
    {
        if self.dependency_recorded(child.as_str(), parent.as_str()) {
            return Err(RepoStateError::DependencyExists { child, parent });
        }
        if self.would_create_cycle(child.as_str(), parent.as_str()) {
            return Err(RepoStateError::WouldCreateCycle { child, parent });
        }
        let dep = BranchDependency { id, child, parent, created_at };
        proof {
            if acyclic(self.dependencies@) {
                lemma_push_keeps_acyclic(self.dependencies@, dep);
            }
        }
        self.dependencies.push(dep);
        Ok(())
    }

    /// Records that `child` depends on `parent`, under a fresh identifier
    /// and the current time; refused as `add_dependency_at` says.
    pub fn add_dependency(&mut self, child: String, parent: String) -> (r: Result<(), RepoStateError>)
        ensures
            r is Ok <==> !has_dependency(old(self).dependencies@, child@, parent@) && !reaches(
                old(self).dependencies@,
                parent@,
                child@,
            ),
            has_dependency(old(self).dependencies@, child@, parent@) ==> r == Err::<(), RepoStateError>(
                RepoStateError::DependencyExists { child, parent },
            ),
            !has_dependency(old(self).dependencies@, child@, parent@) && reaches(
                old(self).dependencies@,
                parent@,
                child@,
            ) ==> r == Err::<(), RepoStateError>(RepoStateError::WouldCreateCycle { child, parent }),
            r is Ok ==> final(self).dependencies@.len() == old(self).dependencies@.len() + 1
                && final(self).dependencies@.drop_last() == old(self).dependencies@
                && final(self).dependencies@.last().child == child
                && final(self).dependencies@.last().parent == parent
                && is_record_id(final(self).dependencies@.last().id@)
                && is_utc_time(final(self).dependencies@.last().created_at@),
            r is Err ==> final(self).dependencies@ == old(self).dependencies@,
            acyclic(old(self).dependencies@) ==> acyclic(final(self).dependencies@),
            final(self).worktrees == old(self).worktrees,
            final(self).branches == old(self).branches,
            final(self).root_branches == old(self).root_branches,
    {
        let id = new_record_id();
        let created_at = current_time_rfc3339();
        let ghost before = self.dependencies@;
        let r = self.add_dependency_at(child, parent, id, created_at);
        proof {
            if r is Ok {
                assert(self.dependencies@.drop_last() =~= before);
            }
        }
        r
    }

    /// Removes the dependency of `child` on `parent`; says whether it was
    /// recorded.
    pub fn remove_dependency(&mut self, child: &str, parent: &str) -> (removed: bool)
        ensures
            final(self).dependencies@ == old(self).dependencies@.filter(not_the_dependency(child@, parent@)),
            removed == has_dependency(old(self).dependencies@, child@, parent@),
            final(self).worktrees == old(self).worktrees,
            final(self).branches == old(self).branches,
            final(self).root_branches == old(self).root_branches,
    {
        let ghost before = self.dependencies@;
        let ghost keep = not_the_dependency(child@, parent@);
        let mut kept: Vec<BranchDependency> = Vec::new();
        let mut found = false;
        let mut i: usize = 0;
        while i < self.dependencies.len()
            invariant
                i <= self.dependencies.len(),
                before == self.dependencies@,
                keep == not_the_dependency(child@, parent@),
                kept@ == before.take(i as int).filter(keep),
                found == exists|k: int| 0 <= k < i && before[k].child@ == child@ && before[k].parent@ == parent@,
            decreases self.dependencies.len() - i,
        {
            assert(before.take(i + 1).drop_last() =~= before.take(i as int));
            assert(before.take(i + 1).filter(keep) == if keep(before[i as int]) {
                before.take(i as int).filter(keep).push(before[i as int])
            } else {
                before.take(i as int).filter(keep)
            }) by {
                reveal(Seq::filter);
            }
            if str_eq(self.dependencies[i].child.as_str(), child) && str_eq(
                self.dependencies[i].parent.as_str(),
                parent,
            ) {
                found = true;
            } else {
                kept.push(self.dependencies[i].duplicate());
            }
            i = i + 1;
        }
        assert(before.take(before.len() as int) =~= before);
        self.dependencies = kept;
        found
    }

    /// Removes every dependency in which `branch` takes part, as child or
    /// as parent; says how many went.
    pub fn remove_all_dependencies_for_branch(&mut self, branch: &str) -> (count: usize)
        ensures
            final(self).dependencies@ == old(self).dependencies@.filter(not_involving(branch@)),
            count == old(self).dependencies@.len() - final(self).dependencies@.len(),
            final(self).worktrees == old(self).worktrees,
            final(self).branches == old(self).branches,
            final(self).root_branches == old(self).root_branches,
    {
        let ghost before = self.dependencies@;
        let ghost keep = not_involving(branch@);
        let mut kept: Vec<BranchDependency> = Vec::new();
        let mut i: usize = 0;
        while i < self.dependencies.len()
            invariant
                i <= self.dependencies.len(),
                before == self.dependencies@,
                keep == not_involving(branch@),
                kept@ == before.take(i as int).filter(keep),
                kept@.len() <= i,
            decreases self.dependencies.len() - i,
        {
            assert(before.take(i + 1).drop_last() =~= before.take(i as int));
            assert(before.take(i + 1).filter(keep) == if keep(before[i as int]) {
                before.take(i as int).filter(keep).push(before[i as int])
            } else {
                before.take(i as int).filter(keep)
            }) by {
                reveal(Seq::filter);
            }
            if !str_eq(self.dependencies[i].child.as_str(), branch) && !str_eq(
                self.dependencies[i].parent.as_str(),
                branch,
            ) {
                kept.push(self.dependencies[i].duplicate());
            }
            i = i + 1;
        }
        assert(before.take(before.len() as int) =~= before);
        let count = self.dependencies.len() - kept.len();
        self.dependencies = kept;
        count
    }

    /// The branches that depend directly on `parent`, in the order recorded.
    pub fn get_dependency_children(&self, parent: &str) -> (r: Vec<&str>)
        ensures
            str_views(r@) == children_of(self.dependencies@, parent@),
    {
        let ghost d = self.dependencies@;
        let mut r: Vec<&str> = Vec::new();
        let mut i: usize = 0;
        while i < self.dependencies.len()
            invariant
                i <= self.dependencies.len(),
                d == self.dependencies@,
                str_views(r@) == children_of(d.take(i as int), parent@),
            decreases self.dependencies.len() - i,
        {
            assert(d.take(i + 1).drop_last() =~= d.take(i as int));
            if str_eq(self.dependencies[i].parent.as_str(), parent) {
                r.push(self.dependencies[i].child.as_str());
            }
            i = i + 1;
            assert(str_views(r@) =~= children_of(d.take(i as int), parent@));
        }
        assert(d.take(d.len() as int) =~= d);
        r
    }

    /// The branches that `child` depends on directly, in the order recorded.
    pub fn get_dependency_parents(&self, child: &str) -> (r: Vec<&str>)
        ensures
            str_views(r@) == parents_of(self.dependencies@, child@),
    {
        let ghost d = self.dependencies@;
        let mut r: Vec<&str> = Vec::new();
        let mut i: usize = 0;
        while i < self.dependencies.len()
            invariant
                i <= self.dependencies.len(),
                d == self.dependencies@,
                str_views(r@) == parents_of(d.take(i as int), child@),
            decreases self.dependencies.len() - i,
        {
            assert(d.take(i + 1).drop_last() =~= d.take(i as int));
            if str_eq(self.dependencies[i].child.as_str(), child) {
                r.push(self.dependencies[i].parent.as_str());
            }
            i = i + 1;
            assert(str_views(r@) =~= parents_of(d.take(i as int), child@));
        }
        assert(d.take(d.len() as int) =~= d);
        r
    }

    /// The children of a branch (the branches that depend on it).
    pub fn get_children(&self, branch: &str) -> (r: Vec<&str>)
        ensures
            str_views(r@) == children_of(self.dependencies@, branch@),
    {
        self.get_dependency_children(branch)
    }

    /// The parents of a branch (the branches it depends on).
    pub fn get_parents(&self, branch: &str) -> (r: Vec<&str>)
        ensures
            str_views(r@) == parents_of(self.dependencies@, branch@),
    {
        self.get_dependency_parents(branch)
    }

    /// All recorded dependencies.
    pub fn list_dependencies(&self) -> (r: &[BranchDependency])
        ensures
            r@ == self.dependencies@,
    {
        self.dependencies.as_slice()
    }

    /// Whether any dependency is recorded.
    pub fn has_user_defined_dependencies(&self) -> (b: bool)
        ensures
            b == (self.dependencies@.len() > 0),
    {
        self.dependencies.len() > 0
    }

    /// Marks `branch` as a root under this identifier and creation time.
    /// A branch that is already a root keeps its entry and becomes the only
    /// default if `is_default` asks for it; a new root is appended, and if
    /// it is the default, no other root stays one.
    pub fn add_root_at(&mut self, branch: String, is_default: bool, id: String, created_at: String) -> (r: Result<
        (),
        RepoStateError,
    >)
        ensures
            r is Ok,
            final(self).root_branches@ == roots_after_add(
                old(self).root_branches@,
                RootBranch { id, branch, is_default, created_at },
            ),
            roots_wf(old(self).root_branches@) ==> roots_wf(final(self).root_branches@),
            final(self).worktrees == old(self).worktrees,
            final(self).branches == old(self).branches,
            final(self).dependencies == old(self).dependencies,
    {
        let ghost before = self.root_branches@;
        let ghost added = RootBranch { id, branch, is_default, created_at };
        let mut i: usize = 0;
        while i < self.root_branches.len()
            invariant
                i <= self.root_branches.len(),
                before == self.root_branches@,
                before == old(self).root_branches@,
                forall|j: int| 0 <= j < i ==> self.root_branches@[j].branch@ != branch@,
                self.worktrees == old(self).worktrees,
                self.branches == old(self).branches,
                self.dependencies == old(self).dependencies,
            decreases self.root_branches.len() - i,
        {
            if str_eq(self.root_branches[i].branch.as_str(), branch.as_str()) {
                proof {
                    assert(first_root_for(before, branch@, i as int));
                    assert(is_root_spec(before, branch@));
                    let idx = choose|idx: int| first_root_for(before, branch@, idx);
                    lemma_first_root_unique(before, branch@, idx, i as int);
                }
                if is_default {
                    self.set_default_index(i);
                    proof {
                        assert(self.root_branches@ =~= default_at(before, i as int));
                        if roots_wf(before) {
                            assert forall|a: int, b: int| 0 <= a < b < self.root_branches@.len() implies !(
                            self.root_branches@[a].is_default && self.root_branches@[b].is_default) by {}
                        }
                    }
                }
                return Ok(());
            }
            i = i + 1;
        }
        proof {
            if is_root_spec(before, branch@) {
                let k = choose|k: int| 0 <= k < before.len() && before[k].branch@ == branch@;
                assert(self.root_branches@[k].branch@ != branch@);
            }
        }
        if is_default {
            self.set_default_index(self.root_branches.len());
            assert(self.root_branches@ =~= without_default(before));
        }
        let ghost mid = self.root_branches@;
        self.root_branches.push(RootBranch { id, branch, is_default, created_at });
        proof {
            if roots_wf(before) {
                assert forall|a: int, b: int| 0 <= a < b < self.root_branches@.len() implies self.root_branches@[a].branch@
                    != self.root_branches@[b].branch@ by {
                    if b == mid.len() {
                        assert(self.root_branches@[a].branch@ == before[a].branch@);
                    }
                }
            }
        }
        Ok(())
    }

    /// Makes the root at `idx` the only default (none, when `idx` is past
    /// the end).
    fn set_default_index(&mut self, idx: usize)
        ensures
            final(self).root_branches@ == default_at(old(self).root_branches@, idx as int),
            final(self).worktrees == old(self).worktrees,
            final(self).branches == old(self).branches,
            final(self).dependencies == old(self).dependencies,
    {
        let ghost before = self.root_branches@;
        let mut j: usize = 0;
        while j < self.root_branches.len()
            invariant
                j <= self.root_branches.len(),
                self.root_branches@.len() == before.len(),
                forall|k: int| 0 <= k < j ==> self.root_branches@[k] == default_at(before, idx as int)[k],
                forall|k: int| j <= k < before.len() ==> self.root_branches@[k] == before[k],
                self.worktrees == old(self).worktrees,
                self.branches == old(self).branches,
                self.dependencies == old(self).dependencies,
            decreases self.root_branches.len() - j,
        {
            let mut root = self.root_branches[j].duplicate();
            root.is_default = j == idx;
            self.root_branches.set(j, root);
            j = j + 1;
        }
        assert(self.root_branches@ =~= default_at(before, idx as int));
    }

    /// Marks `branch` as a root, under a fresh identifier and the current
    /// time, as `add_root_at` says.
    pub fn add_root(&mut self, branch: String, is_default: bool) -> (r: Result<(), RepoStateError>)
        ensures
            r is Ok,
            exists|id: String, created_at: String|
                is_record_id(id@) && is_utc_time(created_at@) && final(self).root_branches@ == roots_after_add(
                    old(self).root_branches@,
                    RootBranch { id, branch, is_default, created_at },
                ),
            roots_wf(old(self).root_branches@) ==> roots_wf(final(self).root_branches@),
            final(self).worktrees == old(self).worktrees,
            final(self).branches == old(self).branches,
            final(self).dependencies == old(self).dependencies,
    {
        let id = new_record_id();
        let created_at = current_time_rfc3339();
        let ghost gid = id;
        let ghost gcreated = created_at;
        let r = self.add_root_at(branch, is_default, id, created_at);
        assert(final_roots_witness(self.root_branches@, old(self).root_branches@, gid, branch, is_default, gcreated));
        r
    }

    /// Removes `branch` from the roots; says whether it was one.
    pub fn remove_root(&mut self, branch: &str) -> (removed: bool)
        ensures
            final(self).root_branches@ == old(self).root_branches@.filter(root_not_for(branch@)),
            removed == is_root_spec(old(self).root_branches@, branch@),
            roots_wf(old(self).root_branches@) ==> roots_wf(final(self).root_branches@),
            final(self).worktrees == old(self).worktrees,
            final(self).branches == old(self).branches,
            final(self).dependencies == old(self).dependencies,
    {
        let ghost before = self.root_branches@;
        let ghost keep = root_not_for(branch@);
        let mut kept: Vec<RootBranch> = Vec::new();
        let mut found = false;
        let mut i: usize = 0;
        while i < self.root_branches.len()
            invariant
                i <= self.root_branches.len(),
                before == self.root_branches@,
                keep == root_not_for(branch@),
                kept@ == before.take(i as int).filter(keep),
                found == exists|k: int| 0 <= k < i && before[k].branch@ == branch@,
            decreases self.root_branches.len() - i,
        {
            assert(before.take(i + 1).drop_last() =~= before.take(i as int));
            assert(before.take(i + 1).filter(keep) == if keep(before[i as int]) {
                before.take(i as int).filter(keep).push(before[i as int])
            } else {
                before.take(i as int).filter(keep)
            }) by {
                reveal(Seq::filter);
            }
            if str_eq(self.root_branches[i].branch.as_str(), branch) {
                found = true;
            } else {
                kept.push(self.root_branches[i].duplicate());
            }
            i = i + 1;
        }
        assert(before.take(before.len() as int) =~= before);
        self.root_branches = kept;
        proof {
            if roots_wf(before) {
                lemma_filter_keeps_roots_wf(before, branch@);
            }
        }
        found
    }

    /// Makes `branch` the default root: every root for it becomes a
    /// default, every other root stops being one. Refused when `branch` is
    /// not a root, in which case no root is left a default.
    pub fn set_default_root(&mut self, branch: &str) -> (r: Result<(), RepoStateError>)
        ensures
            final(self).root_branches@ == default_for(old(self).root_branches@, branch@),
            r is Ok <==> is_root_spec(old(self).root_branches@, branch@),
            r is Err ==> (r matches Err(RepoStateError::NotARoot(b)) && b@ == branch@),
            roots_wf(old(self).root_branches@) ==> roots_wf(final(self).root_branches@),
            final(self).worktrees == old(self).worktrees,
            final(self).branches == old(self).branches,
            final(self).dependencies == old(self).dependencies,
    {
        let ghost before = self.root_branches@;
        let mut found = false;
        let mut j: usize = 0;
        while j < self.root_branches.len()
            invariant
                j <= self.root_branches.len(),
                self.root_branches@.len() == before.len(),
                forall|k: int| 0 <= k < j ==> self.root_branches@[k] == default_for(before, branch@)[k],
                forall|k: int| j <= k < before.len() ==> self.root_branches@[k] == before[k],
                found == exists|k: int| 0 <= k < j && before[k].branch@ == branch@,
                self.worktrees == old(self).worktrees,
                self.branches == old(self).branches,
                self.dependencies == old(self).dependencies,
            decreases self.root_branches.len() - j,
        {
            let mut root = self.root_branches[j].duplicate();
            assert(root == before[j as int]);
            let hit = str_eq(root.branch.as_str(), branch);
            root.is_default = hit;
            if hit {
                found = true;
            }
            self.root_branches.set(j, root);
            j = j + 1;
        }
        assert(self.root_branches@ =~= default_for(before, branch@));
        proof {
            if roots_wf(before) {
                assert forall|a: int, b: int| 0 <= a < b < self.root_branches@.len() implies !(
                self.root_branches@[a].is_default && self.root_branches@[b].is_default) by {
                    assert(before[a].branch@ != before[b].branch@);
                }
            }
        }
        if !found {
            return Err(RepoStateError::NotARoot(branch.to_owned()));
        }
        Ok(())
    }

    /// The branch of the default root (the first one marked so).
    pub fn get_default_root(&self) -> (r: Option<&str>)
        ensures
            match default_root_spec(self.root_branches@) {
                Some(b) => r is Some && r->0@ == b,
                None => r is None,
            },
    {
        let ghost roots = self.root_branches@;
        assert(roots.subrange(0, roots.len() as int) =~= roots);
        let mut i: usize = 0;
        while i < self.root_branches.len()
            invariant
                i <= self.root_branches.len(),
                roots == self.root_branches@,
                default_root_spec(roots) == default_root_spec(roots.subrange(i as int, roots.len() as int)),
            decreases self.root_branches.len() - i,
        {
            let ghost rest = roots.subrange(i as int, roots.len() as int);
            assert(rest.drop_first() =~= roots.subrange(i + 1, roots.len() as int));
            if self.root_branches[i].is_default {
                return Some(self.root_branches[i].branch.as_str());
            }
            i = i + 1;
        }
        None
    }

    /// All roots, in the order they were added.
    pub fn list_roots(&self) -> (r: &[RootBranch])
        ensures
            r@ == self.root_branches@,
    {
        self.root_branches.as_slice()
    }

    /// Whether `branch` is marked as a root.
    pub fn is_root(&self, branch: &str) -> (b: bool)
        ensures
            b == is_root_spec(self.root_branches@, branch@),
    {
        let mut i: usize = 0;
        while i < self.root_branches.len()
            invariant
                i <= self.root_branches.len(),
                forall|j: int| 0 <= j < i ==> self.root_branches@[j].branch@ != branch@,
            decreases self.root_branches.len() - i,
        {
            if str_eq(self.root_branches[i].branch.as_str(), branch) {
                return true;
            }
            i = i + 1;
        }
        false
    }

    /// The names of all root branches, in order.
    pub fn get_root_branches(&self) -> (r: Vec<String>)
        ensures
            crate::tree_renderer::string_views(r@) == root_names(self.root_branches@),
    {
        let mut r: Vec<String> = Vec::new();
        let mut i: usize = 0;
        while i < self.root_branches.len()
            invariant
                i <= self.root_branches.len(),
                r@.len() == i,
                forall|k: int| 0 <= k < i ==> r@[k]@ == self.root_branches@[k].branch@,
            decreases self.root_branches.len() - i,
        {
            r.push(self.root_branches[i].branch.clone());
            i = i + 1;
        }
        assert(crate::tree_renderer::string_views(r@) =~= root_names(self.root_branches@));
        r
    }

    /// All branch records.
    pub fn list_branch_issues(&self) -> (r: Vec<&BranchMetadata>)
        ensures
            r@.len() == self.branches@.len(),
            forall|i: int| 0 <= i < r@.len() ==> *r@[i] == self.branches@[i],
    {
        let mut r: Vec<&BranchMetadata> = Vec::new();
        let mut i: usize = 0;
        while i < self.branches.len()
            invariant
                i <= self.branches.len(),
                r@.len() == i,
                forall|k: int| 0 <= k < i ==> *r@[k] == self.branches@[k],
            decreases self.branches.len() - i,
        {
            r.push(&self.branches[i]);
            i = i + 1;
        }
        r
    }
}

} // verus!

//! Builds the branch tree from the dependencies and roots the user
//! declared, rather than from Git history.
use vstd::prelude::*;

use crate::lex::{lex_le, string_le};
use crate::repo_state::{branch_record, default_root_spec, root_names, BranchDependency, RepoState, RootBranch};
use crate::state::BranchMetadata;
use crate::strs::str_eq;
use crate::tree::{opt_text, sort_strings, sorted_seq};
use crate::tree_renderer::{contains_string, string_views, BranchNode};

verus! {

/// Some node is named `name`.
pub open spec fn node_named(nodes: Seq<BranchNode>, name: Seq<char>) -> bool {
    exists|i: int| 0 <= i < nodes.len() && nodes[i].name@ == name
}

/// A dependency between two of the branches.
pub open spec fn among(nodes: Seq<BranchNode>, d: BranchDependency) -> bool {
    node_named(nodes, d.child@) && node_named(nodes, d.parent@)
}

/// `existing` extended by each name of `add` it does not hold yet.
pub open spec fn append_new(existing: Seq<Seq<char>>, add: Seq<Seq<char>>) -> Seq<Seq<char>>
    decreases add.len(),
{
    if add.len() == 0 {
        existing
    } else {
        let acc = append_new(existing, add.drop_last());
        if acc.contains(add.last()) {
            acc
        } else {
            acc.push(add.last())
        }
    }
}

/// The parents the dependencies give `child`, in the order recorded.
pub open spec fn declared_parents(nodes: Seq<BranchNode>, deps: Seq<BranchDependency>, child: Seq<char>) -> Seq<Seq<char>>
    decreases deps.len(),
{
    if deps.len() == 0 {
        seq![]
    } else {
        let rest = declared_parents(nodes, deps.drop_last(), child);
        if among(nodes, deps.last()) && deps.last().child@ == child {
            rest.push(deps.last().parent@)
        } else {
            rest
        }
    }
}

/// The children the dependencies give `parent`, in the order recorded.
pub open spec fn declared_children(nodes: Seq<BranchNode>, deps: Seq<BranchDependency>, parent: Seq<char>) -> Seq<
    Seq<char>,
>
    decreases deps.len(),
{
    if deps.len() == 0 {
        seq![]
    } else {
        let rest = declared_children(nodes, deps.drop_last(), parent);
        if among(nodes, deps.last()) && deps.last().parent@ == parent {
            rest.push(deps.last().child@)
        } else {
            rest
        }
    }
}

/// `new` is `old` with the declared dependencies recorded.
pub open spec fn linked(new: BranchNode, old: BranchNode, nodes: Seq<BranchNode>, deps: Seq<BranchDependency>) -> bool {
    &&& new.name == old.name
    &&& new.is_current == old.is_current
    &&& new.metadata == old.metadata
    &&& new.commit_info == old.commit_info
    &&& string_views(new.parents@) == append_new(string_views(old.parents@), declared_parents(nodes, deps, old.name@))
    &&& string_views(new.children@) == append_new(
        string_views(old.children@),
        declared_children(nodes, deps, old.name@),
    )
}

/// The branches hung below the default root: those without parents that
/// are neither a root nor the default root, in order.
pub open spec fn unrooted(nodes: Seq<BranchNode>, roots: Seq<RootBranch>, default_root: Seq<char>) -> Seq<Seq<char>>
    decreases nodes.len(),
{
    if nodes.len() == 0 {
        seq![]
    } else {
        let rest = unrooted(nodes.drop_last(), roots, default_root);
        let n = nodes.last();
        if n.parents@.len() == 0 && !root_names(roots).contains(n.name@) && n.name@ != default_root {
            rest.push(n.name@)
        } else {
            rest
        }
    }
}

/// `new` is the orphan `old` hung below `root`.
pub open spec fn hung_below(new: BranchNode, old: BranchNode, root: Seq<char>) -> bool {
    &&& new.name == old.name
    &&& new.is_current == old.is_current
    &&& new.metadata == old.metadata
    &&& new.commit_info == old.commit_info
    &&& new.children@ == old.children@
    &&& string_views(new.parents@) == append_new(string_views(old.parents@), seq![root])
}

/// `new` is the root `old` with the orphans among its children.
pub open spec fn adopting_root(new: BranchNode, old: BranchNode, orphans: Seq<Seq<char>>) -> bool {
    &&& new.name == old.name
    &&& new.is_current == old.is_current
    &&& new.metadata == old.metadata
    &&& new.commit_info == old.commit_info
    &&& new.parents@ == old.parents@
    &&& string_views(new.children@) == append_new(string_views(old.children@), orphans)
}

/// The nodes once the orphans hang below the default root (when that is
/// one of the branches and there are orphans).
pub open spec fn orphans_hung(new: Seq<BranchNode>, old: Seq<BranchNode>, roots: Seq<RootBranch>) -> bool {
    match default_root_spec(roots) {
        None => new == old,
        Some(d) => if !node_named(old, d) || unrooted(old, roots, d).len() == 0 {
            new == old
        } else {
            let orphans = unrooted(old, roots, d);
            &&& new.len() == old.len()
            &&& forall|i: int|
                0 <= i < old.len() ==> if orphans.contains(old[i].name@) {
                    hung_below(#[trigger] new[i], old[i], d)
                } else if old[i].name@ == d {
                    adopting_root(new[i], old[i], orphans)
                } else {
                    new[i] == old[i]
                }
        },
    }
}

/// The user roots that are branches, in the order configured.
pub open spec fn present_roots(nodes: Seq<BranchNode>, user: Seq<Seq<char>>) -> Seq<Seq<char>>
    decreases user.len(),
{
    if user.len() == 0 {
        seq![]
    } else if node_named(nodes, user.last()) {
        present_roots(nodes, user.drop_last()).push(user.last())
    } else {
        present_roots(nodes, user.drop_last())
    }
}

/// The branches without parents: those that are no user root (orphans),
/// and, when there are no user roots, the others as implicit roots.
pub open spec fn parentless(nodes: Seq<BranchNode>, user: Seq<Seq<char>>) -> (Seq<Seq<char>>, Seq<Seq<char>>)
    decreases nodes.len(),
{
    if nodes.len() == 0 {
        (seq![], seq![])
    } else {
        let rest = parentless(nodes.drop_last(), user);
        let n = nodes.last();
        if n.parents@.len() == 0 && !user.contains(n.name@) {
            (rest.0, rest.1.push(n.name@))
        } else if n.parents@.len() == 0 && user.len() == 0 {
            (rest.0.push(n.name@), rest.1)
        } else {
            rest
        }
    }
}

/// The names of the nodes.
pub open spec fn all_names(nodes: Seq<BranchNode>) -> Seq<Seq<char>> {
    nodes.map_values(|n: BranchNode| n.name@)
}

/// The tree's roots and its orphaned branches, each sorted.
pub open spec fn tree_roots_spec(nodes: Seq<BranchNode>, roots: Seq<RootBranch>) -> (Seq<Seq<char>>, Seq<Seq<char>>) {
    let user = root_names(roots);
    let split = parentless(nodes, user);
    let rs = present_roots(nodes, user) + split.0;
    let os = if rs.len() == 0 && split.1.len() == 0 {
        all_names(nodes)
    } else {
        split.1
    };
    (sorted_seq(rs), sorted_seq(os))
}

/// The first current branch.
pub open spec fn first_current(nodes: Seq<BranchNode>) -> Option<Seq<char>>
    decreases nodes.len(),
{
    if nodes.len() == 0 {
        None
    } else if nodes[0].is_current {
        Some(nodes[0].name@)
    } else {
        first_current(nodes.drop_first())
    }
}

/// The default root: the configured one when it is a branch, else the
/// first of `main`, `master`, `develop`, `dev` that is one, else the
/// current branch, else the first branch in string order.
pub open spec fn suggested_root(nodes: Seq<BranchNode>, roots: Seq<RootBranch>) -> Option<Seq<char>> {
    if default_root_spec(roots) is Some && node_named(nodes, default_root_spec(roots)->0) {
        default_root_spec(roots)
    } else if node_named(nodes, "main"@) {
        Some("main"@)
    } else if node_named(nodes, "master"@) {
        Some("master"@)
    } else if node_named(nodes, "develop"@) {
        Some("develop"@)
    } else if node_named(nodes, "dev"@) {
        Some("dev"@)
    } else if first_current(nodes) is Some {
        first_current(nodes)
    } else if nodes.len() > 0 {
        Some(sorted_seq(all_names(nodes))[0])
    } else {
        None
    }
}

/// `nodes` are the local branches as first found: each with its record,
/// and with no links yet.
pub open spec fn fresh_nodes(nodes: Seq<BranchNode>, branches: Seq<(String, bool)>, records: Seq<BranchMetadata>) -> bool {
    &&& nodes.len() == branches.len()
    &&& forall|i: int|
        0 <= i < nodes.len() ==> {
            let n = #[trigger] nodes[i];
            &&& n.name@ == branches[i].0@
            &&& n.is_current == branches[i].1
            &&& n.metadata == branch_record(records, branches[i].0@)
            &&& n.parents@.len() == 0
            &&& n.children@.len() == 0
            &&& n.commit_info is None
        }
}

/// `new` is `old` with the declared dependencies recorded on each node.
pub open spec fn deps_linked(new: Seq<BranchNode>, old: Seq<BranchNode>, deps: Seq<BranchDependency>) -> bool {
    &&& new.len() == old.len()
    &&& forall|i: int| 0 <= i < old.len() ==> linked(#[trigger] new[i], old[i], old, deps)
}

/// The user-defined dependency resolver for the tree command.
pub struct UserDefinedDependencyResolver;

/// Whether some node is named `name`.
fn has_named(nodes: &Vec<BranchNode>, name: &str) -> (b: bool)
    ensures
        b == node_named(nodes@, name@),
{
    let mut i: usize = 0;
    while i < nodes.len()
        invariant
            i <= nodes.len(),
            forall|j: int| 0 <= j < i ==> nodes@[j].name@ != name@,
        decreases nodes.len() - i,
    {
        if str_eq(nodes[i].name.as_str(), name) {
            return true;
        }
        i = i + 1;
    }
    false
}

/// A copy of an optional branch record.
fn copy_record(m: Option<&BranchMetadata>) -> (r: Option<BranchMetadata>)
    ensures
        match m {
            Some(x) => r == Some(*x),
            None => r is None,
        },
{
    match m {
        Some(x) => Some(x.duplicate()),
        None => None,
    }
}

impl UserDefinedDependencyResolver {
    /// The nodes of the local branches (name, and whether it is checked
    /// out), each with the branch's record, linked by the declared
    /// dependencies and with the orphans hung below the default root.
    pub fn resolve_user_dependencies(&self, branches: &Vec<(String, bool)>, repo_state: &RepoState) -> (r: Vec<
        BranchNode,
    >)
        ensures
            r@.len() == branches@.len(),
            forall|i: int| 0 <= i < r@.len() ==> (#[trigger] r@[i]).name@ == branches@[i].0@,
            exists|fresh: Seq<BranchNode>, built: Seq<BranchNode>|
                fresh_nodes(fresh, branches@, repo_state.branches@) && deps_linked(
                    built,
                    fresh,
                    repo_state.dependencies@,
                ) && orphans_hung(r@, built, repo_state.root_branches@),
    {
        let mut nodes: Vec<BranchNode> = Vec::new();
        let mut i: usize = 0;
        while i < branches.len()
            invariant
                i <= branches.len(),
                nodes@.len() == i,
                forall|k: int| 0 <= k < i ==> (#[trigger] nodes@[k]).name@ == branches@[k].0@,
                fresh_nodes(nodes@, branches@.take(i as int), repo_state.branches@),
            decreases branches.len() - i,
        {
            let (name, is_current) = (&branches[i].0, branches[i].1);
            nodes.push(
                BranchNode {
                    name: name.clone(),
                    is_current,
                    metadata: copy_record(repo_state.get_branch_issue_by_branch(name.as_str())),
                    parents: Vec::new(),
                    children: Vec::new(),
                    commit_info: None,
                },
            );
            i = i + 1;
        }
        let ghost n0 = nodes@;
        self.build_dependencies_from_state(&mut nodes, repo_state);
        let ghost n1 = nodes@;
        self.attach_orphans_to_default_root(&mut nodes, repo_state);
        proof {
            assert forall|k: int| 0 <= k < nodes@.len() implies (#[trigger] nodes@[k]).name@ == branches@[k].0@ by {
                assert(linked(n1[k], n0[k], n0, repo_state.dependencies@));
            }
            assert(branches@.take(branches@.len() as int) =~= branches@);
            assert(fresh_nodes(n0, branches@, repo_state.branches@));
            assert(deps_linked(n1, n0, repo_state.dependencies@));
        }
        nodes
    }

    /// Records the declared dependencies between the branches: each child
    /// gets its parents and each parent its children, once each.
    pub fn build_dependencies_from_state(&self, branch_nodes: &mut Vec<BranchNode>, repo_state: &RepoState)
        ensures
            final(branch_nodes)@.len() == old(branch_nodes)@.len(),
            forall|i: int|
                0 <= i < old(branch_nodes)@.len() ==> linked(
                    #[trigger] final(branch_nodes)@[i],
                    old(branch_nodes)@[i],
                    old(branch_nodes)@,
                    repo_state.dependencies@,
                ),
    {
        let ghost ns = branch_nodes@;
        let ghost deps = repo_state.dependencies@;
        let mut j: usize = 0;
        while j < branch_nodes.len()
            invariant
                j <= branch_nodes.len(),
                branch_nodes@.len() == ns.len(),
                deps == repo_state.dependencies@,
                forall|k: int| 0 <= k < j ==> linked(#[trigger] branch_nodes@[k], ns[k], ns, deps),
                forall|k: int| j <= k < ns.len() ==> branch_nodes@[k] == ns[k],
                forall|k: int| 0 <= k < ns.len() ==> (#[trigger] branch_nodes@[k]).name@ == ns[k].name@,
            decreases branch_nodes.len() - j,
        {
            let ghost old_node = ns[j as int];
            let mut node = branch_nodes[j].clone_node();
            let mut d: usize = 0;
            while d < repo_state.dependencies.len()
                invariant
                    d <= repo_state.dependencies.len(),
                    deps == repo_state.dependencies@,
                    branch_nodes@.len() == ns.len(),
                    forall|k: int| j <= k < ns.len() ==> branch_nodes@[k] == ns[k],
                    forall|k: int| 0 <= k < ns.len() ==> (#[trigger] branch_nodes@[k]).name@ == ns[k].name@,
                    forall|k: int| 0 <= k < j ==> linked(#[trigger] branch_nodes@[k], ns[k], ns, deps),
                    j < ns.len(),
                    node.name == old_node.name,
                    node.is_current == old_node.is_current,
                    node.metadata == old_node.metadata,
                    node.commit_info == old_node.commit_info,
                    string_views(node.parents@) == append_new(
                        string_views(old_node.parents@),
                        declared_parents(ns, deps.take(d as int), old_node.name@),
                    ),
                    string_views(node.children@) == append_new(
                        string_views(old_node.children@),
                        declared_children(ns, deps.take(d as int), old_node.name@),
                    ),
                decreases repo_state.dependencies.len() - d,
            {
                assert(deps.take(d + 1).drop_last() =~= deps.take(d as int));
                assert(deps.take(d + 1).last() == deps[d as int]);
                let dep = &repo_state.dependencies[d];
                proof {
                    let pr = declared_parents(ns, deps.take(d as int), old_node.name@);
                    let ch = declared_children(ns, deps.take(d as int), old_node.name@);
                    assert(pr.push(dep.parent@).drop_last() =~= pr);
                    assert(ch.push(dep.child@).drop_last() =~= ch);
                }
                let both = self.both_present(branch_nodes, dep, Ghost(ns), Ghost(j as int));
                if both {
                    if str_eq(dep.child.as_str(), node.name.as_str()) {
                        if !contains_string(&node.parents, &dep.parent) {
                            let ghost before = node.parents@;
                            node.parents.push(dep.parent.clone());
                            assert(string_views(node.parents@) =~= string_views(before).push(dep.parent@));
                        }
                    }
                    if str_eq(dep.parent.as_str(), node.name.as_str()) {
                        if !contains_string(&node.children, &dep.child) {
                            let ghost before = node.children@;
                            node.children.push(dep.child.clone());
                            assert(string_views(node.children@) =~= string_views(before).push(dep.child@));
                        }
                    }
                }
                assert(string_views(node.parents@) == append_new(
                    string_views(old_node.parents@),
                    declared_parents(ns, deps.take(d + 1), old_node.name@),
                ));
                assert(string_views(node.children@) == append_new(
                    string_views(old_node.children@),
                    declared_children(ns, deps.take(d + 1), old_node.name@),
                ));
                d = d + 1;
            }
            assert(deps.take(deps.len() as int) =~= deps);
            branch_nodes.set(j, node);
            j = j + 1;
        }
    }

    /// Hangs the orphaned branches below the default root: each takes the
    /// root as its parent and the root takes each as a child (see
    /// `orphans_hung`).
    pub fn attach_orphans_to_default_root(&self, branch_nodes: &mut Vec<BranchNode>, repo_state: &RepoState)
        ensures
            orphans_hung(final(branch_nodes)@, old(branch_nodes)@, repo_state.root_branches@),
    {
        let ghost ns = branch_nodes@;
        let default_root = match repo_state.get_default_root() {
            Some(d) => d,
            None => {
                return;
            },
        };
        if !has_named(branch_nodes, default_root) {
            return;
        }
        let root_list = repo_state.get_root_branches();
        let ghost roots = repo_state.root_branches@;
        let mut orphans: Vec<String> = Vec::new();
        let mut i: usize = 0;
        while i < branch_nodes.len()
            invariant
                i <= branch_nodes.len(),
                ns == branch_nodes@,
                string_views(root_list@) == root_names(roots),
                roots == repo_state.root_branches@,
                string_views(orphans@) == unrooted(ns.take(i as int), roots, default_root@),
            decreases branch_nodes.len() - i,
        {
            assert(ns.take(i + 1).drop_last() =~= ns.take(i as int));
            let n = &branch_nodes[i];
            if n.parents.len() == 0 && !contains_string(&root_list, &n.name) && !str_eq(n.name.as_str(), default_root) {
                let ghost before = orphans@;
                orphans.push(n.name.clone());
                assert(string_views(orphans@) =~= string_views(before).push(ns[i as int].name@));
            }
            i = i + 1;
        }
        assert(ns.take(ns.len() as int) =~= ns);
        if orphans.len() == 0 {
            return;
        }
        let ghost ov = string_views(orphans@);
        let mut j: usize = 0;
        while j < branch_nodes.len()
            invariant
                j <= branch_nodes.len(),
                branch_nodes@.len() == ns.len(),
                ov == string_views(orphans@),
                ov == unrooted(ns, roots, default_root@),
                forall|k: int| j <= k < ns.len() ==> branch_nodes@[k] == ns[k],
                forall|k: int|
                    0 <= k < j ==> if ov.contains(ns[k].name@) {
                        hung_below(#[trigger] branch_nodes@[k], ns[k], default_root@)
                    } else if ns[k].name@ == default_root@ {
                        adopting_root(branch_nodes@[k], ns[k], ov)
                    } else {
                        branch_nodes@[k] == ns[k]
                    },
            decreases branch_nodes.len() - j,
        {
            let mut node = branch_nodes[j].clone_node();
            if contains_string(&orphans, &node.name) {
                let root_name = default_root.to_owned();
                proof {
                    lemma_append_new_one(string_views(node.parents@), default_root@);
                }
                if !contains_string(&node.parents, &root_name) {
                    let ghost before = node.parents@;
                    node.parents.push(root_name);
                    assert(string_views(node.parents@) =~= string_views(before).push(default_root@));
                }
                branch_nodes.set(j, node);
            } else if str_eq(node.name.as_str(), default_root) {
                let ghost start = string_views(node.children@);
                let mut k: usize = 0;
                while k < orphans.len()
                    invariant
                        k <= orphans.len(),
                        ov == string_views(orphans@),
                        string_views(node.children@) == append_new(start, ov.take(k as int)),
                        node.name == ns[j as int].name,
                        node.is_current == ns[j as int].is_current,
                        node.metadata == ns[j as int].metadata,
                        node.commit_info == ns[j as int].commit_info,
                        node.parents@ == ns[j as int].parents@,
                        j < ns.len(),
                        start == string_views(ns[j as int].children@),
                    decreases orphans.len() - k,
                {
                    assert(ov.take(k + 1).drop_last() =~= ov.take(k as int));
                    assert(ov.take(k + 1).last() == orphans@[k as int]@);
                    if !contains_string(&node.children, &orphans[k]) {
                        let ghost before = node.children@;
                        node.children.push(orphans[k].clone());
                        assert(string_views(node.children@) =~= string_views(before).push(orphans@[k as int]@));
                    }
                    k = k + 1;
                }
                assert(ov.take(orphans.len() as int) =~= ov);
                branch_nodes.set(j, node);
            }
            j = j + 1;
        }
    }

    /// The tree's roots and orphaned branches (see `tree_roots_spec`).
    pub fn build_tree_from_user_dependencies(&self, branch_nodes: &Vec<BranchNode>, repo_state: &RepoState) -> (r: (
        Vec<String>,
        Vec<String>,
    ))
        ensures
            string_views(r.0@) == tree_roots_spec(branch_nodes@, repo_state.root_branches@).0,
            string_views(r.1@) == tree_roots_spec(branch_nodes@, repo_state.root_branches@).1,
    {
        let ghost ns = branch_nodes@;
        let user = repo_state.get_root_branches();
        let ghost uv = string_views(user@);
        let mut roots: Vec<String> = Vec::new();
        let mut i: usize = 0;
        while i < user.len()
            invariant
                i <= user.len(),
                uv == string_views(user@),
                ns == branch_nodes@,
                string_views(roots@) == present_roots(ns, uv.take(i as int)),
            decreases user.len() - i,
        {
            assert(uv.take(i + 1).drop_last() =~= uv.take(i as int));
            assert(uv.take(i + 1).last() == user@[i as int]@);
            if has_named(branch_nodes, user[i].as_str()) {
                let ghost before = roots@;
                roots.push(user[i].clone());
                assert(string_views(roots@) =~= string_views(before).push(user@[i as int]@));
            }
            i = i + 1;
        }
        assert(uv.take(user.len() as int) =~= uv);
        let ghost r0 = string_views(roots@);
        let mut implicit: Vec<String> = Vec::new();
        let mut orphaned: Vec<String> = Vec::new();
        let mut k: usize = 0;
        while k < branch_nodes.len()
            invariant
                k <= branch_nodes.len(),
                ns == branch_nodes@,
                uv == string_views(user@),
                string_views(implicit@) == parentless(ns.take(k as int), uv).0,
                string_views(orphaned@) == parentless(ns.take(k as int), uv).1,
            decreases branch_nodes.len() - k,
        {
            assert(ns.take(k + 1).drop_last() =~= ns.take(k as int));
            let n = &branch_nodes[k];
            let is_user_root = contains_string(&user, &n.name);
            let has_parents = n.parents.len() > 0;
            if !has_parents && !is_user_root {
                let ghost before = orphaned@;
                orphaned.push(n.name.clone());
                assert(string_views(orphaned@) =~= string_views(before).push(ns[k as int].name@));
            } else if !has_parents && user.len() == 0 {
                let ghost before = implicit@;
                implicit.push(n.name.clone());
                assert(string_views(implicit@) =~= string_views(before).push(ns[k as int].name@));
            }
            k = k + 1;
        }
        assert(ns.take(ns.len() as int) =~= ns);
        let ghost before = roots@;
        roots.append(&mut implicit);
        assert(string_views(roots@) =~= r0 + parentless(ns, uv).0);
        if roots.len() == 0 && orphaned.len() == 0 {
            let mut m: usize = 0;
            while m < branch_nodes.len()
                invariant
                    m <= branch_nodes.len(),
                    ns == branch_nodes@,
                    string_views(orphaned@) == all_names(ns).take(m as int),
                decreases branch_nodes.len() - m,
            {
                let ghost b2 = orphaned@;
                orphaned.push(branch_nodes[m].name.clone());
                assert(string_views(orphaned@) =~= string_views(b2).push(ns[m as int].name@));
                m = m + 1;
                assert(all_names(ns).take(m as int) =~= all_names(ns).take(m - 1).push(ns[m - 1].name@));
            }
            assert(all_names(ns).take(ns.len() as int) =~= all_names(ns));
        }
        (sort_strings(roots), sort_strings(orphaned))
    }

    /// Dependency integrity issues; none are looked for beyond what the
    /// repository state already refuses (cycles), so the list is empty.
    pub fn validate_user_dependency_integrity(&self, repo_state: &RepoState) -> (r: Vec<String>)
        ensures
            r@.len() == 0,
    {
        Vec::new()
    }

    /// The default root, or a suggestion (see `suggested_root`).
    pub fn get_or_suggest_default_root(&self, repo_state: &RepoState, branch_nodes: &Vec<BranchNode>) -> (r: Option<
        String,
    >)
        ensures
            opt_text(r) == suggested_root(branch_nodes@, repo_state.root_branches@),
    {
        match repo_state.get_default_root() {
            Some(d) => {
                if has_named(branch_nodes, d) {
                    return Some(d.to_owned());
                }
            },
            None => {},
        }
        proof {
            reveal_strlit("main");
        }
        if has_named(branch_nodes, "main") {
            return Some("main".to_owned());
        }
        if has_named(branch_nodes, "master") {
            return Some("master".to_owned());
        }
        if has_named(branch_nodes, "develop") {
            return Some("develop".to_owned());
        }
        if has_named(branch_nodes, "dev") {
            return Some("dev".to_owned());
        }
        let ghost ns = branch_nodes@;
        let ghost rs = repo_state.root_branches@;
        assert(suggested_root(ns, rs) == if first_current(ns) is Some {
            first_current(ns)
        } else if ns.len() > 0 {
            Some(sorted_seq(all_names(ns))[0])
        } else {
            None
        });
        let mut i: usize = 0;
        assert(ns.subrange(0, ns.len() as int) =~= ns);
        while i < branch_nodes.len()
            invariant
                i <= branch_nodes.len(),
                ns == branch_nodes@,
                rs == repo_state.root_branches@,
                suggested_root(ns, rs) == if first_current(ns) is Some {
                    first_current(ns)
                } else if ns.len() > 0 {
                    Some(sorted_seq(all_names(ns))[0])
                } else {
                    None
                },
                first_current(ns) == first_current(ns.subrange(i as int, ns.len() as int)),
            decreases branch_nodes.len() - i,
        {
            assert(ns.subrange(i as int, ns.len() as int).drop_first() =~= ns.subrange(i + 1, ns.len() as int));
            if branch_nodes[i].is_current {
                return Some(branch_nodes[i].name.clone());
            }
            i = i + 1;
        }
        if branch_nodes.len() == 0 {
            return None;
        }
        let mut names: Vec<String> = Vec::new();
        let mut m: usize = 0;
        while m < branch_nodes.len()
            invariant
                m <= branch_nodes.len(),
                ns == branch_nodes@,
                string_views(names@) == all_names(ns).take(m as int),
            decreases branch_nodes.len() - m,
        {
            let ghost b2 = names@;
            names.push(branch_nodes[m].name.clone());
            assert(string_views(names@) =~= string_views(b2).push(ns[m as int].name@));
            m = m + 1;
            assert(all_names(ns).take(m as int) =~= all_names(ns).take(m - 1).push(ns[m - 1].name@));
        }
        assert(all_names(ns).take(ns.len() as int) =~= all_names(ns));
        let sorted = sort_strings(names);
        proof {
            lemma_sorted_len(all_names(ns));
        }
        Some(sorted[0].clone())
    }

    /// Whether both ends of a dependency are among the original branches
    /// (the nodes before `j` keep their names).
    fn both_present(&self, nodes: &Vec<BranchNode>, dep: &BranchDependency, ns: Ghost<Seq<BranchNode>>, j: Ghost<int>) -> (b:
        bool)
        requires
            nodes@.len() == ns@.len(),
            0 <= j@ < ns@.len(),
            forall|k: int| 0 <= k < ns@.len() ==> (#[trigger] nodes@[k]).name@ == ns@[k].name@,
        ensures
            b == among(ns@, *dep),
    {
        let c = has_named(nodes, dep.child.as_str());
        let p = has_named(nodes, dep.parent.as_str());
        proof {
            if node_named(nodes@, dep.child@) {
                let i = choose|i: int| 0 <= i < nodes@.len() && nodes@[i].name@ == dep.child@;
                assert(ns@[i].name@ == dep.child@);
            }
            if node_named(ns@, dep.child@) {
                let i = choose|i: int| 0 <= i < ns@.len() && ns@[i].name@ == dep.child@;
                assert(nodes@[i].name@ == dep.child@);
            }
            if node_named(nodes@, dep.parent@) {
                let i = choose|i: int| 0 <= i < nodes@.len() && nodes@[i].name@ == dep.parent@;
                assert(ns@[i].name@ == dep.parent@);
            }
            if node_named(ns@, dep.parent@) {
                let i = choose|i: int| 0 <= i < ns@.len() && ns@[i].name@ == dep.parent@;
                assert(nodes@[i].name@ == dep.parent@);
            }
        }
        c && p
    }
}

/// Appending one name adds it unless it is there.
proof fn lemma_append_new_one(existing: Seq<Seq<char>>, x: Seq<char>)
    ensures
        append_new(existing, seq![x]) == if existing.contains(x) {
            existing
        } else {
            existing.push(x)
        },
{
    assert(seq![x].drop_last() =~= Seq::<Seq<char>>::empty());
    assert(append_new(existing, Seq::<Seq<char>>::empty()) == existing);
}

/// Sorting keeps the length.
proof fn lemma_sorted_len(s: Seq<Seq<char>>)
    ensures
        sorted_seq(s).len() == s.len(),
    decreases s.len(),
{
    if s.len() > 0 {
        lemma_sorted_len(s.drop_last());
        lemma_insert_sorted_len(sorted_seq(s.drop_last()), s.last());
    }
}

proof fn lemma_insert_sorted_len(s: Seq<Seq<char>>, x: Seq<char>)
    ensures
        crate::tree::insert_sorted(s, x).len() == s.len() + 1,
    decreases s.len(),
{
    if s.len() > 0 && !lex_le(s.last(), x) {
        lemma_insert_sorted_len(s.drop_last(), x);
    }
}

/// Sorting keeps exactly the names it was given.
pub proof fn lemma_sorted_seq_contains(s: Seq<Seq<char>>, y: Seq<char>)
    ensures
        sorted_seq(s).contains(y) <==> s.contains(y),
    decreases s.len(),
{
    if s.len() > 0 {
        lemma_sorted_seq_contains(s.drop_last(), y);
        lemma_insert_sorted_contains(sorted_seq(s.drop_last()), s.last(), y);
        if s.drop_last().contains(y) {
            let k = choose|k: int| 0 <= k < s.drop_last().len() && s.drop_last()[k] == y;
            assert(s[k] == y);
        }
        if s.contains(y) {
            let k = choose|k: int| 0 <= k < s.len() && s[k] == y;
            if k < s.len() - 1 {
                assert(s.drop_last()[k] == y);
            }
        }
    }
}

proof fn lemma_insert_sorted_contains(s: Seq<Seq<char>>, x: Seq<char>, y: Seq<char>)
    ensures
        crate::tree::insert_sorted(s, x).contains(y) <==> (s.contains(y) || y == x),
    decreases s.len(),
{
    let r = crate::tree::insert_sorted(s, x);
    if s.len() == 0 {
        assert(r =~= seq![x]);
        if y == x {
            assert(r[0] == y);
        }
        if r.contains(y) {
            let k = choose|k: int| 0 <= k < r.len() && r[k] == y;
            assert(k == 0);
        }
    } else if lex_le(s.last(), x) {
        assert(r =~= s.push(x));
        if s.contains(y) {
            let k = choose|k: int| 0 <= k < s.len() && s[k] == y;
            assert(r[k] == y);
        }
        if y == x {
            assert(r[s.len() as int] == y);
        }
        if r.contains(y) {
            let k = choose|k: int| 0 <= k < r.len() && r[k] == y;
            if k < s.len() {
                assert(s[k] == y);
            }
        }
    } else {
        lemma_insert_sorted_contains(s.drop_last(), x, y);
        let t = crate::tree::insert_sorted(s.drop_last(), x);
        assert(r =~= t.push(s.last()));
        if r.contains(y) {
            let k = choose|k: int| 0 <= k < r.len() && r[k] == y;
            if k < t.len() {
                assert(t[k] == y);
                if s.drop_last().contains(y) {
                    let m = choose|m: int| 0 <= m < s.drop_last().len() && s.drop_last()[m] == y;
                    assert(s[m] == y);
                }
            } else {
                assert(s[s.len() - 1] == y);
            }
        }
        if s.contains(y) {
            let k = choose|k: int| 0 <= k < s.len() && s[k] == y;
            if k < s.len() - 1 {
                assert(s.drop_last()[k] == y);
                assert(t.contains(y));
                let m = choose|m: int| 0 <= m < t.len() && t[m] == y;
                assert(r[m] == y);
            } else {
                assert(r[r.len() - 1] == y);
            }
        }
        if y == x {
            assert(t.contains(y));
            let m = choose|m: int| 0 <= m < t.len() && t[m] == y;
            assert(r[m] == y);
        }
    }
}

/// A branch without parents that is no user root is among the orphans that
/// `parentless` collects.
proof fn lemma_parentless_orphan(nodes: Seq<BranchNode>, user: Seq<Seq<char>>, i: int)
    requires
        0 <= i < nodes.len(),
        nodes[i].parents@.len() == 0,
        !user.contains(nodes[i].name@),
    ensures
        parentless(nodes, user).1.contains(nodes[i].name@),
    decreases nodes.len(),
{
    let rest = parentless(nodes.drop_last(), user);
    let r = parentless(nodes, user);
    if i == nodes.len() - 1 {
        assert(r.1 == rest.1.push(nodes[i].name@));
        assert(r.1[rest.1.len() as int] == nodes[i].name@);
    } else {
        assert(nodes.drop_last()[i] == nodes[i]);
        lemma_parentless_orphan(nodes.drop_last(), user, i);
        let k = choose|k: int| 0 <= k < rest.1.len() && rest.1[k] == nodes[i].name@;
        let n = nodes.last();
        if n.parents@.len() == 0 && !user.contains(n.name@) {
            assert(r.1[k] == nodes[i].name@);
        } else {
            assert(r.1 == rest.1);
        }
    }
}

/// A user root that names a branch is among the present roots.
proof fn lemma_present_root(nodes: Seq<BranchNode>, user: Seq<Seq<char>>, x: Seq<char>)
    requires
        user.contains(x),
        node_named(nodes, x),
    ensures
        present_roots(nodes, user).contains(x),
    decreases user.len(),
{
    let rest = present_roots(nodes, user.drop_last());
    let r = present_roots(nodes, user);
    if user.last() == x {
        assert(r == rest.push(x));
        assert(r[rest.len() as int] == x);
    } else {
        let k = choose|k: int| 0 <= k < user.len() && user[k] == x;
        assert(user.drop_last()[k] == x);
        lemma_present_root(nodes, user.drop_last(), x);
        let m = choose|m: int| 0 <= m < rest.len() && rest[m] == x;
        if node_named(nodes, user.last()) {
            assert(r[m] == x);
        } else {
            assert(r == rest);
        }
    }
}

/// No branch gets lost when the tree is built from the user's
/// dependencies: a branch without parents that is no user root is always
/// reported as orphaned, whatever else holds of it (being checked out, its
/// metadata); and every branch has a parent, is a root, or is orphaned.
pub proof fn lemma_every_branch_is_placed(nodes: Seq<BranchNode>, roots: Seq<RootBranch>, i: int)
    requires
        0 <= i < nodes.len(),
    ensures
        nodes[i].parents@.len() == 0 && !root_names(roots).contains(nodes[i].name@) ==> tree_roots_spec(
            nodes,
            roots,
        ).1.contains(nodes[i].name@),
        nodes[i].parents@.len() > 0 || tree_roots_spec(nodes, roots).0.contains(nodes[i].name@)
            || tree_roots_spec(nodes, roots).1.contains(nodes[i].name@),
{
    let user = root_names(roots);
    let split = parentless(nodes, user);
    let rs = present_roots(nodes, user) + split.0;
    let name = nodes[i].name@;
    let os = if rs.len() == 0 && split.1.len() == 0 {
        all_names(nodes)
    } else {
        split.1
    };
    lemma_sorted_seq_contains(rs, name);
    lemma_sorted_seq_contains(os, name);
    if nodes[i].parents@.len() == 0 {
        if !user.contains(name) {
            lemma_parentless_orphan(nodes, user, i);
            assert(split.1.len() > 0);
            assert(os == split.1);
        } else {
            lemma_present_root(nodes, user, name);
            let k = choose|k: int| 0 <= k < present_roots(nodes, user).len() && present_roots(nodes, user)[k] == name;
            assert(rs[k] == name);
        }
    }
}

} // verus!

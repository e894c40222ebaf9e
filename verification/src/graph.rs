//! Branch graph domain models: names, edges, kinds, divergence, topology and
//! the graph builder's configuration.
use vstd::prelude::*;

use crate::branch_graph::{
    has_node, keyed_by_name, name_views, names_in_order, BranchAnnotationValue, BranchGraph, BranchNode,
    BranchNodeMetadata,
};
use crate::lex::{insert_into_set, sorted_strictly, views};
use crate::repo_state::{branch_record, root_names, BranchDependency, RepoState};
use crate::strs::str_eq;
use crate::tree::{
    attach_orphans_to_default_root, default_root_branch, default_root_branch_spec, edge_views, opt_name, opt_text,
    orphans_attached, set_annotation, set_annotation_exec, ann_views, sort_branch_names, sorted_seq,
};
use crate::tree_renderer::string_views;

verus! {

/// Canonical identifier for a branch.
#[derive(Clone, Debug, PartialEq, Eq, PartialOrd, Ord, Hash)]
pub struct BranchName(String);

impl View for BranchName {
    type V = Seq<char>;

    closed spec fn view(&self) -> Seq<char> {
        self.0@
    }
}

impl BranchName {
    /// Construct a branch name from a string slice.
    pub fn new(name: &str) -> (b: Self)
        ensures
            b@ == name@,
    {
        BranchName(name.to_owned())
    }

    /// Construct a branch name from an owned string.
    pub fn from_string(name: String) -> (b: Self)
        ensures
            b@ == name@,
    {
        BranchName(name)
    }

    /// Borrow the underlying branch name.
    pub fn as_str(&self) -> (s: &str)
        ensures
            s@ == self@,
    {
        self.0.as_str()
    }

    /// A copy of the name that keeps its characters.
    pub fn copy(&self) -> (b: Self)
        ensures
            b@ == self@,
    {
        BranchName(self.0.clone())
    }
}

/// Directed relationship between two branches.
#[derive(Debug, Clone, PartialEq, Eq, Hash)]
pub struct BranchEdge {
    /// Name of the branch the edge originates from (typically the parent).
    pub from: BranchName,
    /// Name of the branch the edge points to (typically the child).
    pub to: BranchName,
}

impl BranchEdge {
    /// Create a new branch edge.
    pub fn new(from: BranchName, to: BranchName) -> (e: Self)
        ensures
            e.from == from,
            e.to == to,
    {
        BranchEdge { from, to }
    }
}

/// Categorisation of a branch within the graph.
#[derive(Debug, Clone, Copy, PartialEq, Eq, Hash, Structural)]
pub enum BranchKind {
    /// A branch that exists locally within the repository.
    Local,
    /// A remote tracking branch (e.g. `origin/main`).
    Remote,
    /// A synthetic node introduced by tooling.
    Virtual,
}

/// Representation of the stale status of a branch.
#[derive(Debug, Clone, Copy, PartialEq, Eq, Structural)]
pub enum BranchStaleState {
    Fresh,
    Stale {
        /// Age in days based on the last commit timestamp.
        age_in_days: u32,
    },
    /// Staleness could not be calculated.
    Unknown,
}

/// Ahead/behind counts for a branch relative to its parent.
#[derive(Debug, Clone, Copy, Default, PartialEq, Eq, Structural)]
pub struct BranchDivergence {
    /// Commits present on the branch but not on its primary parent.
    pub ahead: usize,
    /// Commits present on the primary parent but missing on the branch.
    pub behind: usize,
}

impl BranchDivergence {
    /// Whether the branch is fully in sync with its parent.
    pub fn is_zero(&self) -> (b: bool)
        ensures
            b == (self.ahead == 0 && self.behind == 0),
    {
        self.ahead == 0 && self.behind == 0
    }
}

/// Relationships between a branch and its neighbours.
#[derive(Debug, Clone)]
pub struct BranchTopology {
    /// Optional primary parent.
    pub primary_parent: Option<BranchName>,
    /// Additional parent branches.
    pub secondary_parents: Vec<BranchName>,
    /// Child branches referencing this branch as their primary parent.
    pub children: Vec<BranchName>,
}

impl BranchTopology {
    /// A topology without parents or children.
    pub fn empty() -> (t: Self)
        ensures
            t.primary_parent is None,
            t.secondary_parents@.len() == 0,
            t.children@.len() == 0,
    {
        BranchTopology { primary_parent: None, secondary_parents: Vec::new(), children: Vec::new() }
    }
}

/// Configuration for producing a branch graph.
pub struct BranchGraphBuilder {
    include_remote_branches: bool,
    include_declared_dependencies: bool,
    eager_labels: Vec<String>,
    attach_orphans_to_default_root: bool,
}

impl BranchGraphBuilder {
    pub closed spec fn includes_remote_branches(&self) -> bool {
        self.include_remote_branches
    }

    pub closed spec fn includes_declared_dependencies(&self) -> bool {
        self.include_declared_dependencies
    }

    pub closed spec fn eager_label_views(&self) -> Seq<Seq<char>> {
        self.eager_labels@.map_values(|s: String| s@)
    }

    pub closed spec fn attaches_orphans(&self) -> bool {
        self.attach_orphans_to_default_root
    }

    /// A builder with the default configuration: no remote branches, declared
    /// dependencies included, no eager labels, orphans left alone.
    pub fn new() -> (b: Self)
        ensures
            !b.includes_remote_branches(),
            b.includes_declared_dependencies(),
            b.eager_label_views().len() == 0,
            !b.attaches_orphans(),
    {
        BranchGraphBuilder {
            include_remote_branches: false,
            include_declared_dependencies: true,
            eager_labels: Vec::new(),
            attach_orphans_to_default_root: false,
        }
    }

    /// Include remote tracking branches in the resulting graph.
    pub fn with_remote_branches(self, enabled: bool) -> (b: Self)
        ensures
            b.includes_remote_branches() == enabled,
            b.includes_declared_dependencies() == self.includes_declared_dependencies(),
            b.eager_label_views() == self.eager_label_views(),
            b.attaches_orphans() == self.attaches_orphans(),
    {
        BranchGraphBuilder { include_remote_branches: enabled, ..self }
    }

    /// Include dependency metadata declared in the repository state.
    pub fn with_declared_dependencies(self, enabled: bool) -> (b: Self)
        ensures
            b.includes_remote_branches() == self.includes_remote_branches(),
            b.includes_declared_dependencies() == enabled,
            b.eager_label_views() == self.eager_label_views(),
            b.attaches_orphans() == self.attaches_orphans(),
    {
        BranchGraphBuilder { include_declared_dependencies: enabled, ..self }
    }

    /// Request that specific labels are eagerly populated. The labels are
    /// kept as a set: sorted and without repeats.
    pub fn with_eager_labels(self, labels: Vec<String>) -> (b: Self)
        ensures
            b.includes_remote_branches() == self.includes_remote_branches(),
            b.includes_declared_dependencies() == self.includes_declared_dependencies(),
            b.eager_label_views().to_set() == labels@.map_values(|s: String| s@).to_set(),
            crate::lex::sorted_strictly(b.eager_label_views()),
            b.attaches_orphans() == self.attaches_orphans(),
    {
        let set = crate::lex::sorted_set_of(labels);
        BranchGraphBuilder { eager_labels: set, ..self }
    }

    /// Treat orphaned branches as children of the default root.
    pub fn with_orphan_parenting(self, attach: bool) -> (b: Self)
        ensures
            b.includes_remote_branches() == self.includes_remote_branches(),
            b.includes_declared_dependencies() == self.includes_declared_dependencies(),
            b.eager_label_views() == self.eager_label_views(),
            b.attaches_orphans() == attach,
    {
        BranchGraphBuilder { attach_orphans_to_default_root: attach, ..self }
    }
}

/// A dependency between two branches of the graph.
pub open spec fn within_graph(nodes: Seq<BranchNode>, d: BranchDependency) -> bool {
    has_node(nodes, d.child@) && has_node(nodes, d.parent@)
}

/// The parents the dependencies give `child` among the graph's branches,
/// in the order recorded.
pub open spec fn graph_parents(nodes: Seq<BranchNode>, deps: Seq<BranchDependency>, child: Seq<char>) -> Seq<Seq<char>>
    decreases deps.len(),
{
    if deps.len() == 0 {
        seq![]
    } else {
        let rest = graph_parents(nodes, deps.drop_last(), child);
        let d = deps.last();
        if within_graph(nodes, d) && d.child@ == child {
            rest.push(d.parent@)
        } else {
            rest
        }
    }
}

/// The children of `parent` once the dependencies are applied: the
/// existing ones, then each dependent branch not yet among them.
pub open spec fn with_dependents(
    nodes: Seq<BranchNode>,
    deps: Seq<BranchDependency>,
    parent: Seq<char>,
    existing: Seq<Seq<char>>,
) -> Seq<Seq<char>>
    decreases deps.len(),
{
    if deps.len() == 0 {
        existing
    } else {
        let acc = with_dependents(nodes, deps.drop_last(), parent, existing);
        let d = deps.last();
        if within_graph(nodes, d) && d.parent@ == parent && !acc.contains(d.child@) {
            acc.push(d.child@)
        } else {
            acc
        }
    }
}

/// An edge from parent to child for each dependency within the graph.
pub open spec fn dependency_edges(nodes: Seq<BranchNode>, deps: Seq<BranchDependency>) -> Seq<(Seq<char>, Seq<char>)>
    decreases deps.len(),
{
    if deps.len() == 0 {
        seq![]
    } else {
        let rest = dependency_edges(nodes, deps.drop_last());
        let d = deps.last();
        if within_graph(nodes, d) {
            rest.push((d.parent@, d.child@))
        } else {
            rest
        }
    }
}

/// `new` is `old` with the dependencies applied: its children with the
/// dependent branches added and sorted; its first recorded parent as the
/// primary parent and the others as secondary, when it has any.
pub open spec fn dependencies_applied(
    new: BranchNode,
    old: BranchNode,
    nodes: Seq<BranchNode>,
    deps: Seq<BranchDependency>,
) -> bool {
    let ps = graph_parents(nodes, deps, old.name@);
    &&& new.name == old.name
    &&& new.kind == old.kind
    &&& new.head == old.head
    &&& new.upstream == old.upstream
    &&& new.metadata == old.metadata
    &&& name_views(new.topology.children@) == sorted_seq(
        with_dependents(nodes, deps, old.name@, name_views(old.topology.children@)),
    )
    &&& if ps.len() > 0 {
        &&& opt_name(new.topology.primary_parent) == Some(ps[0])
        &&& name_views(new.topology.secondary_parents@) == ps.drop_first()
    } else {
        &&& new.topology.primary_parent == old.topology.primary_parent
        &&& new.topology.secondary_parents == old.topology.secondary_parents
    }
}

/// The configured roots that are branches of the graph, in order.
pub open spec fn configured_in_graph(nodes: Seq<BranchNode>, roots: Seq<Seq<char>>) -> Seq<Seq<char>>
    decreases roots.len(),
{
    if roots.len() == 0 {
        seq![]
    } else if has_node(nodes, roots.last()) {
        configured_in_graph(nodes, roots.drop_last()).push(roots.last())
    } else {
        configured_in_graph(nodes, roots.drop_last())
    }
}

/// The root candidates: the configured roots that are branches, in the
/// order configured; failing that the head branch when it is one; failing
/// that the first branch.
pub open spec fn root_candidates_spec(nodes: Seq<BranchNode>, roots: Seq<Seq<char>>, head: Option<Seq<char>>) -> Seq<
    Seq<char>,
> {
    let configured = configured_in_graph(nodes, roots);
    if configured.len() > 0 {
        configured
    } else if head is Some && has_node(nodes, head->0) {
        seq![head->0]
    } else if nodes.len() > 0 {
        seq![nodes[0].name@]
    } else {
        seq![]
    }
}

/// The graph's candidate roots (see `root_candidates_spec`).
pub fn resolve_root_candidates(repo_state: &RepoState, nodes: &Vec<BranchNode>, head_branch: Option<&str>) -> (r: Vec<
    BranchName,
>)
    ensures
        name_views(r@) == root_candidates_spec(
            nodes@,
            root_names(repo_state.root_branches@),
            match head_branch {
                Some(h) => Some(h@),
                None => None,
            },
        ),
{
    let names = node_name_list(nodes);
    let roots = repo_state.get_root_branches();
    let ghost rv = string_views(roots@);
    let mut r: Vec<BranchName> = Vec::new();
    let mut i: usize = 0;
    while i < roots.len()
        invariant
            i <= roots.len(),
            rv == string_views(roots@),
            forall|x: Seq<char>| string_views(names@).contains(x) <==> has_node(nodes@, x),
            name_views(r@) == configured_in_graph(nodes@, rv.take(i as int)),
        decreases roots.len() - i,
    {
        assert(rv.take(i + 1).drop_last() =~= rv.take(i as int));
        assert(rv.take(i + 1).last() == roots@[i as int]@);
        if names_hold(&names, roots[i].as_str()) {
            let ghost before = r@;
            r.push(BranchName::new(roots[i].as_str()));
            assert(name_views(r@) =~= name_views(before).push(roots@[i as int]@));
        }
        i = i + 1;
    }
    assert(rv.take(roots.len() as int) =~= rv);
    if r.len() == 0 {
        match head_branch {
            Some(h) => {
                if names_hold(&names, h) {
                    r.push(BranchName::new(h));
                    assert(name_views(r@) =~= seq![h@]);
                    return r;
                }
            },
            None => {},
        }
        if nodes.len() > 0 {
            r.push(nodes[0].name.copy());
            assert(name_views(r@) =~= seq![nodes@[0].name@]);
        }
    }
    r
}

/// The label and pull-request annotation a branch's record gives it.
pub fn apply_branch_metadata(repo_state: &RepoState, branch: &str, metadata: BranchNodeMetadata) -> (r:
    BranchNodeMetadata)
    requires
        sorted_strictly(views(metadata.labels@)),
    ensures
        r.is_current == metadata.is_current,
        r.stale_state == metadata.stale_state,
        r.divergence == metadata.divergence,
        sorted_strictly(views(r.labels@)),
        match branch_record(repo_state.branches@, branch@) {
            Some(m) => {
                &&& views(r.labels@).to_set() == match m.jira_issue {
                    Some(j) => views(metadata.labels@).to_set().insert(j@),
                    None => views(metadata.labels@).to_set(),
                }
                &&& ann_views(r.annotations@) == match m.github_pr {
                    Some(n) => set_annotation(ann_views(metadata.annotations@), "twig.pr"@, BranchAnnotationValue::Numeric(n as i64)),
                    None => ann_views(metadata.annotations@),
                }
            },
            None => r.labels@ == metadata.labels@ && r.annotations@ == metadata.annotations@,
        },
{
    let mut metadata = metadata;
    match repo_state.get_branch_issue_by_branch(branch) {
        Some(m) => {
            match &m.jira_issue {
                Some(j) => {
                    let mut labels: Vec<String> = Vec::new();
                    std::mem::swap(&mut labels, &mut metadata.labels);
                    metadata.labels = insert_into_set(labels, j.as_str());
                },
                None => {},
            }
            match m.github_pr {
                Some(n) => {
                    let mut anns: Vec<(String, BranchAnnotationValue)> = Vec::new();
                    std::mem::swap(&mut anns, &mut metadata.annotations);
                    metadata.annotations = set_annotation_exec(anns, "twig.pr", BranchAnnotationValue::Numeric(n as i64));
                },
                None => {},
            }
        },
        None => {},
    }
    metadata
}

/// The branch a node's divergence is counted against: its primary parent,
/// else the default root when that is another branch.
pub fn divergence_target(node: &BranchNode, default_root: Option<&str>) -> (r: Option<String>)
    ensures
        opt_text(r) == match node.topology.primary_parent {
            Some(p) => Some(p@),
            None => match default_root {
                Some(d) => if d@ != node.name@ {
                    Some(d@)
                } else {
                    None
                },
                None => None,
            },
        },
{
    match &node.topology.primary_parent {
        Some(p) => Some(p.as_str().to_owned()),
        None => match default_root {
            Some(d) => if !str_eq(d, node.name.as_str()) {
                Some(d.to_owned())
            } else {
                None
            },
            None => None,
        },
    }
}

/// Whether some node is named `name`.
fn names_hold(names: &Vec<String>, name: &str) -> (b: bool)
    ensures
        b == string_views(names@).contains(name@),
{
    let mut i: usize = 0;
    while i < names.len()
        invariant
            i <= names.len(),
            forall|j: int| 0 <= j < i ==> names@[j]@ != name@,
        decreases names.len() - i,
    {
        if str_eq(names[i].as_str(), name) {
            assert(string_views(names@)[i as int] == name@);
            return true;
        }
        i = i + 1;
    }
    proof {
        if string_views(names@).contains(name@) {
            let j = choose|j: int| 0 <= j < names@.len() && string_views(names@)[j] == name@;
            assert(names@[j]@ == name@);
        }
    }
    false
}

/// The names of the nodes.
fn node_name_list(nodes: &Vec<BranchNode>) -> (r: Vec<String>)
    ensures
        forall|x: Seq<char>| string_views(r@).contains(x) <==> has_node(nodes@, x),
{
    let mut r: Vec<String> = Vec::new();
    let mut i: usize = 0;
    while i < nodes.len()
        invariant
            i <= nodes.len(),
            r@.len() == i,
            forall|k: int| 0 <= k < i ==> r@[k]@ == nodes@[k].name@,
        decreases nodes.len() - i,
    {
        r.push(nodes[i].name.as_str().to_owned());
        i = i + 1;
    }
    proof {
        assert forall|x: Seq<char>| string_views(r@).contains(x) <==> has_node(nodes@, x) by {
            if string_views(r@).contains(x) {
                let k = choose|k: int| 0 <= k < r@.len() && string_views(r@)[k] == x;
                assert(r@[k]@ == nodes@[k].name@);
            }
            if has_node(nodes@, x) {
                let k = choose|k: int| 0 <= k < nodes@.len() && nodes@[k].name@ == x;
                assert(string_views(r@)[k] == x);
            }
        }
    }
    r
}

/// Applies the recorded dependencies to the nodes of a graph: parents take
/// their dependents as children, children take their parents, and an edge
/// goes from parent to child for each dependency between two branches.
pub fn apply_dependencies(repo_state: &RepoState, nodes: Vec<BranchNode>) -> (r: (Vec<BranchNode>, Vec<BranchEdge>))
    ensures
        r.0@.len() == nodes@.len(),
        forall|i: int|
            0 <= i < nodes@.len() ==> dependencies_applied(
                #[trigger] r.0@[i],
                nodes@[i],
                nodes@,
                repo_state.dependencies@,
            ),
        edge_views(r.1@) == dependency_edges(nodes@, repo_state.dependencies@),
{
    let ghost ns = nodes@;
    let ghost deps = repo_state.dependencies@;
    let names = node_name_list(&nodes);
    let mut rest = nodes;
    let mut out: Vec<BranchNode> = Vec::new();
    let mut i: usize = 0;
    assert(ns.len() == rest.len());
    while rest.len() > 0
        invariant
            i + rest@.len() == ns.len(),
            ns.len() <= usize::MAX,
            rest@ == ns.subrange(i as int, ns.len() as int),
            out@.len() == i,
            deps == repo_state.dependencies@,
            forall|x: Seq<char>| string_views(names@).contains(x) <==> has_node(ns, x),
            forall|k: int| 0 <= k < i ==> dependencies_applied(#[trigger] out@[k], ns[k], ns, deps),
        decreases rest@.len(),
    {
        let mut node = rest.remove(0);
        assert(node == ns[i as int]);
        let ghost old_node = node;
        let mut children: Vec<BranchName> = Vec::new();
        std::mem::swap(&mut children, &mut node.topology.children);
        let ghost existing = name_views(children@);
        let mut parents: Vec<BranchName> = Vec::new();
        let mut k: usize = 0;
        while k < repo_state.dependencies.len()
            invariant
                k <= repo_state.dependencies.len(),
                deps == repo_state.dependencies@,
                forall|x: Seq<char>| string_views(names@).contains(x) <==> has_node(ns, x),
                name_views(children@) == with_dependents(ns, deps.take(k as int), old_node.name@, existing),
                name_views(parents@) == graph_parents(ns, deps.take(k as int), old_node.name@),
                node.name == old_node.name,
            decreases repo_state.dependencies.len() - k,
        {
            assert(deps.take(k + 1).drop_last() =~= deps.take(k as int));
            assert(deps.take(k + 1).last() == deps[k as int]);
            let d = &repo_state.dependencies[k];
            if names_hold(&names, d.child.as_str()) && names_hold(&names, d.parent.as_str()) {
                if str_eq(d.parent.as_str(), node.name.as_str()) && !holds_branch(&children, d.child.as_str()) {
                    let ghost before = children@;
                    children.push(BranchName::new(d.child.as_str()));
                    assert(name_views(children@) =~= name_views(before).push(d.child@));
                }
                if str_eq(d.child.as_str(), node.name.as_str()) {
                    let ghost before = parents@;
                    parents.push(BranchName::new(d.parent.as_str()));
                    assert(name_views(parents@) =~= name_views(before).push(d.parent@));
                }
            }
            k = k + 1;
        }
        assert(deps.take(deps.len() as int) =~= deps);
        node.topology.children = sort_branch_names(children);
        if parents.len() > 0 {
            let ghost pv = name_views(parents@);
            let first = parents.remove(0);
            assert(first@ == pv[0]);
            assert(name_views(parents@) =~= pv.drop_first());
            node.topology.primary_parent = Some(first);
            node.topology.secondary_parents = parents;
        }
        out.push(node);
        i = i + 1;
        assert(rest@ =~= ns.subrange(i as int, ns.len() as int));
    }
    let mut edges: Vec<BranchEdge> = Vec::new();
    let mut k: usize = 0;
    while k < repo_state.dependencies.len()
        invariant
            k <= repo_state.dependencies.len(),
            deps == repo_state.dependencies@,
            forall|x: Seq<char>| string_views(names@).contains(x) <==> has_node(ns, x),
            edge_views(edges@) == dependency_edges(ns, deps.take(k as int)),
        decreases repo_state.dependencies.len() - k,
    {
        assert(deps.take(k + 1).drop_last() =~= deps.take(k as int));
        assert(deps.take(k + 1).last() == deps[k as int]);
        let d = &repo_state.dependencies[k];
        if names_hold(&names, d.child.as_str()) && names_hold(&names, d.parent.as_str()) {
            let ghost before = edges@;
            edges.push(BranchEdge::new(BranchName::new(d.parent.as_str()), BranchName::new(d.child.as_str())));
            assert(edge_views(edges@) =~= edge_views(before).push((d.parent@, d.child@)));
        }
        k = k + 1;
    }
    assert(deps.take(deps.len() as int) =~= deps);
    (out, edges)
}

/// Whether the names hold `name`.
fn holds_branch(v: &Vec<BranchName>, name: &str) -> (b: bool)
    ensures
        b == name_views(v@).contains(name@),
{
    let mut i: usize = 0;
    while i < v.len()
        invariant
            i <= v.len(),
            forall|j: int| 0 <= j < i ==> v@[j]@ != name@,
        decreases v.len() - i,
    {
        if str_eq(v[i].as_str(), name) {
            assert(name_views(v@)[i as int] == name@);
            return true;
        }
        i = i + 1;
    }
    proof {
        if name_views(v@).contains(name@) {
            let j = choose|j: int| 0 <= j < name_views(v@).len() && name_views(v@)[j] == name@;
            assert(v@[j]@ == name@);
        }
    }
    false
}

/// The characters of an optional string slice.
pub open spec fn opt_str(o: Option<&str>) -> Option<Seq<char>> {
    match o {
        Some(s) => Some(s@),
        None => None,
    }
}

/// `g` is what assembling `input` gives, by way of the keyed nodes, the
/// nodes with dependencies applied and the dependency edges.
pub open spec fn assembled(
    builder: BranchGraphBuilder,
    g: BranchGraph,
    input: Seq<BranchNode>,
    keyed: Seq<BranchNode>,
    applied: Seq<BranchNode>,
    dep_edges: Seq<BranchEdge>,
    repo_state: RepoState,
    head: Option<Seq<char>>,
) -> bool {
    &&& keyed_by_name(keyed, input)
    &&& if builder.includes_declared_dependencies() {
        &&& applied.len() == keyed.len()
        &&& forall|i: int|
            0 <= i < keyed.len() ==> dependencies_applied(
                #[trigger] applied[i],
                keyed[i],
                keyed,
                repo_state.dependencies@,
            )
        &&& edge_views(dep_edges) == dependency_edges(keyed, repo_state.dependencies@)
    } else {
        applied == keyed && dep_edges.len() == 0
    }
    &&& if builder.attaches_orphans() {
        orphans_attached(
            g.node_seq(),
            g.edge_seq(),
            applied,
            dep_edges,
            repo_state.root_branches@,
        )
    } else {
        g.node_seq() == applied && g.edge_seq() == dep_edges
    }
    &&& name_views(g.root_seq()) == root_candidates_spec(
        g.node_seq(),
        root_names(repo_state.root_branches@),
        head,
    )
    &&& opt_name(g.current_spec()) == match head {
        Some(h) => if has_node(g.node_seq(), h) {
            Some(h)
        } else {
            None
        },
        None => None,
    }
}

impl BranchGraphBuilder {
    /// The graph from the branches collected from a repository (each name
    /// once): the declared dependencies applied when enabled, the orphans
    /// hung below the default root when asked, then the candidate roots and
    /// the current branch (the head branch, when it is one of them).
    pub fn assemble(&self, nodes: Vec<BranchNode>, repo_state: &RepoState, head_branch: Option<&str>) -> (g: BranchGraph)
        ensures
            nodes@.len() == 0 ==> g.node_seq().len() == 0 && g.edge_seq().len() == 0 && g.root_seq().len() == 0
                && g.current_spec() is None,
            nodes@.len() > 0 ==> exists|keyed: Seq<BranchNode>, applied: Seq<BranchNode>, dep_edges: Seq<BranchEdge>|
                #[trigger] assembled(*self, g, nodes@, keyed, applied, dep_edges, *repo_state, opt_str(head_branch)),
    {
        if nodes.len() == 0 {
            return BranchGraph::new();
        }
        let ghost input = nodes@;
        let g0 = BranchGraph::from_parts(nodes, Vec::new(), Vec::new(), None);
        let (keyed, _e0, _r0, _c0) = g0.into_parts();
        let ghost kv = keyed@;
        let (applied, edges) = if self.include_declared_dependencies {
            apply_dependencies(repo_state, keyed)
        } else {
            (keyed, Vec::new())
        };
        let ghost av = applied@;
        let ghost ev = edges@;
        assert(names_in_order(applied@)) by {
            assert forall|a: int, b: int| 0 <= a < b < applied@.len() implies crate::lex::lex_lt(
                #[trigger] applied@[a].name@,
                #[trigger] applied@[b].name@,
            ) by {
                if self.include_declared_dependencies {
                    assert(dependencies_applied(applied@[a], kv[a], kv, repo_state.dependencies@));
                    assert(dependencies_applied(applied@[b], kv[b], kv, repo_state.dependencies@));
                }
            }
        }
        let g1 = BranchGraph::from_ordered_parts(applied, edges, Vec::new(), None);
        let g2 = if self.attach_orphans_to_default_root {
            attach_orphans_to_default_root(g1, repo_state)
        } else {
            g1
        };
        let (ns, es, _r2, _c2) = g2.into_parts();
        let roots = resolve_root_candidates(repo_state, &ns, head_branch);
        let names = node_name_list(&ns);
        let current = match head_branch {
            Some(h) => if names_hold(&names, h) {
                Some(BranchName::new(h))
            } else {
                None
            },
            None => None,
        };
        let g = BranchGraph::from_ordered_parts(ns, es, roots, current);
        assert(assembled(*self, g, input, kv, av, ev, *repo_state, opt_str(head_branch)));
        g
    }
}

} // verus!

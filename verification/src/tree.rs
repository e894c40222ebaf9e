//! Choosing what a branch tree is drawn from: the root, the orphaned
//! branches and where they hang, and the part of the graph a pattern picks.
use vstd::prelude::*;

use crate::branch_graph::{
    has_node, name_views, names_in_order, same_node, BranchAnnotationValue, BranchGraph, BranchNode,
};
use crate::graph::{BranchEdge, BranchName};
use crate::lex::{lemma_lex_lt_trans, lex_le, lex_lt, string_le};
use crate::repo_state::{default_root_spec, parents_of, root_names, RepoState, RootBranch};
use crate::strs::{chars_of, contains, contains_exec, str_eq, to_lowercase, unicode_lowercase};
use crate::tree_renderer::{lemma_names_push, names_of, seen_has};
use crate::tree_renderer::string_views;

verus! {

/// The annotation key that marks a branch as orphaned.
pub const ORPHAN_BRANCH_ANNOTATION_KEY: &'static str = "twig.orphan";

/// The branch name of an optional name.
pub open spec fn opt_name(o: Option<BranchName>) -> Option<Seq<char>> {
    match o {
        Some(n) => Some(n@),
        None => None,
    }
}

/// The characters of an optional string.
pub open spec fn opt_text(o: Option<String>) -> Option<Seq<char>> {
    match o {
        Some(s) => Some(s@),
        None => None,
    }
}

/// The default root: the root marked default, else the first root.
pub open spec fn default_root_branch_spec(roots: Seq<RootBranch>) -> Option<Seq<char>> {
    match default_root_spec(roots) {
        Some(b) => Some(b),
        None => if roots.len() > 0 {
            Some(roots[0].branch@)
        } else {
            None
        },
    }
}

/// Returns the default root branch from the state, or the first configured
/// root.
pub fn default_root_branch(state: &RepoState) -> (r: Option<String>)
    ensures
        opt_text(r) == default_root_branch_spec(state.root_branches@),
{
    match state.get_default_root() {
        Some(root) => Some(root.to_owned()),
        None => {
            let roots = state.get_root_branches();
            assert(string_views(roots@).len() == roots@.len());
            assert(root_names(state.root_branches@).len() == state.root_branches@.len());
            if roots.len() > 0 {
                assert(string_views(roots@)[0] == roots@[0]@);
                assert(root_names(state.root_branches@)[0] == state.root_branches@[0].branch@);
                Some(roots[0].clone())
            } else {
                None
            }
        },
    }
}

/// The root a tree is drawn from: the override when it is a branch of the
/// graph, else the default root when it is one, else the first root
/// candidate, else the current branch, else the first branch.
pub open spec fn render_root_spec(
    nodes: Seq<BranchNode>,
    candidates: Seq<BranchName>,
    current: Option<BranchName>,
    roots: Seq<RootBranch>,
    override_branch: Option<Seq<char>>,
) -> Option<Seq<char>> {
    if override_branch matches Some(b) && has_node(nodes, b) {
        override_branch
    } else if default_root_spec(roots) matches Some(d) && has_node(nodes, d) {
        default_root_spec(roots)
    } else if candidates.len() > 0 {
        Some(candidates[0]@)
    } else if current is Some {
        opt_name(current)
    } else if nodes.len() > 0 {
        Some(nodes[0].name@)
    } else {
        None
    }
}

/// Determines the best root branch to use for rendering the tree (see
/// `render_root_spec`).
pub fn determine_render_root(graph: &BranchGraph, state: &RepoState, override_branch: Option<String>) -> (r: Option<
    BranchName,
>)
    ensures
        opt_name(r) == render_root_spec(
            graph.node_seq(),
            graph.root_seq(),
            graph.current_spec(),
            state.root_branches@,
            opt_text(override_branch),
        ),
{
    match override_branch {
        Some(branch) => {
            let target = BranchName::from_string(branch);
            if graph.get(&target).is_some() {
                return Some(target);
            }
        },
        None => {},
    }
    match state.get_default_root() {
        Some(root) => {
            let candidate = BranchName::new(root);
            if graph.get(&candidate).is_some() {
                return Some(candidate);
            }
        },
        None => {},
    }
    let candidates = graph.root_candidates();
    if candidates.len() > 0 {
        return Some(candidates[0].copy());
    }
    match graph.current_branch() {
        Some(b) => {
            return Some(b.copy());
        },
        None => {},
    }
    let nodes = graph.iter();
    if nodes.len() > 0 {
        Some(nodes[0].name.copy())
    } else {
        None
    }
}

/// A branch is orphaned when no dependency gives it a parent and it is not
/// a root.
pub open spec fn is_orphaned(state: RepoState, name: Seq<char>) -> bool {
    parents_of(state.dependencies@, name).len() == 0 && !root_names(state.root_branches@).contains(name)
}

/// The orphaned branches among the nodes, in node order.
pub open spec fn orphans_among(nodes: Seq<BranchNode>, state: RepoState) -> Seq<Seq<char>>
    decreases nodes.len(),
{
    if nodes.len() == 0 {
        seq![]
    } else {
        let rest = orphans_among(nodes.drop_last(), state);
        if is_orphaned(state, nodes.last().name@) {
            rest.push(nodes.last().name@)
        } else {
            rest
        }
    }
}

/// Whether a name is among the roots' branches.
fn among_roots(roots: &Vec<String>, name: &str) -> (b: bool)
    ensures
        b == string_views(roots@).contains(name@),
{
    let mut i: usize = 0;
    while i < roots.len()
        invariant
            i <= roots.len(),
            forall|j: int| 0 <= j < i ==> roots@[j]@ != name@,
        decreases roots.len() - i,
    {
        if str_eq(roots[i].as_str(), name) {
            assert(string_views(roots@)[i as int] == name@);
            return true;
        }
        i = i + 1;
    }
    proof {
        if string_views(roots@).contains(name@) {
            let j = choose|j: int| 0 <= j < roots@.len() && string_views(roots@)[j] == name@;
            assert(roots@[j]@ == name@);
        }
    }
    false
}

/// Finds the branches of the graph that have no configured parent and are
/// not root branches, in name order.
pub fn find_orphaned_branches(graph: &BranchGraph, repo_state: &RepoState) -> (r: Vec<BranchName>)
    ensures
        name_views(r@) == orphans_among(graph.node_seq(), *repo_state),
{
    let configured_roots = repo_state.get_root_branches();
    let nodes = graph.iter();
    let ghost ns = nodes@;
    let mut r: Vec<BranchName> = Vec::new();
    let mut i: usize = 0;
    while i < nodes.len()
        invariant
            i <= nodes.len(),
            ns == nodes@,
            string_views(configured_roots@) == root_names(repo_state.root_branches@),
            name_views(r@) == orphans_among(ns.take(i as int), *repo_state),
        decreases nodes.len() - i,
    {
        assert(ns.take(i + 1).drop_last() =~= ns.take(i as int));
        let branch = nodes[i].name.as_str();
        let parents = repo_state.get_dependency_parents(branch);
        assert(crate::repo_state::str_views(parents@).len() == parents@.len());
        let has_parent = parents.len() > 0;
        if !has_parent && !among_roots(&configured_roots, branch) {
            let ghost before = r@;
            r.push(nodes[i].name.copy());
            assert(name_views(r@) =~= name_views(before).push(ns[i as int].name@));
        }
        i = i + 1;
    }
    assert(ns.take(ns.len() as int) =~= ns);
    r
}

/// The annotations as key characters and values.
pub open spec fn ann_views(anns: Seq<(String, BranchAnnotationValue)>) -> Seq<(Seq<char>, BranchAnnotationValue)> {
    anns.map_values(|p: (String, BranchAnnotationValue)| (p.0@, p.1))
}

/// The annotations with `key` set to `value`, as a map kept in key order
/// sets it: an entry for the key is overwritten, else the entry goes before
/// the first key that comes after it.
pub open spec fn set_annotation(
    anns: Seq<(Seq<char>, BranchAnnotationValue)>,
    key: Seq<char>,
    value: BranchAnnotationValue,
) -> Seq<(Seq<char>, BranchAnnotationValue)>
    decreases anns.len(),
{
    if anns.len() == 0 {
        seq![(key, value)]
    } else if anns[0].0 == key {
        seq![(key, value)] + anns.drop_first()
    } else if lex_lt(key, anns[0].0) {
        seq![(key, value)] + anns
    } else {
        seq![anns[0]] + set_annotation(anns.drop_first(), key, value)
    }
}

proof fn lemma_set_annotation_at(
    anns: Seq<(Seq<char>, BranchAnnotationValue)>,
    key: Seq<char>,
    value: BranchAnnotationValue,
    p: int,
)
    requires
        0 <= p <= anns.len(),
        forall|j: int| 0 <= j < p ==> anns[j].0 != key && !lex_lt(key, #[trigger] anns[j].0),
    ensures
        p == anns.len() ==> set_annotation(anns, key, value) == anns.push((key, value)),
        p < anns.len() && anns[p].0 == key ==> set_annotation(anns, key, value) == anns.update(p, (key, value)),
        p < anns.len() && anns[p].0 != key && lex_lt(key, anns[p].0) ==> set_annotation(anns, key, value)
            == anns.insert(p, (key, value)),
    decreases p,
{
    if p == 0 {
        if anns.len() == 0 {
            assert(anns.push((key, value)) =~= seq![(key, value)]);
        } else {
            assert(anns.update(0, (key, value)) =~= seq![(key, value)] + anns.drop_first());
            assert(anns.insert(0, (key, value)) =~= seq![(key, value)] + anns);
        }
    } else {
        let t = anns.drop_first();
        assert forall|j: int| 0 <= j < p - 1 implies t[j].0 != key && !lex_lt(key, #[trigger] t[j].0) by {
            assert(t[j] == anns[j + 1]);
        }
        lemma_set_annotation_at(t, key, value, p - 1);
        assert(anns[0].0 != key && !lex_lt(key, anns[0].0));
        assert(anns.push((key, value)) =~= seq![anns[0]] + t.push((key, value)));
        if p < anns.len() {
            assert(anns.update(p, (key, value)) =~= seq![anns[0]] + t.update(p - 1, (key, value)));
            assert(anns.insert(p, (key, value)) =~= seq![anns[0]] + t.insert(p - 1, (key, value)));
        }
    }
}

/// Sets an annotation in a key-ordered list.
pub(crate) fn set_annotation_exec(anns: Vec<(String, BranchAnnotationValue)>, key: &str, value: BranchAnnotationValue) -> (r: Vec<
    (String, BranchAnnotationValue),
>)
    ensures
        ann_views(r@) == set_annotation(ann_views(anns@), key@, value),
{
    let ghost a = ann_views(anns@);
    let mut anns = anns;
    let mut p: usize = 0;
    while p < anns.len() && !str_eq(anns[p].0.as_str(), key) && !string_le(key, anns[p].0.as_str())
        invariant
            p <= anns.len(),
            a == ann_views(anns@),
            forall|j: int| 0 <= j < p ==> a[j].0 != key@ && !lex_lt(key@, #[trigger] a[j].0),
        decreases anns.len() - p,
    {
        p = p + 1;
    }
    proof {
        lemma_set_annotation_at(a, key@, value, p as int);
    }
    if p < anns.len() && str_eq(anns[p].0.as_str(), key) {
        let k = anns[p].0.clone();
        anns.set(p, (k, value));
        assert(ann_views(anns@) =~= a.update(p as int, (key@, value)));
    } else if p < anns.len() {
        anns.insert(p, (key.to_owned(), value));
        assert(ann_views(anns@) =~= a.insert(p as int, (key@, value)));
    } else {
        anns.push((key.to_owned(), value));
        assert(ann_views(anns@) =~= a.push((key@, value)));
    }
    anns
}

/// `new` is `old` with the annotation `key` set to `value`.
pub open spec fn annotation_set(new: BranchNode, old: BranchNode, key: Seq<char>, value: BranchAnnotationValue) -> bool {
    &&& new.name == old.name
    &&& new.kind == old.kind
    &&& new.head == old.head
    &&& new.upstream == old.upstream
    &&& new.topology == old.topology
    &&& new.metadata.is_current == old.metadata.is_current
    &&& new.metadata.stale_state == old.metadata.stale_state
    &&& new.metadata.divergence == old.metadata.divergence
    &&& new.metadata.labels == old.metadata.labels
    &&& ann_views(new.metadata.annotations@) == set_annotation(ann_views(old.metadata.annotations@), key, value)
}

/// Annotates branches as orphaned: each node named in `orphaned` gets the
/// orphan flag.
pub fn annotate_orphaned_branches(graph: BranchGraph, orphaned: &Vec<BranchName>) -> (r: BranchGraph)
    ensures
        r.node_seq().len() == graph.node_seq().len(),
        forall|i: int|
            0 <= i < r.node_seq().len() ==> if name_views(orphaned@).contains(graph.node_seq()[i].name@) {
                annotation_set(
                    #[trigger] r.node_seq()[i],
                    graph.node_seq()[i],
                    ORPHAN_BRANCH_ANNOTATION_KEY@,
                    BranchAnnotationValue::Flag(true),
                )
            } else {
                r.node_seq()[i] == graph.node_seq()[i]
            },
        r.edge_seq() == graph.edge_seq(),
        r.root_seq() == graph.root_seq(),
        r.current_spec() == graph.current_spec(),
{
    let (nodes, edges, roots, current) = graph.into_parts();
    let ghost old_nodes = nodes@;
    let mut rest = nodes;
    let mut out: Vec<BranchNode> = Vec::new();
    let mut i: usize = 0;
    assert(old_nodes.len() == rest.len());
    while rest.len() > 0
        invariant
            i + rest@.len() == old_nodes.len(),
            old_nodes.len() <= usize::MAX,
            rest@ == old_nodes.subrange(i as int, old_nodes.len() as int),
            out@.len() == i,
            names_in_order(old_nodes),
            forall|j: int| 0 <= j < i ==> #[trigger] out@[j].name@ == old_nodes[j].name@,
            forall|j: int|
                0 <= j < i ==> if name_views(orphaned@).contains(old_nodes[j].name@) {
                    annotation_set(
                        #[trigger] out@[j],
                        old_nodes[j],
                        ORPHAN_BRANCH_ANNOTATION_KEY@,
                        BranchAnnotationValue::Flag(true),
                    )
                } else {
                    out@[j] == old_nodes[j]
                },
        decreases rest@.len(),
    {
        let mut node = rest.remove(0);
        assert(node == old_nodes[i as int]);
        if holds_name(orphaned, &node.name) {
            let mut anns: Vec<(String, BranchAnnotationValue)> = Vec::new();
            std::mem::swap(&mut anns, &mut node.metadata.annotations);
            node.metadata.annotations = set_annotation_exec(
                anns,
                ORPHAN_BRANCH_ANNOTATION_KEY,
                BranchAnnotationValue::Flag(true),
            );
        }
        out.push(node);
        i = i + 1;
        assert(rest@ =~= old_nodes.subrange(i as int, old_nodes.len() as int));
    }
    assert(names_in_order(out@)) by {
        assert forall|a: int, b: int| 0 <= a < b < out@.len() implies lex_lt(#[trigger] out@[a].name@, #[trigger] out@[b].name@) by {
            assert(lex_lt(old_nodes[a].name@, old_nodes[b].name@));
        }
    }
    BranchGraph::from_ordered_parts(out, edges, roots, current)
}

/// Whether a list of names holds `name`.
fn holds_name(v: &Vec<BranchName>, name: &BranchName) -> (b: bool)
    ensures
        b == name_views(v@).contains(name@),
{
    let mut i: usize = 0;
    while i < v.len()
        invariant
            i <= v.len(),
            forall|j: int| 0 <= j < i ==> v@[j]@ != name@,
        decreases v.len() - i,
    {
        if str_eq(v[i].as_str(), name.as_str()) {
            assert(name_views(v@)[i as int] == name@);
            return true;
        }
        i = i + 1;
    }
    proof {
        if name_views(v@).contains(name@) {
            let j = choose|j: int| 0 <= j < name_views(v@).len() && name_views(v@)[j] == name@;
            assert(v@[j]@ == name@);
        }
    }
    false
}

/// `s` with `x` placed after every name that comes before or equals it.
pub open spec fn insert_sorted(s: Seq<Seq<char>>, x: Seq<char>) -> Seq<Seq<char>>
    decreases s.len(),
{
    if s.len() == 0 {
        seq![x]
    } else if lex_le(s.last(), x) {
        s.push(x)
    } else {
        insert_sorted(s.drop_last(), x).push(s.last())
    }
}

/// The names sorted, as `sort` orders them.
pub open spec fn sorted_seq(s: Seq<Seq<char>>) -> Seq<Seq<char>>
    decreases s.len(),
{
    if s.len() == 0 {
        seq![]
    } else {
        insert_sorted(sorted_seq(s.drop_last()), s.last())
    }
}

proof fn lemma_insert_sorted_at(s: Seq<Seq<char>>, x: Seq<char>, p: int)
    requires
        0 <= p <= s.len(),
        p == 0 || lex_le(s[p - 1], x),
        forall|j: int| p <= j < s.len() ==> !lex_le(#[trigger] s[j], x),
    ensures
        insert_sorted(s, x) == s.insert(p, x),
    decreases s.len(),
{
    if s.len() == 0 {
        assert(s.insert(p, x) =~= seq![x]);
    } else if p == s.len() {
        assert(s.insert(p, x) =~= s.push(x));
    } else {
        assert(!lex_le(s[s.len() - 1], x));
        let t = s.drop_last();
        assert forall|j: int| p <= j < t.len() implies !lex_le(#[trigger] t[j], x) by {
            assert(t[j] == s[j]);
        }
        if p > 0 {
            assert(t[p - 1] == s[p - 1]);
        }
        lemma_insert_sorted_at(t, x, p);
        assert(t.insert(p, x).push(s.last()) =~= s.insert(p, x));
    }
}

/// Sorts branch names in string order.
pub fn sort_branch_names(v: Vec<BranchName>) -> (r: Vec<BranchName>)
    ensures
        name_views(r@) == sorted_seq(name_views(v@)),
{
    let ghost input = name_views(v@);
    let mut rest = v;
    let mut out: Vec<BranchName> = Vec::new();
    let mut i: usize = 0;
    assert(input.len() == rest.len());
    while rest.len() > 0
        invariant
            i + rest@.len() == input.len(),
            input.len() <= usize::MAX,
            name_views(rest@) == input.subrange(i as int, input.len() as int),
            name_views(out@) == sorted_seq(input.take(i as int)),
        decreases rest@.len(),
    {
        let ghost rest_before = rest@;
        let x = rest.remove(0);
        assert(x@ == name_views(rest_before)[0]);
        assert(x@ == input[i as int]);
        let mut p: usize = out.len();
        while p > 0 && !string_le(out[p - 1].as_str(), x.as_str())
            invariant
                p <= out.len(),
                forall|j: int| p <= j < out.len() ==> !lex_le(#[trigger] name_views(out@)[j], x@),
            decreases p,
        {
            p = p - 1;
        }
        proof {
            if p > 0 {
                assert(name_views(out@)[p - 1] == out@[p - 1]@);
            }
            lemma_insert_sorted_at(name_views(out@), x@, p as int);
            assert(input.take(i + 1).drop_last() =~= input.take(i as int));
        }
        let ghost before = out@;
        out.insert(p, x);
        assert(name_views(out@) =~= name_views(before).insert(p as int, x@));
        assert(rest@ =~= rest_before.subrange(1, rest_before.len() as int));
        assert(name_views(rest@) =~= name_views(rest_before).subrange(1, rest_before.len() as int));
        i = i + 1;
        assert(name_views(rest@) =~= input.subrange(i as int, input.len() as int));
    }
    assert(input.take(input.len() as int) =~= input);
    out
}

/// Sorts strings in string order.
pub fn sort_strings(v: Vec<String>) -> (r: Vec<String>)
    ensures
        string_views(r@) == sorted_seq(string_views(v@)),
{
    let ghost input = string_views(v@);
    let mut rest = v;
    let mut out: Vec<String> = Vec::new();
    let mut i: usize = 0;
    assert(input.len() == rest.len());
    while rest.len() > 0
        invariant
            i + rest@.len() == input.len(),
            input.len() <= usize::MAX,
            string_views(rest@) == input.subrange(i as int, input.len() as int),
            string_views(out@) == sorted_seq(input.take(i as int)),
        decreases rest@.len(),
    {
        let ghost rest_before = rest@;
        let x = rest.remove(0);
        assert(x@ == string_views(rest_before)[0]);
        assert(x@ == input[i as int]);
        let mut p: usize = out.len();
        while p > 0 && !string_le(out[p - 1].as_str(), x.as_str())
            invariant
                p <= out.len(),
                forall|j: int| p <= j < out.len() ==> !lex_le(#[trigger] string_views(out@)[j], x@),
            decreases p,
        {
            p = p - 1;
        }
        proof {
            if p > 0 {
                assert(string_views(out@)[p - 1] == out@[p - 1]@);
            }
            lemma_insert_sorted_at(string_views(out@), x@, p as int);
            assert(input.take(i + 1).drop_last() =~= input.take(i as int));
        }
        let ghost before = out@;
        out.insert(p, x);
        assert(string_views(out@) =~= string_views(before).insert(p as int, x@));
        assert(rest@ =~= rest_before.subrange(1, rest_before.len() as int));
        assert(string_views(rest@) =~= string_views(rest_before).subrange(1, rest_before.len() as int));
        i = i + 1;
        assert(string_views(rest@) =~= input.subrange(i as int, input.len() as int));
    }
    assert(input.take(input.len() as int) =~= input);
    out
}

/// The branches the default root adopts: those without a primary parent,
/// other than the root itself and the configured roots, in node order.
pub open spec fn adoptees(nodes: Seq<BranchNode>, root: Seq<char>, roots: Seq<RootBranch>) -> Seq<Seq<char>>
    decreases nodes.len(),
{
    if nodes.len() == 0 {
        seq![]
    } else {
        let rest = adoptees(nodes.drop_last(), root, roots);
        let n = nodes.last();
        if n.topology.primary_parent is None && n.name@ != root && !root_names(roots).contains(n.name@) {
            rest.push(n.name@)
        } else {
            rest
        }
    }
}

/// The names of `add` that `existing` lacks, in order.
pub open spec fn new_names(existing: Seq<Seq<char>>, add: Seq<Seq<char>>) -> Seq<Seq<char>>
    decreases add.len(),
{
    if add.len() == 0 {
        seq![]
    } else if existing.contains(add.last()) {
        new_names(existing, add.drop_last())
    } else {
        new_names(existing, add.drop_last()).push(add.last())
    }
}

/// The edges from `root` to each of `children`.
pub open spec fn edges_from(root: Seq<char>, children: Seq<Seq<char>>) -> Seq<(Seq<char>, Seq<char>)> {
    Seq::new(children.len(), |k: int| (root, children[k]))
}

/// The edges as pairs of names.
pub open spec fn edge_views(edges: Seq<BranchEdge>) -> Seq<(Seq<char>, Seq<char>)> {
    edges.map_values(|e: BranchEdge| (e.from@, e.to@))
}

/// `new` is `old` hung below `root`.
pub open spec fn adopted(new: BranchNode, old: BranchNode, root: Seq<char>) -> bool {
    &&& new.name == old.name
    &&& new.kind == old.kind
    &&& new.head == old.head
    &&& new.upstream == old.upstream
    &&& new.metadata == old.metadata
    &&& new.topology.secondary_parents == old.topology.secondary_parents
    &&& new.topology.children == old.topology.children
    &&& opt_name(new.topology.primary_parent) == Some(root)
}

/// `new` is the root `old` with `adopted` among its children.
pub open spec fn adopting(new: BranchNode, old: BranchNode, adopted_names: Seq<Seq<char>>) -> bool {
    &&& new.name == old.name
    &&& new.kind == old.kind
    &&& new.head == old.head
    &&& new.upstream == old.upstream
    &&& new.metadata == old.metadata
    &&& new.topology.secondary_parents == old.topology.secondary_parents
    &&& new.topology.primary_parent == old.topology.primary_parent
    &&& name_views(new.topology.children@) == sorted_seq(
        name_views(old.topology.children@) + new_names(name_views(old.topology.children@), adopted_names),
    )
}

/// Whether the default root of `state` is a branch of the graph that has
/// orphans to adopt; then which root and which orphans.
pub open spec fn adoption(nodes: Seq<BranchNode>, roots: Seq<RootBranch>) -> Option<(Seq<char>, Seq<Seq<char>>)> {
    match default_root_branch_spec(roots) {
        None => None,
        Some(d) => if has_node(nodes, d) && adoptees(nodes, d, roots).len() > 0 {
            Some((d, adoptees(nodes, d, roots)))
        } else {
            None
        },
    }
}

/// The nodes and edges after the default root adopts the orphans (see
/// `attach_orphans_to_default_root`).
pub open spec fn orphans_attached(
    nodes: Seq<BranchNode>,
    edges: Seq<BranchEdge>,
    old_nodes: Seq<BranchNode>,
    old_edges: Seq<BranchEdge>,
    roots: Seq<RootBranch>,
) -> bool {
    match adoption(old_nodes, roots) {
        None => nodes == old_nodes && edges == old_edges,
        Some((root, orphans)) => {
            &&& nodes.len() == old_nodes.len()
            &&& forall|i: int|
                0 <= i < nodes.len() ==> if orphans.contains(old_nodes[i].name@) {
                    adopted(#[trigger] nodes[i], old_nodes[i], root)
                } else if old_nodes[i].name@ == root {
                    adopting(nodes[i], old_nodes[i], orphans)
                } else {
                    nodes[i] == old_nodes[i]
                }
            &&& edge_views(edges) == edge_views(old_edges) + edges_from(root, orphans)
        },
    }
}

/// The orphans to adopt (see `adoptees`).
fn collect_adoptees(nodes: &[BranchNode], root: &str, configured_roots: &Vec<String>, state: &RepoState) -> (r: Vec<
    BranchName,
>)
    requires
        string_views(configured_roots@) == root_names(state.root_branches@),
    ensures
        name_views(r@) == adoptees(nodes@, root@, state.root_branches@),
{
    let ghost ns = nodes@;
    let mut r: Vec<BranchName> = Vec::new();
    let mut i: usize = 0;
    while i < nodes.len()
        invariant
            i <= nodes.len(),
            ns == nodes@,
            string_views(configured_roots@) == root_names(state.root_branches@),
            name_views(r@) == adoptees(ns.take(i as int), root@, state.root_branches@),
        decreases nodes.len() - i,
    {
        assert(ns.take(i + 1).drop_last() =~= ns.take(i as int));
        let node = &nodes[i];
        if node.topology.primary_parent.is_none() && !str_eq(node.name.as_str(), root) && !among_roots(
            configured_roots,
            node.name.as_str(),
        ) {
            let ghost before = r@;
            r.push(node.name.copy());
            assert(name_views(r@) =~= name_views(before).push(ns[i as int].name@));
        }
        i = i + 1;
    }
    assert(ns.take(ns.len() as int) =~= ns);
    r
}

/// Attaches orphaned branches to the default root: each becomes a child of
/// the root, with an edge from the root, and the root's children are kept
/// sorted. Nothing changes when there is no default root in the graph or
/// no orphan.
pub fn attach_orphans_to_default_root(graph: BranchGraph, repo_state: &RepoState) -> (r: BranchGraph)
    ensures
        r.root_seq() == graph.root_seq(),
        r.current_spec() == graph.current_spec(),
        orphans_attached(r.node_seq(), r.edge_seq(), graph.node_seq(), graph.edge_seq(), repo_state.root_branches@),
{
    let ghost old_nodes = graph.node_seq();
    let d = match default_root_branch(repo_state) {
        Some(d) => d,
        None => {
            return graph;
        },
    };
    let root_name = BranchName::from_string(d);
    if graph.get(&root_name).is_none() {
        return graph;
    }
    let configured_roots = repo_state.get_root_branches();
    let orphans = collect_adoptees(graph.iter(), root_name.as_str(), &configured_roots, repo_state);
    if orphans.len() == 0 {
        return graph;
    }
    let ghost ov = name_views(orphans@);
    let ghost root = root_name@;
    let (nodes, edges, roots, current) = graph.into_parts();
    let mut rest = nodes;
    let mut out: Vec<BranchNode> = Vec::new();
    let mut i: usize = 0;
    assert(old_nodes.len() == rest.len());
    while rest.len() > 0
        invariant
            i + rest@.len() == old_nodes.len(),
            old_nodes.len() <= usize::MAX,
            rest@ == old_nodes.subrange(i as int, old_nodes.len() as int),
            out@.len() == i,
            names_in_order(old_nodes),
            ov == name_views(orphans@),
            root == root_name@,
            forall|j: int| 0 <= j < i ==> #[trigger] out@[j].name@ == old_nodes[j].name@,
            forall|j: int|
                0 <= j < i ==> if ov.contains(old_nodes[j].name@) {
                    adopted(#[trigger] out@[j], old_nodes[j], root)
                } else if old_nodes[j].name@ == root {
                    adopting(out@[j], old_nodes[j], ov)
                } else {
                    out@[j] == old_nodes[j]
                },
        decreases rest@.len(),
    {
        let mut node = rest.remove(0);
        assert(node == old_nodes[i as int]);
        if holds_name(&orphans, &node.name) {
            node.topology.primary_parent = Some(root_name.copy());
        } else if str_eq(node.name.as_str(), root_name.as_str()) {
            let mut children: Vec<BranchName> = Vec::new();
            std::mem::swap(&mut children, &mut node.topology.children);
            let ghost existing = name_views(children@);
            let n0 = children.len();
            let mut k: usize = 0;
            while k < orphans.len()
                invariant
                    k <= orphans.len(),
                    ov == name_views(orphans@),
                    name_views(children@) == existing + new_names(existing, ov.take(k as int)),
                    n0 == existing.len(),
                    n0 <= children.len(),
                decreases orphans.len() - k,
            {
                assert(ov.take(k + 1).drop_last() =~= ov.take(k as int));
                assert(ov.take(k + 1).last() == orphans@[k as int]@);
                assert(name_views(children@).take(n0 as int) =~= existing);
                if !holds_name_prefix(&children, n0, &orphans[k]) {
                    let ghost before = children@;
                    children.push(orphans[k].copy());
                    assert(name_views(children@) =~= name_views(before).push(orphans@[k as int]@));
                }
                k = k + 1;
            }
            assert(ov.take(orphans.len() as int) =~= ov);
            node.topology.children = sort_branch_names(children);
        }
        out.push(node);
        i = i + 1;
        assert(rest@ =~= old_nodes.subrange(i as int, old_nodes.len() as int));
    }
    assert(names_in_order(out@)) by {
        assert forall|a: int, b: int| 0 <= a < b < out@.len() implies lex_lt(#[trigger] out@[a].name@, #[trigger] out@[b].name@) by {
            assert(lex_lt(old_nodes[a].name@, old_nodes[b].name@));
        }
    }
    let mut edges = edges;
    let ghost old_edges = edge_views(edges@);
    let mut k: usize = 0;
    while k < orphans.len()
        invariant
            k <= orphans.len(),
            ov == name_views(orphans@),
            root == root_name@,
            edge_views(edges@) == old_edges + edges_from(root, ov.take(k as int)),
        decreases orphans.len() - k,
    {
        let ghost before = edges@;
        edges.push(BranchEdge::new(root_name.copy(), orphans[k].copy()));
        assert(edge_views(edges@) =~= edge_views(before).push((root, ov[k as int])));
        k = k + 1;
        assert(edges_from(root, ov.take(k as int)) =~= edges_from(root, ov.take(k - 1)).push((root, ov[k - 1])));
    }
    assert(ov.take(orphans.len() as int) =~= ov);
    BranchGraph::from_ordered_parts(out, edges, roots, current)
}

/// Whether the first `n` names of `v` hold `name`.
fn holds_name_prefix(v: &Vec<BranchName>, n: usize, name: &BranchName) -> (b: bool)
    requires
        n <= v.len(),
    ensures
        b == name_views(v@).take(n as int).contains(name@),
{
    let mut i: usize = 0;
    while i < n
        invariant
            i <= n <= v.len(),
            forall|j: int| 0 <= j < i ==> v@[j]@ != name@,
        decreases n - i,
    {
        if str_eq(v[i].as_str(), name.as_str()) {
            assert(name_views(v@).take(n as int)[i as int] == name@);
            return true;
        }
        i = i + 1;
    }
    proof {
        if name_views(v@).take(n as int).contains(name@) {
            let j = choose|j: int| 0 <= j < n && name_views(v@).take(n as int)[j] == name@;
            assert(v@[j]@ == name@);
        }
    }
    false
}

/// The branch name, lower-cased, contains the lower-cased pattern.
pub open spec fn name_matches(name: Seq<char>, needle: Seq<char>) -> bool {
    contains(unicode_lowercase(name), needle)
}

/// The names of the nodes matching the pattern, in node order.
pub open spec fn matching_names(nodes: Seq<BranchNode>, needle: Seq<char>) -> Seq<Seq<char>>
    decreases nodes.len(),
{
    if nodes.len() == 0 {
        seq![]
    } else {
        let rest = matching_names(nodes.drop_last(), needle);
        if name_matches(nodes.last().name@, needle) {
            rest.push(nodes.last().name@)
        } else {
            rest
        }
    }
}

/// The primary parent of the node named `x` (the last such node), if there
/// is such a node.
pub open spec fn parent_of(nodes: Seq<BranchNode>, x: Seq<char>) -> Option<Seq<char>>
    decreases nodes.len(),
{
    if nodes.len() == 0 {
        None
    } else if nodes.last().name@ == x {
        opt_name(nodes.last().topology.primary_parent)
    } else {
        parent_of(nodes.drop_last(), x)
    }
}

/// In nodes with distinct names, the parent of `x` is that of the node
/// named `x`.
proof fn lemma_parent_of_at(nodes: Seq<BranchNode>, x: Seq<char>, i: int)
    requires
        names_in_order(nodes),
        0 <= i < nodes.len(),
        nodes[i].name@ == x,
    ensures
        parent_of(nodes, x) == opt_name(nodes[i].topology.primary_parent),
    decreases nodes.len(),
{
    if i < nodes.len() - 1 {
        assert(lex_lt(nodes[i].name@, nodes[nodes.len() - 1].name@));
        let t = nodes.drop_last();
        assert(names_in_order(t)) by {
            assert forall|a: int, b: int| 0 <= a < b < t.len() implies lex_lt(#[trigger] t[a].name@, #[trigger] t[b].name@) by {
                assert(t[a] == nodes[a] && t[b] == nodes[b]);
            }
        }
        lemma_parent_of_at(t, x, i);
    }
}

/// A parent comes from a node with that name.
proof fn lemma_parent_of_some(nodes: Seq<BranchNode>, x: Seq<char>)
    ensures
        parent_of(nodes, x) matches Some(p) ==> exists|i: int|
            0 <= i < nodes.len() && nodes[i].name@ == x && opt_name(nodes[i].topology.primary_parent) == Some(p),
    decreases nodes.len(),
{
    if nodes.len() > 0 && nodes.last().name@ != x {
        lemma_parent_of_some(nodes.drop_last(), x);
        if parent_of(nodes, x) is Some {
            let i = choose|i: int|
                0 <= i < nodes.len() - 1 && nodes.drop_last()[i].name@ == x && opt_name(
                    nodes.drop_last()[i].topology.primary_parent,
                ) == parent_of(nodes, x);
            assert(nodes[i] == nodes.drop_last()[i]);
        }
    } else if nodes.len() > 0 {
        assert(nodes[nodes.len() - 1].name@ == x);
    }
}

/// `y` is a matching branch, or an ancestor of one through primary
/// parents.
pub open spec fn kept(nodes: Seq<BranchNode>, needle: Seq<char>, y: Seq<char>) -> bool {
    exists|c: Seq<Seq<char>>|
        #![trigger c.last(), c[0]]
        c.len() >= 1 && has_node(nodes, c[0]) && name_matches(c[0], needle) && c.last() == y && forall|k: int|
            0 <= k < c.len() - 1 ==> parent_of(nodes, #[trigger] c[k]) == Some(c[k + 1])
}

/// The names of `v` that are kept.
pub open spec fn kept_names(nodes: Seq<BranchNode>, needle: Seq<char>, v: Seq<Seq<char>>) -> Seq<Seq<char>>
    decreases v.len(),
{
    if v.len() == 0 {
        seq![]
    } else if kept(nodes, needle, v.last()) {
        kept_names(nodes, needle, v.drop_last()).push(v.last())
    } else {
        kept_names(nodes, needle, v.drop_last())
    }
}

/// The edges whose two ends are kept.
pub open spec fn kept_edges(nodes: Seq<BranchNode>, needle: Seq<char>, e: Seq<(Seq<char>, Seq<char>)>) -> Seq<
    (Seq<char>, Seq<char>),
>
    decreases e.len(),
{
    if e.len() == 0 {
        seq![]
    } else if kept(nodes, needle, e.last().0) && kept(nodes, needle, e.last().1) {
        kept_edges(nodes, needle, e.drop_last()).push(e.last())
    } else {
        kept_edges(nodes, needle, e.drop_last())
    }
}

/// The kept nodes, in node order.
pub open spec fn kept_nodes(nodes: Seq<BranchNode>, needle: Seq<char>, v: Seq<BranchNode>) -> Seq<BranchNode>
    decreases v.len(),
{
    if v.len() == 0 {
        seq![]
    } else if kept(nodes, needle, v.last().name@) {
        kept_nodes(nodes, needle, v.drop_last()).push(v.last())
    } else {
        kept_nodes(nodes, needle, v.drop_last())
    }
}

/// A set of names holding the matches and closed under primary parents
/// holds every kept name.
proof fn lemma_closed_holds_kept(nodes: Seq<BranchNode>, needle: Seq<char>, allowed: Set<Seq<char>>, c: Seq<Seq<char>>)
    requires
        c.len() >= 1,
        allowed.contains(c[0]),
        forall|k: int| 0 <= k < c.len() - 1 ==> parent_of(nodes, #[trigger] c[k]) == Some(c[k + 1]),
        forall|y: Seq<char>|
            #[trigger] allowed.contains(y) ==> (parent_of(nodes, y) matches Some(p) ==> allowed.contains(p)),
    ensures
        allowed.contains(c.last()),
    decreases c.len(),
{
    if c.len() > 1 {
        let d = c.drop_first();
        assert(parent_of(nodes, c[0]) == Some(c[1]));
        assert forall|k: int| 0 <= k < d.len() - 1 implies parent_of(nodes, #[trigger] d[k]) == Some(d[k + 1]) by {
            assert(d[k] == c[k + 1]);
            assert(parent_of(nodes, c[k + 1]) == Some(c[k + 2]));
        }
        lemma_closed_holds_kept(nodes, needle, allowed, d);
    }
}

/// Distinct names drawn from a list are no more than its length.
proof fn lemma_distinct_within(v: Seq<Seq<char>>, pool: Seq<Seq<char>>)
    requires
        v.no_duplicates(),
        forall|i: int| 0 <= i < v.len() ==> pool.contains(#[trigger] v[i]),
    ensures
        v.len() <= pool.len(),
{
    v.unique_seq_to_set();
    pool.lemma_cardinality_of_set();
    assert(v.to_set().subset_of(pool.to_set())) by {
        assert forall|x: Seq<char>| v.to_set().contains(x) implies pool.to_set().contains(x) by {
            let i = choose|i: int| 0 <= i < v.len() && v[i] == x;
            assert(pool.contains(v[i]));
        }
    }
    vstd::seq_lib::seq_to_set_is_finite(pool);
    vstd::set_lib::lemma_len_subset(v.to_set(), pool.to_set());
}

/// The names a kept set can hold: the branch names and their primary
/// parents.
pub open spec fn name_pool(nodes: Seq<BranchNode>) -> Seq<Seq<char>> {
    node_names_of(nodes) + parent_names_of(nodes)
}

pub open spec fn node_names_of(nodes: Seq<BranchNode>) -> Seq<Seq<char>> {
    nodes.map_values(|n: BranchNode| n.name@)
}

pub open spec fn parent_names_of(nodes: Seq<BranchNode>) -> Seq<Seq<char>> {
    nodes.map_values(
        |n: BranchNode|
            match n.topology.primary_parent {
                Some(p) => p@,
                None => n.name@,
            },
    )
}

/// The names the pattern picks and their ancestors through primary
/// parents.
fn collect_kept(nodes: &[BranchNode], matches: &Vec<BranchName>, needle: Ghost<Seq<char>>) -> (allowed: Vec<String>)
    requires
        names_in_order(nodes@),
        name_views(matches@) == matching_names(nodes@, needle@),
    ensures
        forall|y: Seq<char>| names_of(allowed@).contains(y) <==> kept(nodes@, needle@, y),
{
    let ghost ns = nodes@;
    let ghost pool = name_pool(ns);
    let mut allowed: Vec<String> = Vec::new();
    let mut stack: Vec<String> = Vec::new();
    let mut i: usize = 0;
    proof {
        lemma_matching_names(ns, needle@);
    }
    while i < matches.len()
        invariant
            i <= matches.len(),
            ns == nodes@,
            name_views(matches@) == matching_names(ns, needle@),
            string_views(allowed@) == name_views(matches@).take(i as int),
            string_views(stack@) == name_views(matches@).take(i as int),
            forall|a: int, b: int| 0 <= a < b < matching_names(ns, needle@).len() ==> lex_lt(
                #[trigger] matching_names(ns, needle@)[a],
                #[trigger] matching_names(ns, needle@)[b],
            ),
            forall|a: int|
                0 <= a < matching_names(ns, needle@).len() ==> has_node(ns, #[trigger] matching_names(ns, needle@)[a])
                    && name_matches(matching_names(ns, needle@)[a], needle@),
        decreases matches.len() - i,
    {
        let ghost ab = allowed@;
        let ghost sb = stack@;
        allowed.push(matches[i].as_str().to_owned());
        stack.push(matches[i].as_str().to_owned());
        assert(string_views(allowed@) =~= string_views(ab).push(name_views(matches@)[i as int]));
        assert(string_views(stack@) =~= string_views(sb).push(name_views(matches@)[i as int]));
        i = i + 1;
        assert(name_views(matches@).take(i as int) =~= name_views(matches@).take(i - 1).push(
            name_views(matches@)[i - 1],
        ));
    }
    assert(name_views(matches@).take(matches.len() as int) =~= name_views(matches@));
    proof {
        let m = matching_names(ns, needle@);
        assert forall|a: int, b: int| 0 <= a < m.len() && 0 <= b < m.len() && a != b implies m[a] != m[b] by {
            if a < b {
                assert(lex_lt(m[a], m[b]));
            } else {
                assert(lex_lt(m[b], m[a]));
            }
        }
        assert forall|a: int| 0 <= a < m.len() implies pool.contains(#[trigger] m[a]) by {
            let j = choose|j: int| 0 <= j < ns.len() && ns[j].name@ == m[a];
            assert(pool[j] == ns[j].name@);
        }
        assert forall|a: int| 0 <= a < m.len() implies kept(ns, needle@, #[trigger] m[a]) by {
            let c = seq![m[a]];
            assert(c.last() == m[a] && c[0] == m[a]);
        }
        lemma_distinct_within(m, pool);
        assert forall|a: int| 0 <= a < stack@.len() implies names_of(allowed@).contains(#[trigger] stack@[a]@) by {
            assert(string_views(stack@)[a] == stack@[a]@);
            assert(string_views(allowed@)[a] == allowed@[a]@);
        }
        assert forall|y: Seq<char>| #[trigger] names_of(allowed@).contains(y) implies names_of(stack@).contains(y) by {
            let a = choose|a: int| 0 <= a < allowed@.len() && allowed@[a]@ == y;
            assert(string_views(stack@)[a] == stack@[a]@);
            assert(string_views(allowed@)[a] == allowed@[a]@);
        }
        assert forall|mm: Seq<char>| #[trigger] has_node(ns, mm) && name_matches(mm, needle@) implies names_of(allowed@).contains(mm) by {
            assert(m.contains(mm));
            let a = choose|a: int| 0 <= a < m.len() && m[a] == mm;
            assert(string_views(allowed@)[a] == allowed@[a]@);
        }
    }
    while stack.len() > 0
        invariant
            ns == nodes@,
            pool == name_pool(ns),
            names_in_order(ns),
            string_views(allowed@).no_duplicates(),
            allowed@.len() <= pool.len(),
            forall|a: int| 0 <= a < allowed@.len() ==> pool.contains(#[trigger] string_views(allowed@)[a]),
            forall|a: int| 0 <= a < allowed@.len() ==> kept(ns, needle@, #[trigger] string_views(allowed@)[a]),
            forall|a: int| 0 <= a < stack@.len() ==> names_of(allowed@).contains(#[trigger] stack@[a]@),
            forall|m: Seq<char>| #[trigger] has_node(ns, m) && name_matches(m, needle@) ==> names_of(allowed@).contains(m),
            forall|y: Seq<char>|
                #[trigger] names_of(allowed@).contains(y) ==> names_of(stack@).contains(y) || (parent_of(ns, y) matches Some(
                    p,
                ) ==> names_of(allowed@).contains(p)),
        decreases 2 * (pool.len() - allowed@.len()) + stack@.len(),
    {
        let ghost sb = stack@;
        let current = stack.pop().unwrap();
        let ghost cur = current@;
        assert(sb.last() == current);
        assert(names_of(allowed@).contains(cur)) by {
            assert(sb[sb.len() - 1]@ == cur);
        }
        let parent = parent_name(nodes, current.as_str());
        proof {
            assert forall|y: Seq<char>| #[trigger] names_of(sb).contains(y) && y != cur implies names_of(stack@).contains(y) by {
                let a = choose|a: int| 0 <= a < sb.len() && sb[a]@ == y;
                assert(a < sb.len() - 1);
                assert(stack@[a] == sb[a]);
            }
        }
        match parent {
            Some(p) => {
                if !seen_has(&allowed, p.as_str()) {
                    let ghost ab = allowed@;
                    let ghost stb = stack@;
                    proof {
                        let a0 = choose|a: int| 0 <= a < allowed@.len() && allowed@[a]@ == cur;
                        assert(string_views(allowed@)[a0] == cur);
                        lemma_kept_parent(ns, needle@, cur, p@);
                        let j = choose|j: int| 0 <= j < ns.len() && ns[j].name@ == cur;
                        lemma_parent_in_pool(ns, cur, p@);
                        let q = string_views(ab).push(p@);
                        assert forall|a: int, b: int| 0 <= a < b < q.len() implies q[a] != q[b] by {
                            if b == q.len() - 1 {
                                assert(string_views(ab)[a] == ab[a]@);
                            }
                        }
                        assert forall|a: int| 0 <= a < q.len() implies pool.contains(#[trigger] q[a]) by {
                            if a < q.len() - 1 {
                                assert(q[a] == string_views(ab)[a]);
                            }
                        }
                        lemma_distinct_within(q, pool);
                    }
                    allowed.push(p.clone());
                    stack.push(p);
                    proof {
                        lemma_names_push(ab, allowed@.last());
                        assert(allowed@ =~= ab.push(allowed@.last()));
                        lemma_names_push(stb, stack@.last());
                        assert(stack@ =~= stb.push(stack@.last()));
                        assert(string_views(allowed@) =~= string_views(ab).push(allowed@.last()@));
                        assert forall|a: int| 0 <= a < allowed@.len() implies kept(ns, needle@, #[trigger] string_views(allowed@)[a]) by {
                            if a < ab.len() {
                                assert(string_views(allowed@)[a] == string_views(ab)[a]);
                            }
                        }
                        assert forall|a: int| 0 <= a < allowed@.len() implies pool.contains(#[trigger] string_views(allowed@)[a]) by {
                            if a < ab.len() {
                                assert(string_views(allowed@)[a] == string_views(ab)[a]);
                            }
                        }
                        assert forall|a: int| 0 <= a < stack@.len() implies names_of(allowed@).contains(#[trigger] stack@[a]@) by {
                            if a < stb.len() {
                                assert(stack@[a] == stb[a]);
                                assert(names_of(ab).contains(stb[a]@));
                            }
                        }
                    }
                }
            },
            None => {},
        }
    }
    proof {
        assert forall|y: Seq<char>| names_of(allowed@).contains(y) <==> kept(ns, needle@, y) by {
            if names_of(allowed@).contains(y) {
                let a = choose|a: int| 0 <= a < allowed@.len() && allowed@[a]@ == y;
                assert(string_views(allowed@)[a] == y);
            }
            if kept(ns, needle@, y) {
                let c = choose|c: Seq<Seq<char>>|
                    #![trigger c.last(), c[0]]
                    c.len() >= 1 && has_node(ns, c[0]) && name_matches(c[0], needle@) && c.last() == y && forall|k: int|
                        0 <= k < c.len() - 1 ==> parent_of(ns, #[trigger] c[k]) == Some(c[k + 1]);
                assert(names_of(allowed@).contains(c[0]));
                assert forall|z: Seq<char>|
                    #[trigger] names_of(allowed@).contains(z) implies (parent_of(ns, z) matches Some(p) ==> names_of(allowed@).contains(p)) by {
                    assert(!names_of(stack@).contains(z));
                }
                lemma_closed_holds_kept(ns, needle@, names_of(allowed@), c);
            }
        }
    }
    allowed
}

/// A kept branch's primary parent is kept.
proof fn lemma_kept_parent(nodes: Seq<BranchNode>, needle: Seq<char>, x: Seq<char>, p: Seq<char>)
    requires
        kept(nodes, needle, x),
        parent_of(nodes, x) == Some(p),
    ensures
        kept(nodes, needle, p),
{
    let c = choose|c: Seq<Seq<char>>|
        #![trigger c.last(), c[0]]
        c.len() >= 1 && has_node(nodes, c[0]) && name_matches(c[0], needle) && c.last() == x && forall|k: int|
            0 <= k < c.len() - 1 ==> parent_of(nodes, #[trigger] c[k]) == Some(c[k + 1]);
    let d = c.push(p);
    assert forall|k: int| 0 <= k < d.len() - 1 implies parent_of(nodes, #[trigger] d[k]) == Some(d[k + 1]) by {
        if k < c.len() - 1 {
            assert(d[k] == c[k] && d[k + 1] == c[k + 1]);
        } else {
            assert(d[k] == x && d[k + 1] == p);
        }
    }
    assert(d[0] == c[0] && d.last() == p);
}

/// A primary parent is among the names a kept set can hold.
proof fn lemma_parent_in_pool(nodes: Seq<BranchNode>, x: Seq<char>, p: Seq<char>)
    requires
        parent_of(nodes, x) == Some(p),
    ensures
        name_pool(nodes).contains(p),
{
    lemma_parent_of_some(nodes, x);
    let i = choose|i: int|
        0 <= i < nodes.len() && nodes[i].name@ == x && opt_name(nodes[i].topology.primary_parent) == Some(p);
    match nodes[i].topology.primary_parent {
        Some(q) => {
            assert(parent_names_of(nodes)[i] == p);
        },
        None => {},
    }
    assert(name_pool(nodes)[nodes.len() + i] == p);
}

/// What the matching names are, and that they come in name order.
proof fn lemma_matching_names(nodes: Seq<BranchNode>, needle: Seq<char>)
    ensures
        forall|m: Seq<char>| matching_names(nodes, needle).contains(m) <==> has_node(nodes, m) && name_matches(m, needle),
        forall|a: int|
            0 <= a < matching_names(nodes, needle).len() ==> has_node(nodes, #[trigger] matching_names(nodes, needle)[a])
                && name_matches(matching_names(nodes, needle)[a], needle),
        names_in_order(nodes) ==> forall|a: int, b: int|
            0 <= a < b < matching_names(nodes, needle).len() ==> lex_lt(
                #[trigger] matching_names(nodes, needle)[a],
                #[trigger] matching_names(nodes, needle)[b],
            ),
    decreases nodes.len(),
{
    if nodes.len() > 0 {
        let t = nodes.drop_last();
        lemma_matching_names(t, needle);
        let r = matching_names(t, needle);
        let x = nodes.last().name@;
        assert forall|m: Seq<char>| has_node(t, m) implies has_node(nodes, m) by {
            let i = choose|i: int| 0 <= i < t.len() && t[i].name@ == m;
            assert(nodes[i] == t[i]);
        }
        assert forall|m: Seq<char>| has_node(nodes, m) && m != x implies has_node(t, m) by {
            let i = choose|i: int| 0 <= i < nodes.len() && nodes[i].name@ == m;
            assert(t[i] == nodes[i]);
        }
        assert(has_node(nodes, x)) by {
            assert(nodes[nodes.len() - 1].name@ == x);
        }
        if name_matches(x, needle) {
            assert forall|m: Seq<char>| r.push(x).contains(m) <==> r.contains(m) || m == x by {
                if r.push(x).contains(m) {
                    let i = choose|i: int| 0 <= i < r.len() + 1 && r.push(x)[i] == m;
                    if i < r.len() {
                        assert(r[i] == m);
                    }
                }
                if r.contains(m) {
                    let i = choose|i: int| 0 <= i < r.len() && r[i] == m;
                    assert(r.push(x)[i] == m);
                }
                if m == x {
                    assert(r.push(x)[r.len() as int] == m);
                }
            }
            if names_in_order(nodes) {
                assert(names_in_order(t)) by {
                    assert forall|i: int, j: int| 0 <= i < j < t.len() implies lex_lt(#[trigger] t[i].name@, #[trigger] t[j].name@) by {
                        assert(t[i] == nodes[i] && t[j] == nodes[j]);
                    }
                }
                assert forall|a: int| 0 <= a < r.len() implies lex_lt(#[trigger] r[a], x) by {
                    let i = choose|i: int| 0 <= i < t.len() && t[i].name@ == r[a];
                    assert(t[i] == nodes[i]);
                    assert(lex_lt(nodes[i].name@, nodes[nodes.len() - 1].name@));
                }
            }
        } else {
            if names_in_order(nodes) {
                assert(names_in_order(t)) by {
                    assert forall|i: int, j: int| 0 <= i < j < t.len() implies lex_lt(#[trigger] t[i].name@, #[trigger] t[j].name@) by {
                        assert(t[i] == nodes[i] && t[j] == nodes[j]);
                    }
                }
            }
        }
    }
}

/// The primary parent of the node named `name`.
fn parent_name(nodes: &[BranchNode], name: &str) -> (r: Option<String>)
    requires
        names_in_order(nodes@),
    ensures
        opt_text(r) == parent_of(nodes@, name@),
{
    let mut i: usize = 0;
    while i < nodes.len()
        invariant
            i <= nodes.len(),
            names_in_order(nodes@),
            forall|j: int| 0 <= j < i ==> nodes@[j].name@ != name@,
        decreases nodes.len() - i,
    {
        if str_eq(nodes[i].name.as_str(), name) {
            proof {
                lemma_parent_of_at(nodes@, name@, i as int);
            }
            return match &nodes[i].topology.primary_parent {
                Some(p) => Some(p.as_str().to_owned()),
                None => None,
            };
        }
        i = i + 1;
    }
    proof {
        lemma_parent_of_none(nodes@, name@);
    }
    None
}

proof fn lemma_parent_of_none(nodes: Seq<BranchNode>, x: Seq<char>)
    requires
        forall|j: int| 0 <= j < nodes.len() ==> nodes[j].name@ != x,
    ensures
        parent_of(nodes, x) is None,
    decreases nodes.len(),
{
    if nodes.len() > 0 {
        assert(nodes[nodes.len() - 1].name@ != x);
        lemma_parent_of_none(nodes.drop_last(), x);
    }
}

/// `new` is `old` with only its kept children.
pub open spec fn pruned_node(new: BranchNode, old: BranchNode, nodes: Seq<BranchNode>, needle: Seq<char>) -> bool {
    &&& crate::branch_graph::same_but_children(new, old)
    &&& name_views(new.topology.children@) == kept_names(nodes, needle, name_views(old.topology.children@))
}

/// The names of `v` held by the set, in order.
fn keep_names(v: &Vec<BranchName>, allowed: &Vec<String>, nodes: Ghost<Seq<BranchNode>>, needle: Ghost<Seq<char>>) -> (r:
    Vec<BranchName>)
    requires
        forall|y: Seq<char>| names_of(allowed@).contains(y) <==> kept(nodes@, needle@, y),
    ensures
        name_views(r@) == kept_names(nodes@, needle@, name_views(v@)),
{
    let ghost w = name_views(v@);
    let mut r: Vec<BranchName> = Vec::new();
    let mut i: usize = 0;
    while i < v.len()
        invariant
            i <= v.len(),
            w == name_views(v@),
            forall|y: Seq<char>| names_of(allowed@).contains(y) <==> kept(nodes@, needle@, y),
            name_views(r@) == kept_names(nodes@, needle@, w.take(i as int)),
        decreases v.len() - i,
    {
        assert(w.take(i + 1).drop_last() =~= w.take(i as int));
        assert(w.take(i + 1).last() == v@[i as int]@);
        if seen_has(allowed, v[i].as_str()) {
            let ghost before = r@;
            r.push(v[i].copy());
            assert(name_views(r@) =~= name_views(before).push(v@[i as int]@));
        }
        i = i + 1;
    }
    assert(w.take(v.len() as int) =~= w);
    r
}

/// Filters a branch graph to the branches whose lower-cased names contain
/// the lower-cased pattern, and their ancestors through primary parents.
/// Returns the filtered graph and the branches that matched, or `None` when
/// none matches. Children, edges and root candidates are kept when they are
/// kept branches; the current branch likewise.
pub fn filter_branch_graph(graph: &BranchGraph, pattern: &str) -> (r: Option<(BranchGraph, Vec<BranchName>)>)
    ensures
        ({
            let needle = unicode_lowercase(pattern@);
            let ns = graph.node_seq();
            &&& r is None <==> matching_names(ns, needle).len() == 0
            &&& r matches Some((g, m)) ==> {
                &&& name_views(m@) == matching_names(ns, needle)
                &&& g.node_seq().len() == kept_nodes(ns, needle, ns).len()
                &&& forall|i: int|
                    0 <= i < g.node_seq().len() ==> pruned_node(
                        #[trigger] g.node_seq()[i],
                        kept_nodes(ns, needle, ns)[i],
                        ns,
                        needle,
                    )
                &&& edge_views(g.edge_seq()) == kept_edges(ns, needle, edge_views(graph.edge_seq()))
                &&& name_views(g.root_seq()) == kept_names(ns, needle, name_views(graph.root_seq()))
                &&& opt_name(g.current_spec()) == match graph.current_spec() {
                    Some(c) => if kept(ns, needle, c@) {
                        Some(c@)
                    } else {
                        None
                    },
                    None => None,
                }
            }
        }),
{
    let needle_s = to_lowercase(pattern);
    let ghost needle = needle_s@;
    let needle_c = chars_of(needle_s.as_str());
    let nodes = graph.iter();
    let ghost ns = nodes@;
    let mut matches: Vec<BranchName> = Vec::new();
    let mut i: usize = 0;
    while i < nodes.len()
        invariant
            i <= nodes.len(),
            ns == nodes@,
            needle_c@ == needle,
            name_views(matches@) == matching_names(ns.take(i as int), needle),
        decreases nodes.len() - i,
    {
        assert(ns.take(i + 1).drop_last() =~= ns.take(i as int));
        let lower = to_lowercase(nodes[i].name.as_str());
        let lower_c = chars_of(lower.as_str());
        if contains_exec(lower_c.as_slice(), needle_c.as_slice()) {
            let ghost before = matches@;
            matches.push(nodes[i].name.copy());
            assert(name_views(matches@) =~= name_views(before).push(ns[i as int].name@));
        }
        i = i + 1;
    }
    assert(ns.take(ns.len() as int) =~= ns);
    if matches.len() == 0 {
        return None;
    }
    let allowed = collect_kept(nodes, &matches, Ghost(needle));
    let mut out: Vec<BranchNode> = Vec::new();
    let mut i: usize = 0;
    while i < nodes.len()
        invariant
            i <= nodes.len(),
            ns == nodes@,
            names_in_order(ns),
            forall|y: Seq<char>| names_of(allowed@).contains(y) <==> kept(ns, needle, y),
            out@.len() == kept_nodes(ns, needle, ns.take(i as int)).len(),
            forall|k: int|
                0 <= k < out@.len() ==> pruned_node(
                    #[trigger] out@[k],
                    kept_nodes(ns, needle, ns.take(i as int))[k],
                    ns,
                    needle,
                ),
            names_in_order(out@),
            forall|k: int, j: int| 0 <= k < out@.len() && i <= j < ns.len() ==> lex_lt(#[trigger] out@[k].name@, #[trigger] ns[j].name@),
        decreases nodes.len() - i,
    {
        assert(ns.take(i + 1).drop_last() =~= ns.take(i as int));
        assert(ns.take(i + 1).last() == ns[i as int]);
        let node = &nodes[i];
        if seen_has(&allowed, node.name.as_str()) {
            let mut copy = node.duplicate();
            copy.topology.children = keep_names(&node.topology.children, &allowed, Ghost(ns), Ghost(needle));
            let ghost before = out@;
            out.push(copy);
            proof {
                assert forall|a: int, b: int| 0 <= a < b < out@.len() implies lex_lt(#[trigger] out@[a].name@, #[trigger] out@[b].name@) by {
                    if b == out@.len() - 1 {
                        assert(lex_lt(before[a].name@, ns[i as int].name@));
                    } else {
                        assert(out@[a] == before[a] && out@[b] == before[b]);
                    }
                }
                assert forall|k: int, j: int| 0 <= k < out@.len() && i + 1 <= j < ns.len() implies lex_lt(#[trigger] out@[k].name@, #[trigger] ns[j].name@) by {
                    if k == out@.len() - 1 {
                        assert(lex_lt(ns[i as int].name@, ns[j].name@));
                    } else {
                        assert(out@[k] == before[k]);
                    }
                }
            }
        } else {
            proof {
                assert forall|k: int, j: int| 0 <= k < out@.len() && i + 1 <= j < ns.len() implies lex_lt(#[trigger] out@[k].name@, #[trigger] ns[j].name@) by {
                }
            }
        }
        i = i + 1;
    }
    assert(ns.take(ns.len() as int) =~= ns);
    let src_edges = graph.edges();
    let ghost ev = edge_views(src_edges@);
    let mut edges: Vec<BranchEdge> = Vec::new();
    let mut k: usize = 0;
    while k < src_edges.len()
        invariant
            k <= src_edges.len(),
            ev == edge_views(src_edges@),
            forall|y: Seq<char>| names_of(allowed@).contains(y) <==> kept(ns, needle, y),
            edge_views(edges@) == kept_edges(ns, needle, ev.take(k as int)),
        decreases src_edges.len() - k,
    {
        assert(ev.take(k + 1).drop_last() =~= ev.take(k as int));
        assert(ev.take(k + 1).last() == (src_edges@[k as int].from@, src_edges@[k as int].to@));
        let e = &src_edges[k];
        if seen_has(&allowed, e.from.as_str()) && seen_has(&allowed, e.to.as_str()) {
            let ghost before = edges@;
            edges.push(BranchEdge::new(e.from.copy(), e.to.copy()));
            assert(edge_views(edges@) =~= edge_views(before).push((e.from@, e.to@)));
        }
        k = k + 1;
    }
    assert(ev.take(src_edges.len() as int) =~= ev);
    let src_roots = graph.root_candidates();
    let roots_vec: Vec<BranchName> = copy_name_slice(src_roots);
    let roots = keep_names(&roots_vec, &allowed, Ghost(ns), Ghost(needle));
    let current = match graph.current_branch() {
        Some(c) => if seen_has(&allowed, c.as_str()) {
            Some(c.copy())
        } else {
            None
        },
        None => None,
    };
    Some((BranchGraph::from_ordered_parts(out, edges, roots, current), matches))
}

/// The names of a slice, as a vector.
fn copy_name_slice(v: &[BranchName]) -> (r: Vec<BranchName>)
    ensures
        name_views(r@) == name_views(v@),
{
    let mut r: Vec<BranchName> = Vec::new();
    let mut i: usize = 0;
    while i < v.len()
        invariant
            i <= v.len(),
            name_views(r@) == name_views(v@).take(i as int),
        decreases v.len() - i,
    {
        let ghost before = r@;
        r.push(v[i].copy());
        assert(name_views(r@) =~= name_views(before).push(v@[i as int]@));
        i = i + 1;
        assert(name_views(r@) =~= name_views(v@).take(i as int));
    }
    assert(name_views(v@).take(v.len() as int) =~= name_views(v@));
    r
}

} // verus!

//! The branch graph: nodes kept in name order, one per branch, with the
//! edges between them, the candidate roots and the current branch.
use vstd::prelude::*;

use crate::graph::{BranchDivergence, BranchEdge, BranchKind, BranchName, BranchStaleState, BranchTopology};
use crate::lex::{lemma_lex_antisym, lemma_lex_lt_trans, lemma_lex_total, lex_le, lex_lt, string_le};

verus! {

/// Summary information about the commit a branch head points to.
#[derive(Debug, Clone)]
pub struct BranchHead {
    /// Object identifier of the tip commit, in hex.
    pub oid: String,
    /// First line of the commit message.
    pub summary: Option<String>,
    /// Author of the commit.
    pub author: Option<String>,
    /// Commit time, in seconds since the Unix epoch.
    pub committed_at: Option<i64>,
}

/// Rich value that can be attached to a branch as metadata.
#[derive(Debug, Clone)]
pub enum BranchAnnotationValue {
    Text(String),
    Numeric(i64),
    /// An instant, written in RFC 3339.
    Timestamp(String),
    Flag(bool),
}

/// Metadata renderers and workflows use about a branch.
#[derive(Debug, Clone)]
pub struct BranchNodeMetadata {
    /// Whether the branch is the one checked out.
    pub is_current: bool,
    /// Whether analytics consider the branch stale.
    pub stale_state: Option<BranchStaleState>,
    /// Divergence relative to the branch's primary parent.
    pub divergence: Option<BranchDivergence>,
    /// Labels, as a sorted set.
    pub labels: Vec<String>,
    /// Annotations, keyed by name.
    pub annotations: Vec<(String, BranchAnnotationValue)>,
}

/// Node within a branch graph.
#[derive(Debug, Clone)]
pub struct BranchNode {
    pub name: BranchName,
    pub kind: BranchKind,
    pub head: BranchHead,
    pub upstream: Option<BranchName>,
    pub topology: BranchTopology,
    pub metadata: BranchNodeMetadata,
}

/// The names of a list of branch names.
pub open spec fn name_views(v: Seq<BranchName>) -> Seq<Seq<char>> {
    v.map_values(|n: BranchName| n@)
}

fn copy_names(v: &Vec<BranchName>) -> (r: Vec<BranchName>)
    ensures
        name_views(r@) == name_views(v@),
{
    let mut r: Vec<BranchName> = Vec::new();
    let mut i: usize = 0;
    while i < v.len()
        invariant
            i <= v.len(),
            name_views(r@) == name_views(v@).take(i as int),
        decreases v.len() - i,
    {
        let ghost before = r@;
        r.push(v[i].copy());
        assert(name_views(r@) =~= name_views(before).push(v@[i as int]@));
        i = i + 1;
        assert(name_views(r@) =~= name_views(v@).take(i as int));
    }
    assert(name_views(v@).take(v.len() as int) =~= name_views(v@));
    r
}

/// Two nodes carry the same information apart from their children: equal
/// fields, names compared by their characters.
pub open spec fn same_but_children(a: BranchNode, b: BranchNode) -> bool {
    &&& a.name@ == b.name@
    &&& a.kind == b.kind
    &&& a.head == b.head
    &&& match (a.upstream, b.upstream) {
        (Some(x), Some(y)) => x@ == y@,
        (None, None) => true,
        _ => false,
    }
    &&& match (a.topology.primary_parent, b.topology.primary_parent) {
        (Some(x), Some(y)) => x@ == y@,
        (None, None) => true,
        _ => false,
    }
    &&& name_views(a.topology.secondary_parents@) == name_views(b.topology.secondary_parents@)
    &&& a.metadata.is_current == b.metadata.is_current
    &&& a.metadata.stale_state == b.metadata.stale_state
    &&& a.metadata.divergence == b.metadata.divergence
    &&& a.metadata.labels@ == b.metadata.labels@
    &&& a.metadata.annotations@ == b.metadata.annotations@
}

/// Two nodes carry the same information.
pub open spec fn same_node(a: BranchNode, b: BranchNode) -> bool {
    &&& same_but_children(a, b)
    &&& name_views(a.topology.children@) == name_views(b.topology.children@)
}

impl BranchNode {
    /// Whether the node is the repository's current branch.
    pub fn is_current(&self) -> (b: bool)
        ensures
            b == self.metadata.is_current,
    {
        self.metadata.is_current
    }

    /// A copy of the node.
    pub fn duplicate(&self) -> (r: Self)
        ensures
            same_node(r, *self),
    {
        BranchNode {
            name: self.name.copy(),
            kind: self.kind,
            head: BranchHead {
                oid: self.head.oid.clone(),
                summary: match &self.head.summary {
                    Some(s) => Some(s.clone()),
                    None => None,
                },
                author: match &self.head.author {
                    Some(s) => Some(s.clone()),
                    None => None,
                },
                committed_at: self.head.committed_at,
            },
            upstream: match &self.upstream {
                Some(u) => Some(u.copy()),
                None => None,
            },
            topology: BranchTopology {
                primary_parent: match &self.topology.primary_parent {
                    Some(p) => Some(p.copy()),
                    None => None,
                },
                secondary_parents: copy_names(&self.topology.secondary_parents),
                children: copy_names(&self.topology.children),
            },
            metadata: BranchNodeMetadata {
                is_current: self.metadata.is_current,
                stale_state: self.metadata.stale_state,
                divergence: self.metadata.divergence,
                labels: self.metadata.labels.clone(),
                annotations: copy_annotations(&self.metadata.annotations),
            },
        }
    }
}

fn copy_annotation(v: &BranchAnnotationValue) -> (r: BranchAnnotationValue)
    ensures
        r == *v,
{
    match v {
        BranchAnnotationValue::Text(t) => BranchAnnotationValue::Text(t.clone()),
        BranchAnnotationValue::Numeric(n) => BranchAnnotationValue::Numeric(*n),
        BranchAnnotationValue::Timestamp(t) => BranchAnnotationValue::Timestamp(t.clone()),
        BranchAnnotationValue::Flag(f) => BranchAnnotationValue::Flag(*f),
    }
}

fn copy_annotations(v: &Vec<(String, BranchAnnotationValue)>) -> (r: Vec<(String, BranchAnnotationValue)>)
    ensures
        r@ == v@,
{
    let mut r: Vec<(String, BranchAnnotationValue)> = Vec::new();
    let mut i: usize = 0;
    while i < v.len()
        invariant
            i <= v.len(),
            r@ == v@.take(i as int),
        decreases v.len() - i,
    {
        r.push((v[i].0.clone(), copy_annotation(&v[i].1)));
        i = i + 1;
        assert(r@ =~= v@.take(i as int));
    }
    assert(v@.take(v.len() as int) =~= v@);
    r
}

/// The names of the nodes, in order.
pub open spec fn node_names(nodes: Seq<BranchNode>) -> Seq<Seq<char>> {
    nodes.map_values(|n: BranchNode| n.name@)
}

/// Names strictly increasing: each branch once, in name order.
pub open spec fn names_in_order(nodes: Seq<BranchNode>) -> bool {
    forall|i: int, j: int| 0 <= i < j < nodes.len() ==> lex_lt(#[trigger] nodes[i].name@, #[trigger] nodes[j].name@)
}

/// Some node is named `name`.
pub open spec fn has_node(nodes: Seq<BranchNode>, name: Seq<char>) -> bool {
    exists|i: int| 0 <= i < nodes.len() && nodes[i].name@ == name
}

/// `nodes[j]` is the last node named `name`.
pub open spec fn last_named(nodes: Seq<BranchNode>, name: Seq<char>, j: int) -> bool {
    &&& 0 <= j < nodes.len()
    &&& nodes[j].name@ == name
    &&& forall|k: int| j < k < nodes.len() ==> nodes[k].name@ != name
}

/// `out` holds, in name order, one node per name of `input`: the last one
/// given under that name.
pub open spec fn keyed_by_name(out: Seq<BranchNode>, input: Seq<BranchNode>) -> bool {
    &&& names_in_order(out)
    &&& forall|name: Seq<char>| has_node(out, name) <==> has_node(input, name)
    &&& forall|i: int| 0 <= i < out.len() ==> exists|j: int| last_named(input, out[i].name@, j) && same_node(#[trigger] out[i], input[j])
}

/// Graph combining branch nodes and the edges that connect them.
#[derive(Debug)]
pub struct BranchGraph {
    nodes: Vec<BranchNode>,
    edges: Vec<BranchEdge>,
    root_candidates: Vec<BranchName>,
    current_branch: Option<BranchName>,
}

impl BranchGraph {
    #[verifier::type_invariant]
    spec fn well_formed(self) -> bool {
        names_in_order(self.nodes@)
    }

    /// The nodes, in name order.
    pub closed spec fn node_seq(&self) -> Seq<BranchNode> {
        self.nodes@
    }

    /// The edges, as recorded.
    pub closed spec fn edge_seq(&self) -> Seq<BranchEdge> {
        self.edges@
    }

    /// The candidate roots, as recorded.
    pub closed spec fn root_seq(&self) -> Seq<BranchName> {
        self.root_candidates@
    }

    /// The current branch, if any.
    pub closed spec fn current_spec(&self) -> Option<BranchName> {
        self.current_branch
    }

    /// An empty branch graph.
    pub fn new() -> (g: Self)
        ensures
            g.node_seq().len() == 0,
            g.edge_seq().len() == 0,
            g.root_seq().len() == 0,
            g.current_spec() is None,
    {
        BranchGraph { nodes: Vec::new(), edges: Vec::new(), root_candidates: Vec::new(), current_branch: None }
    }

    /// A graph from its parts: one node per name, the last one given under
    /// it, in name order.
    pub fn from_parts(
        nodes: Vec<BranchNode>,
        edges: Vec<BranchEdge>,
        root_candidates: Vec<BranchName>,
        current_branch: Option<BranchName>,
    ) -> (g: Self)
        ensures
            keyed_by_name(g.node_seq(), nodes@),
            g.edge_seq() == edges@,
            g.root_seq() == root_candidates@,
            g.current_spec() == current_branch,
    {
        let sorted = key_by_name(nodes);
        BranchGraph { nodes: sorted, edges, root_candidates, current_branch }
    }

    /// A graph from parts whose nodes are already one per name, in name
    /// order.
    pub fn from_ordered_parts(
        nodes: Vec<BranchNode>,
        edges: Vec<BranchEdge>,
        root_candidates: Vec<BranchName>,
        current_branch: Option<BranchName>,
    ) -> (g: Self)
        requires
            names_in_order(nodes@),
        ensures
            g.node_seq() == nodes@,
            g.edge_seq() == edges@,
            g.root_seq() == root_candidates@,
            g.current_spec() == current_branch,
    {
        BranchGraph { nodes, edges, root_candidates, current_branch }
    }

    /// Number of nodes.
    pub fn len(&self) -> (n: usize)
        ensures
            n == self.node_seq().len(),
    {
        self.nodes.len()
    }

    /// Whether the graph has no branches.
    pub fn is_empty(&self) -> (b: bool)
        ensures
            b == (self.node_seq().len() == 0),
    {
        self.nodes.len() == 0
    }

    /// The nodes, in name order.
    pub fn iter(&self) -> (r: &[BranchNode])
        ensures
            r@ == self.node_seq(),
            names_in_order(r@),
    {
        proof {
            use_type_invariant(self);
        }
        self.nodes.as_slice()
    }

    /// The node with this name.
    pub fn get(&self, name: &BranchName) -> (r: Option<&BranchNode>)
        ensures
            r is Some <==> has_node(self.node_seq(), name@),
            r matches Some(n) ==> exists|i: int|
                0 <= i < self.node_seq().len() && self.node_seq()[i] == *n && n.name@ == name@,
    {
        let mut i: usize = 0;
        while i < self.nodes.len()
            invariant
                i <= self.nodes.len(),
                forall|j: int| 0 <= j < i ==> self.nodes@[j].name@ != name@,
            decreases self.nodes.len() - i,
        {
            if crate::strs::str_eq(self.nodes[i].name.as_str(), name.as_str()) {
                return Some(&self.nodes[i]);
            }
            i = i + 1;
        }
        None
    }

    /// The branch checked out, if any.
    pub fn current_branch(&self) -> (r: Option<&BranchName>)
        ensures
            match r {
                Some(b) => self.current_spec() == Some(*b),
                None => self.current_spec() is None,
            },
    {
        match &self.current_branch {
            Some(b) => Some(b),
            None => None,
        }
    }

    /// Candidate roots for rendering.
    pub fn root_candidates(&self) -> (r: &[BranchName])
        ensures
            r@ == self.root_seq(),
    {
        self.root_candidates.as_slice()
    }

    /// The recorded edges.
    pub fn edges(&self) -> (r: &[BranchEdge])
        ensures
            r@ == self.edge_seq(),
    {
        self.edges.as_slice()
    }

    /// The graph taken apart.
    pub fn into_parts(self) -> (r: (Vec<BranchNode>, Vec<BranchEdge>, Vec<BranchName>, Option<BranchName>))
        ensures
            r.0@ == self.node_seq(),
            names_in_order(r.0@),
            r.1@ == self.edge_seq(),
            r.2@ == self.root_seq(),
            r.3 == self.current_spec(),
    {
        proof {
            use_type_invariant(&self);
        }
        (self.nodes, self.edges, self.root_candidates, self.current_branch)
    }
}

/// The nodes keyed by name (see `keyed_by_name`).
fn key_by_name(input: Vec<BranchNode>) -> (out: Vec<BranchNode>)
    ensures
        keyed_by_name(out@, input@),
{
    let ghost inp = input@;
    let mut rest = input;
    let mut out: Vec<BranchNode> = Vec::new();
    let mut i: usize = 0;
    assert(inp.len() == rest.len());
    while rest.len() > 0
        invariant
            i + rest@.len() == inp.len(),
            inp.len() <= usize::MAX,
            rest@ == inp.subrange(i as int, inp.len() as int),
            keyed_by_name(out@, inp.take(i as int)),
        decreases rest@.len(),
    {
        let x = rest.remove(0);
        assert(x == inp[i as int]);
        let ghost pre = inp.take(i as int);
        let ghost post = inp.take(i + 1);
        assert(post =~= pre.push(x));
        let mut p: usize = 0;
        while p < out.len() && !string_le(x.name.as_str(), out[p].name.as_str())
            invariant
                p <= out.len(),
                forall|j: int| 0 <= j < p ==> lex_lt(#[trigger] out@[j].name@, x.name@),
            decreases out.len() - p,
        {
            proof {
                lemma_lex_total(x.name@, out@[p as int].name@);
                if out@[p as int].name@ == x.name@ {
                    crate::lex::lemma_lex_refl(x.name@);
                }
            }
            p = p + 1;
        }
        let ghost before = out@;
        if p < out.len() && crate::strs::str_eq(out[p].name.as_str(), x.name.as_str()) {
            out.set(p, x);
            proof {
                lemma_replace_keeps_keyed(before, pre, x, p as int);
            }
        } else {
            out.insert(p, x);
            proof {
                lemma_insert_keeps_keyed(before, pre, x, p as int);
            }
        }
        i = i + 1;
        assert(rest@ =~= inp.subrange(i as int, inp.len() as int));
    }
    assert(inp.take(inp.len() as int) =~= inp);
    out
}

/// Replacing the node of the same name keeps the keying, one more input.
proof fn lemma_replace_keeps_keyed(out: Seq<BranchNode>, pre: Seq<BranchNode>, x: BranchNode, p: int)
    requires
        keyed_by_name(out, pre),
        0 <= p < out.len(),
        out[p].name@ == x.name@,
    ensures
        keyed_by_name(out.update(p, x), pre.push(x)),
{
    let n = out.update(p, x);
    let q = pre.push(x);
    assert forall|i: int, j: int| 0 <= i < j < n.len() implies lex_lt(#[trigger] n[i].name@, #[trigger] n[j].name@) by {
        assert(lex_lt(out[i].name@, out[j].name@));
    }
    assert forall|name: Seq<char>| has_node(n, name) <==> has_node(q, name) by {
        if has_node(n, name) {
            let i = choose|i: int| 0 <= i < n.len() && n[i].name@ == name;
            if i == p {
                assert(q[pre.len() as int] == x);
            } else {
                assert(has_node(out, name));
                let j = choose|j: int| 0 <= j < pre.len() && pre[j].name@ == name;
                assert(q[j] == pre[j]);
            }
        }
        if has_node(q, name) {
            let j = choose|j: int| 0 <= j < q.len() && q[j].name@ == name;
            if j == pre.len() {
                assert(n[p] == x);
            } else {
                assert(has_node(pre, name));
                let i = choose|i: int| 0 <= i < out.len() && out[i].name@ == name;
                assert(n[i].name@ == name);
            }
        }
    }
    assert forall|i: int| 0 <= i < n.len() implies exists|j: int| last_named(q, n[i].name@, j) && same_node(#[trigger] n[i], q[j]) by {
        if i == p {
            assert(last_named(q, x.name@, pre.len() as int));
            assert(same_node(x, x));
        } else {
            let j = choose|j: int| last_named(pre, out[i].name@, j) && same_node(out[i], pre[j]);
            assert(out[i].name@ != x.name@) by {
                if i < p {
                    assert(lex_lt(out[i].name@, out[p].name@));
                } else {
                    assert(lex_lt(out[p].name@, out[i].name@));
                }
            }
            assert(last_named(q, n[i].name@, j));
        }
    }
}

/// Inserting a node of a new name at its place keeps the keying, one more
/// input.
proof fn lemma_insert_keeps_keyed(out: Seq<BranchNode>, pre: Seq<BranchNode>, x: BranchNode, p: int)
    requires
        keyed_by_name(out, pre),
        0 <= p <= out.len(),
        forall|j: int| 0 <= j < p ==> lex_lt(#[trigger] out[j].name@, x.name@),
        p < out.len() ==> lex_le(x.name@, out[p].name@) && out[p].name@ != x.name@,
    ensures
        keyed_by_name(out.insert(p, x), pre.push(x)),
{
    let n = out.insert(p, x);
    let q = pre.push(x);
    assert forall|i: int, j: int| 0 <= i < j < n.len() implies lex_lt(#[trigger] n[i].name@, #[trigger] n[j].name@) by {
        if i < p && j < p {
            assert(lex_lt(out[i].name@, out[j].name@));
        } else if i < p && j == p {
        } else if i < p && j > p {
            assert(lex_lt(out[i].name@, x.name@));
            assert(lex_lt(x.name@, out[p].name@));
            if j - 1 > p {
                assert(lex_lt(out[p].name@, out[j - 1].name@));
                lemma_lex_lt_trans(x.name@, out[p].name@, out[j - 1].name@);
            }
            lemma_lex_lt_trans(out[i].name@, x.name@, out[j - 1].name@);
        } else if i == p {
            assert(lex_lt(x.name@, out[p].name@));
            if j - 1 > p {
                assert(lex_lt(out[p].name@, out[j - 1].name@));
                lemma_lex_lt_trans(x.name@, out[p].name@, out[j - 1].name@);
            }
        } else {
            assert(lex_lt(out[i - 1].name@, out[j - 1].name@));
        }
    }
    assert(!has_node(out, x.name@)) by {
        if has_node(out, x.name@) {
            let i = choose|i: int| 0 <= i < out.len() && out[i].name@ == x.name@;
            if i < p {
                assert(lex_lt(out[i].name@, x.name@));
            } else if i > p {
                assert(lex_lt(out[p].name@, out[i].name@));
                lemma_lex_antisym(x.name@, out[p].name@);
            }
        }
    }
    assert forall|name: Seq<char>| has_node(n, name) <==> has_node(q, name) by {
        if has_node(n, name) {
            let i = choose|i: int| 0 <= i < n.len() && n[i].name@ == name;
            if i == p {
                assert(q[pre.len() as int] == x);
            } else {
                let k = if i < p { i } else { i - 1 };
                assert(out[k].name@ == name);
                assert(has_node(out, name));
                let j = choose|j: int| 0 <= j < pre.len() && pre[j].name@ == name;
                assert(q[j] == pre[j]);
            }
        }
        if has_node(q, name) {
            let j = choose|j: int| 0 <= j < q.len() && q[j].name@ == name;
            if j == pre.len() {
                assert(n[p] == x);
            } else {
                assert(has_node(pre, name));
                let i = choose|i: int| 0 <= i < out.len() && out[i].name@ == name;
                if i < p {
                    assert(n[i].name@ == name);
                } else {
                    assert(n[i + 1].name@ == name);
                }
            }
        }
    }
    assert forall|i: int| 0 <= i < n.len() implies exists|j: int| last_named(q, n[i].name@, j) && same_node(#[trigger] n[i], q[j]) by {
        if i == p {
            assert(last_named(q, x.name@, pre.len() as int));
            assert(same_node(x, x));
        } else {
            let k = if i < p { i } else { i - 1 };
            assert(n[i] == out[k]);
            let j = choose|j: int| last_named(pre, out[k].name@, j) && same_node(out[k], pre[j]);
            assert(out[k].name@ != x.name@);
            assert(last_named(q, n[i].name@, j));
        }
    }
}

} // verus!

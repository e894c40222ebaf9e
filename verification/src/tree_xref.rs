//! The branch tree drawn with its cross references made visible: branches
//! reached again are pointed back to, branches on a dependency cycle are
//! flagged, and the cycles are listed first.
use vstd::prelude::*;

use crate::output::{
    blue_code, bold, dimmed, fg, italic, paint_blue, paint_bold, paint_dimmed, paint_green, paint_italic, paint_red,
    red_code,
};
use crate::strs::{decimal, decimal_string, push_str, str_eq};
use crate::tree_renderer::{
    branch_index, child_prefix, child_prefix_exec, concat_all, contains_string, cross_ref_lookup, join,
    join_strings, lemma_branch_index, lemma_names_push, lemma_unseen_bounded, lemma_unseen_insert, lemma_unseen_mono,
    lines_text, name_display, names_of, opt_view, push_lines, reference_count, seen_has, string_views, too_deep,
    unseen, with_metadata, BranchNode, CrossRefInfo, TreeRenderer, TreeView,
};

verus! {

/// The first position of `c` in `path`.
pub open spec fn first_position(path: Seq<Seq<char>>, c: Seq<char>) -> Option<int>
    decreases path.len(),
{
    if path.len() == 0 {
        None
    } else {
        match first_position(path.drop_last(), c) {
            Some(i) => Some(i),
            None => if path.last() == c {
                Some(path.len() - 1)
            } else {
                None
            },
        }
    }
}

/// The cycle closed by meeting `c` again: the path from the first `c` on
/// (from the start when `c` is not on it), and `c` once more.
pub open spec fn closed_cycle(path: Seq<Seq<char>>, c: Seq<char>) -> Seq<Seq<char>> {
    let start = match first_position(path, c) {
        Some(i) => i,
        None => 0,
    };
    path.subrange(start, path.len() as int).push(c)
}

/// The depth-first search for a cycle from `name`, given the branches
/// visited, the branches on the search stack and the path walked to `name`:
/// the cycle found, if any, and the visited and stack sets after it.
pub open spec fn cycle_from(
    nodes: Seq<BranchNode>,
    name: Seq<char>,
    visited: Set<Seq<char>>,
    stack: Set<Seq<char>>,
    path: Seq<Seq<char>>,
) -> (Option<Seq<Seq<char>>>, Set<Seq<char>>, Set<Seq<char>>)
    decreases unseen(nodes, visited), 0nat, 0nat,
{
    if visited.contains(name) {
        (None, visited, stack)
    } else {
        match branch_index(nodes, name) {
            None => (None, visited.insert(name), stack.insert(name).remove(name)),
            Some(i) => {
                proof {
                    lemma_branch_index(nodes, name);
                    lemma_unseen_insert(nodes, visited, name, i);
                }
                cycle_children(
                    nodes,
                    string_views(nodes[i].children@),
                    0,
                    name,
                    visited.insert(name),
                    stack.insert(name),
                    path.push(name),
                )
            },
        }
    }
}

/// The search through the children `children[k..]` of `name`.
pub open spec fn cycle_children(
    nodes: Seq<BranchNode>,
    children: Seq<Seq<char>>,
    k: nat,
    name: Seq<char>,
    visited: Set<Seq<char>>,
    stack: Set<Seq<char>>,
    path: Seq<Seq<char>>,
) -> (Option<Seq<Seq<char>>>, Set<Seq<char>>, Set<Seq<char>>)
    decreases unseen(nodes, visited), 1nat, children.len() - k,
{
    if k >= children.len() {
        (None, visited, stack.remove(name))
    } else {
        let c = children[k as int];
        if !visited.contains(c) {
            let sub = cycle_from(nodes, c, visited, stack, path);
            match sub.0 {
                Some(cy) => (Some(cy), sub.1, sub.2),
                None => {
                    proof {
                        lemma_unseen_mono(nodes, visited, visited.union(sub.1));
                    }
                    cycle_children(nodes, children, k + 1, name, visited.union(sub.1), sub.2, path)
                },
            }
        } else if stack.contains(c) {
            (Some(closed_cycle(path, c)), visited, stack)
        } else {
            cycle_children(nodes, children, k + 1, name, visited, stack, path)
        }
    }
}

/// The cycles found by searching from each branch not yet visited, in the
/// order of the branches; the stack carries over from one search to the
/// next.
pub open spec fn cycles_from(nodes: Seq<BranchNode>, k: nat, visited: Set<Seq<char>>, stack: Set<Seq<char>>) -> Seq<
    Seq<Seq<char>>,
>
    decreases nodes.len() - k,
{
    if k >= nodes.len() {
        seq![]
    } else {
        let name = nodes[k as int].name@;
        if visited.contains(name) {
            cycles_from(nodes, k + 1, visited, stack)
        } else {
            let r = cycle_from(nodes, name, visited, stack, seq![]);
            let rest = cycles_from(nodes, k + 1, r.1, r.2);
            match r.0 {
                Some(c) => seq![c] + rest,
                None => rest,
            }
        }
    }
}

/// The character views of an optional list of strings.
pub open spec fn opt_string_views(o: Option<Vec<String>>) -> Option<Seq<Seq<char>>> {
    match o {
        Some(v) => Some(string_views(v@)),
        None => None,
    }
}

/// The cycles of a list of cycles, as characters.
pub open spec fn cycle_views(v: Seq<Vec<String>>) -> Seq<Seq<Seq<char>>> {
    v.map_values(|c: Vec<String>| string_views(c@))
}

/// `v` without any copy of `name`.
fn without_name(v: Vec<String>, name: &str) -> (r: Vec<String>)
    ensures
        names_of(r@) == names_of(v@).remove(name@),
{
    let mut r: Vec<String> = Vec::new();
    let mut i: usize = 0;
    while i < v.len()
        invariant
            i <= v.len(),
            forall|x: Seq<char>| #[trigger] names_of(r@).contains(x) <==> (x != name@ && exists|j: int| 0 <= j < i && v@[j]@ == x),
        decreases v.len() - i,
    {
        if !str_eq(v[i].as_str(), name) {
            let ghost before = r@;
            r.push(v[i].clone());
            proof {
                lemma_names_push(before, r@.last());
                assert(r@ =~= before.push(r@.last()));
            }
        }
        proof {
            assert forall|x: Seq<char>| #[trigger] names_of(r@).contains(x) <==> (x != name@ && exists|j: int|
                0 <= j < i + 1 && v@[j]@ == x) by {
                if x != name@ && v@[i as int]@ == x {
                    assert(names_of(r@).contains(x));
                }
                if x != name@ && (exists|j: int| 0 <= j < i + 1 && v@[j]@ == x) && !(v@[i as int]@ == x) {
                    let j = choose|j: int| 0 <= j < i + 1 && v@[j]@ == x;
                    assert(j < i);
                }
            }
        }
        i = i + 1;
    }
    assert(names_of(r@) =~= names_of(v@).remove(name@));
    r
}

/// The first position of `c` in `path`, or the start.
fn cycle_start(path: &Vec<String>, c: &str) -> (i: usize)
    ensures
        i as int == match first_position(string_views(path@), c@) {
            Some(k) => k,
            None => 0,
        },
        i <= path.len(),
{
    let ghost p = string_views(path@);
    let mut i: usize = 0;
    while i < path.len()
        invariant
            i <= path.len(),
            p == string_views(path@),
            first_position(p.take(i as int), c@) is None,
        decreases path.len() - i,
    {
        assert(p.take(i + 1).drop_last() =~= p.take(i as int));
        if str_eq(path[i].as_str(), c) {
            proof {
                lemma_first_position_at(p, c@, i as int);
            }
            return i;
        }
        i = i + 1;
    }
    assert(p.take(path.len() as int) =~= p);
    0
}

proof fn lemma_first_position_at(p: Seq<Seq<char>>, c: Seq<char>, i: int)
    requires
        0 <= i < p.len(),
        first_position(p.take(i), c) is None,
        p[i] == c,
    ensures
        first_position(p, c) == Some(i),
    decreases p.len(),
{
    if i == p.len() - 1 {
        assert(p.drop_last() =~= p.take(i));
    } else {
        assert(p.drop_last().take(i) =~= p.take(i));
        lemma_first_position_at(p.drop_last(), c, i);
    }
}

impl TreeRenderer {
    /// The depth-first search for a cycle from `name` (not yet visited).
    fn find_cycle_from_branch(&self, name: &str, visited: Vec<String>, stack: Vec<String>, path: &Vec<String>) -> (r: (
        Option<Vec<String>>,
        Vec<String>,
        Vec<String>,
    ))
        requires
            !names_of(visited@).contains(name@),
        ensures
            ({
                let s = cycle_from(self.branch_nodes@, name@, names_of(visited@), names_of(stack@), string_views(path@));
                &&& opt_string_views(r.0) == s.0
                &&& names_of(r.1@) == s.1
                &&& names_of(r.2@) == s.2
            }),
            names_of(visited@).subset_of(names_of(r.1@)),
        decreases unseen(self.branch_nodes@, names_of(visited@)),
    {
        let ghost nodes = self.branch_nodes@;
        let ghost v0 = names_of(visited@);
        let ghost st0 = names_of(stack@);
        let ghost p0 = string_views(path@);
        let mut vis = visited;
        let mut st = stack;
        let ghost vb = vis@;
        let ghost sb = st@;
        vis.push(name.to_owned());
        st.push(name.to_owned());
        proof {
            lemma_names_push(vb, vis@.last());
            assert(vis@ =~= vb.push(vis@.last()));
            lemma_names_push(sb, st@.last());
            assert(st@ =~= sb.push(st@.last()));
        }
        let mut path1: Vec<String> = path.clone();
        assert(path1@ == path@);
        let ghost pb = path1@;
        path1.push(name.to_owned());
        assert(string_views(path1@) =~= p0.push(name@));
        let idx = self.find_branch(name);
        proof {
            lemma_branch_index(nodes, name@);
        }
        match idx {
            None => {
                let st = without_name(st, name);
                (None, vis, st)
            },
            Some(i) => {
                proof {
                    lemma_unseen_insert(nodes, v0, name@, i as int);
                }
                let node = &self.branch_nodes[i];
                let children = &node.children;
                let n = children.len();
                let ghost kids = string_views(children@);
                let ghost whole = cycle_children(nodes, kids, 0, name@, v0.insert(name@), st0.insert(name@), p0.push(name@));
                assert(cycle_from(nodes, name@, v0, st0, p0) == whole);
                let mut k: usize = 0;
                while k < n
                    invariant
                        nodes == self.branch_nodes@,
                        i < nodes.len(),
                        *node == nodes[i as int],
                        *children == node.children,
                        n == children.len(),
                        kids == string_views(children@),
                        k <= n,
                        !v0.contains(name@),
                        v0 == names_of(visited@),
                        st0 == names_of(stack@),
                        p0 == string_views(path@),
                        unseen(nodes, v0.insert(name@)) < unseen(nodes, v0),
                        v0.insert(name@).subset_of(names_of(vis@)),
                        string_views(path1@) == p0.push(name@),
                        whole == cycle_children(nodes, kids, 0, name@, v0.insert(name@), st0.insert(name@), p0.push(name@)),
                        cycle_from(nodes, name@, v0, st0, p0) == whole,
                        cycle_children(nodes, kids, k as nat, name@, names_of(vis@), names_of(st@), p0.push(name@))
                            == whole,
                    decreases n - k,
                {
                    proof {
                        lemma_unseen_mono(nodes, v0.insert(name@), names_of(vis@));
                    }
                    let ghost vk = names_of(vis@);
                    let ghost sk = names_of(st@);
                    assert(kids[k as int] == children@[k as int]@);
                    let child = children[k].as_str();
                    if !seen_has(&vis, child) {
                        let (found, v2, s2) = self.find_cycle_from_branch(child, vis, st, &path1);
                        vis = v2;
                        st = s2;
                        proof {
                            assert(vk.union(names_of(vis@)) =~= names_of(vis@));
                        }
                        match found {
                            Some(cy) => {
                                proof {
                                    let sub = cycle_from(nodes, child@, vk, sk, p0.push(name@));
                                    assert(sub.0 == Some(string_views(cy@)));
                                    assert(cycle_children(nodes, kids, k as nat, name@, vk, sk, p0.push(name@)) == (
                                    Some(string_views(cy@)), sub.1, sub.2));
                                }
                                return (Some(cy), vis, st);
                            },
                            None => {},
                        }
                    } else if seen_has(&st, child) {
                        let start = cycle_start(&path1, child);
                        let mut cy: Vec<String> = Vec::new();
                        let mut j: usize = start;
                        while j < path1.len()
                            invariant
                                start <= j <= path1.len(),
                                string_views(cy@) == string_views(path1@).subrange(start as int, j as int),
                            decreases path1.len() - j,
                        {
                            let ghost before = cy@;
                            cy.push(path1[j].clone());
                            assert(string_views(cy@) =~= string_views(before).push(path1@[j as int]@));
                            j = j + 1;
                            assert(string_views(cy@) =~= string_views(path1@).subrange(start as int, j as int));
                        }
                        let ghost before = cy@;
                        cy.push(child.to_owned());
                        assert(string_views(cy@) =~= string_views(before).push(child@));
                        assert(string_views(cy@) == closed_cycle(p0.push(name@), child@));
                        assert(cycle_children(nodes, kids, k as nat, name@, vk, sk, p0.push(name@)) == (
                        Some(closed_cycle(p0.push(name@), child@)), vk, sk));
                        return (Some(cy), vis, st);
                    }
                    k = k + 1;
                }
                let st = without_name(st, name);
                (None, vis, st)
            },
        }
    }

    /// The dependency cycles among the branches: a depth-first search from
    /// every branch not yet visited, in the order of the branches, each
    /// reporting the first cycle it closes.
    pub fn detect_circular_dependencies(&self) -> (r: Vec<Vec<String>>)
        ensures
            cycle_views(r@) == cycles_from(self.branch_nodes@, 0, Set::empty(), Set::empty()),
    {
        let ghost nodes = self.branch_nodes@;
        let mut cycles: Vec<Vec<String>> = Vec::new();
        let mut visited: Vec<String> = Vec::new();
        let mut stack: Vec<String> = Vec::new();
        let empty_path: Vec<String> = Vec::new();
        assert(names_of(visited@) =~= Set::<Seq<char>>::empty());
        assert(names_of(stack@) =~= Set::<Seq<char>>::empty());
        assert(string_views(empty_path@) =~= Seq::<Seq<char>>::empty());
        let mut k: usize = 0;
        while k < self.branch_nodes.len()
            invariant
                k <= self.branch_nodes.len(),
                nodes == self.branch_nodes@,
                string_views(empty_path@) == Seq::<Seq<char>>::empty(),
                cycle_views(cycles@) + cycles_from(nodes, k as nat, names_of(visited@), names_of(stack@)) == cycles_from(
                    nodes,
                    0,
                    Set::empty(),
                    Set::empty(),
                ),
            decreases self.branch_nodes.len() - k,
        {
            let name = self.branch_nodes[k].name.as_str();
            if !seen_has(&visited, name) {
                let ghost acc = cycle_views(cycles@);
                let (found, v2, s2) = self.find_cycle_from_branch(name, visited, stack, &empty_path);
                visited = v2;
                stack = s2;
                match found {
                    Some(cy) => {
                        let ghost cyv = string_views(cy@);
                        cycles.push(cy);
                        assert(cycle_views(cycles@) =~= acc.push(cyv));
                        let ghost rest = cycles_from(nodes, (k + 1) as nat, names_of(visited@), names_of(stack@));
                        assert(acc + (seq![cyv] + rest) =~= acc.push(cyv) + rest);
                    },
                    None => {},
                }
            }
            k = k + 1;
        }
        cycles
    }
}

/// Some cycle passes through `name`.
pub open spec fn in_cycle(cycles: Seq<Seq<Seq<char>>>, name: Seq<char>) -> bool {
    exists|i: int| 0 <= i < cycles.len() && cycles[i].contains(name)
}

/// The connector drawn before a branch met again.
pub open spec fn reference_symbol(circular: bool, last: bool) -> Seq<char> {
    if circular {
        if last {
            "└🔄─ "@
        } else {
            "├🔄─ "@
        }
    } else if last {
        "└→─ "@
    } else {
        "├→─ "@
    }
}

/// The flag put after a branch on a cycle.
pub open spec fn circular_tag(no_color: bool) -> Seq<char> {
    if no_color {
        " [CIRCULAR]"@
    } else {
        bold(fg(red_code(), " [CIRCULAR]"@))
    }
}

/// The line drawn for a branch met again: it points back up the tree.
pub open spec fn reference_line(
    no_color: bool,
    name: Seq<char>,
    depth: nat,
    prefix: Seq<Seq<char>>,
    last: bool,
    circular: bool,
) -> Seq<char> {
    concat_all(prefix) + (if depth > 0 {
        reference_symbol(circular, last)
    } else {
        seq![]
    }) + (if no_color {
        name + " (see above)"@
    } else {
        dimmed(name) + " "@ + dimmed(italic("(see above)"@))
    }) + (if circular {
        circular_tag(no_color)
    } else {
        seq![]
    })
}

/// What the drawing shows of a branch's cross references.
pub open spec fn xref_info(r: TreeView, cycles: Seq<Seq<Seq<char>>>, node: BranchNode) -> CrossRefInfo {
    CrossRefInfo {
        has_multiple_parents: node.parents@.len() > 1,
        is_cross_referenced: cross_ref_lookup(r.refs, node.name@) is Some,
        is_in_circular_dep: in_cycle(cycles, node.name@),
        reference_count: reference_count(r.nodes, node.name@) as usize,
    }
}

/// The connector drawn before a branch: a cycle mark, a mark for several
/// parents, a mark for several references, or the plain one.
pub open spec fn xref_symbol(info: CrossRefInfo, last: bool) -> Seq<char> {
    if info.is_in_circular_dep {
        reference_symbol(true, last)
    } else if info.has_multiple_parents {
        if last {
            "└◈─ "@
        } else {
            "├◈─ "@
        }
    } else if info.reference_count > 1 {
        if last {
            "└◇─ "@
        } else {
            "├◇─ "@
        }
    } else if last {
        "└── "@
    } else {
        "├── "@
    }
}

/// The count of references to a branch, as shown after it.
pub open spec fn refs_tag(count: usize, no_color: bool) -> Seq<char> {
    " [refs:"@ + (if no_color {
        decimal(count as nat)
    } else {
        fg(blue_code(), decimal(count as nat))
    }) + "]"@
}

/// The line drawn for a branch met the first time.
pub open spec fn xref_branch_line(
    r: TreeView,
    node: BranchNode,
    depth: nat,
    prefix: Seq<Seq<char>>,
    last: bool,
    info: CrossRefInfo,
) -> Seq<char> {
    with_metadata(
        r.no_color,
        r.tree_width,
        r.refs,
        concat_all(prefix) + (if depth > 0 {
            xref_symbol(info, last)
        } else {
            seq![]
        }) + name_display(node, r.no_color) + (if info.reference_count > 1 {
            refs_tag(info.reference_count, r.no_color)
        } else {
            seq![]
        }) + (if info.is_in_circular_dep {
            circular_tag(r.no_color)
        } else {
            seq![]
        }),
        node,
    )
}

/// Whether a child is drawn: past the reference depth limit, children that
/// have several parents are left out.
pub open spec fn renders_child(max_ref_depth: Option<u32>, depth: nat, refs: Seq<(String, Vec<String>)>, child: Seq<
    char,
>) -> bool {
    match max_ref_depth {
        Some(m) => depth < m || cross_ref_lookup(refs, child) is None,
        None => true,
    }
}

/// Lines drawn for `name`: a pointer back when it was met before, else its
/// line and the subtree below; and the branches met by then.
pub open spec fn xref_lines(
    r: TreeView,
    cycles: Seq<Seq<Seq<char>>>,
    max_ref_depth: Option<u32>,
    name: Seq<char>,
    depth: nat,
    prefix: Seq<Seq<char>>,
    last: bool,
    seen: Set<Seq<char>>,
) -> (Seq<Seq<char>>, Set<Seq<char>>)
    decreases unseen(r.nodes, seen), 0nat, 0nat,
{
    if too_deep(r.max_depth, depth) {
        (seq![], seen)
    } else if seen.contains(name) {
        (seq![reference_line(r.no_color, name, depth, prefix, last, in_cycle(cycles, name))], seen)
    } else {
        match branch_index(r.nodes, name) {
            None => (seq![], seen.insert(name)),
            Some(i) => {
                proof {
                    lemma_branch_index(r.nodes, name);
                    lemma_unseen_insert(r.nodes, seen, name, i);
                }
                let node = r.nodes[i];
                let below = xref_children(
                    r,
                    cycles,
                    max_ref_depth,
                    string_views(node.children@),
                    0,
                    depth,
                    prefix,
                    last,
                    seen.insert(name),
                );
                (
                    seq![xref_branch_line(r, node, depth, prefix, last, xref_info(r, cycles, node))] + below.0,
                    below.1,
                )
            },
        }
    }
}

/// Lines for the children `children[k..]` of a branch drawn at `depth`.
pub open spec fn xref_children(
    r: TreeView,
    cycles: Seq<Seq<Seq<char>>>,
    max_ref_depth: Option<u32>,
    children: Seq<Seq<char>>,
    k: nat,
    depth: nat,
    prefix: Seq<Seq<char>>,
    last: bool,
    seen: Set<Seq<char>>,
) -> (Seq<Seq<char>>, Set<Seq<char>>)
    decreases unseen(r.nodes, seen), 1nat, children.len() - k,
{
    if k >= children.len() {
        (seq![], seen)
    } else if renders_child(max_ref_depth, depth, r.refs, children[k as int]) {
        let first = xref_lines(
            r,
            cycles,
            max_ref_depth,
            children[k as int],
            depth + 1,
            child_prefix(prefix, depth, last),
            k == children.len() - 1,
            seen,
        );
        proof {
            lemma_unseen_mono(r.nodes, seen, seen.union(first.1));
        }
        let rest = xref_children(r, cycles, max_ref_depth, children, k + 1, depth, prefix, last, seen.union(first.1));
        (first.0 + rest.0, rest.1)
    } else {
        xref_children(r, cycles, max_ref_depth, children, k + 1, depth, prefix, last, seen)
    }
}

/// The cycle list shown before the trees.
pub open spec fn cycles_header(cycles: Seq<Seq<Seq<char>>>) -> Seq<char> {
    if cycles.len() == 0 {
        seq![]
    } else {
        "⚠️  Circular dependencies detected:\n"@ + cycle_entries(cycles) + "\n"@
    }
}

/// One line per cycle, numbered from one.
pub open spec fn cycle_entries(cycles: Seq<Seq<Seq<char>>>) -> Seq<char>
    decreases cycles.len(),
{
    if cycles.len() == 0 {
        seq![]
    } else {
        cycle_entries(cycles.drop_last()) + "  Cycle "@ + decimal(cycles.len()) + ": "@ + join(cycles.last(), " → "@)
            + "\n"@
    }
}

/// The summary of branches with several parents shown after the trees.
pub open spec fn refs_summary(refs: Seq<(String, Vec<String>)>) -> Seq<char> {
    if refs.len() == 0 {
        seq![]
    } else {
        "\n📎 Cross-references summary:\n"@ + refs_entries(refs)
    }
}

/// One line per branch with several parents.
pub open spec fn refs_entries(refs: Seq<(String, Vec<String>)>) -> Seq<char>
    decreases refs.len(),
{
    if refs.len() == 0 {
        seq![]
    } else {
        refs_entries(refs.drop_last()) + "  "@ + refs.last().0@ + " ← "@ + join(string_views(refs.last().1@), ", "@)
            + "\n"@
    }
}

/// The trees below `roots[k..]`, drawn with cross references, separated by
/// the delimiter; and the branches met by then.
pub open spec fn xref_roots_text(
    r: TreeView,
    cycles: Seq<Seq<Seq<char>>>,
    max_ref_depth: Option<u32>,
    roots: Seq<Seq<char>>,
    delimiter: Option<Seq<char>>,
    k: nat,
    seen: Set<Seq<char>>,
) -> (Seq<char>, Set<Seq<char>>)
    decreases roots.len() - k,
{
    if k >= roots.len() {
        (seq![], seen)
    } else {
        let delim = match delimiter {
            Some(d) => if k > 0 {
                d
            } else {
                seq![]
            },
            None => seq![],
        };
        let t = xref_lines(r, cycles, max_ref_depth, roots[k as int], 0, seq![], k == roots.len() - 1, seen);
        let rest = xref_roots_text(r, cycles, max_ref_depth, roots, delimiter, k + 1, t.1);
        (delim + lines_text(t.0) + rest.0, rest.1)
    }
}

/// Whether some cycle of the list passes through `name`.
pub(crate) fn in_cycle_exec(cycles: &Vec<Vec<String>>, name: &String) -> (b: bool)
    ensures
        b == in_cycle(cycle_views(cycles@), name@),
{
    let mut i: usize = 0;
    while i < cycles.len()
        invariant
            i <= cycles.len(),
            forall|j: int| 0 <= j < i ==> !cycle_views(cycles@)[j].contains(name@),
        decreases cycles.len() - i,
    {
        assert(cycle_views(cycles@)[i as int] == string_views(cycles@[i as int]@));
        if contains_string(&cycles[i], name) {
            return true;
        }
        i = i + 1;
    }
    false
}

impl TreeRenderer {
    /// The line drawn for a branch met again (see `reference_line`).
    pub fn print_branch_reference(
        &self,
        branch_name: &str,
        depth: u32,
        prefix: &Vec<String>,
        is_last_sibling: bool,
        is_in_circular_dep: bool,
    ) -> (r: String)
        ensures
            r@ == reference_line(
                self.no_color,
                branch_name@,
                depth as nat,
                string_views(prefix@),
                is_last_sibling,
                is_in_circular_dep,
            ),
    {
        let mut line = String::new();
        let mut i: usize = 0;
        while i < prefix.len()
            invariant
                i <= prefix.len(),
                line@ == concat_all(string_views(prefix@).take(i as int)),
            decreases prefix.len() - i,
        {
            assert(string_views(prefix@).take(i + 1).drop_last() =~= string_views(prefix@).take(i as int));
            push_str(&mut line, prefix[i].as_str());
            i = i + 1;
        }
        assert(string_views(prefix@).take(prefix.len() as int) =~= string_views(prefix@));
        if depth > 0 {
            if is_in_circular_dep {
                if is_last_sibling {
                    push_str(&mut line, "└🔄─ ");
                } else {
                    push_str(&mut line, "├🔄─ ");
                }
            } else if is_last_sibling {
                push_str(&mut line, "└→─ ");
            } else {
                push_str(&mut line, "├→─ ");
            }
        }
        if self.no_color {
            push_str(&mut line, branch_name);
            push_str(&mut line, " (see above)");
        } else {
            push_str(&mut line, paint_dimmed(branch_name).as_str());
            push_str(&mut line, " ");
            let see = paint_italic("(see above)");
            push_str(&mut line, paint_dimmed(see.as_str()).as_str());
        }
        if is_in_circular_dep {
            self.push_circular_tag(&mut line);
        }
        line
    }

    /// Appends the cycle flag.
    pub(crate) fn push_circular_tag(&self, line: &mut String)
        ensures
            final(line)@ == old(line)@ + circular_tag(self.no_color),
    {
        if self.no_color {
            push_str(line, " [CIRCULAR]");
        } else {
            let red = paint_red(" [CIRCULAR]");
            push_str(line, paint_bold(red.as_str()).as_str());
        }
    }

    /// The line drawn for a branch met the first time (see
    /// `xref_branch_line`).
    pub fn print_branch_with_cross_refs(
        &self,
        node: &BranchNode,
        depth: u32,
        prefix: &Vec<String>,
        is_last_sibling: bool,
        cross_ref_info: &CrossRefInfo,
    ) -> (r: String)
        ensures
            r@ == xref_branch_line(self@, *node, depth as nat, string_views(prefix@), is_last_sibling, *cross_ref_info),
    {
        let mut line = prefix_text(prefix);
        let ghost l0 = line@;
        if depth > 0 {
            push_str(&mut line, xref_symbol_text(cross_ref_info, is_last_sibling));
        }
        let ghost l1 = line@;
        let name = self.name_text(node);
        push_str(&mut line, name.as_str());
        let ghost l2 = line@;
        if cross_ref_info.reference_count > 1 {
            let tag = self.refs_text(cross_ref_info.reference_count);
            push_str(&mut line, tag.as_str());
        }
        let ghost l3 = line@;
        if cross_ref_info.is_in_circular_dep {
            self.push_circular_tag(&mut line);
        }
        proof {
            let sym = if depth > 0 {
                xref_symbol(*cross_ref_info, is_last_sibling)
            } else {
                seq![]
            };
            let refs = if cross_ref_info.reference_count > 1 {
                refs_tag(cross_ref_info.reference_count, self.no_color)
            } else {
                seq![]
            };
            let circ = if cross_ref_info.is_in_circular_dep {
                circular_tag(self.no_color)
            } else {
                seq![]
            };
            assert(l1 == l0 + sym);
            assert(l2 == l1 + name_display(*node, self.no_color));
            assert(l3 == l2 + refs);
            assert(line@ == l3 + circ);
            assert(line@ =~= concat_all(string_views(prefix@)) + sym + name_display(*node, self.no_color) + refs
                + circ);
        }
        self.add_branch_metadata(&mut line, node);
        line
    }

    /// The branch name as drawn (see `name_display`).
    pub(crate) fn name_text(&self, node: &BranchNode) -> (r: String)
        ensures
            r@ == name_display(*node, self.no_color),
    {
        let mut line = String::new();
        if node.is_current {
            if self.no_color {
                push_str(&mut line, node.name.as_str());
            } else {
                let green = paint_green(node.name.as_str());
                push_str(&mut line, paint_bold(green.as_str()).as_str());
            }
            push_str(&mut line, " (current)");
            proof {
                reveal_strlit(" (current)");
            }
        } else {
            push_str(&mut line, node.name.as_str());
        }
        line
    }

    /// The reference count tag (see `refs_tag`).
    fn refs_text(&self, count: usize) -> (r: String)
        ensures
            r@ == refs_tag(count, self.no_color),
    {
        let mut line = String::new();
        push_str(&mut line, " [refs:");
        let n = decimal_string(count as u64);
        if self.no_color {
            push_str(&mut line, n.as_str());
        } else {
            push_str(&mut line, paint_blue(n.as_str()).as_str());
        }
        push_str(&mut line, "]");
        line
    }
}

/// The prefix segments one after another.
pub(crate) fn prefix_text(prefix: &Vec<String>) -> (r: String)
    ensures
        r@ == concat_all(string_views(prefix@)),
{
    let mut line = String::new();
    let mut i: usize = 0;
    while i < prefix.len()
        invariant
            i <= prefix.len(),
            line@ == concat_all(string_views(prefix@).take(i as int)),
        decreases prefix.len() - i,
    {
        assert(string_views(prefix@).take(i + 1).drop_last() =~= string_views(prefix@).take(i as int));
        push_str(&mut line, prefix[i].as_str());
        i = i + 1;
    }
    assert(string_views(prefix@).take(prefix.len() as int) =~= string_views(prefix@));
    line
}

/// The connector before a branch met the first time (see `xref_symbol`).
fn xref_symbol_text(info: &CrossRefInfo, last: bool) -> (r: &'static str)
    ensures
        r@ == xref_symbol(*info, last),
{
    if info.is_in_circular_dep {
        if last {
            "└🔄─ "
        } else {
            "├🔄─ "
        }
    } else if info.has_multiple_parents {
        if last {
            "└◈─ "
        } else {
            "├◈─ "
        }
    } else if info.reference_count > 1 {
        if last {
            "└◇─ "
        } else {
            "├◇─ "
        }
    } else if last {
        "└── "
    } else {
        "├── "
    }
}

impl TreeRenderer {
    /// Lines for `name` (a pointer back when met before, else its line and
    /// its subtree), given the branches already met.
    fn xref_lines_from(
        &self,
        name: &str,
        depth: u32,
        prefix: &Vec<String>,
        last: bool,
        seen_in: Vec<String>,
        cycles: &Vec<Vec<String>>,
        max_ref_depth: Option<u32>,
    ) -> (r: (Vec<String>, Vec<String>))
        requires
            depth + unseen(self.branch_nodes@, names_of(seen_in@)) <= u32::MAX,
            self.branch_nodes@.len() <= u32::MAX,
        ensures
            ({
                let t = xref_lines(
                    self@,
                    cycle_views(cycles@),
                    max_ref_depth,
                    name@,
                    depth as nat,
                    string_views(prefix@),
                    last,
                    names_of(seen_in@),
                );
                &&& string_views(r.0@) == t.0
                &&& names_of(r.1@) == t.1
            }),
            names_of(seen_in@).subset_of(names_of(r.1@)),
        decreases unseen(self.branch_nodes@, names_of(seen_in@)),
    {
        let ghost nodes = self.branch_nodes@;
        let ghost cyc = cycle_views(cycles@);
        let ghost seen0 = names_of(seen_in@);
        let deep = match self.max_depth {
            Some(m) => depth > m,
            None => false,
        };
        if deep {
            return (Vec::new(), seen_in);
        }
        let name_s = name.to_owned();
        let circ = in_cycle_exec(cycles, &name_s);
        if seen_has(&seen_in, name) {
            let mut lines: Vec<String> = Vec::new();
            lines.push(self.print_branch_reference(name, depth, prefix, last, circ));
            assert(string_views(lines@) =~= seq![
                reference_line(self.no_color, name@, depth as nat, string_views(prefix@), last, in_cycle(cyc, name@)),
            ]);
            return (lines, seen_in);
        }
        let ghost seen_before = seen_in@;
        let mut seen = seen_in;
        seen.push(name_s);
        proof {
            lemma_names_push(seen_before, seen@.last());
            assert(seen@ =~= seen_before.push(seen@.last()));
        }
        let idx = self.find_branch(name);
        proof {
            lemma_branch_index(nodes, name@);
        }
        match idx {
            None => (Vec::new(), seen),
            Some(i) => {
                proof {
                    lemma_unseen_insert(nodes, seen0, name@, i as int);
                }
                let node = &self.branch_nodes[i];
                let info = CrossRefInfo {
                    has_multiple_parents: node.parents.len() > 1,
                    is_cross_referenced: self.cross_refs_of(&node.name).is_some(),
                    is_in_circular_dep: circ,
                    reference_count: self.count_branch_references(node.name.as_str()),
                };
                assert(info == xref_info(self@, cyc, nodes[i as int]));
                let mut lines: Vec<String> = Vec::new();
                lines.push(self.print_branch_with_cross_refs(node, depth, prefix, last, &info));
                let ghost line0 = xref_branch_line(self@, nodes[i as int], depth as nat, string_views(prefix@), last, info);
                let children = &node.children;
                let n = children.len();
                let ghost kids = string_views(children@);
                let ghost s_start = seen0.insert(name@);
                let ghost whole = xref_children(
                    self@,
                    cyc,
                    max_ref_depth,
                    kids,
                    0,
                    depth as nat,
                    string_views(prefix@),
                    last,
                    s_start,
                );
                let child_pre = child_prefix_exec(prefix, depth, last);
                assert(string_views(lines@).drop_first() + whole.0 =~= whole.0);
                let mut k: usize = 0;
                while k < n
                    invariant
                        nodes == self.branch_nodes@,
                        nodes.len() <= u32::MAX,
                        cyc == cycle_views(cycles@),
                        i < nodes.len(),
                        *node == nodes[i as int],
                        *children == node.children,
                        n == children.len(),
                        kids == string_views(children@),
                        k <= n,
                        seen0 == names_of(seen_in@),
                        !seen0.contains(name@),
                        !too_deep(self.max_depth, depth as nat),
                        branch_index(nodes, name@) == Some(i as int),
                        s_start == seen0.insert(name@),
                        depth + unseen(nodes, seen0) <= u32::MAX,
                        unseen(nodes, s_start) < unseen(nodes, seen0),
                        s_start.subset_of(names_of(seen@)),
                        string_views(child_pre@) == child_prefix(string_views(prefix@), depth as nat, last),
                        whole == xref_children(
                            self@,
                            cyc,
                            max_ref_depth,
                            kids,
                            0,
                            depth as nat,
                            string_views(prefix@),
                            last,
                            s_start,
                        ),
                        string_views(lines@).drop_first() + xref_children(
                            self@,
                            cyc,
                            max_ref_depth,
                            kids,
                            k as nat,
                            depth as nat,
                            string_views(prefix@),
                            last,
                            names_of(seen@),
                        ).0 == whole.0,
                        xref_children(
                            self@,
                            cyc,
                            max_ref_depth,
                            kids,
                            k as nat,
                            depth as nat,
                            string_views(prefix@),
                            last,
                            names_of(seen@),
                        ).1 == whole.1,
                        lines@.len() >= 1,
                        string_views(lines@)[0] == line0,
                    decreases n - k,
                {
                    proof {
                        lemma_unseen_mono(nodes, s_start, names_of(seen@));
                    }
                    let ghost s_k = names_of(seen@);
                    let ghost acc = string_views(lines@).drop_first();
                    assert(kids[k as int] == children@[k as int]@);
                    assert(kids.len() == n);
                    let render = match max_ref_depth {
                        Some(m) => depth < m || self.cross_refs_of(&children[k]).is_none(),
                        None => true,
                    };
                    if render {
                        let (more, s1) = self.xref_lines_from(
                            children[k].as_str(),
                            depth + 1,
                            &child_pre,
                            k == n - 1,
                            seen,
                            cycles,
                            max_ref_depth,
                        );
                        let ghost more_v = string_views(more@);
                        let mut more = more;
                        lines.append(&mut more);
                        seen = s1;
                        proof {
                            assert(s_k.union(names_of(seen@)) =~= names_of(seen@));
                            assert(string_views(lines@).drop_first() =~= acc + more_v);
                            let rest = xref_children(
                                self@,
                                cyc,
                                max_ref_depth,
                                kids,
                                (k + 1) as nat,
                                depth as nat,
                                string_views(prefix@),
                                last,
                                names_of(seen@),
                            );
                            assert(acc + (more_v + rest.0) =~= (acc + more_v) + rest.0);
                        }
                    }
                    k = k + 1;
                }
                proof {
                    assert(string_views(lines@) =~= seq![line0] + string_views(lines@).drop_first());
                    assert(whole.0 =~= string_views(lines@).drop_first());
                }
                (lines, seen)
            },
        }
    }

    /// Draws `branch_name` with cross references: a pointer back when it was
    /// met before, else its line and, depth first, its subtree; children
    /// with several parents are left out past `max_ref_depth`.
    pub fn render_tree_with_enhanced_cross_refs(
        &mut self,
        branch_name: &str,
        depth: u32,
        prefix: &Vec<String>,
        is_last_sibling: bool,
        max_ref_depth: Option<u32>,
        circular_deps: &Vec<Vec<String>>,
    ) -> (out: String)
        requires
            depth + unseen(old(self).branch_nodes@, names_of(old(self).visited@)) <= u32::MAX,
            old(self).branch_nodes@.len() <= u32::MAX,
        ensures
            final(self)@ == old(self)@,
            ({
                let t = xref_lines(
                    old(self)@,
                    cycle_views(circular_deps@),
                    max_ref_depth,
                    branch_name@,
                    depth as nat,
                    string_views(prefix@),
                    is_last_sibling,
                    names_of(old(self).visited@),
                );
                &&& out@ == lines_text(t.0)
                &&& names_of(final(self).visited@) == t.1
            }),
    {
        let mut seen: Vec<String> = Vec::new();
        std::mem::swap(&mut seen, &mut self.visited);
        let (lines, seen2) = self.xref_lines_from(
            branch_name,
            depth,
            prefix,
            is_last_sibling,
            seen,
            circular_deps,
            max_ref_depth,
        );
        self.visited = seen2;
        let mut out = String::new();
        push_lines(&mut out, &lines);
        out
    }

    /// Draws the trees below each root with cross references: first the
    /// dependency cycles, when asked to show cross references; then the
    /// trees, the delimiter between consecutive ones, every branch drawn
    /// once; then the branches with several parents.
    pub fn render_with_enhanced_cross_refs(
        &mut self,
        roots: &Vec<String>,
        delimiter: Option<&str>,
        show_cross_refs: bool,
        max_ref_depth: Option<u32>,
    ) -> (out: String)
        requires
            old(self).branch_nodes@.len() <= u32::MAX,
        ensures
            final(self).branch_nodes@ == old(self).branch_nodes@,
            final(self).cross_refs@ == old(self).cross_refs@,
            final(self).max_depth == old(self).max_depth,
            final(self).no_color == old(self).no_color,
            final(self).tree_width == old(self).tree_width,
            ({
                let cycles = if show_cross_refs {
                    cycles_from(old(self).branch_nodes@, 0, Set::empty(), Set::empty())
                } else {
                    seq![]
                };
                let trees = xref_roots_text(
                    old(self)@,
                    cycles,
                    max_ref_depth,
                    string_views(roots@),
                    opt_view(delimiter),
                    0,
                    Set::empty(),
                );
                &&& out@ == cycles_header(cycles) + trees.0 + (if show_cross_refs {
                    refs_summary(old(self).cross_refs@)
                } else {
                    seq![]
                })
                &&& names_of(final(self).visited@) == trees.1
            }),
    {
        let cycles: Vec<Vec<String>> = if show_cross_refs {
            self.detect_circular_dependencies()
        } else {
            Vec::new()
        };
        let ghost cyc = cycle_views(cycles@);
        assert(cyc =~= (if show_cross_refs {
            cycles_from(old(self).branch_nodes@, 0, Set::empty(), Set::empty())
        } else {
            seq![]
        }));
        let mut out = cycles_header_text(&cycles);
        self.visited.clear();
        assert(names_of(self.visited@) =~= Set::<Seq<char>>::empty());
        let ghost v = self@;
        let ghost rs = string_views(roots@);
        let ghost whole = xref_roots_text(v, cyc, max_ref_depth, rs, opt_view(delimiter), 0, Set::empty());
        let ghost head = out@;
        let empty: Vec<String> = Vec::new();
        assert(string_views(empty@) =~= seq![]);
        let mut i: usize = 0;
        while i < roots.len()
            invariant
                i <= roots.len(),
                self@ == v,
                v.nodes.len() <= u32::MAX,
                rs == string_views(roots@),
                cyc == cycle_views(cycles@),
                string_views(empty@) == Seq::<Seq<char>>::empty(),
                out@ + xref_roots_text(v, cyc, max_ref_depth, rs, opt_view(delimiter), i as nat, names_of(self.visited@)).0
                    == head + whole.0,
                xref_roots_text(v, cyc, max_ref_depth, rs, opt_view(delimiter), i as nat, names_of(self.visited@)).1
                    == whole.1,
            decreases roots.len() - i,
        {
            let ghost s_i = names_of(self.visited@);
            let ghost before = out@;
            let ghost delim = match opt_view(delimiter) {
                Some(d) => if i > 0 {
                    d
                } else {
                    seq![]
                },
                None => seq![],
            };
            match delimiter {
                Some(d) => {
                    if i > 0 {
                        push_str(&mut out, d);
                    }
                },
                None => {},
            }
            assert(out@ == before + delim);
            proof {
                lemma_unseen_bounded(v.nodes, s_i);
            }
            let text = self.render_tree_with_enhanced_cross_refs(
                roots[i].as_str(),
                0,
                &empty,
                i == roots.len() - 1,
                max_ref_depth,
                &cycles,
            );
            push_str(&mut out, text.as_str());
            proof {
                let t = xref_lines(v, cyc, max_ref_depth, rs[i as int], 0, seq![], i == rs.len() - 1, s_i);
                let rest = xref_roots_text(v, cyc, max_ref_depth, rs, opt_view(delimiter), (i + 1) as nat, t.1);
                assert(rs[i as int] == roots@[i as int]@);
                assert(before + (delim + lines_text(t.0) + rest.0) =~= (before + delim + lines_text(t.0)) + rest.0);
            }
            i = i + 1;
        }
        assert(out@ =~= head + whole.0);
        if show_cross_refs {
            let summary = refs_summary_text(&self.cross_refs);
            push_str(&mut out, summary.as_str());
        }
        out
    }
}

/// The cycle list (see `cycles_header`).
fn cycles_header_text(cycles: &Vec<Vec<String>>) -> (r: String)
    ensures
        r@ == cycles_header(cycle_views(cycles@)),
{
    if cycles.len() == 0 {
        return String::new();
    }
    let mut out = String::new();
    push_str(&mut out, "⚠️  Circular dependencies detected:\n");
    let ghost head = out@;
    let mut i: usize = 0;
    assert(cycle_views(cycles@).take(0) =~= seq![]);
    while i < cycles.len()
        invariant
            i <= cycles.len(),
            out@ == head + cycle_entries(cycle_views(cycles@).take(i as int)),
        decreases cycles.len() - i,
    {
        let ghost cv = cycle_views(cycles@);
        assert(cv.take(i + 1).drop_last() =~= cv.take(i as int));
        assert(cv.take(i + 1).last() == string_views(cycles@[i as int]@));
        push_str(&mut out, "  Cycle ");
        let num = decimal_string((i as u64) + 1);
        push_str(&mut out, num.as_str());
        push_str(&mut out, ": ");
        let joined = join_strings(&cycles[i], " → ");
        push_str(&mut out, joined.as_str());
        push_str(&mut out, "\n");
        i = i + 1;
        assert(out@ =~= head + cycle_entries(cycle_views(cycles@).take(i as int)));
    }
    assert(cycle_views(cycles@).take(cycles.len() as int) =~= cycle_views(cycles@));
    push_str(&mut out, "\n");
    out
}

/// The summary of branches with several parents (see `refs_summary`).
fn refs_summary_text(refs: &Vec<(String, Vec<String>)>) -> (r: String)
    ensures
        r@ == refs_summary(refs@),
{
    if refs.len() == 0 {
        return String::new();
    }
    let mut out = String::new();
    push_str(&mut out, "\n📎 Cross-references summary:\n");
    let ghost head = out@;
    let mut i: usize = 0;
    assert(refs@.take(0) =~= seq![]);
    while i < refs.len()
        invariant
            i <= refs.len(),
            out@ == head + refs_entries(refs@.take(i as int)),
        decreases refs.len() - i,
    {
        assert(refs@.take(i + 1).drop_last() =~= refs@.take(i as int));
        push_str(&mut out, "  ");
        push_str(&mut out, refs[i].0.as_str());
        push_str(&mut out, " ← ");
        let joined = join_strings(&refs[i].1, ", ");
        push_str(&mut out, joined.as_str());
        push_str(&mut out, "\n");
        i = i + 1;
        assert(out@ =~= head + refs_entries(refs@.take(i as int)));
    }
    assert(refs@.take(refs.len() as int) =~= refs@);
    out
}

} // verus!

//! The branch tree drawn for deep hierarchies: a depth limit, children shown
//! in pages, large subtrees pruned, depth markers, and statistics about the
//! drawing.
use vstd::prelude::*;

use crate::output::{
    blue_code, cyan_code, dimmed, fg, paint_blue, paint_cyan, paint_dimmed, paint_yellow, yellow_code,
};
use crate::strs::{decimal, decimal_string, push_str};
use crate::tree_renderer::{join_strings, lemma_unseen_bounded, lines_text, push_lines};
use crate::tree_xref::{cycle_entries, cycles_from};
use crate::tree_renderer::{
    branch_index, child_prefix, child_prefix_exec, concat_all, copy_strings, lemma_branch_index, lemma_names_push,
    lemma_unseen_insert, lemma_unseen_mono, name_display, names_of, seen_has, string_views, unseen, with_metadata,
    BranchNode, DeepNestingConfig, RenderStats, TreeRenderer, TreeView,
};
use crate::tree_xref::{circular_tag, cycle_views, in_cycle, in_cycle_exec, prefix_text, reference_line};

verus! {

// ---------------------------------------------------------------------------
// The size of a subtree
// ---------------------------------------------------------------------------

/// `c` is a child of the branch named `n`.
pub open spec fn child_of(nodes: Seq<BranchNode>, n: Seq<char>, c: Seq<char>) -> bool {
    match branch_index(nodes, n) {
        Some(i) => names_of(nodes[i].children@).contains(c),
        None => false,
    }
}

/// Every branch of `s` has its children in `s`.
pub open spec fn children_closed(nodes: Seq<BranchNode>, s: Set<Seq<char>>) -> bool {
    forall|n: Seq<char>, c: Seq<char>|
        #![trigger s.contains(n), child_of(nodes, n, c)]
        s.contains(n) && child_of(nodes, n, c) ==> s.contains(c)
}

/// The names reached from `start` by following children: the smallest set
/// that holds `start` and the children of each of its branches.
pub open spec fn reached(nodes: Seq<BranchNode>, start: Set<Seq<char>>) -> Set<Seq<char>> {
    Set::new(
        |c: Seq<char>|
            forall|s: Set<Seq<char>>|
                #![trigger s.contains(c)]
                children_closed(nodes, s) && start.subset_of(s) ==> s.contains(c),
    )
}

/// The names of the branches that have a node.
pub open spec fn node_names(nodes: Seq<BranchNode>) -> Set<Seq<char>> {
    nodes.map_values(|b: BranchNode| b.name@).to_set()
}

/// The branches reached below a node, counted with the node itself, and
/// counted no further than 1001.
pub open spec fn subtree_size(nodes: Seq<BranchNode>, node: BranchNode) -> nat {
    let below = reached(nodes, names_of(node.children@)).filter(|n: Seq<char>| branch_index(nodes, n) is Some);
    if below.len() >= 1000 {
        1001
    } else {
        1 + below.len()
    }
}

/// `reached` holds its start and is closed under children.
pub proof fn lemma_reached_closed(nodes: Seq<BranchNode>, start: Set<Seq<char>>)
    ensures
        start.subset_of(reached(nodes, start)),
        children_closed(nodes, reached(nodes, start)),
{
    let r = reached(nodes, start);
    assert forall|n: Seq<char>, c: Seq<char>| r.contains(n) && child_of(nodes, n, c) implies r.contains(c) by {
        assert forall|s: Set<Seq<char>>| children_closed(nodes, s) && start.subset_of(s) implies s.contains(c) by {
            assert(s.contains(n));
        }
    }
}

/// The named branches of a set are finitely many.
proof fn lemma_named_finite(nodes: Seq<BranchNode>, s: Set<Seq<char>>)
    ensures
        s.filter(|n: Seq<char>| branch_index(nodes, n) is Some).finite(),
        s.filter(|n: Seq<char>| branch_index(nodes, n) is Some).subset_of(node_names(nodes)),
{
    let f = s.filter(|n: Seq<char>| branch_index(nodes, n) is Some);
    let names = nodes.map_values(|b: BranchNode| b.name@);
    assert forall|n: Seq<char>| f.contains(n) implies node_names(nodes).contains(n) by {
        lemma_branch_index(nodes, n);
        let i = branch_index(nodes, n)->0;
        assert(names[i] == n);
    }
    vstd::seq_lib::seq_to_set_is_finite(names);
    vstd::set_lib::lemma_len_subset(f, node_names(nodes));
}

/// Inserting a name no branch has leaves the count of unseen branches.
proof fn lemma_unseen_insert_absent(nodes: Seq<BranchNode>, seen: Set<Seq<char>>, name: Seq<char>)
    requires
        forall|j: int| 0 <= j < nodes.len() ==> nodes[j].name@ != name,
    ensures
        unseen(nodes, seen.insert(name)) == unseen(nodes, seen),
    decreases nodes.len(),
{
    if nodes.len() > 0 {
        assert(nodes.last() == nodes[nodes.len() - 1]);
        lemma_unseen_insert_absent(nodes.drop_last(), seen, name);
    }
}

/// The names of a list without its last entry, and that entry.
proof fn lemma_names_pop(v: Seq<String>)
    requires
        v.len() > 0,
    ensures
        names_of(v) == names_of(v.drop_last()).insert(v.last()@),
{
    lemma_names_push(v.drop_last(), v.last());
    assert(v.drop_last().push(v.last()) =~= v);
}

impl TreeRenderer {
    /// How many branches a subtree holds, the node itself included: every
    /// branch reached through children once, counting stopped past 1000.
    pub fn count_subtree_size(&self, node: &BranchNode) -> (n: usize)
        ensures
            n == subtree_size(self.branch_nodes@, *node),
    {
        let ghost nodes = self.branch_nodes@;
        let ghost start = names_of(node.children@);
        let ghost r = reached(nodes, start);
        proof {
            lemma_reached_closed(nodes, start);
        }
        let mut count: usize = 1;
        let mut visited: Vec<String> = Vec::new();
        let mut stack: Vec<String> = copy_strings(&node.children);
        assert(names_of(stack@) =~= start) by {
            assert forall|x: Seq<char>| names_of(stack@).contains(x) implies start.contains(x) by {
                let i = choose|i: int| 0 <= i < stack@.len() && stack@[i]@ == x;
                assert(string_views(stack@).len() == stack@.len());
                assert(string_views(stack@)[i] == string_views(node.children@)[i]);
                assert(node.children@[i]@ == x);
            }
            assert forall|x: Seq<char>| start.contains(x) implies names_of(stack@).contains(x) by {
                let i = choose|i: int| 0 <= i < node.children@.len() && node.children@[i]@ == x;
                assert(string_views(node.children@).len() == node.children@.len());
                assert(string_views(stack@)[i] == string_views(node.children@)[i]);
                assert(stack@[i]@ == x);
            }
        }
        let ghost mut counted: Set<Seq<char>> = Set::empty();
        assert(names_of(visited@) =~= Set::<Seq<char>>::empty());
        assert(counted =~= names_of(visited@).filter(|n: Seq<char>| branch_index(nodes, n) is Some));
        while stack.len() > 0
            invariant
                nodes == self.branch_nodes@,
                start == names_of(node.children@),
                r == reached(nodes, start),
                start.subset_of(r),
                children_closed(nodes, r),
                names_of(visited@).subset_of(r),
                names_of(stack@).subset_of(r),
                start.subset_of(names_of(visited@).union(names_of(stack@))),
                forall|n: Seq<char>, c: Seq<char>|
                    #![trigger names_of(visited@).contains(n), child_of(nodes, n, c)]
                    names_of(visited@).contains(n) && child_of(nodes, n, c) ==> names_of(visited@).contains(c)
                        || names_of(stack@).contains(c),
                counted == names_of(visited@).filter(|n: Seq<char>| branch_index(nodes, n) is Some),
                counted.finite(),
                count == 1 + counted.len(),
                count <= 1000,
            decreases unseen(nodes, names_of(visited@)), stack.len(),
        {
            let ghost stack0 = stack@;
            let ghost visited0 = visited@;
            let c = stack.pop().unwrap();
            proof {
                lemma_names_pop(stack0);
                assert(stack@ == stack0.drop_last());
                assert(c == stack0.last());
            }
            if seen_has(&visited, c.as_str()) {
                continue;
            }
            visited.push(c.clone());
            proof {
                lemma_names_push(visited0, c);
                lemma_branch_index(nodes, c@);
            }
            match self.find_branch(c.as_str()) {
                None => {
                    proof {
                        lemma_unseen_insert_absent(nodes, names_of(visited0), c@);
                        assert(counted =~= names_of(visited@).filter(
                            |n: Seq<char>| branch_index(nodes, n) is Some,
                        ));
                        assert forall|n: Seq<char>, g: Seq<char>|
                            names_of(visited@).contains(n) && child_of(nodes, n, g) implies names_of(
                            visited@,
                        ).contains(g) || names_of(stack@).contains(g) by {
                            if n != c@ {
                                assert(names_of(visited0).contains(n));
                            }
                        }
                    }
                },
                Some(i) => {
                    proof {
                        lemma_unseen_insert(nodes, names_of(visited0), c@, i as int);
                        counted = counted.insert(c@);
                        assert(counted =~= names_of(visited@).filter(
                            |n: Seq<char>| branch_index(nodes, n) is Some,
                        ));
                    }
                    count = count + 1;
                    if count > 1000 {
                        proof {
                            lemma_named_finite(nodes, r);
                            let below = r.filter(|n: Seq<char>| branch_index(nodes, n) is Some);
                            assert(counted.subset_of(below));
                            vstd::set_lib::lemma_len_subset(counted, below);
                        }
                        return count;
                    }
                    let kids = &self.branch_nodes[i].children;
                    let ghost stack1 = stack@;
                    let mut j: usize = 0;
                    while j < kids.len()
                        invariant
                            nodes == self.branch_nodes@,
                            0 <= i < nodes.len(),
                            *kids == nodes[i as int].children,
                            branch_index(nodes, c@) == Some(i as int),
                            j <= kids.len(),
                            r.contains(c@),
                            children_closed(nodes, r),
                            names_of(stack@).subset_of(r),
                            names_of(stack1).subset_of(names_of(stack@)),
                            forall|k: int|
                                0 <= k < j ==> names_of(visited@).contains(#[trigger] kids@[k]@) || names_of(
                                    stack@,
                                ).contains(kids@[k]@),
                        decreases kids.len() - j,
                    {
                        let ghost sj = stack@;
                        assert(child_of(nodes, c@, kids@[j as int]@)) by {
                            assert(nodes[i as int].children@[j as int]@ == kids@[j as int]@);
                        }
                        if !seen_has(&visited, kids[j].as_str()) {
                            stack.push(kids[j].clone());
                            proof {
                                lemma_names_push(sj, kids@[j as int]);
                                assert(r.contains(kids@[j as int]@));
                            }
                        }
                        j = j + 1;
                    }
                    proof {
                        assert forall|n: Seq<char>, g: Seq<char>|
                            names_of(visited@).contains(n) && child_of(nodes, n, g) implies names_of(
                            visited@,
                        ).contains(g) || names_of(stack@).contains(g) by {
                            if n == c@ {
                                let k = choose|k: int| 0 <= k < kids@.len() && kids@[k]@ == g;
                                assert(names_of(visited@).contains(kids@[k]@) || names_of(stack@).contains(
                                    kids@[k]@,
                                ));
                            } else {
                                assert(names_of(visited0).contains(n));
                            }
                        }
                    }
                },
            }
        }
        proof {
            assert(names_of(stack@) =~= Set::<Seq<char>>::empty());
            assert(children_closed(nodes, names_of(visited@)));
            assert(names_of(visited@) =~= r) by {
                assert forall|x: Seq<char>| r.contains(x) implies names_of(visited@).contains(x) by {
                    assert(names_of(visited@).contains(x));
                }
            }
        }
        count
    }
}

// ---------------------------------------------------------------------------
// Lines
// ---------------------------------------------------------------------------

/// How a number is painted when colors are on.
#[derive(Clone, Copy, PartialEq, Eq, Structural)]
pub enum NumberTint {
    Yellow,
    Cyan,
    Blue,
    Dimmed,
}

/// A number in decimal, painted when colors are on.
pub open spec fn number_display(no_color: bool, tint: NumberTint, n: nat) -> Seq<char> {
    if no_color {
        decimal(n)
    } else {
        match tint {
            NumberTint::Yellow => fg(yellow_code(), decimal(n)),
            NumberTint::Cyan => fg(cyan_code(), decimal(n)),
            NumberTint::Blue => fg(blue_code(), decimal(n)),
            NumberTint::Dimmed => dimmed(decimal(n)),
        }
    }
}

/// The plain connector before an entry.
pub open spec fn plain_symbol(last: bool) -> Seq<char> {
    if last {
        "└── "@
    } else {
        "├── "@
    }
}

/// The line standing for a branch below the depth limit.
pub open spec fn truncation_line(no_color: bool, prefix: Seq<Seq<char>>, last: bool, max_depth: nat) -> Seq<char> {
    concat_all(prefix) + plain_symbol(last) + "... [truncated at depth "@ + number_display(
        no_color,
        NumberTint::Yellow,
        max_depth,
    ) + "] ..."@
}

/// The line standing for a pruned subtree.
pub open spec fn pruning_line(
    no_color: bool,
    name: Seq<char>,
    prefix: Seq<Seq<char>>,
    last: bool,
    child_count: nat,
) -> Seq<char> {
    concat_all(prefix) + plain_symbol(last) + name + " ... [pruned subtree with "@ + number_display(
        no_color,
        NumberTint::Yellow,
        child_count,
    ) + " children] ..."@
}

/// The line that opens a page of children after the first.
pub open spec fn page_line(
    no_color: bool,
    prefix: Seq<Seq<char>>,
    page: nat,
    start: nat,
    end: nat,
    total: nat,
) -> Seq<char> {
    concat_all(prefix) + "├── ... Page "@ + number_display(no_color, NumberTint::Cyan, page + 1) + " ("@
        + number_display(no_color, NumberTint::Cyan, start + 1) + "-"@ + number_display(
        no_color,
        NumberTint::Cyan,
        end,
    ) + " of "@ + number_display(no_color, NumberTint::Cyan, total) + ") ..."@
}

/// The connector before a branch: a cycle mark, a deep-level mark past
/// depth ten, or the plain one; none at the root.
pub open spec fn depth_symbol(depth: nat, last: bool, circular: bool) -> Seq<char> {
    if depth == 0 {
        seq![]
    } else if circular {
        if last {
            "└🔄─ "@
        } else {
            "├🔄─ "@
        }
    } else if depth > 10 {
        if last {
            "└⼇─ "@
        } else {
            "├⼇─ "@
        }
    } else {
        plain_symbol(last)
    }
}

/// The line drawn for a branch: connectors, the name, the depth when depth
/// markers are on, the number of children past depth five, the cycle flag,
/// then the metadata.
pub open spec fn depth_line(
    r: TreeView,
    show_depth: bool,
    node: BranchNode,
    depth: nat,
    prefix: Seq<Seq<char>>,
    last: bool,
    circular: bool,
) -> Seq<char> {
    with_metadata(
        r.no_color,
        r.tree_width,
        r.refs,
        concat_all(prefix) + depth_symbol(depth, last, circular) + name_display(node, r.no_color) + depth_tags(
            r.no_color,
            show_depth,
            node,
            depth,
            circular,
        ),
        node,
    )
}

/// What follows a branch's name: its depth when depth markers are on, the
/// number of its children past depth five, and the cycle flag.
pub open spec fn depth_tags(no_color: bool, show_depth: bool, node: BranchNode, depth: nat, circular: bool) -> Seq<
    char,
> {
    (if show_depth && depth > 0 {
        " [depth:"@ + number_display(no_color, NumberTint::Dimmed, depth) + "]"@
    } else {
        seq![]
    }) + (if depth > 5 && node.children@.len() > 0 {
        " [children:"@ + number_display(no_color, NumberTint::Blue, node.children@.len()) + "]"@
    } else {
        seq![]
    }) + (if circular {
        circular_tag(no_color)
    } else {
        seq![]
    })
}

/// A large subtree is pruned: past depth fifteen with more than ten
/// children, or with more children than a level may show.
pub open spec fn prune_spec(node: BranchNode, depth: nat, config: DeepNestingConfig) -> bool {
    (depth > 15 && node.children@.len() > 10) || (config.max_branches_per_level matches Some(m)
        && node.children@.len() > m)
}

/// A number in decimal, painted when colors are on.
pub fn number_text(no_color: bool, tint: NumberTint, n: u64) -> (r: String)
    ensures
        r@ == number_display(no_color, tint, n as nat),
{
    let d = decimal_string(n);
    if no_color {
        d
    } else {
        match tint {
            NumberTint::Yellow => paint_yellow(d.as_str()),
            NumberTint::Cyan => paint_cyan(d.as_str()),
            NumberTint::Blue => paint_blue(d.as_str()),
            NumberTint::Dimmed => paint_dimmed(d.as_str()),
        }
    }
}

fn plain_symbol_text(last: bool) -> (r: &'static str)
    ensures
        r@ == plain_symbol(last),
{
    if last {
        "└── "
    } else {
        "├── "
    }
}

impl TreeRenderer {
    /// The line standing for a branch below the depth limit.
    pub fn print_depth_truncation_indicator(&self, prefix: &Vec<String>, is_last_sibling: bool, max_depth: u32) -> (r:
        String)
        ensures
            r@ == truncation_line(self.no_color, string_views(prefix@), is_last_sibling, max_depth as nat),
    {
        let mut line = prefix_text(prefix);
        push_str(&mut line, plain_symbol_text(is_last_sibling));
        push_str(&mut line, "... [truncated at depth ");
        push_str(&mut line, number_text(self.no_color, NumberTint::Yellow, max_depth as u64).as_str());
        push_str(&mut line, "] ...");
        line
    }

    /// The line standing for a pruned subtree.
    pub fn print_pruning_indicator(
        &self,
        branch_name: &str,
        prefix: &Vec<String>,
        is_last_sibling: bool,
        child_count: usize,
    ) -> (r: String)
        ensures
            r@ == pruning_line(
                self.no_color,
                branch_name@,
                string_views(prefix@),
                is_last_sibling,
                child_count as nat,
            ),
    {
        let mut line = prefix_text(prefix);
        push_str(&mut line, plain_symbol_text(is_last_sibling));
        push_str(&mut line, branch_name);
        push_str(&mut line, " ... [pruned subtree with ");
        push_str(&mut line, number_text(self.no_color, NumberTint::Yellow, child_count as u64).as_str());
        push_str(&mut line, " children] ...");
        line
    }

    /// The line that opens the page `page` (counted from zero) of the
    /// children `start..end` of `total`.
    pub fn print_pagination_separator(
        &self,
        prefix: &Vec<String>,
        page: usize,
        start: usize,
        end: usize,
        total: usize,
    ) -> (r: String)
        requires
            page < usize::MAX,
            start < usize::MAX,
        ensures
            r@ == page_line(
                self.no_color,
                string_views(prefix@),
                page as nat,
                start as nat,
                end as nat,
                total as nat,
            ),
    {
        let mut line = prefix_text(prefix);
        push_str(&mut line, "├── ... Page ");
        push_str(&mut line, number_text(self.no_color, NumberTint::Cyan, (page + 1) as u64).as_str());
        push_str(&mut line, " (");
        push_str(&mut line, number_text(self.no_color, NumberTint::Cyan, (start + 1) as u64).as_str());
        push_str(&mut line, "-");
        push_str(&mut line, number_text(self.no_color, NumberTint::Cyan, end as u64).as_str());
        push_str(&mut line, " of ");
        push_str(&mut line, number_text(self.no_color, NumberTint::Cyan, total as u64).as_str());
        push_str(&mut line, ") ...");
        line
    }

    /// What follows a branch's name (see `depth_tags`).
    fn depth_tags_text(&self, node: &BranchNode, depth: u32, config: &DeepNestingConfig, circular: bool) -> (r:
        String)
        ensures
            r@ == depth_tags(self.no_color, config.show_depth_indicators, *node, depth as nat, circular),
    {
        let mut line = String::new();
        if config.show_depth_indicators && depth > 0 {
            push_str(&mut line, " [depth:");
            push_str(&mut line, number_text(self.no_color, NumberTint::Dimmed, depth as u64).as_str());
            push_str(&mut line, "]");
        }
        if depth > 5 && node.children.len() > 0 {
            push_str(&mut line, " [children:");
            push_str(&mut line, number_text(self.no_color, NumberTint::Blue, node.children.len() as u64).as_str());
            push_str(&mut line, "]");
        }
        if circular {
            self.push_circular_tag(&mut line);
        }
        assert(line@ =~= depth_tags(self.no_color, config.show_depth_indicators, *node, depth as nat, circular));
        line
    }

    /// The line drawn for a branch with its depth information (see
    /// `depth_line`).
    pub fn print_branch_with_depth_info(
        &self,
        node: &BranchNode,
        depth: u32,
        prefix: &Vec<String>,
        is_last_sibling: bool,
        config: &DeepNestingConfig,
        is_in_circular_dep: bool,
    ) -> (r: String)
        ensures
            r@ == depth_line(
                self@,
                config.show_depth_indicators,
                *node,
                depth as nat,
                string_views(prefix@),
                is_last_sibling,
                is_in_circular_dep,
            ),
    {
        let mut line = prefix_text(prefix);
        if depth > 0 {
            let symbol = if is_in_circular_dep {
                if is_last_sibling {
                    "└🔄─ "
                } else {
                    "├🔄─ "
                }
            } else if depth > 10 {
                if is_last_sibling {
                    "└⼇─ "
                } else {
                    "├⼇─ "
                }
            } else {
                plain_symbol_text(is_last_sibling)
            };
            push_str(&mut line, symbol);
        }
        push_str(&mut line, self.name_text(node).as_str());
        push_str(&mut line, self.depth_tags_text(node, depth, config, is_in_circular_dep).as_str());
        self.add_branch_metadata(&mut line, node);
        line
    }
}

/// Whether a subtree is pruned (see `prune_spec`).
pub fn should_prune_subtree(node: &BranchNode, depth: u32, config: &DeepNestingConfig) -> (b: bool)
    ensures
        b == prune_spec(*node, depth as nat, *config),
{
    if depth > 15 && node.children.len() > 10 {
        return true;
    }
    match config.max_branches_per_level {
        Some(m) => node.children.len() > m,
        None => false,
    }
}

// ---------------------------------------------------------------------------
// The tree
// ---------------------------------------------------------------------------

pub open spec fn nat_max(a: nat, b: nat) -> nat {
    if a >= b {
        a
    } else {
        b
    }
}

/// A page separator comes before the child `k` of `n`: pages are on, the
/// children do not fit on one page, and `k` opens a page after the first.
pub open spec fn opens_page(config: DeepNestingConfig, n: nat, k: nat) -> bool {
    config.enable_pagination && n > config.page_size && k > 0 && k % (config.page_size as nat) == 0
}

/// What drawing `name` at `depth` gives, given the branches already drawn:
/// its lines, the branches drawn by then, the deepest level met and the
/// number of branches left out.
///
/// Past the depth limit a truncation line stands for the branch; a branch
/// drawn before gets a line pointing back; a branch with no node gives
/// nothing; a branch to be pruned gets a pruning line, and its subtree
/// counts as left out; any other branch gets its line and, below it, its
/// children, page by page.
pub open spec fn deep_lines(
    r: TreeView,
    config: DeepNestingConfig,
    cycles: Seq<Seq<Seq<char>>>,
    name: Seq<char>,
    depth: nat,
    prefix: Seq<Seq<char>>,
    last: bool,
    seen: Set<Seq<char>>,
) -> (Seq<Seq<char>>, Set<Seq<char>>, nat, nat)
    decreases unseen(r.nodes, seen), 0nat, 0nat,
{
    if config.max_depth is Some && depth > config.max_depth->0 {
        (seq![truncation_line(r.no_color, prefix, last, config.max_depth->0 as nat)], seen, depth, 1)
    } else if seen.contains(name) {
        (seq![reference_line(r.no_color, name, depth, prefix, last, in_cycle(cycles, name))], seen, depth, 0)
    } else {
        match branch_index(r.nodes, name) {
            None => (seq![], seen.insert(name), depth, 0),
            Some(i) => {
                proof {
                    lemma_branch_index(r.nodes, name);
                    lemma_unseen_insert(r.nodes, seen, name, i);
                }
                let node = r.nodes[i];
                if config.enable_pruning && prune_spec(node, depth, config) {
                    (
                        seq![pruning_line(r.no_color, name, prefix, last, node.children@.len())],
                        seen.insert(name),
                        depth,
                        subtree_size(r.nodes, node),
                    )
                } else {
                    let below = deep_children(
                        r,
                        config,
                        cycles,
                        string_views(node.children@),
                        0,
                        depth,
                        prefix,
                        seen.insert(name),
                    );
                    (
                        seq![
                            depth_line(
                                r,
                                config.show_depth_indicators,
                                node,
                                depth,
                                prefix,
                                last,
                                in_cycle(cycles, name),
                            ),
                        ] + below.0,
                        below.1,
                        nat_max(depth, below.2),
                        below.3,
                    )
                }
            },
        }
    }
}

/// What drawing the children `kids[k..]` of a branch at `depth` gives (see
/// `deep_lines`), with a separator before each page after the first.
pub open spec fn deep_children(
    r: TreeView,
    config: DeepNestingConfig,
    cycles: Seq<Seq<Seq<char>>>,
    kids: Seq<Seq<char>>,
    k: nat,
    depth: nat,
    prefix: Seq<Seq<char>>,
    seen: Set<Seq<char>>,
) -> (Seq<Seq<char>>, Set<Seq<char>>, nat, nat)
    decreases unseen(r.nodes, seen), 1nat, kids.len() - k,
{
    if k >= kids.len() {
        (seq![], seen, 0, 0)
    } else {
        let n = kids.len();
        let ps = config.page_size as nat;
        let sep = if opens_page(config, n, k) {
            seq![page_line(r.no_color, prefix, k / ps, k, if k + ps < n { k + ps } else { n }, n)]
        } else {
            seq![]
        };
        let last = k == n - 1;
        let first = deep_lines(r, config, cycles, kids[k as int], depth + 1, child_prefix(prefix, depth, last), last, seen);
        proof {
            lemma_unseen_mono(r.nodes, seen, seen.union(first.1));
        }
        let rest = deep_children(r, config, cycles, kids, k + 1, depth, prefix, seen.union(first.1));
        (sep + first.0 + rest.0, rest.1, nat_max(first.2, rest.2), first.3 + rest.3)
    }
}

impl TreeRenderer {
    /// Draws `branch_name` and its subtree for a deep hierarchy (see
    /// `deep_lines`), given the branches already drawn: the lines, the
    /// branches drawn by then, and statistics holding the deepest level met
    /// and the number of branches left out.
    pub fn render_branch_with_deep_nesting(
        &self,
        branch_name: &str,
        depth: u32,
        prefix: &Vec<String>,
        is_last_sibling: bool,
        config: &DeepNestingConfig,
        circular_deps: &Vec<Vec<String>>,
        seen_in: Vec<String>,
    ) -> (r: (Vec<String>, Vec<String>, RenderStats))
        requires
            depth + unseen(self.branch_nodes@, names_of(seen_in@)) <= u32::MAX,
            self.branch_nodes@.len() <= u32::MAX,
            config.enable_pagination ==> config.page_size > 0,
            deep_lines(
                self@,
                *config,
                cycle_views(circular_deps@),
                branch_name@,
                depth as nat,
                string_views(prefix@),
                is_last_sibling,
                names_of(seen_in@),
            ).3 <= usize::MAX,
        ensures
            ({
                let d = deep_lines(
                    self@,
                    *config,
                    cycle_views(circular_deps@),
                    branch_name@,
                    depth as nat,
                    string_views(prefix@),
                    is_last_sibling,
                    names_of(seen_in@),
                );
                &&& string_views(r.0@) == d.0
                &&& names_of(r.1@) == d.1
                &&& r.2.max_depth_reached as nat == d.2
                &&& r.2.branches_pruned as nat == d.3
            }),
            names_of(seen_in@).subset_of(names_of(r.1@)),
        decreases unseen(self.branch_nodes@, names_of(seen_in@)),
    {
        let ghost nodes = self.branch_nodes@;
        let ghost seen0 = names_of(seen_in@);
        let ghost cyc = cycle_views(circular_deps@);
        let ghost pre = string_views(prefix@);
        let mut stats = RenderStats {
            total_branches: 0,
            max_depth_reached: depth,
            branches_pruned: 0,
            circular_deps_detected: 0,
            memory_usage_estimate: 0,
        };
        let mut seen = seen_in;
        let mut lines: Vec<String> = Vec::new();
        match config.max_depth {
            Some(m) => {
                if depth > m {
                    lines.push(self.print_depth_truncation_indicator(prefix, is_last_sibling, m));
                    stats.branches_pruned = 1;
                    assert(string_views(lines@) =~= seq![truncation_line(self.no_color, pre, is_last_sibling, m as nat)]);
                    return (lines, seen, stats);
                }
            },
            None => {},
        }
        let owned = branch_name.to_owned();
        let circular = in_cycle_exec(circular_deps, &owned);
        if seen_has(&seen, branch_name) {
            lines.push(self.print_branch_reference(branch_name, depth, prefix, is_last_sibling, circular));
            assert(string_views(lines@) =~= seq![
                reference_line(self.no_color, branch_name@, depth as nat, pre, is_last_sibling, circular),
            ]);
            return (lines, seen, stats);
        }
        let ghost seen_before = seen@;
        seen.push(owned);
        proof {
            lemma_names_push(seen_before, seen@.last());
            assert(seen@ =~= seen_before.push(seen@.last()));
            lemma_branch_index(nodes, branch_name@);
        }
        let idx = self.find_branch(branch_name);
        match idx {
            None => {
                assert(string_views(lines@) =~= Seq::<Seq<char>>::empty());
                (lines, seen, stats)
            },
            Some(i) => {
                proof {
                    lemma_unseen_insert(nodes, seen0, branch_name@, i as int);
                }
                let node = &self.branch_nodes[i];
                if config.enable_pruning && should_prune_subtree(node, depth, config) {
                    lines.push(self.print_pruning_indicator(branch_name, prefix, is_last_sibling, node.children.len()));
                    stats.branches_pruned = self.count_subtree_size(node);
                    assert(string_views(lines@) =~= seq![
                        pruning_line(self.no_color, branch_name@, pre, is_last_sibling, node.children@.len()),
                    ]);
                    return (lines, seen, stats);
                }
                lines.push(self.print_branch_with_depth_info(node, depth, prefix, is_last_sibling, config, circular));
                let ghost line0 = depth_line(
                    self@,
                    config.show_depth_indicators,
                    nodes[i as int],
                    depth as nat,
                    pre,
                    is_last_sibling,
                    circular,
                );
                let children = &node.children;
                let n = children.len();
                let ghost kids = string_views(children@);
                let ghost s_start = seen0.insert(branch_name@);
                let ghost whole = deep_children(self@, *config, cyc, kids, 0, depth as nat, pre, s_start);
                assert(string_views(lines@).drop_first() + whole.0 =~= whole.0);
                let mut k: usize = 0;
                while k < n
                    invariant
                        nodes == self.branch_nodes@,
                        nodes.len() <= u32::MAX,
                        i < nodes.len(),
                        *node == nodes[i as int],
                        *children == node.children,
                        n == children.len(),
                        kids == string_views(children@),
                        cyc == cycle_views(circular_deps@),
                        pre == string_views(prefix@),
                        config.enable_pagination ==> config.page_size > 0,
                        k <= n,
                        seen0 == names_of(seen_in@),
                        s_start == seen0.insert(branch_name@),
                        depth + unseen(nodes, seen0) <= u32::MAX,
                        unseen(nodes, s_start) < unseen(nodes, seen0),
                        s_start.subset_of(names_of(seen@)),
                        whole == deep_children(self@, *config, cyc, kids, 0, depth as nat, pre, s_start),
                        whole.3 <= usize::MAX,
                        string_views(lines@).drop_first() + deep_children(
                            self@,
                            *config,
                            cyc,
                            kids,
                            k as nat,
                            depth as nat,
                            pre,
                            names_of(seen@),
                        ).0 == whole.0,
                        deep_children(self@, *config, cyc, kids, k as nat, depth as nat, pre, names_of(seen@)).1
                            == whole.1,
                        nat_max(
                            stats.max_depth_reached as nat,
                            deep_children(self@, *config, cyc, kids, k as nat, depth as nat, pre, names_of(seen@)).2,
                        ) == nat_max(depth as nat, whole.2),
                        stats.branches_pruned + deep_children(
                            self@,
                            *config,
                            cyc,
                            kids,
                            k as nat,
                            depth as nat,
                            pre,
                            names_of(seen@),
                        ).3 == whole.3,
                        lines@.len() >= 1,
                        string_views(lines@)[0] == line0,
                    decreases n - k,
                {
                    proof {
                        lemma_unseen_mono(nodes, s_start, names_of(seen@));
                    }
                    let ghost s_k = names_of(seen@);
                    let ghost acc = string_views(lines@).drop_first();
                    assert(kids[k as int] == children@[k as int]@);
                    assert(kids.len() == n);
                    let ps = config.page_size;
                    if config.enable_pagination && n > ps && k > 0 && k % ps == 0 {
                        let end = if n - k > ps {
                            k + ps
                        } else {
                            n
                        };
                        lines.push(self.print_pagination_separator(prefix, k / ps, k, end, n));
                    }
                    let ghost sep = string_views(lines@).drop_first().skip(acc.len() as int);
                    let child_pre = child_prefix_exec(prefix, depth, k == n - 1);
                    let (more, s1, cs) = self.render_branch_with_deep_nesting(
                        children[k].as_str(),
                        depth + 1,
                        &child_pre,
                        k == n - 1,
                        config,
                        circular_deps,
                        seen,
                    );
                    let ghost more_v = string_views(more@);
                    let mut more = more;
                    lines.append(&mut more);
                    seen = s1;
                    if cs.max_depth_reached > stats.max_depth_reached {
                        stats.max_depth_reached = cs.max_depth_reached;
                    }
                    stats.branches_pruned = stats.branches_pruned + cs.branches_pruned;
                    proof {
                        assert(s_k.union(names_of(seen@)) =~= names_of(seen@));
                        assert(string_views(lines@).drop_first() =~= acc + sep + more_v);
                        let rest = deep_children(
                            self@,
                            *config,
                            cyc,
                            kids,
                            (k + 1) as nat,
                            depth as nat,
                            pre,
                            names_of(seen@),
                        );
                        assert(acc + (sep + more_v + rest.0) =~= (acc + sep + more_v) + rest.0);
                    }
                    k = k + 1;
                }
                proof {
                    assert(string_views(lines@) =~= seq![line0] + string_views(lines@).drop_first());
                    assert(whole.0 =~= string_views(lines@).drop_first());
                }
                (lines, seen, stats)
            },
        }
    }
}

// ---------------------------------------------------------------------------
// Memory estimate
// ---------------------------------------------------------------------------

/// The length of a text in UTF-8 bytes.
pub open spec fn utf8_len(s: Seq<char>) -> nat {
    vstd::utf8::encode_utf8(s).len()
}

/// The UTF-8 bytes of a list of strings, added up.
pub open spec fn strings_bytes(v: Seq<String>) -> nat
    decreases v.len(),
{
    if v.len() == 0 {
        0
    } else {
        strings_bytes(v.drop_last()) + utf8_len(v.last()@)
    }
}

/// What a node is estimated to take: its name twice (as key and as field),
/// the names of its parents and children, and a fixed 64 bytes.
pub open spec fn node_bytes(b: BranchNode) -> nat {
    2 * utf8_len(b.name@) + strings_bytes(b.parents@) + strings_bytes(b.children@) + 64
}

pub open spec fn nodes_bytes(nodes: Seq<BranchNode>) -> nat
    decreases nodes.len(),
{
    if nodes.len() == 0 {
        0
    } else {
        nodes_bytes(nodes.drop_last()) + node_bytes(nodes.last())
    }
}

/// The estimated memory of a drawing: the nodes, 64 bytes per cross
/// reference and 32 per branch drawn.
pub open spec fn memory_estimate(nodes: Seq<BranchNode>, refs: nat, drawn: nat) -> nat {
    nodes_bytes(nodes) + refs * 64 + drawn * 32
}

proof fn lemma_strings_bytes_prefix(v: Seq<String>, i: int)
    requires
        0 <= i <= v.len(),
    ensures
        strings_bytes(v.take(i)) <= strings_bytes(v),
    decreases v.len(),
{
    if i < v.len() {
        lemma_strings_bytes_prefix(v.drop_last(), i);
        assert(v.drop_last().take(i) =~= v.take(i));
    } else {
        assert(v.take(i) =~= v);
    }
}

proof fn lemma_nodes_bytes_prefix(v: Seq<BranchNode>, i: int)
    requires
        0 <= i <= v.len(),
    ensures
        nodes_bytes(v.take(i)) <= nodes_bytes(v),
    decreases v.len(),
{
    if i < v.len() {
        lemma_nodes_bytes_prefix(v.drop_last(), i);
        assert(v.drop_last().take(i) =~= v.take(i));
    } else {
        assert(v.take(i) =~= v);
    }
}

/// The UTF-8 bytes of a list of strings, added up.
fn strings_bytes_exec(v: &Vec<String>) -> (n: usize)
    requires
        strings_bytes(v@) <= usize::MAX,
    ensures
        n == strings_bytes(v@),
{
    let mut n: usize = 0;
    let mut i: usize = 0;
    assert(v@.take(0) =~= Seq::<String>::empty());
    while i < v.len()
        invariant
            i <= v.len(),
            strings_bytes(v@) <= usize::MAX,
            n == strings_bytes(v@.take(i as int)),
        decreases v.len() - i,
    {
        assert(v@.take(i + 1).drop_last() =~= v@.take(i as int));
        proof {
            lemma_strings_bytes_prefix(v@, i + 1);
        }
        n = n + v[i].as_str().len();
        i = i + 1;
    }
    assert(v@.take(v.len() as int) =~= v@);
    n
}

impl TreeRenderer {
    /// The estimated memory of the drawing (see `memory_estimate`).
    pub fn estimate_memory_usage(&self) -> (n: usize)
        requires
            memory_estimate(self.branch_nodes@, self.cross_refs@.len(), self.visited@.len()) <= usize::MAX,
        ensures
            n == memory_estimate(self.branch_nodes@, self.cross_refs@.len(), self.visited@.len()),
    {
        let ghost nodes = self.branch_nodes@;
        let mut n: usize = 0;
        let mut i: usize = 0;
        assert(nodes.take(0) =~= Seq::<BranchNode>::empty());
        while i < self.branch_nodes.len()
            invariant
                nodes == self.branch_nodes@,
                i <= nodes.len(),
                nodes_bytes(nodes) <= usize::MAX,
                n == nodes_bytes(nodes.take(i as int)),
            decreases nodes.len() - i,
        {
            assert(nodes.take(i + 1).drop_last() =~= nodes.take(i as int));
            proof {
                lemma_nodes_bytes_prefix(nodes, i + 1);
            }
            let b = &self.branch_nodes[i];
            let name = b.name.as_str().len();
            n = n + name + name + strings_bytes_exec(&b.parents) + strings_bytes_exec(&b.children) + 64;
            i = i + 1;
        }
        assert(nodes.take(nodes.len() as int) =~= nodes);
        n + self.cross_refs.len() * 64 + self.visited.len() * 32
    }
}

// ---------------------------------------------------------------------------
// The whole drawing
// ---------------------------------------------------------------------------

/// What drawing the trees below `roots[k..]` gives (see `deep_lines`): the
/// text, an empty line between consecutive trees, the branches drawn by
/// then, the deepest level met and the number of branches left out.
pub open spec fn deep_roots(
    r: TreeView,
    config: DeepNestingConfig,
    cycles: Seq<Seq<Seq<char>>>,
    roots: Seq<Seq<char>>,
    k: nat,
    seen: Set<Seq<char>>,
) -> (Seq<char>, Set<Seq<char>>, nat, nat)
    decreases roots.len() - k,
{
    if k >= roots.len() {
        (seq![], seen, 0, 0)
    } else {
        let t = deep_lines(r, config, cycles, roots[k as int], 0, seq![], true, seen);
        let rest = deep_roots(r, config, cycles, roots, k + 1, t.1);
        (
            (if k > 0 {
                "\n"@
            } else {
                seq![]
            }) + lines_text(t.0) + rest.0,
            rest.1,
            nat_max(t.2, rest.2),
            t.3 + rest.3,
        )
    }
}

/// The notice of dependency cycles before the trees: how many, the first
/// three, and how many more.
pub open spec fn cycles_notice(cycles: Seq<Seq<Seq<char>>>) -> Seq<char> {
    if cycles.len() == 0 {
        seq![]
    } else {
        "⚠️  "@ + decimal(cycles.len()) + " circular dependencies detected\n"@ + cycle_entries(
            cycles.take(if cycles.len() > 3 { 3 } else { cycles.len() as int }),
        ) + (if cycles.len() > 3 {
            "  ... and "@ + decimal((cycles.len() - 3) as nat) + " more\n"@
        } else {
            seq![]
        }) + "\n"@
    }
}

/// The notice that a large tree will be pruned.
pub open spec fn pruning_notice(config: DeepNestingConfig, total: nat) -> Seq<char> {
    if config.enable_pruning && total > config.prune_threshold {
        "🌳 Large tree detected ("@ + decimal(total) + " branches). Applying intelligent pruning...\n\n"@
    } else {
        seq![]
    }
}

/// The statistics shown after the trees when depth markers are on.
pub open spec fn stats_footer(
    config: DeepNestingConfig,
    total: nat,
    max_depth: nat,
    pruned: nat,
    cycles: nat,
    memory: nat,
) -> Seq<char> {
    if config.show_depth_indicators {
        "\n📊 Rendering Statistics:\n  Total branches: "@ + decimal(total) + "\n  Max depth reached: "@ + decimal(
            max_depth,
        ) + "\n"@ + (if pruned > 0 {
            "  Branches pruned: "@ + decimal(pruned) + "\n"@
        } else {
            seq![]
        }) + (if cycles > 0 {
            "  Circular dependencies: "@ + decimal(cycles) + "\n"@
        } else {
            seq![]
        }) + "  Memory estimate: "@ + decimal(memory) + " bytes\n"@
    } else {
        seq![]
    }
}

/// The cycle notice (see `cycles_notice`).
fn cycles_notice_text(cycles: &Vec<Vec<String>>) -> (r: String)
    ensures
        r@ == cycles_notice(cycle_views(cycles@)),
{
    if cycles.len() == 0 {
        return String::new();
    }
    let mut out = String::new();
    push_str(&mut out, "⚠️  ");
    push_str(&mut out, decimal_string(cycles.len() as u64).as_str());
    push_str(&mut out, " circular dependencies detected\n");
    let ghost head = out@;
    let shown: usize = if cycles.len() > 3 {
        3
    } else {
        cycles.len()
    };
    let mut i: usize = 0;
    assert(cycle_views(cycles@).take(0) =~= seq![]);
    while i < shown
        invariant
            i <= shown <= cycles.len(),
            out@ == head + cycle_entries(cycle_views(cycles@).take(i as int)),
        decreases shown - i,
    {
        let ghost cv = cycle_views(cycles@);
        assert(cv.take(i + 1).drop_last() =~= cv.take(i as int));
        assert(cv.take(i + 1).last() == string_views(cycles@[i as int]@));
        push_str(&mut out, "  Cycle ");
        push_str(&mut out, decimal_string((i as u64) + 1).as_str());
        push_str(&mut out, ": ");
        push_str(&mut out, join_strings(&cycles[i], " → ").as_str());
        push_str(&mut out, "\n");
        i = i + 1;
        assert(out@ =~= head + cycle_entries(cycle_views(cycles@).take(i as int)));
    }
    if cycles.len() > 3 {
        push_str(&mut out, "  ... and ");
        push_str(&mut out, decimal_string((cycles.len() - 3) as u64).as_str());
        push_str(&mut out, " more\n");
    }
    push_str(&mut out, "\n");
    out
}

/// The pruning notice (see `pruning_notice`).
fn pruning_notice_text(config: &DeepNestingConfig, total: usize) -> (r: String)
    ensures
        r@ == pruning_notice(*config, total as nat),
{
    let mut out = String::new();
    if config.enable_pruning && total > config.prune_threshold {
        push_str(&mut out, "🌳 Large tree detected (");
        push_str(&mut out, decimal_string(total as u64).as_str());
        push_str(&mut out, " branches). Applying intelligent pruning...\n\n");
    }
    out
}

/// The statistics (see `stats_footer`).
fn stats_footer_text(config: &DeepNestingConfig, stats: &RenderStats) -> (r: String)
    ensures
        r@ == stats_footer(
            *config,
            stats.total_branches as nat,
            stats.max_depth_reached as nat,
            stats.branches_pruned as nat,
            stats.circular_deps_detected as nat,
            stats.memory_usage_estimate as nat,
        ),
{
    let mut out = String::new();
    if config.show_depth_indicators {
        push_str(&mut out, "\n📊 Rendering Statistics:\n  Total branches: ");
        push_str(&mut out, decimal_string(stats.total_branches as u64).as_str());
        push_str(&mut out, "\n  Max depth reached: ");
        push_str(&mut out, decimal_string(stats.max_depth_reached as u64).as_str());
        push_str(&mut out, "\n");
        if stats.branches_pruned > 0 {
            push_str(&mut out, "  Branches pruned: ");
            push_str(&mut out, decimal_string(stats.branches_pruned as u64).as_str());
            push_str(&mut out, "\n");
        }
        if stats.circular_deps_detected > 0 {
            push_str(&mut out, "  Circular dependencies: ");
            push_str(&mut out, decimal_string(stats.circular_deps_detected as u64).as_str());
            push_str(&mut out, "\n");
        }
        push_str(&mut out, "  Memory estimate: ");
        push_str(&mut out, decimal_string(stats.memory_usage_estimate as u64).as_str());
        push_str(&mut out, " bytes\n");
    }
    out
}

impl TreeRenderer {
    /// The trees below the roots (see `deep_roots`), given the cycles: the
    /// text, the branches drawn, the deepest level met and the number of
    /// branches left out.
    fn deep_roots_text(&self, roots: &Vec<String>, config: &DeepNestingConfig, cycles: &Vec<Vec<String>>) -> (r: (
        String,
        Vec<String>,
        u32,
        usize,
    ))
        requires
            self.branch_nodes@.len() <= u32::MAX,
            config.enable_pagination ==> config.page_size > 0,
            deep_roots(self@, *config, cycle_views(cycles@), string_views(roots@), 0, Set::empty()).3 <= usize::MAX,
        ensures
            ({
                let body = deep_roots(self@, *config, cycle_views(cycles@), string_views(roots@), 0, Set::empty());
                &&& r.0@ == body.0
                &&& names_of(r.1@) == body.1
                &&& r.2 as nat == body.2
                &&& r.3 as nat == body.3
            }),
    {
        let ghost v = self@;
        let ghost cyc = cycle_views(cycles@);
        let ghost rs = string_views(roots@);
        let ghost whole = deep_roots(v, *config, cyc, rs, 0, Set::empty());
        let mut out = String::new();
        let mut seen: Vec<String> = Vec::new();
        assert(names_of(seen@) =~= Set::<Seq<char>>::empty());
        let empty: Vec<String> = Vec::new();
        assert(string_views(empty@) =~= seq![]);
        let mut max_depth: u32 = 0;
        let mut pruned: usize = 0;
        let mut i: usize = 0;
        assert(out@ + whole.0 =~= whole.0);
        while i < roots.len()
            invariant
                i <= roots.len(),
                self@ == v,
                v.nodes.len() <= u32::MAX,
                rs == string_views(roots@),
                cyc == cycle_views(cycles@),
                config.enable_pagination ==> config.page_size > 0,
                string_views(empty@) == Seq::<Seq<char>>::empty(),
                whole == deep_roots(v, *config, cyc, rs, 0, Set::empty()),
                whole.3 <= usize::MAX,
                out@ + deep_roots(v, *config, cyc, rs, i as nat, names_of(seen@)).0 == whole.0,
                deep_roots(v, *config, cyc, rs, i as nat, names_of(seen@)).1 == whole.1,
                nat_max(max_depth as nat, deep_roots(v, *config, cyc, rs, i as nat, names_of(seen@)).2) == nat_max(
                    0,
                    whole.2,
                ),
                pruned + deep_roots(v, *config, cyc, rs, i as nat, names_of(seen@)).3 == whole.3,
            decreases roots.len() - i,
        {
            let ghost s_i = names_of(seen@);
            let ghost before = out@;
            let ghost gap = if i > 0 {
                "\n"@
            } else {
                seq![]
            };
            if i > 0 {
                push_str(&mut out, "\n");
            }
            assert(out@ == before + gap);
            proof {
                lemma_unseen_bounded(v.nodes, s_i);
            }
            assert(rs[i as int] == roots@[i as int]@);
            let (lines, s1, st) = self.render_branch_with_deep_nesting(
                roots[i].as_str(),
                0,
                &empty,
                true,
                config,
                cycles,
                seen,
            );
            push_lines(&mut out, &lines);
            seen = s1;
            if st.max_depth_reached > max_depth {
                max_depth = st.max_depth_reached;
            }
            pruned = pruned + st.branches_pruned;
            proof {
                let t = deep_lines(v, *config, cyc, rs[i as int], 0, seq![], true, s_i);
                let rest = deep_roots(v, *config, cyc, rs, (i + 1) as nat, t.1);
                assert(before + (gap + lines_text(t.0) + rest.0) =~= (before + gap + lines_text(t.0)) + rest.0);
            }
            i = i + 1;
        }
        assert(out@ =~= whole.0);
        (out, seen, max_depth, pruned)
    }

    /// Draws the trees below each root for deep hierarchies: a notice of
    /// the dependency cycles and of pruning, the trees (see `deep_lines`)
    /// with an empty line between consecutive ones, and the statistics when
    /// depth markers are on; with the statistics themselves.
    pub fn render_with_deep_nesting(&mut self, roots: &Vec<String>, config: &DeepNestingConfig) -> (r: (
        String,
        RenderStats,
    ))
        requires
            old(self).branch_nodes@.len() <= u32::MAX,
            config.enable_pagination ==> config.page_size > 0,
            memory_estimate(old(self).branch_nodes@, old(self).cross_refs@.len(), old(self).visited@.len())
                <= usize::MAX,
            deep_roots(
                old(self)@,
                *config,
                cycles_from(old(self).branch_nodes@, 0, Set::empty(), Set::empty()),
                string_views(roots@),
                0,
                Set::empty(),
            ).3 <= usize::MAX,
        ensures
            final(self)@ == old(self)@,
            ({
                let cycles = cycles_from(old(self).branch_nodes@, 0, Set::empty(), Set::empty());
                let body = deep_roots(old(self)@, *config, cycles, string_views(roots@), 0, Set::empty());
                let total = old(self).branch_nodes@.len();
                let memory = memory_estimate(old(self).branch_nodes@, old(self).cross_refs@.len(), old(self).visited@.len());
                &&& r.1.total_branches == total
                &&& r.1.max_depth_reached as nat == body.2
                &&& r.1.branches_pruned as nat == body.3
                &&& r.1.circular_deps_detected == cycles.len()
                &&& r.1.memory_usage_estimate == memory
                &&& r.0@ == cycles_notice(cycles) + pruning_notice(*config, total) + body.0 + stats_footer(
                    *config,
                    total,
                    body.2,
                    body.3,
                    cycles.len(),
                    memory,
                )
                &&& names_of(final(self).visited@) == body.1
            }),
    {
        let total = self.branch_nodes.len();
        let memory = self.estimate_memory_usage();
        let cycles = self.detect_circular_dependencies();
        let mut out = cycles_notice_text(&cycles);
        push_str(&mut out, pruning_notice_text(config, total).as_str());
        let (body, seen, max_depth, pruned) = self.deep_roots_text(roots, config, &cycles);
        push_str(&mut out, body.as_str());
        self.visited = seen;
        let stats = RenderStats {
            total_branches: total,
            max_depth_reached: max_depth,
            branches_pruned: pruned,
            circular_deps_detected: cycles.len(),
            memory_usage_estimate: memory,
        };
        push_str(&mut out, stats_footer_text(config, &stats).as_str());
        (out, stats)
    }
}

} // verus!

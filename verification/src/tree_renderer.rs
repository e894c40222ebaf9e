//! The branch tree: one line per branch, drawn depth first below each root,
//! with Jira issues, pull requests, other parents and ahead/behind counts
//! aligned in columns.
use vstd::prelude::*;

use crate::output::{bold, cyan_code, dimmed, fg, green_code, paint_bold, paint_cyan, paint_dimmed, paint_green, paint_yellow, yellow_code};
use crate::renderer::{ansi_stripped, spaces, strip_ansi};
use crate::state::BranchMetadata;
use crate::strs::{chars_of, decimal, decimal_string, push_char, push_str, str_eq};

verus! {

/// Commit ahead/behind information for a branch relative to its parent.
#[derive(Debug, Clone, Copy, PartialEq, Eq, Structural)]
pub struct CommitInfo {
    /// Number of commits the branch is ahead of its parent.
    pub ahead: usize,
    /// Number of commits the branch is behind its parent.
    pub behind: usize,
}

/// Represents a branch node in the tree.
#[derive(Debug, Clone)]
pub struct BranchNode {
    pub name: String,
    pub is_current: bool,
    pub metadata: Option<BranchMetadata>,
    pub parents: Vec<String>,
    pub children: Vec<String>,
    /// Commit ahead/behind counts relative to the branch's parent.
    pub commit_info: Option<CommitInfo>,
}

impl BranchNode {
    /// A field-by-field copy.
    pub fn clone_node(&self) -> (r: Self)
        ensures
            r.name == self.name,
            r.is_current == self.is_current,
            r.metadata == self.metadata,
            r.parents@ == self.parents@,
            r.children@ == self.children@,
            r.commit_info == self.commit_info,
    {
        BranchNode {
            name: self.name.clone(),
            is_current: self.is_current,
            metadata: match &self.metadata {
                Some(m) => Some(m.duplicate()),
                None => None,
            },
            parents: self.parents.clone(),
            children: self.children.clone(),
            commit_info: self.commit_info,
        }
    }
}

/// Information about a branch's role in diamond patterns.
#[derive(Debug, Clone)]
pub struct DiamondInfo {
    pub is_diamond_ancestor: bool,
    pub is_diamond_merge: bool,
    pub is_diamond_path: bool,
    pub diamond_roles: Vec<String>,
}

/// Information about a branch's cross-reference status.
#[derive(Debug, Clone, Copy, Default)]
pub struct CrossRefInfo {
    pub has_multiple_parents: bool,
    pub is_cross_referenced: bool,
    pub is_in_circular_dep: bool,
    pub reference_count: usize,
}

/// Configuration for deep nesting rendering.
#[derive(Debug, Clone, Copy)]
pub struct DeepNestingConfig {
    pub max_depth: Option<u32>,
    pub max_branches_per_level: Option<usize>,
    pub enable_pagination: bool,
    pub page_size: usize,
    pub show_depth_indicators: bool,
    pub enable_pruning: bool,
    pub prune_threshold: usize,
}

impl Default for DeepNestingConfig {
    fn default() -> (c: Self)
        ensures
            c.max_depth == Some(20u32),
            c.max_branches_per_level == Some(50usize),
            c.enable_pagination,
            c.page_size == 10,
            c.show_depth_indicators,
            c.enable_pruning,
            c.prune_threshold == 100,
    {
        DeepNestingConfig {
            max_depth: Some(20),
            max_branches_per_level: Some(50),
            enable_pagination: true,
            page_size: 10,
            show_depth_indicators: true,
            enable_pruning: true,
            prune_threshold: 100,
        }
    }
}

/// Statistics about tree rendering.
#[derive(Debug, Clone, Copy, Default)]
pub struct RenderStats {
    pub total_branches: usize,
    pub max_depth_reached: u32,
    pub branches_pruned: usize,
    pub circular_deps_detected: usize,
    pub memory_usage_estimate: usize,
}

/// Renderer for the branch tree.
#[derive(Debug, Clone)]
pub struct TreeRenderer {
    /// The branches, each under its own name.
    pub branch_nodes: Vec<BranchNode>,
    /// Branches already drawn.
    pub visited: Vec<String>,
    /// Branches with more than one parent, and those parents.
    pub cross_refs: Vec<(String, Vec<String>)>,
    pub max_depth: Option<u32>,
    pub no_color: bool,
    /// The column at which metadata starts.
    pub tree_width: usize,
}

/// What the drawing depends on: the branches, the cross references, the
/// depth limit, whether colors are off and the metadata column.
pub struct TreeView {
    pub nodes: Seq<BranchNode>,
    pub refs: Seq<(String, Vec<String>)>,
    pub max_depth: Option<u32>,
    pub no_color: bool,
    pub tree_width: usize,
}

impl View for TreeRenderer {
    type V = TreeView;

    open spec fn view(&self) -> TreeView {
        TreeView {
            nodes: self.branch_nodes@,
            refs: self.cross_refs@,
            max_depth: self.max_depth,
            no_color: self.no_color,
            tree_width: self.tree_width,
        }
    }
}

// ---------------------------------------------------------------------------
// Text helpers
// ---------------------------------------------------------------------------

pub open spec fn sat_add(a: usize, b: usize) -> usize {
    if a + b > usize::MAX {
        usize::MAX
    } else {
        (a + b) as usize
    }
}

pub open spec fn sat_sub(a: usize, b: usize) -> usize {
    if a >= b {
        (a - b) as usize
    } else {
        0
    }
}

pub open spec fn max_of(a: usize, b: usize) -> usize {
    if a >= b {
        a
    } else {
        b
    }
}

/// The width of a line: its characters, not counting escape sequences when
/// colors are on.
pub open spec fn width_of(no_color: bool, s: Seq<char>) -> usize {
    if no_color {
        s.len() as usize
    } else {
        ansi_stripped(s).len() as usize
    }
}

/// The strings one after another.
pub open spec fn concat_all(parts: Seq<Seq<char>>) -> Seq<char>
    decreases parts.len(),
{
    if parts.len() == 0 {
        seq![]
    } else {
        concat_all(parts.drop_last()) + parts.last()
    }
}

/// The strings separated by `sep`.
pub open spec fn join(parts: Seq<Seq<char>>, sep: Seq<char>) -> Seq<char>
    decreases parts.len(),
{
    if parts.len() == 0 {
        seq![]
    } else if parts.len() == 1 {
        parts[0]
    } else {
        join(parts.drop_last(), sep) + sep + parts.last()
    }
}

/// The entries of `parents` that are not among `own`.
pub open spec fn others(parents: Seq<Seq<char>>, own: Seq<Seq<char>>) -> Seq<Seq<char>>
    decreases parents.len(),
{
    if parents.len() == 0 {
        seq![]
    } else if own.contains(parents.last()) {
        others(parents.drop_last(), own)
    } else {
        others(parents.drop_last(), own).push(parents.last())
    }
}

pub open spec fn string_views(v: Seq<String>) -> Seq<Seq<char>> {
    v.map_values(|s: String| s@)
}

/// The parents recorded for `name` among the cross references.
pub open spec fn cross_ref_lookup(refs: Seq<(String, Vec<String>)>, name: Seq<char>) -> Option<Seq<Seq<char>>>
    decreases refs.len(),
{
    if refs.len() == 0 {
        None
    } else {
        match cross_ref_lookup(refs.drop_last(), name) {
            Some(p) => Some(p),
            None => if refs.last().0@ == name {
                Some(string_views(refs.last().1@))
            } else {
                None
            },
        }
    }
}

/// The branch name as drawn: current branches get a `(current)` marker and,
/// with colors, a bold green name.
pub open spec fn name_display(node: BranchNode, no_color: bool) -> Seq<char> {
    if node.is_current {
        (if no_color {
            node.name@
        } else {
            bold(fg(green_code(), node.name@))
        }) + seq![' ', '(', 'c', 'u', 'r', 'r', 'e', 'n', 't', ')']
    } else {
        node.name@
    }
}

pub open spec fn jira_display(issue: Seq<char>, no_color: bool) -> Seq<char> {
    seq!['['] + (if no_color {
        issue
    } else {
        fg(cyan_code(), issue)
    }) + seq![']']
}

pub open spec fn pr_display(pr: u32, no_color: bool) -> Seq<char> {
    seq!['[', 'P', 'R', '#'] + (if no_color {
        decimal(pr as nat)
    } else {
        fg(yellow_code(), decimal(pr as nat))
    }) + seq![']']
}

pub open spec fn also_display(names: Seq<char>, no_color: bool) -> Seq<char> {
    seq!['[', 'a', 'l', 's', 'o', ':', ' '] + (if no_color {
        names
    } else {
        dimmed(names)
    }) + seq![']']
}

/// `↑ahead ↓behind`, each part only when its count is not zero.
pub open spec fn counts_text(info: CommitInfo) -> Seq<char> {
    let up = seq!['↑'] + decimal(info.ahead as nat);
    let down = seq!['↓'] + decimal(info.behind as nat);
    if info.ahead > 0 && info.behind > 0 {
        up + seq![' '] + down
    } else if info.ahead > 0 {
        up
    } else {
        down
    }
}

pub open spec fn counts_display(info: CommitInfo, no_color: bool) -> Seq<char> {
    seq!['['] + (if no_color {
        counts_text(info)
    } else {
        dimmed(counts_text(info))
    }) + seq![']']
}

pub open spec fn has_jira(node: BranchNode) -> bool {
    node.metadata matches Some(m) && m.jira_issue matches Some(j) && j@.len() > 0
}

pub open spec fn has_pr(node: BranchNode) -> bool {
    node.metadata matches Some(m) && m.github_pr is Some
}

pub open spec fn has_other_parents(refs: Seq<(String, Vec<String>)>, node: BranchNode) -> bool {
    cross_ref_lookup(refs, node.name@) matches Some(ps) && ps.len() > 1 && others(
        ps,
        string_views(node.parents@),
    ).len() > 0
}

/// The Jira and pull-request badges: the issue at the Jira column, the pull
/// request at the column after it.
pub open spec fn issue_badges(no_color: bool, line: Seq<char>, node: BranchNode, cw: usize, jira_col: usize) -> Seq<
    char,
> {
    match node.metadata {
        None => line,
        Some(m) => {
            let with_jira = if has_jira(node) {
                line + spaces(sat_sub(jira_col, cw) as nat) + jira_display(m.jira_issue->0@, no_color)
            } else {
                line
            };
            let pos = if has_jira(node) {
                width_of(no_color, with_jira)
            } else {
                cw
            };
            match m.github_pr {
                Some(pr) => with_jira + spaces(sat_sub(sat_add(jira_col, 12), pos) as nat) + pr_display(pr, no_color),
                None => with_jira,
            }
        },
    }
}

/// The `[also: ...]` badge for parents not on the drawn path.
pub open spec fn also_badge(
    no_color: bool,
    refs: Seq<(String, Vec<String>)>,
    line: Seq<char>,
    node: BranchNode,
    cross_col: usize,
) -> Seq<char> {
    match cross_ref_lookup(refs, node.name@) {
        Some(ps) => if ps.len() > 1 {
            let other = others(ps, string_views(node.parents@));
            if other.len() > 0 {
                line + spaces(sat_sub(cross_col, width_of(no_color, line)) as nat) + also_display(
                    join(other, seq![',', ' ']),
                    no_color,
                )
            } else {
                line
            }
        } else {
            line
        },
        None => line,
    }
}

/// The ahead/behind badge.
pub open spec fn counts_badge(no_color: bool, tree_width: usize, line: Seq<char>, node: BranchNode, cw: usize) -> Seq<char> {
    match node.commit_info {
        Some(info) => if info.ahead > 0 || info.behind > 0 {
            let now = width_of(no_color, line);
            let gap = if now > cw {
                2
            } else {
                sat_sub(max_of(sat_add(cw, 2), tree_width), now)
            };
            line + spaces(gap as nat) + counts_display(info, no_color)
        } else {
            line
        },
        None => line,
    }
}

/// A line with the branch's metadata appended in aligned columns.
pub open spec fn with_metadata(
    no_color: bool,
    tree_width: usize,
    refs: Seq<(String, Vec<String>)>,
    line: Seq<char>,
    node: BranchNode,
) -> Seq<char> {
    let cw = width_of(no_color, line);
    if !has_jira(node) && !has_pr(node) && !has_other_parents(refs, node) && node.commit_info is None {
        line
    } else {
        let jira_col = max_of(sat_add(cw, 2), tree_width);
        let cross_col = sat_add(sat_add(jira_col, 12), 12);
        let l1 = issue_badges(no_color, line, node, cw, jira_col);
        let l2 = also_badge(no_color, refs, l1, node, cross_col);
        counts_badge(no_color, tree_width, l2, node, cw)
    }
}

/// The connector drawn before a branch below the root level.
pub open spec fn tree_symbol(depth: nat, last: bool) -> Seq<char> {
    if depth == 0 {
        seq![]
    } else if last {
        seq!['└', '─', '─', ' ']
    } else {
        seq!['├', '─', '─', ' ']
    }
}

/// The line drawn for a branch.
pub open spec fn branch_line(r: TreeView, node: BranchNode, depth: nat, prefix: Seq<Seq<char>>, last: bool) -> Seq<
    char,
> {
    with_metadata(
        r.no_color,
        r.tree_width,
        r.refs,
        concat_all(prefix) + tree_symbol(depth, last) + name_display(node, r.no_color),
        node,
    )
}

fn spaces_string(n: usize) -> (r: String)
    ensures
        r@ == spaces(n as nat),
{
    let mut r = String::new();
    let mut i: usize = 0;
    while i < n
        invariant
            i <= n,
            r@ == spaces(i as nat),
        decreases n - i,
    {
        push_char(&mut r, ' ');
        i = i + 1;
        assert(r@ =~= spaces(i as nat));
    }
    r
}

/// The strings of `parts` separated by `sep`.
pub fn join_strings(parts: &Vec<String>, sep: &str) -> (r: String)
    ensures
        r@ == join(string_views(parts@), sep@),
{
    let mut out = String::new();
    let mut i: usize = 0;
    while i < parts.len()
        invariant
            i <= parts.len(),
            out@ == join(string_views(parts@).take(i as int), sep@),
        decreases parts.len() - i,
    {
        let ghost v = string_views(parts@);
        assert(v.take(i + 1).drop_last() =~= v.take(i as int));
        if i > 0 {
            push_str(&mut out, sep);
        } else {
            assert(v.take(1) =~= seq![v[0]]);
        }
        push_str(&mut out, parts[i].as_str());
        i = i + 1;
    }
    assert(string_views(parts@).take(parts.len() as int) =~= string_views(parts@));
    out
}

pub(crate) fn contains_string(v: &Vec<String>, s: &String) -> (b: bool)
    ensures
        b == string_views(v@).contains(s@),
{
    let mut i: usize = 0;
    while i < v.len()
        invariant
            i <= v.len(),
            forall|k: int| 0 <= k < i ==> v@[k]@ != s@,
        decreases v.len() - i,
    {
        if str_eq(v[i].as_str(), s.as_str()) {
            assert(string_views(v@)[i as int] == s@);
            return true;
        }
        i = i + 1;
    }
    proof {
        if string_views(v@).contains(s@) {
            let k = choose|k: int| 0 <= k < string_views(v@).len() && string_views(v@)[k] == s@;
            assert(v@[k]@ == s@);
        }
    }
    false
}

fn other_parents(parents: &Vec<String>, own: &Vec<String>) -> (r: Vec<String>)
    ensures
        string_views(r@) == others(string_views(parents@), string_views(own@)),
{
    let mut out: Vec<String> = Vec::new();
    let mut i: usize = 0;
    while i < parents.len()
        invariant
            i <= parents.len(),
            string_views(out@) == others(string_views(parents@).take(i as int), string_views(own@)),
        decreases parents.len() - i,
    {
        let ghost v = string_views(parents@);
        assert(v.take(i + 1).drop_last() =~= v.take(i as int));
        assert(v.take(i + 1).last() == parents@[i as int]@);
        if !contains_string(own, &parents[i]) {
            let ghost before = out@;
            out.push(parents[i].clone());
            assert(string_views(out@) =~= string_views(before).push(parents@[i as int]@));
        }
        i = i + 1;
    }
    assert(string_views(parents@).take(parents.len() as int) =~= string_views(parents@));
    out
}

impl TreeRenderer {
    /// The width of a string on the terminal: its characters, not counting
    /// escape sequences when colors are on.
    pub fn display_width(&self, s: &str) -> (w: usize)
        ensures
            w == width_of(self.no_color, s@),
    {
        if self.no_color {
            chars_of(s).len()
        } else {
            let plain = strip_ansi(s);
            chars_of(plain.as_str()).len()
        }
    }

    /// The parents recorded for `name`, if it is cross-referenced.
    pub(crate) fn cross_refs_of(&self, name: &String) -> (r: Option<&Vec<String>>)
        ensures
            match cross_ref_lookup(self.cross_refs@, name@) {
                Some(ps) => r is Some && string_views(r->0@) == ps,
                None => r is None,
            },
    {
        let mut i: usize = 0;
        while i < self.cross_refs.len()
            invariant
                i <= self.cross_refs.len(),
                cross_ref_lookup(self.cross_refs@.take(i as int), name@) is None,
            decreases self.cross_refs.len() - i,
        {
            assert(self.cross_refs@.take(i + 1).drop_last() =~= self.cross_refs@.take(i as int));
            if str_eq(self.cross_refs[i].0.as_str(), name.as_str()) {
                proof {
                    lemma_cross_ref_prefix(self.cross_refs@, name@, i as int);
                }
                return Some(&self.cross_refs[i].1);
            }
            i = i + 1;
        }
        assert(self.cross_refs@.take(self.cross_refs.len() as int) =~= self.cross_refs@);
        None
    }

    #[verifier::rlimit(50)]
    fn push_issue_badges(&self, line: &mut String, node: &BranchNode, current_width: usize, jira_col: usize)
        requires
            current_width == width_of(self.no_color, old(line)@),
        ensures
            final(line)@ == issue_badges(self.no_color, old(line)@, *node, current_width, jira_col),
    {
        let pr_col = jira_col.saturating_add(12);
        let ghost start = line@;
        match &node.metadata {
            Some(m) => {
                let mut current_pos = current_width;
                match &m.jira_issue {
                    Some(j) => {
                        if !j.as_str().is_empty() {
                            push_str(line, spaces_string(jira_col.saturating_sub(current_pos)).as_str());
                            push_char(line, '[');
                            if self.no_color {
                                push_str(line, j.as_str());
                            } else {
                                push_str(line, paint_cyan(j.as_str()).as_str());
                            }
                            push_char(line, ']');
                            assert(line@ =~= start + spaces(sat_sub(jira_col, current_width) as nat) + jira_display(
                                j@,
                                self.no_color,
                            ));
                            current_pos = self.display_width(line.as_str());
                        }
                    },
                    None => {},
                }
                let ghost with_jira = line@;
                match m.github_pr {
                    Some(n) => {
                        push_str(line, spaces_string(pr_col.saturating_sub(current_pos)).as_str());
                        let digits = decimal_string(n as u64);
                        let prefix = "[PR#";
                        proof {
                            reveal_strlit("[PR#");
                        }
                        push_str(line, prefix);
                        if self.no_color {
                            push_str(line, digits.as_str());
                        } else {
                            push_str(line, paint_yellow(digits.as_str()).as_str());
                        }
                        push_char(line, ']');
                        assert(line@ =~= with_jira + spaces(sat_sub(pr_col, current_pos) as nat) + pr_display(n, self.no_color));
                    },
                    None => {},
                }
            },
            None => {},
        }
    }

    fn push_also_badge(&self, line: &mut String, node: &BranchNode, cross_col: usize)
        ensures
            final(line)@ == also_badge(self.no_color, self.cross_refs@, old(line)@, *node, cross_col),
    {
        match self.cross_refs_of(&node.name) {
            Some(ps) => {
                if ps.len() > 1 {
                    let o = other_parents(ps, &node.parents);
                    if o.len() > 0 {
                        let now = self.display_width(line.as_str());
                        push_str(line, spaces_string(cross_col.saturating_sub(now)).as_str());
                        let sep = ", ";
                        proof {
                            reveal_strlit(", ");
                            assert(sep@ =~= seq![',', ' ']);
                        }
                        let names = join_strings(&o, sep);
                        let head = "[also: ";
                        proof {
                            reveal_strlit("[also: ");
                        }
                        push_str(line, head);
                        if self.no_color {
                            push_str(line, names.as_str());
                        } else {
                            push_str(line, paint_dimmed(names.as_str()).as_str());
                        }
                        push_char(line, ']');
                    }
                }
            },
            None => {},
        }
    }

    fn push_counts_badge(&self, line: &mut String, node: &BranchNode, current_width: usize)
        ensures
            final(line)@ == counts_badge(self.no_color, self.tree_width, old(line)@, *node, current_width),
    {
        match node.commit_info {
            Some(info) => {
                if info.ahead > 0 || info.behind > 0 {
                    let now = self.display_width(line.as_str());
                    let widest = if current_width.saturating_add(2) >= self.tree_width {
                        current_width.saturating_add(2)
                    } else {
                        self.tree_width
                    };
                    let gap = if now > current_width {
                        2
                    } else {
                        widest.saturating_sub(now)
                    };
                    push_str(line, spaces_string(gap).as_str());
                    let mut counts = String::new();
                    if info.ahead > 0 {
                        push_char(&mut counts, '↑');
                        push_str(&mut counts, decimal_string(info.ahead as u64).as_str());
                    }
                    if info.behind > 0 {
                        if info.ahead > 0 {
                            push_char(&mut counts, ' ');
                        }
                        push_char(&mut counts, '↓');
                        push_str(&mut counts, decimal_string(info.behind as u64).as_str());
                    }
                    assert(counts@ =~= counts_text(info));
                    push_char(line, '[');
                    if self.no_color {
                        push_str(line, counts.as_str());
                    } else {
                        push_str(line, paint_dimmed(counts.as_str()).as_str());
                    }
                    push_char(line, ']');
                }
            },
            None => {},
        }
    }

    fn has_other_parents_exec(&self, node: &BranchNode) -> (b: bool)
        ensures
            b == has_other_parents(self.cross_refs@, *node),
    {
        match self.cross_refs_of(&node.name) {
            Some(ps) => ps.len() > 1 && other_parents(ps, &node.parents).len() > 0,
            None => false,
        }
    }

    /// Appends the branch's metadata to `line` in aligned columns: the Jira
    /// issue, the pull request, the parents not on the drawn path and the
    /// ahead/behind counts.
    pub fn add_branch_metadata(&self, line: &mut String, node: &BranchNode)
        ensures
            final(line)@ == with_metadata(self.no_color, self.tree_width, self.cross_refs@, old(line)@, *node),
    {
        let current_width = self.display_width(line.as_str());
        let jira = match &node.metadata {
            Some(m) => match &m.jira_issue {
                Some(j) => !j.as_str().is_empty(),
                None => false,
            },
            None => false,
        };
        let pr = match &node.metadata {
            Some(m) => m.github_pr.is_some(),
            None => false,
        };
        let cross = self.has_other_parents_exec(node);
        if !jira && !pr && !cross && node.commit_info.is_none() {
            return;
        }
        let jira_col = if current_width.saturating_add(2) >= self.tree_width {
            current_width.saturating_add(2)
        } else {
            self.tree_width
        };
        let cross_col = jira_col.saturating_add(12).saturating_add(12);
        self.push_issue_badges(line, node, current_width, jira_col);
        self.push_also_badge(line, node, cross_col);
        self.push_counts_badge(line, node, current_width);
    }

    /// The line drawn for a branch: the inherited connectors, the branch's
    /// own connector, its name and its metadata.
    pub fn print_branch(&self, node: &BranchNode, depth: u32, prefix: &Vec<String>, is_last_sibling: bool) -> (r: String)
        ensures
            r@ == branch_line(self@, *node, depth as nat, string_views(prefix@), is_last_sibling),
    {
        let mut line = String::new();
        let mut i: usize = 0;
        while i < prefix.len()
            invariant
                i <= prefix.len(),
                line@ == concat_all(string_views(prefix@).take(i as int)),
            decreases prefix.len() - i,
        {
            assert(string_views(prefix@).take(i + 1).drop_last() =~= string_views(prefix@).take(i as int));
            push_str(&mut line, prefix[i].as_str());
            i = i + 1;
        }
        assert(string_views(prefix@).take(prefix.len() as int) =~= string_views(prefix@));
        if depth > 0 {
            if is_last_sibling {
                push_str(&mut line, "└── ");
                proof {
                    reveal_strlit("└── ");
                }
            } else {
                push_str(&mut line, "├── ");
                proof {
                    reveal_strlit("├── ");
                }
            }
        }
        if node.is_current {
            if self.no_color {
                push_str(&mut line, node.name.as_str());
            } else {
                let green = paint_green(node.name.as_str());
                push_str(&mut line, paint_bold(green.as_str()).as_str());
            }
            push_str(&mut line, " (current)");
            proof {
                reveal_strlit(" (current)");
            }
        } else {
            push_str(&mut line, node.name.as_str());
        }
        assert(line@ =~= concat_all(string_views(prefix@)) + tree_symbol(depth as nat, is_last_sibling) + name_display(
            *node,
            self.no_color,
        ));
        self.add_branch_metadata(&mut line, node);
        line
    }
}

proof fn lemma_cross_ref_prefix(refs: Seq<(String, Vec<String>)>, name: Seq<char>, i: int)
    requires
        0 <= i < refs.len(),
        cross_ref_lookup(refs.take(i), name) is None,
        refs[i].0@ == name,
    ensures
        cross_ref_lookup(refs, name) == Some(string_views(refs[i].1@)),
    decreases refs.len(),
{
    if i == refs.len() - 1 {
        assert(refs.drop_last() =~= refs.take(i));
    } else {
        assert(refs.drop_last().take(i) =~= refs.take(i));
        lemma_cross_ref_prefix(refs.drop_last(), name, i);
    }
}


// ---------------------------------------------------------------------------
// Walking the tree
// ---------------------------------------------------------------------------

/// The index of the node named `name`.
pub open spec fn branch_index(nodes: Seq<BranchNode>, name: Seq<char>) -> Option<int>
    decreases nodes.len(),
{
    if nodes.len() == 0 {
        None
    } else {
        match branch_index(nodes.drop_last(), name) {
            Some(i) => Some(i),
            None => if nodes.last().name@ == name {
                Some(nodes.len() - 1)
            } else {
                None
            },
        }
    }
}

pub proof fn lemma_branch_index(nodes: Seq<BranchNode>, name: Seq<char>)
    ensures
        match branch_index(nodes, name) {
            Some(i) => 0 <= i < nodes.len() && nodes[i].name@ == name
                && forall|j: int| 0 <= j < i ==> nodes[j].name@ != name,
            None => forall|j: int| 0 <= j < nodes.len() ==> nodes[j].name@ != name,
        },
    decreases nodes.len(),
{
    if nodes.len() > 0 {
        lemma_branch_index(nodes.drop_last(), name);
        assert(forall|j: int| 0 <= j < nodes.len() - 1 ==> nodes.drop_last()[j] == nodes[j]);
    }
}

/// How many nodes have a name outside `seen`.
pub open spec fn unseen(nodes: Seq<BranchNode>, seen: Set<Seq<char>>) -> nat
    decreases nodes.len(),
{
    if nodes.len() == 0 {
        0
    } else {
        unseen(nodes.drop_last(), seen) + if seen.contains(nodes.last().name@) {
            0nat
        } else {
            1nat
        }
    }
}

pub proof fn lemma_unseen_bounded(nodes: Seq<BranchNode>, seen: Set<Seq<char>>)
    ensures
        unseen(nodes, seen) <= nodes.len(),
    decreases nodes.len(),
{
    if nodes.len() > 0 {
        lemma_unseen_bounded(nodes.drop_last(), seen);
    }
}

pub proof fn lemma_unseen_mono(nodes: Seq<BranchNode>, a: Set<Seq<char>>, b: Set<Seq<char>>)
    requires
        a.subset_of(b),
    ensures
        unseen(nodes, b) <= unseen(nodes, a),
    decreases nodes.len(),
{
    if nodes.len() > 0 {
        lemma_unseen_mono(nodes.drop_last(), a, b);
    }
}

pub proof fn lemma_unseen_insert(nodes: Seq<BranchNode>, seen: Set<Seq<char>>, name: Seq<char>, i: int)
    requires
        0 <= i < nodes.len(),
        nodes[i].name@ == name,
        !seen.contains(name),
    ensures
        unseen(nodes, seen.insert(name)) < unseen(nodes, seen),
    decreases nodes.len(),
{
    lemma_unseen_mono(nodes.drop_last(), seen, seen.insert(name));
    if i < nodes.len() - 1 {
        lemma_unseen_insert(nodes.drop_last(), seen, name, i);
    }
}

/// The names held by a list of strings.
pub open spec fn names_of(v: Seq<String>) -> Set<Seq<char>> {
    Set::new(|x: Seq<char>| exists|i: int| 0 <= i < v.len() && v[i]@ == x)
}

pub(crate) proof fn lemma_names_push(v: Seq<String>, s: String)
    ensures
        names_of(v.push(s)) == names_of(v).insert(s@),
{
    assert forall|x: Seq<char>| names_of(v.push(s)).contains(x) <==> names_of(v).insert(s@).contains(x) by {
        if names_of(v.push(s)).contains(x) {
            let i = choose|i: int| 0 <= i < v.push(s).len() && v.push(s)[i]@ == x;
            if i < v.len() {
                assert(v[i]@ == x);
            }
        }
        if names_of(v).contains(x) {
            let i = choose|i: int| 0 <= i < v.len() && v[i]@ == x;
            assert(v.push(s)[i]@ == x);
        }
        if x == s@ {
            assert(v.push(s)[v.len() as int]@ == x);
        }
    }
    assert(names_of(v.push(s)) =~= names_of(v).insert(s@));
}

/// The prefix handed to a child: one more segment below the root level.
pub open spec fn child_prefix(prefix: Seq<Seq<char>>, depth: nat, last: bool) -> Seq<Seq<char>> {
    if depth > 0 {
        prefix.push(
            if last {
                seq![' ', ' ', ' ', ' ']
            } else {
                seq!['│', ' ', ' ', ' ']
            },
        )
    } else {
        prefix
    }
}

pub open spec fn too_deep(max_depth: Option<u32>, depth: nat) -> bool {
    max_depth matches Some(m) && depth > m
}

/// Lines drawn for `name` and, the first time it is met, its subtree; and
/// the branches met by then.
pub open spec fn tree_lines(
    r: TreeView,
    name: Seq<char>,
    depth: nat,
    prefix: Seq<Seq<char>>,
    last: bool,
    seen: Set<Seq<char>>,
) -> (Seq<Seq<char>>, Set<Seq<char>>)
    decreases unseen(r.nodes, seen), 0nat, 0nat,
{
    if too_deep(r.max_depth, depth) || seen.contains(name) {
        (seq![], seen)
    } else {
        match branch_index(r.nodes, name) {
            None => (seq![], seen.insert(name)),
            Some(i) => {
                proof {
                    lemma_branch_index(r.nodes, name);
                    lemma_unseen_insert(r.nodes, seen, name, i);
                }
                let node = r.nodes[i];
                let below = subtree_lines(
                    r,
                    string_views(node.children@),
                    0,
                    depth,
                    prefix,
                    last,
                    seen.insert(name),
                );
                (seq![branch_line(r, node, depth, prefix, last)] + below.0, below.1)
            },
        }
    }
}

/// Lines for the children `children[k..]` of a branch drawn at `depth`.
pub open spec fn subtree_lines(
    r: TreeView,
    children: Seq<Seq<char>>,
    k: nat,
    depth: nat,
    prefix: Seq<Seq<char>>,
    last: bool,
    seen: Set<Seq<char>>,
) -> (Seq<Seq<char>>, Set<Seq<char>>)
    decreases unseen(r.nodes, seen), 1nat, children.len() - k,
{
    if k >= children.len() {
        (seq![], seen)
    } else {
        let first = tree_lines(
            r,
            children[k as int],
            depth + 1,
            child_prefix(prefix, depth, last),
            k == children.len() - 1,
            seen,
        );
        proof {
            lemma_unseen_mono(r.nodes, seen, seen.union(first.1));
        }
        let rest = subtree_lines(r, children, k + 1, depth, prefix, last, seen.union(first.1));
        (first.0 + rest.0, rest.1)
    }
}

spec fn prefix_views(v: Seq<String>) -> Seq<Seq<char>> {
    string_views(v)
}

pub(crate) fn child_prefix_exec(prefix: &Vec<String>, depth: u32, last: bool) -> (r: Vec<String>)
    ensures
        string_views(r@) == child_prefix(string_views(prefix@), depth as nat, last),
{
    let mut r: Vec<String> = Vec::new();
    let mut i: usize = 0;
    while i < prefix.len()
        invariant
            i <= prefix.len(),
            string_views(r@) == string_views(prefix@).take(i as int),
        decreases prefix.len() - i,
    {
        let ghost before = r@;
        r.push(prefix[i].clone());
        assert(string_views(r@) =~= string_views(before).push(prefix@[i as int]@));
        i = i + 1;
        assert(string_views(r@) =~= string_views(prefix@).take(i as int));
    }
    assert(string_views(prefix@).take(prefix.len() as int) =~= string_views(prefix@));
    if depth > 0 {
        let seg = if last {
            "    "
        } else {
            "│   "
        };
        proof {
            reveal_strlit("    ");
            reveal_strlit("│   ");
            assert("    "@ =~= seq![' ', ' ', ' ', ' ']);
            assert("│   "@ =~= seq!['│', ' ', ' ', ' ']);
        }
        let ghost before = r@;
        r.push(seg.to_owned());
        assert(string_views(r@) =~= string_views(before).push(seg@));
    }
    r
}

pub(crate) fn seen_has(seen: &Vec<String>, name: &str) -> (b: bool)
    ensures
        b == names_of(seen@).contains(name@),
{
    let mut i: usize = 0;
    while i < seen.len()
        invariant
            i <= seen.len(),
            forall|j: int| 0 <= j < i ==> seen@[j]@ != name@,
        decreases seen.len() - i,
    {
        if str_eq(seen[i].as_str(), name) {
            return true;
        }
        i = i + 1;
    }
    false
}

impl TreeRenderer {
    /// The index of the node named `name`.
    pub fn find_branch(&self, name: &str) -> (r: Option<usize>)
        ensures
            match r {
                Some(i) => branch_index(self.branch_nodes@, name@) == Some(i as int),
                None => branch_index(self.branch_nodes@, name@) is None,
            },
    {
        let mut i: usize = 0;
        while i < self.branch_nodes.len()
            invariant
                i <= self.branch_nodes.len(),
                forall|j: int| 0 <= j < i ==> self.branch_nodes@[j].name@ != name@,
            decreases self.branch_nodes.len() - i,
        {
            if str_eq(self.branch_nodes[i].name.as_str(), name) {
                proof {
                    lemma_branch_index(self.branch_nodes@, name@);
                    match branch_index(self.branch_nodes@, name@) {
                        Some(k) => {
                            if k < i {
                                assert(self.branch_nodes@[k].name@ != name@);
                            }
                            if k > i {
                                assert(self.branch_nodes@[i as int].name@ != name@);
                            }
                        },
                        None => {
                            assert(self.branch_nodes@[i as int].name@ != name@);
                        },
                    }
                }
                return Some(i);
            }
            i = i + 1;
        }
        proof {
            lemma_branch_index(self.branch_nodes@, name@);
        }
        None
    }

    /// Lines for `name` and its subtree, given the branches already drawn.
    fn lines_from(
        &self,
        name: &str,
        depth: u32,
        prefix: &Vec<String>,
        last: bool,
        seen_in: Vec<String>,
    ) -> (r: (Vec<String>, Vec<String>))
        requires
            depth + unseen(self.branch_nodes@, names_of(seen_in@)) <= u32::MAX,
            self.branch_nodes@.len() <= u32::MAX,
        ensures
            string_views(r.0@) == tree_lines(self@, name@, depth as nat, string_views(prefix@), last, names_of(seen_in@)).0,
            names_of(r.1@) == tree_lines(self@, name@, depth as nat, string_views(prefix@), last, names_of(seen_in@)).1,
            names_of(seen_in@).subset_of(names_of(r.1@)),
        decreases unseen(self.branch_nodes@, names_of(seen_in@)),
    {
        let ghost nodes = self.branch_nodes@;
        let ghost seen0 = names_of(seen_in@);
        let seen = seen_in;
        let deep = match self.max_depth {
            Some(m) => depth > m,
            None => false,
        };
        if deep || seen_has(&seen, name) {
            return (Vec::new(), seen);
        }
        let ghost seen_before = seen@;
        let mut seen = seen;
        seen.push(name.to_owned());
        proof {
            lemma_names_push(seen_before, seen@.last());
            assert(seen@ =~= seen_before.push(seen@.last()));
        }
        let idx = self.find_branch(name);
        proof {
            lemma_branch_index(nodes, name@);
        }
        match idx {
            None => (Vec::new(), seen),
            Some(i) => {
                proof {
                    lemma_unseen_insert(nodes, seen0, name@, i as int);
                }
                let node = &self.branch_nodes[i];
                let mut lines: Vec<String> = Vec::new();
                lines.push(self.print_branch(node, depth, prefix, last));
                let ghost line0 = branch_line(self@, nodes[i as int], depth as nat, string_views(prefix@), last);
                let children = &node.children;
                let n = children.len();
                let ghost kids = string_views(children@);
                let ghost s_start = seen0.insert(name@);
                let ghost whole = subtree_lines(self@, kids, 0, depth as nat, string_views(prefix@), last, s_start);
                let child_pre = child_prefix_exec(prefix, depth, last);
                assert(string_views(lines@).drop_first() + whole.0 =~= whole.0);
                let mut k: usize = 0;
                while k < n
                    invariant
                        nodes == self.branch_nodes@,
                        nodes.len() <= u32::MAX,
                        i < nodes.len(),
                        *node == nodes[i as int],
                        *children == node.children,
                        n == children.len(),
                        kids == string_views(children@),
                        k <= n,
                        seen0 == names_of(seen_in@),
                        !seen0.contains(name@),
                        !too_deep(self.max_depth, depth as nat),
                        branch_index(nodes, name@) == Some(i as int),
                        s_start == seen0.insert(name@),
                        depth + unseen(nodes, seen0) <= u32::MAX,
                        unseen(nodes, s_start) < unseen(nodes, seen0),
                        s_start.subset_of(names_of(seen@)),
                        string_views(child_pre@) == child_prefix(string_views(prefix@), depth as nat, last),
                        whole == subtree_lines(self@, kids, 0, depth as nat, string_views(prefix@), last, s_start),
                        string_views(lines@).drop_first() + subtree_lines(
                            self@,
                            kids,
                            k as nat,
                            depth as nat,
                            string_views(prefix@),
                            last,
                            names_of(seen@),
                        ).0 == whole.0,
                        subtree_lines(self@, kids, k as nat, depth as nat, string_views(prefix@), last, names_of(seen@)).1
                            == whole.1,
                        lines@.len() >= 1,
                        string_views(lines@)[0] == line0,
                    decreases n - k,
                {
                    proof {
                        lemma_unseen_mono(nodes, s_start, names_of(seen@));
                    }
                    let ghost s_k = names_of(seen@);
                    let ghost acc = string_views(lines@).drop_first();
                    assert(kids[k as int] == children@[k as int]@);
                    assert(kids.len() == n);
                    let (more, s1) = self.lines_from(children[k].as_str(), depth + 1, &child_pre, k == n - 1, seen);
                    let ghost more_v = string_views(more@);
                    let mut more = more;
                    lines.append(&mut more);
                    seen = s1;
                    proof {
                        assert(s_k.union(names_of(seen@)) =~= names_of(seen@));
                        assert(string_views(lines@).drop_first() =~= acc + more_v);
                        let rest = subtree_lines(
                            self@,
                            kids,
                            (k + 1) as nat,
                            depth as nat,
                            string_views(prefix@),
                            last,
                            names_of(seen@),
                        );
                        assert(acc + (more_v + rest.0) =~= (acc + more_v) + rest.0);
                    }
                    k = k + 1;
                }
                proof {
                    assert(string_views(lines@) =~= seq![line0] + string_views(lines@).drop_first());
                    assert(whole.0 =~= string_views(lines@).drop_first());
                }
                (lines, seen)
            },
        }
    }
}


/// Lines, each followed by a line break.
pub open spec fn lines_text(lines: Seq<Seq<char>>) -> Seq<char>
    decreases lines.len(),
{
    if lines.len() == 0 {
        seq![]
    } else {
        lines_text(lines.drop_last()) + lines.last() + seq!['\n']
    }
}

pub(crate) fn push_lines(out: &mut String, lines: &Vec<String>)
    ensures
        final(out)@ == old(out)@ + lines_text(string_views(lines@)),
{
    let ghost start = out@;
    let mut i: usize = 0;
    assert(start + lines_text(string_views(lines@).take(0)) =~= start);
    while i < lines.len()
        invariant
            i <= lines.len(),
            out@ == start + lines_text(string_views(lines@).take(i as int)),
        decreases lines.len() - i,
    {
        let ghost v = string_views(lines@);
        assert(v.take(i + 1).drop_last() =~= v.take(i as int));
        push_str(out, lines[i].as_str());
        push_char(out, '\n');
        i = i + 1;
        assert(out@ =~= start + lines_text(v.take(i as int)));
    }
    assert(string_views(lines@).take(lines.len() as int) =~= string_views(lines@));
}

/// The trees below `roots[k..]`, separated by the delimiter, and the branches
/// met by then.
pub open spec fn roots_text(
    r: TreeView,
    roots: Seq<Seq<char>>,
    delimiter: Option<Seq<char>>,
    k: nat,
    seen: Set<Seq<char>>,
) -> (Seq<char>, Set<Seq<char>>)
    decreases roots.len() - k,
{
    if k >= roots.len() {
        (seq![], seen)
    } else {
        let delim = match delimiter {
            Some(d) => if k > 0 {
                d
            } else {
                seq![]
            },
            None => seq![],
        };
        let t = tree_lines(r, roots[k as int], 0, seq![], k == roots.len() - 1, seen);
        let rest = roots_text(r, roots, delimiter, k + 1, t.1);
        (delim + lines_text(t.0) + rest.0, rest.1)
    }
}

pub open spec fn opt_view(o: Option<&str>) -> Option<Seq<char>> {
    match o {
        Some(s) => Some(s@),
        None => None,
    }
}

impl TreeRenderer {
    /// Draws `branch_name` and, the first time it is met, its subtree; the
    /// branches drawn are remembered in `visited`.
    pub fn render_tree(&mut self, branch_name: &str, depth: u32, prefix: &Vec<String>, is_last_sibling: bool) -> (out:
        String)
        requires
            depth + unseen(old(self).branch_nodes@, names_of(old(self).visited@)) <= u32::MAX,
            old(self).branch_nodes@.len() <= u32::MAX,
        ensures
            final(self)@ == old(self)@,
            out@ == lines_text(
                tree_lines(
                    old(self)@,
                    branch_name@,
                    depth as nat,
                    string_views(prefix@),
                    is_last_sibling,
                    names_of(old(self).visited@),
                ).0,
            ),
            names_of(final(self).visited@) == tree_lines(
                old(self)@,
                branch_name@,
                depth as nat,
                string_views(prefix@),
                is_last_sibling,
                names_of(old(self).visited@),
            ).1,
    {
        let mut seen: Vec<String> = Vec::new();
        std::mem::swap(&mut seen, &mut self.visited);
        let (lines, seen2) = self.lines_from(branch_name, depth, prefix, is_last_sibling, seen);
        self.visited = seen2;
        let mut out = String::new();
        push_lines(&mut out, &lines);
        out
    }

    /// Draws the trees below each root, the delimiter (if any) between
    /// consecutive trees; a branch met again is not drawn again.
    pub fn render(&mut self, roots: &Vec<String>, delimiter: Option<&str>) -> (out: String)
        requires
            old(self).branch_nodes@.len() <= u32::MAX,
        ensures
            final(self)@ == old(self)@,
            out@ == roots_text(old(self)@, string_views(roots@), opt_view(delimiter), 0, names_of(old(self).visited@)).0,
            names_of(final(self).visited@) == roots_text(
                old(self)@,
                string_views(roots@),
                opt_view(delimiter),
                0,
                names_of(old(self).visited@),
            ).1,
    {
        let ghost v = old(self)@;
        let ghost rs = string_views(roots@);
        let ghost whole = roots_text(v, rs, opt_view(delimiter), 0, names_of(old(self).visited@));
        let mut out = String::new();
        let empty: Vec<String> = Vec::new();
        assert(string_views(empty@) =~= seq![]);
        let mut i: usize = 0;
        assert(out@ + whole.0 =~= whole.0);
        while i < roots.len()
            invariant
                i <= roots.len(),
                self@ == v,
                v.nodes.len() <= u32::MAX,
                rs == string_views(roots@),
                string_views(empty@) == Seq::<Seq<char>>::empty(),
                out@ + roots_text(v, rs, opt_view(delimiter), i as nat, names_of(self.visited@)).0 == whole.0,
                roots_text(v, rs, opt_view(delimiter), i as nat, names_of(self.visited@)).1 == whole.1,
            decreases roots.len() - i,
        {
            let ghost s_i = names_of(self.visited@);
            let ghost before = out@;
            let ghost delim = match opt_view(delimiter) {
                Some(d) => if i > 0 {
                    d
                } else {
                    seq![]
                },
                None => seq![],
            };
            match delimiter {
                Some(d) => {
                    if i > 0 {
                        push_str(&mut out, d);
                    }
                },
                None => {},
            }
            assert(out@ == before + delim);
            proof {
                lemma_unseen_bounded(v.nodes, s_i);
            }
            let text = self.render_tree(roots[i].as_str(), 0, &empty, i == roots.len() - 1);
            push_str(&mut out, text.as_str());
            proof {
                let t = tree_lines(v, rs[i as int], 0, seq![], i == rs.len() - 1, s_i);
                let rest = roots_text(v, rs, opt_view(delimiter), (i + 1) as nat, t.1);
                assert(rs[i as int] == roots@[i as int]@);
                assert(before + (delim + lines_text(t.0) + rest.0) =~= (before + delim + lines_text(t.0)) + rest.0);
            }
            i = i + 1;
        }
        assert(out@ =~= whole.0);
        out
    }
}


// ---------------------------------------------------------------------------
// Widths, cross references and construction
// ---------------------------------------------------------------------------

/// The characters of the prefix segments, added up.
pub open spec fn prefix_width(prefix: Seq<Seq<char>>) -> usize
    decreases prefix.len(),
{
    if prefix.len() == 0 {
        0
    } else {
        sat_add(prefix_width(prefix.drop_last()), prefix.last().len() as usize)
    }
}

/// The characters of a branch's name as drawn (without colors).
pub open spec fn name_width(node: BranchNode) -> usize {
    sat_add(node.name@.len() as usize, if node.is_current { 10 } else { 0 })
}

/// The prefix handed to a child when measuring: one more segment below the
/// root level, chosen by whether the child itself is the last one.
pub open spec fn measure_prefix(prefix: Seq<Seq<char>>, depth: nat, child_last: bool) -> Seq<Seq<char>> {
    child_prefix(prefix, depth, child_last)
}

/// The widest line of the subtree below `name`, and the branches met by then.
pub open spec fn subtree_width(
    r: TreeView,
    name: Seq<char>,
    depth: nat,
    prefix: Seq<Seq<char>>,
    seen: Set<Seq<char>>,
) -> (usize, Set<Seq<char>>)
    decreases unseen(r.nodes, seen), 0nat, 0nat,
{
    if too_deep(r.max_depth, depth) || seen.contains(name) {
        (0, seen)
    } else {
        match branch_index(r.nodes, name) {
            None => (0, seen.insert(name)),
            Some(i) => {
                proof {
                    lemma_branch_index(r.nodes, name);
                    lemma_unseen_insert(r.nodes, seen, name, i);
                }
                let node = r.nodes[i];
                let own = sat_add(sat_add(prefix_width(prefix), if depth > 0 { 4 } else { 0 }), name_width(node));
                let below = children_width(r, string_views(node.children@), 0, depth, prefix, seen.insert(name));
                (max_of(own, below.0), below.1)
            },
        }
    }
}

/// The widest line below the children `children[k..]`.
pub open spec fn children_width(
    r: TreeView,
    children: Seq<Seq<char>>,
    k: nat,
    depth: nat,
    prefix: Seq<Seq<char>>,
    seen: Set<Seq<char>>,
) -> (usize, Set<Seq<char>>)
    decreases unseen(r.nodes, seen), 1nat, children.len() - k,
{
    if k >= children.len() {
        (0, seen)
    } else {
        let first = subtree_width(
            r,
            children[k as int],
            depth + 1,
            measure_prefix(prefix, depth, k == children.len() - 1),
            seen,
        );
        proof {
            lemma_unseen_mono(r.nodes, seen, seen.union(first.1));
        }
        let rest = children_width(r, children, k + 1, depth, prefix, seen.union(first.1));
        (max_of(first.0, rest.0), rest.1)
    }
}

/// The widest line below `roots[k..]`, sharing the branches met.
pub open spec fn roots_width(r: TreeView, roots: Seq<Seq<char>>, k: nat, seen: Set<Seq<char>>) -> usize
    decreases roots.len() - k,
{
    if k >= roots.len() {
        0
    } else {
        let first = subtree_width(r, roots[k as int], 0, seq![], seen);
        max_of(first.0, roots_width(r, roots, k + 1, first.1))
    }
}

/// The column at which metadata starts: the widest line plus two.
pub open spec fn max_tree_width(r: TreeView, roots: Seq<Seq<char>>) -> usize {
    sat_add(roots_width(r, roots, 0, Set::empty()), 2)
}

fn prefix_width_exec(prefix: &Vec<String>) -> (w: usize)
    ensures
        w == prefix_width(string_views(prefix@)),
{
    let mut w: usize = 0;
    let mut i: usize = 0;
    while i < prefix.len()
        invariant
            i <= prefix.len(),
            w == prefix_width(string_views(prefix@).take(i as int)),
        decreases prefix.len() - i,
    {
        assert(string_views(prefix@).take(i + 1).drop_last() =~= string_views(prefix@).take(i as int));
        let n = chars_of(prefix[i].as_str()).len();
        w = w.saturating_add(n);
        i = i + 1;
    }
    assert(string_views(prefix@).take(prefix.len() as int) =~= string_views(prefix@));
    w
}

impl TreeRenderer {
    /// The widest line of the subtree below `name` (each branch drawn once),
    /// and the branches seen afterwards.
    fn calculate_branch_width(&self, name: &str, depth: u32, prefix: &Vec<String>, seen_in: Vec<String>) -> (r: (usize, Vec<String>))
        requires
            depth + unseen(self.branch_nodes@, names_of(seen_in@)) <= u32::MAX,
            self.branch_nodes@.len() <= u32::MAX,
        ensures
            r.0 == subtree_width(self@, name@, depth as nat, string_views(prefix@), names_of(seen_in@)).0,
            names_of(r.1@) == subtree_width(self@, name@, depth as nat, string_views(prefix@), names_of(seen_in@)).1,
            names_of(seen_in@).subset_of(names_of(r.1@)),
        decreases unseen(self.branch_nodes@, names_of(seen_in@)),
    {
        let ghost nodes = self.branch_nodes@;
        let ghost seen0 = names_of(seen_in@);
        let seen = seen_in;
        let deep = match self.max_depth {
            Some(m) => depth > m,
            None => false,
        };
        if deep || seen_has(&seen, name) {
            return (0, seen);
        }
        let ghost seen_before = seen@;
        let mut seen = seen;
        seen.push(name.to_owned());
        proof {
            lemma_names_push(seen_before, seen@.last());
            assert(seen@ =~= seen_before.push(seen@.last()));
        }
        let idx = self.find_branch(name);
        proof {
            lemma_branch_index(nodes, name@);
        }
        match idx {
            None => (0, seen),
            Some(i) => {
                proof {
                    lemma_unseen_insert(nodes, seen0, name@, i as int);
                }
                let node = &self.branch_nodes[i];
                let mut own = prefix_width_exec(prefix);
                if depth > 0 {
                    own = own.saturating_add(4);
                }
                let mut shown = chars_of(node.name.as_str()).len();
                if node.is_current {
                    shown = shown.saturating_add(10);
                }
                own = own.saturating_add(shown);
                let ghost own0 = own;
                let children = &node.children;
                let n = children.len();
                let ghost kids = string_views(children@);
                let ghost s_start = seen0.insert(name@);
                let ghost whole = children_width(self@, kids, 0, depth as nat, string_views(prefix@), s_start);
                let mut best = own;
                let mut k: usize = 0;
                while k < n
                    invariant
                        nodes == self.branch_nodes@,
                        nodes.len() <= u32::MAX,
                        i < nodes.len(),
                        *node == nodes[i as int],
                        *children == node.children,
                        n == children.len(),
                        kids == string_views(children@),
                        k <= n,
                        seen0 == names_of(seen_in@),
                        !seen0.contains(name@),
                        !too_deep(self.max_depth, depth as nat),
                        branch_index(nodes, name@) == Some(i as int),
                        s_start == seen0.insert(name@),
                        depth + unseen(nodes, seen0) <= u32::MAX,
                        unseen(nodes, s_start) < unseen(nodes, seen0),
                        s_start.subset_of(names_of(seen@)),
                        whole == children_width(self@, kids, 0, depth as nat, string_views(prefix@), s_start),
                        max_of(
                            best,
                            children_width(self@, kids, k as nat, depth as nat, string_views(prefix@), names_of(seen@)).0,
                        ) == max_of(own0, whole.0),
                        children_width(self@, kids, k as nat, depth as nat, string_views(prefix@), names_of(seen@)).1
                            == whole.1,
                    decreases n - k,
                {
                    proof {
                        lemma_unseen_mono(nodes, s_start, names_of(seen@));
                    }
                    let ghost s_k = names_of(seen@);
                    assert(kids[k as int] == children@[k as int]@);
                    assert(kids.len() == n);
                    let child_pre = child_prefix_exec(prefix, depth, k == n - 1);
                    let (w, s1) = self.calculate_branch_width(children[k].as_str(), depth + 1, &child_pre, seen);
                    if w > best {
                        best = w;
                    }
                    seen = s1;
                    proof {
                        assert(s_k.union(names_of(seen@)) =~= names_of(seen@));
                    }
                    k = k + 1;
                }
                (best, seen)
            },
        }
    }

    /// The column at which metadata starts: the widest line below the roots,
    /// plus two.
    pub fn calculate_max_tree_width(&self, roots: &Vec<String>) -> (w: usize)
        requires
            self.branch_nodes@.len() <= u32::MAX,
        ensures
            w == max_tree_width(self@, string_views(roots@)),
    {
        let ghost rs = string_views(roots@);
        let mut seen: Vec<String> = Vec::new();
        let empty: Vec<String> = Vec::new();
        assert(string_views(empty@) =~= seq![]);
        assert(names_of(seen@) =~= Set::<Seq<char>>::empty());
        let mut best: usize = 0;
        let mut i: usize = 0;
        while i < roots.len()
            invariant
                i <= roots.len(),
                self.branch_nodes@.len() <= u32::MAX,
                rs == string_views(roots@),
                string_views(empty@) == Seq::<Seq<char>>::empty(),
                max_of(best, roots_width(self@, rs, i as nat, names_of(seen@))) == roots_width(self@, rs, 0, Set::empty()),
            decreases roots.len() - i,
        {
            proof {
                lemma_unseen_bounded(self.branch_nodes@, names_of(seen@));
            }
            assert(rs[i as int] == roots@[i as int]@);
            let (w, s1) = self.calculate_branch_width(roots[i].as_str(), 0, &empty, seen);
            if w > best {
                best = w;
            }
            seen = s1;
            i = i + 1;
        }
        best.saturating_add(2)
    }
}

/// How many nodes list `name` among their children.
pub open spec fn reference_count(nodes: Seq<BranchNode>, name: Seq<char>) -> nat
    decreases nodes.len(),
{
    if nodes.len() == 0 {
        0
    } else {
        reference_count(nodes.drop_last(), name) + if string_views(nodes.last().children@).contains(name) {
            1nat
        } else {
            0nat
        }
    }
}

/// The cross references after recording `name` with `parents`: an existing
/// entry for the name is replaced, otherwise one is added.
pub open spec fn upsert_ref(refs: Seq<(String, Vec<String>)>, name: Seq<char>, parents: Seq<Seq<char>>) -> Seq<
    (Seq<char>, Seq<Seq<char>>),
> {
    let v = refs.map_values(|e: (String, Vec<String>)| (e.0@, string_views(e.1@)));
    match ref_position(v, name) {
        Some(i) => v.update(i, (name, parents)),
        None => v.push((name, parents)),
    }
}

/// Where `name` stands among the entries.
pub open spec fn ref_position(v: Seq<(Seq<char>, Seq<Seq<char>>)>, name: Seq<char>) -> Option<int>
    decreases v.len(),
{
    if v.len() == 0 {
        None
    } else {
        match ref_position(v.drop_last(), name) {
            Some(i) => Some(i),
            None => if v.last().0 == name {
                Some(v.len() - 1)
            } else {
                None
            },
        }
    }
}

/// The cross references made from the nodes: every node with more than one
/// parent, under its name, with its parents.
pub open spec fn built_refs(nodes: Seq<BranchNode>) -> Seq<(Seq<char>, Seq<Seq<char>>)>
    decreases nodes.len(),
{
    if nodes.len() == 0 {
        seq![]
    } else {
        let before = built_refs(nodes.drop_last());
        let node = nodes.last();
        if node.parents@.len() > 1 {
            match ref_position(before, node.name@) {
                Some(i) => before.update(i, (node.name@, string_views(node.parents@))),
                None => before.push((node.name@, string_views(node.parents@))),
            }
        } else {
            before
        }
    }
}

pub open spec fn refs_view(refs: Seq<(String, Vec<String>)>) -> Seq<(Seq<char>, Seq<Seq<char>>)> {
    refs.map_values(|e: (String, Vec<String>)| (e.0@, string_views(e.1@)))
}

pub(crate) fn copy_strings(v: &Vec<String>) -> (r: Vec<String>)
    ensures
        string_views(r@) == string_views(v@),
{
    let mut r: Vec<String> = Vec::new();
    let mut i: usize = 0;
    while i < v.len()
        invariant
            i <= v.len(),
            string_views(r@) == string_views(v@).take(i as int),
        decreases v.len() - i,
    {
        let ghost before = r@;
        r.push(v[i].clone());
        assert(string_views(r@) =~= string_views(before).push(v@[i as int]@));
        i = i + 1;
        assert(string_views(r@) =~= string_views(v@).take(i as int));
    }
    assert(string_views(v@).take(v.len() as int) =~= string_views(v@));
    r
}

impl TreeRenderer {
    /// How many branches list `branch_name` among their children.
    pub fn count_branch_references(&self, branch_name: &str) -> (n: usize)
        ensures
            n == reference_count(self.branch_nodes@, branch_name@),
    {
        let mut count: usize = 0;
        let mut i: usize = 0;
        let target = branch_name.to_owned();
        while i < self.branch_nodes.len()
            invariant
                i <= self.branch_nodes.len(),
                target@ == branch_name@,
                count == reference_count(self.branch_nodes@.take(i as int), branch_name@),
                count <= i,
            decreases self.branch_nodes.len() - i,
        {
            assert(self.branch_nodes@.take(i + 1).drop_last() =~= self.branch_nodes@.take(i as int));
            if contains_string(&self.branch_nodes[i].children, &target) {
                count = count + 1;
            }
            i = i + 1;
        }
        assert(self.branch_nodes@.take(self.branch_nodes.len() as int) =~= self.branch_nodes@);
        count
    }

    /// Records, for every branch with more than one parent, those parents.
    pub fn build_cross_references(&mut self)
        requires
            old(self).cross_refs@.len() == 0,
        ensures
            refs_view(final(self).cross_refs@) == built_refs(old(self).branch_nodes@),
            final(self).branch_nodes == old(self).branch_nodes,
            final(self).visited == old(self).visited,
            final(self).max_depth == old(self).max_depth,
            final(self).no_color == old(self).no_color,
            final(self).tree_width == old(self).tree_width,
    {
        let mut refs: Vec<(String, Vec<String>)> = Vec::new();
        let mut i: usize = 0;
        assert(refs_view(refs@) =~= built_refs(self.branch_nodes@.take(0)));
        while i < self.branch_nodes.len()
            invariant
                i <= self.branch_nodes.len(),
                refs_view(refs@) == built_refs(self.branch_nodes@.take(i as int)),
            decreases self.branch_nodes.len() - i,
        {
            let ghost nodes = self.branch_nodes@;
            assert(nodes.take(i + 1).drop_last() =~= nodes.take(i as int));
            assert(nodes.take(i + 1).last() == nodes[i as int]);
            let node = &self.branch_nodes[i];
            if node.parents.len() > 1 {
                let ghost before = refs_view(refs@);
                let entry = (node.name.clone(), copy_strings(&node.parents));
                match ref_position_exec(&refs, node.name.as_str()) {
                    Some(j) => {
                        assert(ref_position(before, node.name@) == Some(j as int));
                        refs.set(j, entry);
                        assert(refs_view(refs@) =~= before.update(j as int, (node.name@, string_views(node.parents@))));
                    },
                    None => {
                        assert(ref_position(before, node.name@) is None);
                        refs.push(entry);
                        assert(refs_view(refs@) =~= before.push((node.name@, string_views(node.parents@))));
                    },
                }
                assert(before == built_refs(nodes.take(i + 1).drop_last()));
                assert(nodes.take(i + 1).last() == *node);
                assert(built_refs(nodes.take(i + 1)) == match ref_position(before, node.name@) {
                    Some(k) => before.update(k, (node.name@, string_views(node.parents@))),
                    None => before.push((node.name@, string_views(node.parents@))),
                });
                assert(refs_view(refs@) == built_refs(nodes.take(i + 1)));
            } else {
                assert(refs_view(refs@) == built_refs(nodes.take(i + 1)));
            }
            i = i + 1;
        }
        assert(self.branch_nodes@.take(self.branch_nodes.len() as int) =~= self.branch_nodes@);
        self.cross_refs = refs;
    }

    /// A renderer for the given branches: nothing drawn yet, the metadata
    /// column placed after the widest line below the roots, and the cross
    /// references recorded.
    pub fn new(branch_nodes: Vec<BranchNode>, roots: &Vec<String>, max_depth: Option<u32>, no_color: bool) -> (r:
        Self)
        requires
            branch_nodes@.len() <= u32::MAX,
        ensures
            r.branch_nodes@ == branch_nodes@,
            r.visited@.len() == 0,
            r.max_depth == max_depth,
            r.no_color == no_color,
            r.tree_width == max_tree_width(
                TreeView { nodes: branch_nodes@, refs: seq![], max_depth, no_color, tree_width: 0 },
                string_views(roots@),
            ),
            refs_view(r.cross_refs@) == built_refs(branch_nodes@),
    {
        let mut renderer = TreeRenderer {
            branch_nodes,
            visited: Vec::new(),
            cross_refs: Vec::new(),
            max_depth,
            no_color,
            tree_width: 0,
        };
        assert(renderer@ == TreeView { nodes: renderer.branch_nodes@, refs: seq![], max_depth, no_color, tree_width: 0 });
        renderer.tree_width = renderer.calculate_max_tree_width(roots);
        renderer.build_cross_references();
        renderer
    }
}

pub(crate) fn ref_position_exec(refs: &Vec<(String, Vec<String>)>, name: &str) -> (r: Option<usize>)
    ensures
        r is None <==> ref_position(refs_view(refs@), name@) is None,
        r matches Some(k) ==> k < refs@.len() && ref_position(refs_view(refs@), name@) == Some(k as int),
{
    let ghost v = refs_view(refs@);
    let mut j: usize = 0;
    while j < refs.len()
        invariant
            j <= refs.len(),
            v == refs_view(refs@),
            ref_position(v.take(j as int), name@) is None,
        decreases refs.len() - j,
    {
        assert(v.take(j + 1).drop_last() =~= v.take(j as int));
        if str_eq(refs[j].0.as_str(), name) {
            proof {
                lemma_ref_position_prefix(v, name@, j as int);
            }
            return Some(j);
        }
        j = j + 1;
    }
    assert(v.take(refs.len() as int) =~= v);
    None
}

proof fn lemma_ref_position_prefix(v: Seq<(Seq<char>, Seq<Seq<char>>)>, name: Seq<char>, j: int)
    requires
        0 <= j < v.len(),
        ref_position(v.take(j), name) is None,
        v[j].0 == name,
    ensures
        ref_position(v, name) == Some(j),
    decreases v.len(),
{
    if j == v.len() - 1 {
        assert(v.drop_last() =~= v.take(j));
    } else {
        assert(v.drop_last().take(j) =~= v.take(j));
        lemma_ref_position_prefix(v.drop_last(), name, j);
    }
}

} // verus!

//! Branch table layout: columns, schema, style, and the renderer that lays a
//! branch graph out as a tree-aligned table.
use owo_colors::{OwoColorize, Style};
use vstd::prelude::*;

use crate::branch_graph::{BranchAnnotationValue, BranchGraph, BranchNode};
use crate::graph::{BranchDivergence, BranchName};
use crate::lex::{lex_le, string_le, views};
use crate::output::sgr;
use crate::strs::{decimal, decimal_string, push_char, push_str, str_eq};

verus! {

/// The annotation key under which pull-request numbers are recorded.
pub open spec fn pr_annotation_key() -> Seq<char> {
    seq!['t', 'w', 'i', 'g', '.', 'p', 'r']
}

/// Describes the kind of value rendered within a table column.
#[derive(Debug, Clone, PartialEq, Eq)]
pub enum BranchTableColumnKind {
    /// Displays the branch tree connectors plus branch name (and current marker).
    Branch,
    /// Renders the first label associated with the branch.
    FirstLabel,
    /// Renders a single annotation entry keyed by the provided string.
    Annotation {
        /// Annotation key (e.g. `jira.story`, `github.pr`).
        key: String,
    },
}

/// Definition of a single column within the branch table.
#[derive(Debug, Clone)]
pub struct BranchTableColumn {
    title: String,
    kind: BranchTableColumnKind,
    min_width: usize,
}

impl BranchTableColumn {
    pub closed spec fn title_spec(&self) -> Seq<char> {
        self.title@
    }

    pub closed spec fn kind_spec(&self) -> BranchTableColumnKind {
        self.kind
    }

    pub closed spec fn min_width_spec(&self) -> usize {
        self.min_width
    }

    /// Create a new column descriptor.
    pub fn new(title: &str, kind: BranchTableColumnKind) -> (c: Self)
        ensures
            c.title_spec() == title@,
            c.kind_spec() == kind,
            c.min_width_spec() == 0,
    {
        BranchTableColumn { title: title.to_owned(), kind, min_width: 0 }
    }

    /// Convenience helper for the default branch column.
    pub fn branch() -> (c: Self)
        ensures
            c.title_spec() == seq!['B', 'r', 'a', 'n', 'c', 'h'],
            c.kind_spec() == BranchTableColumnKind::Branch,
            c.min_width_spec() == 0,
    {
        let title = "Branch";
        proof {
            reveal_strlit("Branch");
        }
        Self::new(title, BranchTableColumnKind::Branch)
    }

    /// Convenience helper for the default "Story" column.
    pub fn story() -> (c: Self)
        ensures
            c.title_spec() == seq!['S', 't', 'o', 'r', 'y'],
            c.kind_spec() == BranchTableColumnKind::FirstLabel,
            c.min_width_spec() == 0,
    {
        let title = "Story";
        proof {
            reveal_strlit("Story");
        }
        Self::new(title, BranchTableColumnKind::FirstLabel)
    }

    /// Convenience helper for the default "PR" column.
    pub fn pull_request() -> (c: Self)
        ensures
            c.title_spec() == seq!['P', 'R'],
            c.kind_spec() matches BranchTableColumnKind::Annotation { key }
                && key@ == pr_annotation_key(),
            c.min_width_spec() == 0,
    {
        let title = "PR";
        let key = "twig.pr";
        proof {
            reveal_strlit("PR");
            reveal_strlit("twig.pr");
        }
        Self::new(title, BranchTableColumnKind::Annotation { key: key.to_owned() })
    }

    /// Convenience helper for a "Notes" column, showing the `twig.notes`
    /// annotation.
    pub fn notes() -> (c: Self)
        ensures
            c.title_spec() == seq!['N', 'o', 't', 'e', 's'],
            c.kind_spec() matches BranchTableColumnKind::Annotation { key }
                && key@ == seq!['t', 'w', 'i', 'g', '.', 'n', 'o', 't', 'e', 's'],
            c.min_width_spec() == 0,
    {
        let title = "Notes";
        let key = "twig.notes";
        proof {
            reveal_strlit("Notes");
            reveal_strlit("twig.notes");
        }
        Self::new(title, BranchTableColumnKind::Annotation { key: key.to_owned() })
    }

    /// Replace the column's header label.
    pub fn with_title(self, title: &str) -> (c: Self)
        ensures
            c.title_spec() == title@,
            c.kind_spec() == self.kind_spec(),
            c.min_width_spec() == self.min_width_spec(),
    {
        let mut c = self;
        c.title = title.to_owned();
        c
    }

    /// Minimum width (in columns) reserved for the current field.
    pub fn with_min_width(self, width: usize) -> (c: Self)
        ensures
            c.title_spec() == self.title_spec(),
            c.kind_spec() == self.kind_spec(),
            c.min_width_spec() == width,
    {
        let mut c = self;
        c.min_width = width;
        c
    }

    /// Column header label.
    pub fn title(&self) -> (t: &str)
        ensures
            t@ == self.title_spec(),
    {
        self.title.as_str()
    }

    /// Column kind describing how the renderer sources values.
    pub fn kind(&self) -> (k: &BranchTableColumnKind)
        ensures
            *k == self.kind_spec(),
    {
        &self.kind
    }

    /// Minimum width (characters) reserved for this column.
    pub fn min_width(&self) -> (w: usize)
        ensures
            w == self.min_width_spec(),
    {
        self.min_width
    }
}

/// Schema describing how the renderer lays out the table.
#[derive(Debug, Clone)]
pub struct BranchTableSchema {
    columns: Vec<BranchTableColumn>,
    placeholder: String,
    column_spacing: usize,
    show_header: bool,
}

impl BranchTableSchema {
    pub closed spec fn columns_spec(&self) -> Seq<BranchTableColumn> {
        self.columns@
    }

    pub closed spec fn placeholder_spec(&self) -> Seq<char> {
        self.placeholder@
    }

    pub closed spec fn spacing_spec(&self) -> usize {
        self.column_spacing
    }

    pub closed spec fn header_spec(&self) -> bool {
        self.show_header
    }

    /// Create a new schema from column descriptors: placeholder `--`, two
    /// spaces between columns, header shown.
    pub fn new(columns: Vec<BranchTableColumn>) -> (s: Self)
        ensures
            s.columns_spec() == columns@,
            s.placeholder_spec() == seq!['-', '-'],
            s.spacing_spec() == 2,
            s.header_spec(),
    {
        let placeholder = "--";
        proof {
            reveal_strlit("--");
        }
        BranchTableSchema {
            columns,
            placeholder: placeholder.to_owned(),
            column_spacing: 2,
            show_header: true,
        }
    }

    /// Replace the placeholder used for missing metadata.
    pub fn with_placeholder(self, placeholder: &str) -> (s: Self)
        ensures
            s.columns_spec() == self.columns_spec(),
            s.placeholder_spec() == placeholder@,
            s.spacing_spec() == self.spacing_spec(),
            s.header_spec() == self.header_spec(),
    {
        let mut s = self;
        s.placeholder = placeholder.to_owned();
        s
    }

    /// Control how many spaces separate each column.
    pub fn with_column_spacing(self, spacing: usize) -> (s: Self)
        ensures
            s.columns_spec() == self.columns_spec(),
            s.placeholder_spec() == self.placeholder_spec(),
            s.spacing_spec() == spacing,
            s.header_spec() == self.header_spec(),
    {
        let mut s = self;
        s.column_spacing = spacing;
        s
    }

    /// Toggle header rendering.
    pub fn with_header(self, show_header: bool) -> (s: Self)
        ensures
            s.columns_spec() == self.columns_spec(),
            s.placeholder_spec() == self.placeholder_spec(),
            s.spacing_spec() == self.spacing_spec(),
            s.header_spec() == show_header,
    {
        let mut s = self;
        s.show_header = show_header;
        s
    }

    /// Placeholder rendered when metadata is missing.
    pub fn placeholder(&self) -> (p: &str)
        ensures
            p@ == self.placeholder_spec(),
    {
        self.placeholder.as_str()
    }

    /// Number of spaces inserted between columns.
    pub fn column_spacing(&self) -> (n: usize)
        ensures
            n == self.spacing_spec(),
    {
        self.column_spacing
    }

    /// Whether the header row should be rendered.
    pub fn show_header(&self) -> (b: bool)
        ensures
            b == self.header_spec(),
    {
        self.show_header
    }

    /// Immutable view of the configured columns.
    pub fn columns(&self) -> (c: &[BranchTableColumn])
        ensures
            c@ == self.columns_spec(),
    {
        self.columns.as_slice()
    }

    /// Mutable access for callers that need to tweak column ordering/widths
    /// in-place.
    pub fn columns_mut(&mut self) -> (c: &mut [BranchTableColumn])
        ensures
            c@ == old(self).columns_spec(),
            final(self).columns_spec() == final(c)@,
            final(self).placeholder_spec() == old(self).placeholder_spec(),
            final(self).spacing_spec() == old(self).spacing_spec(),
            final(self).header_spec() == old(self).header_spec(),
    {
        self.columns.as_mut_slice()
    }
}

impl Default for BranchTableSchema {
    /// Branch (min width 8), Story (min width 8) and PR (min width 6).
    fn default() -> (s: Self)
        ensures
            s.columns_spec().len() == 3,
            s.columns_spec()[0].title_spec() == seq!['B', 'r', 'a', 'n', 'c', 'h'],
            s.columns_spec()[0].kind_spec() == BranchTableColumnKind::Branch,
            s.columns_spec()[0].min_width_spec() == 8,
            s.columns_spec()[1].title_spec() == seq!['S', 't', 'o', 'r', 'y'],
            s.columns_spec()[1].kind_spec() == BranchTableColumnKind::FirstLabel,
            s.columns_spec()[1].min_width_spec() == 8,
            s.columns_spec()[2].title_spec() == seq!['P', 'R'],
            s.columns_spec()[2].kind_spec() matches BranchTableColumnKind::Annotation { key }
                && key@ == pr_annotation_key(),
            s.columns_spec()[2].min_width_spec() == 6,
            s.placeholder_spec() == seq!['-', '-'],
            s.spacing_spec() == 2,
            s.header_spec(),
    {
        let mut columns: Vec<BranchTableColumn> = Vec::new();
        columns.push(BranchTableColumn::branch().with_min_width(8));
        columns.push(BranchTableColumn::story().with_min_width(8));
        columns.push(BranchTableColumn::pull_request().with_min_width(6));
        Self::new(columns)
    }
}

/// Color strategy for branch table rendering.
#[derive(Debug, Clone, Copy, PartialEq, Eq, Structural)]
pub enum BranchTableColorMode {
    /// Enable colors when the output stream supports them.
    Auto,
    /// Force colorized output regardless of terminal detection.
    Always,
    /// Disable colors entirely.
    Never,
}

/// Presentation settings applied to the branch table.
#[derive(Debug, Clone, Copy)]
pub struct BranchTableStyle {
    pub(crate) color_mode: BranchTableColorMode,
    pub(crate) dim_placeholders: bool,
    pub(crate) bold_headers: bool,
    pub(crate) dim_connectors: bool,
}

impl BranchTableStyle {
    pub closed spec fn color_mode_spec(&self) -> BranchTableColorMode {
        self.color_mode
    }

    pub closed spec fn dims_placeholders(&self) -> bool {
        self.dim_placeholders
    }

    pub closed spec fn bolds_headers(&self) -> bool {
        self.bold_headers
    }

    pub closed spec fn dims_connectors(&self) -> bool {
        self.dim_connectors
    }

    /// Create a new style configuration: placeholders and connectors dimmed,
    /// headers bold.
    pub fn new(color_mode: BranchTableColorMode) -> (s: Self)
        ensures
            s.color_mode_spec() == color_mode,
            s.dims_placeholders(),
            s.bolds_headers(),
            s.dims_connectors(),
    {
        BranchTableStyle {
            color_mode,
            dim_placeholders: true,
            bold_headers: true,
            dim_connectors: true,
        }
    }

    /// Choose how colors should be applied.
    pub fn with_color_mode(self, color_mode: BranchTableColorMode) -> (s: Self)
        ensures
            s.color_mode_spec() == color_mode,
            s.dims_placeholders() == self.dims_placeholders(),
            s.bolds_headers() == self.bolds_headers(),
            s.dims_connectors() == self.dims_connectors(),
    {
        let mut s = self;
        s.color_mode = color_mode;
        s
    }

    /// Toggle dimming for placeholder values.
    pub fn with_dim_placeholders(self, dim: bool) -> (s: Self)
        ensures
            s.color_mode_spec() == self.color_mode_spec(),
            s.dims_placeholders() == dim,
            s.bolds_headers() == self.bolds_headers(),
            s.dims_connectors() == self.dims_connectors(),
    {
        let mut s = self;
        s.dim_placeholders = dim;
        s
    }

    /// Toggle bold styling for header cells.
    pub fn with_bold_headers(self, bold: bool) -> (s: Self)
        ensures
            s.color_mode_spec() == self.color_mode_spec(),
            s.dims_placeholders() == self.dims_placeholders(),
            s.bolds_headers() == bold,
            s.dims_connectors() == self.dims_connectors(),
    {
        let mut s = self;
        s.bold_headers = bold;
        s
    }

    /// Toggle dimming for tree connectors.
    pub fn with_dim_connectors(self, dim: bool) -> (s: Self)
        ensures
            s.color_mode_spec() == self.color_mode_spec(),
            s.dims_placeholders() == self.dims_placeholders(),
            s.bolds_headers() == self.bolds_headers(),
            s.dims_connectors() == dim,
    {
        let mut s = self;
        s.dim_connectors = dim;
        s
    }
}

impl Default for BranchTableStyle {
    /// Colors chosen from the terminal, with the default presentation flags.
    fn default() -> (s: Self)
        ensures
            s.color_mode_spec() == BranchTableColorMode::Auto,
            s.dims_placeholders(),
            s.bolds_headers(),
            s.dims_connectors(),
    {
        Self::new(BranchTableColorMode::Auto)
    }
}

/// Error conditions raised while rendering.
#[derive(Debug)]
pub enum BranchTableRenderError {
    /// A schema without columns cannot be rendered.
    EmptySchema,
    /// The branch column must appear first for connector rendering to work.
    MissingBranchColumn,
    /// The requested branch does not exist in the provided graph.
    UnknownBranch(BranchName),
    /// The destination refused the rendered text.
    Fmt,
}

/// Stateful renderer that formats a branch graph as a tree-aligned table.
#[derive(Debug, Clone)]
pub struct BranchTableRenderer {
    schema: BranchTableSchema,
    style: BranchTableStyle,
}

impl BranchTableRenderer {
    pub closed spec fn schema_spec(&self) -> BranchTableSchema {
        self.schema
    }

    pub closed spec fn style_spec(&self) -> BranchTableStyle {
        self.style
    }

    /// Create a renderer backed by the provided schema, with the default
    /// style.
    pub fn new(schema: BranchTableSchema) -> (r: Self)
        ensures
            r.schema_spec() == schema,
            r.style_spec().color_mode_spec() == BranchTableColorMode::Auto,
            r.style_spec().dims_placeholders(),
            r.style_spec().bolds_headers(),
            r.style_spec().dims_connectors(),
    {
        BranchTableRenderer { schema, style: BranchTableStyle::default() }
    }

    /// Apply additional styling options before rendering.
    pub fn with_style(self, style: BranchTableStyle) -> (r: Self)
        ensures
            r.schema_spec() == self.schema_spec(),
            r.style_spec() == style,
    {
        let mut r = self;
        r.style = style;
        r
    }
}

impl Default for BranchTableRenderer {
    /// The default schema with the default style.
    fn default() -> (r: Self)
        ensures
            r.schema_spec().columns_spec().len() == 3,
            r.schema_spec().columns_spec()[0].kind_spec() == BranchTableColumnKind::Branch,
            r.style_spec().color_mode_spec() == BranchTableColorMode::Auto,
    {
        Self::new(BranchTableSchema::default())
    }
}


// ---------------------------------------------------------------------------
// The graph the table is drawn from
// ---------------------------------------------------------------------------

/// A branch as the table sees it: its name, its children in order, whether it
/// is checked out, its labels, its annotations (key and rendered value) and
/// its divergence from its parent.
#[derive(Debug, Clone)]
pub struct TableNode {
    pub name: BranchName,
    pub children: Vec<BranchName>,
    pub is_current: bool,
    pub labels: Vec<String>,
    pub annotations: Vec<(String, String)>,
    pub divergence: Option<BranchDivergence>,
}

/// The branches the table can show, and the branch checked out, if any.
#[derive(Debug, Clone)]
pub struct TableGraph {
    pub nodes: Vec<TableNode>,
    pub current: Option<BranchName>,
}

/// How an annotation value is shown: text as it is, numbers in decimal
/// (with a minus sign when negative), instants in RFC 3339, flags as
/// `true` or `false`.
pub open spec fn annotation_text(v: BranchAnnotationValue) -> Seq<char> {
    match v {
        BranchAnnotationValue::Text(t) => t@,
        BranchAnnotationValue::Numeric(n) => if n < 0 {
            seq!['-'] + decimal((-n) as nat)
        } else {
            decimal(n as nat)
        },
        BranchAnnotationValue::Timestamp(ts) => ts@,
        BranchAnnotationValue::Flag(f) => if f {
            "true"@
        } else {
            "false"@
        },
    }
}

/// The text of an annotation value (see `annotation_text`).
pub fn format_annotation_value(value: &BranchAnnotationValue) -> (r: String)
    ensures
        r@ == annotation_text(*value),
{
    match value {
        BranchAnnotationValue::Text(text) => text.clone(),
        BranchAnnotationValue::Numeric(n) => {
            if *n < 0 {
                let magnitude: u64 = (0i128 - (*n as i128)) as u64;
                let mut s = String::new();
                push_char(&mut s, '-');
                let d = decimal_string(magnitude);
                push_str(&mut s, d.as_str());
                assert(s@ =~= seq!['-'] + decimal((-*n) as nat));
                s
            } else {
                decimal_string(*n as u64)
            }
        },
        BranchAnnotationValue::Timestamp(ts) => ts.clone(),
        BranchAnnotationValue::Flag(f) => {
            if *f {
                "true".to_owned()
            } else {
                "false".to_owned()
            }
        },
    }
}

/// `t` is the table's view of the branch node `n`: the same name, children,
/// checked-out flag, labels and divergence, and each annotation with its
/// value's text.
pub open spec fn table_node_of(t: TableNode, n: BranchNode) -> bool {
    &&& t.name@ == n.name@
    &&& t.children@.map_values(|c: BranchName| c@) == n.topology.children@.map_values(|c: BranchName| c@)
    &&& t.is_current == n.metadata.is_current
    &&& views(t.labels@) == views(n.metadata.labels@)
    &&& t.annotations@.len() == n.metadata.annotations@.len()
    &&& forall|i: int|
        0 <= i < t.annotations@.len() ==> (#[trigger] t.annotations@[i]).0@ == n.metadata.annotations@[i].0@
            && t.annotations@[i].1@ == annotation_text(n.metadata.annotations@[i].1)
    &&& t.divergence == n.metadata.divergence
}

/// The table's view of a branch node.
pub fn table_node(node: &BranchNode) -> (t: TableNode)
    ensures
        table_node_of(t, *node),
{
    let mut children: Vec<BranchName> = Vec::new();
    let mut i: usize = 0;
    while i < node.topology.children.len()
        invariant
            i <= node.topology.children.len(),
            children@.map_values(|c: BranchName| c@) == node.topology.children@.map_values(|c: BranchName| c@).take(
                i as int,
            ),
        decreases node.topology.children.len() - i,
    {
        let ghost before = children@;
        children.push(node.topology.children[i].copy());
        assert(children@.map_values(|c: BranchName| c@) =~= before.map_values(|c: BranchName| c@).push(
            node.topology.children@[i as int]@,
        ));
        i = i + 1;
        assert(children@.map_values(|c: BranchName| c@) =~= node.topology.children@.map_values(
            |c: BranchName| c@,
        ).take(i as int));
    }
    assert(node.topology.children@.map_values(|c: BranchName| c@).take(node.topology.children.len() as int)
        =~= node.topology.children@.map_values(|c: BranchName| c@));
    let mut labels: Vec<String> = Vec::new();
    let mut j: usize = 0;
    while j < node.metadata.labels.len()
        invariant
            j <= node.metadata.labels.len(),
            views(labels@) == views(node.metadata.labels@).take(j as int),
        decreases node.metadata.labels.len() - j,
    {
        let ghost before = labels@;
        labels.push(node.metadata.labels[j].clone());
        assert(views(labels@) =~= views(before).push(node.metadata.labels@[j as int]@));
        j = j + 1;
        assert(views(labels@) =~= views(node.metadata.labels@).take(j as int));
    }
    assert(views(node.metadata.labels@).take(node.metadata.labels.len() as int) =~= views(node.metadata.labels@));
    let mut annotations: Vec<(String, String)> = Vec::new();
    let mut k: usize = 0;
    while k < node.metadata.annotations.len()
        invariant
            k <= node.metadata.annotations.len(),
            annotations@.len() == k,
            forall|m: int|
                0 <= m < k ==> (#[trigger] annotations@[m]).0@ == node.metadata.annotations@[m].0@
                    && annotations@[m].1@ == annotation_text(node.metadata.annotations@[m].1),
        decreases node.metadata.annotations.len() - k,
    {
        let text = format_annotation_value(&node.metadata.annotations[k].1);
        annotations.push((node.metadata.annotations[k].0.clone(), text));
        k = k + 1;
    }
    TableNode {
        name: node.name.copy(),
        children,
        is_current: node.metadata.is_current,
        labels,
        annotations,
        divergence: node.metadata.divergence,
    }
}

/// The table's view of a branch graph: its nodes in order and the branch
/// checked out.
pub fn table_graph(graph: &BranchGraph) -> (t: TableGraph)
    ensures
        t.nodes@.len() == graph.node_seq().len(),
        forall|i: int| 0 <= i < t.nodes@.len() ==> table_node_of(#[trigger] t.nodes@[i], graph.node_seq()[i]),
        match graph.current_spec() {
            Some(b) => t.current matches Some(c) && c@ == b@,
            None => t.current is None,
        },
{
    let nodes = graph.iter();
    let mut out: Vec<TableNode> = Vec::new();
    let mut i: usize = 0;
    while i < nodes.len()
        invariant
            i <= nodes.len(),
            nodes@ == graph.node_seq(),
            out@.len() == i,
            forall|k: int| 0 <= k < i ==> table_node_of(#[trigger] out@[k], nodes@[k]),
        decreases nodes.len() - i,
    {
        out.push(table_node(&nodes[i]));
        i = i + 1;
    }
    let current = match graph.current_branch() {
        Some(b) => Some(b.copy()),
        None => None,
    };
    TableGraph { nodes: out, current }
}

/// The index of the first node named `name`.
pub open spec fn node_index(nodes: Seq<TableNode>, name: Seq<char>) -> Option<int>
    decreases nodes.len(),
{
    if nodes.len() == 0 {
        None
    } else {
        match node_index(nodes.drop_last(), name) {
            Some(i) => Some(i),
            None => if nodes.last().name@ == name {
                Some(nodes.len() - 1)
            } else {
                None
            },
        }
    }
}

pub proof fn lemma_node_index(nodes: Seq<TableNode>, name: Seq<char>)
    ensures
        match node_index(nodes, name) {
            Some(i) => 0 <= i < nodes.len() && nodes[i].name@ == name
                && forall|j: int| 0 <= j < i ==> nodes[j].name@ != name,
            None => forall|j: int| 0 <= j < nodes.len() ==> nodes[j].name@ != name,
        },
    decreases nodes.len(),
{
    if nodes.len() > 0 {
        lemma_node_index(nodes.drop_last(), name);
        assert(forall|j: int| 0 <= j < nodes.len() - 1 ==> nodes.drop_last()[j] == nodes[j]);
    }
}

/// How many nodes have a name outside `seen`.
pub open spec fn unvisited(nodes: Seq<TableNode>, seen: Set<Seq<char>>) -> nat
    decreases nodes.len(),
{
    if nodes.len() == 0 {
        0
    } else {
        unvisited(nodes.drop_last(), seen) + if seen.contains(nodes.last().name@) {
            0nat
        } else {
            1nat
        }
    }
}

pub proof fn lemma_unvisited_mono(nodes: Seq<TableNode>, a: Set<Seq<char>>, b: Set<Seq<char>>)
    requires
        a.subset_of(b),
    ensures
        unvisited(nodes, b) <= unvisited(nodes, a),
    decreases nodes.len(),
{
    if nodes.len() > 0 {
        lemma_unvisited_mono(nodes.drop_last(), a, b);
    }
}

pub proof fn lemma_unvisited_insert(nodes: Seq<TableNode>, seen: Set<Seq<char>>, name: Seq<char>, i: int)
    requires
        0 <= i < nodes.len(),
        nodes[i].name@ == name,
        !seen.contains(name),
    ensures
        unvisited(nodes, seen.insert(name)) < unvisited(nodes, seen),
    decreases nodes.len(),
{
    lemma_unvisited_mono(nodes.drop_last(), seen, seen.insert(name));
    if i < nodes.len() - 1 {
        lemma_unvisited_insert(nodes.drop_last(), seen, name, i);
    }
}

pub open spec fn child_names(node: TableNode) -> Seq<Seq<char>> {
    node.children@.map_values(|c: BranchName| c@)
}

/// Rows gathered in depth-first order: each row is a branch name and the tree
/// connectors drawn before it; or the name of a branch that is missing.
pub enum Gathered {
    Rows(Seq<(Seq<char>, Seq<char>)>, Set<Seq<char>>),
    Unknown(Seq<char>),
}

/// The connectors drawn before a row, from whether each enclosing level has
/// later siblings.
pub open spec fn tree_prefix_spec(stack: Seq<bool>) -> Seq<char>
    decreases stack.len(),
{
    if stack.len() == 0 {
        seq![]
    } else if stack.len() == 1 {
        if stack[0] {
            seq!['├', '─', ' ']
        } else {
            seq!['└', '─', ' ']
        }
    } else {
        (if stack[0] {
            seq!['│', ' ', ' ']
        } else {
            seq![' ', ' ', ' ']
        }) + tree_prefix_spec(stack.drop_first())
    }
}

/// The rows for `branch` and, the first time it is met, everything below it.
pub open spec fn gather(nodes: Seq<TableNode>, branch: Seq<char>, stack: Seq<bool>, seen: Set<Seq<char>>) -> Gathered
    decreases unvisited(nodes, seen), 0nat, 0nat,
{
    match node_index(nodes, branch) {
        None => Gathered::Unknown(branch),
        Some(i) => {
            let row = (branch, tree_prefix_spec(stack));
            if seen.contains(branch) {
                Gathered::Rows(seq![row], seen)
            } else {
                proof {
                    lemma_node_index(nodes, branch);
                    lemma_unvisited_insert(nodes, seen, branch, i);
                }
                match gather_children(nodes, child_names(nodes[i]), 0, stack, seen.insert(branch)) {
                    Gathered::Rows(rows, s) => Gathered::Rows(seq![row] + rows, s),
                    Gathered::Unknown(e) => Gathered::Unknown(e),
                }
            }
        },
    }
}

/// The rows for the children `children[k..]`, one after another.
pub open spec fn gather_children(
    nodes: Seq<TableNode>,
    children: Seq<Seq<char>>,
    k: nat,
    stack: Seq<bool>,
    seen: Set<Seq<char>>,
) -> Gathered
    decreases unvisited(nodes, seen), 1nat, children.len() - k,
{
    if k >= children.len() {
        Gathered::Rows(seq![], seen)
    } else {
        match gather(nodes, children[k as int], stack.push(k < children.len() - 1), seen) {
            Gathered::Unknown(e) => Gathered::Unknown(e),
            Gathered::Rows(first, s1) => {
                proof {
                    lemma_unvisited_mono(nodes, seen, seen.union(s1));
                }
                match gather_children(nodes, children, k + 1, stack, seen.union(s1)) {
                    Gathered::Rows(rest, s2) => Gathered::Rows(first + rest, s2),
                    Gathered::Unknown(e) => Gathered::Unknown(e),
                }
            },
        }
    }
}

/// The names held by a list of strings.
pub open spec fn name_set(v: Seq<String>) -> Set<Seq<char>> {
    Set::new(|x: Seq<char>| exists|i: int| 0 <= i < v.len() && v[i]@ == x)
}

#[derive(Debug, Clone)]
struct TreeRow {
    branch: BranchName,
    tree_prefix: String,
}

spec fn row_views(rows: Seq<TreeRow>) -> Seq<(Seq<char>, Seq<char>)> {
    rows.map_values(|r: TreeRow| (r.branch@, r.tree_prefix@))
}

/// The connectors drawn before a row.
fn build_tree_prefix(stack: &[bool]) -> (r: String)
    ensures
        r@ == tree_prefix_spec(stack@),
{
    let mut prefix = String::new();
    if stack.len() == 0 {
        return prefix;
    }
    let n = stack.len();
    let mut i: usize = 0;
    assert(stack@.subrange(0, n as int) =~= stack@);
    while i < n - 1
        invariant
            n == stack.len(),
            n >= 1,
            i <= n - 1,
            prefix@ + tree_prefix_spec(stack@.subrange(i as int, n as int)) == tree_prefix_spec(stack@),
        decreases n - i,
    {
        proof {
            assert(stack@.subrange(i as int, n as int).drop_first() =~= stack@.subrange(i + 1, n as int));
        }
        if stack[i] {
            push_str(&mut prefix, "│  ");
            proof { reveal_strlit("│  "); }
        } else {
            push_str(&mut prefix, "   ");
            proof { reveal_strlit("   "); }
        }
        i = i + 1;
    }
    proof {
        assert(stack@.subrange(i as int, n as int) =~= seq![stack@[n - 1]]);
    }
    if stack[n - 1] {
        push_str(&mut prefix, "├─ ");
        proof { reveal_strlit("├─ "); }
    } else {
        push_str(&mut prefix, "└─ ");
        proof { reveal_strlit("└─ "); }
    }
    prefix
}

impl TableGraph {
    /// The index of the first node named `name`.
    pub fn find(&self, name: &BranchName) -> (r: Option<usize>)
        ensures
            match r {
                Some(i) => node_index(self.nodes@, name@) == Some(i as int),
                None => node_index(self.nodes@, name@) is None,
            },
    {
        proof {
            lemma_node_index(self.nodes@, name@);
        }
        let mut i: usize = 0;
        while i < self.nodes.len()
            invariant
                i <= self.nodes.len(),
                forall|j: int| 0 <= j < i ==> self.nodes@[j].name@ != name@,
            decreases self.nodes.len() - i,
        {
            if str_eq(self.nodes[i].name.as_str(), name.as_str()) {
                proof {
                    lemma_node_index(self.nodes@, name@);
                    match node_index(self.nodes@, name@) {
                        Some(k) => {
                            if k < i {
                                assert(self.nodes@[k].name@ != name@);
                            }
                            if k > i {
                                assert(self.nodes@[i as int].name@ != name@);
                            }
                        },
                        None => {
                            assert(self.nodes@[i as int].name@ != name@);
                        },
                    }
                }
                return Some(i);
            }
            i = i + 1;
        }
        proof {
            lemma_node_index(self.nodes@, name@);
        }
        None
    }
}

fn seen_contains(seen: &Vec<String>, name: &BranchName) -> (r: bool)
    ensures
        r == name_set(seen@).contains(name@),
{
    let mut i: usize = 0;
    while i < seen.len()
        invariant
            i <= seen.len(),
            forall|j: int| 0 <= j < i ==> seen@[j]@ != name@,
        decreases seen.len() - i,
    {
        if str_eq(seen[i].as_str(), name.as_str()) {
            return true;
        }
        i = i + 1;
    }
    false
}

proof fn lemma_name_set_push(v: Seq<String>, s: String)
    ensures
        name_set(v.push(s)) == name_set(v).insert(s@),
{
    assert forall|x: Seq<char>| name_set(v.push(s)).contains(x) <==> name_set(v).insert(s@).contains(x) by {
        if name_set(v.push(s)).contains(x) {
            let i = choose|i: int| 0 <= i < v.push(s).len() && v.push(s)[i]@ == x;
            if i < v.len() {
                assert(v[i]@ == x);
            }
        }
        if name_set(v).contains(x) {
            let i = choose|i: int| 0 <= i < v.len() && v[i]@ == x;
            assert(v.push(s)[i]@ == x);
        }
        if x == s@ {
            assert(v.push(s)[v.len() as int]@ == x);
        }
    }
    assert(name_set(v.push(s)) =~= name_set(v).insert(s@));
}

/// Appends the rows of `g` to `acc`, or passes a missing branch through.
pub open spec fn after(acc: Seq<(Seq<char>, Seq<char>)>, g: Gathered) -> Gathered {
    match g {
        Gathered::Rows(rows, s) => Gathered::Rows(acc + rows, s),
        Gathered::Unknown(e) => Gathered::Unknown(e),
    }
}

fn pushed(stack: &Vec<bool>, b: bool) -> (r: Vec<bool>)
    ensures
        r@ == stack@.push(b),
{
    let mut r: Vec<bool> = Vec::new();
    let mut i: usize = 0;
    while i < stack.len()
        invariant
            i <= stack.len(),
            r@ == stack@.take(i as int),
        decreases stack.len() - i,
    {
        r.push(stack[i]);
        i = i + 1;
        assert(r@ =~= stack@.take(i as int));
    }
    assert(stack@.take(stack.len() as int) =~= stack@);
    r.push(b);
    r
}

impl BranchTableRenderer {
    /// Rows for `branch` and what lies below it, depth first.
    fn collect_rows(
        &self,
        graph: &TableGraph,
        branch: &BranchName,
        stack: &Vec<bool>,
        seen_in: Vec<String>,
    ) -> (r: Result<(Vec<TreeRow>, Vec<String>), BranchName>)
        ensures
            match gather(graph.nodes@, branch@, stack@, name_set(seen_in@)) {
                Gathered::Unknown(e) => r is Err && r->Err_0@ == e,
                Gathered::Rows(rows, s) => r is Ok && row_views(r->Ok_0.0@) == rows
                    && name_set(r->Ok_0.1@) == s,
            },
            r is Ok ==> name_set(seen_in@).subset_of(name_set(r->Ok_0.1@)),
        decreases unvisited(graph.nodes@, name_set(seen_in@)),
    {
        let ghost nodes = graph.nodes@;
        let ghost seen0 = name_set(seen_in@);
        let seen = seen_in;
        let idx = graph.find(branch);
        proof {
            lemma_node_index(nodes, branch@);
        }
        match idx {
            None => Err(branch.copy()),
            Some(i) => {
                let prefix = build_tree_prefix(stack.as_slice());
                let row = TreeRow { branch: branch.copy(), tree_prefix: prefix };
                let ghost row0 = (branch@, tree_prefix_spec(stack@));
                let mut rows: Vec<TreeRow> = Vec::new();
                rows.push(row);
                assert(row_views(rows@) =~= seq![row0]);
                if seen_contains(&seen, branch) {
                    return Ok((rows, seen));
                }
                let ghost seen_before = seen@;
                let mut seen = seen;
                seen.push(branch.as_str().to_owned());
                proof {
                    lemma_name_set_push(seen_before, seen@.last());
                    assert(seen@ =~= seen_before.push(seen@.last()));
                    lemma_unvisited_insert(nodes, seen0, branch@, i as int);
                }
                let children = &graph.nodes[i].children;
                let n = children.len();
                let ghost kids = child_names(nodes[i as int]);
                let ghost s_start = seen0.insert(branch@);
                let ghost whole = gather_children(nodes, kids, 0, stack@, s_start);
                assert(after(seq![], whole) == whole) by {
                    match whole {
                        Gathered::Rows(r0, s0) => {
                            assert(seq![] + r0 =~= r0);
                        },
                        Gathered::Unknown(e) => {},
                    }
                }
                assert(row_views(rows@).drop_first() =~= seq![]);
                let mut k: usize = 0;
                while k < n
                    invariant
                        nodes == graph.nodes@,
                        n == children.len(),
                        children@ == nodes[i as int].children@,
                        kids == child_names(nodes[i as int]),
                        i < nodes.len(),
                        k <= n,
                        seen0 == name_set(seen_in@),
                        !seen0.contains(branch@),
                        node_index(nodes, branch@) == Some(i as int),
                        s_start == seen0.insert(branch@),
                        whole == gather_children(nodes, kids, 0, stack@, s_start),
                        s_start.subset_of(name_set(seen@)),
                        unvisited(nodes, s_start) < unvisited(nodes, seen0),
                        whole == after(
                            row_views(rows@).drop_first(),
                            gather_children(nodes, kids, k as nat, stack@, name_set(seen@)),
                        ),
                        rows@.len() >= 1,
                        row_views(rows@)[0] == row0,
                    decreases n - k,
                {
                    let child_stack = pushed(stack, k < n - 1);
                    proof {
                        lemma_unvisited_mono(nodes, s_start, name_set(seen@));
                    }
                    let ghost s_k = name_set(seen@);
                    let ghost acc = row_views(rows@).drop_first();
                    assert(kids[k as int] == children@[k as int]@);
                    assert(kids.len() == n);
                    assert(unvisited(nodes, s_k) < unvisited(nodes, seen0));
                    let res = self.collect_rows(graph, &children[k], &child_stack, seen);
                    match res {
                        Err(e) => {
                            assert(gather(nodes, kids[k as int], stack@.push(k < n - 1), s_k) == Gathered::Unknown(e@));
                            assert(gather_children(nodes, kids, k as nat, stack@, s_k) == Gathered::Unknown(e@));
                            assert(whole == Gathered::Unknown(e@));
                            assert(!seen0.contains(branch@));
                            assert(node_index(nodes, branch@) == Some(i as int));
                            assert(gather(nodes, branch@, stack@, seen0) == Gathered::Unknown(e@));
                            return Err(e);
                        },
                        Ok((more, s1)) => {
                            let ghost more_v = row_views(more@);
                            let mut more = more;
                            rows.append(&mut more);
                            seen = s1;
                            proof {
                                assert(s_k.union(name_set(seen@)) =~= name_set(seen@));
                                assert(row_views(rows@).drop_first() =~= acc + more_v);
                                match gather_children(nodes, kids, (k + 1) as nat, stack@, name_set(seen@)) {
                                    Gathered::Rows(r2, s2) => {
                                        assert(acc + (more_v + r2) =~= (acc + more_v) + r2);
                                    },
                                    Gathered::Unknown(e) => {},
                                }
                            }
                        },
                    }
                    k = k + 1;
                }
                proof {
                    assert(row_views(rows@) =~= seq![row0] + row_views(rows@).drop_first());
                }
                Ok((rows, seen))
            },
        }
    }
}


// ---------------------------------------------------------------------------
// Styles and widths
// ---------------------------------------------------------------------------

/// The styles the table paints with.
#[derive(Debug, Clone, Copy, PartialEq, Eq, Structural)]
pub enum TableStyle {
    Connector,
    BranchName,
    CurrentBranch,
    Ahead,
    Behind,
    Label,
    PullRequest,
    Annotation,
    Placeholder,
    Header,
}

/// The SGR parameters of each style.
pub open spec fn style_codes(k: TableStyle) -> Seq<char> {
    match k {
        TableStyle::Connector => seq!['9', '0'],
        TableStyle::BranchName => seq!['1'],
        TableStyle::CurrentBranch => seq!['9', '2', ';', '1'],
        TableStyle::Ahead => seq!['3', '2'],
        TableStyle::Behind => seq!['3', '1'],
        TableStyle::Label => seq!['3', '6'],
        TableStyle::PullRequest => seq!['3', '3'],
        TableStyle::Annotation => seq!['3', '5'],
        TableStyle::Placeholder => seq!['9', '0'],
        TableStyle::Header => seq!['9', '7', ';', '1'],
    }
}

/// Text written with an `owo_colors::Style`: the style's parameters, the
/// text, then the reset of all attributes.
pub open spec fn style_seq(codes: Seq<char>, s: Seq<char>) -> Seq<char> {
    sgr(codes) + s + sgr(seq!['0'])
}

pub open spec fn style_text(k: TableStyle, s: Seq<char>, colors: bool) -> Seq<char> {
    if colors {
        style_seq(style_codes(k), s)
    } else {
        s
    }
}

/// `OwoColorize::style` with `Style::new().bright_black()`.
#[verifier::external_body]
fn style_bright_black(s: &str) -> (r: String)
    ensures
        r@ == style_seq(seq!['9', '0'], s@),
{
    s.style(Style::new().bright_black()).to_string()
}

/// `OwoColorize::style` with `Style::new().bold()`.
#[verifier::external_body]
fn style_bold(s: &str) -> (r: String)
    ensures
        r@ == style_seq(seq!['1'], s@),
{
    s.style(Style::new().bold()).to_string()
}

/// `OwoColorize::style` with `Style::new().bright_green().bold()`.
#[verifier::external_body]
fn style_bright_green_bold(s: &str) -> (r: String)
    ensures
        r@ == style_seq(seq!['9', '2', ';', '1'], s@),
{
    s.style(Style::new().bright_green().bold()).to_string()
}

/// `OwoColorize::style` with `Style::new().green()`.
#[verifier::external_body]
fn style_green(s: &str) -> (r: String)
    ensures
        r@ == style_seq(seq!['3', '2'], s@),
{
    s.style(Style::new().green()).to_string()
}

/// `OwoColorize::style` with `Style::new().red()`.
#[verifier::external_body]
fn style_red(s: &str) -> (r: String)
    ensures
        r@ == style_seq(seq!['3', '1'], s@),
{
    s.style(Style::new().red()).to_string()
}

/// `OwoColorize::style` with `Style::new().cyan()`.
#[verifier::external_body]
fn style_cyan(s: &str) -> (r: String)
    ensures
        r@ == style_seq(seq!['3', '6'], s@),
{
    s.style(Style::new().cyan()).to_string()
}

/// `OwoColorize::style` with `Style::new().yellow()`.
#[verifier::external_body]
fn style_yellow(s: &str) -> (r: String)
    ensures
        r@ == style_seq(seq!['3', '3'], s@),
{
    s.style(Style::new().yellow()).to_string()
}

/// `OwoColorize::style` with `Style::new().magenta()`.
#[verifier::external_body]
fn style_magenta(s: &str) -> (r: String)
    ensures
        r@ == style_seq(seq!['3', '5'], s@),
{
    s.style(Style::new().magenta()).to_string()
}

/// `OwoColorize::style` with `Style::new().bright_white().bold()`.
#[verifier::external_body]
fn style_bright_white_bold(s: &str) -> (r: String)
    ensures
        r@ == style_seq(seq!['9', '7', ';', '1'], s@),
{
    s.style(Style::new().bright_white().bold()).to_string()
}

/// Paints `value` in style `k` when colors are on.
fn style_text_exec(value: &str, k: TableStyle, colors: bool) -> (r: String)
    ensures
        r@ == style_text(k, value@, colors),
{
    if !colors {
        return value.to_owned();
    }
    match k {
        TableStyle::Connector => style_bright_black(value),
        TableStyle::BranchName => style_bold(value),
        TableStyle::CurrentBranch => style_bright_green_bold(value),
        TableStyle::Ahead => style_green(value),
        TableStyle::Behind => style_red(value),
        TableStyle::Label => style_cyan(value),
        TableStyle::PullRequest => style_yellow(value),
        TableStyle::Annotation => style_magenta(value),
        TableStyle::Placeholder => style_bright_black(value),
        TableStyle::Header => style_bright_white_bold(value),
    }
}

/// `console::colors_enabled`: whether stdout is to be colored. It depends on
/// the terminal and the environment, so nothing is stated of it.
#[verifier::external_body]
fn terminal_colors_enabled() -> (b: bool) {
    console::colors_enabled()
}

/// What `console::strip_ansi_codes` returns for a string.
pub uninterp spec fn ansi_stripped(s: Seq<char>) -> Seq<char>;

/// `console::strip_ansi_codes`: the text without its ANSI escape sequences.
#[verifier::external_body]
pub(crate) fn strip_ansi(s: &str) -> (r: String)
    ensures
        r@ == ansi_stripped(s@),
{
    console::strip_ansi_codes(s).to_string()
}

/// What `console::measure_text_width` returns for a string: the columns it
/// takes on a terminal.
pub uninterp spec fn text_columns(s: Seq<char>) -> usize;

/// `console::measure_text_width`.
#[verifier::external_body]
fn measure_width(s: &str) -> (r: usize)
    ensures
        r == text_columns(s@),
{
    console::measure_text_width(s)
}

/// The columns a cell takes once its escape sequences are removed.
pub open spec fn visible(s: Seq<char>) -> usize {
    text_columns(ansi_stripped(s))
}

fn visible_width(s: &str) -> (w: usize)
    ensures
        w == visible(s@),
{
    let plain = strip_ansi(s);
    measure_width(plain.as_str())
}

pub open spec fn spaces(n: nat) -> Seq<char> {
    Seq::new(n, |i: int| ' ')
}

fn spaces_exec(n: usize) -> (r: String)
    ensures
        r@ == spaces(n as nat),
{
    let mut r = String::new();
    let mut i: usize = 0;
    while i < n
        invariant
            i <= n,
            r@ == spaces(i as nat),
        decreases n - i,
    {
        push_char(&mut r, ' ');
        i = i + 1;
        assert(r@ =~= spaces(i as nat));
    }
    r
}

/// A cell padded with spaces to `width` visible columns.
pub open spec fn pad_spec(s: Seq<char>, width: usize) -> Seq<char> {
    if visible(s) >= width {
        s
    } else {
        s + spaces((width - visible(s)) as nat)
    }
}

fn pad_cell(value: &str, width: usize) -> (r: String)
    ensures
        r@ == pad_spec(value@, width),
{
    let current = visible_width(value);
    if current >= width {
        value.to_owned()
    } else {
        let mut out = value.to_owned();
        let pad = spaces_exec(width - current);
        push_str(&mut out, pad.as_str());
        out
    }
}

// ---------------------------------------------------------------------------
// Cell values
// ---------------------------------------------------------------------------

/// `(+ahead/-behind)`, each count dimmed when zero and colored otherwise.
pub open spec fn divergence_spec(d: BranchDivergence, colors: bool) -> Seq<char> {
    let ahead = seq!['+'] + decimal(d.ahead as nat);
    let behind = seq!['-'] + decimal(d.behind as nat);
    let ahead_text = style_text(
        if d.ahead == 0 {
            TableStyle::Placeholder
        } else {
            TableStyle::Ahead
        },
        ahead,
        colors,
    );
    let behind_text = style_text(
        if d.behind == 0 {
            TableStyle::Placeholder
        } else {
            TableStyle::Behind
        },
        behind,
        colors,
    );
    seq!['('] + ahead_text + seq!['/'] + behind_text + seq![')']
}

fn format_divergence(d: &BranchDivergence, colors: bool) -> (r: String)
    ensures
        r@ == divergence_spec(*d, colors),
{
    let mut ahead = String::new();
    push_char(&mut ahead, '+');
    push_str(&mut ahead, decimal_string(d.ahead as u64).as_str());
    let mut behind = String::new();
    push_char(&mut behind, '-');
    push_str(&mut behind, decimal_string(d.behind as u64).as_str());
    let ahead_style = if d.ahead == 0 {
        TableStyle::Placeholder
    } else {
        TableStyle::Ahead
    };
    let behind_style = if d.behind == 0 {
        TableStyle::Placeholder
    } else {
        TableStyle::Behind
    };
    let a = style_text_exec(ahead.as_str(), ahead_style, colors);
    let b = style_text_exec(behind.as_str(), behind_style, colors);
    let mut out = String::new();
    push_char(&mut out, '(');
    push_str(&mut out, a.as_str());
    push_char(&mut out, '/');
    push_str(&mut out, b.as_str());
    push_char(&mut out, ')');
    assert(out@ =~= divergence_spec(*d, colors));
    out
}

/// The least label in string order (the first a sorted set yields).
pub open spec fn least_label(labels: Seq<Seq<char>>) -> Option<Seq<char>>
    decreases labels.len(),
{
    if labels.len() == 0 {
        None
    } else {
        match least_label(labels.drop_last()) {
            None => Some(labels.last()),
            Some(m) => if lex_le(m, labels.last()) {
                Some(m)
            } else {
                Some(labels.last())
            },
        }
    }
}

fn first_label(labels: &Vec<String>) -> (r: Option<String>)
    ensures
        match least_label(views(labels@)) {
            Some(l) => r is Some && r->0@ == l,
            None => r is None,
        },
{
    if labels.len() == 0 {
        return None;
    }
    let mut best: usize = 0;
    let mut i: usize = 1;
    assert(views(labels@).take(1).drop_last() =~= seq![]);
    assert(least_label(views(labels@).take(1).drop_last()) is None);
    assert(views(labels@).take(1).last() == labels@[0]@);
    while i < labels.len()
        invariant
            1 <= i <= labels.len(),
            best < i,
            least_label(views(labels@).take(i as int)) == Some(labels@[best as int]@),
        decreases labels.len() - i,
    {
        assert(views(labels@).take(i + 1).drop_last() =~= views(labels@).take(i as int));
        if !string_le(labels[best].as_str(), labels[i].as_str()) {
            best = i;
        }
        i = i + 1;
    }
    assert(views(labels@).take(labels.len() as int) =~= views(labels@));
    Some(labels[best].clone())
}

/// The value of the first annotation recorded under `key`.
pub open spec fn annotation_lookup(anns: Seq<(String, String)>, key: Seq<char>) -> Option<Seq<char>>
    decreases anns.len(),
{
    if anns.len() == 0 {
        None
    } else {
        match annotation_lookup(anns.drop_last(), key) {
            Some(v) => Some(v),
            None => if anns.last().0@ == key {
                Some(anns.last().1@)
            } else {
                None
            },
        }
    }
}

fn annotation_value(anns: &Vec<(String, String)>, key: &str) -> (r: Option<String>)
    ensures
        match annotation_lookup(anns@, key@) {
            Some(v) => r is Some && r->0@ == v,
            None => r is None,
        },
{
    let mut i: usize = 0;
    while i < anns.len()
        invariant
            i <= anns.len(),
            annotation_lookup(anns@.take(i as int), key@) is None,
        decreases anns.len() - i,
    {
        assert(anns@.take(i + 1).drop_last() =~= anns@.take(i as int));
        if str_eq(anns[i].0.as_str(), key) {
            proof {
                lemma_annotation_lookup_prefix(anns@, key@, i as int);
            }
            return Some(anns[i].1.clone());
        }
        i = i + 1;
    }
    assert(anns@.take(anns.len() as int) =~= anns@);
    None
}

proof fn lemma_annotation_lookup_prefix(anns: Seq<(String, String)>, key: Seq<char>, i: int)
    requires
        0 <= i < anns.len(),
        annotation_lookup(anns.take(i), key) is None,
        anns[i].0@ == key,
    ensures
        annotation_lookup(anns, key) == Some(anns[i].1@),
    decreases anns.len(),
{
    if i == anns.len() - 1 {
        assert(anns.drop_last() =~= anns.take(i));
    } else {
        assert(anns.drop_last().take(i) =~= anns.take(i));
        lemma_annotation_lookup_prefix(anns.drop_last(), key, i);
    }
}

/// Whether the node is the branch checked out.
pub open spec fn node_is_current(graph: TableGraph, node: TableNode) -> bool {
    node.is_current || (graph.current matches Some(c) && c@ == node.name@)
}

/// The branch cell: connectors, the current-branch marker, the name and the
/// divergence.
pub open spec fn branch_cell(
    style: BranchTableStyle,
    graph: TableGraph,
    node: TableNode,
    prefix: Seq<char>,
    colors: bool,
) -> Seq<char> {
    let current = node_is_current(graph, node);
    let connectors = if prefix.len() == 0 {
        seq![]
    } else if style.dims_connectors() {
        style_text(TableStyle::Connector, prefix, colors)
    } else {
        prefix
    };
    let marker = if current {
        style_text(TableStyle::CurrentBranch, seq!['*'], colors) + seq![' ']
    } else {
        seq![]
    };
    let name = style_text(
        if current {
            TableStyle::CurrentBranch
        } else {
            TableStyle::BranchName
        },
        node.name@,
        colors,
    );
    let divergence = match node.divergence {
        Some(d) => seq![' '] + divergence_spec(d, colors),
        None => seq![],
    };
    connectors + marker + name + divergence
}

/// The placeholder for a missing value, dimmed when colors are on and
/// placeholders are dimmed.
pub open spec fn placeholder_cell(schema: BranchTableSchema, style: BranchTableStyle, colors: bool) -> Seq<char> {
    if colors && style.dims_placeholders() {
        style_seq(style_codes(TableStyle::Placeholder), schema.placeholder_spec())
    } else {
        schema.placeholder_spec()
    }
}

/// The value of one cell.
pub open spec fn cell_spec(
    schema: BranchTableSchema,
    style: BranchTableStyle,
    graph: TableGraph,
    node: TableNode,
    prefix: Seq<char>,
    kind: BranchTableColumnKind,
    colors: bool,
) -> Seq<char> {
    match kind {
        BranchTableColumnKind::Branch => branch_cell(style, graph, node, prefix, colors),
        BranchTableColumnKind::FirstLabel => match least_label(views(node.labels@)) {
            Some(l) => style_text(TableStyle::Label, l, colors),
            None => placeholder_cell(schema, style, colors),
        },
        BranchTableColumnKind::Annotation { key } => match annotation_lookup(node.annotations@, key@) {
            Some(v) => style_text(
                if key@ == pr_annotation_key() {
                    TableStyle::PullRequest
                } else {
                    TableStyle::Annotation
                },
                v,
                colors,
            ),
            None => placeholder_cell(schema, style, colors),
        },
    }
}

/// The cells of a row, one per column.
pub open spec fn row_cells(
    schema: BranchTableSchema,
    style: BranchTableStyle,
    graph: TableGraph,
    node: TableNode,
    prefix: Seq<char>,
    colors: bool,
) -> Seq<Seq<char>> {
    Seq::new(
        schema.columns_spec().len(),
        |c: int| cell_spec(schema, style, graph, node, prefix, schema.columns_spec()[c].kind_spec(), colors),
    )
}

/// The cells of every gathered row, or the first row whose branch is missing.
pub open spec fn rendered_rows(
    schema: BranchTableSchema,
    style: BranchTableStyle,
    graph: TableGraph,
    rows: Seq<(Seq<char>, Seq<char>)>,
    colors: bool,
) -> Result<Seq<Seq<Seq<char>>>, Seq<char>>
    decreases rows.len(),
{
    if rows.len() == 0 {
        Ok(seq![])
    } else {
        match rendered_rows(schema, style, graph, rows.drop_last(), colors) {
            Err(e) => Err(e),
            Ok(done) => match node_index(graph.nodes@, rows.last().0) {
                None => Err(rows.last().0),
                Some(i) => Ok(done.push(row_cells(schema, style, graph, graph.nodes@[i], rows.last().1, colors))),
            },
        }
    }
}

// ---------------------------------------------------------------------------
// Layout
// ---------------------------------------------------------------------------

pub open spec fn max_usize(a: usize, b: usize) -> usize {
    if a >= b {
        a
    } else {
        b
    }
}

/// The width of column `idx`: its minimum, its title and every cell below.
pub open spec fn column_width(columns: Seq<BranchTableColumn>, rows: Seq<Seq<Seq<char>>>, idx: int) -> usize
    decreases rows.len(),
{
    if rows.len() == 0 {
        max_usize(columns[idx].min_width_spec(), visible(columns[idx].title_spec()))
    } else {
        max_usize(column_width(columns, rows.drop_last(), idx), visible(rows.last()[idx]))
    }
}

/// The first `k` cells of a row, padded and separated by `spacing`.
pub open spec fn row_line(cells: Seq<Seq<char>>, widths: Seq<usize>, spacing: Seq<char>, k: nat) -> Seq<char>
    decreases k,
{
    if k == 0 {
        seq![]
    } else {
        row_line(cells, widths, spacing, (k - 1) as nat) + pad_spec(cells[k - 1], widths[k - 1]) + if k
            < cells.len() {
            spacing
        } else {
            seq![]
        }
    }
}

/// A whole row followed by a line break.
pub open spec fn row_text(cells: Seq<Seq<char>>, widths: Seq<usize>, spacing: Seq<char>) -> Seq<char> {
    row_line(cells, widths, spacing, cells.len()) + seq!['\n']
}

/// The body rows one after another.
pub open spec fn body_text(rows: Seq<Seq<Seq<char>>>, widths: Seq<usize>, spacing: Seq<char>) -> Seq<char>
    decreases rows.len(),
{
    if rows.len() == 0 {
        seq![]
    } else {
        body_text(rows.drop_last(), widths, spacing) + row_text(rows.last(), widths, spacing)
    }
}

/// Why a table could not be drawn.
pub enum TableFailure {
    Empty,
    MissingBranch,
    Unknown(Seq<char>),
}


/// The header cells: the column titles, bold when headers are bold.
pub open spec fn header_cells(schema: BranchTableSchema, style: BranchTableStyle, colors: bool) -> Seq<Seq<char>> {
    Seq::new(
        schema.columns_spec().len(),
        |c: int|
            if style.bolds_headers() {
                style_text(TableStyle::Header, schema.columns_spec()[c].title_spec(), colors)
            } else {
                schema.columns_spec()[c].title_spec()
            },
    )
}

/// The width of every column.
pub open spec fn widths_spec(columns: Seq<BranchTableColumn>, rows: Seq<Seq<Seq<char>>>) -> Seq<usize> {
    Seq::new(columns.len(), |idx: int| column_width(columns, rows, idx))
}

/// The table drawn for `branch`, or why it cannot be drawn.
pub open spec fn table_text(
    renderer: BranchTableRenderer,
    graph: TableGraph,
    branch: Seq<char>,
    colors: bool,
) -> Result<Seq<char>, TableFailure> {
    let schema = renderer.schema_spec();
    let style = renderer.style_spec();
    let columns = schema.columns_spec();
    if columns.len() == 0 {
        Err(TableFailure::Empty)
    } else if !(columns[0].kind_spec() is Branch) {
        Err(TableFailure::MissingBranch)
    } else {
        match gather(graph.nodes@, branch, seq![], Set::empty()) {
            Gathered::Unknown(e) => Err(TableFailure::Unknown(e)),
            Gathered::Rows(rows, _) => match rendered_rows(schema, style, graph, rows, colors) {
                Err(e) => Err(TableFailure::Unknown(e)),
                Ok(cells) => {
                    let widths = widths_spec(columns, cells);
                    let spacing = spaces(schema.spacing_spec() as nat);
                    let header = if schema.header_spec() {
                        row_text(header_cells(schema, style, colors), widths, spacing)
                    } else {
                        seq![]
                    };
                    Ok(header + body_text(cells, widths, spacing))
                },
            },
        }
    }
}

/// Whether a rendering outcome is the one `t` describes.
pub open spec fn outcome(r: Result<String, BranchTableRenderError>, t: Result<Seq<char>, TableFailure>) -> bool {
    match t {
        Ok(text) => r is Ok && r->Ok_0@ == text,
        Err(TableFailure::Empty) => r matches Err(BranchTableRenderError::EmptySchema),
        Err(TableFailure::MissingBranch) => r matches Err(BranchTableRenderError::MissingBranchColumn),
        Err(TableFailure::Unknown(e)) => r matches Err(BranchTableRenderError::UnknownBranch(b)) && b@ == e,
    }
}

pub open spec fn cells_views(rows: Seq<Vec<String>>) -> Seq<Seq<Seq<char>>> {
    rows.map_values(|c: Vec<String>| views(c@))
}

impl BranchTableRenderer {
    fn branch_value(&self, graph: &TableGraph, node: &TableNode, prefix: &str, colors: bool) -> (r: String)
        ensures
            r@ == branch_cell(self.style_spec(), *graph, *node, prefix@, colors),
    {
        let current = node.is_current || match &graph.current {
            Some(c) => str_eq(c.as_str(), node.name.as_str()),
            None => false,
        };
        assert(current == node_is_current(*graph, *node));
        let mut value = String::new();
        if !prefix.is_empty() {
            if self.style.dim_connectors {
                push_str(&mut value, style_text_exec(prefix, TableStyle::Connector, colors).as_str());
            } else {
                push_str(&mut value, prefix);
            }
        }
        let ghost connectors = value@;
        if current {
            let star = "*";
            proof {
                reveal_strlit("*");
            }
            push_str(&mut value, style_text_exec(star, TableStyle::CurrentBranch, colors).as_str());
            push_char(&mut value, ' ');
        }
        let ghost marked = value@;
        let name_style = if current {
            TableStyle::CurrentBranch
        } else {
            TableStyle::BranchName
        };
        push_str(&mut value, style_text_exec(node.name.as_str(), name_style, colors).as_str());
        let ghost named = value@;
        match &node.divergence {
            Some(d) => {
                push_char(&mut value, ' ');
                let dv = format_divergence(d, colors);
                push_str(&mut value, dv.as_str());
                assert(value@ =~= named + (seq![' '] + divergence_spec(*d, colors)));
            },
            None => {
                assert(value@ =~= named + seq![]);
            },
        }
        value
    }

    fn placeholder_value(&self, colors: bool) -> (r: String)
        ensures
            r@ == placeholder_cell(self.schema_spec(), self.style_spec(), colors),
    {
        if colors && self.style.dim_placeholders {
            style_text_exec(self.schema.placeholder.as_str(), TableStyle::Placeholder, true)
        } else {
            self.schema.placeholder.clone()
        }
    }

    fn cell_value(
        &self,
        graph: &TableGraph,
        node: &TableNode,
        prefix: &str,
        kind: &BranchTableColumnKind,
        colors: bool,
    ) -> (r: String)
        ensures
            r@ == cell_spec(self.schema_spec(), self.style_spec(), *graph, *node, prefix@, *kind, colors),
    {
        match kind {
            BranchTableColumnKind::Branch => self.branch_value(graph, node, prefix, colors),
            BranchTableColumnKind::FirstLabel => {
                let r = match first_label(&node.labels) {
                    Some(l) => style_text_exec(l.as_str(), TableStyle::Label, colors),
                    None => self.placeholder_value(colors),
                };
                assert(r@ == cell_spec(self.schema_spec(), self.style_spec(), *graph, *node, prefix@, *kind, colors));
                r
            },
            BranchTableColumnKind::Annotation { key } => {
                let r = match annotation_value(&node.annotations, key.as_str()) {
                    Some(v) => {
                        let pr_key = "twig.pr";
                        proof {
                            reveal_strlit("twig.pr");
                        }
                        assert(pr_key@ =~= pr_annotation_key());
                        let is_pr = str_eq(key.as_str(), pr_key);
                        let style = if is_pr {
                            TableStyle::PullRequest
                        } else {
                            TableStyle::Annotation
                        };
                        let out = style_text_exec(v.as_str(), style, colors);
                        assert(annotation_lookup(node.annotations@, key@) == Some(v@));
                        out
                    },
                    None => self.placeholder_value(colors),
                };
                assert(r@ == cell_spec(self.schema_spec(), self.style_spec(), *graph, *node, prefix@, *kind, colors));
                r
            },
        }
    }

    fn render_row(&self, graph: &TableGraph, row: &TreeRow, colors: bool) -> (r: Result<Vec<String>, BranchName>)
        ensures
            match node_index(graph.nodes@, row.branch@) {
                None => r is Err && r->Err_0@ == row.branch@,
                Some(i) => r is Ok && views(r->Ok_0@) == row_cells(
                    self.schema_spec(),
                    self.style_spec(),
                    *graph,
                    graph.nodes@[i],
                    row.tree_prefix@,
                    colors,
                ),
            },
    {
        let idx = graph.find(&row.branch);
        proof {
            lemma_node_index(graph.nodes@, row.branch@);
        }
        match idx {
            None => Err(row.branch.copy()),
            Some(i) => {
                let node = &graph.nodes[i];
                let columns = self.schema.columns.as_slice();
                let mut cells: Vec<String> = Vec::new();
                let mut c: usize = 0;
                while c < columns.len()
                    invariant
                        c <= columns.len(),
                        i < graph.nodes@.len(),
                        columns@ == self.schema_spec().columns_spec(),
                        *node == graph.nodes@[i as int],
                        views(cells@) == row_cells(
                            self.schema_spec(),
                            self.style_spec(),
                            *graph,
                            *node,
                            row.tree_prefix@,
                            colors,
                        ).take(c as int),
                    decreases columns.len() - c,
                {
                    let v = self.cell_value(graph, node, row.tree_prefix.as_str(), &columns[c].kind, colors);
                    let ghost before = cells@;
                    let ghost all = row_cells(self.schema_spec(), self.style_spec(), *graph, *node, row.tree_prefix@, colors);
                    assert(all[c as int] == v@);
                    cells.push(v);
                    assert(views(cells@) =~= views(before).push(v@));
                    assert(all.take(c + 1) =~= all.take(c as int).push(v@));
                    c = c + 1;
                    assert(views(cells@) =~= row_cells(
                        self.schema_spec(),
                        self.style_spec(),
                        *graph,
                        *node,
                        row.tree_prefix@,
                        colors,
                    ).take(c as int));
                }
                assert(row_cells(self.schema_spec(), self.style_spec(), *graph, *node, row.tree_prefix@, colors).take(
                    columns.len() as int,
                ) =~= row_cells(self.schema_spec(), self.style_spec(), *graph, *node, row.tree_prefix@, colors));
                Ok(cells)
            },
        }
    }

    fn render_rows(&self, graph: &TableGraph, rows: &Vec<TreeRow>, colors: bool) -> (r: Result<
        Vec<Vec<String>>,
        BranchName,
    >)
        ensures
            match rendered_rows(self.schema_spec(), self.style_spec(), *graph, row_views(rows@), colors) {
                Err(e) => r is Err && r->Err_0@ == e,
                Ok(cells) => r is Ok && cells_views(r->Ok_0@) == cells,
            },
    {
        let mut out: Vec<Vec<String>> = Vec::new();
        let mut j: usize = 0;
        assert(row_views(rows@).take(0) =~= seq![]);
        assert(cells_views(out@) =~= seq![]);
        while j < rows.len()
            invariant
                j <= rows.len(),
                rendered_rows(self.schema_spec(), self.style_spec(), *graph, row_views(rows@).take(j as int), colors)
                    == Ok::<Seq<Seq<Seq<char>>>, Seq<char>>(cells_views(out@)),
            decreases rows.len() - j,
        {
            assert(row_views(rows@).take(j + 1).drop_last() =~= row_views(rows@).take(j as int));
            assert(row_views(rows@).take(j + 1).last() == (rows@[j as int].branch@, rows@[j as int].tree_prefix@));
            match self.render_row(graph, &rows[j], colors) {
                Err(e) => {
                    proof {
                        lemma_rendered_rows_stop(
                            self.schema_spec(),
                            self.style_spec(),
                            *graph,
                            row_views(rows@),
                            colors,
                            j as int,
                        );
                    }
                    return Err(e);
                },
                Ok(cells) => {
                    let ghost before = out@;
                    let ghost cv = views(cells@);
                    out.push(cells);
                    assert(cells_views(out@) =~= cells_views(before).push(cv));
                    j = j + 1;
                },
            }
        }
        assert(row_views(rows@).take(rows.len() as int) =~= row_views(rows@));
        Ok(out)
    }
}

proof fn lemma_rendered_rows_stop(
    schema: BranchTableSchema,
    style: BranchTableStyle,
    graph: TableGraph,
    rows: Seq<(Seq<char>, Seq<char>)>,
    colors: bool,
    j: int,
)
    requires
        0 <= j < rows.len(),
        rendered_rows(schema, style, graph, rows.take(j + 1), colors) is Err,
    ensures
        rendered_rows(schema, style, graph, rows, colors) == rendered_rows(
            schema,
            style,
            graph,
            rows.take(j + 1),
            colors,
        ),
    decreases rows.len(),
{
    if j + 1 == rows.len() {
        assert(rows.take(j + 1) =~= rows);
    } else {
        assert(rows.drop_last().take(j + 1) =~= rows.take(j + 1));
        lemma_rendered_rows_stop(schema, style, graph, rows.drop_last(), colors, j);
    }
}


proof fn lemma_rendered_rows_width(
    schema: BranchTableSchema,
    style: BranchTableStyle,
    graph: TableGraph,
    rows: Seq<(Seq<char>, Seq<char>)>,
    colors: bool,
)
    ensures
        rendered_rows(schema, style, graph, rows, colors) matches Ok(cells) ==> forall|j: int|
            0 <= j < cells.len() ==> #[trigger] cells[j].len() == schema.columns_spec().len(),
    decreases rows.len(),
{
    if rows.len() > 0 {
        lemma_rendered_rows_width(schema, style, graph, rows.drop_last(), colors);
    }
}

impl BranchTableRenderer {
    fn compute_column_widths(&self, rows: &Vec<Vec<String>>) -> (w: Vec<usize>)
        requires
            forall|j: int| 0 <= j < rows@.len() ==> #[trigger] rows@[j]@.len() == self.schema_spec().columns_spec().len(),
        ensures
            w@ == widths_spec(self.schema_spec().columns_spec(), cells_views(rows@)),
    {
        let columns = self.schema.columns.as_slice();
        let ghost cols = self.schema_spec().columns_spec();
        let ghost cv = cells_views(rows@);
        let mut widths: Vec<usize> = Vec::new();
        let mut idx: usize = 0;
        assert(cv.take(0) =~= seq![]);
        while idx < columns.len()
            invariant
                idx <= columns.len(),
                columns@ == cols,
                cv == cells_views(rows@),
                widths@.len() == idx,
                forall|k: int| 0 <= k < idx ==> widths@[k] == column_width(cols, cv.take(0), k),
            decreases columns.len() - idx,
        {
            let t = visible_width(columns[idx].title.as_str());
            let m = columns[idx].min_width;
            let w = if m >= t {
                m
            } else {
                t
            };
            widths.push(w);
            idx = idx + 1;
        }
        let mut j: usize = 0;
        while j < rows.len()
            invariant
                j <= rows.len(),
                columns@ == cols,
                cv == cells_views(rows@),
                widths@.len() == cols.len(),
                forall|jj: int| 0 <= jj < rows@.len() ==> #[trigger] rows@[jj]@.len() == cols.len(),
                forall|k: int| 0 <= k < cols.len() ==> widths@[k] == column_width(cols, cv.take(j as int), k),
            decreases rows.len() - j,
        {
            let row = &rows[j];
            assert(cv.take(j + 1).drop_last() =~= cv.take(j as int));
            assert(cv.take(j + 1).last() == views(rows@[j as int]@));
            let mut idx: usize = 0;
            while idx < row.len()
                invariant
                    idx <= row.len(),
                    j < rows.len(),
                    cv.len() == rows.len(),
                    row.len() == cols.len(),
                    *row == rows@[j as int],
                    widths@.len() == cols.len(),
                    cv.take(j + 1).drop_last() == cv.take(j as int),
                    cv.take(j + 1).last() == views(row@),
                    forall|k: int| 0 <= k < idx ==> widths@[k] == column_width(cols, cv.take(j + 1), k),
                    forall|k: int| idx <= k < cols.len() ==> widths@[k] == column_width(cols, cv.take(j as int), k),
                decreases row.len() - idx,
            {
                let w = visible_width(row[idx].as_str());
                assert(views(row@)[idx as int] == row@[idx as int]@);
                if w > widths[idx] {
                    widths.set(idx, w);
                }
                idx = idx + 1;
            }
            j = j + 1;
        }
        assert(cv.take(rows.len() as int) =~= cv);
        assert(widths@ =~= widths_spec(cols, cv));
        widths
    }

    fn write_row(out: &mut String, cells: &Vec<String>, widths: &Vec<usize>, spacing: &str)
        requires
            cells.len() <= widths.len(),
        ensures
            final(out)@ == old(out)@ + row_text(views(cells@), widths@, spacing@),
    {
        let ghost start = out@;
        let ghost cs = views(cells@);
        let mut idx: usize = 0;
        assert(start + row_line(cs, widths@, spacing@, 0) =~= start);
        while idx < cells.len()
            invariant
                idx <= cells.len(),
                cells.len() <= widths.len(),
                cs == views(cells@),
                out@ == start + row_line(cs, widths@, spacing@, idx as nat),
            decreases cells.len() - idx,
        {
            let padded = pad_cell(cells[idx].as_str(), widths[idx]);
            push_str(out, padded.as_str());
            if idx < cells.len() - 1 {
                push_str(out, spacing);
            }
            idx = idx + 1;
            assert(out@ =~= start + row_line(cs, widths@, spacing@, idx as nat));
        }
        push_char(out, '\n');
        assert(out@ =~= start + row_text(cs, widths@, spacing@));
    }

    /// Draws the table for `branch` with colors on or off as given: the
    /// header row (when shown) and one row per branch met depth first from
    /// `branch`, every cell padded to its column's width.
    pub fn render_with_colors(&self, graph: &TableGraph, branch: &BranchName, colors: bool) -> (r: Result<
        String,
        BranchTableRenderError,
    >)
        ensures
            outcome(r, table_text(*self, *graph, branch@, colors)),
    {
        let columns = self.schema.columns.as_slice();
        if columns.len() == 0 {
            return Err(BranchTableRenderError::EmptySchema);
        }
        match &columns[0].kind {
            BranchTableColumnKind::Branch => {},
            _ => {
                return Err(BranchTableRenderError::MissingBranchColumn);
            },
        }
        let stack: Vec<bool> = Vec::new();
        let seen: Vec<String> = Vec::new();
        assert(name_set(seen@) =~= Set::<Seq<char>>::empty());
        assert(stack@ =~= seq![]);
        let rows = match self.collect_rows(graph, branch, &stack, seen) {
            Err(e) => {
                return Err(BranchTableRenderError::UnknownBranch(e));
            },
            Ok((rows, _)) => rows,
        };
        let rendered = match self.render_rows(graph, &rows, colors) {
            Err(e) => {
                return Err(BranchTableRenderError::UnknownBranch(e));
            },
            Ok(rendered) => rendered,
        };
        proof {
            lemma_rendered_rows_width(self.schema_spec(), self.style_spec(), *graph, row_views(rows@), colors);
            assert forall|j: int| 0 <= j < rendered@.len() implies #[trigger] rendered@[j]@.len()
                == self.schema_spec().columns_spec().len() by {
                assert(cells_views(rendered@)[j] == views(rendered@[j]@));
            }
        }
        let widths = self.compute_column_widths(&rendered);
        let spacing = spaces_exec(self.schema.column_spacing);
        let mut out = String::new();
        let ghost cols = self.schema_spec().columns_spec();
        if self.schema.show_header {
            let mut header: Vec<String> = Vec::new();
            let mut c: usize = 0;
            while c < columns.len()
                invariant
                    c <= columns.len(),
                    columns@ == cols,
                    cols == self.schema_spec().columns_spec(),
                    views(header@) == header_cells(self.schema_spec(), self.style_spec(), colors).take(c as int),
                decreases columns.len() - c,
            {
                let cell = if self.style.bold_headers {
                    style_text_exec(columns[c].title.as_str(), TableStyle::Header, colors)
                } else {
                    columns[c].title.clone()
                };
                let ghost before = header@;
                assert(cell@ == header_cells(self.schema_spec(), self.style_spec(), colors)[c as int]);
                header.push(cell);
                assert(views(header@) =~= views(before).push(header@.last()@));
                c = c + 1;
                assert(views(header@) =~= header_cells(self.schema_spec(), self.style_spec(), colors).take(c as int));
            }
            assert(header_cells(self.schema_spec(), self.style_spec(), colors).take(columns.len() as int)
                =~= header_cells(self.schema_spec(), self.style_spec(), colors));
            Self::write_row(&mut out, &header, &widths, spacing.as_str());
        }
        let ghost head = out@;
        let ghost cv = cells_views(rendered@);
        let mut j: usize = 0;
        assert(cv.take(0) =~= seq![]);
        assert(head + body_text(cv.take(0), widths@, spacing@) =~= head);
        while j < rendered.len()
            invariant
                j <= rendered.len(),
                cv == cells_views(rendered@),
                widths@.len() == cols.len(),
                forall|jj: int| 0 <= jj < rendered@.len() ==> #[trigger] rendered@[jj]@.len() == cols.len(),
                out@ == head + body_text(cv.take(j as int), widths@, spacing@),
            decreases rendered.len() - j,
        {
            Self::write_row(&mut out, &rendered[j], &widths, spacing.as_str());
            assert(cv.take(j + 1).drop_last() =~= cv.take(j as int));
            assert(cv.take(j + 1).last() == views(rendered@[j as int]@));
            j = j + 1;
            assert(out@ =~= head + body_text(cv.take(j as int), widths@, spacing@));
        }
        assert(cv.take(rendered.len() as int) =~= cv);
        Ok(out)
    }

    /// Renders the table for `branch`. Colors follow the style's color mode;
    /// in `Auto` mode they follow the terminal, so either outcome may come.
    pub fn render(&self, graph: &TableGraph, branch: &BranchName) -> (r: Result<String, BranchTableRenderError>)
        ensures
            self.style_spec().color_mode_spec() == BranchTableColorMode::Always ==> outcome(
                r,
                table_text(*self, *graph, branch@, true),
            ),
            self.style_spec().color_mode_spec() == BranchTableColorMode::Never ==> outcome(
                r,
                table_text(*self, *graph, branch@, false),
            ),
            self.style_spec().color_mode_spec() == BranchTableColorMode::Auto ==> outcome(
                r,
                table_text(*self, *graph, branch@, true),
            ) || outcome(r, table_text(*self, *graph, branch@, false)),
    {
        let colors = match self.style.color_mode {
            BranchTableColorMode::Auto => terminal_colors_enabled(),
            BranchTableColorMode::Always => true,
            BranchTableColorMode::Never => false,
        };
        self.render_with_colors(graph, branch, colors)
    }
}

} // verus!

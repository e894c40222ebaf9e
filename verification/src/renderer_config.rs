//! The flow renderer's table layout as configured by users: columns with
//! optional titles and widths, the placeholder, the spacing and the header.
use vstd::prelude::*;

use crate::renderer::{BranchTableColumn, BranchTableColumnKind, BranchTableSchema};

verus! {

/// Column configuration entry.
#[derive(Debug, Clone)]
pub enum FlowRendererColumnConfig {
    /// Branch tree column (must be first).
    Branch { title: Option<String>, min_width: Option<usize> },
    /// Story / label column.
    Story { title: Option<String>, min_width: Option<usize> },
    /// Annotation column for arbitrary metadata keys.
    Annotation { key: String, title: Option<String>, min_width: Option<usize> },
    /// Notes column.
    Notes { title: Option<String>, min_width: Option<usize> },
}

/// Schema configuration stored on disk.
#[derive(Debug, Clone)]
pub struct FlowRendererSchemaConfig {
    pub columns: Vec<FlowRendererColumnConfig>,
    pub placeholder: String,
    pub column_spacing: usize,
    pub show_header: bool,
}

/// Errors raised while validating a configuration.
#[derive(Debug, Clone, Copy, PartialEq, Eq, Structural)]
pub enum FlowRendererSchemaError {
    /// Config declared no columns.
    EmptyColumns,
    /// First column must be the branch column.
    MissingBranchColumn,
}

/// The message shown for a renderer configuration error.
pub open spec fn schema_error_text(e: FlowRendererSchemaError) -> Seq<char> {
    match e {
        FlowRendererSchemaError::EmptyColumns => "flow renderer config must declare at least one column"@,
        FlowRendererSchemaError::MissingBranchColumn => "flow renderer config must declare the branch column first"@,
    }
}

impl FlowRendererSchemaError {
    /// The message shown for the error.
    pub fn message(&self) -> (s: String)
        ensures
            s@ == schema_error_text(*self),
    {
        match self {
            FlowRendererSchemaError::EmptyColumns => "flow renderer config must declare at least one column".to_owned(),
            FlowRendererSchemaError::MissingBranchColumn => "flow renderer config must declare the branch column first".to_owned(),
        }
    }
}

pub open spec fn title_or(title: Option<String>, fallback: Seq<char>) -> Seq<char> {
    match title {
        Some(t) => t@,
        None => fallback,
    }
}

pub open spec fn width_or_zero(w: Option<usize>) -> usize {
    match w {
        Some(n) => n,
        None => 0,
    }
}

/// Whether a table column is the one a configuration entry describes: the
/// entry's title (or the kind's default title), its kind, and its minimum
/// width (zero when none is given).
pub open spec fn column_matches(c: BranchTableColumn, cfg: FlowRendererColumnConfig) -> bool {
    match cfg {
        FlowRendererColumnConfig::Branch { title, min_width } => c.title_spec() == title_or(title, "Branch"@)
            && c.kind_spec() == BranchTableColumnKind::Branch && c.min_width_spec() == width_or_zero(min_width),
        FlowRendererColumnConfig::Story { title, min_width } => c.title_spec() == title_or(title, "Story"@)
            && c.kind_spec() == BranchTableColumnKind::FirstLabel && c.min_width_spec() == width_or_zero(min_width),
        FlowRendererColumnConfig::Annotation { key, title, min_width } => c.title_spec() == title_or(
            title,
            "Annotation"@,
        ) && (c.kind_spec() matches BranchTableColumnKind::Annotation { key: k } && k@ == key@)
            && c.min_width_spec() == width_or_zero(min_width),
        FlowRendererColumnConfig::Notes { title, min_width } => c.title_spec() == title_or(title, "Notes"@) && (c.kind_spec() matches BranchTableColumnKind::Annotation { key: k } && k@ == "twig.notes"@)
            && c.min_width_spec() == width_or_zero(min_width),
    }
}

fn apply_mutations(column: BranchTableColumn, title: &Option<String>, min_width: &Option<usize>) -> (c: BranchTableColumn)
    ensures
        c.title_spec() == match title {
            Some(t) => t@,
            None => column.title_spec(),
        },
        c.kind_spec() == column.kind_spec(),
        c.min_width_spec() == match min_width {
            Some(w) => *w,
            None => column.min_width_spec(),
        },
{
    let mut c = column;
    match title {
        Some(t) => {
            c = c.with_title(t.as_str());
        },
        None => {},
    }
    match min_width {
        Some(w) => {
            c = c.with_min_width(*w);
        },
        None => {},
    }
    c
}

impl FlowRendererColumnConfig {
    /// The table column this entry describes.
    pub fn to_column(&self) -> (c: BranchTableColumn)
        ensures
            column_matches(c, *self),
    {
        proof {
            reveal_strlit("Branch");
            reveal_strlit("Story");
            reveal_strlit("Annotation");
            reveal_strlit("Notes");
            reveal_strlit("twig.notes");
            assert("Branch"@ =~= seq!['B', 'r', 'a', 'n', 'c', 'h']);
            assert("Story"@ =~= seq!['S', 't', 'o', 'r', 'y']);
            assert("Notes"@ =~= seq!['N', 'o', 't', 'e', 's']);
            assert("twig.notes"@ =~= seq!['t', 'w', 'i', 'g', '.', 'n', 'o', 't', 'e', 's']);
        }
        match self {
            FlowRendererColumnConfig::Branch { title, min_width } => {
                let c = apply_mutations(BranchTableColumn::branch(), title, min_width);
                assert(c.title_spec() =~= title_or(*title, "Branch"@));
                c
            },
            FlowRendererColumnConfig::Story { title, min_width } => {
                let c = apply_mutations(BranchTableColumn::story(), title, min_width);
                assert(c.title_spec() =~= title_or(*title, "Story"@));
                c
            },
            FlowRendererColumnConfig::Annotation { key, title, min_width } => {
                let initial_title = match title {
                    Some(t) => t.clone(),
                    None => "Annotation".to_owned(),
                };
                let initial = BranchTableColumn::new(
                    initial_title.as_str(),
                    BranchTableColumnKind::Annotation { key: key.clone() },
                );
                apply_mutations(initial, title, min_width)
            },
            FlowRendererColumnConfig::Notes { title, min_width } => {
                let c = apply_mutations(BranchTableColumn::notes(), title, min_width);
                assert(c.title_spec() =~= title_or(*title, "Notes"@));
                c
            },
        }
    }
}

impl Default for FlowRendererSchemaConfig {
    fn default() -> (c: Self)
        ensures
            c.columns@.len() == 4,
            c.placeholder@ == "--"@,
            c.column_spacing == 2,
            c.show_header,
    {
        FlowRendererSchemaConfig {
            columns: Self::default_columns(),
            placeholder: Self::default_placeholder(),
            column_spacing: 2,
            show_header: true,
        }
    }
}

/// Why a configuration cannot become a schema: it declares no column, or
/// its first column is not the branch column.
pub open spec fn schema_refusal(c: FlowRendererSchemaConfig) -> Option<FlowRendererSchemaError> {
    if c.columns@.len() == 0 {
        Some(FlowRendererSchemaError::EmptyColumns)
    } else if !(c.columns@[0] is Branch) {
        Some(FlowRendererSchemaError::MissingBranchColumn)
    } else {
        None
    }
}

/// `s` is the schema the configuration describes: its columns in order,
/// its placeholder, spacing and header setting.
pub open spec fn schema_from(s: BranchTableSchema, c: FlowRendererSchemaConfig) -> bool {
    &&& s.columns_spec().len() == c.columns@.len()
    &&& forall|i: int| 0 <= i < c.columns@.len() ==> column_matches(#[trigger] s.columns_spec()[i], c.columns@[i])
    &&& s.placeholder_spec() == c.placeholder@
    &&& s.spacing_spec() == c.column_spacing
    &&& s.header_spec() == c.show_header
}

impl FlowRendererSchemaConfig {
    /// The columns used when a configuration names none: Branch, Story
    /// (width 8 each), the `twig.pr` annotation titled PR (width 6) and
    /// Notes (width 8).
    pub fn default_columns() -> (v: Vec<FlowRendererColumnConfig>)
        ensures
            v@.len() == 4,
            v@[0] == (FlowRendererColumnConfig::Branch { title: None, min_width: Some(8) }),
            v@[1] == (FlowRendererColumnConfig::Story { title: None, min_width: Some(8) }),
            v@[2] matches FlowRendererColumnConfig::Annotation { key, title, min_width } && key@ == "twig.pr"@
                && min_width == Some(6usize) && (title matches Some(t) && t@ == "PR"@),
            v@[3] == (FlowRendererColumnConfig::Notes { title: None, min_width: Some(8) }),
    {
        let mut columns: Vec<FlowRendererColumnConfig> = Vec::new();
        columns.push(FlowRendererColumnConfig::Branch { title: None, min_width: Some(8) });
        columns.push(FlowRendererColumnConfig::Story { title: None, min_width: Some(8) });
        columns.push(
            FlowRendererColumnConfig::Annotation {
                key: "twig.pr".to_owned(),
                title: Some("PR".to_owned()),
                min_width: Some(6),
            },
        );
        columns.push(FlowRendererColumnConfig::Notes { title: None, min_width: Some(8) });
        columns
    }

    /// The placeholder used when a configuration names none: `--`.
    pub fn default_placeholder() -> (s: String)
        ensures
            s@ == "--"@,
    {
        "--".to_owned()
    }

    /// Convert the config into a table schema: refused when it declares no
    /// column or when the first column is not the branch column.
    pub fn to_schema(&self) -> (r: Result<BranchTableSchema, FlowRendererSchemaError>)
        ensures
            match schema_refusal(*self) {
                Some(e) => r == Err::<BranchTableSchema, FlowRendererSchemaError>(e),
                None => r matches Ok(s) && schema_from(s, *self),
            },
    {
        if self.columns.len() == 0 {
            return Err(FlowRendererSchemaError::EmptyColumns);
        }
        match &self.columns[0] {
            FlowRendererColumnConfig::Branch { .. } => {},
            _ => {
                return Err(FlowRendererSchemaError::MissingBranchColumn);
            },
        }
        let mut columns: Vec<BranchTableColumn> = Vec::new();
        let mut i: usize = 0;
        while i < self.columns.len()
            invariant
                i <= self.columns.len(),
                columns@.len() == i,
                forall|k: int| 0 <= k < i ==> column_matches(#[trigger] columns@[k], self.columns@[k]),
            decreases self.columns.len() - i,
        {
            columns.push(self.columns[i].to_column());
            i = i + 1;
        }
        let schema = BranchTableSchema::new(columns).with_placeholder(self.placeholder.as_str()).with_column_spacing(
            self.column_spacing,
        ).with_header(self.show_header);
        Ok(schema)
    }
}

/// The schema for a renderer configuration file that was read and parsed
/// (none where there is no such file): the file's columns as a schema, or
/// the reason the configuration is invalid.
pub fn load_schema_from_path(parsed: Option<FlowRendererSchemaConfig>) -> (r: Result<
    Option<BranchTableSchema>,
    FlowRendererSchemaError,
>)
    ensures
        parsed is None ==> r matches Ok(None),
        parsed is Some ==> match schema_refusal(parsed->0) {
            Some(e) => r == Err::<Option<BranchTableSchema>, FlowRendererSchemaError>(e),
            None => r matches Ok(Some(s)) && schema_from(s, parsed->0),
        },
{
    match parsed {
        None => Ok(None),
        Some(config) => match config.to_schema() {
            Ok(schema) => Ok(Some(schema)),
            Err(e) => Err(e),
        },
    }
}

} // verus!

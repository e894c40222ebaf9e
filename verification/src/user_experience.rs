//! Hints for common mistakes: near-miss branch names, git commands that help
//! after an error, and help for twig's commands.
use vstd::prelude::*;

use crate::distance::{lev, levenshtein};
use crate::netrc::{cviews, lines_from, split_lines};
use crate::strs::{chars_of, contains, contains_exec, slice_range, str_eq, string_of, trim, trim_chars, trim_start_matches, trim_start_matches_pos};

verus! {

/// Helper hints for common user mistakes.
pub struct UserHints;

/// Interactive prompts (confirmation, choice, text) shown on the terminal.
pub struct InteractivePrompt;

/// Formats output, with colors when they are on.
#[derive(Debug, Clone, Copy)]
pub struct ColorOutput {
    pub colors_enabled: bool,
}

impl ColorOutput {
    /// A branch name in a list: `* ` before the current branch, two spaces
    /// before the others.
    pub fn format_branch_name(&self, branch_name: &str, is_current: bool) -> (s: String)
        ensures
            s@ == (if is_current {
                seq!['*', ' ']
            } else {
                seq![' ', ' ']
            }) + branch_name@,
    {
        let lead = if is_current {
            "* "
        } else {
            "  "
        };
        proof {
            reveal_strlit("* ");
            reveal_strlit("  ");
        }
        crate::strs::concat(lead, branch_name)
    }

    /// Git status text, as it is.
    pub fn format_git_status(&self, status: &str) -> (s: String)
        ensures
            s@ == status@,
    {
        status.to_owned()
    }
}

/// The edit distance between two strings, counted in characters.
pub fn levenshtein_distance(a: &str, b: &str) -> (d: usize)
    ensures
        d == lev(a@, b@),
{
    let x = chars_of(a);
    let y = chars_of(b);
    levenshtein(x.as_slice(), y.as_slice())
}

/// The closest branch so far: the first with the smallest distance to
/// `input`, among those within distance two.
pub open spec fn best_branch(input: Seq<char>, branches: Seq<Seq<char>>) -> (Option<Seq<char>>, nat)
    decreases branches.len(),
{
    if branches.len() == 0 {
        (None, usize::MAX as nat)
    } else {
        let (m, d) = best_branch(input, branches.drop_last());
        let dl = lev(input, branches.last());
        if dl < d && dl <= 2 {
            (Some(branches.last()), dl)
        } else {
            (m, d)
        }
    }
}

pub open spec fn string_views(v: Seq<String>) -> Seq<Seq<char>> {
    v.map_values(|s: String| s@)
}

/// The suggestions for an error message.
pub open spec fn workflow_spec(e: Seq<char>) -> Seq<Seq<char>> {
    (if contains(e, "not a git repository"@) {
        seq!["git init"@, "git clone <repository-url>"@]
    } else {
        seq![]
    }) + (if contains(e, "branch"@) && contains(e, "not found"@) {
        seq!["git branch -a"@, "git checkout -b <branch-name>"@]
    } else {
        seq![]
    }) + (if contains(e, "merge conflict"@) {
        seq!["git status"@, "git add ."@, "git rebase --continue"@]
    } else {
        seq![]
    }) + (if contains(e, "uncommitted changes"@) {
        seq!["git add ."@, "git commit -m 'WIP'"@, "git stash"@]
    } else {
        seq![]
    })
}

/// The help shown for a command and subcommand.
pub open spec fn help_spec(command: Seq<char>, sub: Option<Seq<char>>) -> Option<Seq<char>> {
    if command == "branch"@ && sub == Some("depend"@) {
        Some("Creates parent-child relationships between branches. Use: twig branch depend <child> <parent>"@)
    } else if command == "cascade"@ && sub is None {
        Some("Performs cascading rebase from current branch to children. Use --show-graph to preview changes."@)
    } else if command == "tree"@ && sub is None {
        Some("Shows branch dependency tree. Use --max-depth to limit levels shown."@)
    } else if command == "switch"@ && sub is None {
        Some("Intelligent branch switching with automatic dependency detection."@)
    } else {
        None
    }
}

fn has(text: &Vec<char>, pattern: &str) -> (b: bool)
    ensures
        b == contains(text@, pattern@),
{
    let p = chars_of(pattern);
    contains_exec(text.as_slice(), p.as_slice())
}

fn push_all(out: &mut Vec<String>, items: &[&str])
    ensures
        string_views(final(out)@) == string_views(old(out)@) + items@.map_values(|s: &str| s@),
{
    let ghost start = string_views(out@);
    let mut i: usize = 0;
    while i < items.len()
        invariant
            i <= items.len(),
            string_views(out@) == start + items@.map_values(|s: &str| s@).take(i as int),
        decreases items.len() - i,
    {
        let ghost before = out@;
        out.push(items[i].to_owned());
        assert(string_views(out@) =~= string_views(before).push(items@[i as int]@));
        i = i + 1;
        assert(string_views(out@) =~= start + items@.map_values(|s: &str| s@).take(i as int));
    }
    assert(items@.map_values(|s: &str| s@).take(items.len() as int) =~= items@.map_values(|s: &str| s@));
}

impl UserHints {
    /// Suggest a correction for a mistyped branch name: nothing when the
    /// name exists; otherwise the first branch with the smallest edit
    /// distance, if that distance is at most two.
    pub fn suggest_branch_name(input: &str, available_branches: &Vec<String>) -> (r: Option<String>)
        ensures
            string_views(available_branches@).contains(input@) ==> r is None,
            !string_views(available_branches@).contains(input@) ==> match best_branch(
                input@,
                string_views(available_branches@),
            ).0 {
                Some(b) => r is Some && r->0@ == b,
                None => r is None,
            },
    {
        let mut i: usize = 0;
        while i < available_branches.len()
            invariant
                i <= available_branches.len(),
                forall|k: int| 0 <= k < i ==> available_branches@[k]@ != input@,
            decreases available_branches.len() - i,
        {
            if str_eq(available_branches[i].as_str(), input) {
                assert(string_views(available_branches@)[i as int] == input@);
                return None;
            }
            i = i + 1;
        }
        proof {
            if string_views(available_branches@).contains(input@) {
                let k = choose|k: int|
                    0 <= k < string_views(available_branches@).len() && string_views(available_branches@)[k] == input@;
                assert(available_branches@[k]@ == input@);
            }
        }
        let ghost bs = string_views(available_branches@);
        let mut best: Option<usize> = None;
        let mut best_distance: usize = usize::MAX;
        let mut j: usize = 0;
        assert(bs.take(0) =~= seq![]);
        while j < available_branches.len()
            invariant
                j <= available_branches.len(),
                bs == string_views(available_branches@),
                best_branch(input@, bs.take(j as int)).1 == best_distance as nat,
                match best_branch(input@, bs.take(j as int)).0 {
                    Some(b) => best matches Some(k) && k < j && bs[k as int] == b,
                    None => best is None,
                },
            decreases available_branches.len() - j,
        {
            assert(bs.take(j + 1).drop_last() =~= bs.take(j as int));
            assert(bs.take(j + 1).last() == available_branches@[j as int]@);
            let d = levenshtein_distance(input, available_branches[j].as_str());
            if d < best_distance && d <= 2 {
                best_distance = d;
                best = Some(j);
            }
            j = j + 1;
        }
        assert(bs.take(available_branches.len() as int) =~= bs);
        match best {
            Some(k) => Some(available_branches[k].clone()),
            None => None,
        }
    }

    /// Suggest git commands for an error message: repository setup when it
    /// is not a repository, branch listing and creation when a branch is not
    /// found, resolution steps for merge conflicts, and ways to put aside
    /// uncommitted changes; in that order.
    pub fn suggest_git_workflow(error_context: &str) -> (r: Vec<String>)
        ensures
            string_views(r@) == workflow_spec(error_context@),
    {
        let text = chars_of(error_context);
        let mut suggestions: Vec<String> = Vec::new();
        let ghost e = error_context@;
        if has(&text, "not a git repository") {
            push_all(&mut suggestions, &["git init", "git clone <repository-url>"]);
        }
        let ghost s1 = string_views(suggestions@);
        if has(&text, "branch") && has(&text, "not found") {
            push_all(&mut suggestions, &["git branch -a", "git checkout -b <branch-name>"]);
        }
        let ghost s2 = string_views(suggestions@);
        if has(&text, "merge conflict") {
            push_all(&mut suggestions, &["git status", "git add .", "git rebase --continue"]);
        }
        let ghost s3 = string_views(suggestions@);
        if has(&text, "uncommitted changes") {
            push_all(&mut suggestions, &["git add .", "git commit -m 'WIP'", "git stash"]);
        }
        proof {
            let a: Seq<&str> = seq!["git init", "git clone <repository-url>"];
            assert(a.map_values(|s: &str| s@) =~= seq!["git init"@, "git clone <repository-url>"@]);
            let b: Seq<&str> = seq!["git branch -a", "git checkout -b <branch-name>"];
            assert(b.map_values(|s: &str| s@) =~= seq!["git branch -a"@, "git checkout -b <branch-name>"@]);
            let c: Seq<&str> = seq!["git status", "git add .", "git rebase --continue"];
            assert(c.map_values(|s: &str| s@) =~= seq!["git status"@, "git add ."@, "git rebase --continue"@]);
            let d: Seq<&str> = seq!["git add .", "git commit -m 'WIP'", "git stash"];
            assert(d.map_values(|s: &str| s@) =~= seq!["git add ."@, "git commit -m 'WIP'"@, "git stash"@]);
            assert(string_views(suggestions@) =~= workflow_spec(e));
        }
        suggestions
    }

    /// Contextual help for a twig command and subcommand.
    pub fn command_help_hint(command: &str, subcommand: Option<&str>) -> (r: Option<String>)
        ensures
            match help_spec(
                command@,
                match subcommand {
                    Some(s) => Some(s@),
                    None => None,
                },
            ) {
                Some(h) => r is Some && r->0@ == h,
                None => r is None,
            },
    {
        let sub_view = match subcommand {
            Some(s) => Some(s),
            None => None,
        };
        if str_eq(command, "branch") {
            match sub_view {
                Some(s) => {
                    if str_eq(s, "depend") {
                        return Some(
                            "Creates parent-child relationships between branches. Use: twig branch depend <child> <parent>".to_owned(),
                        );
                    }
                },
                None => {},
            }
        }
        if subcommand.is_none() {
            if str_eq(command, "cascade") {
                return Some(
                    "Performs cascading rebase from current branch to children. Use --show-graph to preview changes.".to_owned(),
                );
            }
            if str_eq(command, "tree") {
                return Some("Shows branch dependency tree. Use --max-depth to limit levels shown.".to_owned());
            }
            if str_eq(command, "switch") {
                return Some("Intelligent branch switching with automatic dependency detection.".to_owned());
            }
        }
        proof {
            reveal_strlit("branch");
            reveal_strlit("depend");
            reveal_strlit("cascade");
            reveal_strlit("tree");
            reveal_strlit("switch");
        }
        None
    }
}

/// A line of `git branch --list` reduced to the branch name: trimmed, the
/// current-branch marker `* ` removed, trimmed again.
pub open spec fn listed_branch(line: Seq<char>) -> Seq<char> {
    trim(trim_start_matches(trim(line), seq!['*', ' ']))
}

/// Some listed branch is a feature branch (`feature/` or `feat/` in it).
pub open spec fn lists_feature_branch(lines: Seq<Seq<char>>) -> bool {
    exists|i: int|
        0 <= i < lines.len() && (contains(#[trigger] listed_branch(lines[i]), "feature/"@) || contains(
            listed_branch(lines[i]),
            "feat/"@,
        ))
}

/// Some listed branch is `main`, `master` or `develop`.
pub open spec fn lists_base_branch(lines: Seq<Seq<char>>) -> bool {
    exists|i: int|
        0 <= i < lines.len() && (#[trigger] listed_branch(lines[i]) == "main"@ || listed_branch(lines[i])
            == "master"@ || listed_branch(lines[i]) == "develop"@)
}

/// The hints for a repository: initialise twig where its state file is
/// missing, and set up dependencies where feature branches sit beside a
/// base branch (from the output of `git branch --list`, when it ran).
pub open spec fn state_hints_spec(state_initialized: bool, branch_list: Option<Seq<char>>) -> Seq<Seq<char>> {
    let first: Seq<Seq<char>> = if state_initialized {
        seq![]
    } else {
        seq!["Run 'twig init' to initialize twig in this repository"@]
    };
    match branch_list {
        Some(out) => if lists_feature_branch(lines_from(out, 0)) && lists_base_branch(lines_from(out, 0)) {
            first.push("Consider setting up branch dependencies with 'twig branch depend'"@)
        } else {
            first
        },
        None => first,
    }
}

/// The branch name on a line of `git branch --list`.
fn listed_branch_exec(line: &[char]) -> (r: Vec<char>)
    ensures
        r@ == listed_branch(line@),
{
    let t = trim_chars(line);
    let marker = ['*', ' '];
    assert(marker@ =~= seq!['*', ' ']);
    let k = trim_start_matches_pos(t.as_slice(), marker.as_slice());
    let rest = slice_range(t.as_slice(), k, t.len());
    trim_chars(rest.as_slice())
}

impl UserHints {
    /// Helpful hints from the repository's state (see `state_hints_spec`).
    pub fn repository_state_hints(state_initialized: bool, branch_list: Option<&str>) -> (r: Vec<String>)
        ensures
            string_views(r@) == state_hints_spec(
                state_initialized,
                match branch_list {
                    Some(o) => Some(o@),
                    None => None,
                },
            ),
    {
        let mut hints: Vec<String> = Vec::new();
        if !state_initialized {
            hints.push("Run 'twig init' to initialize twig in this repository".to_owned());
        }
        let ghost first = string_views(hints@);
        assert(first =~= (if state_initialized {
            Seq::<Seq<char>>::empty()
        } else {
            seq!["Run 'twig init' to initialize twig in this repository"@]
        }));
        match branch_list {
            Some(out) => {
                let cs = chars_of(out);
                let lines = split_lines(cs.as_slice());
                let ghost ls = lines_from(out@, 0);
                let feature = "feature/";
                let feat = "feat/";
                let fv = chars_of(feature);
                let ftv = chars_of(feat);
                let mut has_feature = false;
                let mut has_base = false;
                let mut i: usize = 0;
                while i < lines.len()
                    invariant
                        i <= lines.len(),
                        cviews(lines@) == ls,
                        fv@ == "feature/"@,
                        ftv@ == "feat/"@,
                        has_feature == exists|j: int|
                            0 <= j < i && (contains(#[trigger] listed_branch(ls[j]), "feature/"@) || contains(
                                listed_branch(ls[j]),
                                "feat/"@,
                            )),
                        has_base == exists|j: int|
                            0 <= j < i && (#[trigger] listed_branch(ls[j]) == "main"@ || listed_branch(ls[j])
                                == "master"@ || listed_branch(ls[j]) == "develop"@),
                    decreases lines.len() - i,
                {
                    assert(ls[i as int] == lines@[i as int]@);
                    let name = listed_branch_exec(lines[i].as_slice());
                    let f = contains_exec(name.as_slice(), fv.as_slice()) || contains_exec(
                        name.as_slice(),
                        ftv.as_slice(),
                    );
                    let s = string_of(name.as_slice());
                    let b = str_eq(s.as_str(), "main") || str_eq(s.as_str(), "master") || str_eq(
                        s.as_str(),
                        "develop",
                    );
                    if f {
                        has_feature = true;
                    }
                    if b {
                        has_base = true;
                    }
                    i = i + 1;
                }
                assert(lists_feature_branch(ls) == has_feature);
                assert(lists_base_branch(ls) == has_base);
                if has_feature && has_base {
                    let ghost before = hints@;
                    hints.push("Consider setting up branch dependencies with 'twig branch depend'".to_owned());
                    assert(string_views(hints@) =~= string_views(before).push(
                        "Consider setting up branch dependencies with 'twig branch depend'"@,
                    ));
                }
            },
            None => {},
        }
        hints
    }
}

} // verus!

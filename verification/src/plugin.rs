//! Plugins: their binary names, the environment handed to them, and the
//! suggestions offered for a command that is neither built in nor a plugin.
use vstd::prelude::*;

use crate::distance::{lev, levenshtein};
use crate::lex::{lex_lt, sorted_set_of, sorted_strictly, views};
use crate::output::ColorMode;
use crate::strs::{
    char_lowercase_first, chars_of, concat, ends_with, ends_with_exec, first_lowercase_char, starts_with, starts_with_exec,
    str_eq, string_of_range, to_lowercase, unicode_lowercase,
};

verus! {

/// Metadata describing a discovered plugin binary.
#[derive(Debug, Clone)]
pub struct PluginInfo {
    /// Canonical plugin name without the `twig-` prefix.
    pub name: String,
    /// Ordered list of plugin locations in PATH order (primary first).
    pub paths: Vec<String>,
    /// File size in bytes for the primary plugin location, if available.
    pub size_in_bytes: Option<u64>,
}

/// The value of `TWIG_COLORS` handed to a plugin.
pub open spec fn color_mode_env_spec(mode: ColorMode) -> Seq<char> {
    match mode {
        ColorMode::Yes | ColorMode::Always => seq!['y', 'e', 's'],
        ColorMode::No | ColorMode::Never => seq!['n', 'o'],
        ColorMode::Auto => seq!['a', 'u', 't', 'o'],
    }
}

/// The value of `TWIG_COLORS` handed to a plugin.
pub fn color_mode_env(mode: ColorMode) -> (s: &'static str)
    ensures
        s@ == color_mode_env_spec(mode),
{
    match mode {
        ColorMode::Yes | ColorMode::Always => {
            let s = "yes";
            proof {
                reveal_strlit("yes");
            }
            s
        },
        ColorMode::No | ColorMode::Never => {
            let s = "no";
            proof {
                reveal_strlit("no");
            }
            s
        },
        ColorMode::Auto => {
            let s = "auto";
            proof {
                reveal_strlit("auto");
            }
            s
        },
    }
}

/// The binary a plugin is installed as: `twig-` and its name.
pub fn plugin_binary_name(plugin_name: &str) -> (s: String)
    ensures
        s@ == seq!['t', 'w', 'i', 'g', '-'] + plugin_name@,
{
    proof {
        reveal_strlit("twig-");
    }
    concat("twig-", plugin_name)
}

/// The file names a plugin binary may have: the name itself, and elsewhere
/// than on Unix also the name with `.exe` unless it ends in `.exe` already
/// (in any case).
pub open spec fn candidate_filenames_spec(plugin_name: Seq<char>, unix: bool) -> Seq<Seq<char>> {
    if unix || ends_with(unicode_lowercase(plugin_name), seq!['.', 'e', 'x', 'e']) {
        seq![plugin_name]
    } else {
        seq![plugin_name, plugin_name + seq!['.', 'e', 'x', 'e']]
    }
}

/// The file names a plugin binary may have (see `candidate_filenames_spec`);
/// `unix` tells whether the build targets Unix.
pub fn candidate_filenames(plugin_name: &str, unix: bool) -> (v: Vec<String>)
    ensures
        views(v@) == candidate_filenames_spec(plugin_name@, unix),
{
    let mut v: Vec<String> = Vec::new();
    v.push(plugin_name.to_owned());
    if unix {
        assert(views(v@) =~= seq![plugin_name@]);
        return v;
    }
    let lower = chars_of(to_lowercase(plugin_name).as_str());
    let ext = ['.', 'e', 'x', 'e'];
    assert(ext@ =~= seq!['.', 'e', 'x', 'e']);
    if !ends_with_exec(lower.as_slice(), ext.as_slice()) {
        proof {
            reveal_strlit(".exe");
        }
        assert(".exe"@ =~= seq!['.', 'e', 'x', 'e']);
        v.push(concat(plugin_name, ".exe"));
        assert(views(v@) =~= seq![plugin_name@, plugin_name@ + seq!['.', 'e', 'x', 'e']]);
    } else {
        assert(views(v@) =~= seq![plugin_name@]);
    }
    v
}

/// A directory on the search path as the plugin lookup sees it: its path,
/// whether it exists, and its files (name, and whether it is a regular file
/// that may be executed).
#[derive(Debug, Clone)]
pub struct SearchDir {
    pub path: String,
    pub exists: bool,
    pub files: Vec<(String, bool)>,
}

/// Whether the directory holds a runnable file with this name.
pub open spec fn holds_runnable(files: Seq<(String, bool)>, name: Seq<char>) -> bool {
    exists|i: int| 0 <= i < files.len() && files[i].0@ == name && files[i].1
}

/// The first candidate name (in order) that the directory holds runnable.
pub open spec fn first_runnable(files: Seq<(String, bool)>, cands: Seq<Seq<char>>) -> Option<Seq<char>>
    decreases cands.len(),
{
    if cands.len() == 0 {
        None
    } else if holds_runnable(files, cands[0]) {
        Some(cands[0])
    } else {
        first_runnable(files, cands.drop_first())
    }
}

/// Where a plugin binary is found: in the first directory of the search
/// path that is named (non-empty), exists and holds a runnable file with a
/// candidate name, the first such name, joined onto the directory.
pub open spec fn resolve_plugin_spec(dirs: Seq<SearchDir>, cands: Seq<Seq<char>>) -> Option<Seq<char>>
    decreases dirs.len(),
{
    if dirs.len() == 0 {
        None
    } else {
        let d = dirs[0];
        if d.path@.len() > 0 && d.exists && first_runnable(d.files@, cands) is Some {
            Some(crate::plugin_context::join_path(d.path@, first_runnable(d.files@, cands)->0))
        } else {
            resolve_plugin_spec(dirs.drop_first(), cands)
        }
    }
}

/// Whether the files hold a runnable file with this name.
fn holds_runnable_exec(files: &Vec<(String, bool)>, name: &str) -> (b: bool)
    ensures
        b == holds_runnable(files@, name@),
{
    let mut i: usize = 0;
    while i < files.len()
        invariant
            i <= files.len(),
            forall|k: int| 0 <= k < i ==> !(files@[k].0@ == name@ && files@[k].1),
        decreases files.len() - i,
    {
        if files[i].1 && str_eq(files[i].0.as_str(), name) {
            return true;
        }
        i = i + 1;
    }
    false
}

/// The path of a plugin binary on the search path (see
/// `resolve_plugin_spec`); the caller resolves links in it.
pub fn resolve_plugin_path_from_dirs(plugin_binary: &str, dirs: &Vec<SearchDir>, unix: bool) -> (r: Option<String>)
    ensures
        match r {
            Some(p) => resolve_plugin_spec(dirs@, candidate_filenames_spec(plugin_binary@, unix)) == Some(p@),
            None => resolve_plugin_spec(dirs@, candidate_filenames_spec(plugin_binary@, unix)) is None,
        },
{
    let cands = candidate_filenames(plugin_binary, unix);
    let ghost cv = views(cands@);
    let mut i: usize = 0;
    assert(dirs@.subrange(0, dirs@.len() as int) =~= dirs@);
    while i < dirs.len()
        invariant
            i <= dirs.len(),
            cv == views(cands@),
            cv == candidate_filenames_spec(plugin_binary@, unix),
            resolve_plugin_spec(dirs@, cv) == resolve_plugin_spec(dirs@.subrange(i as int, dirs@.len() as int), cv),
        decreases dirs.len() - i,
    {
        let ghost rest = dirs@.subrange(i as int, dirs@.len() as int);
        assert(rest[0] == dirs@[i as int]);
        assert(rest.drop_first() =~= dirs@.subrange(i + 1, dirs@.len() as int));
        let d = &dirs[i];
        if chars_of(d.path.as_str()).len() > 0 && d.exists {
            let mut k: usize = 0;
            assert(cv.subrange(0, cv.len() as int) =~= cv);
            while k < cands.len()
                invariant
                    k <= cands.len(),
                    cv == views(cands@),
                    cv == candidate_filenames_spec(plugin_binary@, unix),
                    i < dirs.len(),
                    *d == dirs@[i as int],
                    d.path@.len() > 0 && d.exists,
                    resolve_plugin_spec(dirs@, cv) == resolve_plugin_spec(
                        dirs@.subrange(i as int, dirs@.len() as int),
                        cv,
                    ),
                    first_runnable(d.files@, cv) == first_runnable(d.files@, cv.subrange(k as int, cv.len() as int)),
                decreases cands.len() - k,
            {
                let ghost cr = cv.subrange(k as int, cv.len() as int);
                assert(cr[0] == cands@[k as int]@);
                assert(cr.drop_first() =~= cv.subrange(k + 1, cv.len() as int));
                if holds_runnable_exec(&d.files, cands[k].as_str()) {
                    assert(first_runnable(d.files@, cv) == Some(cands@[k as int]@));
                    assert(dirs@.subrange(i as int, dirs@.len() as int)[0] == dirs@[i as int]);
                    return Some(crate::plugin_context::join_path_exec(d.path.as_str(), cands[k].as_str()));
                }
                k = k + 1;
            }
            assert(cv.subrange(cands.len() as int, cv.len() as int) =~= Seq::<Seq<char>>::empty());
        }
        i = i + 1;
    }
    None
}

/// Whether a plugin can be run: `twig-<name>` is found on the search path
/// (see `resolve_plugin_spec`).
pub fn plugin_is_available(plugin_name: &str, dirs: &Vec<SearchDir>, unix: bool) -> (b: bool)
    ensures
        b == resolve_plugin_spec(
            dirs@,
            candidate_filenames_spec(seq!['t', 'w', 'i', 'g', '-'] + plugin_name@, unix),
        ) is Some,
{
    let binary = plugin_binary_name(plugin_name);
    resolve_plugin_path_from_dirs(binary.as_str(), dirs, unix).is_some()
}

/// The distance used to match commands: with an empty side, the UTF-8
/// length of the other; otherwise the Levenshtein distance of the
/// characters.
pub open spec fn command_distance(a: Seq<char>, b: Seq<char>) -> nat {
    if a.len() == 0 {
        (vstd::utf8::encode_utf8(b).len() as usize) as nat
    } else if b.len() == 0 {
        (vstd::utf8::encode_utf8(a).len() as usize) as nat
    } else {
        lev(a, b)
    }
}

/// The edit distance between two command names. Both must be ASCII unless
/// one of them is empty.
pub fn levenshtein_distance(s1: &str, s2: &str) -> (d: usize)
    requires
        s1@.len() == 0 || s2@.len() == 0 || (vstd::utf8::is_ascii_chars(s1@) && vstd::utf8::is_ascii_chars(s2@)),
    ensures
        d == command_distance(s1@, s2@),
{
    if s1.is_empty() {
        return s2.len();
    }
    if s2.is_empty() {
        return s1.len();
    }
    let a = chars_of(s1);
    let b = chars_of(s2);
    levenshtein(a.as_slice(), b.as_slice())
}

/// The built-in commands, in the order they are considered.
pub open spec fn builtin_commands() -> Seq<Seq<char>> {
    seq![
        seq!['b', 'r', 'a', 'n', 'c', 'h'],
        seq!['c', 'a', 's', 'c', 'a', 'd', 'e'],
        seq!['c', 'o', 'm', 'm', 'i', 't'],
        seq!['c', 'r', 'e', 'd', 's'],
        seq!['d', 'a', 's', 'h', 'b', 'o', 'a', 'r', 'd'],
        seq!['g', 'i', 't'],
        seq!['g', 'i', 't', 'h', 'u', 'b'],
        seq!['j', 'i', 'r', 'a'],
        seq!['s', 'e', 'l', 'f'],
        seq!['r', 'e', 'b', 'a', 's', 'e'],
        seq!['s', 'w', 'i', 't', 'c', 'h'],
        seq!['s', 'y', 'n', 'c'],
        seq!['t', 'r', 'e', 'e'],
        seq!['w', 'o', 'r', 'k', 't', 'r', 'e', 'e'],
    ]
}

/// The lower-cased first character of a command, `'\0'` for an empty one.
pub open spec fn initial(s: Seq<char>) -> char {
    char_lowercase_first(if s.len() > 0 { s[0] } else { '\0' })
}

/// The commands within distance two of `u`.
pub open spec fn close_matches(u: Seq<char>, cmds: Seq<Seq<char>>) -> Seq<Seq<char>>
    decreases cmds.len(),
{
    if cmds.len() == 0 {
        seq![]
    } else if command_distance(u, cmds.last()) <= 2 {
        close_matches(u, cmds.drop_last()).push(cmds.last())
    } else {
        close_matches(u, cmds.drop_last())
    }
}

/// The commands starting with the same (lower-cased) letter as `u`.
pub open spec fn same_initial(u: Seq<char>, cmds: Seq<Seq<char>>) -> Seq<Seq<char>>
    decreases cmds.len(),
{
    if cmds.len() == 0 {
        seq![]
    } else if initial(cmds.last()) == initial(u) {
        same_initial(u, cmds.drop_last()).push(cmds.last())
    } else {
        same_initial(u, cmds.drop_last())
    }
}

/// What suggestions are drawn from: the close matches, or failing those the
/// commands with the same initial.
pub open spec fn suggestion_pool(u: Seq<char>, cmds: Seq<Seq<char>>) -> Seq<Seq<char>> {
    if close_matches(u, cmds).len() > 0 {
        close_matches(u, cmds)
    } else {
        same_initial(u, cmds)
    }
}

pub open spec fn ascii_or_empty(s: Seq<char>) -> bool {
    s.len() == 0 || vstd::utf8::is_ascii_chars(s)
}

/// Every character is ASCII.
pub open spec fn all_ascii(s: Seq<char>) -> bool
    decreases s.len(),
{
    s.len() == 0 || ('\0' <= s.last() && s.last() <= '\u{7f}' && all_ascii(s.drop_last()))
}

proof fn lemma_all_ascii(s: Seq<char>)
    requires
        all_ascii(s),
    ensures
        vstd::utf8::is_ascii_chars(s),
    decreases s.len(),
{
    if s.len() > 0 {
        lemma_all_ascii(s.drop_last());
        assert forall|i: int| 0 <= i < s.len() implies '\0' <= #[trigger] s[i] <= '\u{7f}' by {
            if i < s.len() - 1 {
                assert(s.drop_last()[i] == s[i]);
            }
        }
    }
}

proof fn lemma_builtins_ascii()
    ensures
        forall|k: int| 0 <= k < builtin_commands().len() ==> #[trigger] ascii_or_empty(builtin_commands()[k]),
        builtin_commands().len() == 14,
{
    reveal_with_fuel(all_ascii, 10);
    assert(all_ascii(builtin_commands()[0]));
    lemma_all_ascii(builtin_commands()[0]);
    assert(all_ascii(builtin_commands()[1]));
    lemma_all_ascii(builtin_commands()[1]);
    assert(all_ascii(builtin_commands()[2]));
    lemma_all_ascii(builtin_commands()[2]);
    assert(all_ascii(builtin_commands()[3]));
    lemma_all_ascii(builtin_commands()[3]);
    assert(all_ascii(builtin_commands()[4]));
    lemma_all_ascii(builtin_commands()[4]);
    assert(all_ascii(builtin_commands()[5]));
    lemma_all_ascii(builtin_commands()[5]);
    assert(all_ascii(builtin_commands()[6]));
    lemma_all_ascii(builtin_commands()[6]);
    assert(all_ascii(builtin_commands()[7]));
    lemma_all_ascii(builtin_commands()[7]);
    assert(all_ascii(builtin_commands()[8]));
    lemma_all_ascii(builtin_commands()[8]);
    assert(all_ascii(builtin_commands()[9]));
    lemma_all_ascii(builtin_commands()[9]);
    assert(all_ascii(builtin_commands()[10]));
    lemma_all_ascii(builtin_commands()[10]);
    assert(all_ascii(builtin_commands()[11]));
    lemma_all_ascii(builtin_commands()[11]);
    assert(all_ascii(builtin_commands()[12]));
    lemma_all_ascii(builtin_commands()[12]);
    assert(all_ascii(builtin_commands()[13]));
    lemma_all_ascii(builtin_commands()[13]);
}

/// The built-in commands followed by the plugins.
fn all_commands(available_plugins: &Vec<String>) -> (all: Vec<String>)
    ensures
        views(all@) == builtin_commands() + views(available_plugins@),
{
    let builtins: Vec<&str> = vec![
        "branch",
        "cascade",
        "commit",
        "creds",
        "dashboard",
        "git",
        "github",
        "jira",
        "self",
        "rebase",
        "switch",
        "sync",
        "tree",
        "worktree",
    ];
    proof {
        reveal_strlit("branch");
        assert("branch"@ =~= seq!['b', 'r', 'a', 'n', 'c', 'h']);
        reveal_strlit("cascade");
        assert("cascade"@ =~= seq!['c', 'a', 's', 'c', 'a', 'd', 'e']);
        reveal_strlit("commit");
        assert("commit"@ =~= seq!['c', 'o', 'm', 'm', 'i', 't']);
        reveal_strlit("creds");
        assert("creds"@ =~= seq!['c', 'r', 'e', 'd', 's']);
        reveal_strlit("dashboard");
        assert("dashboard"@ =~= seq!['d', 'a', 's', 'h', 'b', 'o', 'a', 'r', 'd']);
        reveal_strlit("git");
        assert("git"@ =~= seq!['g', 'i', 't']);
        reveal_strlit("github");
        assert("github"@ =~= seq!['g', 'i', 't', 'h', 'u', 'b']);
        reveal_strlit("jira");
        assert("jira"@ =~= seq!['j', 'i', 'r', 'a']);
        reveal_strlit("self");
        assert("self"@ =~= seq!['s', 'e', 'l', 'f']);
        reveal_strlit("rebase");
        assert("rebase"@ =~= seq!['r', 'e', 'b', 'a', 's', 'e']);
        reveal_strlit("switch");
        assert("switch"@ =~= seq!['s', 'w', 'i', 't', 'c', 'h']);
        reveal_strlit("sync");
        assert("sync"@ =~= seq!['s', 'y', 'n', 'c']);
        reveal_strlit("tree");
        assert("tree"@ =~= seq!['t', 'r', 'e', 'e']);
        reveal_strlit("worktree");
        assert("worktree"@ =~= seq!['w', 'o', 'r', 'k', 't', 'r', 'e', 'e']);
    }
    let mut all: Vec<String> = Vec::new();
    let mut i: usize = 0;
    while i < builtins.len()
        invariant
            i <= builtins.len(),
            builtins@.len() == 14,
            forall|k: int| 0 <= k < 14 ==> #[trigger] builtins@[k]@ == builtin_commands()[k],
            views(all@) == builtin_commands().take(i as int),
        decreases builtins.len() - i,
    {
        let ghost before = all@;
        all.push(builtins[i].to_owned());
        assert(views(all@) =~= views(before).push(builtins@[i as int]@));
        i = i + 1;
        assert(views(all@) =~= builtin_commands().take(i as int));
    }
    let mut j: usize = 0;
    assert(builtin_commands().take(14) =~= builtin_commands());
    assert(views(available_plugins@).take(0) =~= seq![]);
    while j < available_plugins.len()
        invariant
            j <= available_plugins.len(),
            views(all@) == builtin_commands() + views(available_plugins@).take(j as int),
        decreases available_plugins.len() - j,
    {
        let ghost before = all@;
        all.push(available_plugins[j].clone());
        assert(views(all@) =~= views(before).push(available_plugins@[j as int]@));
        j = j + 1;
        assert(views(all@) =~= builtin_commands() + views(available_plugins@).take(j as int));
    }
    assert(views(available_plugins@).take(available_plugins.len() as int) =~= views(available_plugins@));
    all
}

/// The commands within distance two of `unknown`.
fn close_matches_exec(unknown: &str, all: &Vec<String>) -> (r: Vec<String>)
    requires
        unknown@.len() == 0 || (vstd::utf8::is_ascii_chars(unknown@) && forall|m: int|
            0 <= m < all@.len() ==> #[trigger] ascii_or_empty(all@[m]@)),
    ensures
        views(r@) == close_matches(unknown@, views(all@)),
{
    let ghost cmds = views(all@);
    let mut suggestions: Vec<String> = Vec::new();
    let mut k: usize = 0;
    while k < all.len()
        invariant
            k <= all.len(),
            cmds == views(all@),
            unknown@.len() == 0 || (vstd::utf8::is_ascii_chars(unknown@) && forall|m: int|
                0 <= m < all@.len() ==> #[trigger] ascii_or_empty(all@[m]@)),
            views(suggestions@) == close_matches(unknown@, cmds.take(k as int)),
        decreases all.len() - k,
    {
        assert(cmds.take(k + 1).drop_last() =~= cmds.take(k as int));
        assert(cmds.take(k + 1).last() == all@[k as int]@);
        assert(unknown@.len() > 0 ==> ascii_or_empty(all@[k as int]@));
        let d = levenshtein_distance(unknown, all[k].as_str());
        if d <= 2 {
            let ghost before = suggestions@;
            suggestions.push(all[k].clone());
            assert(views(suggestions@) =~= views(before).push(all@[k as int]@));
        }
        k = k + 1;
    }
    assert(cmds.take(all.len() as int) =~= cmds);
    suggestions
}

/// The commands with the same lower-cased initial as `unknown`.
fn same_initial_exec(unknown: &str, all: &Vec<String>) -> (r: Vec<String>)
    ensures
        views(r@) == same_initial(unknown@, views(all@)),
{
    let ghost cmds = views(all@);
    let first = match chars_of(unknown).first() {
        Some(c) => *c,
        None => '\0',
    };
    let key = first_lowercase_char(first);
    let mut suggestions: Vec<String> = Vec::new();
    let mut k: usize = 0;
    while k < all.len()
        invariant
            k <= all.len(),
            cmds == views(all@),
            key == initial(unknown@),
            views(suggestions@) == same_initial(unknown@, cmds.take(k as int)),
        decreases all.len() - k,
    {
        assert(cmds.take(k + 1).drop_last() =~= cmds.take(k as int));
        assert(cmds.take(k + 1).last() == all@[k as int]@);
        let cs = chars_of(all[k].as_str());
        let c0 = match cs.first() {
            Some(c) => *c,
            None => '\0',
        };
        if first_lowercase_char(c0) == key {
            let ghost before = suggestions@;
            suggestions.push(all[k].clone());
            assert(views(suggestions@) =~= views(before).push(all@[k as int]@));
        }
        k = k + 1;
    }
    assert(cmds.take(all.len() as int) =~= cmds);
    suggestions
}

/// The smallest (at most five) distinct strings of `v`, in order.
pub open spec fn smallest_five(pool: Seq<Seq<char>>, r: Seq<Seq<char>>) -> bool {
    &&& sorted_strictly(r)
    &&& r.len() <= 5
    &&& forall|i: int| 0 <= i < r.len() ==> pool.contains(#[trigger] r[i])
    &&& forall|c: Seq<char>|
        #![trigger pool.contains(c)]
        pool.contains(c) && !r.contains(c) ==> r.len() == 5 && forall|i: int|
            0 <= i < r.len() ==> lex_lt(#[trigger] r[i], c)
}

fn first_five_sorted(v: Vec<String>) -> (r: Vec<String>)
    ensures
        smallest_five(views(v@), views(r@)),
{
    let ghost pool = views(v@);
    let mut sorted = sorted_set_of(v);
    let ghost full = views(sorted@);
    if sorted.len() > 5 {
        sorted.truncate(5);
    }
    proof {
        assert(views(sorted@) =~= full.take(sorted@.len() as int));
        assert forall|i: int| 0 <= i < sorted@.len() implies pool.contains(#[trigger] views(sorted@)[i]) by {
            assert(full.to_set().contains(full[i]));
            assert(pool.to_set().contains(full[i]));
        }
        assert forall|c: Seq<char>| #![trigger pool.contains(c)] pool.contains(c) && !views(sorted@).contains(c) implies sorted@.len()
            == 5 && forall|i: int| 0 <= i < sorted@.len() ==> lex_lt(#[trigger] views(sorted@)[i], c) by {
            assert(pool.to_set().contains(c));
            assert(full.to_set().contains(c));
            let p = choose|p: int| 0 <= p < full.len() && full[p] == c;
            if p < sorted@.len() {
                assert(views(sorted@)[p] == c);
            }
            assert forall|i: int| 0 <= i < sorted@.len() implies lex_lt(#[trigger] views(sorted@)[i], c) by {
                assert(views(sorted@)[i] == full[i]);
            }
        }
    }
    sorted
}

/// Suggestions for an unknown command among the built-in commands and the
/// plugins: the smallest (at most five), in order and without repeats, of
/// the commands within edit distance two, or, when none is, of those with
/// the same initial. The unknown command and the plugin names must be ASCII
/// (or empty) for the distance to be taken.
pub fn suggest_similar_commands(unknown_command: &str, available_plugins: &Vec<String>) -> (r: Vec<String>)
    requires
        unknown_command@.len() == 0 || (vstd::utf8::is_ascii_chars(unknown_command@) && forall|i: int|
            0 <= i < available_plugins@.len() ==> #[trigger] ascii_or_empty(available_plugins@[i]@)),
    ensures
        smallest_five(
            suggestion_pool(unknown_command@, builtin_commands() + views(available_plugins@)),
            views(r@),
        ),
{
    let all = all_commands(available_plugins);
    let ghost cmds = views(all@);
    proof {
        lemma_builtins_ascii();
        if unknown_command@.len() > 0 {
            assert forall|k: int| 0 <= k < all@.len() implies #[trigger] ascii_or_empty(all@[k]@) by {
                assert(all@[k]@ == cmds[k]);
                assert(cmds.len() == 14 + available_plugins@.len());
                if k >= 14 {
                    assert(cmds[k] == views(available_plugins@)[k - 14]);
                    assert(ascii_or_empty(available_plugins@[k - 14]@));
                } else {
                    assert(cmds[k] == builtin_commands()[k]);
                }
            }
        }
    }
    let close = close_matches_exec(unknown_command, &all);
    let suggestions = if close.len() > 0 {
        close
    } else {
        same_initial_exec(unknown_command, &all)
    };
    first_five_sorted(suggestions)
}

/// A file found in a directory on the search path.
#[derive(Debug, Clone)]
pub struct PluginDirEntry {
    /// The file's name.
    pub file_name: String,
    /// The file's path.
    pub path: String,
    /// Whether the file is an executable regular file.
    pub executable: bool,
}

/// The plugin a file name stands for: the text after a leading `twig-`.
pub open spec fn plugin_name_of(file_name: Seq<char>) -> Option<Seq<char>> {
    if starts_with(file_name, seq!['t', 'w', 'i', 'g', '-']) {
        Some(file_name.subrange(5, file_name.len() as int))
    } else {
        None
    }
}

/// The plugin an entry provides: executables named `twig-<name>` only.
pub open spec fn entry_plugin(e: PluginDirEntry) -> Option<Seq<char>> {
    if e.executable {
        plugin_name_of(e.file_name@)
    } else {
        None
    }
}

/// The names of the plugins the entries provide.
pub open spec fn plugin_names(es: Seq<PluginDirEntry>) -> Set<Seq<char>> {
    Set::new(|n: Seq<char>| exists|i: int| 0 <= i < es.len() && entry_plugin(es[i]) == Some(n))
}

/// The paths of a plugin, in search-path order, each once.
pub open spec fn plugin_paths(es: Seq<PluginDirEntry>, name: Seq<char>) -> Seq<Seq<char>>
    decreases es.len(),
{
    if es.len() == 0 {
        seq![]
    } else {
        let rest = plugin_paths(es.drop_last(), name);
        if entry_plugin(es.last()) == Some(name) && !rest.contains(es.last().path@) {
            rest.push(es.last().path@)
        } else {
            rest
        }
    }
}

/// The plugin an entry provides.
fn entry_plugin_exec(e: &PluginDirEntry) -> (r: Option<String>)
    ensures
        match r {
            Some(n) => entry_plugin(*e) == Some(n@),
            None => entry_plugin(*e) is None,
        },
{
    if !e.executable {
        return None;
    }
    let cs = chars_of(e.file_name.as_str());
    let prefix = ['t', 'w', 'i', 'g', '-'];
    assert(prefix@ =~= seq!['t', 'w', 'i', 'g', '-']);
    if starts_with_exec(cs.as_slice(), prefix.as_slice()) {
        Some(string_of_range(cs.as_slice(), 5, cs.len()))
    } else {
        None
    }
}

/// The plugins the entries of the search path's directories provide (the
/// entries in search-path order): one per name, in name order, each with
/// its paths in search-path order and without repeats. Sizes are left for
/// the caller to read.
pub fn list_available_plugins_from_entries(entries: &Vec<PluginDirEntry>) -> (r: Vec<PluginInfo>)
    ensures
        sorted_strictly(r@.map_values(|p: PluginInfo| p.name@)),
        r@.map_values(|p: PluginInfo| p.name@).to_set() == plugin_names(entries@),
        forall|i: int|
            0 <= i < r@.len() ==> views((#[trigger] r@[i]).paths@) == plugin_paths(entries@, r@[i].name@)
                && r@[i].size_in_bytes is None,
{
    let ghost es = entries@;
    let mut raw: Vec<String> = Vec::new();
    let mut i: usize = 0;
    while i < entries.len()
        invariant
            i <= entries.len(),
            es == entries@,
            forall|k: int|
                0 <= k < raw@.len() ==> exists|j: int| 0 <= j < i && entry_plugin(es[j]) == Some(#[trigger] raw@[k]@),
            forall|j: int| 0 <= j < i && (#[trigger] entry_plugin(es[j])) is Some ==> views(raw@).contains(entry_plugin(es[j])->0),
        decreases entries.len() - i,
    {
        match entry_plugin_exec(&entries[i]) {
            Some(n) => {
                let ghost before = raw@;
                raw.push(n);
                proof {
                    assert(views(raw@) == views(before).push(raw@[before.len() as int]@));
                    assert forall|j: int| 0 <= j < i + 1 && (#[trigger] entry_plugin(es[j])) is Some implies views(raw@).contains(
                        entry_plugin(es[j])->0,
                    ) by {
                        if j < i {
                            let k = choose|k: int| 0 <= k < views(before).len() && views(before)[k] == entry_plugin(es[j])->0;
                            assert(views(raw@)[k] == entry_plugin(es[j])->0);
                        } else {
                            assert(views(raw@)[before.len() as int] == entry_plugin(es[j])->0);
                        }
                    }
                }
            },
            None => {},
        }
        i = i + 1;
    }
    proof {
        assert forall|n: Seq<char>| views(raw@).to_set().contains(n) <==> plugin_names(es).contains(n) by {
            if views(raw@).to_set().contains(n) {
                let k = choose|k: int| 0 <= k < views(raw@).len() && views(raw@)[k] == n;
                assert(raw@[k]@ == n);
            }
            if plugin_names(es).contains(n) {
                let j = choose|j: int| 0 <= j < es.len() && entry_plugin(es[j]) == Some(n);
                assert(entry_plugin(es[j]) is Some);
            }
        }
        assert(views(raw@).to_set() =~= plugin_names(es));
    }
    let names = sorted_set_of(raw);
    let mut out: Vec<PluginInfo> = Vec::new();
    let mut m: usize = 0;
    while m < names.len()
        invariant
            m <= names.len(),
            es == entries@,
            out@.len() == m,
            forall|k: int| 0 <= k < m ==> (#[trigger] out@[k]).name@ == names@[k]@,
            forall|k: int|
                0 <= k < m ==> views((#[trigger] out@[k]).paths@) == plugin_paths(es, out@[k].name@)
                    && out@[k].size_in_bytes is None,
        decreases names.len() - m,
    {
        let name = &names[m];
        let mut paths: Vec<String> = Vec::new();
        let mut j: usize = 0;
        while j < entries.len()
            invariant
                j <= entries.len(),
                es == entries@,
                views(paths@) == plugin_paths(es.take(j as int), name@),
            decreases entries.len() - j,
        {
            assert(es.take(j + 1).drop_last() =~= es.take(j as int));
            match entry_plugin_exec(&entries[j]) {
                Some(n) => {
                    if str_eq(n.as_str(), name.as_str()) && !contains_path(&paths, &entries[j].path) {
                        let ghost before = paths@;
                        paths.push(entries[j].path.clone());
                        assert(views(paths@) =~= views(before).push(es[j as int].path@));
                    }
                },
                None => {},
            }
            j = j + 1;
        }
        assert(es.take(entries.len() as int) =~= es);
        out.push(PluginInfo { name: name.clone(), paths, size_in_bytes: None });
        m = m + 1;
    }
    proof {
        assert(out@.map_values(|p: PluginInfo| p.name@) =~= views(names@));
    }
    out
}

/// Whether a path is among the strings.
fn contains_path(v: &Vec<String>, p: &String) -> (b: bool)
    ensures
        b == views(v@).contains(p@),
{
    let mut i: usize = 0;
    while i < v.len()
        invariant
            i <= v.len(),
            forall|k: int| 0 <= k < i ==> v@[k]@ != p@,
        decreases v.len() - i,
    {
        if str_eq(v[i].as_str(), p.as_str()) {
            assert(views(v@)[i as int] == p@);
            return true;
        }
        i = i + 1;
    }
    proof {
        if views(v@).contains(p@) {
            let k = choose|k: int| 0 <= k < views(v@).len() && views(v@)[k] == p@;
            assert(v@[k]@ == p@);
        }
    }
    false
}

} // verus!

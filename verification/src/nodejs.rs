//! Node.js projects: which package manager a project uses, and the ignore
//! patterns added to a Node.js repository's `.gitignore`.
use vstd::prelude::*;

use crate::strs::{chars_of, contains, contains_exec, ends_with, push_char, push_str, str_eq};

verus! {

/// Node.js package manager types.
#[derive(Debug, Clone, Copy, PartialEq, Eq, Structural)]
pub enum PackageManager {
    Npm,
    Yarn,
    Pnpm,
}

/// Which of the files that tell package managers apart a project holds.
#[derive(Debug, Clone, Copy, Default)]
pub struct ProjectFiles {
    pub pnpm_lock: bool,
    pub yarn_lock: bool,
    pub npm_lock: bool,
    pub pnpmfile: bool,
    pub pnpm_workspace: bool,
    pub yarnrc: bool,
    pub yarnrc_yml: bool,
    pub package_json: bool,
}

/// Node.js project detection and tooling integration.
pub struct NodeJsTooling;

/// A parsed `package.json`; maps are kept as (key, value) lists in the
/// order read, and `package_type` holds the `type` field.
#[derive(Debug, Clone)]
pub struct PackageJson {
    pub name: Option<String>,
    pub version: Option<String>,
    pub description: Option<String>,
    pub scripts: Option<Vec<(String, String)>>,
    pub dependencies: Option<Vec<(String, String)>>,
    pub dev_dependencies: Option<Vec<(String, String)>>,
    pub engines: Option<Vec<(String, String)>>,
    pub main: Option<String>,
    pub package_type: Option<String>,
}

/// The table with `name` set to `command`: the entry with that name given
/// the new command in place, or a new entry at the end.
pub open spec fn table_put(t: Seq<(Seq<char>, Seq<char>)>, name: Seq<char>, command: Seq<char>) -> Seq<
    (Seq<char>, Seq<char>),
> {
    if exists|i: int| 0 <= i < t.len() && t[i].0 == name {
        t.map_values(|p: (Seq<char>, Seq<char>)| if p.0 == name { (name, command) } else { p })
    } else {
        t.push((name, command))
    }
}

/// The scripts as a table: each name once, in the order first declared,
/// with the command declared last for it (a JSON object's later key wins).
pub open spec fn script_table(s: Seq<(Seq<char>, Seq<char>)>) -> Seq<(Seq<char>, Seq<char>)>
    decreases s.len(),
{
    if s.len() == 0 {
        seq![]
    } else {
        table_put(script_table(s.drop_last()), s.last().0, s.last().1)
    }
}

/// No name occurs twice.
pub open spec fn names_distinct(t: Seq<(Seq<char>, Seq<char>)>) -> bool {
    forall|i: int, j: int| 0 <= i < j < t.len() ==> t[i].0 != t[j].0
}

/// The views of a list of (name, command) pairs.
pub open spec fn pair_views(v: Seq<(String, String)>) -> Seq<(Seq<char>, Seq<char>)> {
    v.map_values(|p: (String, String)| (p.0@, p.1@))
}

/// The package manager the files point to: lock files first (pnpm, yarn,
/// npm), then pnpm's and yarn's own configuration, then npm for any project
/// with a `package.json`.
pub open spec fn package_manager_spec(f: ProjectFiles) -> Option<PackageManager> {
    if f.pnpm_lock {
        Some(PackageManager::Pnpm)
    } else if f.yarn_lock {
        Some(PackageManager::Yarn)
    } else if f.npm_lock {
        Some(PackageManager::Npm)
    } else if f.pnpmfile || f.pnpm_workspace {
        Some(PackageManager::Pnpm)
    } else if f.yarnrc || f.yarnrc_yml {
        Some(PackageManager::Yarn)
    } else if f.package_json {
        Some(PackageManager::Npm)
    } else {
        None
    }
}

/// The ignore patterns for Node.js projects, in order.
pub open spec fn nodejs_patterns() -> Seq<&'static str> {
    seq![
        "# Node.js dependencies",
        "node_modules/",
        "",
        "# Build outputs",
        "dist/",
        "build/",
        ".next/",
        ".nuxt/",
        ".output/",
        "out/",
        "",
        "# Package manager files",
        "npm-debug.log*",
        "yarn-debug.log*",
        "yarn-error.log*",
        "lerna-debug.log*",
        ".pnpm-debug.log*",
        "",
        "# Environment files",
        ".env",
        ".env.local",
        ".env.development.local",
        ".env.test.local",
        ".env.production.local",
        "",
        "# Cache directories",
        ".npm",
        ".yarn/cache",
        ".yarn/unplugged",
        ".yarn/build-state.yml",
        ".yarn/install-state.gz",
        ".pnp.*",
        "",
        "# Coverage directory used by tools like istanbul",
        "coverage/",
        "*.lcov",
        "",
        "# Editor directories and files",
        ".vscode/",
        ".idea/",
        "*.suo",
        "*.ntvs*",
        "*.njsproj",
        "*.sln",
        "*.sw?",
        "",
        "# OS generated files",
        ".DS_Store",
        ".DS_Store?",
        "._*",
        ".Spotlight-V100",
        ".Trashes",
        "ehthumbs.db",
        "Thumbs.db",
    ]
}

/// Each pattern followed by a line break.
pub open spec fn patterns_block(p: Seq<&'static str>) -> Seq<char>
    decreases p.len(),
{
    if p.len() == 0 {
        seq![]
    } else {
        patterns_block(p.drop_last()) + p.last()@ + seq!['\n']
    }
}

/// The `.gitignore` content with the Node.js patterns appended, or `None`
/// when the patterns are already there (`node_modules/` or the Node.js
/// heading occurs). Existing content is closed with a line break and
/// separated from the patterns by an empty line.
pub open spec fn enhanced_gitignore(existing: Seq<char>) -> Option<Seq<char>> {
    let heading = "# Node.js dependencies"@;
    let modules = "node_modules/"@;
    if contains(existing, modules) || contains(existing, heading) {
        None
    } else {
        let closed = if existing.len() > 0 && !ends_with(existing, seq!['\n']) {
            existing.push('\n')
        } else {
            existing
        };
        let separated = if existing.len() > 0 {
            closed.push('\n')
        } else {
            closed
        };
        Some(separated + patterns_block(nodejs_patterns()))
    }
}

impl NodeJsTooling {
    /// Decide which package manager a project uses from the files it holds.
    /// Whether the project is a Node.js one: it has a `package.json`.
    pub fn detect_project(files: &ProjectFiles) -> (b: bool)
        ensures
            b == files.package_json,
    {
        files.package_json
    }

    /// The scripts a `package.json` declares, as (name, command) pairs, each
    /// name once (see `script_table`); none when it declares no `scripts`.
    pub fn get_available_scripts(package_json: &PackageJson) -> (r: Vec<(String, String)>)
        ensures
            names_distinct(pair_views(r@)),
            match package_json.scripts {
                Some(s) => pair_views(r@) == script_table(pair_views(s@)),
                None => r@.len() == 0,
            },
    {
        let mut r: Vec<(String, String)> = Vec::new();
        match &package_json.scripts {
            Some(scripts) => {
                let ghost sv = pair_views(scripts@);
                let mut i: usize = 0;
                while i < scripts.len()
                    invariant
                        i <= scripts.len(),
                        sv == pair_views(scripts@),
                        pair_views(r@) == script_table(sv.take(i as int)),
                        names_distinct(pair_views(r@)),
                    decreases scripts.len() - i,
                {
                    assert(sv.take(i + 1).drop_last() =~= sv.take(i as int));
                    assert(sv.take(i + 1).last() == (scripts@[i as int].0@, scripts@[i as int].1@));
                    let ghost t = pair_views(r@);
                    let ghost name = scripts@[i as int].0@;
                    let ghost command = scripts@[i as int].1@;
                    let mut j: usize = 0;
                    while j < r.len() && !str_eq(r[j].0.as_str(), scripts[i].0.as_str())
                        invariant
                            j <= r.len(),
                            t == pair_views(r@),
                            name == scripts@[i as int].0@,
                            i < scripts.len(),
                            forall|k: int| 0 <= k < j ==> t[k].0 != name,
                        decreases r.len() - j,
                    {
                        j = j + 1;
                    }
                    if j < r.len() {
                        r.set(j, (scripts[i].0.clone(), scripts[i].1.clone()));
                        proof {
                            assert(t[j as int].0 == name);
                            assert(pair_views(r@) =~= table_put(t, name, command));
                        }
                    } else {
                        r.push((scripts[i].0.clone(), scripts[i].1.clone()));
                        proof {
                            assert(!(exists|k: int| 0 <= k < t.len() && t[k].0 == name));
                            assert(pair_views(r@) =~= t.push((name, command)));
                        }
                    }
                    i = i + 1;
                }
                assert(sv.take(scripts.len() as int) =~= sv);
            },
            None => {},
        }
        r
    }

    pub fn detect_package_manager(files: &ProjectFiles) -> (r: Option<PackageManager>)
        ensures
            r == package_manager_spec(*files),
    {
        if files.pnpm_lock {
            return Some(PackageManager::Pnpm);
        }
        if files.yarn_lock {
            return Some(PackageManager::Yarn);
        }
        if files.npm_lock {
            return Some(PackageManager::Npm);
        }
        if files.pnpmfile || files.pnpm_workspace {
            return Some(PackageManager::Pnpm);
        }
        if files.yarnrc || files.yarnrc_yml {
            return Some(PackageManager::Yarn);
        }
        if files.package_json {
            Some(PackageManager::Npm)
        } else {
            None
        }
    }

    /// Get Node.js specific gitignore patterns.
    pub fn get_nodejs_gitignore_patterns() -> (r: Vec<&'static str>)
        ensures
            r@ == nodejs_patterns(),
    {
        let v = vec![
            "# Node.js dependencies",
            "node_modules/",
            "",
            "# Build outputs",
            "dist/",
            "build/",
            ".next/",
            ".nuxt/",
            ".output/",
            "out/",
            "",
            "# Package manager files",
            "npm-debug.log*",
            "yarn-debug.log*",
            "yarn-error.log*",
            "lerna-debug.log*",
            ".pnpm-debug.log*",
            "",
            "# Environment files",
            ".env",
            ".env.local",
            ".env.development.local",
            ".env.test.local",
            ".env.production.local",
            "",
            "# Cache directories",
            ".npm",
            ".yarn/cache",
            ".yarn/unplugged",
            ".yarn/build-state.yml",
            ".yarn/install-state.gz",
            ".pnp.*",
            "",
            "# Coverage directory used by tools like istanbul",
            "coverage/",
            "*.lcov",
            "",
            "# Editor directories and files",
            ".vscode/",
            ".idea/",
            "*.suo",
            "*.ntvs*",
            "*.njsproj",
            "*.sln",
            "*.sw?",
            "",
            "# OS generated files",
            ".DS_Store",
            ".DS_Store?",
            "._*",
            ".Spotlight-V100",
            ".Trashes",
            "ehthumbs.db",
            "Thumbs.db",
        ];
        assert(v@ =~= nodejs_patterns());
        v
    }

    /// The `.gitignore` content of a Node.js project with the Node.js
    /// patterns added, or `None` when they are already present.
    pub fn enhance_gitignore_content(existing: &str) -> (r: Option<String>)
        ensures
            match enhanced_gitignore(existing@) {
                Some(t) => r is Some && r->0@ == t,
                None => r is None,
            },
    {
        let text = chars_of(existing);
        let heading = "# Node.js dependencies";
        let modules = "node_modules/";
        let h = chars_of(heading);
        let m = chars_of(modules);
        if contains_exec(text.as_slice(), m.as_slice()) || contains_exec(text.as_slice(), h.as_slice()) {
            return None;
        }
        let mut out = existing.to_owned();
        let n = text.len();
        if n > 0 && text[n - 1] != '\n' {
            push_char(&mut out, '\n');
        }
        proof {
            if n > 0 {
                let sub = existing@.subrange(n - 1, n as int);
                assert(sub[0] == existing@[n - 1]);
                if existing@[n - 1] == '\n' {
                    assert(sub =~= seq!['\n']);
                }
                assert(ends_with(existing@, seq!['\n']) == (existing@[n - 1] == '\n'));
            }
        }
        if n > 0 {
            push_char(&mut out, '\n');
        }
        let patterns = Self::get_nodejs_gitignore_patterns();
        let ghost head = out@;
        let mut i: usize = 0;
        assert(head + patterns_block(patterns@.take(0)) =~= head);
        while i < patterns.len()
            invariant
                i <= patterns.len(),
                patterns@ == nodejs_patterns(),
                out@ == head + patterns_block(patterns@.take(i as int)),
            decreases patterns.len() - i,
        {
            assert(patterns@.take(i + 1).drop_last() =~= patterns@.take(i as int));
            push_str(&mut out, patterns[i]);
            push_char(&mut out, '\n');
            i = i + 1;
            assert(out@ =~= head + patterns_block(patterns@.take(i as int)));
        }
        assert(patterns@.take(patterns.len() as int) =~= patterns@);
        Some(out)
    }
}

} // verus!

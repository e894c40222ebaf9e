//! The context a plugin runs in: Twig's directories, the repository and
//! branch, and the preferences handed down through the environment.
use vstd::prelude::*;

use crate::output::ColorMode;
use crate::strs::{chars_of, ends_with, lower_chars, lower_seq, parse_u32, parse_u32_spec, push_str, starts_with};

verus! {

/// Twig's configuration, data and cache directories.
#[derive(Debug, Clone)]
pub struct ConfigDirs {
    pub config_dir: String,
    pub data_dir: String,
    pub cache_dir: Option<String>,
}

/// Resolved context for a plugin invocation.
#[derive(Debug, Clone)]
pub struct PluginContext {
    /// Twig configuration, data, and cache directories.
    pub config_dirs: ConfigDirs,
    /// Repository path provided by Twig or discovered from the current directory.
    pub current_repo: Option<String>,
    /// Current branch provided by Twig or inferred from the repository.
    pub current_branch: Option<String>,
    /// Color preference propagated from Twig when available.
    pub colors: ColorMode,
    /// Verbosity level propagated from Twig when available.
    pub verbosity: u8,
    /// Version of the Twig binary that invoked the plugin, if known.
    pub version: Option<String>,
}

/// `part` joined onto the path `base`: an absolute `part` replaces it, and
/// one separator stands between the two.
pub open spec fn join_path(base: Seq<char>, part: Seq<char>) -> Seq<char> {
    if starts_with(part, seq!['/']) || base.len() == 0 {
        part
    } else if ends_with(base, seq!['/']) {
        base + part
    } else {
        base + seq!['/'] + part
    }
}

/// `<dir>/plugins/<plugin name>`.
pub open spec fn plugin_dir_spec(dir: Seq<char>, plugin_name: Seq<char>) -> Seq<char> {
    join_path(join_path(dir, seq!['p', 'l', 'u', 'g', 'i', 'n', 's']), plugin_name)
}

/// Joins `part` onto the path `base`.
pub fn join_path_exec(base: &str, part: &str) -> (r: String)
    ensures
        r@ == join_path(base@, part@),
{
    let b = chars_of(base);
    let p = chars_of(part);
    let absolute = p.len() > 0 && p[0] == '/';
    proof {
        if part@.len() > 0 {
            assert(part@.subrange(0, 1) =~= seq![part@[0]]);
            if part@[0] != '/' {
                assert(seq![part@[0]][0] != seq!['/'][0]);
            }
        }
    }
    assert(absolute == starts_with(part@, seq!['/']));
    if absolute || b.len() == 0 {
        return part.to_owned();
    }
    let mut r = base.to_owned();
    if b[b.len() - 1] == '/' {
        assert(base@.subrange(base@.len() - 1, base@.len() as int) =~= seq!['/']);
    } else {
        assert(!ends_with(base@, seq!['/'])) by {
            assert(base@.subrange(base@.len() - 1, base@.len() as int) =~= seq![b@[b@.len() - 1]]);
            assert(seq![b@[b@.len() - 1]][0] != seq!['/'][0]);
        }
        crate::strs::push_char(&mut r, '/');
    }
    push_str(&mut r, part);
    proof {
        assert(r@ =~= join_path(base@, part@));
    }
    r
}

/// The directory of a plugin below `dir`.
fn plugin_dir(dir: &str, plugin_name: &str) -> (r: String)
    ensures
        r@ == plugin_dir_spec(dir@, plugin_name@),
{
    let plugins = "plugins";
    proof {
        reveal_strlit("plugins");
    }
    assert(plugins@ =~= seq!['p', 'l', 'u', 'g', 'i', 'n', 's']);
    let d = join_path_exec(dir, plugins);
    join_path_exec(d.as_str(), plugin_name)
}

/// The colour preference named by `TWIG_COLORS`: `yes` or `no` in any
/// ASCII case, anything else (or nothing) meaning auto.
pub open spec fn colors_from_env_spec(value: Option<Seq<char>>) -> ColorMode {
    match value {
        Some(v) => if lower_seq(v) == seq!['y', 'e', 's'] {
            ColorMode::Yes
        } else if lower_seq(v) == seq!['n', 'o'] {
            ColorMode::No
        } else {
            ColorMode::Auto
        },
        None => ColorMode::Auto,
    }
}

/// The verbosity named by `TWIG_VERBOSITY`: a number that fits a byte, else 0.
pub open spec fn verbosity_from_env_spec(value: Option<Seq<char>>) -> u8 {
    match value {
        Some(v) => match parse_u32_spec(v) {
            Some(n) => if n <= 255 {
                n as u8
            } else {
                0
            },
            None => 0,
        },
        None => 0,
    }
}

/// A view of an optional string.
pub open spec fn opt_view(o: Option<String>) -> Option<Seq<char>> {
    match o {
        Some(s) => Some(s@),
        None => None,
    }
}

/// The branch a plugin works on: the one Twig named when it named one,
/// else the repository's current branch.
pub open spec fn branch_choice(from_env: Option<Seq<char>>, from_repo: Option<Seq<char>>) -> Option<Seq<char>> {
    match from_env {
        Some(b) => if b.len() > 0 {
            Some(b)
        } else {
            from_repo
        },
        None => from_repo,
    }
}

/// The colour preference named by the value of `TWIG_COLORS`.
pub fn colors_from_env(value: Option<&str>) -> (m: ColorMode)
    ensures
        m == colors_from_env_spec(match value {
            Some(v) => Some(v@),
            None => None,
        }),
{
    match value {
        Some(v) => {
            let lower = lower_chars(chars_of(v).as_slice());
            if lower.len() == 3 && lower[0] == 'y' && lower[1] == 'e' && lower[2] == 's' {
                assert(lower@ =~= seq!['y', 'e', 's']);
                ColorMode::Yes
            } else if lower.len() == 2 && lower[0] == 'n' && lower[1] == 'o' {
                assert(lower@ =~= seq!['n', 'o']);
                ColorMode::No
            } else {
                ColorMode::Auto
            }
        },
        None => ColorMode::Auto,
    }
}

/// The verbosity named by the value of `TWIG_VERBOSITY`.
pub fn verbosity_from_env(value: Option<&str>) -> (n: u8)
    ensures
        n == verbosity_from_env_spec(match value {
            Some(v) => Some(v@),
            None => None,
        }),
{
    match value {
        Some(v) => {
            let cs = chars_of(v);
            match parse_u32(cs.as_slice()) {
                Some(n) => if n <= 255 {
                    n as u8
                } else {
                    0
                },
                None => 0,
            }
        },
        None => 0,
    }
}

impl ConfigDirs {
    /// The directories, with the configuration and data directories
    /// replaced by the ones the environment names.
    pub fn with_overrides(defaults: ConfigDirs, config_dir: Option<String>, data_dir: Option<String>) -> (r: ConfigDirs)
        ensures
            r.config_dir@ == match config_dir {
                Some(c) => c@,
                None => defaults.config_dir@,
            },
            r.data_dir@ == match data_dir {
                Some(d) => d@,
                None => defaults.data_dir@,
            },
            opt_view(r.cache_dir) == opt_view(defaults.cache_dir),
    {
        ConfigDirs {
            config_dir: match config_dir {
                Some(c) => c,
                None => defaults.config_dir,
            },
            data_dir: match data_dir {
                Some(d) => d,
                None => defaults.data_dir,
            },
            cache_dir: defaults.cache_dir,
        }
    }
}

impl PluginContext {
    /// The context from what Twig handed down: the directories, the
    /// repository, `TWIG_CURRENT_BRANCH` (or else the branch checked out in
    /// the repository), `TWIG_COLORS`, `TWIG_VERBOSITY` and `TWIG_VERSION`.
    pub fn from_environment(
        config_dirs: ConfigDirs,
        current_repo: Option<String>,
        env_branch: Option<String>,
        repo_branch: Option<String>,
        colors: Option<String>,
        verbosity: Option<String>,
        version: Option<String>,
    ) -> (r: PluginContext)
        ensures
            r.config_dirs == config_dirs,
            r.current_repo == current_repo,
            opt_view(r.current_branch) == branch_choice(opt_view(env_branch), opt_view(repo_branch)),
            r.colors == colors_from_env_spec(opt_view(colors)),
            r.verbosity == verbosity_from_env_spec(opt_view(verbosity)),
            r.version == version,
    {
        let current_branch = match env_branch {
            Some(b) => if chars_of(b.as_str()).len() > 0 {
                Some(b)
            } else {
                repo_branch
            },
            None => repo_branch,
        };
        let colors_mode = match &colors {
            Some(c) => colors_from_env(Some(c.as_str())),
            None => colors_from_env(None),
        };
        let level = match &verbosity {
            Some(v) => verbosity_from_env(Some(v.as_str())),
            None => verbosity_from_env(None),
        };
        PluginContext { config_dirs, current_repo, current_branch, colors: colors_mode, verbosity: level, version }
    }

    /// The plugin's configuration directory: `<config>/plugins/<name>`.
    pub fn plugin_config_dir(&self, plugin_name: &str) -> (r: String)
        ensures
            r@ == plugin_dir_spec(self.config_dirs.config_dir@, plugin_name@),
    {
        plugin_dir(self.config_dirs.config_dir.as_str(), plugin_name)
    }

    /// The plugin's data directory: `<data>/plugins/<name>`.
    pub fn plugin_data_dir(&self, plugin_name: &str) -> (r: String)
        ensures
            r@ == plugin_dir_spec(self.config_dirs.data_dir@, plugin_name@),
    {
        plugin_dir(self.config_dirs.data_dir.as_str(), plugin_name)
    }
}

/// A plugin's configuration directory below the (environment-resolved)
/// directories.
pub fn plugin_config_dir(config_dirs: &ConfigDirs, plugin_name: &str) -> (r: String)
    ensures
        r@ == plugin_dir_spec(config_dirs.config_dir@, plugin_name@),
{
    plugin_dir(config_dirs.config_dir.as_str(), plugin_name)
}

/// A plugin's data directory below the (environment-resolved) directories.
pub fn plugin_data_dir(config_dirs: &ConfigDirs, plugin_name: &str) -> (r: String)
    ensures
        r@ == plugin_dir_spec(config_dirs.data_dir@, plugin_name@),
{
    plugin_dir(config_dirs.data_dir.as_str(), plugin_name)
}

} // verus!

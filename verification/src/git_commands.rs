//! What the commands make of `git`'s output: the text shown for a run and
//! the remote configured for a branch.
use vstd::prelude::*;

use crate::strs::{chars_of, push_char, push_str, string_of, trim, trim_chars};

verus! {

/// Output from a git command, including both the combined stdout/stderr text
/// and whether the process exited successfully (exit code 0).
#[derive(Debug, Clone)]
pub struct GitCommandOutput {
    /// Combined stdout and stderr text.
    pub output: String,
    /// Whether the command exited with status code 0.
    pub success: bool,
}

/// Standard output, then standard error on a line of its own when both
/// hold text.
pub open spec fn combined_output(stdout: Seq<char>, stderr: Seq<char>) -> Seq<char> {
    if stderr.len() == 0 {
        stdout
    } else if stdout.len() == 0 {
        stderr
    } else {
        stdout + seq!['\n'] + stderr
    }
}

impl GitCommandOutput {
    /// The output of a finished run, from its two streams (already decoded)
    /// and whether it exited with status 0.
    pub fn from_streams(stdout: &str, stderr: &str, success: bool) -> (r: Self)
        ensures
            r.output@ == combined_output(stdout@, stderr@),
            r.success == success,
    {
        let out_len = chars_of(stdout).len();
        let err_len = chars_of(stderr).len();
        let mut combined = String::new();
        if out_len > 0 {
            push_str(&mut combined, stdout);
        }
        if err_len > 0 {
            if out_len > 0 {
                push_char(&mut combined, '\n');
            }
            push_str(&mut combined, stderr);
        }
        proof {
            assert(combined@ =~= combined_output(stdout@, stderr@));
        }
        GitCommandOutput { output: combined, success }
    }
}

/// The configuration key that names a branch's upstream remote.
pub open spec fn branch_remote_key_spec(branch: Seq<char>) -> Seq<char> {
    seq!['b', 'r', 'a', 'n', 'c', 'h', '.'] + branch + seq!['.', 'r', 'e', 'm', 'o', 't', 'e']
}

/// `branch.<name>.remote`.
pub fn branch_remote_key(branch: &str) -> (r: String)
    ensures
        r@ == branch_remote_key_spec(branch@),
{
    let mut r = "branch.".to_owned();
    let suffix = ".remote";
    proof {
        reveal_strlit("branch.");
        reveal_strlit(".remote");
    }
    push_str(&mut r, branch);
    push_str(&mut r, suffix);
    proof {
        assert(r@ =~= branch_remote_key_spec(branch@));
    }
    r
}

/// The remote that `git config branch.<name>.remote` printed: its output,
/// trimmed, when the command succeeded and printed something.
pub open spec fn configured_remote(success: bool, stdout: Seq<char>) -> Option<Seq<char>> {
    if success && trim(stdout).len() > 0 {
        Some(trim(stdout))
    } else {
        None
    }
}

/// The remote configured for a branch, from the run of
/// `git config branch.<name>.remote`; none when no remote is configured.
pub fn resolve_branch_remote(success: bool, stdout: &str) -> (r: Option<String>)
    ensures
        match r {
            Some(s) => configured_remote(success, stdout@) == Some(s@),
            None => configured_remote(success, stdout@) is None,
        },
{
    if !success {
        return None;
    }
    let cs = chars_of(stdout);
    let t = trim_chars(cs.as_slice());
    if t.len() == 0 {
        None
    } else {
        Some(string_of(t.as_slice()))
    }
}

} // verus!

//! Terminal colouring of user-facing values.
//!
//! The colouring itself is done by `owo-colors`; each trusted wrapper below
//! makes one of its calls and states the escape sequence the crate writes
//! around the text. The decisions of which colour goes with which value are
//! this module's own and are proved.
use owo_colors::OwoColorize;
use vstd::prelude::*;

use crate::strs::str_eq;

verus! {

/// How coloured output is chosen.
#[derive(Debug, Clone, Copy, PartialEq, Eq, Structural)]
pub enum ColorMode {
    /// Enable colored output
    Yes,
    /// Enable colored output (alias for Yes)
    Always,
    /// Decide from the terminal's capabilities
    Auto,
    /// Disable colored output
    No,
    /// Disable colored output (alias for No)
    Never,
}

/// The ANSI "select graphic rendition" sequence `ESC [ code m`.
pub open spec fn sgr(code: Seq<char>) -> Seq<char> {
    seq!['\u{1b}', '['] + code + seq!['m']
}

/// `s` in the foreground colour `code`, followed by the reset to the default
/// foreground colour.
pub open spec fn fg(code: Seq<char>, s: Seq<char>) -> Seq<char> {
    sgr(code) + s + sgr(seq!['3', '9'])
}

/// `s` in bold, followed by the reset of all attributes.
pub open spec fn bold(s: Seq<char>) -> Seq<char> {
    sgr(seq!['1']) + s + sgr(seq!['0'])
}

pub open spec fn green_code() -> Seq<char> { seq!['3', '2'] }
pub open spec fn red_code() -> Seq<char> { seq!['3', '1'] }
pub open spec fn yellow_code() -> Seq<char> { seq!['3', '3'] }
pub open spec fn blue_code() -> Seq<char> { seq!['3', '4'] }
pub open spec fn magenta_code() -> Seq<char> { seq!['3', '5'] }
pub open spec fn bright_black_code() -> Seq<char> { seq!['9', '0'] }
pub open spec fn bright_green_code() -> Seq<char> { seq!['9', '2'] }
pub open spec fn bright_cyan_code() -> Seq<char> { seq!['9', '6'] }
pub open spec fn cyan_code() -> Seq<char> { seq!['3', '6'] }

/// `s` in italics, followed by the reset of all attributes.
pub open spec fn italic(s: Seq<char>) -> Seq<char> {
    sgr(seq!['3']) + s + sgr(seq!['0'])
}

/// `s` dimmed, followed by the reset of all attributes.
pub open spec fn dimmed(s: Seq<char>) -> Seq<char> {
    sgr(seq!['2']) + s + sgr(seq!['0'])
}

/// `OwoColorize::green`: writes `ESC[32m`, the text, then `ESC[39m`.
#[verifier::external_body]
pub(crate) fn paint_green(s: &str) -> (r: String)
    ensures
        r@ == fg(green_code(), s@),
{
    s.green().to_string()
}

/// `OwoColorize::red`: writes `ESC[31m`, the text, then `ESC[39m`.
#[verifier::external_body]
pub(crate) fn paint_red(s: &str) -> (r: String)
    ensures
        r@ == fg(red_code(), s@),
{
    s.red().to_string()
}

/// `OwoColorize::yellow`: writes `ESC[33m`, the text, then `ESC[39m`.
#[verifier::external_body]
pub(crate) fn paint_yellow(s: &str) -> (r: String)
    ensures
        r@ == fg(yellow_code(), s@),
{
    s.yellow().to_string()
}

/// `OwoColorize::blue`: writes `ESC[34m`, the text, then `ESC[39m`.
#[verifier::external_body]
pub(crate) fn paint_blue(s: &str) -> (r: String)
    ensures
        r@ == fg(blue_code(), s@),
{
    s.blue().to_string()
}

/// `OwoColorize::purple` (the magenta colour): writes `ESC[35m`, the text,
/// then `ESC[39m`.
#[verifier::external_body]
pub(crate) fn paint_purple(s: &str) -> (r: String)
    ensures
        r@ == fg(magenta_code(), s@),
{
    s.purple().to_string()
}

/// `OwoColorize::bright_black`: writes `ESC[90m`, the text, then `ESC[39m`.
#[verifier::external_body]
pub(crate) fn paint_bright_black(s: &str) -> (r: String)
    ensures
        r@ == fg(bright_black_code(), s@),
{
    s.bright_black().to_string()
}

/// `OwoColorize::bright_green`: writes `ESC[92m`, the text, then `ESC[39m`.
#[verifier::external_body]
pub(crate) fn paint_bright_green(s: &str) -> (r: String)
    ensures
        r@ == fg(bright_green_code(), s@),
{
    s.bright_green().to_string()
}

/// `OwoColorize::bright_cyan`: writes `ESC[96m`, the text, then `ESC[39m`.
#[verifier::external_body]
pub(crate) fn paint_bright_cyan(s: &str) -> (r: String)
    ensures
        r@ == fg(bright_cyan_code(), s@),
{
    s.bright_cyan().to_string()
}

/// `OwoColorize::cyan`: writes `ESC[36m`, the text, then `ESC[39m`.
#[verifier::external_body]
pub(crate) fn paint_cyan(s: &str) -> (r: String)
    ensures
        r@ == fg(cyan_code(), s@),
{
    s.cyan().to_string()
}

/// `OwoColorize::dimmed`: writes `ESC[2m`, the text, then `ESC[0m`.
#[verifier::external_body]
pub(crate) fn paint_dimmed(s: &str) -> (r: String)
    ensures
        r@ == dimmed(s@),
{
    s.dimmed().to_string()
}

/// `OwoColorize::italic`: writes `ESC[3m`, the text, then `ESC[0m`.
#[verifier::external_body]
pub(crate) fn paint_italic(s: &str) -> (r: String)
    ensures
        r@ == italic(s@),
{
    s.italic().to_string()
}

/// `OwoColorize::bold`: writes `ESC[1m`, the text, then `ESC[0m`.
#[verifier::external_body]
pub(crate) fn paint_bold(s: &str) -> (r: String)
    ensures
        r@ == bold(s@),
{
    s.bold().to_string()
}

/// Format a repository path (bright green).
pub fn format_repo_path(path: &str) -> (r: String)
    ensures
        r@ == fg(bright_green_code(), path@),
{
    paint_bright_green(path)
}

/// Format a repository name (bright cyan, bold).
pub fn format_repo_name(name: &str) -> (r: String)
    ensures
        r@ == bold(fg(bright_cyan_code(), name@)),
{
    let c = paint_bright_cyan(name);
    paint_bold(c.as_str())
}

/// Format a timestamp (yellow).
pub fn format_timestamp(timestamp: &str) -> (r: String)
    ensures
        r@ == fg(yellow_code(), timestamp@),
{
    paint_yellow(timestamp)
}

/// Format a command or command example (purple).
pub fn format_command(cmd: &str) -> (r: String)
    ensures
        r@ == fg(magenta_code(), cmd@),
{
    paint_purple(cmd)
}

/// The colouring of a pull request review state.
pub open spec fn review_status_spec(state: Seq<char>) -> Seq<char> {
    if state == "APPROVED"@ {
        fg(green_code(), state)
    } else if state == "CHANGES_REQUESTED"@ {
        fg(red_code(), state)
    } else if state == "COMMENTED"@ {
        fg(yellow_code(), state)
    } else {
        state
    }
}

/// Format a GitHub PR review status.
pub fn format_pr_review_status(state: &str) -> (r: String)
    ensures
        r@ == review_status_spec(state@),
{
    if str_eq(state, "APPROVED") {
        paint_green(state)
    } else if str_eq(state, "CHANGES_REQUESTED") {
        paint_red(state)
    } else if str_eq(state, "COMMENTED") {
        paint_yellow(state)
    } else {
        state.to_owned()
    }
}

/// The colouring of a completed check's conclusion.
pub open spec fn conclusion_spec(conclusion: Seq<char>) -> Seq<char> {
    if conclusion == "success"@ {
        fg(green_code(), conclusion)
    } else if conclusion == "failure"@ {
        fg(red_code(), conclusion)
    } else if conclusion == "cancelled"@ {
        fg(yellow_code(), conclusion)
    } else if conclusion == "skipped"@ {
        fg(bright_black_code(), conclusion)
    } else {
        conclusion
    }
}

/// The colouring of a check run status with its optional conclusion.
pub open spec fn check_status_spec(status: Seq<char>, conclusion: Option<Seq<char>>) -> Seq<char> {
    if status == "completed"@ {
        match conclusion {
            Some(c) => conclusion_spec(c),
            None => status,
        }
    } else if status == "in_progress"@ {
        fg(yellow_code(), status)
    } else if status == "queued"@ {
        fg(blue_code(), status)
    } else {
        status
    }
}

/// Format a GitHub check run status.
pub fn format_check_status(status: &str, conclusion: Option<&str>) -> (r: String)
    ensures
        r@ == check_status_spec(
            status@,
            match conclusion {
                Some(c) => Some(c@),
                None => None,
            },
        ),
{
    if str_eq(status, "completed") {
        match conclusion {
            Some(c) => {
                if str_eq(c, "success") {
                    paint_green(c)
                } else if str_eq(c, "failure") {
                    paint_red(c)
                } else if str_eq(c, "cancelled") {
                    paint_yellow(c)
                } else if str_eq(c, "skipped") {
                    paint_bright_black(c)
                } else {
                    c.to_owned()
                }
            },
            None => status.to_owned(),
        }
    } else if str_eq(status, "in_progress") {
        paint_yellow(status)
    } else if str_eq(status, "queued") {
        paint_blue(status)
    } else {
        status.to_owned()
    }
}

} // verus!

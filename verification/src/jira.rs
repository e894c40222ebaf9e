//! Parsing and normalisation of Jira ticket identifiers.
//!
//! Strict mode accepts only the canonical `PROJ-123` form. Flexible mode also
//! accepts any letter case and a missing hyphen (`proj123`, `Proj-123`) and
//! normalises the result to `PROJ-123`.
use vstd::prelude::*;

use crate::strs::{
    all_decimal_digits, chars_of, concat, in_class, is_decimal_digit, lemma_run_len_facts, push_str, run_len,
    run_len_from, slice_range, string_of, string_of_range, trim, trim_chars, upper_chars, upper_seq,
    CharClass,
};

verus! {

/// Parsing mode for Jira tickets.
#[derive(Debug, Clone, Copy, PartialEq, Eq, Structural)]
pub enum JiraParsingMode {
    /// Only `ME-1234` is accepted.
    Strict,
    /// `ME-1234`, `ME1234`, `me1234`, `Me1234`, ... are accepted.
    Flexible,
}

/// Configuration for Jira ticket parsing behavior and connection settings.
#[derive(Debug, Clone)]
pub struct JiraParsingConfig {
    /// The parsing mode to use
    pub mode: JiraParsingMode,
    /// Jira host URL (e.g., https://company.atlassian.net)
    pub host: Option<String>,
}

impl Default for JiraParsingConfig {
    fn default() -> (c: Self)
        ensures
            c.mode == JiraParsingMode::Flexible,
            c.host is None,
    {
        JiraParsingConfig { mode: JiraParsingMode::Flexible, host: None }
    }
}

/// Errors that can occur during Jira ticket parsing.
#[derive(Debug, Clone)]
pub enum JiraParseError {
    InvalidFormat(String),
    ProjectTooShort(String),
    MissingNumber(String),
}

impl JiraParseError {
    /// The human readable description of the error.
    pub fn message(&self) -> (s: String)
        ensures
            match self {
                JiraParseError::InvalidFormat(t) => s@ == "Invalid ticket format: '"@ + t@
                    + "' does not match any supported pattern"@,
                JiraParseError::ProjectTooShort(t) => s@ == "Project code too short: '"@ + t@
                    + "' must be at least 2 characters"@,
                JiraParseError::MissingNumber(t) => s@ == "Missing ticket number in: '"@ + t@
                    + "'"@,
            },
    {
        match self {
            JiraParseError::InvalidFormat(t) => {
                let mut s = concat("Invalid ticket format: '", t.as_str());
                push_str(&mut s, "' does not match any supported pattern");
                s
            },
            JiraParseError::ProjectTooShort(t) => {
                let mut s = concat("Project code too short: '", t.as_str());
                push_str(&mut s, "' must be at least 2 characters");
                s
            },
            JiraParseError::MissingNumber(t) => {
                let mut s = concat("Missing ticket number in: '", t.as_str());
                push_str(&mut s, "'");
                s
            },
        }
    }
}

/// `t` is a canonical key: two or more capital letters, a hyphen, and one or
/// more decimal digits (of any script), with nothing else.
pub open spec fn is_strict_key(t: Seq<char>) -> bool {
    let k: int = run_len(t, CharClass::Upper) as int;
    &&& k >= 2
    &&& k + 1 < t.len()
    &&& t[k] == '-'
    &&& all_decimal_digits(t.subrange(k + 1, t.len() as int))
}

/// The normalised key for a flexible-mode input: two or more letters, an
/// optional hyphen and one or more digits; the letters are upper-cased and
/// the hyphen is always present in the result.
pub open spec fn flexible_key(t: Seq<char>) -> Option<Seq<char>> {
    let k: int = run_len(t, CharClass::Alpha) as int;
    let project = upper_seq(t.take(k));
    if k >= 2 && k + 1 < t.len() && t[k] == '-' && all_decimal_digits(
        t.subrange(k + 1, t.len() as int),
    ) {
        Some(project + seq!['-'] + t.subrange(k + 1, t.len() as int))
    } else if k >= 2 && k < t.len() && all_decimal_digits(t.subrange(k, t.len() as int)) {
        Some(project + seq!['-'] + t.subrange(k, t.len() as int))
    } else {
        None
    }
}

/// What `JiraTicketParser::parse` returns: `Ok` with the key, or `Err` with
/// the trimmed input that an `InvalidFormat` error carries.
pub open spec fn parse_spec(mode: JiraParsingMode, input: Seq<char>) -> Result<Seq<char>, Seq<char>> {
    let t = trim(input);
    if t.len() == 0 {
        Err(t)
    } else {
        match mode {
            JiraParsingMode::Strict => if is_strict_key(t) {
                Ok(t)
            } else {
                Err(t)
            },
            JiraParsingMode::Flexible => match flexible_key(t) {
                Some(key) => Ok(key),
                None => Err(t),
            },
        }
    }
}

/// The key at the start of a commit message in strict mode: a canonical key
/// immediately followed by a colon.
pub open spec fn commit_strict_capture(m: Seq<char>) -> Option<Seq<char>> {
    let k: int = run_len(m, CharClass::Upper) as int;
    if k >= 2 && k < m.len() && m[k] == '-' {
        let j: int = run_len(m.subrange(k + 1, m.len() as int), CharClass::DecimalDigit) as int;
        if j >= 1 && k + 1 + j < m.len() && m[k + 1 + j] == ':' {
            Some(m.take(k + 1 + j))
        } else {
            None
        }
    } else {
        None
    }
}

/// The key-shaped text at the start of a commit message in flexible mode:
/// two or more letters, an optional hyphen and digits, followed by a colon.
pub open spec fn commit_flexible_capture(m: Seq<char>) -> Option<Seq<char>> {
    let k: int = run_len(m, CharClass::Alpha) as int;
    if k < 2 {
        None
    } else {
        let d0: int = if k < m.len() && m[k] == '-' {
            k + 1
        } else {
            k
        };
        let j: int = run_len(m.subrange(d0, m.len() as int), CharClass::DecimalDigit) as int;
        if j >= 1 && d0 + j < m.len() && m[d0 + j] == ':' {
            Some(m.take(d0 + j))
        } else {
            None
        }
    }
}

/// What `extract_from_commit_message` returns.
pub open spec fn extract_spec(mode: JiraParsingMode, m: Seq<char>) -> Option<Seq<char>> {
    match mode {
        JiraParsingMode::Strict => commit_strict_capture(m),
        JiraParsingMode::Flexible => match commit_flexible_capture(m) {
            Some(c) => match parse_spec(JiraParsingMode::Flexible, c) {
                Ok(key) => Some(key),
                Err(_) => None,
            },
            None => None,
        },
    }
}

/// The view of a parse result: the key, or the payload of the error.
pub open spec fn parse_result_view(r: Result<String, JiraParseError>) -> Result<Seq<char>, Seq<char>> {
    match r {
        Ok(s) => Ok(s@),
        Err(JiraParseError::InvalidFormat(t)) => Err(t@),
        Err(JiraParseError::ProjectTooShort(t)) => Err(t@),
        Err(JiraParseError::MissingNumber(t)) => Err(t@),
    }
}

/// Jira ticket parser with a configurable parsing mode.
pub struct JiraTicketParser {
    config: JiraParsingConfig,
}

/// A parser for the Jira settings that were loaded from the configuration
/// directories; none where they could not be found or read.
pub fn create_jira_parser(loaded: Option<JiraParsingConfig>) -> (r: Option<JiraTicketParser>)
    ensures
        r is Some <==> loaded is Some,
        r is Some ==> r->0.mode() == loaded->0.mode && r->0.host() == loaded->0.host,
{
    match loaded {
        Some(config) => Some(JiraTicketParser::new(config)),
        None => None,
    }
}

/// `s` is the whole of itself as a subrange.
proof fn lemma_full_subrange(s: Seq<char>)
    ensures
        s.subrange(0, s.len() as int) == s,
{
    assert(s.subrange(0, s.len() as int) =~= s);
}

impl JiraTicketParser {
    pub closed spec fn mode(&self) -> JiraParsingMode {
        self.config.mode
    }

    pub closed spec fn host(&self) -> Option<String> {
        self.config.host
    }

    /// Create a new parser with the given configuration.
    pub fn new(config: JiraParsingConfig) -> (p: Self)
        ensures
            p.mode() == config.mode,
            p.host() == config.host,
    {
        JiraTicketParser { config }
    }

    /// Create a new parser with the default configuration (flexible mode).
    pub fn new_default() -> (p: Self)
        ensures
            p.mode() == JiraParsingMode::Flexible,
            p.host() is None,
    {
        Self::new(JiraParsingConfig::default())
    }

    /// Create a new parser in flexible mode.
    pub fn new_flexible() -> (p: Self)
        ensures
            p.mode() == JiraParsingMode::Flexible,
            p.host() is None,
    {
        Self::new(JiraParsingConfig { mode: JiraParsingMode::Flexible, host: None })
    }

    /// Create a new parser in strict mode.
    pub fn new_strict() -> (p: Self)
        ensures
            p.mode() == JiraParsingMode::Strict,
            p.host() is None,
    {
        Self::new(JiraParsingConfig { mode: JiraParsingMode::Strict, host: None })
    }

    /// Parse a Jira ticket identifier from user input.
    pub fn parse(&self, input: &str) -> (r: Result<String, JiraParseError>)
        ensures
            parse_result_view(r) == parse_spec(self.mode(), input@),
            r is Err ==> r->Err_0 is InvalidFormat,
    {
        let cs = chars_of(input);
        let t = trim_chars(cs.as_slice());
        if t.len() == 0 {
            return Err(JiraParseError::InvalidFormat(string_of(t.as_slice())));
        }
        match self.config.mode {
            JiraParsingMode::Strict => {
                if is_strict_key_exec(t.as_slice()) {
                    Ok(string_of(t.as_slice()))
                } else {
                    Err(JiraParseError::InvalidFormat(string_of(t.as_slice())))
                }
            },
            JiraParsingMode::Flexible => {
                match flexible_key_exec(t.as_slice()) {
                    Some(key) => Ok(string_of(key.as_slice())),
                    None => Err(JiraParseError::InvalidFormat(string_of(t.as_slice()))),
                }
            },
        }
    }

    /// Extract the Jira ticket at the start of a commit message.
    pub fn extract_from_commit_message(&self, message: &str) -> (r: Option<String>)
        ensures
            match r {
                Some(s) => extract_spec(self.mode(), message@) == Some(s@),
                None => extract_spec(self.mode(), message@) is None,
            },
    {
        let m = chars_of(message);
        match self.config.mode {
            JiraParsingMode::Strict => {
                match commit_strict_capture_exec(m.as_slice()) {
                    Some(end) => Some(string_of_range(m.as_slice(), 0, end)),
                    None => None,
                }
            },
            JiraParsingMode::Flexible => {
                match commit_flexible_capture_exec(m.as_slice()) {
                    Some(end) => {
                        let ticket = string_of_range(m.as_slice(), 0, end);
                        match self.parse(ticket.as_str()) {
                            Ok(key) => Some(key),
                            Err(_) => None,
                        }
                    },
                    None => None,
                }
            },
        }
    }

    /// Whether the input is a valid Jira ticket in this parser's mode.
    pub fn is_valid(&self, input: &str) -> (b: bool)
        ensures
            b == parse_spec(self.mode(), input@) is Ok,
    {
        self.parse(input).is_ok()
    }

    /// The current configuration.
    pub fn config(&self) -> (c: &JiraParsingConfig)
        ensures
            c.mode == self.mode(),
            c.host == self.host(),
    {
        &self.config
    }

    /// Replace the parser configuration.
    pub fn set_config(&mut self, config: JiraParsingConfig)
        ensures
            final(self).mode() == config.mode,
            final(self).host() == config.host,
    {
        self.config = config;
    }
}

/// Whether `t` is a canonical key.
pub fn is_strict_key_exec(t: &[char]) -> (b: bool)
    ensures
        b == is_strict_key(t@),
{
    proof {
        lemma_full_subrange(t@);
    }
    let k = run_len_from(t, 0, CharClass::Upper);
    if k >= 2 && t.len() - k > 1 && t[k] == '-' {
        let j = run_len_from(t, k + 1, CharClass::DecimalDigit);
        proof {
            let rest = t@.subrange(k + 1, t.len() as int);
            lemma_run_len_facts(rest, CharClass::DecimalDigit);
            if j == rest.len() {
                assert forall|i: int| 0 <= i < rest.len() implies is_decimal_digit(#[trigger] rest[i]) by {
                    assert(in_class(CharClass::DecimalDigit, rest[i]));
                }
            } else {
                assert(!is_decimal_digit(rest[j as int]));
            }
        }
        k + 1 + j == t.len()
    } else {
        false
    }
}

/// The normalised flexible-mode key of `t`, if it has one.
pub fn flexible_key_exec(t: &[char]) -> (r: Option<Vec<char>>)
    ensures
        match r {
            Some(v) => flexible_key(t@) == Some(v@),
            None => flexible_key(t@) is None,
        },
{
    proof {
        lemma_full_subrange(t@);
    }
    let k = run_len_from(t, 0, CharClass::Alpha);
    if k < 2 {
        return None;
    }
    let start: usize = if t.len() - k > 1 && t[k] == '-' {
        k + 1
    } else {
        k
    };
    if start >= t.len() {
        proof {
            if k + 1 < t.len() && t@[k as int] == '-' {
            }
        }
        return None;
    }
    let j = run_len_from(t, start, CharClass::DecimalDigit);
    proof {
        let rest = t@.subrange(start as int, t.len() as int);
        lemma_run_len_facts(rest, CharClass::DecimalDigit);
        if j == rest.len() {
            assert forall|i: int| 0 <= i < rest.len() implies is_decimal_digit(#[trigger] rest[i]) by {
                assert(in_class(CharClass::DecimalDigit, rest[i]));
            }
        } else {
            assert(!is_decimal_digit(rest[j as int]));
        }
        if start == k && k < t.len() && t@[k as int] == '-' {
            assert(!is_decimal_digit(rest[0]));
        }
    }
    if start + j != t.len() {
        proof {
            if start == k + 1 {
                let s2 = t@.subrange(k as int, t.len() as int);
                assert(s2[0] == '-');
                assert(!is_decimal_digit(s2[0]));
            }
        }
        return None;
    }
    let head = slice_range(t, 0, k);
    let mut key = upper_chars(head.as_slice());
    key.push('-');
    let mut i: usize = start;
    while i < t.len()
        invariant
            start <= i <= t.len(),
            key@ == upper_seq(t@.take(k as int)) + seq!['-'] + t@.subrange(start as int, i as int),
        decreases t.len() - i,
    {
        key.push(t[i]);
        i = i + 1;
        assert(key@ =~= upper_seq(t@.take(k as int)) + seq!['-'] + t@.subrange(
            start as int,
            i as int,
        ));
    }
    assert(head@ =~= t@.take(k as int));
    Some(key)
}

/// The end of the strict-mode key at the start of a commit message.
pub fn commit_strict_capture_exec(m: &[char]) -> (r: Option<usize>)
    ensures
        match r {
            Some(end) => end <= m.len() && commit_strict_capture(m@) == Some(m@.take(end as int)),
            None => commit_strict_capture(m@) is None,
        },
{
    proof {
        lemma_full_subrange(m@);
    }
    let k = run_len_from(m, 0, CharClass::Upper);
    if k >= 2 && k < m.len() && m[k] == '-' {
        let j = run_len_from(m, k + 1, CharClass::DecimalDigit);
        if j >= 1 && k + 1 + j < m.len() && m[k + 1 + j] == ':' {
            Some(k + 1 + j)
        } else {
            None
        }
    } else {
        None
    }
}

/// The end of the flexible-mode key-shaped text at the start of a commit
/// message.
pub fn commit_flexible_capture_exec(m: &[char]) -> (r: Option<usize>)
    ensures
        match r {
            Some(end) => end <= m.len() && commit_flexible_capture(m@) == Some(m@.take(end as int)),
            None => commit_flexible_capture(m@) is None,
        },
{
    proof {
        lemma_full_subrange(m@);
    }
    let k = run_len_from(m, 0, CharClass::Alpha);
    if k < 2 {
        return None;
    }
    let d0: usize = if k < m.len() && m[k] == '-' {
        k + 1
    } else {
        k
    };
    let j = run_len_from(m, d0, CharClass::DecimalDigit);
    if j >= 1 && d0 + j < m.len() && m[d0 + j] == ':' {
        Some(d0 + j)
    } else {
        None
    }
}

} // verus!

//! The `.netrc` credentials file: reading the login and password for a
//! machine, writing or replacing a machine's entry, and normalising the
//! host names looked up in it.
//!
//! Reading follows curl's conventions: `#` starts a comment at a token
//! boundary, `macdef` bodies run to the next blank line and are skipped,
//! `default` is a fallback entry used only when the machine is never named,
//! `passwd` means `password`, and `account` values are ignored.
use vstd::prelude::*;

use crate::strs::{contains, contains_exec, ends_with, push_char, push_str, starts_with, starts_with_exec, chars_eq, chars_of, is_white, is_white_exec, slice_range, string_of, trim, trim_bounds, trim_end_char, trim_end_char_pos, trim_start_matches, trim_start_matches_pos};

verus! {

/// The path of the `.netrc` file in a home directory.
pub fn get_netrc_path(home: &str) -> (r: String)
    ensures
        r@ == crate::plugin_context::join_path(home@, seq!['.', 'n', 'e', 't', 'r', 'c']),
{
    let name = ".netrc";
    proof {
        reveal_strlit(".netrc");
    }
    assert(name@ =~= seq!['.', 'n', 'e', 't', 'r', 'c']);
    crate::plugin_context::join_path_exec(home, name)
}

/// Represents credentials for a service.
#[derive(Debug, Clone, PartialEq, Eq)]
pub struct Credentials {
    pub username: String,
    pub password: String,
}

// ---------------------------------------------------------------------------
// Lines, comments and words
// ---------------------------------------------------------------------------

/// The index of the first line feed at or after `i` (the length if none).
pub open spec fn next_newline(s: Seq<char>, i: int) -> int
    decreases s.len() - i,
{
    if i >= s.len() {
        s.len() as int
    } else if s[i] == '\n' {
        i
    } else {
        next_newline(s, i + 1)
    }
}

pub proof fn lemma_next_newline(s: Seq<char>, i: int)
    requires
        0 <= i,
    ensures
        i <= next_newline(s, i) <= s.len() || (i > s.len() && next_newline(s, i) == s.len()),
        next_newline(s, i) < s.len() ==> s[next_newline(s, i)] == '\n',
    decreases s.len() - i,
{
    if i < s.len() && s[i] != '\n' {
        lemma_next_newline(s, i + 1);
    }
}

/// A line without the carriage return before its line feed.
pub open spec fn strip_cr(l: Seq<char>) -> Seq<char> {
    if l.len() > 0 && l.last() == '\r' {
        l.drop_last()
    } else {
        l
    }
}

/// The lines of `s` from position `i`, as `str::lines` yields them: split at
/// line feeds, a carriage return before a line feed dropped, no empty line
/// after a final line feed.
pub open spec fn lines_from(s: Seq<char>, i: int) -> Seq<Seq<char>>
    decreases s.len() - i,
{
    if i < 0 || i >= s.len() {
        seq![]
    } else {
        let j = next_newline(s, i);
        proof {
            lemma_next_newline(s, i);
        }
        if j >= s.len() {
            seq![s.subrange(i, s.len() as int)]
        } else {
            seq![strip_cr(s.subrange(i, j))] + lines_from(s, j + 1)
        }
    }
}

/// Where a comment starts in a line: the first `#` at the start or after
/// white space (the length if none).
pub open spec fn comment_start(l: Seq<char>, k: int, after_space: bool) -> int
    decreases l.len() - k,
{
    if k >= l.len() {
        l.len() as int
    } else if l[k] == '#' && after_space {
        k
    } else {
        comment_start(l, k + 1, is_white(l[k]))
    }
}

/// A line without its comment.
pub open spec fn without_comment(l: Seq<char>) -> Seq<char> {
    l.take(comment_start(l, 0, true))
}

/// The end of the run of non-space characters starting at `i`.
pub open spec fn word_end(s: Seq<char>, i: int) -> int
    decreases s.len() - i,
{
    if i >= s.len() || is_white(s[i]) {
        i
    } else {
        word_end(s, i + 1)
    }
}

/// The whitespace-separated words of `s` from position `i`.
pub open spec fn words_from(s: Seq<char>, i: int) -> Seq<Seq<char>>
    decreases s.len() - i,
{
    if i < 0 || i >= s.len() {
        seq![]
    } else if is_white(s[i]) {
        words_from(s, i + 1)
    } else {
        let j = word_end(s, i);
        proof {
            lemma_word_end(s, i);
        }
        seq![s.subrange(i, j)] + words_from(s, j)
    }
}

pub proof fn lemma_word_end(s: Seq<char>, i: int)
    requires
        0 <= i < s.len(),
        !is_white(s[i]),
    ensures
        i < word_end(s, i) <= s.len(),
        forall|k: int| i <= k < word_end(s, i) ==> !is_white(#[trigger] s[k]),
        word_end(s, i) < s.len() ==> is_white(s[word_end(s, i)]),
    decreases s.len() - i,
{
    assert(word_end(s, i) == word_end(s, i + 1));
    if i + 1 < s.len() && !is_white(s[i + 1]) {
        lemma_word_end(s, i + 1);
    } else {
        assert(word_end(s, i + 1) == i + 1);
    }
}

pub open spec fn macdef_kw() -> Seq<char> {
    seq!['m', 'a', 'c', 'd', 'e', 'f']
}

pub open spec fn machine_kw() -> Seq<char> {
    seq!['m', 'a', 'c', 'h', 'i', 'n', 'e']
}

pub open spec fn default_kw() -> Seq<char> {
    seq!['d', 'e', 'f', 'a', 'u', 'l', 't']
}

pub open spec fn login_kw() -> Seq<char> {
    seq!['l', 'o', 'g', 'i', 'n']
}

pub open spec fn password_kw() -> Seq<char> {
    seq!['p', 'a', 's', 's', 'w', 'o', 'r', 'd']
}

pub open spec fn passwd_kw() -> Seq<char> {
    seq!['p', 'a', 's', 's', 'w', 'd']
}

pub open spec fn account_kw() -> Seq<char> {
    seq!['a', 'c', 'c', 'o', 'u', 'n', 't']
}

/// The line after the first blank line at or after `m` (the number of lines
/// if none): where a macro body ends.
pub open spec fn after_body(ls: Seq<Seq<char>>, m: int) -> int
    decreases ls.len() - m,
{
    if m >= ls.len() {
        ls.len() as int
    } else if trim(ls[m]).len() == 0 {
        m + 1
    } else {
        after_body(ls, m + 1)
    }
}

/// The tokens of the lines from `k`: each line's words once its comment is
/// removed; a line naming `macdef` is dropped together with the macro body
/// after it.
pub open spec fn tokens_from(ls: Seq<Seq<char>>, k: int) -> Seq<Seq<char>>
    decreases ls.len() - k,
{
    if k < 0 || k >= ls.len() {
        seq![]
    } else {
        let w = words_from(without_comment(ls[k]), 0);
        if w.len() == 0 {
            tokens_from(ls, k + 1)
        } else if w.contains(macdef_kw()) {
            proof {
                lemma_after_body(ls, k + 1);
            }
            tokens_from(ls, after_body(ls, k + 1))
        } else {
            w + tokens_from(ls, k + 1)
        }
    }
}

pub proof fn lemma_after_body(ls: Seq<Seq<char>>, m: int)
    requires
        m >= 0,
    ensures
        after_body(ls, m) > m || (m >= ls.len() && after_body(ls, m) == ls.len()),
        after_body(ls, m) <= ls.len() || after_body(ls, m) == m + 1,
    decreases ls.len() - m,
{
    if m < ls.len() && trim(ls[m]).len() != 0 {
        lemma_after_body(ls, m + 1);
    }
}

/// The tokens of a `.netrc` file.
pub open spec fn netrc_tokens(content: Seq<char>) -> Seq<Seq<char>> {
    tokens_from(lines_from(content, 0), 0)
}

// ---------------------------------------------------------------------------
// Entries
// ---------------------------------------------------------------------------

/// An entry's login and password, read from token `i` up to the next
/// `machine` or `default`: `login`, `password` and `passwd` take the token
/// after them (nothing at the end), `account` skips its value, anything else
/// is skipped. Also the position where the entry ends.
pub open spec fn read_entry(
    toks: Seq<Seq<char>>,
    i: int,
    login: Option<Seq<char>>,
    password: Option<Seq<char>>,
) -> (int, Option<Seq<char>>, Option<Seq<char>>)
    decreases toks.len() - i,
{
    if i < 0 || i >= toks.len() {
        (i, login, password)
    } else {
        let t = toks[i];
        let next = if i + 1 < toks.len() {
            Some(toks[i + 1])
        } else {
            None
        };
        let skip2 = if i + 2 <= toks.len() {
            i + 2
        } else {
            toks.len() as int
        };
        if t == machine_kw() || t == default_kw() {
            (i, login, password)
        } else if t == login_kw() {
            read_entry(toks, skip2, next, password)
        } else if t == password_kw() || t == passwd_kw() {
            read_entry(toks, skip2, login, next)
        } else if t == account_kw() {
            read_entry(toks, skip2, login, password)
        } else {
            read_entry(toks, i + 1, login, password)
        }
    }
}

pub proof fn lemma_read_entry_advances(
    toks: Seq<Seq<char>>,
    i: int,
    login: Option<Seq<char>>,
    password: Option<Seq<char>>,
)
    requires
        0 <= i <= toks.len(),
    ensures
        i <= read_entry(toks, i, login, password).0 <= toks.len(),
    decreases toks.len() - i,
{
    if i < toks.len() {
        let t = toks[i];
        let next = if i + 1 < toks.len() {
            Some(toks[i + 1])
        } else {
            None
        };
        let skip2 = if i + 2 <= toks.len() {
            i + 2
        } else {
            toks.len() as int
        };
        if t == machine_kw() || t == default_kw() {
        } else if t == login_kw() {
            lemma_read_entry_advances(toks, skip2, next, password);
        } else if t == password_kw() || t == passwd_kw() {
            lemma_read_entry_advances(toks, skip2, login, next);
        } else if t == account_kw() {
            lemma_read_entry_advances(toks, skip2, login, password);
        } else {
            lemma_read_entry_advances(toks, i + 1, login, password);
        }
    }
}

/// The credentials found for `target` from token `i`: the first `machine`
/// entry for it with both a login and a password; if it is named but every
/// such entry lacks one of them, none; if it is never named, the first
/// complete `default` entry.
pub open spec fn lookup_from(
    toks: Seq<Seq<char>>,
    i: int,
    target: Seq<char>,
    fallback: Option<(Seq<char>, Seq<char>)>,
    seen: bool,
) -> Option<(Seq<char>, Seq<char>)>
    decreases toks.len() - i,
{
    if i < 0 || i >= toks.len() {
        if seen {
            None
        } else {
            fallback
        }
    } else if toks[i] == machine_kw() {
        if i + 1 >= toks.len() {
            if seen {
                None
            } else {
                fallback
            }
        } else {
            let e = read_entry(toks, i + 2, None, None);
            proof {
                lemma_read_entry_advances(toks, i + 2, None, None);
            }
            if toks[i + 1] == target {
                if e.1 is Some && e.2 is Some {
                    Some((e.1->0, e.2->0))
                } else {
                    lookup_from(toks, e.0, target, fallback, true)
                }
            } else {
                lookup_from(toks, e.0, target, fallback, seen)
            }
        }
    } else if toks[i] == default_kw() {
        let e = read_entry(toks, i + 1, None, None);
        proof {
            lemma_read_entry_advances(toks, i + 1, None, None);
        }
        let fb = if fallback is None && e.1 is Some && e.2 is Some {
            Some((e.1->0, e.2->0))
        } else {
            fallback
        };
        lookup_from(toks, e.0, target, fb, seen)
    } else {
        lookup_from(toks, i + 1, target, fallback, seen)
    }
}

/// The credentials a `.netrc` file holds for `target`.
pub open spec fn netrc_credentials(content: Seq<char>, target: Seq<char>) -> Option<(Seq<char>, Seq<char>)> {
    lookup_from(netrc_tokens(content), 0, target, None, false)
}

// ---------------------------------------------------------------------------
// Executable reading
// ---------------------------------------------------------------------------

pub open spec fn cviews(v: Seq<Vec<char>>) -> Seq<Seq<char>> {
    v.map_values(|c: Vec<char>| c@)
}

fn next_newline_exec(s: &[char], i: usize) -> (j: usize)
    requires
        i <= s.len(),
    ensures
        j == next_newline(s@, i as int),
        i <= j <= s.len(),
        j < s.len() ==> s@[j as int] == '\n',
{
    let mut j = i;
    while j < s.len() && s[j] != '\n'
        invariant
            i <= j <= s.len(),
            next_newline(s@, j as int) == next_newline(s@, i as int),
        decreases s.len() - j,
    {
        j = j + 1;
    }
    j
}

/// The lines of a text, as `str::lines` yields them.
pub(crate) fn split_lines(s: &[char]) -> (r: Vec<Vec<char>>)
    ensures
        cviews(r@) == lines_from(s@, 0),
{
    let mut r: Vec<Vec<char>> = Vec::new();
    let n = s.len();
    if n == 0 {
        return r;
    }
    let mut i: usize = 0;
    while i < n
        invariant
            n == s.len(),
            i <= n,
            cviews(r@) + lines_from(s@, i as int) == lines_from(s@, 0),
        decreases n - i,
    {
        let j = next_newline_exec(s, i);
        let ghost before = cviews(r@);
        if j >= n {
            let line = slice_range(s, i, n);
            r.push(line);
            assert(cviews(r@) =~= before + seq![s@.subrange(i as int, n as int)]);
            assert(lines_from(s@, n as int) =~= seq![]);
            i = n;
        } else {
            let mut line = slice_range(s, i, j);
            if line.len() > 0 && line[line.len() - 1] == '\r' {
                line.pop();
            }
            assert(line@ =~= strip_cr(s@.subrange(i as int, j as int)));
            r.push(line);
            assert(cviews(r@) =~= before.push(strip_cr(s@.subrange(i as int, j as int))));
            assert(before + lines_from(s@, i as int) =~= cviews(r@) + lines_from(s@, j + 1));
            i = j + 1;
        }
    }
    assert(lines_from(s@, n as int) =~= seq![]);
    assert(cviews(r@) =~= cviews(r@) + lines_from(s@, n as int));
    r
}

fn comment_start_exec(l: &[char]) -> (k: usize)
    ensures
        k == comment_start(l@, 0, true),
        k <= l.len(),
{
    let mut k: usize = 0;
    let mut after_space = true;
    while k < l.len()
        invariant
            k <= l.len(),
            comment_start(l@, k as int, after_space) == comment_start(l@, 0, true),
        decreases l.len() - k,
    {
        if l[k] == '#' && after_space {
            return k;
        }
        after_space = is_white_exec(l[k]);
        k = k + 1;
    }
    k
}

fn words_of(s: &[char], upto: usize) -> (r: Vec<Vec<char>>)
    requires
        upto <= s.len(),
    ensures
        cviews(r@) == words_from(s@.take(upto as int), 0),
{
    let ghost t = s@.take(upto as int);
    let mut r: Vec<Vec<char>> = Vec::new();
    let mut i: usize = 0;
    while i < upto
        invariant
            upto <= s.len(),
            t == s@.take(upto as int),
            i <= upto,
            cviews(r@) + words_from(t, i as int) == words_from(t, 0),
        decreases upto - i,
    {
        if is_white_exec(s[i]) {
            i = i + 1;
        } else {
            let mut j = i;
            while j < upto && !is_white_exec(s[j])
                invariant
                    i <= j <= upto,
                    upto <= s.len(),
                    t == s@.take(upto as int),
                    word_end(t, j as int) == word_end(t, i as int),
                decreases upto - j,
            {
                j = j + 1;
            }
            proof {
                lemma_word_end(t, i as int);
            }
            let word = slice_range(s, i, j);
            let ghost before = cviews(r@);
            r.push(word);
            assert(word@ =~= t.subrange(i as int, j as int));
            assert(cviews(r@) =~= before.push(t.subrange(i as int, j as int)));
            assert(before + words_from(t, i as int) =~= cviews(r@) + words_from(t, j as int));
            i = j;
        }
    }
    assert(cviews(r@) =~= cviews(r@) + words_from(t, upto as int));
    r
}

fn has_word(words: &Vec<Vec<char>>, w: &Vec<char>) -> (b: bool)
    ensures
        b == cviews(words@).contains(w@),
{
    let mut i: usize = 0;
    while i < words.len()
        invariant
            i <= words.len(),
            forall|k: int| 0 <= k < i ==> words@[k]@ != w@,
        decreases words.len() - i,
    {
        if chars_eq(words[i].as_slice(), w.as_slice()) {
            assert(cviews(words@)[i as int] == w@);
            return true;
        }
        i = i + 1;
    }
    proof {
        if cviews(words@).contains(w@) {
            let k = choose|k: int| 0 <= k < cviews(words@).len() && cviews(words@)[k] == w@;
            assert(words@[k]@ == w@);
        }
    }
    false
}

fn is_blank(l: &[char]) -> (b: bool)
    ensures
        b == (trim(l@).len() == 0),
{
    let (a, z) = trim_bounds(l);
    a == z
}

/// The tokens of a `.netrc` text.
fn tokenize(content: &[char]) -> (r: Vec<Vec<char>>)
    ensures
        cviews(r@) == netrc_tokens(content@),
{
    let lines = split_lines(content);
    let ghost ls = cviews(lines@);
    let macdef: Vec<char> = vec!['m', 'a', 'c', 'd', 'e', 'f'];
    assert(macdef@ =~= macdef_kw());
    let mut r: Vec<Vec<char>> = Vec::new();
    let mut k: usize = 0;
    while k < lines.len()
        invariant
            k <= lines.len(),
            ls == cviews(lines@),
            ls == lines_from(content@, 0),
            macdef@ == macdef_kw(),
            cviews(r@) + tokens_from(ls, k as int) == tokens_from(ls, 0),
        decreases lines.len() - k,
    {
        let line = &lines[k];
        assert(ls[k as int] == line@);
        let cut = comment_start_exec(line.as_slice());
        let mut words = words_of(line.as_slice(), cut);
        if words.len() == 0 {
            k = k + 1;
        } else if has_word(&words, &macdef) {
            let mut m = k + 1;
            while m < lines.len() && !is_blank(lines[m].as_slice())
                invariant
                    k < m <= lines.len(),
                    ls == cviews(lines@),
                    after_body(ls, m as int) == after_body(ls, k + 1),
                decreases lines.len() - m,
            {
                assert(ls[m as int] == lines@[m as int]@);
                m = m + 1;
            }
            if m < lines.len() {
                assert(ls[m as int] == lines@[m as int]@);
                m = m + 1;
            }
            k = m;
        } else {
            let ghost before = cviews(r@);
            let ghost wv = cviews(words@);
            r.append(&mut words);
            assert(cviews(r@) =~= before + wv);
            assert(before + (wv + tokens_from(ls, k + 1)) =~= cviews(r@) + tokens_from(ls, k + 1));
            k = k + 1;
        }
    }
    assert(cviews(r@) =~= cviews(r@) + tokens_from(ls, lines.len() as int));
    r
}

/// What `read_entry` finds: where the entry ends, and the indices of the
/// tokens holding its login and password.
fn read_entry_exec(
    toks: &Vec<Vec<char>>,
    start: usize,
    kw: &Keywords,
) -> (r: (usize, Option<usize>, Option<usize>))
    requires
        kw.wf(),
    ensures
        r.0 as int == read_entry(cviews(toks@), start as int, None, None).0,
        r.1 matches Some(a) ==> a < toks@.len(),
        r.2 matches Some(b) ==> b < toks@.len(),
        read_entry(cviews(toks@), start as int, None, None).1 == match r.1 {
            Some(a) => Some(toks@[a as int]@),
            None => None::<Seq<char>>,
        },
        read_entry(cviews(toks@), start as int, None, None).2 == match r.2 {
            Some(b) => Some(toks@[b as int]@),
            None => None::<Seq<char>>,
        },
{
    let ghost t = cviews(toks@);
    let mut i = start;
    let mut login: Option<usize> = None;
    let mut password: Option<usize> = None;
    let n = toks.len();
    let mut stop = false;
    while !stop && i < n
        invariant
            n == toks.len(),
            t == cviews(toks@),
            kw.wf(),
            stop ==> i < n && (t[i as int] == machine_kw() || t[i as int] == default_kw()),
            start <= i || i >= n,
            i <= n || i == start,
            login matches Some(a) ==> a < n,
            password matches Some(b) ==> b < n,
            read_entry(t, i as int, opt_tok(toks@, login), opt_tok(toks@, password)) == read_entry(
                t,
                start as int,
                None,
                None,
            ),
        decreases n - i, if stop { 0nat } else { 1nat },
    {
        let tok = &toks[i];
        assert(t[i as int] == tok@);
        let next = if i + 1 < n {
            Some(i + 1)
        } else {
            None
        };
        proof {
            if i + 1 < n {
                assert(t[i + 1] == toks@[i + 1]@);
            }
        }
        if chars_eq(tok.as_slice(), kw.machine.as_slice()) || chars_eq(tok.as_slice(), kw.default.as_slice()) {
            stop = true;
        } else if chars_eq(tok.as_slice(), kw.login.as_slice()) {
            login = next;
            if n - i < 2 {
                i = n;
            } else {
                i = i + 2;
            }
        } else if chars_eq(tok.as_slice(), kw.password.as_slice()) || chars_eq(tok.as_slice(), kw.passwd.as_slice()) {
            password = next;
            if n - i < 2 {
                i = n;
            } else {
                i = i + 2;
            }
        } else if chars_eq(tok.as_slice(), kw.account.as_slice()) {
            if n - i < 2 {
                i = n;
            } else {
                i = i + 2;
            }
        } else {
            i = i + 1;
        }
    }
    (i, login, password)
}


pub open spec fn opt_tok(toks: Seq<Vec<char>>, idx: Option<usize>) -> Option<Seq<char>> {
    match idx {
        Some(a) => Some(toks[a as int]@),
        None => None,
    }
}

/// The keywords of the format, as characters.
pub struct Keywords {
    pub machine: Vec<char>,
    pub default: Vec<char>,
    pub login: Vec<char>,
    pub password: Vec<char>,
    pub passwd: Vec<char>,
    pub account: Vec<char>,
}

impl Keywords {
    pub open spec fn wf(&self) -> bool {
        &&& self.machine@ == machine_kw()
        &&& self.default@ == default_kw()
        &&& self.login@ == login_kw()
        &&& self.password@ == password_kw()
        &&& self.passwd@ == passwd_kw()
        &&& self.account@ == account_kw()
    }

    pub fn new() -> (k: Self)
        ensures
            k.wf(),
    {
        let k = Keywords {
            machine: vec!['m', 'a', 'c', 'h', 'i', 'n', 'e'],
            default: vec!['d', 'e', 'f', 'a', 'u', 'l', 't'],
            login: vec!['l', 'o', 'g', 'i', 'n'],
            password: vec!['p', 'a', 's', 's', 'w', 'o', 'r', 'd'],
            passwd: vec!['p', 'a', 's', 's', 'w', 'd'],
            account: vec!['a', 'c', 'c', 'o', 'u', 'n', 't'],
        };
        assert(k.machine@ =~= machine_kw());
        assert(k.default@ =~= default_kw());
        assert(k.login@ =~= login_kw());
        assert(k.password@ =~= password_kw());
        assert(k.passwd@ =~= passwd_kw());
        assert(k.account@ =~= account_kw());
        k
    }
}

pub open spec fn creds_view(c: Option<Credentials>) -> Option<(Seq<char>, Seq<char>)> {
    match c {
        Some(c) => Some((c.username@, c.password@)),
        None => None,
    }
}

/// The credentials a `.netrc` text holds for `target_machine`: those of the
/// first `machine` entry for it that has both a login and a password; none
/// if the machine is named but no entry for it is complete; otherwise those
/// of the first complete `default` entry, if any.
pub fn parse_netrc(content: &str, target_machine: &str) -> (r: Option<Credentials>)
    ensures
        creds_view(r) == netrc_credentials(content@, target_machine@),
{
    let text = chars_of(content);
    let toks = tokenize(text.as_slice());
    let target = chars_of(target_machine);
    let kw = Keywords::new();
    let ghost t = cviews(toks@);
    let n = toks.len();
    let mut fallback: Option<Credentials> = None;
    let mut seen = false;
    let mut i: usize = 0;
    let mut stop = false;
    while !stop && i < n
        invariant
            stop ==> i + 1 >= n && i < n && t[i as int] == machine_kw(),
            n == toks.len(),
            t == cviews(toks@),
            t == netrc_tokens(content@),
            target@ == target_machine@,
            kw.wf(),
            i <= n,
            lookup_from(t, i as int, target@, creds_view(fallback), seen) == netrc_credentials(
                content@,
                target_machine@,
            ),
        decreases n - i, if stop { 0nat } else { 1nat },
    {
        let tok = &toks[i];
        assert(t[i as int] == tok@);
        if chars_eq(tok.as_slice(), kw.machine.as_slice()) {
            if i + 1 >= n {
                stop = true;
                continue;
            }
            assert(t[i + 1] == toks@[i + 1]@);
            let (end, login, password) = read_entry_exec(&toks, i + 2, &kw);
            proof {
                lemma_read_entry_advances(t, i + 2, None, None);
            }
            if chars_eq(toks[i + 1].as_slice(), target.as_slice()) {
                seen = true;
                match (login, password) {
                    (Some(a), Some(b)) => {
                        return Some(
                            Credentials {
                                username: string_of(toks[a].as_slice()),
                                password: string_of(toks[b].as_slice()),
                            },
                        );
                    },
                    _ => {},
                }
            }
            i = end;
        } else if chars_eq(tok.as_slice(), kw.default.as_slice()) {
            let (end, login, password) = read_entry_exec(&toks, i + 1, &kw);
            proof {
                lemma_read_entry_advances(t, i + 1, None, None);
            }
            if fallback.is_none() {
                match (login, password) {
                    (Some(a), Some(b)) => {
                        fallback = Some(
                            Credentials {
                                username: string_of(toks[a].as_slice()),
                                password: string_of(toks[b].as_slice()),
                            },
                        );
                    },
                    _ => {},
                }
            }
            i = end;
        } else {
            i = i + 1;
        }
    }
    if seen {
        None
    } else {
        fallback
    }
}

// ---------------------------------------------------------------------------
// Hosts and writing entries
// ---------------------------------------------------------------------------

/// A host without its `https://` or `http://` prefixes and trailing slashes.
pub open spec fn normalize_host_spec(raw: Seq<char>) -> Seq<char> {
    trim_end_char(
        trim_start_matches(trim_start_matches(raw, "https://"@), "http://"@),
        '/',
    )
}

/// Normalizes a Jira host URL by removing protocol prefixes and trailing
/// slashes.
pub fn normalize_host(raw_host: &str) -> (r: String)
    ensures
        r@ == normalize_host_spec(raw_host@),
{
    let raw = chars_of(raw_host);
    let https = chars_of("https://");
    let http = chars_of("http://");
    let a = trim_start_matches_pos(raw.as_slice(), https.as_slice());
    let rest = slice_range(raw.as_slice(), a, raw.len());
    let b = trim_start_matches_pos(rest.as_slice(), http.as_slice());
    let rest2 = slice_range(rest.as_slice(), b, rest.len());
    let c = trim_end_char_pos(rest2.as_slice(), '/');
    crate::strs::string_of_range(rest2.as_slice(), 0, c)
}


/// The lines written for a machine's entry.
pub open spec fn entry_text(m: Seq<char>, u: Seq<char>, p: Seq<char>) -> Seq<char> {
    "machine "@ + m + seq!['\n'] + "  login "@ + u + seq!['\n'] + "  password "@ + p + seq!['\n']
}

/// The line that names a machine.
pub open spec fn machine_line(m: Seq<char>) -> Seq<char> {
    "machine "@ + m
}

/// The lines from `k` rewritten: the line naming the machine (once trimmed)
/// and the lines after it up to the next `machine` line are replaced by the
/// new entry; every other line is kept, each followed by a line feed.
pub open spec fn rewrite_lines(ls: Seq<Seq<char>>, m: Seq<char>, u: Seq<char>, p: Seq<char>, k: int, skip: bool) -> Seq<
    char,
>
    decreases ls.len() - k,
{
    if k < 0 || k >= ls.len() {
        seq![]
    } else {
        let l = ls[k];
        let t = trim(l);
        if starts_with(t, "machine "@) {
            if t == machine_line(m) {
                entry_text(m, u, p) + rewrite_lines(ls, m, u, p, k + 1, true)
            } else {
                l + seq!['\n'] + rewrite_lines(ls, m, u, p, k + 1, false)
            }
        } else if !skip {
            l + seq!['\n'] + rewrite_lines(ls, m, u, p, k + 1, skip)
        } else {
            rewrite_lines(ls, m, u, p, k + 1, skip)
        }
    }
}

/// The `.netrc` content after writing an entry for machine `m`: if the file
/// names the machine, its entries are rewritten in place; otherwise the entry
/// is appended, after a line feed when the content does not end with one.
pub open spec fn netrc_after_write(existing: Option<Seq<char>>, m: Seq<char>, u: Seq<char>, p: Seq<char>) -> Seq<char> {
    let content = match existing {
        Some(c) => c,
        None => seq![],
    };
    if existing is Some && contains(content, machine_line(m)) {
        rewrite_lines(lines_from(content, 0), m, u, p, 0, false)
    } else {
        content + (if content.len() > 0 && !ends_with(content, seq!['\n']) {
            seq!['\n']
        } else {
            seq![]
        }) + entry_text(m, u, p)
    }
}

fn push_entry(out: &mut String, machine: &str, username: &str, password: &str)
    ensures
        final(out)@ == old(out)@ + entry_text(machine@, username@, password@),
{
    push_str(out, "machine ");
    push_str(out, machine);
    push_char(out, '\n');
    push_str(out, "  login ");
    push_str(out, username);
    push_char(out, '\n');
    push_str(out, "  password ");
    push_str(out, password);
    push_char(out, '\n');
    assert(final(out)@ =~= old(out)@ + entry_text(machine@, username@, password@)) by {
        reveal_strlit("machine ");
        reveal_strlit("  login ");
        reveal_strlit("  password ");
    }
}

/// The new content of a `.netrc` file (its current content, if it exists)
/// once the entry for `machine` holds `username` and `password`.
pub fn updated_netrc_content(existing: Option<&str>, machine: &str, username: &str, password: &str) -> (r: String)
    ensures
        r@ == netrc_after_write(
            match existing {
                Some(c) => Some(c@),
                None => None,
            },
            machine@,
            username@,
            password@,
        ),
{
    let mut line_head = "machine ".to_owned();
    push_str(&mut line_head, machine);
    let named = chars_of(line_head.as_str());
    let ghost mline = machine_line(machine@);
    assert(named@ =~= mline);
    let content = match existing {
        Some(c) => chars_of(c),
        None => Vec::new(),
    };
    let exists = match existing {
        Some(_) => contains_exec(content.as_slice(), named.as_slice()),
        None => false,
    };
    if exists {
        let lines = split_lines(content.as_slice());
        let ghost ls = cviews(lines@);
        let prefix = chars_of("machine ");
        let mut out = String::new();
        let mut skip = false;
        let mut k: usize = 0;
        while k < lines.len()
            invariant
                k <= lines.len(),
                ls == cviews(lines@),
                prefix@ == "machine "@,
                named@ == mline,
                mline == machine_line(machine@),
                out@ + rewrite_lines(ls, machine@, username@, password@, k as int, skip) == rewrite_lines(
                    ls,
                    machine@,
                    username@,
                    password@,
                    0,
                    false,
                ),
            decreases lines.len() - k,
        {
            let line = &lines[k];
            assert(ls[k as int] == line@);
            let (a, b) = trim_bounds(line.as_slice());
            let t = slice_range(line.as_slice(), a, b);
            let ghost before = out@;
            let ghost skip0 = skip;
            if starts_with_exec(t.as_slice(), prefix.as_slice()) {
                if chars_eq(t.as_slice(), named.as_slice()) {
                    skip = true;
                    push_entry(&mut out, machine, username, password);
                } else {
                    skip = false;
                    push_str(&mut out, string_of(line.as_slice()).as_str());
                    push_char(&mut out, '\n');
                    assert(out@ =~= before + (line@ + seq!['\n']));
                }
            } else if !skip {
                push_str(&mut out, string_of(line.as_slice()).as_str());
                push_char(&mut out, '\n');
                assert(out@ =~= before + (line@ + seq!['\n']));
            }
            k = k + 1;
            proof {
                assert(t@ == trim(ls[k - 1]));
                assert(out@ + rewrite_lines(ls, machine@, username@, password@, k as int, skip) =~= before
                    + rewrite_lines(ls, machine@, username@, password@, k - 1, skip0));
            }
        }
        assert(rewrite_lines(ls, machine@, username@, password@, lines.len() as int, skip) =~= seq![]);
        assert(out@ =~= out@ + rewrite_lines(ls, machine@, username@, password@, lines.len() as int, skip));
        out
    } else {
        let mut out = string_of(content.as_slice());
        let n = content.len();
        if n > 0 && content[n - 1] != '\n' {
            push_char(&mut out, '\n');
        }
        proof {
            if n > 0 {
                let sub = content@.subrange(n - 1, n as int);
                assert(sub[0] == content@[n - 1]);
                if content@[n - 1] == '\n' {
                    assert(sub =~= seq!['\n']);
                }
                assert(ends_with(content@, seq!['\n']) == (content@[n - 1] == '\n'));
            }
        }
        push_entry(&mut out, machine, username, password);
        out
    }
}

} // verus!

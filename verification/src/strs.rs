//! Character-level text helpers shared by the parsers and formatters.
//!
//! Every helper works on the `Seq<char>` view of a string. The specification
//! functions here say what a text operation means; the executable functions
//! compute it and are proved against them.
use vstd::prelude::*;

verus! {

// ---------------------------------------------------------------------------
// Character classes
// ---------------------------------------------------------------------------

/// `c` is one of the ASCII digits `0`..=`9`.
pub open spec fn is_digit(c: char) -> bool {
    '0' <= c && c <= '9'
}

/// Whether the regular expression class `\d` of the `regex` crate matches
/// the single character `c` (that class is Unicode `Nd`, the decimal digits
/// of every script).
pub uninterp spec fn regex_decimal_digit(c: char) -> bool;

/// A decimal digit of any script: an ASCII digit, or a character outside
/// ASCII that `\d` matches. (Within ASCII, `\d` matches the ASCII digits
/// and nothing else.)
pub open spec fn is_decimal_digit(c: char) -> bool {
    is_digit(c) || ((c as u32) >= 128 && regex_decimal_digit(c))
}

/// `c` is an ASCII capital letter.
pub open spec fn is_upper(c: char) -> bool {
    'A' <= c && c <= 'Z'
}

/// `c` is an ASCII small letter.
pub open spec fn is_lower(c: char) -> bool {
    'a' <= c && c <= 'z'
}

/// `c` is an ASCII letter.
pub open spec fn is_alpha(c: char) -> bool {
    is_upper(c) || is_lower(c)
}

/// `c` is an ASCII letter or digit.
pub open spec fn is_alnum(c: char) -> bool {
    is_alpha(c) || is_digit(c)
}

/// `c` has the Unicode `White_Space` property.
pub open spec fn is_white(c: char) -> bool {
    ||| ('\u{9}' <= c && c <= '\u{d}')
    ||| c == ' '
    ||| c == '\u{85}'
    ||| c == '\u{a0}'
    ||| c == '\u{1680}'
    ||| ('\u{2000}' <= c && c <= '\u{200a}')
    ||| c == '\u{2028}'
    ||| c == '\u{2029}'
    ||| c == '\u{202f}'
    ||| c == '\u{205f}'
    ||| c == '\u{3000}'
}

/// ASCII upper-casing of one character; other characters are unchanged.
pub open spec fn upper_of(c: char) -> char {
    if is_lower(c) {
        ((c as u32) - 32) as char
    } else {
        c
    }
}

/// ASCII lower-casing of one character; other characters are unchanged.
pub open spec fn lower_of(c: char) -> char {
    if is_upper(c) {
        ((c as u32) + 32) as char
    } else {
        c
    }
}

/// The numeric value of an ASCII digit.
pub open spec fn digit_value(c: char) -> nat {
    ((c as u32) - ('0' as u32)) as nat
}

/// The ASCII digit of a value below ten.
pub open spec fn digit_char(d: nat) -> char {
    ((d + ('0' as u32)) as u32) as char
}

pub fn is_digit_exec(c: char) -> (b: bool)
    ensures
        b == is_digit(c),
{
    '0' <= c && c <= '9'
}

/// Asks the `regex` crate whether `\d` matches `c`: the regular expression
/// `^\d$` (which always compiles) is matched against the character.
/// Claimed: the result is the named predicate of `c`, and on ASCII it is
/// exactly the ASCII digit test, as the crate documents `\d` as `\p{Nd}`.
#[verifier::external_body]
fn regex_matches_decimal_digit(c: char) -> (b: bool)
    ensures
        b == regex_decimal_digit(c),
        (c as u32) < 128 ==> (b == is_digit(c)),
{
    let mut buf = [0u8; 4];
    regex::Regex::new(r"^\d$").map_or(false, |re| re.is_match(c.encode_utf8(&mut buf)))
}

pub fn is_decimal_digit_exec(c: char) -> (b: bool)
    ensures
        b == is_decimal_digit(c),
{
    if is_digit_exec(c) {
        true
    } else if (c as u32) < 128 {
        false
    } else {
        regex_matches_decimal_digit(c)
    }
}

pub fn is_alpha_exec(c: char) -> (b: bool)
    ensures
        b == is_alpha(c),
{
    ('A' <= c && c <= 'Z') || ('a' <= c && c <= 'z')
}

pub fn is_upper_exec(c: char) -> (b: bool)
    ensures
        b == is_upper(c),
{
    'A' <= c && c <= 'Z'
}

pub fn is_alnum_exec(c: char) -> (b: bool)
    ensures
        b == is_alnum(c),
{
    is_alpha_exec(c) || is_digit_exec(c)
}

/// Whether a character is Unicode white space.
pub fn is_white_exec(c: char) -> (b: bool)
    ensures
        b == is_white(c),
{
    ('\u{9}' <= c && c <= '\u{d}') || c == ' ' || c == '\u{85}' || c == '\u{a0}' || c == '\u{1680}'
        || ('\u{2000}' <= c && c <= '\u{200a}') || c == '\u{2028}' || c == '\u{2029}' || c
        == '\u{202f}' || c == '\u{205f}' || c == '\u{3000}'
}

pub fn upper_exec(c: char) -> (r: char)
    ensures
        r == upper_of(c),
{
    if 'a' <= c && c <= 'z' {
        let v: u32 = (c as u32) - 32;
        assert(0x41 <= v <= 0x5a);
        char_from_ascii(v)
    } else {
        c
    }
}

pub fn lower_exec(c: char) -> (r: char)
    ensures
        r == lower_of(c),
{
    if 'A' <= c && c <= 'Z' {
        let v: u32 = (c as u32) + 32;
        char_from_ascii(v)
    } else {
        c
    }
}

/// The character with an ASCII code point.
pub fn char_from_ascii(v: u32) -> (c: char)
    requires
        v < 128,
    ensures
        c == v as char,
        c as u32 == v,
{
    let b: u8 = v as u8;
    b as char
}

// ---------------------------------------------------------------------------
// Sequence predicates
// ---------------------------------------------------------------------------

/// `p` is a prefix of `s`.
pub open spec fn starts_with(s: Seq<char>, p: Seq<char>) -> bool {
    p.len() <= s.len() && s.subrange(0, p.len() as int) == p
}

/// `p` is a suffix of `s`.
pub open spec fn ends_with(s: Seq<char>, p: Seq<char>) -> bool {
    p.len() <= s.len() && s.subrange(s.len() - p.len(), s.len() as int) == p
}

/// `p` occurs in `s` starting at position `i`.
pub open spec fn occurs_at(s: Seq<char>, p: Seq<char>, i: int) -> bool {
    0 <= i && i + p.len() <= s.len() && s.subrange(i, i + p.len()) == p
}

/// `p` occurs somewhere in `s`.
pub open spec fn contains(s: Seq<char>, p: Seq<char>) -> bool {
    exists|i: int| occurs_at(s, p, i)
}

/// Every character of `s` satisfies `f`.
pub open spec fn all_chars(s: Seq<char>, f: spec_fn(char) -> bool) -> bool {
    forall|i: int| 0 <= i < s.len() ==> f(#[trigger] s[i])
}

/// `s` is made of ASCII digits only (and may be empty).
pub open spec fn all_digits(s: Seq<char>) -> bool {
    forall|i: int| 0 <= i < s.len() ==> is_digit(#[trigger] s[i])
}

/// `s` is made of decimal digits of any script (and may be empty).
pub open spec fn all_decimal_digits(s: Seq<char>) -> bool {
    forall|i: int| 0 <= i < s.len() ==> is_decimal_digit(#[trigger] s[i])
}

/// Character-wise ASCII upper-casing.
pub open spec fn upper_seq(s: Seq<char>) -> Seq<char> {
    s.map_values(|c: char| upper_of(c))
}

/// Character-wise ASCII lower-casing.
pub open spec fn lower_seq(s: Seq<char>) -> Seq<char> {
    s.map_values(|c: char| lower_of(c))
}

/// `s` with leading white space removed.
pub open spec fn trim_start(s: Seq<char>) -> Seq<char>
    decreases s.len(),
{
    if s.len() > 0 && is_white(s[0]) {
        trim_start(s.drop_first())
    } else {
        s
    }
}

/// `s` with trailing white space removed.
pub open spec fn trim_end(s: Seq<char>) -> Seq<char>
    decreases s.len(),
{
    if s.len() > 0 && is_white(s.last()) {
        trim_end(s.drop_last())
    } else {
        s
    }
}

/// `s` with white space removed at both ends.
pub open spec fn trim(s: Seq<char>) -> Seq<char> {
    trim_end(trim_start(s))
}

/// `s` with every leading copy of the non-empty pattern `p` removed.
pub open spec fn trim_start_matches(s: Seq<char>, p: Seq<char>) -> Seq<char>
    decreases s.len(),
{
    if p.len() > 0 && starts_with(s, p) {
        trim_start_matches(s.subrange(p.len() as int, s.len() as int), p)
    } else {
        s
    }
}

/// `s` with every trailing copy of `c` removed.
pub open spec fn trim_end_char(s: Seq<char>, c: char) -> Seq<char>
    decreases s.len(),
{
    if s.len() > 0 && s.last() == c {
        trim_end_char(s.drop_last(), c)
    } else {
        s
    }
}

// ---------------------------------------------------------------------------
// Numbers
// ---------------------------------------------------------------------------

/// The value of a string of decimal digits, most significant first.
pub open spec fn digits_value(s: Seq<char>) -> nat
    decreases s.len(),
{
    if s.len() == 0 {
        0
    } else {
        digits_value(s.drop_last()) * 10 + digit_value(s.last())
    }
}

/// The part of `s` after an optional leading `+`.
pub open spec fn unsigned_digits(s: Seq<char>) -> Seq<char> {
    if s.len() > 0 && s[0] == '+' {
        s.drop_first()
    } else {
        s
    }
}

/// What `u32::from_str` accepts: an optional `+`, then at least one ASCII
/// digit, with a value that fits in 32 bits.
pub open spec fn parse_u32_spec(s: Seq<char>) -> Option<u32> {
    let d = unsigned_digits(s);
    if d.len() > 0 && all_digits(d) && digits_value(d) <= u32::MAX {
        Some(digits_value(d) as u32)
    } else {
        None
    }
}

/// The shortest decimal representation of `n`.
pub open spec fn decimal(n: nat) -> Seq<char>
    decreases n,
{
    if n < 10 {
        seq![digit_char(n)]
    } else {
        decimal(n / 10).push(digit_char(n % 10))
    }
}

// ---------------------------------------------------------------------------
// Conversions between strings and character vectors
// ---------------------------------------------------------------------------

/// Appends one character to the end of a string.
#[verifier::external_body]
pub(crate) fn push_char(s: &mut String, c: char)
    ensures
        final(s)@ == old(s)@.push(c),
{
    s.push(c);
}

/// Appends a string slice to the end of a string.
#[verifier::external_body]
pub(crate) fn push_str(s: &mut String, t: &str)
    ensures
        final(s)@ == old(s)@ + t@,
{
    s.push_str(t);
}

/// The characters of a string slice, in order.
pub fn chars_of(s: &str) -> (v: Vec<char>)
    ensures
        v@ == s@,
{
    let mut v: Vec<char> = Vec::new();
    for c in it: s.chars()
        invariant
            v@ == it.seq().take(it.index() as int),
    {
        v.push(c);
    }
    v
}

/// A string holding the given characters.
pub fn string_of(v: &[char]) -> (s: String)
    ensures
        s@ == v@,
{
    let mut s = String::new();
    let mut i: usize = 0;
    while i < v.len()
        invariant
            i <= v.len(),
            s@ == v@.take(i as int),
        decreases v.len() - i,
    {
        push_char(&mut s, v[i]);
        i = i + 1;
        assert(s@ == v@.take(i as int));
    }
    assert(v@.take(v.len() as int) == v@);
    s
}

/// A string holding the characters `v[from..to]`.
pub fn string_of_range(v: &[char], from: usize, to: usize) -> (s: String)
    requires
        from <= to <= v.len(),
    ensures
        s@ == v@.subrange(from as int, to as int),
{
    let mut s = String::new();
    let mut i: usize = from;
    while i < to
        invariant
            from <= i <= to <= v.len(),
            s@ == v@.subrange(from as int, i as int),
        decreases to - i,
    {
        push_char(&mut s, v[i]);
        i = i + 1;
        assert(s@ == v@.subrange(from as int, i as int));
    }
    s
}

/// What `str::to_lowercase` returns for a string: its Unicode lower-case
/// mapping.
pub uninterp spec fn unicode_lowercase(s: Seq<char>) -> Seq<char>;

/// `str::to_lowercase`.
#[verifier::external_body]
pub(crate) fn to_lowercase(s: &str) -> (r: String)
    ensures
        r@ == unicode_lowercase(s@),
{
    s.to_lowercase()
}

/// The first character that `char::to_lowercase` yields for a character.
pub uninterp spec fn char_lowercase_first(c: char) -> char;

/// The first character of `char::to_lowercase` (the iterator always yields
/// at least one character).
#[verifier::external_body]
pub(crate) fn first_lowercase_char(c: char) -> (r: char)
    ensures
        r == char_lowercase_first(c),
{
    c.to_lowercase().next().unwrap_or(c)
}

/// Copy of a string slice as an owned string.
pub fn owned(s: &str) -> (r: String)
    ensures
        r@ == s@,
{
    s.to_owned()
}

/// Concatenation of two string slices.
pub fn concat(a: &str, b: &str) -> (r: String)
    ensures
        r@ == a@ + b@,
{
    let mut r = a.to_owned();
    push_str(&mut r, b);
    r
}

// ---------------------------------------------------------------------------
// Executable predicates on character slices
// ---------------------------------------------------------------------------

/// Whether `p` occurs in `s` at position `i`.
pub fn occurs_at_exec(s: &[char], p: &[char], i: usize) -> (b: bool)
    ensures
        b == occurs_at(s@, p@, i as int),
{
    if i > s.len() || p.len() > s.len() - i {
        return false;
    }
    let mut k: usize = 0;
    while k < p.len()
        invariant
            i + p.len() <= s.len(),
            k <= p.len(),
            forall|j: int| 0 <= j < k ==> s@[i + j] == p@[j],
        decreases p.len() - k,
    {
        if s[i + k] != p[k] {
            assert(s@.subrange(i as int, i + p.len())[k as int] != p@[k as int]);
            return false;
        }
        k = k + 1;
    }
    assert(s@.subrange(i as int, i + p.len()) =~= p@);
    true
}

/// Whether `s` starts with `p`.
pub fn starts_with_exec(s: &[char], p: &[char]) -> (b: bool)
    ensures
        b == starts_with(s@, p@),
{
    let b = occurs_at_exec(s, p, 0);
    b
}

/// Whether `s` ends with `p`.
pub fn ends_with_exec(s: &[char], p: &[char]) -> (b: bool)
    ensures
        b == ends_with(s@, p@),
{
    if p.len() > s.len() {
        return false;
    }
    let b = occurs_at_exec(s, p, s.len() - p.len());
    b
}

/// The first position at or after `from` where `p` occurs in `s`, if any.
pub fn find_from(s: &[char], p: &[char], from: usize) -> (r: Option<usize>)
    ensures
        match r {
            Some(i) => from <= i && occurs_at(s@, p@, i as int) && forall|j: int|
                from <= j < i ==> !occurs_at(s@, p@, j),
            None => forall|j: int| from <= j ==> !occurs_at(s@, p@, j),
        },
{
    if from > s.len() {
        return None;
    }
    let mut i: usize = from;
    while i < s.len()
        invariant
            from <= i <= s.len(),
            forall|j: int| from <= j < i ==> !occurs_at(s@, p@, j),
        decreases s.len() - i,
    {
        if occurs_at_exec(s, p, i) {
            return Some(i);
        }
        i = i + 1;
    }
    if occurs_at_exec(s, p, i) {
        return Some(i);
    }
    None
}

/// Whether `p` occurs anywhere in `s`.
pub fn contains_exec(s: &[char], p: &[char]) -> (b: bool)
    ensures
        b == contains(s@, p@),
{
    match find_from(s, p, 0) {
        Some(i) => true,
        None => {
            assert forall|j: int| !occurs_at(s@, p@, j) by {
                if j >= 0 {
                }
            }
            false
        },
    }
}

/// Whether the character `c` occurs in `s`.
pub fn contains_char(s: &[char], c: char) -> (b: bool)
    ensures
        b == s@.contains(c),
{
    let mut i: usize = 0;
    while i < s.len()
        invariant
            i <= s.len(),
            forall|j: int| 0 <= j < i ==> s@[j] != c,
        decreases s.len() - i,
    {
        if s[i] == c {
            return true;
        }
        i = i + 1;
    }
    false
}

/// Whether two character slices are equal.
pub fn chars_eq(a: &[char], b: &[char]) -> (r: bool)
    ensures
        r == (a@ == b@),
{
    if a.len() != b.len() {
        return false;
    }
    let r = occurs_at_exec(a, b, 0);
    assert(a@.subrange(0, b@.len() as int) =~= a@);
    r
}

/// Whether two string slices hold the same characters.
pub fn str_eq(a: &str, b: &str) -> (r: bool)
    ensures
        r == (a@ == b@),
{
    let x = chars_of(a);
    let y = chars_of(b);
    chars_eq(x.as_slice(), y.as_slice())
}

/// Character-wise ASCII upper-casing.
pub fn upper_chars(s: &[char]) -> (r: Vec<char>)
    ensures
        r@ == upper_seq(s@),
{
    let mut r: Vec<char> = Vec::new();
    let mut i: usize = 0;
    while i < s.len()
        invariant
            i <= s.len(),
            r@ == upper_seq(s@.take(i as int)),
        decreases s.len() - i,
    {
        let c = upper_exec(s[i]);
        r.push(c);
        i = i + 1;
        assert(upper_seq(s@.take(i as int)) =~= upper_seq(s@.take(i - 1)).push(c));
    }
    assert(s@.take(s.len() as int) == s@);
    r
}

/// Character-wise ASCII lower-casing.
pub fn lower_chars(s: &[char]) -> (r: Vec<char>)
    ensures
        r@ == lower_seq(s@),
{
    let mut r: Vec<char> = Vec::new();
    let mut i: usize = 0;
    while i < s.len()
        invariant
            i <= s.len(),
            r@ == lower_seq(s@.take(i as int)),
        decreases s.len() - i,
    {
        let c = lower_exec(s[i]);
        r.push(c);
        i = i + 1;
        assert(lower_seq(s@.take(i as int)) =~= lower_seq(s@.take(i - 1)).push(c));
    }
    assert(s@.take(s.len() as int) == s@);
    r
}

// ---------------------------------------------------------------------------
// Trimming
// ---------------------------------------------------------------------------

/// `trim_start` removes exactly the white-space prefix ending at the first
/// non-white character.
pub proof fn lemma_trim_start_skip(s: Seq<char>, i: int)
    requires
        0 <= i <= s.len(),
        forall|j: int| 0 <= j < i ==> is_white(#[trigger] s[j]),
        i == s.len() || !is_white(s[i]),
    ensures
        trim_start(s) == s.subrange(i, s.len() as int),
    decreases i,
{
    if i == 0 {
        assert(s.subrange(0, s.len() as int) =~= s);
    } else {
        assert(is_white(s[0]));
        lemma_trim_start_skip(s.drop_first(), i - 1);
        assert(s.drop_first().subrange(i - 1, s.len() - 1) =~= s.subrange(i, s.len() as int));
    }
}

/// `trim_end` removes exactly the white-space suffix starting after the last
/// non-white character.
pub proof fn lemma_trim_end_cut(s: Seq<char>, k: int)
    requires
        0 <= k <= s.len(),
        forall|j: int| k <= j < s.len() ==> is_white(#[trigger] s[j]),
        k == 0 || !is_white(s[k - 1]),
    ensures
        trim_end(s) == s.subrange(0, k),
    decreases s.len() - k,
{
    if k == s.len() {
        assert(s.subrange(0, k) =~= s);
    } else {
        assert(is_white(s.last()));
        lemma_trim_end_cut(s.drop_last(), k);
        assert(s.drop_last().subrange(0, k) =~= s.subrange(0, k));
    }
}

/// Bounds `(start, end)` such that `s[start..end]` is `trim(s)`.
pub fn trim_bounds(s: &[char]) -> (r: (usize, usize))
    ensures
        r.0 <= r.1 <= s.len(),
        s@.subrange(r.0 as int, r.1 as int) == trim(s@),
        trim_start(s@) == s@.subrange(r.0 as int, s.len() as int),
{
    let mut i: usize = 0;
    while i < s.len() && is_white_exec(s[i])
        invariant
            i <= s.len(),
            forall|j: int| 0 <= j < i ==> is_white(#[trigger] s@[j]),
        decreases s.len() - i,
    {
        i = i + 1;
    }
    proof {
        lemma_trim_start_skip(s@, i as int);
    }
    let mut k: usize = s.len();
    while k > i && is_white_exec(s[k - 1])
        invariant
            i <= k <= s.len(),
            forall|j: int| k <= j < s.len() ==> is_white(#[trigger] s@[j]),
        decreases k,
    {
        k = k - 1;
    }
    proof {
        let t = s@.subrange(i as int, s.len() as int);
        assert forall|j: int| k - i <= j < t.len() implies is_white(#[trigger] t[j]) by {
            assert(t[j] == s@[i + j]);
        }
        if k > i {
            assert(t[k - i - 1] == s@[k - 1]);
        }
        lemma_trim_end_cut(t, k - i);
        assert(t.subrange(0, k - i) =~= s@.subrange(i as int, k as int));
    }
    (i, k)
}

/// `s` with white space removed at both ends.
pub fn trim_chars(s: &[char]) -> (r: Vec<char>)
    ensures
        r@ == trim(s@),
{
    let (a, b) = trim_bounds(s);
    slice_range(s, a, b)
}

/// The characters `s[from..to]` as a new vector.
pub fn slice_range(s: &[char], from: usize, to: usize) -> (r: Vec<char>)
    requires
        from <= to <= s.len(),
    ensures
        r@ == s@.subrange(from as int, to as int),
{
    let mut r: Vec<char> = Vec::new();
    let mut i: usize = from;
    while i < to
        invariant
            from <= i <= to <= s.len(),
            r@ == s@.subrange(from as int, i as int),
        decreases to - i,
    {
        r.push(s[i]);
        i = i + 1;
        assert(r@ =~= s@.subrange(from as int, i as int));
    }
    r
}

/// The start of what remains after removing every leading copy of `p`.
pub fn trim_start_matches_pos(s: &[char], p: &[char]) -> (i: usize)
    ensures
        i <= s.len(),
        s@.subrange(i as int, s.len() as int) == trim_start_matches(s@, p@),
{
    if p.len() == 0 {
        assert(s@.subrange(0, s.len() as int) =~= s@);
        return 0;
    }
    let mut i: usize = 0;
    assert(s@.subrange(0, s.len() as int) =~= s@);
    while p.len() <= s.len() - i && occurs_at_exec(s, p, i)
        invariant
            p.len() > 0,
            i <= s.len(),
            trim_start_matches(s@.subrange(i as int, s.len() as int), p@) == trim_start_matches(
                s@,
                p@,
            ),
        decreases s.len() - i,
    {
        let ghost rest = s@.subrange(i as int, s.len() as int);
        assert(rest.subrange(0, p.len() as int) =~= s@.subrange(i as int, i + p.len()));
        assert(rest.subrange(p.len() as int, rest.len() as int) =~= s@.subrange(
            i + p.len(),
            s.len() as int,
        ));
        i = i + p.len();
    }
    proof {
        let rest = s@.subrange(i as int, s.len() as int);
        if p.len() <= rest.len() {
            assert(rest.subrange(0, p.len() as int) =~= s@.subrange(i as int, i + p.len()));
        }
    }
    i
}

/// The end of what remains after removing every trailing copy of `c`.
pub fn trim_end_char_pos(s: &[char], c: char) -> (k: usize)
    ensures
        k <= s.len(),
        s@.subrange(0, k as int) == trim_end_char(s@, c),
{
    let mut k: usize = s.len();
    assert(s@.subrange(0, s.len() as int) =~= s@);
    while k > 0 && s[k - 1] == c
        invariant
            k <= s.len(),
            trim_end_char(s@.subrange(0, k as int), c) == trim_end_char(s@, c),
        decreases k,
    {
        assert(s@.subrange(0, k as int).drop_last() =~= s@.subrange(0, k - 1));
        k = k - 1;
    }
    k
}

// ---------------------------------------------------------------------------
// Runs of a character class
// ---------------------------------------------------------------------------

/// A class of characters that the small grammars in this crate use.
#[derive(Clone, Copy, PartialEq, Eq, Structural)]
pub enum CharClass {
    Alpha,
    Upper,
    /// A decimal digit of any script, as `\d` matches it.
    DecimalDigit,
    /// Anything but `/`.
    NotSlash,
    /// Anything but `/` and `.`.
    NotSlashDot,
}

/// Whether `c` belongs to the class.
pub open spec fn in_class(cls: CharClass, c: char) -> bool {
    match cls {
        CharClass::Alpha => is_alpha(c),
        CharClass::Upper => is_upper(c),
        CharClass::DecimalDigit => is_decimal_digit(c),
        CharClass::NotSlash => c != '/',
        CharClass::NotSlashDot => c != '/' && c != '.',
    }
}

/// The length of the longest prefix of `s` whose characters are all in `cls`.
pub open spec fn run_len(s: Seq<char>, cls: CharClass) -> nat
    decreases s.len(),
{
    if s.len() > 0 && in_class(cls, s[0]) {
        1 + run_len(s.drop_first(), cls)
    } else {
        0
    }
}

pub fn in_class_exec(cls: CharClass, c: char) -> (b: bool)
    ensures
        b == in_class(cls, c),
{
    match cls {
        CharClass::Alpha => is_alpha_exec(c),
        CharClass::Upper => is_upper_exec(c),
        CharClass::DecimalDigit => is_decimal_digit_exec(c),
        CharClass::NotSlash => c != '/',
        CharClass::NotSlashDot => c != '/' && c != '.',
    }
}

/// A maximal run of class characters has the length `run_len` gives.
pub proof fn lemma_run_len(s: Seq<char>, cls: CharClass, k: int)
    requires
        0 <= k <= s.len(),
        forall|j: int| 0 <= j < k ==> in_class(cls, #[trigger] s[j]),
        k == s.len() || !in_class(cls, s[k]),
    ensures
        run_len(s, cls) == k,
    decreases k,
{
    if k > 0 {
        assert(in_class(cls, s[0]));
        lemma_run_len(s.drop_first(), cls, k - 1);
    }
}

/// The characters of a run are all in the class, and the run is maximal.
pub proof fn lemma_run_len_facts(s: Seq<char>, cls: CharClass)
    ensures
        run_len(s, cls) <= s.len(),
        forall|j: int| 0 <= j < run_len(s, cls) ==> in_class(cls, #[trigger] s[j]),
        run_len(s, cls) == s.len() || !in_class(cls, s[run_len(s, cls) as int]),
    decreases s.len(),
{
    if s.len() > 0 && in_class(cls, s[0]) {
        lemma_run_len_facts(s.drop_first(), cls);
        assert forall|j: int| 0 <= j < run_len(s, cls) implies in_class(cls, #[trigger] s[j]) by {
            if j > 0 {
                assert(s[j] == s.drop_first()[j - 1]);
            }
        }
    }
}

/// The length of the run of class characters that starts at `from`.
pub fn run_len_from(s: &[char], from: usize, cls: CharClass) -> (k: usize)
    requires
        from <= s.len(),
    ensures
        from + k <= s.len(),
        k == run_len(s@.subrange(from as int, s.len() as int), cls),
{
    let mut i: usize = from;
    while i < s.len() && in_class_exec(cls, s[i])
        invariant
            from <= i <= s.len(),
            forall|j: int| from <= j < i ==> in_class(cls, #[trigger] s@[j]),
        decreases s.len() - i,
    {
        i = i + 1;
    }
    proof {
        let t = s@.subrange(from as int, s.len() as int);
        assert forall|j: int| 0 <= j < i - from implies in_class(cls, #[trigger] t[j]) by {
            assert(t[j] == s@[from + j]);
        }
        if i < s.len() {
            assert(t[i - from] == s@[i as int]);
        }
        lemma_run_len(t, cls, i - from);
    }
    i - from
}

// ---------------------------------------------------------------------------
// Numbers
// ---------------------------------------------------------------------------

/// `digits_value` grows by one digit at a time.
pub proof fn lemma_digits_value_push(s: Seq<char>, c: char)
    ensures
        digits_value(s.push(c)) == digits_value(s) * 10 + digit_value(c),
{
    assert(s.push(c).drop_last() =~= s);
}

/// Parses a decimal `u32` the way `u32::from_str` does.
pub fn parse_u32(s: &[char]) -> (r: Option<u32>)
    ensures
        r == parse_u32_spec(s@),
{
    let start: usize = if s.len() > 0 && s[0] == '+' {
        1
    } else {
        0
    };
    let ghost d = unsigned_digits(s@);
    assert(d =~= s@.subrange(start as int, s.len() as int));
    if start >= s.len() {
        return None;
    }
    let mut value: u64 = 0;
    let mut i: usize = start;
    while i < s.len()
        invariant
            start <= i <= s.len(),
            d == unsigned_digits(s@),
            d == s@.subrange(start as int, s.len() as int),
            all_digits(s@.subrange(start as int, i as int)),
            value == digits_value(s@.subrange(start as int, i as int)),
            value <= u32::MAX,
        decreases s.len() - i,
    {
        let c = s[i];
        if !is_digit_exec(c) {
            assert(d[i - start] == c);
            assert(!is_digit(d[i - start]));
            assert(!all_digits(d));
            return None;
        }
        let dv: u64 = ((c as u32) - ('0' as u32)) as u64;
        proof {
            lemma_digits_value_push(s@.subrange(start as int, i as int), c);
            assert(s@.subrange(start as int, i as int).push(c) =~= s@.subrange(
                start as int,
                i + 1,
            ));
        }
        let next: u64 = value * 10 + dv;
        if next > 0xffff_ffff {
            proof {
                if all_digits(d) {
                    lemma_digits_prefix_bound(d, (i + 1 - start) as int);
                    assert(d.subrange(0, (i + 1 - start) as int) =~= s@.subrange(
                        start as int,
                        i + 1,
                    ));
                }
            }
            return None;
        }
        value = next;
        i = i + 1;
    }
    Some(value as u32)
}

/// A prefix of a digit string never has a larger value than the whole.
pub proof fn lemma_digits_prefix_bound(d: Seq<char>, k: int)
    requires
        0 <= k <= d.len(),
        all_digits(d),
    ensures
        digits_value(d.subrange(0, k)) <= digits_value(d),
    decreases d.len() - k,
{
    if k == d.len() {
        assert(d.subrange(0, k) =~= d);
    } else {
        lemma_digits_prefix_bound(d, k + 1);
        assert(d.subrange(0, k + 1).drop_last() =~= d.subrange(0, k));
        assert(is_digit(d[k]));
    }
}

/// Appends the decimal digits of `n` to `out`.
pub fn push_decimal(out: &mut Vec<char>, n: u64)
    ensures
        final(out)@ == old(out)@ + decimal(n as nat),
    decreases n,
{
    if n < 10 {
        let c = char_from_ascii((n as u32) + 48);
        out.push(c);
        assert(decimal(n as nat) =~= seq![c]);
    } else {
        push_decimal(out, n / 10);
        let c = char_from_ascii(((n % 10) as u32) + 48);
        out.push(c);
        assert(decimal(n as nat) == decimal((n / 10) as nat).push(digit_char((n % 10) as nat)));
    }
}

/// The decimal representation of `n`.
pub fn decimal_string(n: u64) -> (s: String)
    ensures
        s@ == decimal(n as nat),
{
    let mut v: Vec<char> = Vec::new();
    push_decimal(&mut v, n);
    assert(v@ =~= decimal(n as nat));
    string_of(&v)
}

/// Appends the decimal digits of a wide number to `out`.
pub fn push_decimal_wide(out: &mut Vec<char>, n: u128)
    ensures
        final(out)@ == old(out)@ + decimal(n as nat),
    decreases n,
{
    if n < 10 {
        let c = char_from_ascii((n as u32) + 48);
        out.push(c);
        assert(decimal(n as nat) =~= seq![c]);
    } else {
        push_decimal_wide(out, n / 10);
        let c = char_from_ascii(((n % 10) as u32) + 48);
        out.push(c);
        assert(decimal(n as nat) == decimal((n / 10) as nat).push(digit_char((n % 10) as nat)));
    }
}

/// Every decimal representation has at least one digit, and two or more
/// from ten on.
pub proof fn lemma_decimal_len(n: nat)
    ensures
        decimal(n).len() >= 1,
        n >= 10 ==> decimal(n).len() >= 2,
    decreases n,
{
    if n >= 10 {
        lemma_decimal_len(n / 10);
    }
}

/// Distinct numbers have distinct decimal representations.
pub proof fn lemma_decimal_injective(a: nat, b: nat)
    requires
        decimal(a) == decimal(b),
    ensures
        a == b,
    decreases a,
{
    lemma_decimal_len(a);
    lemma_decimal_len(b);
    if a < 10 && b < 10 {
        assert(decimal(a)[0] == digit_char(a));
        assert(decimal(b)[0] == digit_char(b));
        assert(digit_char(a) as u32 == a + 48);
        assert(digit_char(b) as u32 == b + 48);
    } else if a >= 10 && b >= 10 {
        let da = decimal(a);
        let db = decimal(b);
        assert(da.drop_last() == decimal(a / 10));
        assert(db.drop_last() == decimal(b / 10));
        lemma_decimal_injective(a / 10, b / 10);
        assert(da.last() == digit_char(a % 10));
        assert(db.last() == digit_char(b % 10));
        assert(digit_char(a % 10) as u32 == a % 10 + 48);
        assert(digit_char(b % 10) as u32 == b % 10 + 48);
    } else {
        assert(decimal(a).len() != decimal(b).len());
    }
}

} // verus!

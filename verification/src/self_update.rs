//! Release asset selection and version parsing for `twig self update`.
//!
//! Downloading, unpacking and replacing the running binary are I/O and stay
//! with the application; this module decides which release asset belongs to
//! the running platform and reads versions out of program output.
use vstd::prelude::*;

use crate::strs::{
    chars_of, chars_eq, contains, contains_exec, ends_with, ends_with_exec, is_digit, is_digit_exec,
    is_white, is_white_exec, owned, slice_range, str_eq, string_of, string_of_range, to_lowercase,
    trim_start_matches, trim_start_matches_pos, unicode_lowercase,
};

verus! {

/// Options controlling how the `twig self update` command behaves.
#[derive(Debug, Clone, Copy)]
pub struct SelfUpdateOptions {
    /// Install the latest release even if the current version matches.
    pub force: bool,
}

/// Options controlling how `twig self update flow` behaves.
#[derive(Debug, Clone, Copy)]
pub struct PluginInstallOptions {
    /// Reinstall even if the installed plugin already matches the latest
    /// release.
    pub force: bool,
}

/// A downloadable asset attached to a GitHub release.
#[derive(Debug, Clone)]
pub struct GithubAsset {
    /// Filename of the asset (e.g., `twig-linux-x86_64-v0.5.0.tar.gz`).
    pub name: String,
    /// Direct download URL for the asset.
    pub browser_download_url: String,
}

/// A GitHub release.
#[derive(Debug, Clone)]
pub struct GithubRelease {
    /// The release tag, typically in the form `vX.Y.Z`.
    pub tag_name: String,
    /// Downloadable assets attached to the release.
    pub assets: Vec<GithubAsset>,
}

/// Platform conventions for selecting and extracting release assets.
#[derive(Debug, Clone)]
pub struct TargetConfig {
    /// Substrings that identify a matching operating system.
    pub os_markers: Vec<String>,
    /// Substrings that identify a matching CPU architecture.
    pub arch_markers: Vec<String>,
    /// Expected archive extension (e.g., `.tar.gz` or `.zip`).
    pub archive_extension: String,
    /// Name of the binary inside the archive.
    pub binary_name: String,
}

/// The character views of a sequence of strings.
pub open spec fn string_views(v: Seq<String>) -> Seq<Seq<char>> {
    v.map_values(|s: String| s@)
}

/// `s` split at every `c`, as `str::split` with a character pattern does
/// (an empty string gives one empty part).
pub open spec fn split_spec(s: Seq<char>, c: char) -> Seq<Seq<char>>
    decreases s.len(),
{
    if s.len() == 0 {
        seq![Seq::<char>::empty()]
    } else {
        let t = split_spec(s.drop_last(), c);
        if s.last() == c {
            t.push(Seq::<char>::empty())
        } else {
            t.update(t.len() - 1, t.last().push(s.last()))
        }
    }
}

/// The parts joined with `c` between neighbours.
pub open spec fn join_spec(parts: Seq<Seq<char>>, c: char) -> Seq<char>
    decreases parts.len(),
{
    if parts.len() == 0 {
        Seq::<char>::empty()
    } else if parts.len() == 1 {
        parts[0]
    } else {
        join_spec(parts.drop_last(), c).push(c) + parts.last()
    }
}

pub proof fn lemma_split_nonempty(s: Seq<char>, c: char)
    ensures
        split_spec(s, c).len() >= 1,
    decreases s.len(),
{
    if s.len() > 0 {
        lemma_split_nonempty(s.drop_last(), c);
    }
}

/// `.exe`
pub open spec fn exe_suffix() -> Seq<char> {
    seq!['.', 'e', 'x', 'e']
}

/// The product name: the binary name without a trailing `.exe`.
pub open spec fn product_name_spec(binary_name: Seq<char>) -> Seq<char> {
    if ends_with(binary_name, exe_suffix()) {
        binary_name.subrange(0, binary_name.len() - 4)
    } else {
        binary_name
    }
}

/// Some marker occurs in `segment`.
pub open spec fn any_marker_in(markers: Seq<Seq<char>>, segment: Seq<char>) -> bool {
    exists|i: int| 0 <= i < markers.len() && contains(segment, #[trigger] markers[i])
}

/// One of the OS markers names macOS.
pub open spec fn has_macos_marker(markers: Seq<Seq<char>>) -> bool {
    exists|i: int| 0 <= i < markers.len() && (#[trigger] markers[i] == "macos"@ || markers[i] == "darwin"@)
}

/// Whether a lower-cased asset name matches a target: it ends with the
/// archive extension; the rest, split at `-`, starts with the product name's
/// parts, then an OS part holding an OS marker, then an architecture part
/// holding an architecture marker (or, for macOS, `universal`).
pub open spec fn matches_lowercase_spec(
    os_markers: Seq<Seq<char>>,
    arch_markers: Seq<Seq<char>>,
    ext: Seq<char>,
    binary_name: Seq<char>,
    name: Seq<char>,
) -> bool {
    let trimmed = name.subrange(0, name.len() - ext.len());
    let parts = split_spec(trimmed, '-');
    let product_parts = split_spec(product_name_spec(binary_name), '-');
    let k = product_parts.len() as int;
    &&& ends_with(name, ext)
    &&& parts.len() >= k + 2
    &&& join_spec(parts.take(k), '-') == join_spec(product_parts, '-')
    &&& any_marker_in(os_markers, parts[k])
    &&& (any_marker_in(arch_markers, parts[k + 1]) || (has_macos_marker(os_markers) && contains(
        parts[k + 1],
        "universal"@,
    )))
}

impl TargetConfig {
    pub open spec fn os_view(&self) -> Seq<Seq<char>> {
        string_views(self.os_markers@)
    }

    pub open spec fn arch_view(&self) -> Seq<Seq<char>> {
        string_views(self.arch_markers@)
    }

    /// Whether an asset name matches, compared after `str::to_lowercase`.
    pub open spec fn matches_spec(&self, name: Seq<char>) -> bool {
        matches_lowercase_spec(
            self.os_view(),
            self.arch_view(),
            self.archive_extension@,
            self.binary_name@,
            unicode_lowercase(name),
        )
    }

    /// The product name without any platform-specific suffix.
    pub fn product_name(&self) -> (r: String)
        ensures
            r@ == product_name_spec(self.binary_name@),
    {
        let b = chars_of(self.binary_name.as_str());
        let exe: [char; 4] = ['.', 'e', 'x', 'e'];
        assert(exe@ =~= exe_suffix());
        if ends_with_exec(b.as_slice(), exe.as_slice()) {
            string_of_range(b.as_slice(), 0, b.len() - 4)
        } else {
            self.binary_name.clone()
        }
    }

    /// Whether the asset's file name matches this target (case-insensitive).
    pub fn matches(&self, asset: &GithubAsset) -> (b: bool)
        ensures
            b == self.matches_spec(asset.name@),
    {
        let lower = to_lowercase(asset.name.as_str());
        self.matches_lowercase(lower.as_str())
    }

    /// Whether an already lower-cased asset name matches this target.
    pub fn matches_lowercase(&self, name: &str) -> (b: bool)
        ensures
            b == matches_lowercase_spec(
                self.os_view(),
                self.arch_view(),
                self.archive_extension@,
                self.binary_name@,
                name@,
            ),
    {
        let n = chars_of(name);
        let ext = chars_of(self.archive_extension.as_str());
        if !ends_with_exec(n.as_slice(), ext.as_slice()) {
            return false;
        }
        let trimmed = slice_range(n.as_slice(), 0, n.len() - ext.len());
        let parts = split_chars(trimmed.as_slice(), '-');
        let product = self.product_name();
        let pchars = chars_of(product.as_str());
        let product_parts = split_chars(pchars.as_slice(), '-');
        let k = product_parts.len();
        if parts.len() < 2 || parts.len() - 2 < k {
            return false;
        }
        let mut head: Vec<Vec<char>> = Vec::new();
        let mut i: usize = 0;
        while i < k
            invariant
                i <= k,
                k + 2 <= parts.len(),
                vviews(head@) == vviews(parts@).take(i as int),
            decreases k - i,
        {
            let part = slice_range(parts[i].as_slice(), 0, parts[i].len());
            assert(vviews(parts@)[i as int] == parts@[i as int]@);
            assert(part@ =~= parts@[i as int]@);
            let ghost old_head = head@;
            head.push(part);
            assert(vviews(head@) =~= vviews(old_head).push(part@));
            i = i + 1;
            assert(vviews(head@) =~= vviews(parts@).take(i as int));
        }
        let asset_product = join_chars(&head, '-');
        let product_segment = join_chars(&product_parts, '-');
        if !chars_eq(asset_product.as_slice(), product_segment.as_slice()) {
            return false;
        }
        let os_match = any_marker_exec(&self.os_markers, parts[k].as_slice());
        if !os_match {
            return false;
        }
        let arch_segment = parts[k + 1].as_slice();
        let mut arch_match = any_marker_exec(&self.arch_markers, arch_segment);
        if !arch_match && has_macos_marker_exec(&self.os_markers) {
            arch_match = contains_exec(arch_segment, chars_of("universal").as_slice());
        }
        arch_match
    }
}

/// The character views of a vector of character vectors.
pub open spec fn vviews(v: Seq<Vec<char>>) -> Seq<Seq<char>> {
    v.map_values(|x: Vec<char>| x@)
}

/// `s` split at every `c`.
pub fn split_chars(s: &[char], c: char) -> (r: Vec<Vec<char>>)
    ensures
        vviews(r@) == split_spec(s@, c),
{
    let mut done: Vec<Vec<char>> = Vec::new();
    let mut cur: Vec<char> = Vec::new();
    let mut i: usize = 0;
    assert(s@.take(0) =~= Seq::<char>::empty());
    assert(vviews(done@).push(cur@) =~= split_spec(s@.take(0), c));
    while i < s.len()
        invariant
            i <= s.len(),
            vviews(done@).push(cur@) == split_spec(s@.take(i as int), c),
        decreases s.len() - i,
    {
        let ch = s[i];
        proof {
            assert(s@.take(i + 1).drop_last() =~= s@.take(i as int));
        }
        if ch == c {
            done.push(cur);
            cur = Vec::new();
            assert(vviews(done@).push(cur@) =~= split_spec(s@.take(i + 1), c));
        } else {
            cur.push(ch);
            assert(vviews(done@).push(cur@) =~= split_spec(s@.take(i + 1), c));
        }
        i = i + 1;
    }
    done.push(cur);
    assert(s@.take(s.len() as int) =~= s@);
    done
}

/// The parts joined with `c` between neighbours.
pub fn join_chars(parts: &Vec<Vec<char>>, c: char) -> (r: Vec<char>)
    ensures
        r@ == join_spec(vviews(parts@), c),
{
    let mut r: Vec<char> = Vec::new();
    let mut i: usize = 0;
    while i < parts.len()
        invariant
            i <= parts.len(),
            r@ == join_spec(vviews(parts@).take(i as int), c),
        decreases parts.len() - i,
    {
        let ghost before = r@;
        if i > 0 {
            r.push(c);
        }
        let p = &parts[i];
        let mut j: usize = 0;
        while j < p.len()
            invariant
                j <= p.len(),
                r@ == (if i > 0 {
                    before.push(c)
                } else {
                    before
                }) + p@.take(j as int),
            decreases p.len() - j,
        {
            r.push(p[j]);
            j = j + 1;
            assert(r@ =~= (if i > 0 {
                before.push(c)
            } else {
                before
            }) + p@.take(j as int));
        }
        proof {
            assert(p@.take(p.len() as int) =~= p@);
            let w = vviews(parts@).take(i + 1);
            assert(w.drop_last() =~= vviews(parts@).take(i as int));
            assert(w.last() == p@);
            if i == 0 {
                assert(before =~= Seq::<char>::empty());
                assert(r@ =~= p@);
            }
        }
        i = i + 1;
    }
    assert(vviews(parts@).take(parts.len() as int) =~= vviews(parts@));
    r
}

/// Whether some marker occurs in `segment`.
pub fn any_marker_exec(markers: &Vec<String>, segment: &[char]) -> (b: bool)
    ensures
        b == any_marker_in(string_views(markers@), segment@),
{
    let mut i: usize = 0;
    while i < markers.len()
        invariant
            i <= markers.len(),
            forall|j: int| 0 <= j < i ==> !contains(segment@, #[trigger] string_views(markers@)[j]),
        decreases markers.len() - i,
    {
        let m = chars_of(markers[i].as_str());
        if contains_exec(segment, m.as_slice()) {
            assert(string_views(markers@)[i as int] == m@);
            return true;
        }
        i = i + 1;
    }
    false
}

/// Whether one of the OS markers names macOS.
pub fn has_macos_marker_exec(markers: &Vec<String>) -> (b: bool)
    ensures
        b == has_macos_marker(string_views(markers@)),
{
    let mut i: usize = 0;
    while i < markers.len()
        invariant
            i <= markers.len(),
            forall|j: int|
                0 <= j < i ==> !(#[trigger] string_views(markers@)[j] == "macos"@
                    || string_views(markers@)[j] == "darwin"@),
        decreases markers.len() - i,
    {
        if str_eq(markers[i].as_str(), "macos") || str_eq(markers[i].as_str(), "darwin") {
            assert(string_views(markers@)[i as int] == markers@[i as int]@);
            return true;
        }
        i = i + 1;
    }
    false
}

/// The index of the first asset that matches the target.
pub open spec fn first_matching_asset(target: TargetConfig, assets: Seq<GithubAsset>) -> Option<int> {
    if exists|i: int| 0 <= i < assets.len() && target.matches_spec(#[trigger] assets[i].name@) {
        Some(
            choose|i: int|
                0 <= i < assets.len() && target.matches_spec(#[trigger] assets[i].name@) && forall|
                    j: int,
                |
                    0 <= j < i ==> !target.matches_spec(#[trigger] assets[j].name@),
        )
    } else {
        None
    }
}

impl GithubRelease {
    /// The version string without leading `v` characters.
    pub fn clean_tag(&self) -> (r: String)
        ensures
            r@ == trim_start_matches(self.tag_name@, seq!['v']),
    {
        let t = chars_of(self.tag_name.as_str());
        let v: [char; 1] = ['v'];
        assert(v@ =~= seq!['v']);
        let i = trim_start_matches_pos(t.as_slice(), v.as_slice());
        string_of_range(t.as_slice(), i, t.len())
    }

    /// The first asset whose name matches the target.
    pub fn find_matching_asset(&self, target: &TargetConfig) -> (r: Option<&GithubAsset>)
        ensures
            match r {
                Some(a) => exists|i: int|
                    0 <= i < self.assets.len() && self.assets@[i] == *a && target.matches_spec(
                        a.name@,
                    ) && forall|j: int|
                        0 <= j < i ==> !target.matches_spec(#[trigger] self.assets@[j].name@),
                None => forall|i: int|
                    0 <= i < self.assets.len() ==> !target.matches_spec(
                        #[trigger] self.assets@[i].name@,
                    ),
            },
    {
        let mut i: usize = 0;
        while i < self.assets.len()
            invariant
                i <= self.assets.len(),
                forall|j: int| 0 <= j < i ==> !target.matches_spec(#[trigger] self.assets@[j].name@),
            decreases self.assets.len() - i,
        {
            if target.matches(&self.assets[i]) {
                return Some(&self.assets[i]);
            }
            i = i + 1;
        }
        None
    }
}

// ---------------------------------------------------------------------------
// Version numbers in program output
// ---------------------------------------------------------------------------

/// The white-space separated tokens of `s`, as `str::split_whitespace`
/// yields them.
pub open spec fn ws_tokens(s: Seq<char>) -> Seq<Seq<char>>
    decreases s.len(),
{
    if s.len() == 0 {
        Seq::<Seq<char>>::empty()
    } else {
        let t = ws_tokens(s.drop_last());
        let c = s.last();
        if is_white(c) {
            t
        } else if s.len() == 1 || is_white(s[s.len() - 2]) {
            t.push(seq![c])
        } else {
            t.update(t.len() - 1, t.last().push(c))
        }
    }
}

/// A character that belongs to a version number.
pub open spec fn is_version_char(c: char) -> bool {
    is_digit(c) || c == '.'
}

/// The number of leading characters that do not belong to a version.
pub open spec fn leading_non_version(s: Seq<char>) -> nat
    decreases s.len(),
{
    if s.len() > 0 && !is_version_char(s[0]) {
        1 + leading_non_version(s.drop_first())
    } else {
        0
    }
}

/// The number of trailing characters that do not belong to a version.
pub open spec fn trailing_non_version(s: Seq<char>) -> nat
    decreases s.len(),
{
    if s.len() > 0 && !is_version_char(s.last()) {
        1 + trailing_non_version(s.drop_last())
    } else {
        0
    }
}

/// A token with the non-version characters trimmed from both ends.
pub open spec fn trim_version(t: Seq<char>) -> Seq<char> {
    let a = leading_non_version(t) as int;
    let rest = t.subrange(a, t.len() as int);
    rest.subrange(0, rest.len() - trailing_non_version(rest))
}

/// The first token that starts with a digit.
pub open spec fn first_digit_token(tokens: Seq<Seq<char>>) -> Option<Seq<char>> {
    if exists|i: int| 0 <= i < tokens.len() && tokens[i].len() > 0 && is_digit(#[trigger] tokens[i][0]) {
        let i = choose|i: int|
            0 <= i < tokens.len() && tokens[i].len() > 0 && is_digit(#[trigger] tokens[i][0]) && forall|
                j: int,
            |
                0 <= j < i ==> !(tokens[j].len() > 0 && is_digit(#[trigger] tokens[j][0]));
        Some(tokens[i])
    } else {
        None
    }
}

/// What `extract_version_from_output` returns.
pub open spec fn version_spec(output: Seq<char>) -> Option<Seq<char>> {
    match first_digit_token(ws_tokens(output)) {
        Some(t) => Some(trim_version(t)),
        None => None,
    }
}

/// The white-space separated tokens of `s`.
pub fn ws_tokens_exec(s: &[char]) -> (r: Vec<Vec<char>>)
    ensures
        vviews(r@) == ws_tokens(s@),
{
    let mut done: Vec<Vec<char>> = Vec::new();
    let mut cur: Vec<char> = Vec::new();
    let mut in_token = false;
    let mut i: usize = 0;
    assert(s@.take(0) =~= Seq::<char>::empty());
    while i < s.len()
        invariant
            i <= s.len(),
            in_token ==> i > 0 && !is_white(s@[i - 1]) && cur@.len() > 0,
            !in_token ==> (i == 0 || is_white(s@[i - 1])) && cur@.len() == 0,
            ws_tokens(s@.take(i as int)) == (if in_token {
                vviews(done@).push(cur@)
            } else {
                vviews(done@)
            }),
        decreases s.len() - i,
    {
        let ch = s[i];
        proof {
            assert(s@.take(i + 1).drop_last() =~= s@.take(i as int));
            assert(s@.take(i + 1).last() == ch);
            if i > 0 {
                assert(s@.take(i + 1)[i - 1] == s@[i - 1]);
            }
        }
        if is_white_exec(ch) {
            if in_token {
                done.push(cur);
                cur = Vec::new();
                in_token = false;
            }
        } else {
            let ghost was_empty = !in_token;
            cur.push(ch);
            proof {
                if was_empty {
                    assert(cur@ =~= seq![ch]);
                }
            }
            if in_token {
                assert(vviews(done@).push(cur@) =~= ws_tokens(s@.take(i + 1)));
            } else {
                assert(vviews(done@).push(cur@) =~= ws_tokens(s@.take(i + 1)));
            }
            in_token = true;
        }
        i = i + 1;
    }
    if in_token {
        done.push(cur);
    }
    assert(s@.take(s.len() as int) =~= s@);
    done
}

proof fn lemma_leading_non_version(s: Seq<char>, k: int)
    requires
        0 <= k <= s.len(),
        forall|j: int| 0 <= j < k ==> !is_version_char(#[trigger] s[j]),
        k == s.len() || is_version_char(s[k]),
    ensures
        leading_non_version(s) == k,
    decreases k,
{
    if k > 0 {
        lemma_leading_non_version(s.drop_first(), k - 1);
    }
}

proof fn lemma_trailing_non_version(s: Seq<char>, k: int)
    requires
        0 <= k <= s.len(),
        forall|j: int| s.len() - k <= j < s.len() ==> !is_version_char(#[trigger] s[j]),
        k == s.len() || is_version_char(s[s.len() - k - 1]),
    ensures
        trailing_non_version(s) == k,
    decreases k,
{
    if k > 0 {
        lemma_trailing_non_version(s.drop_last(), k - 1);
    }
}

/// A token with the non-version characters trimmed from both ends.
pub fn trim_version_exec(t: &[char]) -> (r: Vec<char>)
    ensures
        r@ == trim_version(t@),
{
    let mut a: usize = 0;
    while a < t.len() && !(is_digit_exec(t[a]) || t[a] == '.')
        invariant
            a <= t.len(),
            forall|j: int| 0 <= j < a ==> !is_version_char(#[trigger] t@[j]),
        decreases t.len() - a,
    {
        a = a + 1;
    }
    proof {
        lemma_leading_non_version(t@, a as int);
    }
    let mut b: usize = t.len();
    while b > a && !(is_digit_exec(t[b - 1]) || t[b - 1] == '.')
        invariant
            a <= b <= t.len(),
            forall|j: int| b <= j < t.len() ==> !is_version_char(#[trigger] t@[j]),
        decreases b,
    {
        b = b - 1;
    }
    proof {
        let rest = t@.subrange(a as int, t.len() as int);
        let k = (t.len() - b) as int;
        assert forall|j: int| rest.len() - k <= j < rest.len() implies !is_version_char(
            #[trigger] rest[j],
        ) by {
            assert(rest[j] == t@[a + j]);
        }
        if k < rest.len() {
            assert(rest[rest.len() - k - 1] == t@[b - 1]);
        }
        lemma_trailing_non_version(rest, k);
        assert(rest.subrange(0, rest.len() - k) =~= t@.subrange(a as int, b as int));
    }
    slice_range(t, a, b)
}

/// Parse a version number from command output like `twig-flow 0.2.3`: the
/// first white-space separated token that starts with an ASCII digit, with
/// characters other than digits and `.` trimmed from both ends.
pub fn extract_version_from_output(output: &str) -> (r: Option<String>)
    ensures
        match r {
            Some(v) => version_spec(output@) == Some(v@),
            None => version_spec(output@) is None,
        },
{
    let s = chars_of(output);
    let tokens = ws_tokens_exec(s.as_slice());
    let ghost tv = vviews(tokens@);
    let mut i: usize = 0;
    while i < tokens.len()
        invariant
            i <= tokens.len(),
            tv == vviews(tokens@),
            tv == ws_tokens(output@),
            forall|j: int| 0 <= j < i ==> !(tv[j].len() > 0 && is_digit(#[trigger] tv[j][0])),
        decreases tokens.len() - i,
    {
        let t = &tokens[i];
        if t.len() > 0 && is_digit_exec(t[0]) {
            proof {
                assert(tv[i as int] == t@);
                assert(tv[i as int][0] == t@[0]);
                assert(is_digit(tv[i as int][0]));
                let w = choose|w: int|
                    0 <= w < tv.len() && tv[w].len() > 0 && is_digit(#[trigger] tv[w][0]) && forall|
                        j: int,
                    |
                        0 <= j < w ==> !(tv[j].len() > 0 && is_digit(#[trigger] tv[j][0]));
                if w < i {
                } else if w > i {
                    assert(!(tv[i as int].len() > 0 && is_digit(tv[i as int][0])));
                }
                assert(w == i);
                assert(first_digit_token(tv) == Some(t@));
            }
            let v = trim_version_exec(t.as_slice());
            let out = string_of(v.as_slice());
            assert(out@ == trim_version(t@));
            return Some(out);
        }
        proof {
            assert(tv[i as int] == t@);
            if t@.len() > 0 {
                assert(tv[i as int][0] == t@[0]);
            }
        }
        i = i + 1;
    }
    None
}

// ---------------------------------------------------------------------------
// Platform targets
// ---------------------------------------------------------------------------

/// Why no target could be built.
#[derive(Debug, Clone)]
pub enum TargetError {
    /// The operating system has no release assets; holds its name.
    UnsupportedOs(String),
}

/// The architecture markers for an architecture name.
pub open spec fn arch_markers_spec(arch: Seq<char>) -> Seq<Seq<char>> {
    if arch == "x86_64"@ {
        seq!["x86_64"@, "amd64"@]
    } else if arch == "aarch64"@ {
        seq!["aarch64"@, "arm64"@]
    } else {
        seq![arch]
    }
}

/// The OS markers and archive extension for an operating system name, or
/// `None` when the OS is not supported.
pub open spec fn os_spec(os: Seq<char>) -> Option<(Seq<Seq<char>>, Seq<char>)> {
    if os == "linux"@ {
        Some((seq!["linux"@], ".tar.gz"@))
    } else if os == "macos"@ {
        Some((seq!["macos"@, "darwin"@], ".tar.gz"@))
    } else if os == "windows"@ {
        Some((seq!["windows"@], ".zip"@))
    } else {
        None
    }
}

/// The binary name on an operating system: on Windows it ends with `.exe`.
pub open spec fn binary_name_spec(os: Seq<char>, binary_name: Seq<char>) -> Seq<char> {
    if os == "windows"@ && !ends_with(binary_name, ".exe"@) {
        binary_name + ".exe"@
    } else {
        binary_name
    }
}

fn vec_of_strs2(a: &str, b: &str) -> (v: Vec<String>)
    ensures
        string_views(v@) == seq![a@, b@],
{
    let mut v: Vec<String> = Vec::new();
    v.push(owned(a));
    v.push(owned(b));
    assert(string_views(v@) =~= seq![a@, b@]);
    v
}

fn vec_of_str1(a: &str) -> (v: Vec<String>)
    ensures
        string_views(v@) == seq![a@],
{
    let mut v: Vec<String> = Vec::new();
    v.push(owned(a));
    assert(string_views(v@) =~= seq![a@]);
    v
}

/// The target for `binary_name` on the platform named by `os` and `arch`
/// (the values of `std::env::consts::OS` and `ARCH`).
pub fn target_config(binary_name: &str, os: &str, arch: &str) -> (r: Result<TargetConfig, TargetError>)
    ensures
        r is Err <==> os_spec(os@) is None,
        r matches Err(TargetError::UnsupportedOs(name)) ==> name@ == os@,
        r matches Ok(t) ==> os_spec(os@) == Some((t.os_view(), t.archive_extension@)),
        r matches Ok(t) ==> t.arch_view() == arch_markers_spec(arch@),
        r matches Ok(t) ==> t.binary_name@ == binary_name_spec(os@, binary_name@),
{
    let arch_markers = if str_eq(arch, "x86_64") {
        vec_of_strs2("x86_64", "amd64")
    } else if str_eq(arch, "aarch64") {
        vec_of_strs2("aarch64", "arm64")
    } else {
        vec_of_str1(arch)
    };
    proof {
        reveal_strlit("linux");
        reveal_strlit("macos");
        reveal_strlit("windows");
        assert("linux"@[0] != "windows"@[0]);
        assert("macos"@[0] != "windows"@[0]);
    }
    if str_eq(os, "linux") {
        Ok(
            TargetConfig {
                os_markers: vec_of_str1("linux"),
                arch_markers,
                archive_extension: owned(".tar.gz"),
                binary_name: owned(binary_name),
            },
        )
    } else if str_eq(os, "macos") {
        Ok(
            TargetConfig {
                os_markers: vec_of_strs2("macos", "darwin"),
                arch_markers,
                archive_extension: owned(".tar.gz"),
                binary_name: owned(binary_name),
            },
        )
    } else if str_eq(os, "windows") {
        let b = chars_of(binary_name);
        let name = if ends_with_exec(b.as_slice(), chars_of(".exe").as_slice()) {
            owned(binary_name)
        } else {
            crate::strs::concat(binary_name, ".exe")
        };
        Ok(
            TargetConfig {
                os_markers: vec_of_str1("windows"),
                arch_markers,
                archive_extension: owned(".zip"),
                binary_name: name,
            },
        )
    } else {
        Err(TargetError::UnsupportedOs(owned(os)))
    }
}

/// Whether an update can be skipped: it is not forced and the installed
/// version (when one is known) is the latest release's.
pub fn already_up_to_date(force: bool, installed_version: Option<&str>, latest_version: &str) -> (b: bool)
    ensures
        b == (!force && match installed_version {
            Some(v) => v@ == latest_version@,
            None => false,
        }),
{
    if force {
        return false;
    }
    match installed_version {
        Some(v) => crate::strs::str_eq(v, latest_version),
        None => false,
    }
}

} // verus!

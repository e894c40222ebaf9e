//! Text formatting helpers: OSC 8 hyperlinks and character-safe truncation.
//!
//! OSC 8 encodes a hyperlink as `ESC ] 8 ;; <url> BEL <label> ESC ] 8 ;; BEL`.
//! Terminals that do not understand it show the label and ignore the control
//! codes. When hyperlinks are disabled the label is followed by the URL in
//! parentheses so that plain-text logs keep the context.
use vstd::prelude::*;

use crate::output::ColorMode;
use crate::strs::{chars_of, push_char, push_str, string_of_range};

verus! {

/// The OSC 8 opening sequence for `url`.
pub open spec fn osc8_open(url: Seq<char>) -> Seq<char> {
    seq!['\u{1b}', ']', '8', ';', ';'] + url + seq!['\u{7}']
}

/// The OSC 8 closing sequence.
pub open spec fn osc8_close() -> Seq<char> {
    seq!['\u{1b}', ']', '8', ';', ';', '\u{7}']
}

/// How a hyperlink renders.
pub open spec fn hyperlink_spec(label: Seq<char>, url: Seq<char>, enabled: bool) -> Seq<char> {
    if enabled {
        osc8_open(url) + label + osc8_close()
    } else {
        label + seq![' ', '('] + url + seq![')']
    }
}

/// Whether a colour mode lets hyperlinks through: every mode but `No` and
/// its alias `Never`.
pub open spec fn colors_allow_links(colors: ColorMode) -> bool {
    colors != ColorMode::No && colors != ColorMode::Never
}

/// An OSC 8 hyperlink around a label.
pub struct Hyperlink {
    label: String,
    url: String,
    enabled: bool,
}

impl Hyperlink {
    pub closed spec fn label_view(&self) -> Seq<char> {
        self.label@
    }

    pub closed spec fn url_view(&self) -> Seq<char> {
        self.url@
    }

    pub closed spec fn is_enabled(&self) -> bool {
        self.enabled
    }

    /// Create a new hyperlink. It is enabled unless `colors` is
    /// `ColorMode::No`; a process-wide switch that turns hyperlinks off is
    /// applied by the caller through [`Hyperlink::with_enabled`].
    pub fn new(label: &str, url: &str, colors: ColorMode) -> (h: Self)
        ensures
            h.label_view() == label@,
            h.url_view() == url@,
            h.is_enabled() == colors_allow_links(colors),
    {
        Hyperlink { label: label.to_owned(), url: url.to_owned(), enabled: colors != ColorMode::No && colors != ColorMode::Never }
    }

    /// Explicitly toggle hyperlink output.
    pub fn with_enabled(self, enabled: bool) -> (h: Self)
        ensures
            h.label_view() == self.label_view(),
            h.url_view() == self.url_view(),
            h.is_enabled() == enabled,
    {
        Hyperlink { enabled, ..self }
    }

    /// The text the hyperlink writes.
    pub fn render(&self) -> (s: String)
        ensures
            s@ == hyperlink_spec(self.label_view(), self.url_view(), self.is_enabled()),
    {
        let mut s = String::new();
        if self.enabled {
            push_char(&mut s, '\u{1b}');
            push_char(&mut s, ']');
            push_char(&mut s, '8');
            push_char(&mut s, ';');
            push_char(&mut s, ';');
            push_str(&mut s, self.url.as_str());
            push_char(&mut s, '\u{7}');
            push_str(&mut s, self.label.as_str());
            push_char(&mut s, '\u{1b}');
            push_char(&mut s, ']');
            push_char(&mut s, '8');
            push_char(&mut s, ';');
            push_char(&mut s, ';');
            push_char(&mut s, '\u{7}');
        } else {
            push_str(&mut s, self.label.as_str());
            push_char(&mut s, ' ');
            push_char(&mut s, '(');
            push_str(&mut s, self.url.as_str());
            push_char(&mut s, ')');
        }
        assert(s@ =~= hyperlink_spec(self.label_view(), self.url_view(), self.is_enabled()));
        s
    }
}

/// Fluent construction of hyperlinks from string slices.
pub trait HyperlinkExt {
    /// Wrap the value as an OSC 8 hyperlink.
    fn hyperlink(&self, url: &str, colors: ColorMode) -> Hyperlink;
}

impl HyperlinkExt for str {
    fn hyperlink(&self, url: &str, colors: ColorMode) -> (h: Hyperlink)
        ensures
            h.label_view() == self@,
            h.url_view() == url@,
            h.is_enabled() == colors_allow_links(colors),
    {
        Hyperlink::new(self, url, colors)
    }
}

/// Convenience function when a trait import feels noisy.
pub fn hyperlink(label: &str, url: &str, colors: ColorMode) -> (h: Hyperlink)
    ensures
        h.label_view() == label@,
        h.url_view() == url@,
        h.is_enabled() == colors_allow_links(colors),
{
    Hyperlink::new(label, url, colors)
}

/// The result of truncating `s` to `max_chars` characters.
pub open spec fn truncate_spec(s: Seq<char>, max_chars: nat) -> Seq<char> {
    if s.len() <= max_chars {
        s
    } else {
        s.take(max_chars as int) + seq!['.', '.', '.']
    }
}

/// Truncate a string to a maximum number of characters, appending "..." if
/// truncated. Characters, not bytes, are counted.
pub fn truncate_string(s: &str, max_chars: usize) -> (r: String)
    ensures
        r@ == truncate_spec(s@, max_chars as nat),
{
    let cs = chars_of(s);
    if cs.len() <= max_chars {
        s.to_owned()
    } else {
        let mut r = string_of_range(cs.as_slice(), 0, max_chars);
        push_char(&mut r, '.');
        push_char(&mut r, '.');
        push_char(&mut r, '.');
        assert(r@ =~= truncate_spec(s@, max_chars as nat));
        r
    }
}

} // verus!

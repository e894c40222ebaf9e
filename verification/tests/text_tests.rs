use twig::output::ColorMode;
use twig::text::{hyperlink, truncate_string, HyperlinkExt};

#[test]
fn hyperlink_emits_osc8_when_enabled() {
    let label = "twig";
    let rendered = hyperlink(label, "https://example.com", ColorMode::Yes).render();
    assert!(rendered.starts_with("\x1b]8;;https://example.com\x07"));
    assert!(rendered.ends_with("\x1b]8;;\x07"));
    assert!(rendered.contains(label));
}

#[test]
fn hyperlink_falls_back_when_disabled() {
    let label = "twig";
    let rendered = hyperlink(label, "https://example.com", ColorMode::No).render();
    assert_eq!(rendered, "twig (https://example.com)");
}

#[test]
fn hyperlink_respects_auto_as_enabled() {
    let rendered = hyperlink("link", "https://auto.example", ColorMode::Auto).render();
    assert!(rendered.starts_with("\x1b]8;;https://auto.example\x07"));
    assert!(rendered.ends_with("\x1b]8;;\x07"));
}

#[test]
fn hyperlink_extension_trait_matches_free_function() {
    let via_trait = "label".hyperlink("https://trait.example", ColorMode::Yes).render();
    let via_fn = hyperlink("label", "https://trait.example", ColorMode::Yes).render();
    assert_eq!(via_trait, via_fn);
}

#[test]
fn hyperlink_override_enabled_flag() {
    let rendered = hyperlink("forced-off", "https://example.com", ColorMode::Yes)
        .with_enabled(false)
        .render();
    assert_eq!(rendered, "forced-off (https://example.com)");
}

#[test]
fn hyperlink_handles_empty_url() {
    let rendered = hyperlink("label", "", ColorMode::Yes).render();
    assert_eq!(rendered, "\x1b]8;;\x07label\x1b]8;;\x07");
}

#[test]
fn hyperlink_never_mode_falls_back() {
    let rendered = hyperlink("x", "u", ColorMode::Never).render();
    assert_eq!(rendered, "x (u)");
}

#[test]
fn truncate_string_returns_original_when_short() {
    assert_eq!(truncate_string("hello", 10), "hello");
    assert_eq!(truncate_string("hello", 5), "hello");
}

#[test]
fn truncate_string_truncates_long_strings() {
    assert_eq!(truncate_string("hello world", 5), "hello...");
    assert_eq!(truncate_string("abcdefghij", 3), "abc...");
}

#[test]
fn truncate_string_handles_multibyte_characters() {
    assert_eq!(truncate_string("🎉🎊🎁🎄🎅", 3), "🎉🎊🎁...");
    assert_eq!(truncate_string("🎉🎊🎁🎄🎅", 5), "🎉🎊🎁🎄🎅");
    assert_eq!(truncate_string("🎉🎊🎁🎄🎅", 10), "🎉🎊🎁🎄🎅");
    assert_eq!(truncate_string("日本語テスト", 3), "日本語...");
    assert_eq!(truncate_string("日本語テスト", 6), "日本語テスト");
    assert_eq!(truncate_string("Hello 🎉 World", 7), "Hello 🎉...");
}

#[test]
fn truncate_string_handles_empty_string() {
    assert_eq!(truncate_string("", 5), "");
    assert_eq!(truncate_string("", 0), "");
}

#[test]
fn truncate_string_handles_zero_max() {
    assert_eq!(truncate_string("hello", 0), "...");
}

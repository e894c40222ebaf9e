use twig::jira::{JiraParseError, JiraParsingConfig, JiraParsingMode, JiraTicketParser};

#[test]
fn test_strict_mode_valid_formats() {
    let parser = JiraTicketParser::new_strict();
    assert_eq!(parser.parse("ME-1234").unwrap(), "ME-1234");
    assert_eq!(parser.parse("PROJECT-999").unwrap(), "PROJECT-999");
    assert_eq!(parser.parse("AB-1").unwrap(), "AB-1");
}

#[test]
fn test_strict_mode_invalid_formats() {
    let parser = JiraTicketParser::new_strict();
    assert!(parser.parse("me-1234").is_err());
    assert!(parser.parse("ME1234").is_err());
    assert!(parser.parse("M-123").is_err());
    assert!(parser.parse("ME-").is_err());
    assert!(parser.parse("-1234").is_err());
}

#[test]
fn test_flexible_mode_case_variations() {
    let parser = JiraTicketParser::new_flexible();
    assert_eq!(parser.parse("ME-1234").unwrap(), "ME-1234");
    assert_eq!(parser.parse("me-1234").unwrap(), "ME-1234");
    assert_eq!(parser.parse("Me-1234").unwrap(), "ME-1234");
    assert_eq!(parser.parse("mE-1234").unwrap(), "ME-1234");
}

#[test]
fn test_flexible_mode_hyphen_variations() {
    let parser = JiraTicketParser::new_flexible();
    assert_eq!(parser.parse("ME1234").unwrap(), "ME-1234");
    assert_eq!(parser.parse("me1234").unwrap(), "ME-1234");
    assert_eq!(parser.parse("Me1234").unwrap(), "ME-1234");
    assert_eq!(parser.parse("mE1234").unwrap(), "ME-1234");
}

#[test]
fn test_flexible_mode_invalid_formats() {
    let parser = JiraTicketParser::new_flexible();
    assert!(parser.parse("M-123").is_err());
    assert!(parser.parse("ME-").is_err());
    assert!(parser.parse("-1234").is_err());
    assert!(parser.parse("123-ME").is_err());
    assert!(parser.parse("").is_err());
}

#[test]
fn test_commit_message_extraction_strict() {
    let parser = JiraTicketParser::new_strict();
    assert_eq!(
        parser.extract_from_commit_message("ME-1234: Fix bug in parser"),
        Some("ME-1234".to_string())
    );
    assert_eq!(parser.extract_from_commit_message("me-1234: Fix bug in parser"), None);
}

#[test]
fn test_commit_message_extraction_flexible() {
    let parser = JiraTicketParser::new_flexible();
    assert_eq!(
        parser.extract_from_commit_message("ME-1234: Fix bug in parser"),
        Some("ME-1234".to_string())
    );
    assert_eq!(
        parser.extract_from_commit_message("me-1234: Fix bug in parser"),
        Some("ME-1234".to_string())
    );
    assert_eq!(
        parser.extract_from_commit_message("ME1234: Fix bug in parser"),
        Some("ME-1234".to_string())
    );
}

#[test]
fn test_is_valid() {
    let parser = JiraTicketParser::new_default();
    assert!(parser.is_valid("ME-1234"));
    assert!(parser.is_valid("me1234"));
    assert!(!parser.is_valid("invalid"));
}

#[test]
fn test_long_project_names() {
    let parser = JiraTicketParser::new_default();
    assert_eq!(parser.parse("VERYLONGPROJECT-123").unwrap(), "VERYLONGPROJECT-123");
    assert_eq!(parser.parse("verylongproject123").unwrap(), "VERYLONGPROJECT-123");
}

#[test]
fn test_leading_zeros() {
    let parser = JiraTicketParser::new_default();
    assert_eq!(parser.parse("ME-0123").unwrap(), "ME-0123");
    assert_eq!(parser.parse("me0123").unwrap(), "ME-0123");
}

#[test]
fn jira_parse_trims_input_and_reports_trimmed_text() {
    let parser = JiraTicketParser::new_flexible();
    assert_eq!(parser.parse("  ab-7 \n").unwrap(), "AB-7");
    match parser.parse("  nope  ") {
        Err(JiraParseError::InvalidFormat(t)) => assert_eq!(t, "nope"),
        _ => panic!("expected InvalidFormat"),
    }
    match parser.parse("   ") {
        Err(e) => assert_eq!(e.message(), "Invalid ticket format: '' does not match any supported pattern"),
        _ => panic!("expected error"),
    }
}

#[test]
fn jira_commit_message_needs_colon_directly_after_key() {
    let parser = JiraTicketParser::new_flexible();
    assert_eq!(parser.extract_from_commit_message("ME-1234 Fix"), None);
    assert_eq!(parser.extract_from_commit_message("xME-1: y"), Some("XME-1".to_string()));
    let strict = JiraTicketParser::new_strict();
    assert_eq!(strict.extract_from_commit_message("ME1234: x"), None);
}

#[test]
fn jira_config_round_trip() {
    let mut parser = JiraTicketParser::new(JiraParsingConfig::default());
    assert_eq!(parser.config().mode, JiraParsingMode::Flexible);
    parser.set_config(JiraParsingConfig { mode: JiraParsingMode::Strict, host: Some("h".into()) });
    assert_eq!(parser.config().mode, JiraParsingMode::Strict);
    assert_eq!(parser.config().host.as_deref(), Some("h"));
    assert!(parser.parse("me-1").is_err());
}

#[test]
fn jira_keys_accept_decimal_digits_of_any_script() {
    let strict = JiraTicketParser::new_strict();
    assert_eq!(strict.parse("ME-\u{0661}\u{0662}\u{0663}").unwrap(), "ME-\u{0661}\u{0662}\u{0663}");
    assert!(strict.parse("ME-\u{00B2}").is_err());
    let flexible = JiraTicketParser::new_flexible();
    assert_eq!(flexible.parse("me\u{0966}7").unwrap(), "ME-\u{0966}7");
    assert_eq!(
        flexible.extract_from_commit_message("ab-\u{0661}: fix"),
        Some("AB-\u{0661}".to_string())
    );
}

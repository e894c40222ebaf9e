use twig::netrc::{normalize_host, parse_netrc, updated_netrc_content, Credentials};

#[test]
fn test_parse_netrc_file_basic() {
    let content = r#"machine example.com
  login testuser
  password testpass
"#;

    let result = parse_netrc(content, "example.com");
    assert!(result.is_some());

    let creds = result.unwrap();
    assert_eq!(creds.username, "testuser");
    assert_eq!(creds.password, "testpass");
}

#[test]
fn test_parse_netrc_file_multiple_machines() {
    let content = r#"machine example.com
  login user1
  password pass1

machine github.com
  login user2
  password pass2

machine atlassian.com
  login user3
  password pass3
"#;

    // Test first machine
    let result = parse_netrc(content, "example.com");
    assert!(result.is_some());
    let creds = result.unwrap();
    assert_eq!(creds.username, "user1");
    assert_eq!(creds.password, "pass1");

    // Test middle machine
    let result = parse_netrc(content, "github.com");
    assert!(result.is_some());
    let creds = result.unwrap();
    assert_eq!(creds.username, "user2");
    assert_eq!(creds.password, "pass2");

    // Test last machine
    let result = parse_netrc(content, "atlassian.com");
    assert!(result.is_some());
    let creds = result.unwrap();
    assert_eq!(creds.username, "user3");
    assert_eq!(creds.password, "pass3");
}

#[test]
fn test_parse_netrc_file_machine_not_found() {
    let content = r#"machine example.com
  login testuser
  password testpass
"#;

    let result = parse_netrc(content, "nonexistent.com");
    assert!(result.is_none());
}

#[test]
fn test_parse_netrc_file_incomplete_entry() {
    let content = r#"machine example.com
  login testuser
machine github.com
  login user2
  password pass2
"#;

    // Should not find example.com because it has no password
    let result = parse_netrc(content, "example.com");
    assert!(result.is_none());

    // Should find github.com because it has both login and password
    let result = parse_netrc(content, "github.com");
    assert!(result.is_some());
    let creds = result.unwrap();
    assert_eq!(creds.username, "user2");
    assert_eq!(creds.password, "pass2");
}

#[test]
fn test_parse_netrc_file_single_line_format() {
    let content = "machine example.com login testuser password testpass\n";

    let result = parse_netrc(content, "example.com");
    assert!(result.is_some());

    let creds = result.unwrap();
    assert_eq!(creds.username, "testuser");
    assert_eq!(creds.password, "testpass");
}

#[test]
fn test_parse_netrc_file_mixed_format() {
    let content = r#"machine example.com login user1 password pass1
machine github.com
  login user2
  password pass2
machine atlassian.com login user3
  password pass3
"#;

    // Test single line format
    let result = parse_netrc(content, "example.com");
    assert!(result.is_some());
    let creds = result.unwrap();
    assert_eq!(creds.username, "user1");
    assert_eq!(creds.password, "pass1");

    // Test multi-line format
    let result = parse_netrc(content, "github.com");
    assert!(result.is_some());
    let creds = result.unwrap();
    assert_eq!(creds.username, "user2");
    assert_eq!(creds.password, "pass2");

    // Test mixed format
    let result = parse_netrc(content, "atlassian.com");
    assert!(result.is_some());
    let creds = result.unwrap();
    assert_eq!(creds.username, "user3");
    assert_eq!(creds.password, "pass3");
}

#[test]
fn test_parse_netrc_file_empty_file() {
    let content = "";

    let result = parse_netrc(content, "example.com");
    assert!(result.is_none());
}

#[test]
fn test_write_netrc_entry_new_file() {
    // Writing to a new file
    let content = updated_netrc_content(None, "example.com", "testuser", "testpass");
    let content = content.as_str();

    let result = parse_netrc(content, "example.com");
    assert!(result.is_some());

    let creds = result.unwrap();
    assert_eq!(creds.username, "testuser");
    assert_eq!(creds.password, "testpass");
}

#[test]
fn test_write_netrc_entry_append_to_existing() {
    let initial_content = r#"machine example.com
  login user1
  password pass1
"#;

    // Append a new entry
    let content = updated_netrc_content(Some(initial_content), "github.com", "user2", "pass2");
    let content = content.as_str();

    // Check original entry still exists
    let result = parse_netrc(content, "example.com");
    assert!(result.is_some());
    let creds = result.unwrap();
    assert_eq!(creds.username, "user1");
    assert_eq!(creds.password, "pass1");

    // Check new entry was added
    let result = parse_netrc(content, "github.com");
    assert!(result.is_some());
    let creds = result.unwrap();
    assert_eq!(creds.username, "user2");
    assert_eq!(creds.password, "pass2");
}

#[test]
fn test_write_netrc_entry_update_existing() {
    let initial_content = r#"machine example.com
  login olduser
  password oldpass

machine github.com
  login user2
  password pass2
"#;

    // Update existing entry
    let content = updated_netrc_content(Some(initial_content), "example.com", "newuser", "newpass");
    let content = content.as_str();

    // Check updated entry
    let result = parse_netrc(content, "example.com");
    assert!(result.is_some());
    let creds = result.unwrap();
    assert_eq!(creds.username, "newuser");
    assert_eq!(creds.password, "newpass");

    // Check other entry wasn't affected
    let result = parse_netrc(content, "github.com");
    assert!(result.is_some());
    let creds = result.unwrap();
    assert_eq!(creds.username, "user2");
    assert_eq!(creds.password, "pass2");
}

#[test]
fn test_credential_validation_scenarios() {
    // Test empty username/password
    let empty_creds = Credentials {
      username: "".to_string(),
      password: "".to_string(),
    };
    assert!(empty_creds.username.is_empty());
    assert!(empty_creds.password.is_empty());

    // Test valid credentials structure
    let valid_creds = Credentials {
      username: "testuser".to_string(),
      password: "testpass".to_string(),
    };
    assert!(!valid_creds.username.is_empty());
    assert!(!valid_creds.password.is_empty());
    assert_eq!(valid_creds.username, "testuser");
    assert_eq!(valid_creds.password, "testpass");
}

#[test]
fn test_parse_netrc_file_malformed() {
    let content = r#"machine custom-jira-host.com
  login custom@example.com
  # missing password

machine atlassian.com
  login test@example.com
  # missing password

machine github.com
  login testuser
  password gh-token
  some-invalid-line
"#;

    // Test parsing should handle malformed entries gracefully
    let result = parse_netrc(content, "custom-jira-host.com");
    assert!(result.is_none()); // Should be None because password is missing

    let result = parse_netrc(content, "atlassian.com");
    assert!(result.is_none()); // Should be None because password is missing

    let result = parse_netrc(content, "github.com");
    assert!(result.is_some()); // Should still work despite extra line
    let creds = result.unwrap();
    assert_eq!(creds.username, "testuser");
    assert_eq!(creds.password, "gh-token");
}

#[test]
fn test_parse_netrc_file_ignores_commented_out_machine() {
    // A template-style .netrc where a sample block is commented out should not
    // be parsed as a real entry.
    let content = r#"# machine example.com
#   login bad-user
#   password bad-pass

machine github.com
  login realuser
  password realpass
"#;

    // The commented-out block must not produce credentials.
    let result = parse_netrc(content, "example.com");
    assert!(result.is_none());

    // The real entry that follows must still parse correctly.
    let result = parse_netrc(content, "github.com");
    let creds = result.expect("github.com entry should parse");
    assert_eq!(creds.username, "realuser");
    assert_eq!(creds.password, "realpass");
}

#[test]
fn test_parse_netrc_file_inline_comment_after_value() {
    let content = r#"machine github.com
  login realuser   # personal token
  password realpass # rotate quarterly
"#;

    let creds = parse_netrc(content, "github.com")
      .expect("entry should parse with inline comments");
    assert_eq!(creds.username, "realuser");
    assert_eq!(creds.password, "realpass");
}

#[test]
fn test_parse_netrc_file_inline_comment_before_keyword() {
    // A comment introducing the next line shouldn't swallow the keyword that
    // follows on its own line.
    let content = r#"machine github.com  # source: 1Password
  login realuser
  password realpass
"#;

    let creds = parse_netrc(content, "github.com")
      .expect("entry should parse");
    assert_eq!(creds.username, "realuser");
    assert_eq!(creds.password, "realpass");
}

#[test]
fn test_parse_netrc_file_hash_in_password_preserved() {
    // `#` mid-token (no preceding whitespace) is a literal character, not a
    // comment marker — passwords containing `#` must round-trip.
    let content = "machine github.com login realuser password p#ss#word\n";

    let creds = parse_netrc(content, "github.com")
      .expect("entry should parse");
    assert_eq!(creds.username, "realuser");
    assert_eq!(creds.password, "p#ss#word");
}

#[test]
fn test_parse_netrc_file_skips_macdef_body() {
    // A macdef body that happens to contain netrc-looking keywords must not
    // be treated as credentials.
    let content = r#"machine first.example.com
  login alice
  password alice-pw

macdef init
  machine sneaky.example.com
  login evil
  password evil-pw

machine second.example.com
  login bob
  password bob-pw
"#;

    // The macdef body must not produce a usable entry.
    let result = parse_netrc(content, "sneaky.example.com");
    assert!(result.is_none());

    // Entries on either side of the macdef must still parse.
    let creds = parse_netrc(content, "first.example.com")
      .expect("first entry should parse");
    assert_eq!(creds.username, "alice");
    assert_eq!(creds.password, "alice-pw");

    let creds = parse_netrc(content, "second.example.com")
      .expect("second entry should parse");
    assert_eq!(creds.username, "bob");
    assert_eq!(creds.password, "bob-pw");
}

#[test]
fn test_parse_netrc_file_default_block_isolated_from_machine() {
    // A `default` block following a `machine` must not bleed its login/password
    // back into the preceding machine entry.
    let content = r#"machine github.com
  login realuser

default
  login fallback
  password fallback-pw
"#;

    // github.com has no password of its own, so it must not return the
    // default block's password.
    let result = parse_netrc(content, "github.com");
    assert!(result.is_none());

    // Unknown machines fall through to the `default` block.
    let creds = parse_netrc(content, "unknown.example.com")
      .expect("default entry should be returned for unknown machine");
    assert_eq!(creds.username, "fallback");
    assert_eq!(creds.password, "fallback-pw");
}

#[test]
fn test_parse_netrc_file_passwd_alias() {
    // `passwd` is accepted as a synonym for `password`.
    let content = r#"machine github.com
  login realuser
  passwd realpass
"#;

    let creds = parse_netrc(content, "github.com")
      .expect("entry should parse with passwd alias");
    assert_eq!(creds.username, "realuser");
    assert_eq!(creds.password, "realpass");
}

#[test]
fn test_parse_netrc_file_account_ignored() {
    // `account` tokens consume their value and don't leak into login/password.
    let content = r#"machine github.com
  login realuser
  account org-account
  password realpass
"#;

    let creds = parse_netrc(content, "github.com")
      .expect("entry should parse with account field");
    assert_eq!(creds.username, "realuser");
    assert_eq!(creds.password, "realpass");
}

#[test]
fn test_normalize_host_removes_https_and_trailing_slash() {
    let result = normalize_host("https://api.example.com/");
    assert_eq!(result, "api.example.com");
}

#[test]
fn test_normalize_host_removes_http_and_trailing_slash() {
    let result = normalize_host("http://localhost:8080/");
    assert_eq!(result, "localhost:8080");
}

#[test]
fn normalize_host_strips_repeated_prefixes_and_slashes() {
    assert_eq!(normalize_host("https://https://example.com///"), "example.com");
    assert_eq!(normalize_host("my-jira-instance.com"), "my-jira-instance.com");
}

#[test]
fn crlf_lines_and_default_entries() {
    let content = "machine a.com\r\n  login u\r\n  password p\r\ndefault login d password dp\r\n";
    let creds = parse_netrc(content, "a.com").unwrap();
    assert_eq!(creds, Credentials { username: "u".to_string(), password: "p".to_string() });
    let creds = parse_netrc(content, "b.com").unwrap();
    assert_eq!(creds.username, "d");
    assert_eq!(creds.password, "dp");
}

#[test]
fn new_entry_text_and_missing_line_break() {
    let content = updated_netrc_content(None, "example.com", "testuser", "testpass");
    assert_eq!(content, "machine example.com\n  login testuser\n  password testpass\n");
    let content = updated_netrc_content(Some("machine a.com login u password p"), "b.com", "v", "q");
    assert_eq!(content, "machine a.com login u password p\nmachine b.com\n  login v\n  password q\n");
}

use twig::self_update::{extract_version_from_output, target_config, GithubAsset, GithubRelease, TargetConfig};
use twig::self_update::already_up_to_date;

fn strings(v: &[&str]) -> Vec<String> {
    v.iter().map(|s| s.to_string()).collect()
}

fn linux_target(binary_name: &str) -> TargetConfig {
    TargetConfig {
        os_markers: strings(&["linux"]),
        arch_markers: strings(&["x86_64", "amd64"]),
        archive_extension: ".tar.gz".to_string(),
        binary_name: binary_name.to_string(),
    }
}

fn macos_target(binary_name: &str) -> TargetConfig {
    TargetConfig {
        os_markers: strings(&["macos", "darwin"]),
        arch_markers: strings(&["aarch64", "arm64"]),
        archive_extension: ".tar.gz".to_string(),
        binary_name: binary_name.to_string(),
    }
}

fn windows_target(binary_name: &str) -> TargetConfig {
    TargetConfig {
        os_markers: strings(&["windows"]),
        arch_markers: strings(&["x86_64", "amd64"]),
        archive_extension: ".zip".to_string(),
        binary_name: binary_name.to_string(),
    }
}

fn asset(name: &str) -> GithubAsset {
    GithubAsset { name: name.to_string(), browser_download_url: String::new() }
}

fn release(tag_name: &str, assets: Vec<GithubAsset>) -> GithubRelease {
    GithubRelease { tag_name: tag_name.to_string(), assets }
}

#[test]
fn clean_tag_strips_v_prefix() {
    let r = release("v1.2.3", vec![]);
    assert_eq!(r.clean_tag(), "1.2.3");
}

#[test]
fn clean_tag_handles_no_prefix() {
    let r = release("1.2.3", vec![]);
    assert_eq!(r.clean_tag(), "1.2.3");
}

#[test]
fn clean_tag_strips_multiple_v_prefixes() {
    let r = release("vvv1.0.0", vec![]);
    assert_eq!(r.clean_tag(), "1.0.0");
}

#[test]
fn find_matching_asset_returns_match() {
    let assets = vec![asset("twig-linux-x86_64-v0.1.0.tar.gz"), asset("twig-windows-x86_64-v0.1.0.zip")];
    let r = release("v0.1.0", assets);
    let target = linux_target("twig");
    let found = r.find_matching_asset(&target);
    assert!(found.is_some());
    assert_eq!(found.map(|a| a.name.as_str()), Some("twig-linux-x86_64-v0.1.0.tar.gz"));
}

#[test]
fn find_matching_asset_returns_none_when_no_match() {
    let assets = vec![asset("twig-windows-x86_64-v0.1.0.zip")];
    let r = release("v0.1.0", assets);
    let target = linux_target("twig");
    assert!(r.find_matching_asset(&target).is_none());
}

#[test]
fn product_name_strips_exe_suffix() {
    let target = windows_target("twig.exe");
    assert_eq!(target.product_name(), "twig");
}

#[test]
fn product_name_returns_name_without_exe() {
    let target = linux_target("twig");
    assert_eq!(target.product_name(), "twig");
}

#[test]
fn product_name_handles_hyphenated_binary() {
    let target = linux_target("twig-flow");
    assert_eq!(target.product_name(), "twig-flow");
}

#[test]
fn selects_primary_linux_asset() {
    let target = linux_target("twig");
    assert!(target.matches(&asset("twig-linux-x86_64-v0.1.0.tar.gz")));
}

#[test]
fn ignores_twig_flow_asset() {
    let target = linux_target("twig");
    assert!(!target.matches(&asset("twig-flow-linux-x86_64-v0.1.0.tar.gz")));
}

#[test]
fn selects_twig_flow_asset() {
    let target = linux_target("twig-flow");
    assert!(target.matches(&asset("twig-flow-linux-x86_64-v0.1.0.tar.gz")));
}

#[test]
fn linux_rejects_wrong_extension() {
    let target = linux_target("twig");
    assert!(!target.matches(&asset("twig-linux-x86_64-v0.1.0.zip")));
}

#[test]
fn linux_rejects_wrong_os() {
    let target = linux_target("twig");
    assert!(!target.matches(&asset("twig-windows-x86_64-v0.1.0.tar.gz")));
}

#[test]
fn linux_rejects_wrong_arch() {
    let target = linux_target("twig");
    assert!(!target.matches(&asset("twig-linux-aarch64-v0.1.0.tar.gz")));
}

#[test]
fn linux_accepts_amd64_alias() {
    let target = linux_target("twig");
    assert!(target.matches(&asset("twig-linux-amd64-v0.1.0.tar.gz")));
}

#[test]
fn macos_accepts_darwin_marker() {
    let target = macos_target("twig");
    assert!(target.matches(&asset("twig-darwin-arm64-v0.1.0.tar.gz")));
}

#[test]
fn macos_accepts_macos_marker() {
    let target = macos_target("twig");
    assert!(target.matches(&asset("twig-macos-arm64-v0.1.0.tar.gz")));
}

#[test]
fn macos_accepts_universal_build() {
    let target = macos_target("twig");
    assert!(target.matches(&asset("twig-macos-universal-v0.1.0.tar.gz")));
}

#[test]
fn macos_accepts_aarch64_alias() {
    let target = macos_target("twig");
    assert!(target.matches(&asset("twig-macos-aarch64-v0.1.0.tar.gz")));
}

#[test]
fn windows_selects_zip_asset() {
    let target = windows_target("twig.exe");
    assert!(target.matches(&asset("twig-windows-x86_64-v0.1.0.zip")));
}

#[test]
fn windows_rejects_tarball() {
    let target = windows_target("twig.exe");
    assert!(!target.matches(&asset("twig-windows-x86_64-v0.1.0.tar.gz")));
}

#[test]
fn matches_is_case_insensitive() {
    let target = linux_target("twig");
    assert!(target.matches(&asset("TWIG-LINUX-X86_64-V0.1.0.TAR.GZ")));
}

#[test]
fn matches_handles_mixed_case() {
    let target = linux_target("twig");
    assert!(target.matches(&asset("Twig-Linux-X86_64-v0.1.0.tar.gz")));
}

#[test]
fn rejects_asset_with_too_few_parts() {
    let target = linux_target("twig");
    assert!(!target.matches(&asset("twig-linux.tar.gz")));
}

#[test]
fn rejects_empty_asset_name() {
    let target = linux_target("twig");
    assert!(!target.matches(&asset("")));
}

#[test]
fn universal_not_accepted_for_linux() {
    let target = linux_target("twig");
    assert!(!target.matches(&asset("twig-linux-universal-v0.1.0.tar.gz")));
}

#[test]
fn parses_version_from_output() {
    assert_eq!(extract_version_from_output("twig-flow 0.2.3\n").as_deref(), Some("0.2.3"));
}

#[test]
fn parses_version_with_leading_text() {
    assert_eq!(extract_version_from_output("version 1.0.0").as_deref(), Some("1.0.0"));
}

#[test]
fn parses_version_trims_trailing_chars() {
    assert_eq!(extract_version_from_output("twig 1.2.3-beta").as_deref(), Some("1.2.3"));
}

#[test]
fn version_returns_none_for_empty_output() {
    assert_eq!(extract_version_from_output(""), None);
}

#[test]
fn version_returns_none_for_no_version() {
    assert_eq!(extract_version_from_output("no version here"), None);
}

#[test]
fn version_returns_none_for_only_letters() {
    assert_eq!(extract_version_from_output("twig flow"), None);
}

#[test]
fn parses_version_at_start() {
    assert_eq!(extract_version_from_output("1.0.0 is the version").as_deref(), Some("1.0.0"));
}

#[test]
fn parses_multiline_version_output() {
    assert_eq!(
        extract_version_from_output("twig-flow\nversion 2.0.0\nbuilt on date").as_deref(),
        Some("2.0.0")
    );
}

#[test]
fn selects_twig_when_flow_comes_first() {
    let assets = vec![
        asset("twig-flow-linux-x86_64-v0.5.2.tar.gz"),
        asset("twig-flow-linux-x86_64-v0.5.2.tar.gz.sha256"),
        asset("twig-flow-macos-x86_64-v0.5.2.tar.gz"),
        asset("twig-flow-macos-x86_64-v0.5.2.tar.gz.sha256"),
        asset("twig-flow-windows-x86_64-v0.5.2.zip"),
        asset("twig-flow-windows-x86_64-v0.5.2.zip.sha256"),
        asset("twig-linux-x86_64-v0.5.2.tar.gz"),
        asset("twig-linux-x86_64-v0.5.2.tar.gz.sha256"),
        asset("twig-macos-x86_64-v0.5.2.tar.gz"),
        asset("twig-macos-x86_64-v0.5.2.tar.gz.sha256"),
        asset("twig-windows-x86_64-v0.5.2.zip"),
        asset("twig-windows-x86_64-v0.5.2.zip.sha256"),
    ];
    let r = release("v0.5.2", assets);
    let target = linux_target("twig");
    let found = r.find_matching_asset(&target);
    assert!(found.is_some(), "Should find an asset");
    assert_eq!(
        found.map(|a| a.name.as_str()),
        Some("twig-linux-x86_64-v0.5.2.tar.gz"),
        "Should select twig, not twig-flow"
    );
}

#[test]
fn selects_twig_flow_when_requested() {
    let assets = vec![asset("twig-flow-linux-x86_64-v0.5.2.tar.gz"), asset("twig-linux-x86_64-v0.5.2.tar.gz")];
    let r = release("v0.5.2", assets);
    let target = linux_target("twig-flow");
    let found = r.find_matching_asset(&target);
    assert!(found.is_some(), "Should find twig-flow asset");
    assert_eq!(found.map(|a| a.name.as_str()), Some("twig-flow-linux-x86_64-v0.5.2.tar.gz"), "Should select twig-flow");
}

#[test]
fn twig_flow_does_not_match_twig_target() {
    let target = linux_target("twig");
    assert!(!target.matches(&asset("twig-flow-linux-x86_64-v0.5.2.tar.gz")));
}

#[test]
fn twig_does_not_match_twig_flow_target() {
    let target = linux_target("twig-flow");
    assert!(!target.matches(&asset("twig-linux-x86_64-v0.5.2.tar.gz")));
}

#[test]
fn rejects_hypothetical_twig_plugin_when_looking_for_twig() {
    let target = linux_target("twig");
    assert!(!target.matches(&asset("twig-flow-linux-x86_64-v0.5.2.tar.gz")));
    assert!(!target.matches(&asset("twig-extra-linux-x86_64-v0.5.2.tar.gz")));
    assert!(!target.matches(&asset("twig-pro-linux-x86_64-v0.5.2.tar.gz")));
    assert!(target.matches(&asset("twig-linux-x86_64-v0.5.2.tar.gz")));
}

#[test]
fn handles_multi_hyphen_plugin_names() {
    let target = linux_target("twig-flow-extra");
    assert!(target.matches(&asset("twig-flow-extra-linux-x86_64-v0.5.2.tar.gz")));
    assert!(!target.matches(&asset("twig-flow-linux-x86_64-v0.5.2.tar.gz")));
    assert!(!target.matches(&asset("twig-linux-x86_64-v0.5.2.tar.gz")));
}

#[test]
fn windows_selects_correct_asset_with_mixed_plugins() {
    let assets = vec![asset("twig-flow-windows-x86_64-v0.5.2.zip"), asset("twig-windows-x86_64-v0.5.2.zip")];
    let r = release("v0.5.2", assets);
    let target = windows_target("twig.exe");
    let found = r.find_matching_asset(&target);
    assert_eq!(found.map(|a| a.name.as_str()), Some("twig-windows-x86_64-v0.5.2.zip"));
}

#[test]
fn macos_selects_correct_asset_with_mixed_plugins() {
    let assets = vec![asset("twig-flow-macos-arm64-v0.5.2.tar.gz"), asset("twig-macos-arm64-v0.5.2.tar.gz")];
    let r = release("v0.5.2", assets);
    let target = macos_target("twig");
    let found = r.find_matching_asset(&target);
    assert_eq!(found.map(|a| a.name.as_str()), Some("twig-macos-arm64-v0.5.2.tar.gz"));
}

#[test]
fn target_config_for_platforms() {
    let t = target_config("twig", "linux", "x86_64").ok().unwrap();
    assert_eq!(t.os_markers, strings(&["linux"]));
    assert_eq!(t.arch_markers, strings(&["x86_64", "amd64"]));
    assert_eq!(t.archive_extension, ".tar.gz");
    let t = target_config("twig", "windows", "aarch64").ok().unwrap();
    assert_eq!(t.binary_name, "twig.exe");
    assert_eq!(t.archive_extension, ".zip");
    assert_eq!(t.arch_markers, strings(&["aarch64", "arm64"]));
    let t = target_config("twig.exe", "windows", "riscv64").ok().unwrap();
    assert_eq!(t.binary_name, "twig.exe");
    assert_eq!(t.arch_markers, strings(&["riscv64"]));
    let t = target_config("twig", "macos", "aarch64").ok().unwrap();
    assert_eq!(t.os_markers, strings(&["macos", "darwin"]));
    assert!(target_config("twig", "freebsd", "x86_64").is_err());
}

#[test]
fn updates_are_skipped_only_when_current_and_not_forced() {
    assert!(already_up_to_date(false, Some("1.2.3"), "1.2.3"));
    assert!(!already_up_to_date(true, Some("1.2.3"), "1.2.3"));
    assert!(!already_up_to_date(false, Some("1.2.2"), "1.2.3"));
    assert!(!already_up_to_date(false, None, "1.2.3"));
}

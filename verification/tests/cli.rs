use paneview::cli::{
    detect_target, help_text, parse_args, parse_checksum, program_path, release_tag, tag_matches_current,
    unknown_arguments_message, version_string, CliCommand,
};

const CURRENT_VERSION: &str = "0.1.0";

#[test]
fn tag_matches_current_strips_v_prefix() {
    let current_version = CURRENT_VERSION;
    assert!(tag_matches_current(&format!("v{current_version}"), current_version));
    assert!(tag_matches_current(current_version, current_version));
    assert!(!tag_matches_current("v0.0.0", current_version));
}

#[test]
fn detect_target_returns_supported_triple() {
    for (os, arch) in [("linux", "x86_64"), ("linux", "aarch64"), ("macos", "x86_64"), ("macos", "aarch64")] {
        let target = detect_target(os, arch).expect("supported platform");
        assert!(target.contains("apple-darwin") || target.contains("unknown-linux-gnu"));
    }
    assert_eq!(detect_target("macos", "aarch64"), Some("aarch64-apple-darwin"));
    assert_eq!(detect_target("linux", "x86_64"), Some("x86_64-unknown-linux-gnu"));
    assert_eq!(detect_target("windows", "x86_64"), None);
    assert_eq!(detect_target("linux", "riscv64"), None);
}

fn args(list: &[&str]) -> Vec<String> {
    list.iter().map(|s| s.to_string()).collect()
}

#[test]
fn arguments_name_commands() {
    assert_eq!(parse_args(&args(&[])), CliCommand::RunTui);
    assert_eq!(parse_args(&args(&["-h"])), CliCommand::Help);
    assert_eq!(parse_args(&args(&["--help"])), CliCommand::Help);
    assert_eq!(parse_args(&args(&["help"])), CliCommand::Help);
    assert_eq!(parse_args(&args(&["-V"])), CliCommand::Version);
    assert_eq!(parse_args(&args(&["--version"])), CliCommand::Version);
    assert_eq!(parse_args(&args(&["version"])), CliCommand::Version);
    assert_eq!(parse_args(&args(&["check-update"])), CliCommand::CheckUpdate);
    assert_eq!(parse_args(&args(&["update"])), CliCommand::Update);
    assert_eq!(parse_args(&args(&["--update"])), CliCommand::Unknown);
    assert_eq!(parse_args(&args(&["update", "now"])), CliCommand::Unknown);
}

#[test]
fn unknown_arguments_are_listed() {
    assert_eq!(unknown_arguments_message(&args(&["a", "b c", "d"])), "unknown arguments: a b c d");
    assert_eq!(unknown_arguments_message(&args(&["x"])), "unknown arguments: x");
}

#[test]
fn leading_vs_are_all_stripped() {
    assert!(tag_matches_current("vv1.2.3", "1.2.3"));
    assert!(!tag_matches_current("V1.2.3", "1.2.3"));
    assert!(!tag_matches_current("v1.2.3", "v1.2.3"));
}

#[test]
fn release_tag_is_the_last_segment() {
    assert_eq!(
        release_tag("https://github.com/o/p/releases/tag/v1.4.0").as_deref(),
        Some("v1.4.0")
    );
    assert_eq!(release_tag("https://github.com/o/p/releases/tag/v1.4.0//").as_deref(), Some("v1.4.0"));
    assert_eq!(release_tag("https://github.com/o/p/releases"), None);
    assert_eq!(release_tag(""), None);
}

#[test]
fn checksum_is_the_first_word_lowercased() {
    let hex = "ABCDEF0123456789abcdef0123456789ABCDEF0123456789abcdef0123456789";
    let expected = hex.to_lowercase();
    assert_eq!(parse_checksum(&format!("{hex}  paneview.tar.gz\n")), Some(expected.clone()));
    assert_eq!(parse_checksum(&format!("\t {hex}")), Some(expected));
    assert_eq!(parse_checksum("abc123  file"), None);
    assert_eq!(parse_checksum("   \n"), None);
}

#[test]
fn version_and_help_text() {
    let line = version_string("1.2.3", "abc123");
    assert_eq!(line, "paneview 1.2.3 (abc123)");
    let help = help_text(&line);
    assert!(help.starts_with("paneview 1.2.3 (abc123)\n\nUsage:\n  paneview\n"));
    assert!(help.ends_with("  -V, --version  Show version and build commit.\n"));
}

#[test]
fn program_path_is_trimmed_output() {
    assert_eq!(program_path("/usr/bin/sha256sum\n").as_deref(), Some("/usr/bin/sha256sum"));
    assert_eq!(program_path("  /bin/x \t"), Some("/bin/x".to_string()));
    assert_eq!(program_path(" \n"), None);
    assert_eq!(program_path(""), None);
}

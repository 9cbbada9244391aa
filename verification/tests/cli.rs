use gsc_mcp_rs::auth::{auth_source, no_auth_message, AuthSource};
use gsc_mcp_rs::cli::{command_of, help_text, version_text, Command};

#[test]
fn commands_by_first_argument() {
    assert_eq!(command_of(None), Ok(Command::Stdio));
    assert_eq!(command_of(Some("stdio")), Ok(Command::Stdio));
    assert_eq!(command_of(Some("auth")), Ok(Command::Auth));
    assert_eq!(command_of(Some("help")), Ok(Command::Help));
    assert_eq!(command_of(Some("--help")), Ok(Command::Help));
    assert_eq!(command_of(Some("-h")), Ok(Command::Help));
    assert_eq!(command_of(Some("--version")), Ok(Command::Version));
    assert_eq!(command_of(Some("-V")), Ok(Command::Version));
    assert_eq!(
        command_of(Some("serve")),
        Err("[gsc-mcp-rs] Unknown command 'serve'. Run 'gsc-mcp-rs --help' for usage.".to_string())
    );
}

#[test]
fn help_and_version_texts() {
    assert_eq!(version_text("0.1.0"), "gsc-mcp-rs 0.1.0");
    let help = help_text("0.1.0");
    assert!(help.starts_with("gsc-mcp-rs 0.1.0 -- Google Search Console MCP Server\n\nUsage: gsc-mcp-rs <command>\n"));
    assert!(help.contains("\n  auth               Run interactive OAuth authentication flow\n"));
    assert!(help.ends_with("  --version, -V      Show version"));
}

#[test]
fn credentials_are_chosen_in_order() {
    assert_eq!(
        auth_source(Some("/keys/sa.json"), true, true, true),
        AuthSource::EnvServiceAccount("/keys/sa.json".to_string())
    );
    assert_eq!(auth_source(None, true, true, true), AuthSource::ConfigServiceAccount);
    assert_eq!(auth_source(None, false, true, false), AuthSource::OAuth);
    assert_eq!(auth_source(None, false, false, true), AuthSource::OAuth);
    assert_eq!(auth_source(None, false, false, false), AuthSource::Unconfigured);
}

#[test]
fn setup_guidance_names_both_methods() {
    let m = no_auth_message();
    assert!(m.starts_with("No authentication configured.\n\nSetup options:\n1. OAuth (personal use):\n"));
    assert!(m.contains("\n- Run: gsc-mcp-rs auth\n"));
    assert!(m.ends_with("- Set GSC_SERVICE_ACCOUNT_PATH=/path/to/key.json"));
}

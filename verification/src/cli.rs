//! The command line: which command a first argument names, and the help.
use crate::text::{concat3, push_str, str_eq, string_of};
use vstd::prelude::*;

verus! {

/// What the program was asked to do.
#[derive(Debug, PartialEq, Eq, Structural)]
pub enum Command {
    /// Serve MCP on standard input and output.
    Stdio,
    /// Run the interactive OAuth flow.
    Auth,
    /// Print the usage.
    Help,
    /// Print the version.
    Version,
}

/// The command that the first argument names: none or `stdio` serves,
/// `auth` signs in, `help`/`--help`/`-h` and `--version`/`-V` print; any
/// other argument is refused with this message.
pub open spec fn command_spec(arg: Option<Seq<char>>) -> Result<Command, Seq<char>> {
    match arg {
        None => Ok(Command::Stdio),
        Some(a) => if a == "auth"@ {
            Ok(Command::Auth)
        } else if a == "--help"@ || a == "-h"@ || a == "help"@ {
            Ok(Command::Help)
        } else if a == "--version"@ || a == "-V"@ {
            Ok(Command::Version)
        } else if a == "stdio"@ {
            Ok(Command::Stdio)
        } else {
            Err("[gsc-mcp-rs] Unknown command '"@ + a + "'. Run 'gsc-mcp-rs --help' for usage."@)
        },
    }
}

/// Reads the command from the first argument.
pub fn command_of(arg: Option<&str>) -> (r: Result<Command, String>)
    ensures
        match command_spec(match arg { Some(a) => Some(a@), None => None }) {
            Ok(c) => r == Ok::<Command, String>(c),
            Err(m) => r matches Err(t) && t@ == m,
        },
{
    match arg {
        None => Ok(Command::Stdio),
        Some(a) => if str_eq(a, "auth") {
            Ok(Command::Auth)
        } else if str_eq(a, "--help") || str_eq(a, "-h") || str_eq(a, "help") {
            Ok(Command::Help)
        } else if str_eq(a, "--version") || str_eq(a, "-V") {
            Ok(Command::Version)
        } else if str_eq(a, "stdio") {
            Ok(Command::Stdio)
        } else {
            Err(concat3("[gsc-mcp-rs] Unknown command '", a, "'. Run 'gsc-mcp-rs --help' for usage."))
        },
    }
}

/// The usage text for this version.
pub fn help_text(version: &str) -> (r: String)
    ensures
        r@ == "gsc-mcp-rs "@ + version@ + " -- Google Search Console MCP Server\n\nUsage: gsc-mcp-rs <command>\n\nCommands:\n  stdio              Start MCP server on stdio (default)\n  auth               Run interactive OAuth authentication flow\n  help, --help, -h   Show this help message\n  --version, -V      Show version"@,
{
    let mut r = string_of("gsc-mcp-rs ");
    push_str(&mut r, version);
    push_str(
        &mut r,
        " -- Google Search Console MCP Server\n\nUsage: gsc-mcp-rs <command>\n\nCommands:\n  stdio              Start MCP server on stdio (default)\n  auth               Run interactive OAuth authentication flow\n  help, --help, -h   Show this help message\n  --version, -V      Show version",
    );
    r
}

/// The version line.
pub fn version_text(version: &str) -> (r: String)
    ensures
        r@ == "gsc-mcp-rs "@ + version@,
{
    let mut r = string_of("gsc-mcp-rs ");
    push_str(&mut r, version);
    r
}

} // verus!

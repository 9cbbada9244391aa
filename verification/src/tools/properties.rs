//! Properties: adding, removing and re-authenticating, and the texts of
//! their outcomes.
use crate::api::{ApiError, ui_text};
use crate::text::{concat3, string_of};
use crate::tools::error_text;
use crate::validate::{enum_check, site_action_names, site_url_check, valid_site_actions, validate_enum, validate_site_url};
use vstd::prelude::*;

verus! {

/// The site URL check of a tool, as the tool's text when it fails.
pub fn check_site(site_url: &str) -> (r: Result<(), String>)
    ensures
        match site_url_check(site_url@) {
            Ok(()) => r is Ok,
            Err(e) => r matches Err(t) && t@ == "Error: "@ + e,
        },
{
    match validate_site_url(site_url) {
        Ok(()) => Ok(()),
        Err(e) => Err(error_text(e.as_str())),
    }
}

/// What was asked of a property.
pub enum SiteAction {
    Add,
    Delete,
}

/// Validates the action of `manage_site` (`add` or `delete`).
pub fn site_action(action: &str) -> (r: Result<SiteAction, String>)
    ensures
        match enum_check(action@, site_action_names(), "action"@) {
            Err(e) => r matches Err(t) && t@ == "Error: "@ + e,
            Ok(()) => r matches Ok(a) && (a is Add <==> action@ == "add"@) && (a is Delete <==> action@ == "delete"@),
        },
{
    if let Err(e) = validate_enum(action, valid_site_actions(), "action") {
        return Err(error_text(e.as_str()));
    }
    proof {
        reveal_strlit("add");
        reveal_strlit("delete");
        let names = site_action_names();
        assert(names.contains(action@));
        let i = choose|i: int| 0 <= i < names.len() && names[i] == action@;
        assert(action@ == "add"@ || action@ == "delete"@);
    }
    if crate::text::str_eq(action, "add") {
        Ok(SiteAction::Add)
    } else {
        Ok(SiteAction::Delete)
    }
}

/// The text after adding a property: success, or success as well when the
/// property already exists (409), else the error's guidance.
pub fn add_site_outcome(site_url: &str, result: &Result<(), ApiError>) -> (r: String)
    ensures
        r@ == match result {
            Ok(()) => "Successfully added property '"@ + site_url@ + "'."@,
            Err(e) => if e.status == 409 {
                "Property '"@ + site_url@ + "' already exists (add_site is idempotent)."@
            } else {
                ui_text(e.status, e.message@)
            },
        },
{
    match result {
        Ok(()) => concat3("Successfully added property '", site_url, "'."),
        Err(e) => if e.status == 409 {
            concat3("Property '", site_url, "' already exists (add_site is idempotent).")
        } else {
            e.to_ui_string()
        },
    }
}

/// The text after removing a property: success, or success as well when it
/// was already gone (404), else the error's guidance.
pub fn delete_site_outcome(site_url: &str, result: &Result<(), ApiError>) -> (r: String)
    ensures
        r@ == match result {
            Ok(()) => "Successfully removed property '"@ + site_url@ + "'."@,
            Err(e) => if e.status == 404 {
                "Property '"@ + site_url@ + "' was already removed (delete_site is idempotent)."@
            } else {
                ui_text(e.status, e.message@)
            },
        },
{
    match result {
        Ok(()) => concat3("Successfully removed property '", site_url, "'."),
        Err(e) => if e.status == 404 {
            concat3("Property '", site_url, "' was already removed (delete_site is idempotent).")
        } else {
            e.to_ui_string()
        },
    }
}

pub open spec fn reauth_text(service_account: bool, interactive: bool) -> Seq<char> {
    if service_account {
        "In-memory token cleared. Service account tokens are automatically refreshed. If you need to switch accounts, update the service_account.json file and restart the server."@
    } else if interactive {
        "OAuth token cleared (both in-memory and on disk). Run 'gsc-mcp-rs auth' in your terminal to re-authenticate with a new account."@
    } else {
        "OAuth token cleared (both in-memory and on disk). Since this is a non-interactive session, run 'gsc-mcp-rs auth' in a terminal to complete re-authentication."@
    }
}

/// The text of `reauthenticate`: service accounts refresh by themselves;
/// for OAuth the user is told to run the interactive flow.
pub fn reauthenticate_text(service_account: bool, interactive: bool) -> (r: String)
    ensures
        r@ == reauth_text(service_account, interactive),
{
    if service_account {
        string_of("In-memory token cleared. Service account tokens are automatically refreshed. If you need to switch accounts, update the service_account.json file and restart the server.")
    } else if interactive {
        string_of("OAuth token cleared (both in-memory and on disk). Run 'gsc-mcp-rs auth' in your terminal to re-authenticate with a new account.")
    } else {
        string_of("OAuth token cleared (both in-memory and on disk). Since this is a non-interactive session, run 'gsc-mcp-rs auth' in a terminal to complete re-authentication.")
    }
}

} // verus!

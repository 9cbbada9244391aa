//! Sitemaps: submitting and removing, and the texts of their outcomes.
use crate::api::{ApiError, ui_text};
use crate::text::concat3;
use crate::tools::error_text;
use crate::validate::{enum_check, sitemap_action_names, valid_sitemap_actions, validate_enum};
use vstd::prelude::*;

verus! {

/// What was asked of a sitemap.
pub enum SitemapAction {
    Submit,
    Delete,
}

/// Validates the action of `manage_sitemap` (`submit` or `delete`).
pub fn sitemap_action(action: &str) -> (r: Result<SitemapAction, String>)
    ensures
        match enum_check(action@, sitemap_action_names(), "action"@) {
            Err(e) => r matches Err(t) && t@ == "Error: "@ + e,
            Ok(()) => r matches Ok(a) && (a is Submit <==> action@ == "submit"@) && (a is Delete <==> action@ == "delete"@),
        },
{
    if let Err(e) = validate_enum(action, valid_sitemap_actions(), "action") {
        return Err(error_text(e.as_str()));
    }
    proof {
        reveal_strlit("submit");
        reveal_strlit("delete");
        let names = sitemap_action_names();
        assert(names.contains(action@));
        let i = choose|i: int| 0 <= i < names.len() && names[i] == action@;
        assert(action@ == "submit"@ || action@ == "delete"@);
        assert("submit"@ != "delete"@) by {
            assert("submit"@[0] != "delete"@[0]);
        }
    }
    if crate::text::str_eq(action, "submit") {
        Ok(SitemapAction::Submit)
    } else {
        Ok(SitemapAction::Delete)
    }
}

/// The text after submitting a sitemap: success, or success as well when it
/// was already submitted (409), else the error's guidance.
pub fn submit_sitemap_outcome(sitemap_url: &str, result: &Result<(), ApiError>) -> (r: String)
    ensures
        r@ == match result {
            Ok(()) => "Successfully submitted sitemap '"@ + sitemap_url@ + "'. Google will re-check it."@,
            Err(e) => if e.status == 409 {
                "Sitemap '"@ + sitemap_url@ + "' already submitted (submit_sitemap is idempotent)."@
            } else {
                ui_text(e.status, e.message@)
            },
        },
{
    match result {
        Ok(()) => concat3("Successfully submitted sitemap '", sitemap_url, "'. Google will re-check it."),
        Err(e) => if e.status == 409 {
            concat3("Sitemap '", sitemap_url, "' already submitted (submit_sitemap is idempotent).")
        } else {
            e.to_ui_string()
        },
    }
}

/// The text after removing a sitemap: success, or success as well when it
/// was already gone (404), else the error's guidance.
pub fn delete_sitemap_outcome(sitemap_url: &str, result: &Result<(), ApiError>) -> (r: String)
    ensures
        r@ == match result {
            Ok(()) => "Successfully removed sitemap '"@ + sitemap_url@ + "'."@,
            Err(e) => if e.status == 404 {
                "Sitemap '"@ + sitemap_url@ + "' was already removed (delete_sitemap is idempotent)."@
            } else {
                ui_text(e.status, e.message@)
            },
        },
{
    match result {
        Ok(()) => concat3("Successfully removed sitemap '", sitemap_url, "'."),
        Err(e) => if e.status == 404 {
            concat3("Sitemap '", sitemap_url, "' was already removed (delete_sitemap is idempotent).")
        } else {
            e.to_ui_string()
        },
    }
}

} // verus!

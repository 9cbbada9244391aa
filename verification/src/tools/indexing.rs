//! Indexing API requests: validation and the text of a sent notification.
use crate::text::{concat3, has_prefix, push_str, str_eq, str_starts_with, string_of};
use crate::tools::error_text;
use crate::validate::{enum_check, notification_type_names, valid_notification_types, validate_enum};
use vstd::prelude::*;
use vstd::utf8::encode_utf8;

verus! {

/// Validates a `request_indexing` call: the notification type (default
/// `URL_UPDATED`) and an `http://` or `https://` URL; yields the type.
pub fn plan_request_indexing<'a>(url: &str, notification_type: Option<&'a str>) -> (r: Result<&'a str, String>)
    ensures
        ({
            let t = match notification_type { Some(t) => t@, None => "URL_UPDATED"@ };
            if enum_check(t, notification_type_names(), "type"@) is Err {
                r matches Err(e) && e@ == "Error: "@ + enum_check(t, notification_type_names(), "type"@)->Err_0
            } else if !has_prefix(url@, "http://"@) && !has_prefix(url@, "https://"@) {
                r matches Err(e) && e@ == "Error: url must start with http:// or https://"@
            } else {
                r matches Ok(v) && v@ == t
            }
        }),
{
    let t: &'a str = match notification_type {
        Some(t) => t,
        None => "URL_UPDATED",
    };
    if let Err(e) = validate_enum(t, valid_notification_types(), "type") {
        return Err(error_text(e.as_str()));
    }
    if !str_starts_with(url, "http://") && !str_starts_with(url, "https://") {
        return Err(string_of("Error: url must start with http:// or https://"));
    }
    Ok(t)
}

pub open spec fn notification_text(url: Seq<char>, t: Seq<char>) -> Seq<char> {
    if t == "URL_UPDATED"@ {
        "Successfully requested indexing for '"@ + url + "'."@
    } else if t == "URL_DELETED"@ {
        "Successfully requested removal for '"@ + url + "'."@
    } else {
        "Notification sent for '"@ + url + "'."@
    }
}

/// The text after a notification was accepted: what was requested, then the
/// API's answer when it holds more than five bytes.
pub fn indexing_success_text(url: &str, notification_type: &str, detail: &str) -> (r: String)
    ensures
        r@ == if encode_utf8(detail@).len() > 5 {
            notification_text(url@, notification_type@) + "\n\n"@ + detail@
        } else {
            notification_text(url@, notification_type@)
        },
{
    let mut msg = if str_eq(notification_type, "URL_UPDATED") {
        concat3("Successfully requested indexing for '", url, "'.")
    } else if str_eq(notification_type, "URL_DELETED") {
        concat3("Successfully requested removal for '", url, "'.")
    } else {
        concat3("Notification sent for '", url, "'.")
    };
    if detail.as_bytes().len() > 5 {
        push_str(&mut msg, "\n\n");
        push_str(&mut msg, detail);
    }
    msg
}

} // verus!

//! Verified core of a Google Search Console MCP server: parameter validation,
//! date arithmetic, request planning, retry decisions, token handling and
//! the text that the tools hand back.

pub mod text;
pub mod calendar;
pub mod clock;
pub mod dates;
pub mod validate;
pub mod api;
pub mod query;
pub mod tools;
pub mod output;
pub mod auth;
pub mod callback;
pub mod service_account;
pub mod pairing;
pub mod cli;

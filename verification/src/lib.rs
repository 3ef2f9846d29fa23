//! Verified core of the glorp game client: blocklists, browser flags, URL and
//! user-script handling.

pub mod text;
pub mod glob;
pub mod lists;
pub mod json;
pub mod constants;
pub mod blocklist;
pub mod flaglist;
pub mod urls;
pub mod userscripts;
pub mod window_state;
pub mod swapper;
pub mod handlers;
pub mod bridge;
pub mod switches;
pub mod ping;
pub mod settings;

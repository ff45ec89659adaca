//! Profile import, strongSwan configuration and tunnel control for a desktop VPN client.

pub mod broker;
pub mod cli;
pub mod control;
pub mod dump;
pub mod import;
pub mod ini;
pub mod ipv4;
pub mod json;
pub mod model;
pub mod ncp;
pub mod plist_scan;
pub mod property_list;
pub mod sophos;
pub mod swanctl;
pub mod text;
pub mod vici;

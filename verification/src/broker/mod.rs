//! The privileged broker: what it accepts from an unprivileged client, and what it decides to do
//! about it.

pub mod charon;
pub mod command;
pub mod drive;
pub mod launchd;
pub mod locate;
pub mod nrpt;
pub mod openvpn;
pub mod privileged;
pub mod protocol;
pub mod service;
pub mod supervisor;
pub mod wire;

//! The packet filter: how traffic is redirected to the client, per platform, and how
//! the client learns where it was going.

pub mod linux;
pub mod macos;
pub mod stub;

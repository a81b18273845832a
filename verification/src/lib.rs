//! Discovers live hosts on a local IPv4 subnet over link-layer address
//! resolution and classifies each one as the target vendor's or not, by
//! hardware-address prefix first and by a service probe as fallback.

pub mod apple_search;
pub mod args;
pub mod arp;
pub mod iphone_sync;
pub mod oui;
pub mod util;

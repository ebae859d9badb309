//! A verified core for discovering adb services over mDNS (RFC 6762).
//!
//! The library holds the decision making of the mDNS client: the
//! priority queue of resource records that need attention, the store of
//! resource records, the `ZeroConfig` state machine that turns received
//! records and the passing of time into commands, and the small decision
//! procedures used around it: the encoding of queries and the planning of
//! what the driver does with each command, the debouncing of network change
//! events, the walk of netlink link messages, the meaning of Wi-Fi
//! notifications, and the text of message types and flags for the log.

pub mod index_min_pq;
pub mod vec_map;
pub mod rr;
pub mod store;
pub mod zero_config;
pub mod driver;
pub mod netwatch;
pub mod netlink;
pub mod text;
pub mod wlan;
pub mod route;

//! The links of a mesh node: which peers it reaches and how, which addresses
//! it listens on, whom it lets in, and the pluggable transports that carry
//! its connections where plain ones are blocked.
//!
//! Nothing here touches a socket, a process or a clock. What a caller reads,
//! it hands over as plain values, and what it is to do comes back the same
//! way; every decision in between is stated in a contract and proved.
//!
//! What a URL says:
//! - [`link_url`]: URLs, schemes, and the arguments for transports in a query.
//! - [`percent`]: percent-decoding.
//! - [`options`]: the options of a link.
//! - [`duration`]: durations and their text.
//! - [`ip`]: IP and socket addresses and their text.
//!
//! Links:
//! - [`links`]: the configured peers, listeners and transports.
//! - [`connection`]: a connection from its handshake to its end.
//! - [`active`]: the registry of links that are up.
//! - [`ban_list`]: throttling of addresses that keep failing.
//! - [`reconnect`]: when to try again.
//! - [`dial`]: the layers of a stream and the names that TLS asks for.
//! - [`peer_uri`]: how an accepted peer is listed.
//! - [`counting`]: counting the bytes of a stream.
//!
//! Pluggable transports:
//! - [`pt_process`]: their processes.
//! - [`pt_args`]: how arguments for them are encoded.
//! - [`socks5`]: dialling through their proxies.
//!
//! And below all of these, [`text`] and [`table`].
pub mod active;
pub mod ban_list;
pub mod connection;
pub mod counting;
pub mod dial;
pub mod duration;
pub mod ip;
pub mod link_url;
pub mod links;
pub mod options;
pub mod peer_uri;
pub mod percent;
pub mod pt_args;
pub mod pt_process;
pub mod reconnect;
pub mod socks5;
pub mod table;
pub mod text;

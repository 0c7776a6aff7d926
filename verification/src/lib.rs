//! A network among hosts that know each other by their keys: the addresses of its peers, the way
//! of packets between them, and who is let in.

pub mod accept;
pub mod addr;
pub mod allocation;
pub mod ascii85;
pub mod auth;
pub mod base64_text;
pub mod checksum;
pub mod frame;
pub mod inbound;
pub mod ip_util;
pub mod key;
pub mod outbound;
pub mod patch_laws;
pub mod peer_map;
pub mod pk_serde;
pub mod remote_id;
pub mod send;
pub mod sk_serde;
pub mod state;
pub mod state_laws;
pub mod util;

//! Verified core of the mobile full node.

pub mod apply_laws;
pub mod arith;
pub mod bootstrap;
pub mod bridge;
pub mod bridge_laws;
pub mod bytes;
pub mod header_planner;
pub mod hint_laws;
pub mod history;
pub mod inventory;
pub mod order_laws;
pub mod overview;
pub mod p2p_runtime;
pub mod p2p_startup;
pub mod payment_laws;
pub mod peer;
pub mod peer_laws;
pub mod planner_laws;
pub mod runtime_laws;
pub mod search_laws;
pub mod seeds;
pub mod segment_laws;
pub mod segment_source;
pub mod segments;
pub mod send;
pub mod send_laws;
pub mod send_run;
pub mod sequences;
pub mod slot_laws;
pub mod slot_search;
pub mod slots;
pub mod snapshot;
pub mod snapshot_laws;
pub mod submit;
pub mod suffix_apply;
pub mod sync;
pub mod sync_apply;
pub mod sync_laws;
pub mod text;
pub mod text_laws;
pub mod transport_laws;
pub mod value_laws;
pub mod wallet;
pub mod wallet_laws;
pub mod wallet_tables;
pub mod word_laws;

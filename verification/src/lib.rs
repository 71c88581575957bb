//! HotStuff and Tendermint finality logic for Substrate-style chains.
pub mod primitives;
pub mod hotstuff_message;
pub mod aggregator;
pub mod consensus;
pub mod worker;
pub mod voter_set;
pub mod persistent;
pub mod tendermint_messages;
pub mod dummy_chain;
pub mod routing;
pub mod authority_changes;
pub mod topics;
pub mod gossip;
pub mod commit_checks;
pub mod authority_set;
pub mod params;
pub mod warp_sync;

//! A server for Merkle paths of the mixer contract's tree.
//!
//! The server follows the contract's events, rebuilds the tree from them, and
//! answers private queries for paths. This crate is its logic: reading events,
//! applying them to the tree, keeping the persistent state, and deciding on
//! requests.
use vstd::prelude::*;

pub mod answer_laws;
pub mod api_error;
pub mod apply;
pub mod apply_laws;
pub mod chain_laws;
pub mod config;
pub mod config_laws;
pub mod emitted_laws;
pub mod encoding;
pub mod event_laws;
pub mod events;
pub mod fetch;
pub mod found_laws;
pub mod handling_laws;
pub mod hash_laws;
pub mod http_laws;
pub mod indexer;
pub mod indexer_laws;
pub mod json;
pub mod json_events;
pub mod layout;
pub mod ledger_events;
pub mod ledger_meta;
pub mod message_laws;
pub mod order;
pub mod paging_laws;
pub mod path_query;
pub mod registration;
pub mod reported_laws;
pub mod rpc_events;
pub mod scval;
pub mod scval_events;
pub mod state_laws;
pub mod state_store;
pub mod store_laws;
pub mod text;
pub mod text_laws;
pub mod wire;

pub use crate::api_error::{ApiError, ErrorResponse};
pub use crate::layout::{HealthResponse, LayoutDto, LayoutQuery};
pub use crate::path_query::{LevelQueryDto, LevelResponseDto, PathQueryRequest, PathQueryResponse};
pub use crate::registration::{RegisterClientRequest, RegisterClientResponse};
pub use crate::wire::{
    decode_bincode_base64, decode_json_base64, encode_bincode_base64, encode_json_base64,
};

verus! {

/// Depth of the mixer Merkle tree.
pub const SERVER_DEPTH: usize = 45;

} // verus!

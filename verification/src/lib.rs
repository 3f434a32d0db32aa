//! A registry of auction items kept in a durable ordered map.
//!
//! Every item carries its leading bid, the history of its bidders and its
//! owner. Items are created, bid on, edited and closed through guarded
//! transitions; each transition reads one record, computes the next one and
//! writes it back.
//!
//! - `identity`: the tokens that name owners and bidders.
//! - `item`: the items and their transitions.
//! - `record`: the byte layout of one item, with its proofs.
//! - `codec`: writing and reading records.
//! - `durable`: the durable map, and what is taken on trust about it.
//! - `store`: the item store over the durable map.
//! - `order`: the order of a listing.
//! - `registry`: the operations and the queries.
//! - `laws`: what holds of the registry whatever the calls.

pub mod codec;
pub mod durable;
pub mod identity;
pub mod item;
pub mod laws;
pub mod order;
pub mod record;
pub mod registry;
pub mod store;

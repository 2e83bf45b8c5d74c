//! Core of an embedded map editor: a bounded command channel between a host
//! environment and the editor's frame loop, and the per-tick reconciliation of
//! those commands against an in-memory catalog of maps.
pub mod communication_bridge;
pub mod messages;
pub mod model;
pub mod events;
pub mod shared_state;
pub mod reconciler;
pub mod interop;
pub mod web_asset;

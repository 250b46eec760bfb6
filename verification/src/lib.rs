//! Decision logic of a stream-deck plugin that drives Foundry VTT through a relay.
pub mod text;
pub mod json;
pub mod foundry;
pub mod image;
pub mod config;
pub mod textmap;
pub mod condition;
pub mod sheet;
pub mod initiative;
pub mod relay;
pub mod connection;
pub mod events;

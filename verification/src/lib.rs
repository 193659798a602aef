//! Fallout 76 public-data parsing: the schedules, events, shop offers and
//! challenge widgets that the synchronizer publishes as JSON.

pub mod text;
pub mod numbers;
pub mod error;
pub mod clock;
pub mod pattern;
pub mod dom;
pub mod timeparse;
pub mod model;
pub mod config;
pub mod bethesda;
pub mod order;
pub mod nukaknights;
pub mod link;
pub mod store;

//! Persistence of battery telemetry: a self-describing codec for one
//! device's property snapshot, and the record files that pair such a
//! snapshot with the device's charge history.

pub mod model;
pub mod codec;
pub mod container;
pub mod store;

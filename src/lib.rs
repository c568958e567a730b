//! Release discovery and platform-aware artifact selection for the AlgoHub
//! desktop client's updater.
pub mod latest;
pub mod release;
pub mod tags;
pub mod text;

//! Availability recovery for a sharded validator network: the decisions of the
//! chunk fetcher, the backers fetcher, the recovery task and the coordinator,
//! stated as contracts and proved.

pub mod backers;
pub mod builder;
pub mod cache;
pub mod chunks;
pub mod codec;
pub mod error;
pub mod indices;
pub mod interaction;
pub mod params;
pub mod shuffle;
pub mod state;
pub mod types;

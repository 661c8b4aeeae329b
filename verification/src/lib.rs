//! Transaction ordering for a replicated store: a leaderless consensus core
//! in the Accord family. Every function here is pure with respect to the
//! network and the disk: replicas and coordinators are values, messages are
//! arguments and results, and the contracts say which state follows which.

pub mod catalog;
pub mod command;
pub mod coordinator;
pub mod deps;
pub mod error;
pub mod hashing;
pub mod keys;
pub mod log;
pub mod plan;
pub mod quorum;
pub mod recovery;
pub mod replica;
pub mod state;
pub mod store;
pub mod timestamp;
pub mod transaction;

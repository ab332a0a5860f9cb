//! PrimusDB core logic: policy governance, full-text indexing, vector clocks,
//! reconciliation planning, Raft decisions and shard placement.

pub mod seqs;
pub mod strmap;
pub mod text;
pub mod format;
pub mod clock;
pub mod governor;
pub mod fulltext;
pub mod cluster;
pub mod hyperledger;
pub mod graph;
pub mod merkle;
pub mod consensus;
pub mod state_machine;
pub mod crypto;
pub mod drivers;
pub mod graphql;

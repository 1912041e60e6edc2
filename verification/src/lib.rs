//! Asynchronous execution engine for an interactive git client: a
//! single-flight job scheduler with generation-stamped staleness control,
//! a versioned result cache, a payload-free wake bus, and the blocking
//! repository queries (status, tags, stashes) the jobs run.

pub mod engine;
pub mod errors;
pub mod gitrepo;
pub mod help;
pub mod keys;
pub mod resources;
pub mod stash;
pub mod status;
pub mod tags;
pub mod order;

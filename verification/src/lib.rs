//! Account records of a long-lived service, kept in one block of durable
//! linear memory: the memory is split into partitions, the layout that is
//! already there is detected before anything is written, and each account is
//! stored as a run of fixed-size pages.

pub mod accounts_store;
pub mod stable_memory;
pub mod state;
pub mod wire;

//! Proofs that a message comes from a member of a group, without telling
//! which member.
//!
//! A group is a set of usernames of a key directory. The library turns what
//! the directory answers into the member keys of the group (`key_list`,
//! `key_material`, `order`, `harvest`), keeps the artifacts of the proof
//! backend by name (`store`), and sequences the three phases in which the
//! group proof is built (`pipeline`). `record` and `submission` hold the
//! texts that are written and sent. Requests to the directory, the proof
//! backend and the files are the caller's: the library takes what they gave
//! and says what to do next.

pub mod chars;
pub mod copying;
pub mod error;
pub mod harvest;
pub mod key_list;
pub mod key_material;
pub mod order;
pub mod pipeline;
pub mod record;
pub mod signature;
pub mod store;
pub mod submission;

//! Offline analysis of network inventories.
//!
//! Given hosts and ports that a scanner has collected, the library
//!
//! - identifies the service behind each port from its banner
//!   ([`fingerprint`]),
//! - computes what changed between two inventories ([`diff`]), and
//! - infers device roles and a plausible adjacency graph ([`topology`]).
//!
//! It also keeps the rules for the records that a caller stores: scan
//! profiles ([`profiles`]) and baselines ([`baseline`]). Reading and writing
//! files is left to the caller.
//!
//! Every function states what it returns over a mathematical view of its
//! arguments, and the statements are proved. What is taken on trust is named
//! as such where it stands: the regular-expression searches of [`pattern`],
//! the Unicode tables behind [`text::lowercased`] and [`text::white_space`],
//! and the fresh identifier and the clock of [`baseline`]. What holds of all
//! inventories is proved in [`diff_laws`] and [`topology_laws`].

pub mod baseline;
pub mod diff;
pub mod diff_laws;
pub mod fingerprint;
pub mod listing;
pub mod models;
pub mod pattern;
pub mod profiles;
pub mod text;
pub mod topology;
pub mod topology_laws;

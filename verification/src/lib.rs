//! Sorting monitoring targets by network range.
//!
//! A list of candidate URLs is read line by line, each URL's host is
//! paired with the addresses that a name lookup found for it, and every
//! resolved site is placed in one of two groups: those with an IPv4 address
//! inside one of the configured subnets, and the rest.

pub mod classify;
pub mod export;
pub mod resolve;
pub mod seqs;
pub mod subnet;
pub mod text;
pub mod urls;

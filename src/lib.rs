//! Client library for a telnet spot feed: a grammar that turns feed lines
//! into spot records, a filter over those records, and the decisions of a
//! streaming session.

pub mod client;
pub mod filter;
pub mod grammar;
pub mod packet;
pub mod text;

pub use client::RbnClient;

//! Goal Digger: what a World Cup trading analyst needs to decide, apart from the
//! simulation itself and the network.
//!
//! - `text`, `array_text`, `json`: names in their normal forms, lists of strings,
//!   JSON values.
//! - `teams`, `players`: bundled strengths and key players.
//! - `request`, `cache`: what is asked of which service, and what is kept.
//! - `feed`, `lineup`: what the live feed says, and what a missing player means.
//! - `market`: Polymarket's prices.
//! - `tools`: what the tools are given, and the reports they hand back.

pub mod array_text;
pub mod cache;
pub mod feed;
pub mod json;
pub mod lineup;
pub mod market;
pub mod players;
pub mod request;
pub mod teams;
pub mod text;
pub mod tools;

//! Mock real-time-bidding exchange core.
//!
//! The crate models a small ad exchange used to exercise publisher
//! integrations: it prices ad slots by size, synthesises bids, mediates
//! between pre-computed bidder responses, and verifies signed request
//! identifiers against a cached remote key set.

pub mod aps;
pub mod auction;
pub mod cache;
pub mod codec;
pub mod ids;
pub mod jwks;
pub mod mediation;
pub mod openrtb;
pub mod render;
pub mod routes;
pub mod sizes;
pub mod strutil;
pub mod verification;

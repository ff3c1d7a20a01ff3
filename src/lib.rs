//! Delivery pipeline for utility news posts: content-derived identity,
//! deduplication against a ledger, message splitting for a size-limited
//! transport, and ordered, rate-limited delivery.
pub mod text;
pub mod chunker;
pub mod date;
pub mod news_post;
pub mod error;
pub mod delivery;
pub mod pipeline;

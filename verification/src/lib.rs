//! Core of an astronomical alert-processing pipeline.
//!
//! Alert packets are decoded, deduplicated by their detection identifier,
//! enriched with coordinate strings and catalog cross-matches, persisted as
//! a primary and an auxiliary document, and routed through per-permission
//! streams to user-defined filters. This crate holds the verified decision
//! logic of that pipeline: the coordinate conversions, the FITS tile
//! extraction, the cross-match row selection, the worker state machines,
//! and models of the document store and the broker that the workers drive.

pub mod alert;
pub mod broker;
pub mod coords;
pub mod dispatch;
pub mod filters;
pub mod fmtnum;
pub mod pipeline;
pub mod pool;
pub mod seqtools;
pub mod store;
pub mod tile;
pub mod xmatch;

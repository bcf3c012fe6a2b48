//! Core logic of an interactive labeled-image capture tool.
//!
//! A session records video frames into a dataset tree laid out as
//! `<root>/<label>/<index>.png`, where each label is a single character.
//! This crate holds the verified parts: the directory index reconciler,
//! which repairs per-directory numbering into a contiguous zero-based
//! sequence, and the capture session controller, which maps keystrokes
//! to record and focus actions over a per-directory index map.

pub mod digits;
pub mod index_map;
pub mod names;
pub mod reconcile;
pub mod session;

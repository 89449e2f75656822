//! A windowed line reader: selects a bounded run of lines from a forward-only
//! text stream, anchored at either end and emitted in either direction, and
//! keeps that selection up to date while the stream grows.

pub mod position;
pub mod scanner;
pub mod follow;
pub mod render;
pub mod path;

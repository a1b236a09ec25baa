//! Receiver side of a LoRa telemetry link.
//!
//! A remote node sends fixed binary sensor records wrapped in an ASCII
//! `+RCV=...` envelope. This crate scans the serial byte stream into frames,
//! decodes and integrity-checks the envelope, deserializes the sensor record,
//! builds the acknowledgment command, keeps the shared telemetry state that
//! the receive path and the periodic sampler both touch, and renders the
//! state as a fixed-schema JSON line. A few helpers for the host-side
//! process that consumes those JSON lines live here as well.

pub mod codec;
pub mod config;
pub mod envelope;
pub mod gateway;
pub mod integrity;
pub mod json;
pub mod packet;
pub mod scanner;
pub mod state;
pub mod text;

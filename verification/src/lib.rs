//! Telemetry sampling and coordinate-normalization engine for recording a
//! player's trajectory through a large tiled game world.
//!
//! The library resolves typed values from a snapshot of a foreign process's
//! memory through chains of offsets that vary by software version, converts
//! tile-local positions into one continuous global coordinate space via a
//! tile-adjacency table, runs the interval-gated recording state machine,
//! and renders the accumulated trajectory as a structured text document.
//!
//! Coordinates and translations are carried as fixed-point integers in
//! thousandths of a world unit; the surrounding program converts between
//! this representation and whatever numeric form its sources deliver.

pub mod anchor_csv;
pub mod custom_pointers;
pub mod memory;
pub mod route;
pub mod textfmt;
pub mod tracker;
pub mod transformer;

//! Protocol engine for a USB GPS track logger: framing codec, command
//! catalog, download workflow, track-record decoder and track exporter.

pub mod errors;
pub mod framing;
pub mod textfmt;
pub mod datetime;
pub mod intf;
pub mod comm_bulk;
pub mod commands;
pub mod gt120b_datadump;
pub mod gt120b_workflow;

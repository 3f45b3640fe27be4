//! Codec and container logic for MAV-LOG and TLOG telemetry files: the MAV-LOG file header,
//! the record layout under the format flags, the writer's decisions, and forward readers that
//! resynchronize on the next wire frame after bytes that start none.

mod bytes;
pub mod error;
pub mod header;
pub mod reader;
pub mod record;
pub mod tlog;
pub mod writer;

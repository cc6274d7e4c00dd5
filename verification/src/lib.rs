//! Client-side receiver for a small UDP file-transfer protocol: a packet
//! codec (header and data packets), a per-file assembler, and a transfer
//! session that routes decoded packets and collects completed files.

pub mod client;
pub mod packets;

//! Decoding of Apple Wireless Direct Link (AWDL) action frames and the
//! synchronisation and election parameters they carry.

pub mod le;

pub mod tlv;
pub mod action;
pub mod election;
pub mod sync;

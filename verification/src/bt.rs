//! The protocol of the hash table.

pub mod big_endian;
pub mod laws;
pub mod payload_dict;
pub mod protocol;

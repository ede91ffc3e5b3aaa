//! Wire codec of the KRPC protocol spoken by nodes of a Kademlia-style
//! distributed hash table (BEP 0005).

pub mod assoc;
pub mod base;
pub mod bencoding;
pub mod bignum;
pub mod bt;
pub mod error;
pub mod text;
pub mod utils;

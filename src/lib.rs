//! upstream endpoints, per-target rewriting and filtering, write-combining
//! decisions for the sender tasks and a rolling cardinality limiter.

pub mod bytes_util;
pub mod pdu;
pub mod framing;
pub mod shard;
pub mod backends;
pub mod cardinality;
pub mod sender;
pub mod tag;
pub mod ingress;

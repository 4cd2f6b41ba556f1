//! The messages that clerks and replicas exchange.
use vstd::prelude::*;

verus! {

/// Op tag of a `Put` in a `PutAppendRequest`.
pub const OP_PUT: i32 = 1;
/// Op tag of an `Append` in a `PutAppendRequest`.
pub const OP_APPEND: i32 = 2;

#[derive(Clone, Debug)]
pub struct GetRequest {
    /// The request id: the 16 bytes of a UUID.
    pub id: Vec<u8>,
    pub key: String,
    pub client: String,
}

#[derive(Clone, Debug)]
pub struct GetReply {
    pub wrong_leader: bool,
    pub err: String,
    pub value: String,
    pub err_code: u32,
}

#[derive(Clone, Debug)]
pub struct PutAppendRequest {
    /// The request id: the 16 bytes of a UUID.
    pub id: Vec<u8>,
    pub key: String,
    pub value: String,
    /// `OP_PUT` or `OP_APPEND`.
    pub op: i32,
    pub client: String,
}

#[derive(Clone, Debug)]
pub struct PutAppendReply {
    pub wrong_leader: bool,
    pub err: String,
    pub err_code: u32,
}

} // verus!

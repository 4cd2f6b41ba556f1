//! Errors that a replica reports to clients, and their wire codes.
use vstd::prelude::*;

verus! {

/// Success.
pub const KVERR_OK: u32 = 0;
/// Any other failure of the consensus layer.
pub const KVERR_RAFT: u32 = 1;
/// The replica was not the leader when the command was proposed.
pub const KVERR_NOT_LEADER: u32 = 2;
/// The log slot was committed with a different command.
pub const KVERR_FAIL_TO_COMMIT: u32 = 3;
/// No commit arrived in time.
pub const KVERR_TIMEOUT: u32 = 4;
/// The replica is shutting down.
pub const KVERR_CLOESD: u32 = 5;

/// Why a proposed command produced no result.
pub enum KvError {
    /// The consensus layer failed; the text is its own description.
    Raft(String),
    NotLeader,
    FailToCommit,
    Timeout,
}

/// The wire code of each error.
pub open spec fn code_of(e: KvError) -> u32 {
    match e {
        KvError::Raft(_) => KVERR_RAFT,
        KvError::NotLeader => KVERR_NOT_LEADER,
        KvError::FailToCommit => KVERR_FAIL_TO_COMMIT,
        KvError::Timeout => KVERR_TIMEOUT,
    }
}

/// The description of each error.
pub open spec fn error_text(e: KvError) -> Seq<char> {
    match e {
        KvError::Raft(_) => "Raft internal error."@,
        KvError::NotLeader => "Current node isn't leader."@,
        KvError::FailToCommit => "The command failed to commit."@,
        KvError::Timeout => "The command spend too mach time for commit, maybe leader is died or network partition occurs."@,
    }
}

impl KvError {
    /// The description of this error.
    pub fn describe(&self) -> (r: String)
        ensures
            r@ == error_text(*self),
    {
        match self {
            KvError::Raft(_) => "Raft internal error.".to_owned(),
            KvError::NotLeader => "Current node isn't leader.".to_owned(),
            KvError::FailToCommit => "The command failed to commit.".to_owned(),
            KvError::Timeout => "The command spend too mach time for commit, maybe leader is died or network partition occurs.".to_owned(),
        }
    }

    /// The wire code of this error.
    pub fn get_code(&self) -> (r: u32)
        ensures
            r == code_of(*self),
    {
        match self {
            KvError::Raft(_) => KVERR_RAFT,
            KvError::NotLeader => KVERR_NOT_LEADER,
            KvError::FailToCommit => KVERR_FAIL_TO_COMMIT,
            KvError::Timeout => KVERR_TIMEOUT,
        }
    }
}

} // verus!

//! The clerk's decisions: which replica it believes leads, when it gives that
//! belief up, and which replies end an operation. The clerk sends to its
//! suspected leader; with none, it probes every replica and adopts the first
//! that answers as leader.
use vstd::prelude::*;
use crate::messages::{GetReply, PutAppendReply};

verus! {

/// The replica a clerk believes to lead, among `servers` replicas.
pub struct LeaderCache {
    leader: Option<usize>,
    servers: usize,
}

impl LeaderCache {
    pub closed spec fn suspected(&self) -> Option<usize> {
        self.leader
    }

    pub closed spec fn servers(&self) -> usize {
        self.servers
    }

    /// A suspected leader is one of the replicas.
    pub open spec fn wf(&self) -> bool {
        self.suspected() matches Some(l) ==> l < self.servers()
    }

    /// No leader known yet among `servers` replicas.
    pub fn new(servers: usize) -> (r: LeaderCache)
        ensures
            r.wf(),
            r.suspected() is None,
            r.servers() == servers,
    {
        LeaderCache { leader: None, servers }
    }

    pub fn leader(&self) -> (r: Option<usize>)
        ensures
            r == self.suspected(),
    {
        self.leader
    }

    /// The suspected leader did not answer in time: the clerk forgets it.
    pub fn on_leader_timeout(&mut self)
        ensures
            final(self).wf(),
            final(self).suspected() is None,
            final(self).servers() == old(self).servers(),
    {
        self.leader = None;
    }

    /// The suspected leader answered; `leading` says whether as the leader.
    /// Its reply stands as the result exactly then; otherwise the clerk
    /// forgets it.
    pub fn on_leader_reply(&mut self, leading: bool) -> (r: bool)
        requires
            old(self).wf(),
        ensures
            final(self).wf(),
            r == leading,
            leading ==> final(self).suspected() == old(self).suspected(),
            !leading ==> final(self).suspected() is None,
            final(self).servers() == old(self).servers(),
    {
        if !leading {
            self.leader = None;
        }
        leading
    }

    /// Replica `i` answered a probe; `leading` says whether as the leader.
    /// The clerk adopts it exactly then, and its reply stands as the result.
    pub fn on_probe_reply(&mut self, i: usize, leading: bool) -> (r: bool)
        requires
            old(self).wf(),
            i < old(self).servers(),
        ensures
            final(self).wf(),
            r == leading,
            leading ==> final(self).suspected() == Some(i),
            !leading ==> final(self).suspected() == old(self).suspected(),
            final(self).servers() == old(self).servers(),
    {
        if leading {
            self.leader = Some(i);
        }
        leading
    }
}

/// A `Get` answer came from a leader: the call succeeded (`Some`) and the
/// reply does not say wrong leader.
pub fn get_is_leader(reply: Option<&GetReply>) -> (r: bool)
    ensures
        r == (reply matches Some(m) && !m.wrong_leader),
{
    match reply {
        Some(m) => !m.wrong_leader,
        None => false,
    }
}

/// A `PutAppend` answer came from a leader.
pub fn put_append_is_leader(reply: Option<&PutAppendReply>) -> (r: bool)
    ensures
        r == (reply matches Some(m) && !m.wrong_leader),
{
    match reply {
        Some(m) => !m.wrong_leader,
        None => false,
    }
}

/// The value a `Get` returns, where the reply ends it: a reply without error.
pub fn get_result(reply: &GetReply) -> (r: Option<String>)
    ensures
        r is Some <==> reply.err@.len() == 0,
        r matches Some(v) ==> v@ == reply.value@,
{
    if reply.err.as_str().is_empty() {
        Some(reply.value.clone())
    } else {
        None
    }
}

/// A `Put` or `Append` is done exactly when a reply comes without error.
pub fn put_append_done(reply: &PutAppendReply) -> (r: bool)
    ensures
        r == (reply.err@.len() == 0),
{
    reply.err.as_str().is_empty()
}

} // verus!

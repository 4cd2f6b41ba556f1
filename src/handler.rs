//! What a replica's request handlers decide: whether a committed response
//! answers the request that waits for it, whether a mutation was applied
//! already, and the reply for each way a wait can end.
use vstd::prelude::*;
use vstd::string::StringExecFns;
use crate::command::{build_uuid, CommandResponse};
use crate::errors::{code_of, error_text, KvError, KVERR_CLOESD, KVERR_NOT_LEADER, KVERR_OK};
use crate::ids::be_value;
use crate::machine::{is_duplicate, KvStateMachine};
use crate::messages::{GetReply, PutAppendReply, PutAppendRequest};

verus! {

/// The error text of a reply for `e`.
pub open spec fn reply_error_text(e: KvError) -> Seq<char> {
    "ERROR: "@ + error_text(e)
}

/// The committed response answers the request with id `expected` only if it
/// carries that id; otherwise the slot committed another command.
pub fn resolve_commit(expected: u128, resp: CommandResponse) -> (r: Result<
    CommandResponse,
    KvError,
>)
    ensures
        resp.command_id == expected ==> r == Ok::<CommandResponse, KvError>(resp),
        resp.command_id != expected ==> r matches Err(KvError::FailToCommit),
{
    if resp.command_id == expected {
        Ok(resp)
    } else {
        Err(KvError::FailToCommit)
    }
}

/// The error part of a reply for `e`.
fn error_reply_text(e: &KvError) -> (r: String)
    ensures
        r@ == reply_error_text(*e),
{
    "ERROR: ".to_owned().concat(e.describe().as_str())
}

/// The reply to a `Get` whose wait ended with `outcome`: the result of the
/// proposal, or `None` where the registry closed first.
pub fn get_reply(outcome: Option<Result<CommandResponse, KvError>>) -> (r: GetReply)
    ensures
        match outcome {
            None => !r.wrong_leader && r.err@ == "FSM cancels execution."@ && r.value@.len() == 0
                && r.err_code == KVERR_CLOESD,
            Some(Ok(c)) => !r.wrong_leader && r.err@.len() == 0 && r.value@ == c.reply@
                && r.err_code == KVERR_OK,
            Some(Err(KvError::NotLeader)) => r.wrong_leader && r.err@ == "not leader"@
                && r.value@.len() == 0 && r.err_code == KVERR_NOT_LEADER,
            Some(Err(e)) => !r.wrong_leader && r.err@ == reply_error_text(e) && r.value@.len() == 0
                && r.err_code == code_of(e),
        },
{
    match outcome {
        None => GetReply {
            wrong_leader: false,
            err: "FSM cancels execution.".to_owned(),
            value: String::new(),
            err_code: KVERR_CLOESD,
        },
        Some(Ok(c)) => GetReply {
            wrong_leader: false,
            err: String::new(),
            value: c.reply,
            err_code: KVERR_OK,
        },
        Some(Err(KvError::NotLeader)) => GetReply {
            wrong_leader: true,
            err: "not leader".to_owned(),
            value: String::new(),
            err_code: KVERR_NOT_LEADER,
        },
        Some(Err(e)) => GetReply {
            wrong_leader: false,
            err: error_reply_text(&e),
            value: String::new(),
            err_code: e.get_code(),
        },
    }
}

/// The reply to a `PutAppend` whose wait ended with `outcome`.
pub fn put_append_reply(outcome: Option<Result<CommandResponse, KvError>>) -> (r: PutAppendReply)
    ensures
        match outcome {
            None => !r.wrong_leader && r.err@ == "FSM cancels execution."@ && r.err_code
                == KVERR_CLOESD,
            Some(Ok(_)) => !r.wrong_leader && r.err@.len() == 0 && r.err_code == KVERR_OK,
            Some(Err(KvError::NotLeader)) => r.wrong_leader && r.err@ == "not leader"@ && r.err_code
                == KVERR_NOT_LEADER,
            Some(Err(e)) => !r.wrong_leader && r.err@ == reply_error_text(e) && r.err_code
                == code_of(e),
        },
{
    match outcome {
        None => PutAppendReply {
            wrong_leader: false,
            err: "FSM cancels execution.".to_owned(),
            err_code: KVERR_CLOESD,
        },
        Some(Ok(_)) => PutAppendReply { wrong_leader: false, err: String::new(), err_code: KVERR_OK },
        Some(Err(KvError::NotLeader)) => PutAppendReply {
            wrong_leader: true,
            err: "not leader".to_owned(),
            err_code: KVERR_NOT_LEADER,
        },
        Some(Err(e)) => PutAppendReply {
            wrong_leader: false,
            err: error_reply_text(&e),
            err_code: e.get_code(),
        },
    }
}

/// The reply to a `PutAppend` whose mutation is its client's last applied
/// one: success, without proposing anything. `None` where the request must
/// be proposed.
pub fn fast_path_reply(fsm: &KvStateMachine, arg: &PutAppendRequest) -> (r: Option<PutAppendReply>)
    requires
        fsm.wf(),
        arg.id@.len() == 16,
    ensures
        r is Some <==> is_duplicate(fsm@.last, arg.client@, be_value(arg.id@) as u128),
        r is Some ==> fsm.applied().contains((arg.client@, be_value(arg.id@) as u128)),
        r matches Some(reply) ==> !reply.wrong_leader && reply.err@.len() == 0 && reply.err_code
            == KVERR_OK,
{
    let id = build_uuid(arg.id.as_slice());
    if fsm.has_done(&arg.client, id) {
        Some(PutAppendReply { wrong_leader: false, err: String::new(), err_code: KVERR_OK })
    } else {
        None
    }
}

} // verus!

//! Commands as the replicated log carries them, and what a committed command
//! hands back to the request that proposed it.
use vstd::prelude::*;
use crate::codec::{
    dec_id, dec_str, encodable, holds_at, id_bytes, lemma_dec_id, lemma_dec_str, lemma_holds_split,
    lemma_holds_whole,
    push_id, push_str, read_id, read_str, str_bytes,
};
use crate::ids::{be_value, new_id, parse_request_id};
use crate::messages::{GetRequest, PutAppendRequest, OP_APPEND, OP_PUT};

verus! {

/// A mutation as a clerk asks for it: key and value.
pub enum Op {
    Put(String, String),
    Append(String, String),
}

impl Op {
    /// The request for this operation, under the given request id.
    pub fn into_request_with_id(self, client: String, id: Vec<u8>) -> (r: PutAppendRequest)
        ensures
            r.id@ == id@,
            r.client@ == client@,
            match self {
                Op::Put(k, v) => r.op == OP_PUT && r.key@ == k@ && r.value@ == v@,
                Op::Append(k, v) => r.op == OP_APPEND && r.key@ == k@ && r.value@ == v@,
            },
    {
        match self {
            Op::Put(key, value) => PutAppendRequest { id, key, value, op: OP_PUT, client },
            Op::Append(key, value) => PutAppendRequest { id, key, value, op: OP_APPEND, client },
        }
    }

    /// The request for this operation, under a fresh random request id.
    pub fn into_request(self, client: String) -> (r: PutAppendRequest)
        ensures
            r.id@.len() == 16,
            r.client@ == client@,
            match self {
                Op::Put(k, v) => r.op == OP_PUT && r.key@ == k@ && r.value@ == v@,
                Op::Append(k, v) => r.op == OP_APPEND && r.key@ == k@ && r.value@ == v@,
            },
    {
        let id = new_id();
        self.into_request_with_id(client, id)
    }
}

/// A command of the replicated log.
pub enum KvCommand {
    Get { id: u128, key: String, client: String },
    Put { id: u128, key: String, value: String, client: String },
    Append { id: u128, key: String, value: String, client: String },
}

/// The mathematical content of a `KvCommand`.
pub enum CommandView {
    Get { id: u128, key: Seq<char>, client: Seq<char> },
    Put { id: u128, key: Seq<char>, value: Seq<char>, client: Seq<char> },
    Append { id: u128, key: Seq<char>, value: Seq<char>, client: Seq<char> },
}

impl CommandView {
    pub open spec fn id(self) -> u128 {
        match self {
            CommandView::Get { id, .. } => id,
            CommandView::Put { id, .. } => id,
            CommandView::Append { id, .. } => id,
        }
    }

    pub open spec fn key(self) -> Seq<char> {
        match self {
            CommandView::Get { key, .. } => key,
            CommandView::Put { key, .. } => key,
            CommandView::Append { key, .. } => key,
        }
    }

    pub open spec fn client(self) -> Seq<char> {
        match self {
            CommandView::Get { client, .. } => client,
            CommandView::Put { client, .. } => client,
            CommandView::Append { client, .. } => client,
        }
    }

    pub open spec fn is_readonly(self) -> bool {
        self is Get
    }

    /// The value of a mutation; empty for a read.
    pub open spec fn value(self) -> Seq<char> {
        match self {
            CommandView::Get { .. } => Seq::empty(),
            CommandView::Put { value, .. } => value,
            CommandView::Append { value, .. } => value,
        }
    }

    /// Every string of the command has a UTF-8 length that fits in a `u64`.
    pub open spec fn encodable(self) -> bool {
        encodable(self.key()) && encodable(self.value()) && encodable(self.client())
    }
}

/// The tag byte of each kind of command in its encoding.
pub const TAG_GET: u8 = 0;
pub const TAG_PUT: u8 = 1;
pub const TAG_APPEND: u8 = 2;

/// The bytes of a command as the log carries it: a tag byte, the request
/// id, the key, the value (mutations only) and the client.
pub open spec fn enc_cmd(c: CommandView) -> Seq<u8> {
    match c {
        CommandView::Get { id, key, client } => seq![TAG_GET] + id_bytes(id) + str_bytes(key)
            + str_bytes(client),
        CommandView::Put { id, key, value, client } => seq![TAG_PUT] + id_bytes(id) + str_bytes(
            key,
        ) + str_bytes(value) + str_bytes(client),
        CommandView::Append { id, key, value, client } => seq![TAG_APPEND] + id_bytes(id)
            + str_bytes(key) + str_bytes(value) + str_bytes(client),
    }
}

/// Reads the fields that follow the key: the client of a read; the value and
/// the client of a mutation.
pub open spec fn dec_cmd_tail(b: Seq<u8>, tag: u8, id: u128, key: Seq<char>, pos: int) -> Option<
    (CommandView, int),
> {
    if tag == TAG_GET {
        match dec_str(b, pos) {
            Some((client, p)) => Some((CommandView::Get { id, key, client }, p)),
            None => None,
        }
    } else if tag == TAG_PUT || tag == TAG_APPEND {
        match dec_str(b, pos) {
            Some((value, p)) => match dec_str(b, p) {
                Some((client, q)) => Some(
                    (
                        if tag == TAG_PUT {
                            CommandView::Put { id, key, value, client }
                        } else {
                            CommandView::Append { id, key, value, client }
                        },
                        q,
                    ),
                ),
                None => None,
            },
            None => None,
        }
    } else {
        None
    }
}

/// The command that the bytes `b` encode, all of them and nothing more.
pub open spec fn dec_cmd(b: Seq<u8>) -> Option<CommandView> {
    if b.len() == 0 {
        None
    } else {
        match dec_id(b, 1) {
            Some((id, p)) => match dec_str(b, p) {
                Some((key, q)) => match dec_cmd_tail(b, b[0], id, key, q) {
                    Some((c, e)) => if e == b.len() {
                        Some(c)
                    } else {
                        None
                    },
                    None => None,
                },
                None => None,
            },
            None => None,
        }
    }
}

proof fn lemma_read_head(b: Seq<u8>, tag: u8, id: u128, key: Seq<char>, rest: Seq<u8>)
    requires
        encodable(key),
        b == seq![tag] + id_bytes(id) + str_bytes(key) + rest,
    ensures
        b.len() > 0,
        b[0] == tag,
        dec_id(b, 1) == Some((id, 17int)),
        dec_str(b, 17) == Some((key, 17 + str_bytes(key).len() as int)),
        holds_at(b, 17 + str_bytes(key).len() as int, rest),
{
    let t = seq![tag];
    let i = id_bytes(id);
    let k = str_bytes(key);
    lemma_holds_whole(b);
    lemma_holds_split(b, 0, t + i + k, rest);
    lemma_holds_split(b, 0, t + i, k);
    lemma_holds_split(b, 0, t, i);
    lemma_dec_id(b, 1, id);
    lemma_dec_str(b, 17, key);
}

proof fn lemma_read_tail(b: Seq<u8>, pos: int, value: Seq<char>, client: Seq<char>, with_value: bool)
    requires
        encodable(value),
        encodable(client),
        with_value ==> holds_at(b, pos, str_bytes(value) + str_bytes(client)),
        !with_value ==> holds_at(b, pos, str_bytes(client)),
        with_value ==> b.len() == pos + str_bytes(value).len() + str_bytes(client).len(),
        !with_value ==> b.len() == pos + str_bytes(client).len(),
    ensures
        with_value ==> dec_str(b, pos) == Some((value, pos + str_bytes(value).len())),
        with_value ==> dec_str(b, pos + str_bytes(value).len() as int) == Some((client, b.len() as int)),
        !with_value ==> dec_str(b, pos) == Some((client, b.len() as int)),
{
    if with_value {
        lemma_holds_split(b, pos, str_bytes(value), str_bytes(client));
        lemma_dec_str(b, pos, value);
        lemma_dec_str(b, pos + str_bytes(value).len() as int, client);
    } else {
        lemma_dec_str(b, pos, client);
    }
}

/// Decoding the encoding of a command gives the command back.
pub proof fn lemma_command_round_trip(c: CommandView)
    requires
        c.encodable(),
    ensures
        dec_cmd(enc_cmd(c)) == Some(c),
{
    let b = enc_cmd(c);
    match c {
        CommandView::Get { id, key, client } => {
            let rest = str_bytes(client);
            assert(b == seq![TAG_GET] + id_bytes(id) + str_bytes(key) + rest);
            lemma_read_head(b, TAG_GET, id, key, rest);
            lemma_read_tail(b, 17 + str_bytes(key).len() as int, Seq::empty(), client, false);
        },
        CommandView::Put { id, key, value, client } => {
            let rest = str_bytes(value) + str_bytes(client);
            assert(b =~= seq![TAG_PUT] + id_bytes(id) + str_bytes(key) + rest);
            lemma_read_head(b, TAG_PUT, id, key, rest);
            lemma_read_tail(b, 17 + str_bytes(key).len() as int, value, client, true);
        },
        CommandView::Append { id, key, value, client } => {
            let rest = str_bytes(value) + str_bytes(client);
            assert(b =~= seq![TAG_APPEND] + id_bytes(id) + str_bytes(key) + rest);
            lemma_read_head(b, TAG_APPEND, id, key, rest);
            lemma_read_tail(b, 17 + str_bytes(key).len() as int, value, client, true);
        },
    }
}

impl View for KvCommand {
    type V = CommandView;

    open spec fn view(&self) -> CommandView {
        match self {
            KvCommand::Get { id, key, client } => CommandView::Get {
                id: *id,
                key: key@,
                client: client@,
            },
            KvCommand::Put { id, key, value, client } => CommandView::Put {
                id: *id,
                key: key@,
                value: value@,
                client: client@,
            },
            KvCommand::Append { id, key, value, client } => CommandView::Append {
                id: *id,
                key: key@,
                value: value@,
                client: client@,
            },
        }
    }
}

/// Reads the request id that a request carries; the bytes must be a UUID's 16.
pub fn build_uuid(origin: &[u8]) -> (r: u128)
    requires
        origin@.len() == 16,
    ensures
        r as nat == be_value(origin@),
{
    match parse_request_id(origin) {
        Some(v) => v,
        None => {
            proof {
                assert(false);
            }
            0
        },
    }
}

impl KvCommand {
    /// The command a `PutAppend` request asks for.
    pub fn from_put_append(request: PutAppendRequest) -> (r: KvCommand)
        requires
            request.id@.len() == 16,
            request.op == OP_PUT || request.op == OP_APPEND,
        ensures
            request.op == OP_PUT ==> r@ == (CommandView::Put {
                id: be_value(request.id@) as u128,
                key: request.key@,
                value: request.value@,
                client: request.client@,
            }),
            request.op == OP_APPEND ==> r@ == (CommandView::Append {
                id: be_value(request.id@) as u128,
                key: request.key@,
                value: request.value@,
                client: request.client@,
            }),
    {
        let id = build_uuid(request.id.as_slice());
        if request.op == OP_PUT {
            KvCommand::Put { id, key: request.key, value: request.value, client: request.client }
        } else {
            KvCommand::Append {
                id,
                key: request.key,
                value: request.value,
                client: request.client,
            }
        }
    }

    /// The command a `Get` request asks for.
    pub fn from_get(request: GetRequest) -> (r: KvCommand)
        requires
            request.id@.len() == 16,
        ensures
            r@ == (CommandView::Get {
                id: be_value(request.id@) as u128,
                key: request.key@,
                client: request.client@,
            }),
    {
        let id = build_uuid(request.id.as_slice());
        KvCommand::Get { id, key: request.key, client: request.client }
    }

    pub fn get_id(&self) -> (r: u128)
        ensures
            r == self@.id(),
    {
        match self {
            KvCommand::Get { id, .. } => *id,
            KvCommand::Put { id, .. } => *id,
            KvCommand::Append { id, .. } => *id,
        }
    }

    pub fn get_client(&self) -> (r: &String)
        ensures
            r@ == self@.client(),
    {
        match self {
            KvCommand::Get { client, .. } => client,
            KvCommand::Put { client, .. } => client,
            KvCommand::Append { client, .. } => client,
        }
    }

    /// The bytes of this command as the log carries it.
    pub fn to_bytes(&self) -> (r: Vec<u8>)
        ensures
            r@ == enc_cmd(self@),
            self@.encodable(),
    {
        let mut out: Vec<u8> = Vec::new();
        match self {
            KvCommand::Get { id, key, client } => {
                out.push(TAG_GET);
                push_id(&mut out, *id);
                push_str(&mut out, key.as_str());
                push_str(&mut out, client.as_str());
            },
            KvCommand::Put { id, key, value, client } => {
                out.push(TAG_PUT);
                push_id(&mut out, *id);
                push_str(&mut out, key.as_str());
                push_str(&mut out, value.as_str());
                push_str(&mut out, client.as_str());
            },
            KvCommand::Append { id, key, value, client } => {
                out.push(TAG_APPEND);
                push_id(&mut out, *id);
                push_str(&mut out, key.as_str());
                push_str(&mut out, value.as_str());
                push_str(&mut out, client.as_str());
            },
        }
        assert(out@ =~= enc_cmd(self@));
        out
    }

    /// The command that `b` encodes; `None` where `b` is no command's encoding.
    pub fn from_bytes(b: &[u8]) -> (r: Option<KvCommand>)
        ensures
            r is Some <==> dec_cmd(b@) is Some,
            r matches Some(c) ==> dec_cmd(b@) == Some(c@),
    {
        if b.len() == 0 {
            return None;
        }
        let tag = b[0];
        let (id, p) = match read_id(b, 1) {
            Some(x) => x,
            None => return None,
        };
        let (key, q) = match read_str(b, p) {
            Some(x) => x,
            None => return None,
        };
        let (cmd, e) = if tag == TAG_GET {
            match read_str(b, q) {
                Some((client, e)) => (KvCommand::Get { id, key, client }, e),
                None => return None,
            }
        } else if tag == TAG_PUT || tag == TAG_APPEND {
            let (value, r) = match read_str(b, q) {
                Some(x) => x,
                None => return None,
            };
            let (client, e) = match read_str(b, r) {
                Some(x) => x,
                None => return None,
            };
            if tag == TAG_PUT {
                (KvCommand::Put { id, key, value, client }, e)
            } else {
                (KvCommand::Append { id, key, value, client }, e)
            }
        } else {
            return None;
        };
        if e != b.len() {
            return None;
        }
        Some(cmd)
    }

    /// Whether the command leaves the store as it is.
    pub fn is_readonly(&self) -> (r: bool)
        ensures
            r == self@.is_readonly(),
    {
        match self {
            KvCommand::Get { .. } => true,
            KvCommand::Put { .. } | KvCommand::Append { .. } => false,
        }
    }
}

/// What a committed command hands to the request waiting on its log index.
pub struct CommandResponse {
    pub command_id: u128,
    /// The value read, for a `Get`; empty for a mutation.
    pub reply: String,
    pub command_idx: u64,
}

impl CommandResponse {
    pub fn new(id: u128, reply: String, idx: u64) -> (r: CommandResponse)
        ensures
            r.command_id == id,
            r.reply@ == reply@,
            r.command_idx == idx,
    {
        CommandResponse { command_id: id, reply, command_idx: idx }
    }
}

} // verus!

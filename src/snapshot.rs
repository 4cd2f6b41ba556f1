//! Snapshots: the two blobs that carry a replica's state, the table of
//! last applied mutations and the store with its last applied index.
use vstd::prelude::*;
use crate::codec::{
    dec_id, dec_str, dec_u64, encodable, holds_at, id_bytes, lemma_dec_id, lemma_dec_str,
    lemma_dec_u64, lemma_holds_split, lemma_holds_whole, push_id, push_str, push_u64, read_id, read_str, read_u64,
    str_bytes, u64_bytes,
};
use crate::table::{insert_all, Table};

verus! {

/// The tag byte of a blob of last applied mutations.
pub const TAG_LAST_COMMANDS: u8 = 1;
/// The tag byte of a blob of the store.
pub const TAG_KVS: u8 = 2;

/// The content of a snapshot blob.
pub enum VirtualView {
    /// Pairs of client and request id of its last applied mutation.
    LastCommands(Seq<(Seq<char>, u128)>),
    /// Pairs of key and value, and the last applied index.
    Kvs(Seq<(Seq<char>, Seq<char>)>, u64),
}

/// A snapshot blob, decoded.
pub enum VirtualCommand {
    InstallLastCommand(Vec<(String, u128)>),
    InstallKvs(Vec<(String, String)>, u64),
}

impl View for VirtualCommand {
    type V = VirtualView;

    open spec fn view(&self) -> VirtualView {
        match self {
            VirtualCommand::InstallLastCommand(v) => VirtualView::LastCommands(
                v@.map_values(|p: (String, u128)| (p.0@, p.1)),
            ),
            VirtualCommand::InstallKvs(v, i) => VirtualView::Kvs(
                v@.map_values(|p: (String, String)| (p.0@, p.1@)),
                *i,
            ),
        }
    }
}

/// The blobs of a snapshot, in the order in which they are installed.
pub struct SnapshotFile {
    pub commands: Vec<Vec<u8>>,
}

pub open spec fn enc_lc_pair(p: (Seq<char>, u128)) -> Seq<u8> {
    str_bytes(p.0) + id_bytes(p.1)
}

pub open spec fn enc_kv_pair(p: (Seq<char>, Seq<char>)) -> Seq<u8> {
    str_bytes(p.0) + str_bytes(p.1)
}

pub open spec fn enc_lc_list(s: Seq<(Seq<char>, u128)>) -> Seq<u8>
    decreases s.len(),
{
    if s.len() == 0 {
        Seq::empty()
    } else {
        enc_lc_list(s.drop_last()) + enc_lc_pair(s.last())
    }
}

pub open spec fn enc_kv_list(s: Seq<(Seq<char>, Seq<char>)>) -> Seq<u8>
    decreases s.len(),
{
    if s.len() == 0 {
        Seq::empty()
    } else {
        enc_kv_list(s.drop_last()) + enc_kv_pair(s.last())
    }
}

/// The bytes of a snapshot blob: its tag, the number of pairs, the pairs, and
/// for the store the last applied index.
pub open spec fn enc_virtual(v: VirtualView) -> Seq<u8> {
    match v {
        VirtualView::LastCommands(s) => seq![TAG_LAST_COMMANDS] + u64_bytes(s.len() as u64)
            + enc_lc_list(s),
        VirtualView::Kvs(s, idx) => seq![TAG_KVS] + u64_bytes(s.len() as u64) + enc_kv_list(s)
            + u64_bytes(idx),
    }
}

/// Every string of the blob's content has a UTF-8 length, and the blob a
/// number of pairs, that fit in a `u64`.
pub open spec fn virtual_encodable(v: VirtualView) -> bool {
    match v {
        VirtualView::LastCommands(s) => s.len() <= u64::MAX && forall|i: int|
            0 <= i < s.len() ==> encodable(#[trigger] s[i].0),
        VirtualView::Kvs(s, _) => s.len() <= u64::MAX && forall|i: int|
            0 <= i < s.len() ==> kv_encodable(#[trigger] s[i]),
    }
}

/// Both strings of the pair have a UTF-8 length that fits in a `u64`.
pub open spec fn kv_encodable(p: (Seq<char>, Seq<char>)) -> bool {
    encodable(p.0) && encodable(p.1)
}

pub open spec fn dec_lc_pair(b: Seq<u8>, pos: int) -> Option<((Seq<char>, u128), int)> {
    match dec_str(b, pos) {
        Some((c, p)) => match dec_id(b, p) {
            Some((id, q)) => Some(((c, id), q)),
            None => None,
        },
        None => None,
    }
}

pub open spec fn dec_kv_pair(b: Seq<u8>, pos: int) -> Option<((Seq<char>, Seq<char>), int)> {
    match dec_str(b, pos) {
        Some((k, p)) => match dec_str(b, p) {
            Some((v, q)) => Some(((k, v), q)),
            None => None,
        },
        None => None,
    }
}

/// Reads `n` pairs of client and request id at `pos`.
pub open spec fn dec_lc_list(b: Seq<u8>, pos: int, n: nat) -> Option<(Seq<(Seq<char>, u128)>, int)>
    decreases n,
{
    if n == 0 {
        Some((Seq::empty(), pos))
    } else {
        match dec_lc_list(b, pos, (n - 1) as nat) {
            Some((acc, p)) => match dec_lc_pair(b, p) {
                Some((x, q)) => Some((acc.push(x), q)),
                None => None,
            },
            None => None,
        }
    }
}

/// Reads `n` pairs of key and value at `pos`.
pub open spec fn dec_kv_list(b: Seq<u8>, pos: int, n: nat) -> Option<
    (Seq<(Seq<char>, Seq<char>)>, int),
>
    decreases n,
{
    if n == 0 {
        Some((Seq::empty(), pos))
    } else {
        match dec_kv_list(b, pos, (n - 1) as nat) {
            Some((acc, p)) => match dec_kv_pair(b, p) {
                Some((x, q)) => Some((acc.push(x), q)),
                None => None,
            },
            None => None,
        }
    }
}

/// The content of the snapshot blob `b`, all of it and nothing more.
pub open spec fn dec_virtual(b: Seq<u8>) -> Option<VirtualView> {
    if b.len() == 0 {
        None
    } else {
        match dec_u64(b, 1) {
            Some((n, p)) => if b[0] == TAG_LAST_COMMANDS {
                match dec_lc_list(b, p, n as nat) {
                    Some((s, q)) => if q == b.len() {
                        Some(VirtualView::LastCommands(s))
                    } else {
                        None
                    },
                    None => None,
                }
            } else if b[0] == TAG_KVS {
                match dec_kv_list(b, p, n as nat) {
                    Some((s, q)) => match dec_u64(b, q) {
                        Some((idx, e)) => if e == b.len() {
                            Some(VirtualView::Kvs(s, idx))
                        } else {
                            None
                        },
                        None => None,
                    },
                    None => None,
                }
            } else {
                None
            },
            None => None,
        }
    }
}

proof fn lemma_dec_lc_list(b: Seq<u8>, pos: int, s: Seq<(Seq<char>, u128)>)
    requires
        forall|i: int| 0 <= i < s.len() ==> encodable(#[trigger] s[i].0),
        holds_at(b, pos, enc_lc_list(s)),
    ensures
        dec_lc_list(b, pos, s.len()) == Some((s, pos + enc_lc_list(s).len())),
    decreases s.len(),
{
    if s.len() > 0 {
        let p = s.drop_last();
        let x = s.last();
        lemma_holds_split(b, pos, enc_lc_list(p), enc_lc_pair(x));
        assert forall|i: int| 0 <= i < p.len() implies encodable(#[trigger] p[i].0) by {
            assert(p[i] == s[i]);
        }
        lemma_dec_lc_list(b, pos, p);
        let q = pos + enc_lc_list(p).len();
        lemma_holds_split(b, q, str_bytes(x.0), id_bytes(x.1));
        assert(encodable(s[s.len() - 1].0));
        lemma_dec_str(b, q, x.0);
        lemma_dec_id(b, q + str_bytes(x.0).len() as int, x.1);
        assert(p.push(x) =~= s);
        assert((s.len() - 1) as nat == p.len());
    }
}

proof fn lemma_dec_kv_list(b: Seq<u8>, pos: int, s: Seq<(Seq<char>, Seq<char>)>)
    requires
        forall|i: int| 0 <= i < s.len() ==> kv_encodable(#[trigger] s[i]),
        holds_at(b, pos, enc_kv_list(s)),
    ensures
        dec_kv_list(b, pos, s.len()) == Some((s, pos + enc_kv_list(s).len())),
    decreases s.len(),
{
    if s.len() > 0 {
        let p = s.drop_last();
        let x = s.last();
        lemma_holds_split(b, pos, enc_kv_list(p), enc_kv_pair(x));
        assert forall|i: int| 0 <= i < p.len() implies kv_encodable(#[trigger] p[i]) by {
            assert(p[i] == s[i]);
        }
        lemma_dec_kv_list(b, pos, p);
        let q = pos + enc_kv_list(p).len();
        lemma_holds_split(b, q, str_bytes(x.0), str_bytes(x.1));
        assert(kv_encodable(s[s.len() - 1]));
        lemma_dec_str(b, q, x.0);
        lemma_dec_str(b, q + str_bytes(x.0).len() as int, x.1);
        assert(p.push(x) =~= s);
        assert((s.len() - 1) as nat == p.len());
    }
}

proof fn lemma_last_commands_round_trip(s: Seq<(Seq<char>, u128)>)
    requires
        virtual_encodable(VirtualView::LastCommands(s)),
    ensures
        dec_virtual(enc_virtual(VirtualView::LastCommands(s))) == Some(
            VirtualView::LastCommands(s),
        ),
{
    let b = enc_virtual(VirtualView::LastCommands(s));
    lemma_holds_whole(b);
    let t = seq![TAG_LAST_COMMANDS];
    let n = u64_bytes(s.len() as u64);
    lemma_holds_split(b, 0, t + n, enc_lc_list(s));
    lemma_holds_split(b, 0, t, n);
    lemma_dec_u64(b, 1, s.len() as u64);
    lemma_dec_lc_list(b, 9, s);
    assert(b.len() == 9 + enc_lc_list(s).len());
    assert(b[0] == TAG_LAST_COMMANDS);
}

proof fn lemma_kvs_round_trip(s: Seq<(Seq<char>, Seq<char>)>, idx: u64)
    requires
        virtual_encodable(VirtualView::Kvs(s, idx)),
    ensures
        dec_virtual(enc_virtual(VirtualView::Kvs(s, idx))) == Some(VirtualView::Kvs(s, idx)),
{
    let b = enc_virtual(VirtualView::Kvs(s, idx));
    lemma_holds_whole(b);
    let t = seq![TAG_KVS];
    let n = u64_bytes(s.len() as u64);
    lemma_holds_split(b, 0, t + n + enc_kv_list(s), u64_bytes(idx));
    lemma_holds_split(b, 0, t + n, enc_kv_list(s));
    lemma_holds_split(b, 0, t, n);
    lemma_dec_u64(b, 1, s.len() as u64);
    lemma_dec_kv_list(b, 9, s);
    lemma_dec_u64(b, 9 + enc_kv_list(s).len() as int, idx);
    assert(b.len() == 9 + enc_kv_list(s).len() + 8);
    assert(b[0] == TAG_KVS);
}

/// Decoding the encoding of a snapshot blob gives its content back.
pub proof fn lemma_virtual_round_trip(v: VirtualView)
    requires
        virtual_encodable(v),
    ensures
        dec_virtual(enc_virtual(v)) == Some(v),
{
    match v {
        VirtualView::LastCommands(s) => lemma_last_commands_round_trip(s),
        VirtualView::Kvs(s, idx) => lemma_kvs_round_trip(s, idx),
    }
}

proof fn lemma_lc_list_none(b: Seq<u8>, pos: int, i: nat, n: nat)
    requires
        dec_lc_list(b, pos, i) is None,
        i <= n,
    ensures
        dec_lc_list(b, pos, n) is None,
    decreases n,
{
    if n > i {
        lemma_lc_list_none(b, pos, i, (n - 1) as nat);
    }
}

proof fn lemma_kv_list_none(b: Seq<u8>, pos: int, i: nat, n: nat)
    requires
        dec_kv_list(b, pos, i) is None,
        i <= n,
    ensures
        dec_kv_list(b, pos, n) is None,
    decreases n,
{
    if n > i {
        lemma_kv_list_none(b, pos, i, (n - 1) as nat);
    }
}

/// The blob of a table of last applied mutations.
pub fn encode_last_commands(t: &Table<u128>) -> (r: Vec<u8>)
    ensures
        r@ == enc_virtual(VirtualView::LastCommands(t.pairs())),
        virtual_encodable(VirtualView::LastCommands(t.pairs())),
{
    let mut out: Vec<u8> = Vec::new();
    out.push(TAG_LAST_COMMANDS);
    push_u64(&mut out, t.len() as u64);
    let ghost head = out@;
    let ghost s = t.pairs();
    let mut i: usize = 0;
    assert(s.take(0) =~= Seq::<(Seq<char>, u128)>::empty());
    while i < t.len()
        invariant
            i <= s.len(),
            s == t.pairs(),
            out@ == head + enc_lc_list(s.take(i as int)),
            forall|j: int| 0 <= j < i ==> encodable(#[trigger] s[j].0),
        decreases s.len() - i,
    {
        let (k, v) = t.entry(i);
        push_str(&mut out, k.as_str());
        push_id(&mut out, *v);
        assert(s.take(i + 1).drop_last() =~= s.take(i as int));
        assert(s.take(i + 1).last() == s[i as int]);
        i = i + 1;
        assert(out@ =~= head + enc_lc_list(s.take(i as int)));
    }
    assert(s.take(i as int) =~= s);
    out
}

/// The blob of a store and its last applied index.
pub fn encode_kvs(t: &Table<String>, last_index: u64) -> (r: Vec<u8>)
    ensures
        r@ == enc_virtual(VirtualView::Kvs(t.pairs(), last_index)),
        virtual_encodable(VirtualView::Kvs(t.pairs(), last_index)),
{
    let mut out: Vec<u8> = Vec::new();
    out.push(TAG_KVS);
    push_u64(&mut out, t.len() as u64);
    let ghost head = out@;
    let ghost s = t.pairs();
    let mut i: usize = 0;
    assert(s.take(0) =~= Seq::<(Seq<char>, Seq<char>)>::empty());
    while i < t.len()
        invariant
            i <= s.len(),
            s == t.pairs(),
            out@ == head + enc_kv_list(s.take(i as int)),
            forall|j: int| 0 <= j < i ==> kv_encodable(#[trigger] s[j]),
        decreases s.len() - i,
    {
        let (k, v) = t.entry(i);
        push_str(&mut out, k.as_str());
        push_str(&mut out, v.as_str());
        assert(kv_encodable(s[i as int]));
        assert(s.take(i + 1).drop_last() =~= s.take(i as int));
        assert(s.take(i + 1).last() == s[i as int]);
        i = i + 1;
        assert(out@ =~= head + enc_kv_list(s.take(i as int)));
    }
    assert(s.take(i as int) =~= s);
    push_u64(&mut out, last_index);
    out
}

/// The content of a snapshot blob; `None` where `b` is no blob's encoding.
pub fn decode_virtual_command(b: &[u8]) -> (r: Option<VirtualCommand>)
    ensures
        r is Some <==> dec_virtual(b@) is Some,
        r matches Some(v) ==> dec_virtual(b@) == Some(v@),
{
    if b.len() == 0 {
        return None;
    }
    let tag = b[0];
    let (n, p) = match read_u64(b, 1) {
        Some(x) => x,
        None => return None,
    };
    if tag == TAG_LAST_COMMANDS {
        let mut v: Vec<(String, u128)> = Vec::new();
        let mut pos = p;
        let mut i: u64 = 0;
        while i < n
            invariant
                i <= n,
                b@.len() > 0,
                b@[0] == TAG_LAST_COMMANDS,
                dec_u64(b@, 1) == Some((n, p as int)),
                dec_lc_list(b@, p as int, i as nat) == Some(
                    (v@.map_values(|e: (String, u128)| (e.0@, e.1)), pos as int),
                ),
            decreases n - i,
        {
            let ghost acc = v@.map_values(|e: (String, u128)| (e.0@, e.1));
            let (c, q) = match read_str(b, pos) {
                Some(x) => x,
                None => {
                    proof {
                        assert(dec_lc_pair(b@, pos as int) is None);
                        assert(dec_lc_list(b@, p as int, (i + 1) as nat) is None);
                        lemma_lc_list_none(b@, p as int, (i + 1) as nat, n as nat);
                    }
                    return None;
                },
            };
            let (id, e) = match read_id(b, q) {
                Some(x) => x,
                None => {
                    proof {
                        assert(dec_lc_pair(b@, pos as int) is None);
                        assert(dec_lc_list(b@, p as int, (i + 1) as nat) is None);
                        lemma_lc_list_none(b@, p as int, (i + 1) as nat, n as nat);
                    }
                    return None;
                },
            };
            let ghost cv = c@;
            v.push((c, id));
            pos = e;
            i = i + 1;
            assert(v@.map_values(|e: (String, u128)| (e.0@, e.1)) =~= acc.push((cv, id)));
        }
        if pos != b.len() {
            return None;
        }
        Some(VirtualCommand::InstallLastCommand(v))
    } else if tag == TAG_KVS {
        let mut v: Vec<(String, String)> = Vec::new();
        let mut pos = p;
        let mut i: u64 = 0;
        while i < n
            invariant
                i <= n,
                b@.len() > 0,
                b@[0] == TAG_KVS,
                dec_u64(b@, 1) == Some((n, p as int)),
                dec_kv_list(b@, p as int, i as nat) == Some(
                    (v@.map_values(|e: (String, String)| (e.0@, e.1@)), pos as int),
                ),
            decreases n - i,
        {
            let ghost acc = v@.map_values(|e: (String, String)| (e.0@, e.1@));
            let (k, q) = match read_str(b, pos) {
                Some(x) => x,
                None => {
                    proof {
                        assert(dec_kv_pair(b@, pos as int) is None);
                        assert(dec_kv_list(b@, p as int, (i + 1) as nat) is None);
                        lemma_kv_list_none(b@, p as int, (i + 1) as nat, n as nat);
                    }
                    return None;
                },
            };
            let (val, e) = match read_str(b, q) {
                Some(x) => x,
                None => {
                    proof {
                        assert(dec_kv_pair(b@, pos as int) is None);
                        assert(dec_kv_list(b@, p as int, (i + 1) as nat) is None);
                        lemma_kv_list_none(b@, p as int, (i + 1) as nat, n as nat);
                    }
                    return None;
                },
            };
            let ghost kv = k@;
            let ghost vv = val@;
            v.push((k, val));
            pos = e;
            i = i + 1;
            assert(v@.map_values(|e: (String, String)| (e.0@, e.1@)) =~= acc.push((kv, vv)));
        }
        let (idx, e) = match read_u64(b, pos) {
            Some(x) => x,
            None => return None,
        };
        if e != b.len() {
            return None;
        }
        Some(VirtualCommand::InstallKvs(v, idx))
    } else {
        None
    }
}

} // verus!

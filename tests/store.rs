use kvraft::clerk::{get_is_leader, get_result, put_append_done, put_append_is_leader, LeaderCache};
use kvraft::command::{build_uuid, KvCommand, Op};
use kvraft::errors::{
    KvError, KVERR_CLOESD, KVERR_FAIL_TO_COMMIT, KVERR_NOT_LEADER, KVERR_OK, KVERR_RAFT,
    KVERR_TIMEOUT,
};
use kvraft::handler::{fast_path_reply, get_reply, put_append_reply, resolve_commit};
use kvraft::machine::{catch_up_range, snapshot_due, KvStateMachine};
use kvraft::messages::{GetReply, GetRequest, PutAppendRequest, OP_APPEND, OP_PUT};
use kvraft::snapshot::{decode_virtual_command, VirtualCommand};
use kvraft::waiters::Waiters;

fn id(n: u8) -> Vec<u8> {
    let mut v = vec![0u8; 15];
    v.push(n);
    v
}

fn put(key: &str, value: &str, client: &str, n: u8) -> KvCommand {
    KvCommand::from_put_append(PutAppendRequest {
        id: id(n),
        key: key.to_string(),
        value: value.to_string(),
        op: OP_PUT,
        client: client.to_string(),
    })
}

fn append(key: &str, value: &str, client: &str, n: u8) -> KvCommand {
    KvCommand::from_put_append(PutAppendRequest {
        id: id(n),
        key: key.to_string(),
        value: value.to_string(),
        op: OP_APPEND,
        client: client.to_string(),
    })
}

fn get(key: &str, client: &str, n: u8) -> KvCommand {
    KvCommand::from_get(GetRequest { id: id(n), key: key.to_string(), client: client.to_string() })
}

fn read(m: &mut KvStateMachine, index: u64, key: &str) -> String {
    m.handle_message(index, get(key, "reader", index as u8)).unwrap().reply
}

#[test]
fn basic_put_get() {
    let mut m = KvStateMachine::new();
    let r = m.handle_message(1, put("x", "1", "a", 1)).unwrap();
    assert_eq!(r.reply, "");
    assert_eq!(r.command_idx, 1);
    assert_eq!(read(&mut m, 2, "x"), "1");
}

#[test]
fn append_semantics() {
    let mut m = KvStateMachine::new();
    m.handle_message(1, append("k", "a", "c", 1));
    m.handle_message(2, append("k", "b", "c", 2));
    assert_eq!(read(&mut m, 3, "k"), "ab");
    m.handle_message(4, append("m", "z", "c", 3));
    assert_eq!(read(&mut m, 5, "m"), "z");
}

#[test]
fn get_of_absent_key_is_empty() {
    let mut m = KvStateMachine::new();
    assert_eq!(read(&mut m, 1, "nothing"), "");
}

#[test]
fn get_sees_state_before_its_index() {
    let mut m = KvStateMachine::new();
    m.handle_message(1, put("k", "old", "a", 1));
    let r = m.handle_message(2, get("k", "b", 9)).unwrap();
    m.handle_message(3, put("k", "new", "a", 2));
    assert_eq!(r.reply, "old");
    assert_eq!(r.command_id, 9);
    assert_eq!(read(&mut m, 4, "k"), "new");
}

#[test]
fn retry_dedupe() {
    let mut m = KvStateMachine::new();
    m.handle_message(1, append("k", "x", "c", 7));
    // the same request, retried at the next leader
    m.handle_message(2, append("k", "x", "c", 7));
    assert_eq!(read(&mut m, 3, "k"), "x");
    let req = PutAppendRequest {
        id: id(7),
        key: "k".to_string(),
        value: "x".to_string(),
        op: OP_APPEND,
        client: "c".to_string(),
    };
    let reply = fast_path_reply(&m, &req).unwrap();
    assert!(!reply.wrong_leader);
    assert_eq!(reply.err_code, KVERR_OK);
    assert!(reply.err.is_empty());
}

#[test]
fn other_clients_do_not_dedupe() {
    let mut m = KvStateMachine::new();
    m.handle_message(1, append("k", "x", "c1", 7));
    m.handle_message(2, append("k", "x", "c2", 7));
    assert_eq!(read(&mut m, 3, "k"), "xx");
    assert!(m.has_done(&"c1".to_string(), 7));
    assert!(m.has_done(&"c2".to_string(), 7));
    assert!(!m.has_done(&"c3".to_string(), 7));
}

#[test]
fn gets_are_not_recorded() {
    let mut m = KvStateMachine::new();
    m.handle_message(1, get("k", "c", 5));
    assert!(!m.has_done(&"c".to_string(), 5));
}

#[test]
fn wrong_leader_failover() {
    let reply = put_append_reply(Some(Err(KvError::NotLeader)));
    assert!(reply.wrong_leader);
    assert_eq!(reply.err_code, KVERR_NOT_LEADER);
    assert_eq!(reply.err, "not leader");
    assert!(!put_append_is_leader(Some(&reply)));

    let mut cache = LeaderCache::new(3);
    assert_eq!(cache.leader(), None);
    assert!(!cache.on_probe_reply(0, false));
    assert!(cache.on_probe_reply(2, true));
    assert_eq!(cache.leader(), Some(2));
    assert!(!cache.on_leader_reply(false));
    assert_eq!(cache.leader(), None);
    assert!(cache.on_probe_reply(1, true));
    assert!(cache.on_leader_reply(true));
    assert_eq!(cache.leader(), Some(1));
    cache.on_leader_timeout();
    assert_eq!(cache.leader(), None);
}

#[test]
fn timeout_then_committed_elsewhere() {
    let reply = put_append_reply(Some(Err(KvError::Timeout)));
    assert_eq!(reply.err_code, KVERR_TIMEOUT);
    assert!(!reply.wrong_leader);
    assert!(reply.err.starts_with("ERROR: "));
    assert!(!put_append_done(&reply));

    let mut m = KvStateMachine::new();
    let req = PutAppendRequest {
        id: id(3),
        key: "a".to_string(),
        value: "1".to_string(),
        op: OP_PUT,
        client: "c".to_string(),
    };
    assert!(fast_path_reply(&m, &req).is_none());
    m.handle_message(1, put("a", "1", "c", 3));
    assert!(fast_path_reply(&m, &req).is_some());
}

#[test]
fn snapshot_and_restore() {
    let mut m = KvStateMachine::new();
    let mut index: u64 = 0;
    for i in 0..100u8 {
        index += 1;
        let key = format!("k{}", i % 7);
        m.handle_message(index, append(&key, "v", &format!("c{}", i % 5), i));
    }
    let snap = m.make_snapshot();
    assert_eq!(snap.commands.len(), 2);

    let mut r = KvStateMachine::new();
    r.handle_virtual_command(&snap.commands[0]);
    r.handle_virtual_command(&snap.commands[1]);
    assert_eq!(r.last_applied_index(), m.last_applied_index());
    assert_eq!(r.last_applied_index(), 100);
    for i in 0..7u8 {
        let key = format!("k{}", i);
        assert_eq!(r.get_value(&key), m.get_value(&key));
    }
    // every client's last request is remembered, so a resend has no effect
    let before = r.get_value(&"k1".to_string());
    assert!(r.handle_message(101, append("k1", "v", "c4", 99)).is_some());
    assert_eq!(r.get_value(&"k1".to_string()), before);
    // an entry the snapshot covers is dropped
    assert!(r.handle_message(50, put("k1", "z", "n", 1)).is_none());
    assert_eq!(r.last_applied_index(), 101);
}

#[test]
fn entries_at_or_below_last_index_are_dropped() {
    let mut m = KvStateMachine::new();
    assert!(m.handle_message(5, put("a", "1", "c", 1)).is_some());
    assert!(m.handle_message(5, put("a", "2", "c", 2)).is_none());
    assert!(m.handle_message(3, put("a", "3", "c", 3)).is_none());
    assert_eq!(m.last_applied_index(), 5);
    assert_eq!(m.get_value(&"a".to_string()), "1");
}

#[test]
fn bad_snapshot_blob_is_refused() {
    let mut m = KvStateMachine::new();
    m.handle_message(1, put("a", "1", "c", 1));
    assert!(decode_virtual_command(&[]).is_none());
    assert!(decode_virtual_command(&[9, 0, 0]).is_none());
    let snap = m.make_snapshot();
    let mut cut = snap.commands[1].clone();
    cut.pop();
    assert!(decode_virtual_command(&cut).is_none());
    match decode_virtual_command(&snap.commands[1]) {
        Some(VirtualCommand::InstallKvs(pairs, idx)) => {
            assert_eq!(idx, 1);
            assert_eq!(pairs, vec![("a".to_string(), "1".to_string())]);
        }
        _ => panic!("expected the store blob"),
    }
}

#[test]
fn stale_snapshot_changes_nothing() {
    let mut old = KvStateMachine::new();
    old.handle_message(1, put("a", "old", "c", 1));
    let stale = old.make_snapshot();
    let mut m = KvStateMachine::new();
    m.handle_message(1, put("a", "x", "c", 1));
    m.handle_message(2, put("a", "new", "c", 2));
    m.handle_virtual_command(&stale.commands[1]);
    assert_eq!(m.last_applied_index(), 2);
    assert_eq!(m.get_value(&"a".to_string()), "new");
    // a newer one is installed
    let mut fresh = KvStateMachine::new();
    fresh.handle_virtual_command(&stale.commands[1]);
    assert_eq!(fresh.last_applied_index(), 1);
    assert_eq!(fresh.get_value(&"a".to_string()), "old");
}

#[test]
fn catch_up_ranges() {
    assert_eq!(catch_up_range(4, 9), Some((5, 9)));
    assert_eq!(catch_up_range(4, 4), None);
    assert_eq!(catch_up_range(4, 2), None);
}

#[test]
fn command_bytes_round_trip() {
    let cmds = vec![
        put("clé", "välue ✓", "client-1", 1),
        append("k", "", "c", 2),
        get("", "c", 3),
    ];
    for c in cmds {
        let b = c.to_bytes();
        let d = KvCommand::from_bytes(&b).unwrap();
        assert_eq!(d.get_id(), c.get_id());
        assert_eq!(d.get_client(), c.get_client());
        assert_eq!(d.is_readonly(), c.is_readonly());
        assert_eq!(d.to_bytes(), b);
    }
}

#[test]
fn malformed_command_bytes_are_refused() {
    assert!(KvCommand::from_bytes(&[]).is_none());
    let mut b = put("k", "v", "c", 1).to_bytes();
    b.push(0);
    assert!(KvCommand::from_bytes(&b).is_none());
    let mut bad_tag = put("k", "v", "c", 1).to_bytes();
    bad_tag[0] = 7;
    assert!(KvCommand::from_bytes(&bad_tag).is_none());
    // a key whose bytes are not UTF-8
    let mut bad_utf8 = get("ab", "c", 1).to_bytes();
    bad_utf8[25] = 0xff;
    assert!(KvCommand::from_bytes(&bad_utf8).is_none());
}

#[test]
fn request_id_is_read_big_endian() {
    let mut bytes = vec![0u8; 14];
    bytes.push(1);
    bytes.push(2);
    assert_eq!(build_uuid(&bytes), 0x0102);
    assert_eq!(build_uuid(&[0xff; 16]), u128::MAX);
    let c = get("k", "c", 0x2a);
    assert_eq!(c.get_id(), 0x2a);
}

#[test]
fn into_request_tags_ops() {
    let r = Op::Put("k".to_string(), "v".to_string()).into_request("me".to_string());
    assert_eq!(r.op, 1);
    assert_eq!(r.id.len(), 16);
    assert_eq!(r.client, "me");
    let a = Op::Append("k".to_string(), "w".to_string()).into_request("me".to_string());
    assert_eq!(a.op, 2);
    assert_eq!(a.value, "w");
    assert_ne!(a.id, r.id);
    let fixed = Op::Put("x".to_string(), "y".to_string()).into_request_with_id("c".to_string(), id(4));
    assert_eq!(fixed.id, id(4));
    assert_eq!(fixed.key, "x");
}

#[test]
fn error_codes() {
    assert_eq!(KvError::Raft("x".to_string()).get_code(), KVERR_RAFT);
    assert_eq!(KvError::NotLeader.get_code(), KVERR_NOT_LEADER);
    assert_eq!(KvError::FailToCommit.get_code(), KVERR_FAIL_TO_COMMIT);
    assert_eq!(KvError::Timeout.get_code(), KVERR_TIMEOUT);
    assert_eq!(KvError::NotLeader.describe(), "Current node isn't leader.");
}

#[test]
fn commit_of_another_command_fails() {
    let mut m = KvStateMachine::new();
    let resp = m.handle_message(1, put("a", "1", "c", 1)).unwrap();
    match resolve_commit(2, resp) {
        Err(e) => assert_eq!(e.get_code(), KVERR_FAIL_TO_COMMIT),
        Ok(_) => panic!("a different command committed"),
    }
    let resp = m.handle_message(2, get("a", "c", 5)).unwrap();
    let ok = resolve_commit(5, resp).ok().unwrap();
    let reply = get_reply(Some(Ok(ok)));
    assert_eq!(reply.value, "1");
    assert_eq!(reply.err_code, KVERR_OK);
    assert!(get_is_leader(Some(&reply)));
    assert_eq!(get_result(&reply), Some("1".to_string()));
}

#[test]
fn get_reply_variants() {
    let closed = get_reply(None);
    assert_eq!(closed.err_code, KVERR_CLOESD);
    assert!(!closed.wrong_leader);
    assert_eq!(closed.err, "FSM cancels execution.");
    let nl = get_reply(Some(Err(KvError::NotLeader)));
    assert!(nl.wrong_leader);
    assert_eq!(nl.err_code, KVERR_NOT_LEADER);
    assert!(!get_is_leader(Some(&nl)));
    let fc = get_reply(Some(Err(KvError::FailToCommit)));
    assert_eq!(fc.err, "ERROR: The command failed to commit.");
    assert_eq!(fc.err_code, KVERR_FAIL_TO_COMMIT);
    assert_eq!(get_result(&fc), None);
    assert!(!get_is_leader(None));
    let raft = put_append_reply(Some(Err(KvError::Raft("boom".to_string()))));
    assert_eq!(raft.err_code, KVERR_RAFT);
    let closed = put_append_reply(None);
    assert_eq!(closed.err_code, KVERR_CLOESD);
    let empty = GetReply { wrong_leader: false, err: String::new(), value: "v".to_string(), err_code: 0 };
    assert_eq!(get_result(&empty), Some("v".to_string()));
}

#[test]
fn waiter_registry() {
    let mut w: Waiters<u32> = Waiters::new();
    assert_eq!(w.register(3, 30), None);
    assert_eq!(w.register(3, 31), Some(30));
    assert_eq!(w.register(4, 40), None);
    assert_eq!(w.take(3), Some(31));
    assert_eq!(w.take(3), None);
    w.clear();
    assert_eq!(w.take(4), None);
}

#[test]
fn snapshot_threshold() {
    assert!(snapshot_due(91, 100));
    assert!(!snapshot_due(90, 100));
    assert!(!snapshot_due(0, 0));
    assert!(snapshot_due(1, 0));
    assert!(!snapshot_due(9, 10));
    assert!(snapshot_due(10, 10));
    assert!(snapshot_due(usize::MAX, usize::MAX));
}

#[test]
fn snapshot_bytes_depend_on_state_only() {
    let mut a = KvStateMachine::new();
    a.handle_message(1, put("b", "2", "y", 1));
    a.handle_message(2, put("a", "1", "x", 1));
    a.handle_message(3, put("é", "3", "z", 1));
    let mut b = KvStateMachine::new();
    b.handle_message(1, put("é", "3", "z", 1));
    b.handle_message(2, put("a", "1", "x", 1));
    b.handle_message(3, put("b", "2", "y", 1));
    let sa = a.make_snapshot();
    let sb = b.make_snapshot();
    assert_eq!(sa.commands, sb.commands);
    match decode_virtual_command(&sa.commands[1]) {
        Some(VirtualCommand::InstallKvs(pairs, _)) => {
            let keys: Vec<String> = pairs.into_iter().map(|p| p.0).collect();
            assert_eq!(keys, vec!["a".to_string(), "b".to_string(), "é".to_string()]);
        }
        _ => panic!("expected the store blob"),
    }
}

#[test]
fn retry_after_other_clients_has_no_effect() {
    let mut m = KvStateMachine::new();
    m.handle_message(1, append("k", "x", "c", 7));
    m.handle_message(2, append("k", "y", "d", 1));
    m.handle_message(3, get("k", "c", 8));
    m.handle_message(4, append("k", "x", "c", 7));
    assert_eq!(read(&mut m, 5, "k"), "xy");
}

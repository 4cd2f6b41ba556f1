//! The per-replica state machine that consumes the committed log: the store,
//! the table of each client's last applied mutation, and the index of the
//! last applied entry.
use vstd::prelude::*;
use vstd::string::StringExecFns;
use crate::command::{CommandResponse, CommandView, KvCommand};
use crate::snapshot::{
    dec_virtual, decode_virtual_command, enc_virtual, encode_kvs, encode_last_commands,
    lemma_virtual_round_trip, virtual_encodable, SnapshotFile, VirtualCommand, VirtualView,
};
use crate::table::{insert_all, sorted_pairs, Table};

verus! {

/// The mathematical state of a replica's state machine.
pub struct MachineView {
    /// The store.
    pub kv: Map<Seq<char>, Seq<char>>,
    /// The request id of each client's last applied mutation.
    pub last: Map<Seq<char>, u128>,
    /// The highest log index whose effect is in `kv` and `last`.
    pub last_index: u64,
}

/// The value of `k` in `kv`, empty where `k` is absent.
pub open spec fn lookup(kv: Map<Seq<char>, Seq<char>>, k: Seq<char>) -> Seq<char> {
    if kv.contains_key(k) {
        kv[k]
    } else {
        Seq::empty()
    }
}

/// `id` is the last mutation applied for `client`.
pub open spec fn is_duplicate(last: Map<Seq<char>, u128>, client: Seq<char>, id: u128) -> bool {
    last.contains_key(client) && last[client] == id
}

/// The store after a mutation takes effect; a read leaves it as it is.
pub open spec fn apply_kv(kv: Map<Seq<char>, Seq<char>>, c: CommandView) -> Map<
    Seq<char>,
    Seq<char>,
> {
    match c {
        CommandView::Get { .. } => kv,
        CommandView::Put { key, value, .. } => kv.insert(key, value),
        CommandView::Append { key, value, .. } => kv.insert(key, lookup(kv, key) + value),
    }
}

/// The entry at `index` with command `c` changes the store: it is new, it is a
/// mutation, and its client's last applied mutation is another one.
pub open spec fn takes_effect(m: MachineView, index: u64, c: CommandView) -> bool {
    index > m.last_index && !c.is_readonly() && !is_duplicate(m.last, c.client(), c.id())
}

/// The state after the committed entry at `index` with command `c`.
pub open spec fn step(m: MachineView, index: u64, c: CommandView) -> MachineView {
    if index <= m.last_index {
        m
    } else if takes_effect(m, index, c) {
        MachineView {
            kv: apply_kv(m.kv, c),
            last: m.last.insert(c.client(), c.id()),
            last_index: index,
        }
    } else {
        MachineView { last_index: index, ..m }
    }
}

/// What the command `c` replies when it commits in state `m`: the value of
/// its key for a read, nothing for a mutation.
pub open spec fn reply_of(m: MachineView, c: CommandView) -> Seq<char> {
    match c {
        CommandView::Get { key, .. } => lookup(m.kv, key),
        _ => Seq::empty(),
    }
}

/// The state after a snapshot blob's content is merged in: pairs of client
/// and request id into the last applied mutations; or pairs of key and value
/// into the store, whose last applied index then becomes the blob's. A store
/// blob whose index is not above the last applied one is older than the
/// state and changes nothing.
pub open spec fn install(m: MachineView, v: VirtualView) -> MachineView {
    match v {
        VirtualView::LastCommands(s) => MachineView { last: insert_all(m.last, s), ..m },
        VirtualView::Kvs(s, idx) => if idx > m.last_index {
            MachineView { kv: insert_all(m.kv, s), last_index: idx, ..m }
        } else {
            m
        },
    }
}

/// The (client, request id) pairs among the first `n` of `s`.
pub open spec fn pairs_upto(s: Seq<(Seq<char>, u128)>, n: int) -> Set<(Seq<char>, u128)> {
    Set::new(|p: (Seq<char>, u128)| exists|j: int| 0 <= j < n && s[j] == p)
}

/// The mutations that installing `v` records as applied.
pub open spec fn installed(v: VirtualView) -> Set<(Seq<char>, u128)> {
    match v {
        VirtualView::LastCommands(s) => pairs_upto(s, s.len() as int),
        VirtualView::Kvs(..) => Set::empty(),
    }
}

/// The state of a replica that has applied nothing.
pub open spec fn initial_view() -> MachineView {
    MachineView { kv: Map::empty(), last: Map::empty(), last_index: 0 }
}

/// The state after the entries of `s`, each a log index and a command, in order.
pub open spec fn run(m: MachineView, s: Seq<(u64, CommandView)>) -> MachineView
    decreases s.len(),
{
    if s.len() == 0 {
        m
    } else {
        let p = run(m, s.drop_last());
        step(p, s.last().0, s.last().1)
    }
}

/// Get freshness: a read committed at `index` replies with the value its key
/// had after every earlier entry, and each entry changes that value only
/// where it takes effect on that key: a put sets it, an append extends it.
pub proof fn lemma_get_freshness(m: MachineView, s: Seq<(u64, CommandView)>, index: u64, c: CommandView)
    requires
        c is Get,
        index > run(m, s).last_index,
    ensures
        reply_of(run(m, s), c) == lookup(run(m, s).kv, c.key()),
        s.len() > 0 ==> {
            let p = run(m, s.drop_last());
            let e = s.last();
            lookup(run(m, s).kv, c.key()) == if takes_effect(p, e.0, e.1) && e.1.key() == c.key() {
                match e.1 {
                    CommandView::Put { value, .. } => value,
                    _ => lookup(p.kv, c.key()) + e.1.value(),
                }
            } else {
                lookup(p.kv, c.key())
            }
        },
{
}

/// Running two sequences of entries one after the other is running their
/// concatenation.
pub proof fn lemma_run_append(m: MachineView, a: Seq<(u64, CommandView)>, b: Seq<(u64, CommandView)>)
    ensures
        run(m, a + b) == run(run(m, a), b),
    decreases b.len(),
{
    if b.len() == 0 {
        assert(a + b =~= a);
    } else {
        assert((a + b).drop_last() =~= a + b.drop_last());
        lemma_run_append(m, a, b.drop_last());
    }
}

/// The last applied index never decreases, whatever entries are applied.
pub proof fn lemma_monotonic_apply(m: MachineView, s: Seq<(u64, CommandView)>)
    ensures
        run(m, s).last_index >= m.last_index,
        forall|n: int| 0 <= n <= s.len() ==> run(m, s.take(n)).last_index <= run(m, s).last_index,
    decreases s.len(),
{
    if s.len() > 0 {
        let p = s.drop_last();
        lemma_monotonic_apply(m, p);
        assert forall|n: int| 0 <= n <= s.len() implies run(m, s.take(n)).last_index <= run(
            m,
            s,
        ).last_index by {
            if n < s.len() {
                assert(s.take(n) =~= p.take(n));
            } else {
                assert(s.take(n) =~= s);
            }
        }
    }
}

/// Once a client's mutation has been applied, no later entry carrying the same
/// client and request id takes effect, as long as that client's other entries
/// are reads or carry the same id (a client has one request outstanding).
pub proof fn lemma_retries_have_no_effect(
    m: MachineView,
    client: Seq<char>,
    id: u128,
    s: Seq<(u64, CommandView)>,
)
    requires
        is_duplicate(m.last, client, id),
        forall|n: int|
            0 <= n < s.len() ==> (#[trigger] s[n]).1.is_readonly() || s[n].1.client() != client
                || s[n].1.id() == id,
    ensures
        is_duplicate(run(m, s).last, client, id),
        forall|n: int|
            0 <= n < s.len() && (#[trigger] s[n]).1.client() == client && s[n].1.id() == id
                ==> !takes_effect(run(m, s.take(n)), s[n].0, s[n].1),
    decreases s.len(),
{
    if s.len() > 0 {
        let p = s.drop_last();
        assert forall|n: int|
            0 <= n < p.len() implies (#[trigger] p[n]).1.is_readonly() || p[n].1.client() != client
            || p[n].1.id() == id by {
            assert(p[n] == s[n]);
        }
        lemma_retries_have_no_effect(m, client, id, p);
        assert forall|n: int|
            0 <= n < s.len() && (#[trigger] s[n]).1.client() == client && s[n].1.id()
                == id implies !takes_effect(run(m, s.take(n)), s[n].0, s[n].1) by {
            if n < p.len() {
                assert(s.take(n) =~= p.take(n));
                assert(p[n] == s[n]);
            } else {
                assert(s.take(n) =~= p);
            }
        }
    }
}

/// At-most-once mutation: in any sequence of entries where a client's
/// entries other than reads all carry one request id, at most one entry with
/// that client and id takes effect.
pub proof fn lemma_at_most_once(
    m: MachineView,
    client: Seq<char>,
    id: u128,
    s: Seq<(u64, CommandView)>,
    n1: int,
    n2: int,
)
    requires
        forall|n: int|
            0 <= n < s.len() ==> (#[trigger] s[n]).1.is_readonly() || s[n].1.client() != client
                || s[n].1.id() == id,
        0 <= n1 < n2 < s.len(),
        s[n1].1.client() == client && s[n1].1.id() == id,
        s[n2].1.client() == client && s[n2].1.id() == id,
    ensures
        !(takes_effect(run(m, s.take(n1)), s[n1].0, s[n1].1) && takes_effect(
            run(m, s.take(n2)),
            s[n2].0,
            s[n2].1,
        )),
{
    if takes_effect(run(m, s.take(n1)), s[n1].0, s[n1].1) {
        let a = s.take(n1 + 1);
        let b = s.subrange(n1 + 1, s.len() as int);
        assert(a.drop_last() =~= s.take(n1));
        let q = run(m, a);
        assert(is_duplicate(q.last, client, id));
        assert forall|n: int|
            0 <= n < b.len() implies (#[trigger] b[n]).1.is_readonly() || b[n].1.client() != client
            || b[n].1.id() == id by {
            assert(b[n] == s[n + n1 + 1]);
        }
        lemma_retries_have_no_effect(q, client, id, b);
        let k = n2 - n1 - 1;
        assert(b[k] == s[n2]);
        assert(s.take(n2) =~= a + b.take(k));
        lemma_run_append(m, a, b.take(k));
    }
}

/// `c` is a mutation of `client` with request id `id`.
pub open spec fn is_retry(c: CommandView, client: Seq<char>, id: u128) -> bool {
    !c.is_readonly() && c.client() == client && c.id() == id
}

/// Some entry of `s` is a mutation of `client` with request id `id`.
pub open spec fn has_retry(s: Seq<(u64, CommandView)>, client: Seq<char>, id: u128) -> bool {
    exists|j: int| 0 <= j < s.len() && is_retry(#[trigger] s[j].1, client, id)
}

/// `s` without every mutation of `client` with request id `id` but the first.
pub open spec fn drop_repeats(s: Seq<(u64, CommandView)>, client: Seq<char>, id: u128) -> Seq<
    (u64, CommandView),
>
    decreases s.len(),
{
    if s.len() == 0 {
        s
    } else {
        let p = drop_repeats(s.drop_last(), client, id);
        if is_retry(s.last().1, client, id) && has_retry(s.drop_last(), client, id) {
            p
        } else {
            p.push(s.last())
        }
    }
}

proof fn lemma_run_index(m: MachineView, s: Seq<(u64, CommandView)>)
    ensures
        run(m, s).last_index == m.last_index || exists|j: int|
            0 <= j < s.len() && run(m, s).last_index == #[trigger] s[j].0,
    decreases s.len(),
{
    if s.len() > 0 {
        let p = s.drop_last();
        lemma_run_index(m, p);
        if run(m, p).last_index != m.last_index && run(m, s).last_index == run(m, p).last_index {
            let j = choose|j: int| 0 <= j < p.len() && run(m, p).last_index == #[trigger] p[j].0;
            assert(s[j] == p[j]);
        }
    }
}

proof fn lemma_drop_repeats_from(s: Seq<(u64, CommandView)>, client: Seq<char>, id: u128)
    ensures
        forall|j: int|
            0 <= j < drop_repeats(s, client, id).len() ==> exists|i: int|
                0 <= i < s.len() && #[trigger] drop_repeats(s, client, id)[j] == s[i],
    decreases s.len(),
{
    if s.len() > 0 {
        let p = s.drop_last();
        lemma_drop_repeats_from(p, client, id);
        let d = drop_repeats(s, client, id);
        let dp = drop_repeats(p, client, id);
        assert forall|j: int| 0 <= j < d.len() implies exists|i: int|
            0 <= i < s.len() && #[trigger] d[j] == s[i] by {
            if j < dp.len() {
                let i = choose|i: int| 0 <= i < p.len() && #[trigger] dp[j] == p[i];
                assert(d[j] == dp[j]);
                assert(s[i] == p[i]);
            } else {
                assert(d[j] == s[s.len() - 1]);
            }
        }
    }
}

proof fn lemma_index_below(m: MachineView, x: Seq<(u64, CommandView)>, bound: u64)
    requires
        m.last_index < bound,
        forall|i: int| 0 <= i < x.len() ==> #[trigger] x[i].0 < bound,
    ensures
        run(m, x).last_index < bound,
{
    lemma_run_index(m, x);
    if run(m, x).last_index != m.last_index {
        let j = choose|j: int| 0 <= j < x.len() && run(m, x).last_index == #[trigger] x[j].0;
    }
}

/// In a log as `lemma_repeats_change_nothing` asks for, the last applied
/// mutation of `client` is `id` once an entry of that request has been run,
/// up to any later entry of it.
proof fn lemma_repeat_is_duplicate(
    m: MachineView,
    client: Seq<char>,
    id: u128,
    s: Seq<(u64, CommandView)>,
    f: int,
)
    requires
        forall|i: int| 0 <= i < s.len() ==> #[trigger] s[i].0 > m.last_index,
        forall|i: int, j: int| 0 <= i < j < s.len() ==> #[trigger] s[i].0 < #[trigger] s[j].0,
        forall|i: int, j: int, k: int|
            0 <= i < j < k < s.len() && is_retry(#[trigger] s[i].1, client, id) && is_retry(
                #[trigger] s[k].1,
                client,
                id,
            ) && !(#[trigger] s[j].1).is_readonly() && s[j].1.client() == client ==> s[j].1.id()
                == id,
        0 <= f < s.len() - 1,
        is_retry(s[f].1, client, id),
        is_retry(s.last().1, client, id),
    ensures
        is_duplicate(run(m, s.drop_last()).last, client, id),
{
    let p = s.drop_last();
    let a = p.take(f + 1);
    let b = p.subrange(f + 1, p.len() as int);
    assert(p =~= a + b);
    lemma_run_append(m, a, b);
    assert(a.drop_last() =~= p.take(f));
    assert forall|i: int| 0 <= i < p.take(f).len() implies #[trigger] p.take(f)[i].0 < s[f].0 by {
        assert(p.take(f)[i] == s[i]);
    }
    lemma_index_below(m, p.take(f), s[f].0);
    assert(a.last() == s[f]);
    assert(is_duplicate(run(m, a).last, client, id));
    assert forall|k: int| 0 <= k < b.len() implies (#[trigger] b[k]).1.is_readonly() || b[k].1.client()
        != client || b[k].1.id() == id by {
        assert(b[k] == s[f + 1 + k]);
        assert(s.last() == s[s.len() - 1]);
    }
    lemma_retries_have_no_effect(run(m, a), client, id, b);
}

/// At-most-once mutation, as a whole log: where a client has one request
/// outstanding (between two entries of its request, it has no other
/// mutation) and the entries come at increasing indices above the last
/// applied one, the log leaves the same store and the same last applied
/// mutations as the log without every repeat of that request.
#[verifier::rlimit(40)]
pub proof fn lemma_repeats_change_nothing(
    m: MachineView,
    client: Seq<char>,
    id: u128,
    s: Seq<(u64, CommandView)>,
)
    requires
        forall|i: int| 0 <= i < s.len() ==> #[trigger] s[i].0 > m.last_index,
        forall|i: int, j: int| 0 <= i < j < s.len() ==> #[trigger] s[i].0 < #[trigger] s[j].0,
        forall|i: int, j: int, k: int|
            0 <= i < j < k < s.len() && is_retry(#[trigger] s[i].1, client, id) && is_retry(
                #[trigger] s[k].1,
                client,
                id,
            ) && !(#[trigger] s[j].1).is_readonly() && s[j].1.client() == client ==> s[j].1.id()
                == id,
    ensures
        run(m, s).kv == run(m, drop_repeats(s, client, id)).kv,
        run(m, s).last == run(m, drop_repeats(s, client, id)).last,
    decreases s.len(),
{
    if s.len() > 0 {
        let p = s.drop_last();
        let e = s.last();
        let d = drop_repeats(p, client, id);
        assert forall|i: int| 0 <= i < p.len() implies #[trigger] p[i] == s[i] by {}
        lemma_repeats_change_nothing(m, client, id, p);
        assert forall|i: int| 0 <= i < p.len() implies #[trigger] p[i].0 < e.0 by {
            assert(s[s.len() - 1] == e);
        }
        lemma_index_below(m, p, e.0);
        lemma_drop_repeats_from(p, client, id);
        assert forall|j: int| 0 <= j < d.len() implies #[trigger] d[j].0 < e.0 by {
            let i = choose|i: int| 0 <= i < p.len() && #[trigger] d[j] == p[i];
        }
        lemma_index_below(m, d, e.0);
        if is_retry(e.1, client, id) && has_retry(p, client, id) {
            let f = choose|f: int| 0 <= f < p.len() && is_retry(#[trigger] p[f].1, client, id);
            lemma_repeat_is_duplicate(m, client, id, s, f);
            assert(drop_repeats(s, client, id) == d);
            assert(!takes_effect(run(m, p), e.0, e.1));
            assert(run(m, s) == step(run(m, p), e.0, e.1));
        } else {
            assert(drop_repeats(s, client, id) == d.push(e));
            assert(d.push(e).drop_last() =~= d);
            assert(run(m, d.push(e)) == step(run(m, d), e.0, e.1));
            assert(run(m, s) == step(run(m, p), e.0, e.1));
        }
    }
}

/// Snapshot round trip: a state given by its pairs of client and request id,
/// its pairs of key and value and its last applied index comes back whole when
/// the two blobs that encode it are decoded and installed, in order, on a
/// replica that has applied nothing. A store at index 0 is empty, as every
/// replica's is before its first entry: a store blob at index 0 is no newer
/// than such a replica, and installs nothing.
pub proof fn lemma_snapshot_round_trip(
    last: Seq<(Seq<char>, u128)>,
    kvs: Seq<(Seq<char>, Seq<char>)>,
    last_index: u64,
)
    requires
        virtual_encodable(VirtualView::LastCommands(last)),
        virtual_encodable(VirtualView::Kvs(kvs, last_index)),
        last_index > 0 || kvs.len() == 0,
    ensures
        dec_virtual(enc_virtual(VirtualView::LastCommands(last))) matches Some(a) && dec_virtual(
            enc_virtual(VirtualView::Kvs(kvs, last_index)),
        ) matches Some(b) && install(install(initial_view(), a), b) == (MachineView {
            kv: insert_all(Map::empty(), kvs),
            last: insert_all(Map::empty(), last),
            last_index,
        }),
{
    lemma_virtual_round_trip(VirtualView::LastCommands(last));
    lemma_virtual_round_trip(VirtualView::Kvs(kvs, last_index));
    if kvs.len() == 0 {
        assert(insert_all(Map::<Seq<char>, Seq<char>>::empty(), kvs) == Map::<
            Seq<char>,
            Seq<char>,
        >::empty());
    }
}

/// The committed entries to replay after the entry at `handled`, where the
/// log has committed up to `commit`: from the next index to `commit`, both
/// included, where there is any.
pub fn catch_up_range(handled: u64, commit: u64) -> (r: Option<(u64, u64)>)
    ensures
        r is Some <==> commit > handled,
        r matches Some((lo, hi)) ==> lo == handled + 1 && hi == commit,
{
    if commit > handled {
        Some((handled + 1, commit))
    } else {
        None
    }
}

/// A snapshot is due once the log holds more than nine tenths of its
/// configured maximum size.
pub fn snapshot_due(log_size: usize, max_size: usize) -> (r: bool)
    ensures
        r == (log_size as int * 10 > max_size as int * 9),
{
    (log_size as u128) * 10 > (max_size as u128) * 9
}

/// The state machine of one replica.
pub struct KvStateMachine {
    state: Table<String>,
    last_command: Table<u128>,
    last_index: u64,
    /// Every (client, request id) whose mutation was applied, here or at the
    /// replica whose snapshot was installed here.
    applied: Ghost<Set<(Seq<char>, u128)>>,
}

impl View for KvStateMachine {
    type V = MachineView;

    closed spec fn view(&self) -> MachineView {
        MachineView { kv: self.state@, last: self.last_command@, last_index: self.last_index }
    }
}

impl KvStateMachine {
    /// The (client, request id) pairs whose mutations took effect.
    pub closed spec fn applied(&self) -> Set<(Seq<char>, u128)> {
        self.applied@
    }

    pub closed spec fn wf(&self) -> bool {
        &&& self.state.wf()
        &&& self.last_command.wf()
        &&& self.last_index == 0 ==> self.state@ == Map::<Seq<char>, Seq<char>>::empty()
        &&& forall|c: Seq<char>|
            #[trigger] self.last_command@.contains_key(c) ==> self.applied@.contains(
                (c, self.last_command@[c]),
            )
    }

    /// An empty store at log index 0.
    pub fn new() -> (r: KvStateMachine)
        ensures
            r.wf(),
            r@ == initial_view(),
            r.applied() == Set::<(Seq<char>, u128)>::empty(),
    {
        KvStateMachine {
            state: Table::new(),
            last_command: Table::new(),
            last_index: 0,
            applied: Ghost(Set::empty()),
        }
    }

    /// The highest log index whose effect is in the state.
    pub fn last_applied_index(&self) -> (r: u64)
        ensures
            r == self@.last_index,
    {
        self.last_index
    }

    /// Whether `id` is the last mutation applied for `client`.
    pub fn has_done(&self, client: &String, id: u128) -> (r: bool)
        requires
            self.wf(),
        ensures
            r == is_duplicate(self@.last, client@, id),
            r ==> self.applied().contains((client@, id)),
    {
        match self.last_command.get(client) {
            Some(i) => *i == id,
            None => false,
        }
    }

    /// The value stored under `key`, empty where there is none.
    pub fn get_value(&self, key: &String) -> (r: String)
        requires
            self.wf(),
        ensures
            r@ == lookup(self@.kv, key@),
    {
        match self.state.get(key) {
            Some(v) => v.clone(),
            None => String::new(),
        }
    }

    /// Applies a mutation, unless it is its client's last applied one; the
    /// entry that carries it has been counted as applied already.
    fn handle_command(&mut self, cmd: KvCommand)
        requires
            old(self).wf(),
            old(self)@.last_index > 0,
        ensures
            final(self).wf(),
            final(self)@.last_index == old(self)@.last_index,
            cmd@.is_readonly() || is_duplicate(old(self)@.last, cmd@.client(), cmd@.id()) ==> {
                &&& final(self)@ == old(self)@
                &&& final(self).applied() == old(self).applied()
            },
            !(cmd@.is_readonly() || is_duplicate(old(self)@.last, cmd@.client(), cmd@.id())) ==> {
                &&& final(self)@.kv == apply_kv(old(self)@.kv, cmd@)
                &&& final(self)@.last == old(self)@.last.insert(cmd@.client(), cmd@.id())
                &&& final(self).applied() == old(self).applied().insert((cmd@.client(), cmd@.id()))
            },
    {
        if cmd.is_readonly() {
            return ;
        }
        let id = cmd.get_id();
        if self.has_done(cmd.get_client(), id) {
            return ;
        }
        let client = cmd.get_client().clone();
        let ghost cv = client@;
        self.last_command.insert(client, id);
        self.applied = Ghost(self.applied@.insert((cv, id)));
        match cmd {
            KvCommand::Put { key, value, .. } => {
                self.state.insert(key, value);
            },
            KvCommand::Append { key, value, .. } => {
                let mut cur = match self.state.get(&key) {
                    Some(v) => v.clone(),
                    None => String::new(),
                };
                cur.append(value.as_str());
                self.state.insert(key, cur);
            },
            KvCommand::Get { .. } => {},
        }
    }

    /// The response for the request waiting on `index`, built before `cmd`
    /// takes effect, so that a read sees the state every earlier entry left.
    pub fn notify_at(&self, index: u64, cmd: &KvCommand) -> (r: CommandResponse)
        requires
            self.wf(),
        ensures
            r.command_id == cmd@.id(),
            r.command_idx == index,
            r.reply@ == reply_of(self@, cmd@),
    {
        match cmd {
            KvCommand::Get { id, key, .. } => CommandResponse::new(*id, self.get_value(key), index),
            _ => CommandResponse::new(cmd.get_id(), String::new(), index),
        }
    }

    /// Handles the committed entry at `index`. An entry at or below the last
    /// applied index was handled already and is dropped; otherwise the
    /// response for its waiter is built, the command takes effect, and the
    /// last applied index becomes `index`.
    pub fn handle_message(&mut self, index: u64, cmd: KvCommand) -> (r: Option<CommandResponse>)
        requires
            old(self).wf(),
        ensures
            final(self).wf(),
            final(self)@ == step(old(self)@, index, cmd@),
            final(self)@.last_index >= old(self)@.last_index,
            r is None <==> index <= old(self)@.last_index,
            r matches Some(resp) ==> {
                &&& resp.command_id == cmd@.id()
                &&& resp.command_idx == index
                &&& resp.reply@ == reply_of(old(self)@, cmd@)
            },
            final(self).applied() == if takes_effect(old(self)@, index, cmd@) {
                old(self).applied().insert((cmd@.client(), cmd@.id()))
            } else {
                old(self).applied()
            },
    {
        if index <= self.last_index {
            return None;
        }
        let resp = self.notify_at(index, &cmd);
        self.last_index = index;
        self.handle_command(cmd);
        Some(resp)
    }

    /// The snapshot of the current state: the blob of last applied mutations,
    /// then the blob of the store with the last applied index. Each blob
    /// holds its table's pairs sorted by key, so the bytes depend on the state
    /// alone. Installing the two in that order on a replica that has applied
    /// nothing restores this state.
    pub fn make_snapshot(&self) -> (r: SnapshotFile)
        requires
            self.wf(),
        ensures
            r.commands@.len() == 2,
            r.commands@[0]@ == enc_virtual(VirtualView::LastCommands(sorted_pairs(self@.last))),
            r.commands@[1]@ == enc_virtual(
                VirtualView::Kvs(sorted_pairs(self@.kv), self@.last_index),
            ),
            dec_virtual(r.commands@[0]@) == Some(
                VirtualView::LastCommands(sorted_pairs(self@.last)),
            ),
            dec_virtual(r.commands@[1]@) == Some(
                VirtualView::Kvs(sorted_pairs(self@.kv), self@.last_index),
            ),
            install(
                install(initial_view(), VirtualView::LastCommands(sorted_pairs(self@.last))),
                VirtualView::Kvs(sorted_pairs(self@.kv), self@.last_index),
            ) == self@,
    {
        proof {
            self.state.lemma_pairs_determined();
            self.last_command.lemma_pairs_determined();
        }
        let lc = encode_last_commands(&self.last_command);
        let kv = encode_kvs(&self.state, self.last_index);
        proof {
            lemma_virtual_round_trip(VirtualView::LastCommands(self.last_command.pairs()));
            lemma_virtual_round_trip(VirtualView::Kvs(self.state.pairs(), self@.last_index));
        }
        let mut commands: Vec<Vec<u8>> = Vec::new();
        commands.push(lc);
        commands.push(kv);
        SnapshotFile { commands }
    }

    /// Installs a snapshot blob: merges its pairs into the last applied
    /// mutations, or, where the blob's index is above the last applied one,
    /// into the store, whose last applied index then becomes the blob's. The
    /// blob must be one that this library encoded.
    pub fn handle_virtual_command(&mut self, cmd: &[u8])
        requires
            old(self).wf(),
            dec_virtual(cmd@) is Some,
        ensures
            final(self).wf(),
            final(self)@ == install(old(self)@, dec_virtual(cmd@)->Some_0),
            final(self)@.last_index >= old(self)@.last_index,
            final(self).applied() == old(self).applied().union(
                installed(dec_virtual(cmd@)->Some_0),
            ),
    {
        match decode_virtual_command(cmd) {
            None => {
                proof {
                    assert(false);
                }
            },
            Some(VirtualCommand::InstallLastCommand(v)) => {
                let ghost s = v@.map_values(|e: (String, u128)| (e.0@, e.1));
                let mut i: usize = 0;
                assert(s.take(0) =~= Seq::<(Seq<char>, u128)>::empty());
                assert(pairs_upto(s, 0) =~= Set::<(Seq<char>, u128)>::empty());
                assert(old(self).applied().union(pairs_upto(s, 0)) =~= old(self).applied());
                while i < v.len()
                    invariant
                        i <= v@.len(),
                        s == v@.map_values(|e: (String, u128)| (e.0@, e.1)),
                        self.wf(),
                        self@.kv == old(self)@.kv,
                        self@.last_index == old(self)@.last_index,
                        self@.last == insert_all(old(self)@.last, s.take(i as int)),
                        self.applied() == old(self).applied().union(pairs_upto(s, i as int)),
                    decreases v@.len() - i,
                {
                    let c = v[i].0.clone();
                    let id = v[i].1;
                    let ghost cv = c@;
                    self.last_command.insert(c, id);
                    self.applied = Ghost(self.applied@.insert((cv, id)));
                    assert(s[i as int] == (cv, id));
                    assert(s.take(i + 1).drop_last() =~= s.take(i as int));
                    assert(pairs_upto(s, i + 1) =~= pairs_upto(s, i as int).insert((cv, id)));
                    assert(self.applied() =~= old(self).applied().union(pairs_upto(s, i + 1)));
                    i = i + 1;
                }
                assert(s.take(i as int) =~= s);
                assert(self@ =~= install(old(self)@, VirtualView::LastCommands(s)));
            },
            Some(VirtualCommand::InstallKvs(v, idx)) => {
                let ghost s = v@.map_values(|e: (String, String)| (e.0@, e.1@));
                assert(old(self).applied().union(Set::empty()) =~= old(self).applied());
                if idx <= self.last_index {
                    return ;
                }
                self.last_index = idx;
                let mut i: usize = 0;
                assert(s.take(0) =~= Seq::<(Seq<char>, Seq<char>)>::empty());
                while i < v.len()
                    invariant
                        i <= v@.len(),
                        s == v@.map_values(|e: (String, String)| (e.0@, e.1@)),
                        self.wf(),
                        self@.last == old(self)@.last,
                        self@.last_index == idx,
                        idx > old(self)@.last_index,
                        self@.kv == insert_all(old(self)@.kv, s.take(i as int)),
                        self.applied() == old(self).applied(),
                    decreases v@.len() - i,
                {
                    let k = v[i].0.clone();
                    let val = v[i].1.clone();
                    self.state.insert(k, val);
                    assert(s.take(i + 1).drop_last() =~= s.take(i as int));
                    i = i + 1;
                }
                assert(s.take(i as int) =~= s);
                assert(self@ =~= install(old(self)@, VirtualView::Kvs(s, idx)));
            },
        }
    }
}

} // verus!

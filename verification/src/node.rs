//! The node state machine. A node is a pure transition system: every client
//! command, peer message or timer tick maps the current state to a new state,
//! a reply, and a list of send actions. The I/O shell performs the actions;
//! all protocol rules live here and are stated as spec-level step functions.

use vstd::prelude::*;
use crate::bytestr::{bytes_eq, bytes_lt, clone_bytes, lex_lt};
use crate::message::{ClientCommand, Message, NetReply, CmdModel, MsgModel, NetReplyModel};
use crate::store::Store;
use crate::PRIMARY_TIMEOUT_MS;

verus! {

/// The role a node currently plays.
#[derive(Clone, Copy, Debug, PartialEq, Eq, Structural)]
pub enum Role {
    /// No replication configured; network messages are rejected.
    Single,
    /// Accepts writes, replicates them to the membership set.
    Primary,
    /// Mirrors the primary, forwards writes to it.
    Backup,
}

/// An outbound send the I/O shell must perform.
#[derive(Clone, Debug, PartialEq, Eq)]
pub enum Action {
    /// Fire-and-forget: `Replicate` broadcasts and `Heartbeat`s.
    SendSimple { dest: Vec<u8>, msg: Message },
    /// Retried until a reply arrives: `Subscribe` and `Forward`.
    SendReliable { dest: Vec<u8>, msg: Message },
}

/// Model of an [`Action`].
#[verifier::ext_equal]
pub enum ActionModel {
    SendSimple { dest: Seq<u8>, msg: MsgModel },
    SendReliable { dest: Seq<u8>, msg: MsgModel },
}

impl View for Action {
    type V = ActionModel;

    open spec fn view(&self) -> ActionModel {
        match self {
            Action::SendSimple { dest, msg } => ActionModel::SendSimple {
                dest: dest@,
                msg: msg@,
            },
            Action::SendReliable { dest, msg } => ActionModel::SendReliable {
                dest: dest@,
                msg: msg@,
            },
        }
    }
}

/// How a client command is answered.
#[derive(Clone, Debug, PartialEq, Eq)]
pub enum ClientOutcome {
    /// Reply to the client at once.
    Reply { value: Option<Vec<u8>> },
    /// Relay the command to the primary and hand its reply back.
    Forward { dest: Vec<u8>, cmd: ClientCommand },
}

/// Model of a [`ClientOutcome`].
#[verifier::ext_equal]
pub enum OutcomeModel {
    Reply { value: Option<Seq<u8>> },
    Forward { dest: Seq<u8>, cmd: CmdModel },
}

impl View for ClientOutcome {
    type V = OutcomeModel;

    open spec fn view(&self) -> OutcomeModel {
        match self {
            ClientOutcome::Reply { value } => OutcomeModel::Reply {
                value: match value {
                    Some(v) => Some(v@),
                    None => None,
                },
            },
            ClientOutcome::Forward { dest, cmd } => OutcomeModel::Forward {
                dest: dest@,
                cmd: cmd@,
            },
        }
    }
}

/// The mathematical state of a node.
#[verifier::ext_equal]
pub struct NodeModel {
    pub role: Role,
    pub kv: Map<Seq<u8>, Seq<u8>>,
    pub self_addr: Seq<u8>,
    pub primary_addr: Option<Seq<u8>>,
    pub backups: Seq<Seq<u8>>,
    pub peers: Seq<Seq<u8>>,
    pub last_heartbeat_ms: u64,
}

/// A node: role, durable store, membership and failure-detector state.
pub struct Node {
    pub role: Role,
    pub store: Store,
    pub self_addr: Vec<u8>,
    pub primary_addr: Option<Vec<u8>>,
    pub backups: Vec<Vec<u8>>,
    pub peers: Vec<Vec<u8>>,
    pub last_heartbeat_ms: u64,
}

/// The byte strings of a list of addresses.
pub open spec fn addrs_of(v: Seq<Vec<u8>>) -> Seq<Seq<u8>> {
    v.map_values(|a: Vec<u8>| a@)
}

impl View for Node {
    type V = NodeModel;

    open spec fn view(&self) -> NodeModel {
        NodeModel {
            role: self.role,
            kv: self.store@,
            self_addr: self.self_addr@,
            primary_addr: match self.primary_addr {
                Some(p) => Some(p@),
                None => None,
            },
            backups: addrs_of(self.backups@),
            peers: addrs_of(self.peers@),
            last_heartbeat_ms: self.last_heartbeat_ms,
        }
    }
}

/// Pairwise-distinct addresses.
pub open spec fn no_dup(s: Seq<Seq<u8>>) -> bool {
    forall|i: int, j: int| 0 <= i < j < s.len() ==> s[i] != s[j]
}

/// The state invariant: a backup always knows a primary, a primary is its own
/// primary, a single node has no membership, and membership lists hold no
/// duplicates.
pub open spec fn node_wf(s: NodeModel) -> bool {
    &&& (s.role is Backup ==> s.primary_addr is Some)
    &&& (s.role is Primary ==> s.primary_addr == Some(s.self_addr))
    &&& (s.role is Single ==> s.backups.len() == 0 && s.peers.len() == 0 && s.primary_addr
        is None)
    &&& (s.role is Backup ==> s.backups.len() == 0)
    &&& no_dup(s.backups)
    &&& no_dup(s.peers)
}

/// What `Get` answers: the stored value, if any.
pub open spec fn kv_get(kv: Map<Seq<u8>, Seq<u8>>, key: Seq<u8>) -> Option<Seq<u8>> {
    if kv.contains_key(key) {
        Some(kv[key])
    } else {
        None
    }
}

/// Adds an address unless it is already known.
pub open spec fn seq_insert(s: Seq<Seq<u8>>, a: Seq<u8>) -> Seq<Seq<u8>> {
    if s.contains(a) {
        s
    } else {
        s.push(a)
    }
}

/// One `Replicate` to every member of `backups`, in membership order.
pub open spec fn replicate_actions(backups: Seq<Seq<u8>>, key: Seq<u8>, value: Seq<u8>) -> Seq<
    ActionModel,
>
    decreases backups.len(),
{
    if backups.len() == 0 {
        Seq::<ActionModel>::empty()
    } else {
        replicate_actions(backups.drop_last(), key, value).push(
            ActionModel::SendSimple {
                dest: backups.last(),
                msg: MsgModel::Replicate { key, value },
            },
        )
    }
}

/// Replication goes to each member in membership order.
pub proof fn lemma_replicate_actions_index(backups: Seq<Seq<u8>>, key: Seq<u8>, value: Seq<u8>, i: int)
    requires
        0 <= i < backups.len(),
    ensures
        replicate_actions(backups, key, value).len() == backups.len(),
        replicate_actions(backups, key, value)[i] == (ActionModel::SendSimple {
            dest: backups[i],
            msg: MsgModel::Replicate { key, value },
        }),
    decreases backups.len(),
{
    lemma_replicate_actions_len(backups, key, value);
    if i < backups.len() - 1 {
        lemma_replicate_actions_index(backups.drop_last(), key, value, i);
    }
}

/// Replication sends one frame per member.
pub proof fn lemma_replicate_actions_len(backups: Seq<Seq<u8>>, key: Seq<u8>, value: Seq<u8>)
    ensures
        replicate_actions(backups, key, value).len() == backups.len(),
    decreases backups.len(),
{
    if backups.len() > 0 {
        lemma_replicate_actions_len(backups.drop_last(), key, value);
    }
}

/// One `Heartbeat` carrying `self_addr` to every address in `dests`.
pub open spec fn heartbeat_actions(dests: Seq<Seq<u8>>, self_addr: Seq<u8>) -> Seq<ActionModel>
    decreases dests.len(),
{
    if dests.len() == 0 {
        Seq::<ActionModel>::empty()
    } else {
        heartbeat_actions(dests.drop_last(), self_addr).push(
            ActionModel::SendSimple {
                dest: dests.last(),
                msg: MsgModel::Heartbeat { primary_addr: self_addr },
            },
        )
    }
}

/// Heartbeats go to each known address in order.
pub proof fn lemma_heartbeat_actions_index(dests: Seq<Seq<u8>>, self_addr: Seq<u8>, i: int)
    requires
        0 <= i < dests.len(),
    ensures
        heartbeat_actions(dests, self_addr).len() == dests.len(),
        heartbeat_actions(dests, self_addr)[i] == (ActionModel::SendSimple {
            dest: dests[i],
            msg: MsgModel::Heartbeat { primary_addr: self_addr },
        }),
    decreases dests.len(),
{
    lemma_heartbeat_actions_len(dests, self_addr);
    if i < dests.len() - 1 {
        lemma_heartbeat_actions_index(dests.drop_last(), self_addr, i);
    }
}

/// One heartbeat per known address.
pub proof fn lemma_heartbeat_actions_len(dests: Seq<Seq<u8>>, self_addr: Seq<u8>)
    ensures
        heartbeat_actions(dests, self_addr).len() == dests.len(),
    decreases dests.len(),
{
    if dests.len() > 0 {
        lemma_heartbeat_actions_len(dests.drop_last(), self_addr);
    }
}

/// The step a client command takes: new state, client-visible outcome, sends.
pub open spec fn client_step(s: NodeModel, c: CmdModel) -> (NodeModel, OutcomeModel, Seq<
    ActionModel,
>) {
    match c {
        CmdModel::Get { key } => (
            s,
            OutcomeModel::Reply { value: kv_get(s.kv, key) },
            Seq::<ActionModel>::empty(),
        ),
        CmdModel::Put { key, value } => if s.role is Backup {
            (
                s,
                OutcomeModel::Forward { dest: s.primary_addr->Some_0, cmd: c },
                Seq::<ActionModel>::empty(),
            )
        } else {
            (
                NodeModel { kv: s.kv.insert(key, value), ..s },
                OutcomeModel::Reply { value: Some(value) },
                if s.role is Primary {
                    replicate_actions(s.backups, key, value)
                } else {
                    Seq::<ActionModel>::empty()
                },
            )
        },
    }
}

/// The client-visible value of an outcome that replies at once.
pub open spec fn outcome_value(o: OutcomeModel) -> Option<Seq<u8>> {
    match o {
        OutcomeModel::Reply { value } => value,
        OutcomeModel::Forward { dest, cmd } => None,
    }
}

/// The step a peer message takes: new state, network reply, sends.
pub open spec fn network_step(s: NodeModel, m: MsgModel, now: u64) -> (NodeModel, NetReplyModel, Seq<
    ActionModel,
>) {
    if s.role is Single {
        (s, NetReplyModel::Empty, Seq::<ActionModel>::empty())
    } else {
        match m {
            MsgModel::Subscribe { backup_addr } => if s.role is Primary {
                (
                    NodeModel {
                        backups: seq_insert(s.backups, backup_addr),
                        peers: seq_insert(s.peers, backup_addr),
                        ..s
                    },
                    NetReplyModel::Empty,
                    Seq::<ActionModel>::empty(),
                )
            } else {
                (s, NetReplyModel::Empty, Seq::<ActionModel>::empty())
            },
            MsgModel::Replicate { key, value } => if s.role is Backup {
                (
                    NodeModel { kv: s.kv.insert(key, value), ..s },
                    NetReplyModel::Empty,
                    Seq::<ActionModel>::empty(),
                )
            } else {
                (s, NetReplyModel::Empty, Seq::<ActionModel>::empty())
            },
            MsgModel::Forward { cmd } => if s.role is Primary {
                let stepped = client_step(s, cmd);
                (
                    stepped.0,
                    NetReplyModel::Value { value: outcome_value(stepped.1) },
                    stepped.2,
                )
            } else {
                (s, NetReplyModel::Empty, Seq::<ActionModel>::empty())
            },
            MsgModel::Heartbeat { primary_addr } => if s.role is Backup {
                (
                    NodeModel {
                        primary_addr: Some(primary_addr),
                        peers: seq_insert(s.peers, primary_addr),
                        last_heartbeat_ms: now,
                        ..s
                    },
                    NetReplyModel::Empty,
                    if s.primary_addr == Some(primary_addr) {
                        Seq::<ActionModel>::empty()
                    } else {
                        seq![
                            ActionModel::SendReliable {
                                dest: primary_addr,
                                msg: MsgModel::Subscribe { backup_addr: s.self_addr },
                            },
                        ]
                    },
                )
            } else {
                (s, NetReplyModel::Empty, Seq::<ActionModel>::empty())
            },
            MsgModel::PrimaryAddress => (
                s,
                NetReplyModel::Address { addr: s.primary_addr->Some_0 },
                Seq::<ActionModel>::empty(),
            ),
        }
    }
}

/// How many known peers, the current primary aside, order strictly below
/// `me`: the node's position in the sorted list of known peer addresses.
pub open spec fn count_below(peers: Seq<Seq<u8>>, primary: Option<Seq<u8>>, me: Seq<u8>) -> int
    decreases peers.len(),
{
    if peers.len() == 0 {
        0
    } else {
        count_below(peers.drop_last(), primary, me) + if primary != Some(peers.last()) && lex_lt(
            peers.last(),
            me,
        ) {
            1int
        } else {
            0int
        }
    }
}

/// A backup's promotion rank.
pub open spec fn rank(s: NodeModel) -> int {
    count_below(s.peers, s.primary_addr, s.self_addr)
}

/// Silence longer than this promotes a backup: the primary timeout plus one
/// more timeout per lower-addressed peer.
pub open spec fn promote_deadline(s: NodeModel) -> int {
    PRIMARY_TIMEOUT_MS as int * (1 + rank(s))
}

/// The step a failure-detector tick takes: new state and sends.
pub open spec fn tick_step(s: NodeModel, now: u64) -> (NodeModel, Seq<ActionModel>) {
    if s.role is Primary {
        (s, heartbeat_actions(s.backups, s.self_addr))
    } else if s.role is Backup {
        if now > s.last_heartbeat_ms + promote_deadline(s) {
            (
                NodeModel {
                    role: Role::Primary,
                    primary_addr: Some(s.self_addr),
                    backups: Seq::<Seq<u8>>::empty(),
                    ..s
                },
                heartbeat_actions(s.peers, s.self_addr),
            )
        } else {
            (s, Seq::<ActionModel>::empty())
        }
    } else {
        (s, Seq::<ActionModel>::empty())
    }
}

/// The action a starting node performs: a backup subscribes to its primary.
pub open spec fn startup_step(s: NodeModel) -> Seq<ActionModel> {
    if s.role is Backup {
        seq![
            ActionModel::SendReliable {
                dest: s.primary_addr->Some_0,
                msg: MsgModel::Subscribe { backup_addr: s.self_addr },
            },
        ]
    } else {
        Seq::<ActionModel>::empty()
    }
}

} // verus!

verus! {

/// The models of a list of actions.
pub open spec fn actions_of(v: Seq<Action>) -> Seq<ActionModel>
    decreases v.len(),
{
    if v.len() == 0 {
        Seq::<ActionModel>::empty()
    } else {
        actions_of(v.drop_last()).push(v.last()@)
    }
}

/// Adding an unknown address keeps addresses pairwise distinct.
pub proof fn lemma_seq_insert_no_dup(s: Seq<Seq<u8>>, a: Seq<u8>)
    requires
        no_dup(s),
    ensures
        no_dup(seq_insert(s, a)),
{
    if !s.contains(a) {
        let t = s.push(a);
        assert forall|i: int, j: int| 0 <= i < j < t.len() implies t[i] != t[j] by {
            if j < s.len() {
                assert(s[i] != s[j]);
            } else {
                assert(t[j] == a);
                assert(t[i] == s[i]);
                assert(!s.contains(a));
                assert(s[i] != a);
            }
        }
    }
}

/// Whether `a` is one of the addresses in `v`.
fn contains_addr(v: &Vec<Vec<u8>>, a: &Vec<u8>) -> (r: bool)
    ensures
        r == addrs_of(v@).contains(a@),
{
    let n: usize = v.len();
    let mut i: usize = 0;
    while i < n
        invariant
            n == v@.len(),
            i <= n,
            forall|j: int| 0 <= j < i ==> v@[j]@ != a@,
        decreases n - i,
    {
        if bytes_eq(&v[i], a) {
            proof {
                assert(addrs_of(v@)[i as int] == a@);
            }
            return true;
        }
        i = i + 1;
    }
    proof {
        assert forall|j: int| 0 <= j < addrs_of(v@).len() implies addrs_of(v@)[j] != a@ by {
            assert(addrs_of(v@)[j] == v@[j]@);
        }
    }
    false
}

/// Appends `a` unless it is already present: the executable [`seq_insert`].
fn insert_addr(v: &mut Vec<Vec<u8>>, a: Vec<u8>)
    ensures
        addrs_of(final(v)@) == seq_insert(addrs_of(old(v)@), a@),
{
    if !contains_addr(v, &a) {
        v.push(a);
        proof {
            assert(addrs_of(v@) =~= addrs_of(old(v)@).push(a@));
        }
    }
}

/// One `Heartbeat` to every address: the executable [`heartbeat_actions`].
fn heartbeat_vec(dests: &Vec<Vec<u8>>, self_addr: &Vec<u8>) -> (r: Vec<Action>)
    ensures
        actions_of(r@) == heartbeat_actions(addrs_of(dests@), self_addr@),
{
    let mut r: Vec<Action> = Vec::new();
    let n: usize = dests.len();
    let mut i: usize = 0;
    proof {
        assert(actions_of(r@) =~~= heartbeat_actions(addrs_of(dests@).subrange(0, 0), self_addr@));
    }
    while i < n
        invariant
            n == dests@.len(),
            i <= n,
            actions_of(r@) == heartbeat_actions(
                addrs_of(dests@).subrange(0, i as int),
                self_addr@,
            ),
        decreases n - i,
    {
        let ghost prev = r@;
        r.push(
            Action::SendSimple {
                dest: clone_bytes(&dests[i]),
                msg: Message::Heartbeat { primary_addr: clone_bytes(self_addr) },
            },
        );
        proof {
            let m = addrs_of(dests@);
            assert(r@.drop_last() =~= prev);
            assert(m.subrange(0, i + 1).drop_last() =~= m.subrange(0, i as int));
            assert(m.subrange(0, i + 1).last() == m[i as int]);
            assert(r@.last()@ == (ActionModel::SendSimple {
                dest: m[i as int],
                msg: MsgModel::Heartbeat { primary_addr: self_addr@ },
            }));
        }
        i = i + 1;
    }
    proof {
        assert(addrs_of(dests@).subrange(0, n as int) =~= addrs_of(dests@));
    }
    r
}

impl Node {
    /// Store keys are distinct and the state invariant holds.
    pub open spec fn wf(&self) -> bool {
        self.store.wf() && node_wf(self@)
    }

    /// A node with no replication: rejects peer messages, serves clients.
    pub fn single() -> (n: Node)
        ensures
            n.wf(),
            n@.role is Single,
            n@.kv == Map::<Seq<u8>, Seq<u8>>::empty(),
    {
        let n = Node {
            role: Role::Single,
            store: Store::new(),
            self_addr: Vec::new(),
            primary_addr: None,
            backups: Vec::new(),
            peers: Vec::new(),
            last_heartbeat_ms: 0,
        };
        proof {
            assert(addrs_of(n.backups@) =~= Seq::<Seq<u8>>::empty());
            assert(addrs_of(n.peers@) =~= Seq::<Seq<u8>>::empty());
        }
        n
    }

    /// A starting primary at `self_addr`, with an empty membership set.
    pub fn primary(self_addr: Vec<u8>) -> (n: Node)
        ensures
            n.wf(),
            n@.role is Primary,
            n@.kv == Map::<Seq<u8>, Seq<u8>>::empty(),
            n@.self_addr == self_addr@,
            n@.primary_addr == Some(self_addr@),
            n@.backups == Seq::<Seq<u8>>::empty(),
            n@.peers == Seq::<Seq<u8>>::empty(),
    {
        let addr_copy = clone_bytes(&self_addr);
        let n = Node {
            role: Role::Primary,
            store: Store::new(),
            self_addr,
            primary_addr: Some(addr_copy),
            backups: Vec::new(),
            peers: Vec::new(),
            last_heartbeat_ms: 0,
        };
        proof {
            assert(addrs_of(n.backups@) =~= Seq::<Seq<u8>>::empty());
            assert(addrs_of(n.peers@) =~= Seq::<Seq<u8>>::empty());
        }
        n
    }

    /// A starting backup at `self_addr`, pointed at `primary_addr`; the
    /// failure detector starts counting from `now_ms`.
    pub fn backup(self_addr: Vec<u8>, primary_addr: Vec<u8>, now_ms: u64) -> (n: Node)
        ensures
            n.wf(),
            n@.role is Backup,
            n@.kv == Map::<Seq<u8>, Seq<u8>>::empty(),
            n@.self_addr == self_addr@,
            n@.primary_addr == Some(primary_addr@),
            n@.backups == Seq::<Seq<u8>>::empty(),
            n@.peers == seq![primary_addr@],
            n@.last_heartbeat_ms == now_ms,
    {
        let mut peers: Vec<Vec<u8>> = Vec::new();
        peers.push(clone_bytes(&primary_addr));
        let n = Node {
            role: Role::Backup,
            store: Store::new(),
            self_addr,
            primary_addr: Some(primary_addr),
            backups: Vec::new(),
            peers,
            last_heartbeat_ms: now_ms,
        };
        proof {
            assert(addrs_of(n.backups@) =~= Seq::<Seq<u8>>::empty());
            assert(addrs_of(n.peers@) =~= seq![n.peers@[0]@]);
        }
        n
    }

    /// The sends a just-started node owes: a backup subscribes to its primary.
    pub fn startup_actions(&self) -> (r: Vec<Action>)
        requires
            self.wf(),
        ensures
            actions_of(r@) == startup_step(self@),
    {
        let mut r: Vec<Action> = Vec::new();
        match self.role {
            Role::Backup => {
                let dest = match &self.primary_addr {
                    Some(p) => clone_bytes(p),
                    None => Vec::new(),
                };
                r.push(
                    Action::SendReliable {
                        dest,
                        msg: Message::Subscribe { backup_addr: clone_bytes(&self.self_addr) },
                    },
                );
                proof {
                    assert(r@.len() == 1);
                    assert(actions_of(r@) == actions_of(r@.drop_last()).push(r@.last()@));
                    assert(r@.drop_last() =~= Seq::<Action>::empty());
                    assert(actions_of(Seq::<Action>::empty()) == Seq::<ActionModel>::empty());
                    assert(r@.last()@ == (ActionModel::SendReliable {
                        dest: self@.primary_addr->Some_0,
                        msg: MsgModel::Subscribe { backup_addr: self@.self_addr },
                    }));
                    assert(actions_of(r@) =~~= startup_step(self@));
                }
            },
            _ => {
                proof {
                    assert(actions_of(r@) =~~= startup_step(self@));
                }
            },
        }
        r
    }

    /// Handles one command from the client port.
    pub fn handle_client(&mut self, cmd: ClientCommand) -> (r: (ClientOutcome, Vec<Action>))
        requires
            old(self).wf(),
        ensures
            final(self).wf(),
            final(self)@ == client_step(old(self)@, cmd@).0,
            r.0@ == client_step(old(self)@, cmd@).1,
            actions_of(r.1@) == client_step(old(self)@, cmd@).2,
    {
        match cmd {
            ClientCommand::Get { key } => {
                let value = self.store.get(&key);
                let r = (ClientOutcome::Reply { value }, Vec::<Action>::new());
                proof {
                    assert(actions_of(r.1@) =~~= Seq::<ActionModel>::empty());
                }
                r
            },
            ClientCommand::Put { key, value } => {
                match self.role {
                    Role::Backup => {
                        let dest = match &self.primary_addr {
                            Some(p) => clone_bytes(p),
                            None => Vec::new(),
                        };
                        let r = (
                            ClientOutcome::Forward {
                                dest,
                                cmd: ClientCommand::Put { key, value },
                            },
                            Vec::<Action>::new(),
                        );
                        proof {
                            assert(actions_of(r.1@) =~~= Seq::<ActionModel>::empty());
                        }
                        r
                    },
                    Role::Primary => {
                        let mut actions: Vec<Action> = Vec::new();
                        let n: usize = self.backups.len();
                        let mut i: usize = 0;
                        proof {
                            assert(actions_of(actions@) =~~= replicate_actions(
                                addrs_of(self.backups@).subrange(0, 0),
                                key@,
                                value@,
                            ));
                        }
                        while i < n
                            invariant
                                *self == *old(self),
                                n == self.backups@.len(),
                                i <= n,
                                actions_of(actions@) == replicate_actions(
                                    addrs_of(self.backups@).subrange(0, i as int),
                                    key@,
                                    value@,
                                ),
                            decreases n - i,
                        {
                            let ghost prev = actions@;
                            actions.push(
                                Action::SendSimple {
                                    dest: clone_bytes(&self.backups[i]),
                                    msg: Message::Replicate {
                                        key: clone_bytes(&key),
                                        value: clone_bytes(&value),
                                    },
                                },
                            );
                            proof {
                                let m = addrs_of(self.backups@);
                                assert(actions@.drop_last() =~= prev);
                                assert(m.subrange(0, i + 1).drop_last() =~= m.subrange(
                                    0,
                                    i as int,
                                ));
                                assert(m.subrange(0, i + 1).last() == m[i as int]);
                                assert(actions@.last()@ == (ActionModel::SendSimple {
                                    dest: m[i as int],
                                    msg: MsgModel::Replicate { key: key@, value: value@ },
                                }));
                            }
                            i = i + 1;
                        }
                        proof {
                            assert(addrs_of(self.backups@).subrange(0, n as int) =~= addrs_of(
                                self.backups@,
                            ));
                        }
                        let stored = self.store.set(key, value);
                        (ClientOutcome::Reply { value: Some(stored) }, actions)
                    },
                    Role::Single => {
                        let stored = self.store.set(key, value);
                        let r = (ClientOutcome::Reply { value: Some(stored) }, Vec::<Action>::new());
                        proof {
                            assert(actions_of(r.1@) =~~= Seq::<ActionModel>::empty());
                        }
                        r
                    },
                }
            },
        }
    }
}

} // verus!

verus! {

impl Node {
    /// Handles one message from the network port.
    pub fn handle_network(&mut self, msg: Message, now_ms: u64) -> (r: (NetReply, Vec<Action>))
        requires
            old(self).wf(),
        ensures
            final(self).wf(),
            final(self)@ == network_step(old(self)@, msg@, now_ms).0,
            r.0@ == network_step(old(self)@, msg@, now_ms).1,
            actions_of(r.1@) == network_step(old(self)@, msg@, now_ms).2,
    {
        if self.role == Role::Single {
            let r = (NetReply::Empty, Vec::<Action>::new());
            proof {
                assert(actions_of(r.1@) == Seq::<ActionModel>::empty());
            }
            return r;
        }
        match msg {
            Message::Subscribe { backup_addr } => {
                if self.role == Role::Primary {
                    proof {
                        lemma_seq_insert_no_dup(self@.backups, backup_addr@);
                        lemma_seq_insert_no_dup(self@.peers, backup_addr@);
                    }
                    insert_addr(&mut self.backups, clone_bytes(&backup_addr));
                    insert_addr(&mut self.peers, backup_addr);
                }
                let r = (NetReply::Empty, Vec::<Action>::new());
                proof {
                    assert(actions_of(r.1@) == Seq::<ActionModel>::empty());
                }
                r
            },
            Message::Replicate { key, value } => {
                if self.role == Role::Backup {
                    let _stored = self.store.set(key, value);
                }
                let r = (NetReply::Empty, Vec::<Action>::new());
                proof {
                    assert(actions_of(r.1@) == Seq::<ActionModel>::empty());
                }
                r
            },
            Message::Forward { cmd } => {
                if self.role == Role::Primary {
                    let (outcome, actions) = self.handle_client(cmd);
                    let value = match outcome {
                        ClientOutcome::Reply { value } => value,
                        ClientOutcome::Forward { dest, cmd } => None,
                    };
                    (NetReply::Value { value }, actions)
                } else {
                    let r = (NetReply::Empty, Vec::<Action>::new());
                    proof {
                        assert(actions_of(r.1@) == Seq::<ActionModel>::empty());
                    }
                    r
                }
            },
            Message::Heartbeat { primary_addr } => {
                if self.role == Role::Backup {
                    let same = match &self.primary_addr {
                        Some(p) => bytes_eq(p, &primary_addr),
                        None => false,
                    };
                    let mut actions: Vec<Action> = Vec::new();
                    if !same {
                        actions.push(
                            Action::SendReliable {
                                dest: clone_bytes(&primary_addr),
                                msg: Message::Subscribe {
                                    backup_addr: clone_bytes(&self.self_addr),
                                },
                            },
                        );
                    }
                    proof {
                        lemma_seq_insert_no_dup(self@.peers, primary_addr@);
                    }
                    self.primary_addr = Some(clone_bytes(&primary_addr));
                    insert_addr(&mut self.peers, primary_addr);
                    self.last_heartbeat_ms = now_ms;
                    proof {
                        if same {
                            assert(actions_of(actions@) =~~= network_step(
                                old(self)@,
                                msg@,
                                now_ms,
                            ).2);
                        } else {
                            assert(actions@.drop_last() =~= Seq::<Action>::empty());
                            assert(actions_of(actions@) == actions_of(
                                actions@.drop_last(),
                            ).push(actions@.last()@));
                            assert(actions_of(Seq::<Action>::empty())
                                == Seq::<ActionModel>::empty());
                            assert(actions_of(actions@) =~~= network_step(
                                old(self)@,
                                msg@,
                                now_ms,
                            ).2);
                        }
                    }
                    (NetReply::Empty, actions)
                } else {
                    let r = (NetReply::Empty, Vec::<Action>::new());
                    proof {
                        assert(actions_of(r.1@) == Seq::<ActionModel>::empty());
                    }
                    r
                }
            },
            Message::PrimaryAddress => {
                let addr = match &self.primary_addr {
                    Some(p) => clone_bytes(p),
                    None => Vec::new(),
                };
                let r = (NetReply::Address { addr }, Vec::<Action>::new());
                proof {
                    assert(actions_of(r.1@) == Seq::<ActionModel>::empty());
                }
                r
            },
        }
    }

    /// The node's promotion rank now: how many known peers, the primary
    /// aside, order strictly below this node's address.
    fn rank_now(&self) -> (r: usize)
        ensures
            r as int == rank(self@),
    {
        let n: usize = self.peers.len();
        let mut count: usize = 0;
        let mut i: usize = 0;
        proof {
            assert(addrs_of(self.peers@).subrange(0, 0) =~= Seq::<Seq<u8>>::empty());
        }
        while i < n
            invariant
                n == self.peers@.len(),
                i <= n,
                count <= i,
                count as int == count_below(
                    addrs_of(self.peers@).subrange(0, i as int),
                    self@.primary_addr,
                    self@.self_addr,
                ),
            decreases n - i,
        {
            let p = &self.peers[i];
            let is_primary = match &self.primary_addr {
                Some(q) => bytes_eq(q, p),
                None => false,
            };
            let below = !is_primary && bytes_lt(p, &self.self_addr);
            proof {
                let m = addrs_of(self.peers@);
                assert(m.subrange(0, i + 1).drop_last() =~= m.subrange(0, i as int));
                assert(m.subrange(0, i + 1).last() == m[i as int]);
                assert(m[i as int] == self.peers@[i as int]@);
            }
            if below {
                count = count + 1;
            }
            i = i + 1;
        }
        proof {
            assert(addrs_of(self.peers@).subrange(0, n as int) =~= addrs_of(self.peers@));
        }
        count
    }

    /// One failure-detector tick at `now_ms`: a primary heartbeats its
    /// backups; a backup past its deadline promotes itself and announces.
    pub fn tick(&mut self, now_ms: u64) -> (r: Vec<Action>)
        requires
            old(self).wf(),
        ensures
            final(self).wf(),
            final(self)@ == tick_step(old(self)@, now_ms).0,
            actions_of(r@) == tick_step(old(self)@, now_ms).1,
    {
        match self.role {
            Role::Primary => heartbeat_vec(&self.backups, &self.self_addr),
            Role::Backup => {
                let rk = self.rank_now();
                let deadline: u128 = (PRIMARY_TIMEOUT_MS as u128) * (1 + rk as u128);
                if (now_ms as u128) > (self.last_heartbeat_ms as u128) + deadline {
                    self.role = Role::Primary;
                    self.primary_addr = Some(clone_bytes(&self.self_addr));
                    self.backups = Vec::new();
                    let r = heartbeat_vec(&self.peers, &self.self_addr);
                    proof {
                        assert(addrs_of(self.backups@) =~= Seq::<Seq<u8>>::empty());
                    }
                    r
                } else {
                    let r = Vec::<Action>::new();
                    proof {
                        assert(actions_of(r@) == Seq::<ActionModel>::empty());
                    }
                    r
                }
            },
            Role::Single => {
                let r = Vec::<Action>::new();
                proof {
                    assert(actions_of(r@) == Seq::<ActionModel>::empty());
                }
                r
            },
        }
    }
}

} // verus!

verus! {

/// A client step keeps the state invariant.
pub proof fn lemma_client_step_wf(s: NodeModel, c: CmdModel)
    requires
        node_wf(s),
    ensures
        node_wf(client_step(s, c).0),
{
}

/// A network step keeps the state invariant.
pub proof fn lemma_network_step_wf(s: NodeModel, m: MsgModel, now: u64)
    requires
        node_wf(s),
    ensures
        node_wf(network_step(s, m, now).0),
{
    match m {
        MsgModel::Subscribe { backup_addr } => {
            lemma_seq_insert_no_dup(s.backups, backup_addr);
            lemma_seq_insert_no_dup(s.peers, backup_addr);
        },
        MsgModel::Heartbeat { primary_addr } => {
            lemma_seq_insert_no_dup(s.peers, primary_addr);
        },
        _ => {},
    }
}

/// A tick keeps the state invariant.
pub proof fn lemma_tick_step_wf(s: NodeModel, now: u64)
    requires
        node_wf(s),
    ensures
        node_wf(tick_step(s, now).0),
{
}

/// On a node that serves writes itself, `Put(k, v)` replies `Some(v)` and a
/// `Get(k)` right after returns `Some(v)` too.
pub proof fn lemma_round_trip(s: NodeModel, key: Seq<u8>, value: Seq<u8>)
    requires
        node_wf(s),
        !(s.role is Backup),
    ensures
        client_step(s, CmdModel::Put { key, value }).1 == (OutcomeModel::Reply {
            value: Some(value),
        }),
        client_step(client_step(s, CmdModel::Put { key, value }).0, CmdModel::Get { key }).1 == (
        OutcomeModel::Reply { value: Some(value) }),
{
}

/// Before any `Put` of a key, `Get` of it returns nothing.
pub proof fn lemma_get_unset(s: NodeModel, key: Seq<u8>)
    requires
        s.kv == Map::<Seq<u8>, Seq<u8>>::empty(),
    ensures
        client_step(s, CmdModel::Get { key }).1 == (OutcomeModel::Reply {
            value: None::<Seq<u8>>,
        }),
{
    assert(!s.kv.contains_key(key));
}

/// A primary's accepted write sends `Replicate(k, v)` to every member of its
/// membership set, and a backup that applies it answers `Get(k)` with
/// `Some(v)`.
pub proof fn lemma_replication(
    p: NodeModel,
    b: NodeModel,
    key: Seq<u8>,
    value: Seq<u8>,
    i: int,
    now: u64,
)
    requires
        node_wf(p),
        p.role is Primary,
        0 <= i < p.backups.len(),
        node_wf(b),
        b.role is Backup,
    ensures
        client_step(p, CmdModel::Put { key, value }).2.len() == p.backups.len(),
        client_step(p, CmdModel::Put { key, value }).2[i] == (ActionModel::SendSimple {
            dest: p.backups[i],
            msg: MsgModel::Replicate { key, value },
        }),
        client_step(
            network_step(b, MsgModel::Replicate { key, value }, now).0,
            CmdModel::Get { key },
        ).1 == (OutcomeModel::Reply { value: Some(value) }),
{
    lemma_replicate_actions_index(p.backups, key, value, i);
}

/// A `Replicate` sent to a primary, or a `Subscribe` sent to a backup, is
/// rejected: an empty reply, no state change, no sends.
pub proof fn lemma_write_rejection(
    s: NodeModel,
    key: Seq<u8>,
    value: Seq<u8>,
    backup_addr: Seq<u8>,
    now: u64,
)
    requires
        node_wf(s),
    ensures
        s.role is Primary ==> network_step(s, MsgModel::Replicate { key, value }, now) == (
            s,
            NetReplyModel::Empty,
            Seq::<ActionModel>::empty(),
        ),
        s.role is Backup ==> network_step(s, MsgModel::Subscribe { backup_addr }, now) == (
            s,
            NetReplyModel::Empty,
            Seq::<ActionModel>::empty(),
        ),
{
}

/// A write at a backup's client port is forwarded unchanged to the primary,
/// whose forwarded reply is exactly the reply a direct client write gets.
pub proof fn lemma_forwarding(b: NodeModel, p: NodeModel, key: Seq<u8>, value: Seq<u8>, now: u64)
    requires
        node_wf(b),
        b.role is Backup,
        node_wf(p),
        p.role is Primary,
    ensures
        client_step(b, CmdModel::Put { key, value }).0 == b,
        client_step(b, CmdModel::Put { key, value }).1 == (OutcomeModel::Forward {
            dest: b.primary_addr->Some_0,
            cmd: CmdModel::Put { key, value },
        }),
        network_step(p, MsgModel::Forward { cmd: CmdModel::Put { key, value } }, now).0
            == client_step(p, CmdModel::Put { key, value }).0,
        network_step(p, MsgModel::Forward { cmd: CmdModel::Put { key, value } }, now).2
            == client_step(p, CmdModel::Put { key, value }).2,
        network_step(p, MsgModel::Forward { cmd: CmdModel::Put { key, value } }, now).1 == (
        NetReplyModel::Value { value: Some(value) }),
{
}

/// A silent-past-deadline backup promotes: it becomes the primary, is its own
/// primary address, answers `PrimaryAddress` with its own address, and
/// announces itself to every peer it has ever observed.
pub proof fn lemma_promotion(s: NodeModel, now: u64)
    requires
        node_wf(s),
        s.role is Backup,
        now > s.last_heartbeat_ms + promote_deadline(s),
    ensures
        tick_step(s, now).0.role is Primary,
        tick_step(s, now).0.primary_addr == Some(s.self_addr),
        network_step(tick_step(s, now).0, MsgModel::PrimaryAddress, now).1 == (
        NetReplyModel::Address { addr: s.self_addr }),
        tick_step(s, now).1.len() == s.peers.len(),
        forall|i: int| #![auto] 0 <= i < s.peers.len() ==> tick_step(s, now).1[i] == (
        ActionModel::SendSimple {
            dest: s.peers[i],
            msg: MsgModel::Heartbeat { primary_addr: s.self_addr },
        }),
{
    lemma_heartbeat_actions_len(s.peers, s.self_addr);
    assert forall|i: int| #![auto] 0 <= i < s.peers.len() implies tick_step(s, now).1[i] == (
    ActionModel::SendSimple {
        dest: s.peers[i],
        msg: MsgModel::Heartbeat { primary_addr: s.self_addr },
    }) by {
        lemma_heartbeat_actions_index(s.peers, s.self_addr, i);
    }
}

/// No peer beside the primary orders below `me`: the count is zero.
proof fn lemma_count_below_zero(peers: Seq<Seq<u8>>, primary: Option<Seq<u8>>, me: Seq<u8>)
    requires
        forall|i: int| #![auto]
            0 <= i < peers.len() ==> primary == Some(peers[i]) || !lex_lt(peers[i], me),
    ensures
        count_below(peers, primary, me) == 0,
    decreases peers.len(),
{
    if peers.len() > 0 {
        assert(peers.last() == peers[peers.len() - 1]);
        lemma_count_below_zero(peers.drop_last(), primary, me);
    }
}

/// The lowest-addressed backup has rank zero, so its promotion deadline is
/// one primary timeout, with no extra skew.
pub proof fn lemma_lowest_promotes_first(s: NodeModel)
    requires
        node_wf(s),
        s.role is Backup,
        forall|i: int| #![auto]
            0 <= i < s.peers.len() ==> s.primary_addr == Some(s.peers[i]) || !lex_lt(
                s.peers[i],
                s.self_addr,
            ),
    ensures
        promote_deadline(s) == PRIMARY_TIMEOUT_MS as int,
{
    lemma_count_below_zero(s.peers, s.primary_addr, s.self_addr);
}

/// After a promotion, the new primary's heartbeat makes a co-backup adopt it
/// and re-subscribe; once subscribed, a write at the new primary replicates
/// to that backup and the written value is then readable there.
pub proof fn lemma_post_promotion_replication(
    s: NodeModel,
    c: NodeModel,
    key: Seq<u8>,
    value: Seq<u8>,
    now: u64,
)
    requires
        node_wf(s),
        s.role is Backup,
        now > s.last_heartbeat_ms + promote_deadline(s),
        node_wf(c),
        c.role is Backup,
        c.primary_addr != Some(s.self_addr),
    ensures
        ({
            let np = tick_step(s, now).0;
            let hb = network_step(c, MsgModel::Heartbeat { primary_addr: np.self_addr }, now);
            let sub = network_step(np, MsgModel::Subscribe { backup_addr: c.self_addr }, now);
            let put = client_step(sub.0, CmdModel::Put { key, value });
            &&& np.role is Primary
            &&& hb.0.primary_addr == Some(s.self_addr)
            &&& hb.2 == seq![
                ActionModel::SendReliable {
                    dest: s.self_addr,
                    msg: MsgModel::Subscribe { backup_addr: c.self_addr },
                },
            ]
            &&& sub.0.backups.contains(c.self_addr)
            &&& exists|i: int|
                0 <= i < put.2.len() && put.2[i] == (ActionModel::SendSimple {
                    dest: c.self_addr,
                    msg: MsgModel::Replicate { key, value },
                })
            &&& client_step(
                network_step(hb.0, MsgModel::Replicate { key, value }, now).0,
                CmdModel::Get { key },
            ).1 == (OutcomeModel::Reply { value: Some(value) })
        }),
{
    lemma_tick_step_wf(s, now);
    let np = tick_step(s, now).0;
    let sub = network_step(np, MsgModel::Subscribe { backup_addr: c.self_addr }, now);
    assert(!np.backups.contains(c.self_addr));
    assert(sub.0.backups == np.backups.push(c.self_addr));
    assert(sub.0.backups[0] == c.self_addr);
    assert(sub.0.backups.contains(c.self_addr));
    let put = client_step(sub.0, CmdModel::Put { key, value });
    lemma_replicate_actions_index(sub.0.backups, key, value, 0);
    assert(put.2[0] == (ActionModel::SendSimple {
        dest: c.self_addr,
        msg: MsgModel::Replicate { key, value },
    }));
}

} // verus!

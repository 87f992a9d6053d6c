use replicated_kv::message::{ClientCommand, Message, NetReply};
use replicated_kv::node::{Action, ClientOutcome, Node};
use replicated_kv::PRIMARY_TIMEOUT_MS;

fn bytes(s: &str) -> Vec<u8> {
    s.as_bytes().to_vec()
}

fn get(key: &str) -> ClientCommand {
    ClientCommand::Get { key: bytes(key) }
}

fn put(key: &str, value: &str) -> ClientCommand {
    ClientCommand::Put { key: bytes(key), value: bytes(value) }
}

fn reply_of(outcome: ClientOutcome) -> Option<Vec<u8>> {
    match outcome {
        ClientOutcome::Reply { value } => value,
        ClientOutcome::Forward { .. } => panic!("expected a direct reply"),
    }
}

/// Delivers every fire-and-forget `Replicate`/`Heartbeat` addressed to `addr`.
fn deliver_to(node: &mut Node, addr: &str, actions: &[Action], now: u64) {
    for a in actions {
        if let Action::SendSimple { dest, msg } = a {
            if dest == &bytes(addr) {
                node.handle_network(msg.clone(), now);
            }
        }
    }
}

#[test]
fn single_node_round_trip() {
    let mut node = Node::single();
    assert_eq!(reply_of(node.handle_client(get("k1")).0), None);
    assert_eq!(reply_of(node.handle_client(put("k1", "v1")).0), Some(bytes("v1")));
    assert_eq!(reply_of(node.handle_client(get("k1")).0), Some(bytes("v1")));
    assert_eq!(reply_of(node.handle_client(put("k1", "v2")).0), Some(bytes("v2")));
    assert_eq!(reply_of(node.handle_client(get("k1")).0), Some(bytes("v2")));
}

#[test]
fn single_node_rejects_network_messages() {
    let mut node = Node::single();
    let (reply, actions) = node.handle_network(
        Message::Replicate { key: bytes("K"), value: bytes("V") },
        0,
    );
    assert_eq!(reply, NetReply::Empty);
    assert!(actions.is_empty());
    assert_eq!(reply_of(node.handle_client(get("K")).0), None);
}

#[test]
fn replication_reaches_a_subscribed_backup() {
    let mut primary = Node::primary(bytes("127.0.0.1:6783"));
    let mut backup = Node::backup(bytes("127.0.0.1:6785"), bytes("127.0.0.1:6783"), 0);

    // The backup announces itself, as at startup.
    for a in backup.startup_actions() {
        if let Action::SendReliable { msg, .. } = a {
            primary.handle_network(msg, 0);
        }
    }

    let (outcome, actions) = primary.handle_client(put("K", "V"));
    assert_eq!(reply_of(outcome), Some(bytes("V")));
    assert_eq!(actions.len(), 1);
    deliver_to(&mut backup, "127.0.0.1:6785", &actions, 10);

    assert_eq!(reply_of(primary.handle_client(get("K")).0), Some(bytes("V")));
    assert_eq!(reply_of(backup.handle_client(get("K")).0), Some(bytes("V")));
}

#[test]
fn replicate_to_primary_is_rejected_without_state_change() {
    let mut primary = Node::primary(bytes("127.0.0.1:6783"));
    let (reply, actions) = primary.handle_network(
        Message::Replicate { key: bytes("K"), value: bytes("V") },
        0,
    );
    assert_eq!(reply, NetReply::Empty);
    assert!(actions.is_empty());
    assert_eq!(reply_of(primary.handle_client(get("K")).0), None);
}

#[test]
fn subscribe_to_backup_is_rejected() {
    let mut backup = Node::backup(bytes("127.0.0.1:6785"), bytes("127.0.0.1:6783"), 0);
    let (reply, actions) = backup.handle_network(
        Message::Subscribe { backup_addr: bytes("127.0.0.1:6787") },
        0,
    );
    assert_eq!(reply, NetReply::Empty);
    assert!(actions.is_empty());
}

#[test]
fn write_at_backup_is_forwarded_and_replicated() {
    let mut primary = Node::primary(bytes("127.0.0.1:6783"));
    let mut backup = Node::backup(bytes("127.0.0.1:6785"), bytes("127.0.0.1:6783"), 0);
    let mut second = Node::backup(bytes("127.0.0.1:6787"), bytes("127.0.0.1:6783"), 0);
    for b in [&backup, &second] {
        for a in b.startup_actions() {
            if let Action::SendReliable { msg, .. } = a {
                primary.handle_network(msg, 0);
            }
        }
    }

    // The backup does not write locally: it forwards to the primary.
    let (outcome, actions) = backup.handle_client(put("K2", "V2"));
    assert!(actions.is_empty());
    let (dest, cmd) = match outcome {
        ClientOutcome::Forward { dest, cmd } => (dest, cmd),
        ClientOutcome::Reply { .. } => panic!("expected forwarding"),
    };
    assert_eq!(dest, bytes("127.0.0.1:6783"));
    assert_eq!(reply_of(backup.handle_client(get("K2")).0), None);

    // The primary answers the forwarded write as it would a direct one.
    let (reply, actions) = primary.handle_network(Message::Forward { cmd }, 0);
    assert_eq!(reply, NetReply::Value { value: Some(bytes("V2")) });

    deliver_to(&mut backup, "127.0.0.1:6785", &actions, 10);
    deliver_to(&mut second, "127.0.0.1:6787", &actions, 10);
    assert_eq!(reply_of(primary.handle_client(get("K2")).0), Some(bytes("V2")));
    assert_eq!(reply_of(backup.handle_client(get("K2")).0), Some(bytes("V2")));
    assert_eq!(reply_of(second.handle_client(get("K2")).0), Some(bytes("V2")));
}

#[test]
fn backup_promotes_after_primary_timeout() {
    let mut backup = Node::backup(bytes("127.0.0.1:6785"), bytes("127.0.0.1:6783"), 1000);

    // Heartbeats keep it a backup.
    backup.handle_network(Message::Heartbeat { primary_addr: bytes("127.0.0.1:6783") }, 2000);
    let actions = backup.tick(2000 + PRIMARY_TIMEOUT_MS);
    assert!(actions.is_empty());
    let (reply, _) = backup.handle_network(Message::PrimaryAddress, 3000);
    assert_eq!(reply, NetReply::Address { addr: bytes("127.0.0.1:6783") });

    // Silence past the timeout promotes it; it announces to known peers.
    let actions = backup.tick(2000 + PRIMARY_TIMEOUT_MS + 1);
    assert_eq!(actions.len(), 1);
    assert_eq!(
        actions[0],
        Action::SendSimple {
            dest: bytes("127.0.0.1:6783"),
            msg: Message::Heartbeat { primary_addr: bytes("127.0.0.1:6785") },
        }
    );
    let (reply, _) = backup.handle_network(Message::PrimaryAddress, 9000);
    assert_eq!(reply, NetReply::Address { addr: bytes("127.0.0.1:6785") });
}

#[test]
fn new_primary_replicates_to_resubscribed_backups() {
    // Two backups of a primary that dies; the lower-addressed one promotes.
    let mut low = Node::backup(bytes("127.0.0.1:6785"), bytes("127.0.0.1:6783"), 0);
    let mut high = Node::backup(bytes("127.0.0.1:6787"), bytes("127.0.0.1:6783"), 0);

    let announce = low.tick(PRIMARY_TIMEOUT_MS + 1);
    assert_eq!(announce.len(), 1);

    // The surviving backup hears the new primary's heartbeat, adopts it, and
    // re-subscribes.
    let (_, resub) = high.handle_network(
        Message::Heartbeat { primary_addr: bytes("127.0.0.1:6785") },
        PRIMARY_TIMEOUT_MS + 2,
    );
    assert_eq!(resub.len(), 1);
    match &resub[0] {
        Action::SendReliable { dest, msg } => {
            assert_eq!(dest, &bytes("127.0.0.1:6785"));
            low.handle_network(msg.clone(), PRIMARY_TIMEOUT_MS + 3);
        }
        _ => panic!("expected a reliable re-subscription"),
    }

    // Writes at the new primary now reach the re-subscribed backup.
    let (outcome, actions) = low.handle_client(put("K3", "V3"));
    assert_eq!(reply_of(outcome), Some(bytes("V3")));
    deliver_to(&mut high, "127.0.0.1:6787", &actions, PRIMARY_TIMEOUT_MS + 4);
    assert_eq!(reply_of(high.handle_client(get("K3")).0), Some(bytes("V3")));
}

#[test]
fn higher_ranked_backup_defers_promotion() {
    // This backup knows a living co-backup with a lower address, so its
    // deadline carries one extra timeout of skew.
    let mut high = Node::backup(bytes("127.0.0.1:6787"), bytes("127.0.0.1:6783"), 0);
    high.handle_network(Message::Heartbeat { primary_addr: bytes("127.0.0.1:6783") }, 0);
    // A promoted co-backup once sent its heartbeat, so it is a known peer.
    let (_, _) = high.handle_network(Message::Heartbeat { primary_addr: bytes("127.0.0.1:6785") }, 0);
    // Back under the original primary.
    high.handle_network(Message::Heartbeat { primary_addr: bytes("127.0.0.1:6783") }, 0);

    // One timeout of silence is not enough for rank one...
    let actions = high.tick(PRIMARY_TIMEOUT_MS + 1);
    assert!(actions.is_empty());
    // ...two are.
    let actions = high.tick(2 * PRIMARY_TIMEOUT_MS + 1);
    assert!(!actions.is_empty());
}

#[test]
fn primary_heartbeats_every_subscribed_backup() {
    let mut primary = Node::primary(bytes("127.0.0.1:6783"));
    primary.handle_network(Message::Subscribe { backup_addr: bytes("127.0.0.1:6785") }, 0);
    primary.handle_network(Message::Subscribe { backup_addr: bytes("127.0.0.1:6787") }, 0);
    // Subscribing twice does not duplicate membership.
    primary.handle_network(Message::Subscribe { backup_addr: bytes("127.0.0.1:6785") }, 0);

    let actions = primary.tick(1000);
    assert_eq!(actions.len(), 2);
    for (a, addr) in actions.iter().zip(["127.0.0.1:6785", "127.0.0.1:6787"]) {
        assert_eq!(
            a,
            &Action::SendSimple {
                dest: bytes(addr),
                msg: Message::Heartbeat { primary_addr: bytes("127.0.0.1:6783") },
            }
        );
    }

    let (reply, _) = primary.handle_network(Message::PrimaryAddress, 1000);
    assert_eq!(reply, NetReply::Address { addr: bytes("127.0.0.1:6783") });
}

#[test]
fn forwarded_write_on_a_backup_network_port_is_rejected() {
    let mut backup = Node::backup(bytes("127.0.0.1:6785"), bytes("127.0.0.1:6783"), 0);
    let (reply, actions) = backup.handle_network(
        Message::Forward { cmd: put("K", "V") },
        0,
    );
    assert_eq!(reply, NetReply::Empty);
    assert!(actions.is_empty());
    // No state changed: the key is still unset.
    assert_eq!(reply_of(backup.handle_client(get("K")).0), None);
}

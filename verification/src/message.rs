//! The two wire schemas: client commands on the client port, peer messages on
//! the network port, and the replies each can produce. Keys, values and peer
//! addresses are byte strings; their mathematical models are `Seq<u8>`.

use vstd::prelude::*;

verus! {

/// A command a client sends to any node's client port.
#[derive(Clone, Debug, PartialEq, Eq)]
pub enum ClientCommand {
    Get { key: Vec<u8> },
    Put { key: Vec<u8>, value: Vec<u8> },
}

/// A message one node sends to another node's network port.
#[derive(Clone, Debug, PartialEq, Eq)]
pub enum Message {
    /// Sent by a starting backup to its configured primary.
    Subscribe { backup_addr: Vec<u8> },
    /// Primary-to-backup write broadcast.
    Replicate { key: Vec<u8>, value: Vec<u8> },
    /// Backup-to-primary relay of a write received at the backup.
    Forward { cmd: ClientCommand },
    /// Primary-to-backup liveness signal, carrying the primary's address.
    Heartbeat { primary_addr: Vec<u8> },
    /// Asks the recipient for the primary address it currently knows.
    PrimaryAddress,
}

/// The reply a node sends on its network port.
#[derive(Clone, Debug, PartialEq, Eq)]
pub enum NetReply {
    /// No content: the acknowledgement of a `Subscribe`, and the answer to a
    /// message that is not valid in the recipient's current role.
    Empty,
    /// The relayed client-visible reply to a forwarded command.
    Value { value: Option<Vec<u8>> },
    /// The answer to `PrimaryAddress`.
    Address { addr: Vec<u8> },
}

/// Model of a [`ClientCommand`].
#[verifier::ext_equal]
pub enum CmdModel {
    Get { key: Seq<u8> },
    Put { key: Seq<u8>, value: Seq<u8> },
}

/// Model of a [`Message`].
#[verifier::ext_equal]
pub enum MsgModel {
    Subscribe { backup_addr: Seq<u8> },
    Replicate { key: Seq<u8>, value: Seq<u8> },
    Forward { cmd: CmdModel },
    Heartbeat { primary_addr: Seq<u8> },
    PrimaryAddress,
}

/// Model of a [`NetReply`].
#[verifier::ext_equal]
pub enum NetReplyModel {
    Empty,
    Value { value: Option<Seq<u8>> },
    Address { addr: Seq<u8> },
}

impl View for ClientCommand {
    type V = CmdModel;

    open spec fn view(&self) -> CmdModel {
        match self {
            ClientCommand::Get { key } => CmdModel::Get { key: key@ },
            ClientCommand::Put { key, value } => CmdModel::Put { key: key@, value: value@ },
        }
    }
}

impl View for Message {
    type V = MsgModel;

    open spec fn view(&self) -> MsgModel {
        match self {
            Message::Subscribe { backup_addr } => MsgModel::Subscribe { backup_addr: backup_addr@ },
            Message::Replicate { key, value } => MsgModel::Replicate { key: key@, value: value@ },
            Message::Forward { cmd } => MsgModel::Forward { cmd: cmd@ },
            Message::Heartbeat { primary_addr } => MsgModel::Heartbeat {
                primary_addr: primary_addr@,
            },
            Message::PrimaryAddress => MsgModel::PrimaryAddress,
        }
    }
}

impl View for NetReply {
    type V = NetReplyModel;

    open spec fn view(&self) -> NetReplyModel {
        match self {
            NetReply::Empty => NetReplyModel::Empty,
            NetReply::Value { value } => NetReplyModel::Value {
                value: match value {
                    Some(v) => Some(v@),
                    None => None,
                },
            },
            NetReply::Address { addr } => NetReplyModel::Address { addr: addr@ },
        }
    }
}

/// Every field of the command fits a length-prefixed wire field.
pub open spec fn cmd_wf(c: CmdModel) -> bool {
    match c {
        CmdModel::Get { key } => key.len() <= MAX_FIELD_LEN,
        CmdModel::Put { key, value } => key.len() <= MAX_FIELD_LEN && value.len()
            <= MAX_FIELD_LEN,
    }
}

/// Every field of the message fits a length-prefixed wire field.
pub open spec fn msg_wf(m: MsgModel) -> bool {
    match m {
        MsgModel::Subscribe { backup_addr } => backup_addr.len() <= MAX_FIELD_LEN,
        MsgModel::Replicate { key, value } => key.len() <= MAX_FIELD_LEN && value.len()
            <= MAX_FIELD_LEN,
        MsgModel::Forward { cmd } => cmd_wf(cmd),
        MsgModel::Heartbeat { primary_addr } => primary_addr.len() <= MAX_FIELD_LEN,
        MsgModel::PrimaryAddress => true,
    }
}

/// Every field of the reply fits a length-prefixed wire field.
pub open spec fn reply_wf(r: NetReplyModel) -> bool {
    match r {
        NetReplyModel::Empty => true,
        NetReplyModel::Value { value } => match value {
            Some(v) => v.len() <= MAX_FIELD_LEN,
            None => true,
        },
        NetReplyModel::Address { addr } => addr.len() <= MAX_FIELD_LEN,
    }
}

/// Largest single wire field, in bytes (4 MiB): two fields and their prefixes
/// always fit one frame.
pub const MAX_FIELD_LEN: usize = 4194304;

} // verus!

//! The wire codec. A frame is `u32 length (big endian) || payload`; a payload
//! is a tagged message whose byte-string fields are length-prefixed the same
//! way. Encoding and decoding are pure and symmetric: every encoded message
//! decodes back to itself (proved in [`lemma_cmd_round_trip`] and its peers).

use vstd::prelude::*;
use crate::message::{ClientCommand, Message, NetReply, CmdModel, MsgModel, NetReplyModel,
    cmd_wf, msg_wf, reply_wf, MAX_FIELD_LEN};
use crate::MAX_FRAME_LEN;

verus! {

/// Big-endian bytes of a 32-bit length.
pub open spec fn spec_u32_be(n: u32) -> Seq<u8> {
    seq![(n >> 24) as u8, (n >> 16) as u8, (n >> 8) as u8, n as u8]
}

/// The 32-bit value read back from four big-endian bytes.
pub open spec fn spec_u32_of(b0: u8, b1: u8, b2: u8, b3: u8) -> u32 {
    ((b0 as u32) << 24) | ((b1 as u32) << 16) | ((b2 as u32) << 8) | (b3 as u32)
}

/// Reading four big-endian bytes undoes writing them.
pub proof fn lemma_u32_round_trip(n: u32)
    ensures
        spec_u32_of(
            (n >> 24) as u8,
            (n >> 16) as u8,
            (n >> 8) as u8,
            n as u8,
        ) == n,
{
    assert(((((n >> 24) as u8) as u32) << 24) | ((((n >> 16) as u8) as u32) << 16) | ((((n
        >> 8) as u8) as u32) << 8) | ((n as u8) as u32) == n) by (bit_vector);
}

/// A length-prefixed byte-string field.
pub open spec fn spec_field(b: Seq<u8>) -> Seq<u8> {
    spec_u32_be(b.len() as u32) + b
}

/// Reads a 32-bit big-endian value at `i`; `None` when fewer than four bytes
/// remain.
pub open spec fn dec_u32(s: Seq<u8>, i: int) -> Option<(u32, int)> {
    if 0 <= i && i + 4 <= s.len() {
        Some((spec_u32_of(s[i], s[i + 1], s[i + 2], s[i + 3]), i + 4))
    } else {
        None
    }
}

/// Reads a length-prefixed field at `i`; `None` when the bytes run out.
pub open spec fn dec_field(s: Seq<u8>, i: int) -> Option<(Seq<u8>, int)> {
    match dec_u32(s, i) {
        Some((n, j)) => if j + n <= s.len() {
            Some((s.subrange(j, j + n), j + n))
        } else {
            None
        },
        None => None,
    }
}

/// In `pre + spec_u32_be(n) + rest`, reading at the end of `pre` gives `n`.
pub proof fn lemma_dec_u32_at(pre: Seq<u8>, n: u32, rest: Seq<u8>)
    ensures
        dec_u32(pre + spec_u32_be(n) + rest, pre.len() as int) == Some(
            (n, pre.len() as int + 4),
        ),
{
    let s = pre + spec_u32_be(n) + rest;
    let i = pre.len() as int;
    assert(s[i] == (n >> 24) as u8);
    assert(s[i + 1] == (n >> 16) as u8);
    assert(s[i + 2] == (n >> 8) as u8);
    assert(s[i + 3] == n as u8);
    lemma_u32_round_trip(n);
}

/// In `pre + spec_field(b) + rest`, reading at the end of `pre` gives `b`.
pub proof fn lemma_dec_field_at(pre: Seq<u8>, b: Seq<u8>, rest: Seq<u8>)
    requires
        b.len() <= u32::MAX,
    ensures
        dec_field(pre + spec_field(b) + rest, pre.len() as int) == Some(
            (b, pre.len() as int + 4 + b.len() as int),
        ),
{
    let s = pre + spec_field(b) + rest;
    let i = pre.len() as int;
    let n = b.len() as u32;
    assert(pre + spec_field(b) + rest =~= pre + spec_u32_be(n) + (b + rest));
    lemma_dec_u32_at(pre, n, b + rest);
    assert(dec_u32(s, i) == Some((n, i + 4)));
    assert(s.subrange(i + 4, i + 4 + n as int) =~= b);
}

/// Appends the big-endian bytes of `n`.
pub fn push_u32(out: &mut Vec<u8>, n: u32)
    ensures
        final(out)@ == old(out)@ + spec_u32_be(n),
{
    out.push((n >> 24) as u8);
    out.push((n >> 16) as u8);
    out.push((n >> 8) as u8);
    out.push(n as u8);
    proof {
        assert(out@ =~= old(out)@ + spec_u32_be(n));
    }
}

/// Appends a length-prefixed field holding `b`.
pub fn push_field(out: &mut Vec<u8>, b: &Vec<u8>)
    requires
        b@.len() <= u32::MAX,
    ensures
        final(out)@ == old(out)@ + spec_field(b@),
{
    push_u32(out, b.len() as u32);
    let ghost mid = out@;
    let n: usize = b.len();
    let mut i: usize = 0;
    while i < n
        invariant
            n == b@.len(),
            i <= n,
            out@ == mid + b@.subrange(0, i as int),
        decreases n - i,
    {
        out.push(b[i]);
        proof {
            assert(out@ =~= mid + b@.subrange(0, i + 1));
        }
        i = i + 1;
    }
    proof {
        assert(b@.subrange(0, n as int) =~= b@);
        assert(out@ =~= old(out)@ + spec_field(b@));
    }
}

/// Reads a 32-bit big-endian value at `pos`, the executable [`dec_u32`].
pub fn read_u32(b: &Vec<u8>, pos: usize) -> (r: Option<(u32, usize)>)
    ensures
        match r {
            Some((n, j)) => dec_u32(b@, pos as int) == Some((n, j as int)),
            None => dec_u32(b@, pos as int) is None,
        },
{
    if pos < b.len() && b.len() - pos >= 4 {
        let n = ((b[pos] as u32) << 24) | ((b[pos + 1] as u32) << 16) | ((b[pos + 2] as u32)
            << 8) | (b[pos + 3] as u32);
        Some((n, pos + 4))
    } else {
        None
    }
}

/// Copies `b[pos .. pos + n]` out.
fn copy_range(b: &Vec<u8>, pos: usize, n: usize) -> (r: Vec<u8>)
    requires
        pos + n <= b@.len(),
    ensures
        r@ == b@.subrange(pos as int, pos + n),
{
    let mut r: Vec<u8> = Vec::new();
    let blen: usize = b.len();
    let mut i: usize = 0;
    while i < n
        invariant
            blen == b@.len(),
            pos + n <= blen,
            i <= n,
            r@ == b@.subrange(pos as int, pos + i),
        decreases n - i,
    {
        r.push(b[pos + i]);
        proof {
            assert(r@ =~= b@.subrange(pos as int, pos + i + 1));
        }
        i = i + 1;
    }
    r
}

/// Reads a length-prefixed field at `pos`, the executable [`dec_field`].
pub fn read_field(b: &Vec<u8>, pos: usize) -> (r: Option<(Vec<u8>, usize)>)
    ensures
        match r {
            Some((f, j)) => dec_field(b@, pos as int) == Some((f@, j as int)),
            None => dec_field(b@, pos as int) is None,
        },
{
    match read_u32(b, pos) {
        Some((n, j)) => {
            if n as usize <= b.len() && j <= b.len() - (n as usize) {
                let f = copy_range(b, j, n as usize);
                Some((f, j + n as usize))
            } else {
                None
            }
        },
        None => None,
    }
}

} // verus!

verus! {

/// Serialized form of a client command: a tag byte, then its fields.
pub open spec fn spec_enc_cmd(c: CmdModel) -> Seq<u8> {
    match c {
        CmdModel::Get { key } => seq![0u8] + spec_field(key),
        CmdModel::Put { key, value } => seq![1u8] + spec_field(key) + spec_field(value),
    }
}

/// Parses one client command at `i`.
pub open spec fn dec_cmd_at(s: Seq<u8>, i: int) -> Option<(CmdModel, int)> {
    if 0 <= i < s.len() {
        if s[i] == 0u8 {
            match dec_field(s, i + 1) {
                Some((k, j)) => Some((CmdModel::Get { key: k }, j)),
                None => None,
            }
        } else if s[i] == 1u8 {
            match dec_field(s, i + 1) {
                Some((k, j)) => match dec_field(s, j) {
                    Some((v, j2)) => Some((CmdModel::Put { key: k, value: v }, j2)),
                    None => None,
                },
                None => None,
            }
        } else {
            None
        }
    } else {
        None
    }
}

/// Parses a whole payload as one client command; trailing bytes are refused.
pub open spec fn spec_dec_cmd(s: Seq<u8>) -> Option<CmdModel> {
    match dec_cmd_at(s, 0) {
        Some((c, j)) => if j == s.len() {
            Some(c)
        } else {
            None
        },
        None => None,
    }
}

/// Serialized form of a peer message: a tag byte, then its fields.
pub open spec fn spec_enc_msg(m: MsgModel) -> Seq<u8> {
    match m {
        MsgModel::Subscribe { backup_addr } => seq![2u8] + spec_field(backup_addr),
        MsgModel::Replicate { key, value } => seq![3u8] + spec_field(key) + spec_field(value),
        MsgModel::Forward { cmd } => seq![4u8] + spec_enc_cmd(cmd),
        MsgModel::Heartbeat { primary_addr } => seq![5u8] + spec_field(primary_addr),
        MsgModel::PrimaryAddress => seq![6u8],
    }
}

/// Parses one peer message at `i`.
pub open spec fn dec_msg_at(s: Seq<u8>, i: int) -> Option<(MsgModel, int)> {
    if 0 <= i < s.len() {
        if s[i] == 2u8 {
            match dec_field(s, i + 1) {
                Some((a, j)) => Some((MsgModel::Subscribe { backup_addr: a }, j)),
                None => None,
            }
        } else if s[i] == 3u8 {
            match dec_field(s, i + 1) {
                Some((k, j)) => match dec_field(s, j) {
                    Some((v, j2)) => Some((MsgModel::Replicate { key: k, value: v }, j2)),
                    None => None,
                },
                None => None,
            }
        } else if s[i] == 4u8 {
            match dec_cmd_at(s, i + 1) {
                Some((c, j)) => Some((MsgModel::Forward { cmd: c }, j)),
                None => None,
            }
        } else if s[i] == 5u8 {
            match dec_field(s, i + 1) {
                Some((a, j)) => Some((MsgModel::Heartbeat { primary_addr: a }, j)),
                None => None,
            }
        } else if s[i] == 6u8 {
            Some((MsgModel::PrimaryAddress, i + 1))
        } else {
            None
        }
    } else {
        None
    }
}

/// Parses a whole payload as one peer message; trailing bytes are refused.
pub open spec fn spec_dec_msg(s: Seq<u8>) -> Option<MsgModel> {
    match dec_msg_at(s, 0) {
        Some((m, j)) => if j == s.len() {
            Some(m)
        } else {
            None
        },
        None => None,
    }
}

/// Serialized form of a network-port reply.
pub open spec fn spec_enc_reply(r: NetReplyModel) -> Seq<u8> {
    match r {
        NetReplyModel::Empty => seq![7u8],
        NetReplyModel::Value { value } => match value {
            None => seq![8u8],
            Some(v) => seq![9u8] + spec_field(v),
        },
        NetReplyModel::Address { addr } => seq![10u8] + spec_field(addr),
    }
}

/// Parses a whole payload as one reply; trailing bytes are refused.
pub open spec fn spec_dec_reply(s: Seq<u8>) -> Option<NetReplyModel> {
    if s.len() == 0 {
        None
    } else if s[0] == 7u8 && s.len() == 1 {
        Some(NetReplyModel::Empty)
    } else if s[0] == 8u8 && s.len() == 1 {
        Some(NetReplyModel::Value { value: None })
    } else if s[0] == 9u8 {
        match dec_field(s, 1) {
            Some((v, j)) => if j == s.len() {
                Some(NetReplyModel::Value { value: Some(v) })
            } else {
                None
            },
            None => None,
        }
    } else if s[0] == 10u8 {
        match dec_field(s, 1) {
            Some((a, j)) => if j == s.len() {
                Some(NetReplyModel::Address { addr: a })
            } else {
                None
            },
            None => None,
        }
    } else {
        None
    }
}

/// Parsing an encoded `Get` out of a longer byte string finds exactly it.
#[verifier::rlimit(100)]
#[verifier::spinoff_prover]
proof fn lemma_dec_get_at(pre: Seq<u8>, key: Seq<u8>, rest: Seq<u8>)
    requires
        key.len() <= MAX_FIELD_LEN,
    ensures
        dec_cmd_at(pre + spec_enc_cmd(CmdModel::Get { key }) + rest, pre.len() as int) == Some(
            (CmdModel::Get { key }, pre.len() as int + spec_enc_cmd(CmdModel::Get { key }).len()),
        ),
{
    let c = CmdModel::Get { key };
    let s = pre + spec_enc_cmd(c) + rest;
    let i = pre.len() as int;
    let pre1 = pre + seq![0u8];
    assert(s[i] == 0u8);
    assert(s =~= pre1 + spec_field(key) + rest);
    lemma_dec_field_at(pre1, key, rest);
    assert(dec_field(s, i + 1) == Some((key, i + 5 + key.len() as int)));
    assert(spec_enc_cmd(c).len() == 5 + key.len());
}

/// Parsing an encoded `Put` out of a longer byte string finds exactly it.
#[verifier::rlimit(100)]
#[verifier::spinoff_prover]
proof fn lemma_dec_put_at(pre: Seq<u8>, key: Seq<u8>, value: Seq<u8>, rest: Seq<u8>)
    requires
        key.len() <= MAX_FIELD_LEN,
        value.len() <= MAX_FIELD_LEN,
    ensures
        dec_cmd_at(pre + spec_enc_cmd(CmdModel::Put { key, value }) + rest, pre.len() as int)
            == Some(
            (
                CmdModel::Put { key, value },
                pre.len() as int + spec_enc_cmd(CmdModel::Put { key, value }).len(),
            ),
        ),
{
    let c = CmdModel::Put { key, value };
    let s = pre + spec_enc_cmd(c) + rest;
    let i = pre.len() as int;
    let pre1 = pre + seq![1u8];
    let pre2 = pre1 + spec_field(key);
    assert(s[i] == 1u8);
    assert(s =~= pre1 + spec_field(key) + (spec_field(value) + rest));
    lemma_dec_field_at(pre1, key, spec_field(value) + rest);
    assert(dec_field(s, i + 1) == Some((key, i + 5 + key.len() as int)));
    assert(s =~= pre2 + spec_field(value) + rest);
    lemma_dec_field_at(pre2, value, rest);
    assert(dec_field(s, i + 5 + key.len() as int) == Some(
        (value, i + 9 + key.len() as int + value.len() as int),
    ));
    assert(spec_enc_cmd(c).len() == 9 + key.len() + value.len());
}

/// Parsing an encoded client command out of a longer byte string finds
/// exactly that command.
#[verifier::rlimit(100)]
#[verifier::spinoff_prover]
pub proof fn lemma_dec_cmd_at(pre: Seq<u8>, c: CmdModel, rest: Seq<u8>)
    requires
        cmd_wf(c),
    ensures
        dec_cmd_at(pre + spec_enc_cmd(c) + rest, pre.len() as int) == Some(
            (c, pre.len() as int + spec_enc_cmd(c).len()),
        ),
{
    match c {
        CmdModel::Get { key } => lemma_dec_get_at(pre, key, rest),
        CmdModel::Put { key, value } => lemma_dec_put_at(pre, key, value, rest),
    }
}

/// Decoding undoes encoding, for every client command.
#[verifier::rlimit(100)]
#[verifier::spinoff_prover]
pub proof fn lemma_cmd_round_trip(c: CmdModel)
    requires
        cmd_wf(c),
    ensures
        spec_dec_cmd(spec_enc_cmd(c)) == Some(c),
{
    assert(Seq::<u8>::empty() + spec_enc_cmd(c) + Seq::<u8>::empty() =~= spec_enc_cmd(c));
    lemma_dec_cmd_at(Seq::<u8>::empty(), c, Seq::<u8>::empty());
}

/// Round trip of a `Subscribe`.
#[verifier::rlimit(100)]
#[verifier::spinoff_prover]
proof fn lemma_msg_rt_subscribe(backup_addr: Seq<u8>)
    requires
        backup_addr.len() <= MAX_FIELD_LEN,
    ensures
        spec_dec_msg(spec_enc_msg(MsgModel::Subscribe { backup_addr })) == Some(
            MsgModel::Subscribe { backup_addr },
        ),
{
    let m = MsgModel::Subscribe { backup_addr };
    let s = spec_enc_msg(m);
    assert(s[0] == 2u8);
    assert(s =~= seq![2u8] + spec_field(backup_addr) + Seq::<u8>::empty());
    lemma_dec_field_at(seq![2u8], backup_addr, Seq::<u8>::empty());
    assert(dec_field(s, 1) == Some((backup_addr, 5 + backup_addr.len() as int)));
    assert(s.len() == 5 + backup_addr.len());
}

/// Round trip of a `Replicate`.
#[verifier::rlimit(100)]
#[verifier::spinoff_prover]
proof fn lemma_msg_rt_replicate(key: Seq<u8>, value: Seq<u8>)
    requires
        key.len() <= MAX_FIELD_LEN,
        value.len() <= MAX_FIELD_LEN,
    ensures
        spec_dec_msg(spec_enc_msg(MsgModel::Replicate { key, value })) == Some(
            MsgModel::Replicate { key, value },
        ),
{
    let m = MsgModel::Replicate { key, value };
    let s = spec_enc_msg(m);
    let pre2 = seq![3u8] + spec_field(key);
    assert(s[0] == 3u8);
    assert(s =~= seq![3u8] + spec_field(key) + (spec_field(value) + Seq::<u8>::empty()));
    lemma_dec_field_at(seq![3u8], key, spec_field(value) + Seq::<u8>::empty());
    assert(dec_field(s, 1) == Some((key, 5 + key.len() as int)));
    assert(s =~= pre2 + spec_field(value) + Seq::<u8>::empty());
    lemma_dec_field_at(pre2, value, Seq::<u8>::empty());
    assert(dec_field(s, 5 + key.len() as int) == Some(
        (value, 9 + key.len() as int + value.len() as int),
    ));
    assert(s.len() == 9 + key.len() + value.len());
}

/// Round trip of a `Forward`.
#[verifier::rlimit(100)]
#[verifier::spinoff_prover]
proof fn lemma_msg_rt_forward(cmd: CmdModel)
    requires
        cmd_wf(cmd),
    ensures
        spec_dec_msg(spec_enc_msg(MsgModel::Forward { cmd })) == Some(MsgModel::Forward { cmd }),
{
    let m = MsgModel::Forward { cmd };
    let s = spec_enc_msg(m);
    assert(s[0] == 4u8);
    assert(s =~= seq![4u8] + spec_enc_cmd(cmd) + Seq::<u8>::empty());
    lemma_dec_cmd_at(seq![4u8], cmd, Seq::<u8>::empty());
    assert(dec_cmd_at(s, 1) == Some((cmd, 1 + spec_enc_cmd(cmd).len() as int)));
    assert(s.len() == 1 + spec_enc_cmd(cmd).len());
}

/// Round trip of a `Heartbeat`.
#[verifier::rlimit(100)]
#[verifier::spinoff_prover]
proof fn lemma_msg_rt_heartbeat(primary_addr: Seq<u8>)
    requires
        primary_addr.len() <= MAX_FIELD_LEN,
    ensures
        spec_dec_msg(spec_enc_msg(MsgModel::Heartbeat { primary_addr })) == Some(
            MsgModel::Heartbeat { primary_addr },
        ),
{
    let m = MsgModel::Heartbeat { primary_addr };
    let s = spec_enc_msg(m);
    assert(s[0] == 5u8);
    assert(s =~= seq![5u8] + spec_field(primary_addr) + Seq::<u8>::empty());
    lemma_dec_field_at(seq![5u8], primary_addr, Seq::<u8>::empty());
    assert(dec_field(s, 1) == Some((primary_addr, 5 + primary_addr.len() as int)));
    assert(s.len() == 5 + primary_addr.len());
}

/// Decoding undoes encoding, for every peer message.
#[verifier::rlimit(100)]
#[verifier::spinoff_prover]
pub proof fn lemma_msg_round_trip(m: MsgModel)
    requires
        msg_wf(m),
    ensures
        spec_dec_msg(spec_enc_msg(m)) == Some(m),
{
    match m {
        MsgModel::Subscribe { backup_addr } => lemma_msg_rt_subscribe(backup_addr),
        MsgModel::Replicate { key, value } => lemma_msg_rt_replicate(key, value),
        MsgModel::Forward { cmd } => lemma_msg_rt_forward(cmd),
        MsgModel::Heartbeat { primary_addr } => lemma_msg_rt_heartbeat(primary_addr),
        MsgModel::PrimaryAddress => {},
    }
}

/// Round trip of a reply that carries one field.
#[verifier::rlimit(100)]
#[verifier::spinoff_prover]
proof fn lemma_reply_rt_field(tag: u8, b: Seq<u8>)
    requires
        b.len() <= MAX_FIELD_LEN,
    ensures
        dec_field(seq![tag] + spec_field(b), 1) == Some((b, 5 + b.len() as int)),
        (seq![tag] + spec_field(b)).len() == 5 + b.len(),
{
    let s = seq![tag] + spec_field(b);
    assert(s =~= seq![tag] + spec_field(b) + Seq::<u8>::empty());
    lemma_dec_field_at(seq![tag], b, Seq::<u8>::empty());
    assert(dec_field(s, 1) == Some((b, 5 + b.len() as int)));
}

/// Decoding undoes encoding, for every reply.
#[verifier::rlimit(100)]
#[verifier::spinoff_prover]
pub proof fn lemma_reply_round_trip(r: NetReplyModel)
    requires
        reply_wf(r),
    ensures
        spec_dec_reply(spec_enc_reply(r)) == Some(r),
{
    match r {
        NetReplyModel::Empty => {},
        NetReplyModel::Value { value } => match value {
            None => {},
            Some(v) => {
                lemma_reply_rt_field(9u8, v);
                assert(spec_enc_reply(r)[0] == 9u8);
            },
        },
        NetReplyModel::Address { addr } => {
            lemma_reply_rt_field(10u8, addr);
            assert(spec_enc_reply(r)[0] == 10u8);
        },
    }
}

/// Encodes a client command.
pub fn encode_cmd(c: &ClientCommand) -> (r: Vec<u8>)
    requires
        cmd_wf(c@),
    ensures
        r@ == spec_enc_cmd(c@),
{
    let mut out: Vec<u8> = Vec::new();
    match c {
        ClientCommand::Get { key } => {
            out.push(0u8);
            push_field(&mut out, key);
        },
        ClientCommand::Put { key, value } => {
            out.push(1u8);
            push_field(&mut out, key);
            push_field(&mut out, value);
        },
    }
    proof {
        assert(out@ =~= spec_enc_cmd(c@));
    }
    out
}

/// Encodes a peer message.
pub fn encode_msg(m: &Message) -> (r: Vec<u8>)
    requires
        msg_wf(m@),
    ensures
        r@ == spec_enc_msg(m@),
{
    let mut out: Vec<u8> = Vec::new();
    match m {
        Message::Subscribe { backup_addr } => {
            out.push(2u8);
            push_field(&mut out, backup_addr);
        },
        Message::Replicate { key, value } => {
            out.push(3u8);
            push_field(&mut out, key);
            push_field(&mut out, value);
        },
        Message::Forward { cmd } => {
            out.push(4u8);
            let inner = encode_cmd(cmd);
            let mut i: usize = 0;
            let n: usize = inner.len();
            while i < n
                invariant
                    n == inner@.len(),
                    i <= n,
                    out@ == seq![4u8] + inner@.subrange(0, i as int),
                decreases n - i,
            {
                out.push(inner[i]);
                proof {
                    assert(out@ =~= seq![4u8] + inner@.subrange(0, i + 1));
                }
                i = i + 1;
            }
            proof {
                assert(inner@.subrange(0, n as int) =~= inner@);
            }
        },
        Message::Heartbeat { primary_addr } => {
            out.push(5u8);
            push_field(&mut out, primary_addr);
        },
        Message::PrimaryAddress => {
            out.push(6u8);
        },
    }
    proof {
        assert(out@ =~= spec_enc_msg(m@));
    }
    out
}

/// Encodes a network-port reply.
pub fn encode_reply(r: &NetReply) -> (out: Vec<u8>)
    requires
        reply_wf(r@),
    ensures
        out@ == spec_enc_reply(r@),
{
    let mut out: Vec<u8> = Vec::new();
    match r {
        NetReply::Empty => {
            out.push(7u8);
        },
        NetReply::Value { value } => match value {
            None => {
                out.push(8u8);
            },
            Some(v) => {
                out.push(9u8);
                push_field(&mut out, v);
            },
        },
        NetReply::Address { addr } => {
            out.push(10u8);
            push_field(&mut out, addr);
        },
    }
    proof {
        assert(out@ =~= spec_enc_reply(r@));
    }
    out
}

/// Parses one client command at `pos`, the executable [`dec_cmd_at`].
pub fn decode_cmd_at(b: &Vec<u8>, pos: usize) -> (r: Option<(ClientCommand, usize)>)
    ensures
        match r {
            Some((c, j)) => dec_cmd_at(b@, pos as int) == Some((c@, j as int)),
            None => dec_cmd_at(b@, pos as int) is None,
        },
{
    if pos >= b.len() {
        return None;
    }
    let tag = b[pos];
    if tag == 0 {
        match read_field(b, pos + 1) {
            Some((key, j)) => Some((ClientCommand::Get { key }, j)),
            None => None,
        }
    } else if tag == 1 {
        match read_field(b, pos + 1) {
            Some((key, j)) => match read_field(b, j) {
                Some((value, j2)) => Some((ClientCommand::Put { key, value }, j2)),
                None => None,
            },
            None => None,
        }
    } else {
        None
    }
}

/// Decodes a whole payload as one client command.
pub fn decode_cmd(b: &Vec<u8>) -> (r: Option<ClientCommand>)
    ensures
        match r {
            Some(c) => spec_dec_cmd(b@) == Some(c@),
            None => spec_dec_cmd(b@) is None,
        },
{
    match decode_cmd_at(b, 0) {
        Some((c, j)) => if j == b.len() {
            Some(c)
        } else {
            None
        },
        None => None,
    }
}

/// Decodes a whole payload as one peer message.
pub fn decode_msg(b: &Vec<u8>) -> (r: Option<Message>)
    ensures
        match r {
            Some(m) => spec_dec_msg(b@) == Some(m@),
            None => spec_dec_msg(b@) is None,
        },
{
    if b.len() == 0 {
        return None;
    }
    let tag = b[0];
    let parsed: Option<(Message, usize)> = if tag == 2 {
        match read_field(b, 1) {
            Some((backup_addr, j)) => Some((Message::Subscribe { backup_addr }, j)),
            None => None,
        }
    } else if tag == 3 {
        match read_field(b, 1) {
            Some((key, j)) => match read_field(b, j) {
                Some((value, j2)) => Some((Message::Replicate { key, value }, j2)),
                None => None,
            },
            None => None,
        }
    } else if tag == 4 {
        match decode_cmd_at(b, 1) {
            Some((cmd, j)) => Some((Message::Forward { cmd }, j)),
            None => None,
        }
    } else if tag == 5 {
        match read_field(b, 1) {
            Some((primary_addr, j)) => Some((Message::Heartbeat { primary_addr }, j)),
            None => None,
        }
    } else if tag == 6 {
        Some((Message::PrimaryAddress, 1))
    } else {
        None
    };
    match parsed {
        Some((m, j)) => if j == b.len() {
            Some(m)
        } else {
            None
        },
        None => None,
    }
}

/// Decodes a whole payload as one reply.
pub fn decode_reply(b: &Vec<u8>) -> (r: Option<NetReply>)
    ensures
        match r {
            Some(rep) => spec_dec_reply(b@) == Some(rep@),
            None => spec_dec_reply(b@) is None,
        },
{
    if b.len() == 0 {
        return None;
    }
    let tag = b[0];
    if tag == 7 {
        if b.len() == 1 {
            Some(NetReply::Empty)
        } else {
            None
        }
    } else if tag == 8 {
        if b.len() == 1 {
            Some(NetReply::Value { value: None })
        } else {
            None
        }
    } else if tag == 9 {
        match read_field(b, 1) {
            Some((v, j)) => if j == b.len() {
                Some(NetReply::Value { value: Some(v) })
            } else {
                None
            },
            None => None,
        }
    } else if tag == 10 {
        match read_field(b, 1) {
            Some((a, j)) => if j == b.len() {
                Some(NetReply::Address { addr: a })
            } else {
                None
            },
            None => None,
        }
    } else {
        None
    }
}

} // verus!

verus! {

/// One frame on the wire: the payload's length as a 32-bit big-endian
/// prefix, then the payload.
pub open spec fn spec_frame(p: Seq<u8>) -> Seq<u8> {
    spec_u32_be(p.len() as u32) + p
}

/// What taking one frame off the front of a stream buffer yields.
pub enum FrameStepModel {
    /// Too few bytes so far for a length prefix and a whole payload.
    Incomplete,
    /// The announced length exceeds [`MAX_FRAME_LEN`]: the connection is bad.
    TooLong,
    /// A whole frame: its payload, and the bytes that follow it.
    Frame(Seq<u8>, Seq<u8>),
}

/// Parses one frame off the front of `s`.
pub open spec fn spec_next_frame(s: Seq<u8>) -> FrameStepModel {
    match dec_u32(s, 0) {
        None => FrameStepModel::Incomplete,
        Some((n, j)) => if n > MAX_FRAME_LEN as u32 {
            FrameStepModel::TooLong
        } else if j + n <= s.len() {
            FrameStepModel::Frame(s.subrange(j, j + n), s.skip(j + n))
        } else {
            FrameStepModel::Incomplete
        },
    }
}

/// A whole frame followed by anything parses to its payload and the rest.
#[verifier::rlimit(100)]
#[verifier::spinoff_prover]
pub proof fn lemma_frame_round_trip(p: Seq<u8>, rest: Seq<u8>)
    requires
        p.len() <= MAX_FRAME_LEN,
    ensures
        spec_next_frame(spec_frame(p) + rest) == FrameStepModel::Frame(p, rest),
{
    let s = spec_frame(p) + rest;
    let n = p.len() as u32;
    assert(s =~= Seq::<u8>::empty() + spec_u32_be(n) + (p + rest));
    lemma_dec_u32_at(Seq::<u8>::empty(), n, p + rest);
    assert(dec_u32(s, 0) == Some((n, 4int)));
    assert(s.subrange(4, 4 + n as int) =~= p);
    assert(s.skip(4 + n as int) =~= rest);
}

/// Executable form of [`spec_next_frame`]'s three outcomes.
pub enum FrameStep {
    Incomplete,
    TooLong,
    Frame(Vec<u8>),
}

/// The receive half of a connection: bytes arrive in arbitrary chunks and
/// whole frames are taken off the front.
pub struct FrameBuffer {
    pub buf: Vec<u8>,
}

impl FrameBuffer {
    /// An empty buffer.
    pub fn new() -> (r: FrameBuffer)
        ensures
            r.buf@ == Seq::<u8>::empty(),
    {
        let r = FrameBuffer { buf: Vec::new() };
        proof {
            assert(r.buf@ =~= Seq::<u8>::empty());
        }
        r
    }

    /// Appends one chunk read from the connection.
    pub fn feed(&mut self, chunk: &Vec<u8>)
        ensures
            final(self).buf@ == old(self).buf@ + chunk@,
    {
        let n: usize = chunk.len();
        let mut i: usize = 0;
        while i < n
            invariant
                n == chunk@.len(),
                i <= n,
                self.buf@ == old(self).buf@ + chunk@.subrange(0, i as int),
            decreases n - i,
        {
            self.buf.push(chunk[i]);
            proof {
                assert(self.buf@ =~= old(self).buf@ + chunk@.subrange(0, i + 1));
            }
            i = i + 1;
        }
        proof {
            assert(chunk@.subrange(0, n as int) =~= chunk@);
            assert(self.buf@ =~= old(self).buf@ + chunk@);
        }
    }

    /// Takes one frame off the front, exactly as [`spec_next_frame`] says.
    pub fn next_frame(&mut self) -> (r: FrameStep)
        ensures
            match r {
                FrameStep::Incomplete => *final(self) == *old(self) && spec_next_frame(
                    old(self).buf@,
                ) is Incomplete,
                FrameStep::TooLong => *final(self) == *old(self) && spec_next_frame(
                    old(self).buf@,
                ) is TooLong,
                FrameStep::Frame(p) => spec_next_frame(old(self).buf@) == FrameStepModel::Frame(
                    p@,
                    final(self).buf@,
                ),
            },
    {
        match read_u32(&self.buf, 0) {
            None => FrameStep::Incomplete,
            Some((n, j)) => {
                if n > MAX_FRAME_LEN as u32 {
                    FrameStep::TooLong
                } else if (n as usize) <= self.buf.len() && j <= self.buf.len() - (n as usize) {
                    let end: usize = j + (n as usize);
                    let p = copy_range(&self.buf, j, n as usize);
                    let tail = copy_range(&self.buf, end, self.buf.len() - end);
                    self.buf = tail;
                    proof {
                        assert(self.buf@ =~= old(self).buf@.skip(j + n as int));
                    }
                    FrameStep::Frame(p)
                } else {
                    FrameStep::Incomplete
                }
            },
        }
    }
}

/// Wraps a payload in one frame.
pub fn encode_frame(payload: &Vec<u8>) -> (r: Vec<u8>)
    requires
        payload@.len() <= MAX_FRAME_LEN,
    ensures
        r@ == spec_frame(payload@),
{
    let mut out: Vec<u8> = Vec::new();
    push_u32(&mut out, payload.len() as u32);
    let ghost mid = out@;
    let n: usize = payload.len();
    let mut i: usize = 0;
    while i < n
        invariant
            n == payload@.len(),
            i <= n,
            out@ == mid + payload@.subrange(0, i as int),
        decreases n - i,
    {
        out.push(payload[i]);
        proof {
            assert(out@ =~= mid + payload@.subrange(0, i + 1));
        }
        i = i + 1;
    }
    proof {
        assert(payload@.subrange(0, n as int) =~= payload@);
        assert(out@ =~= spec_frame(payload@));
    }
    out
}

} // verus!

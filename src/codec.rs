//! The wire format of peer messages: integers as eight little-endian bytes,
//! byte strings and lists behind their length, one tag byte per kind.

use vstd::prelude::*;
use vstd::bytes::{
    lemma_auto_spec_u64_to_from_le_bytes, spec_u64_to_le_bytes, u64_from_le_bytes, u64_to_le_bytes,
};
use vstd::slice::{slice_subrange, slice_to_vec};
use crate::message::{
    ids_view, msgs_view, BlockView, InfoView, MsgView, NetworkChangeView, PbftBlock,
    PbftMessage, PbftMessageInfo, PbftMessageType, PbftNetworkChange, PbftViewChange,
    PeerMessage, PeerMessageView, ViewChangeView,
};

verus! {

pub open spec fn enc_u64(x: u64) -> Seq<u8> {
    spec_u64_to_le_bytes(x)
}

pub open spec fn enc_bytes(b: Seq<u8>) -> Seq<u8> {
    enc_u64(b.len() as u64) + b
}

pub open spec fn type_tag(t: PbftMessageType) -> u8 {
    match t {
        PbftMessageType::PrePrepare => 0,
        PbftMessageType::Prepare => 1,
        PbftMessageType::Commit => 2,
        PbftMessageType::ViewChange => 3,
        PbftMessageType::NetworkChange => 4,
    }
}

pub open spec fn enc_info(i: InfoView) -> Seq<u8> {
    seq![type_tag(i.msg_type)] + enc_u64(i.view) + enc_u64(i.seq_num) + enc_bytes(i.signer_id)
}

pub open spec fn enc_block(b: BlockView) -> Seq<u8> {
    enc_bytes(b.block_id) + enc_u64(b.block_num) + enc_bytes(b.signer_id) + enc_bytes(
        b.previous_id,
    ) + enc_bytes(b.summary)
}

pub open spec fn enc_msg(m: MsgView) -> Seq<u8> {
    enc_info(m.info) + enc_block(m.block)
}

pub open spec fn enc_msgs(s: Seq<MsgView>) -> Seq<u8>
    decreases s.len(),
{
    if s.len() == 0 {
        Seq::empty()
    } else {
        enc_msgs(s.drop_last()) + enc_msg(s.last())
    }
}

pub open spec fn enc_ids(s: Seq<Seq<u8>>) -> Seq<u8>
    decreases s.len(),
{
    if s.len() == 0 {
        Seq::empty()
    } else {
        enc_ids(s.drop_last()) + enc_bytes(s.last())
    }
}

pub open spec fn enc_view_change(v: ViewChangeView) -> Seq<u8> {
    enc_info(v.info) + enc_u64(v.checkpoint_messages.len() as u64) + enc_msgs(
        v.checkpoint_messages,
    )
}

pub open spec fn enc_network_change(v: NetworkChangeView) -> Seq<u8> {
    enc_info(v.info) + enc_u64(v.peers.len() as u64) + enc_ids(v.peers) + enc_block(v.head)
        + seq![if v.tentative { 1u8 } else { 0u8 }] + enc_bytes(v.signer_id)
}

/// The encoding of a peer message.
pub open spec fn enc_peer_message(m: PeerMessageView) -> Seq<u8> {
    match m {
        PeerMessageView::Pbft(v) => seq![0u8] + enc_msg(v),
        PeerMessageView::ViewChange(v) => seq![1u8] + enc_view_change(v),
        PeerMessageView::NetworkChange(v) => seq![2u8] + enc_network_change(v),
    }
}

fn put_bytes(out: &mut Vec<u8>, b: &Vec<u8>)
    ensures
        final(out)@ == old(out)@ + b@,
{
    let ghost o = out@;
    let mut i: usize = 0;
    while i < b.len()
        invariant
            i <= b@.len(),
            out@ == o + b@.subrange(0, i as int),
        decreases b@.len() - i,
    {
        out.push(b[i]);
        assert(b@.subrange(0, i + 1) =~= b@.subrange(0, i as int).push(b@[i as int]));
        assert(out@ =~= o + b@.subrange(0, i + 1));
        i = i + 1;
    }
    assert(b@.subrange(0, i as int) =~= b@);
}

fn put_u64(out: &mut Vec<u8>, x: u64)
    ensures
        final(out)@ == old(out)@ + enc_u64(x),
{
    let b = u64_to_le_bytes(x);
    put_bytes(out, &b);
}

fn put_len_bytes(out: &mut Vec<u8>, b: &Vec<u8>)
    ensures
        final(out)@ == old(out)@ + enc_bytes(b@),
{
    let ghost o = out@;
    put_u64(out, b.len() as u64);
    put_bytes(out, b);
    assert(out@ =~= o + enc_bytes(b@));
}

fn put_info(out: &mut Vec<u8>, i: &PbftMessageInfo)
    ensures
        final(out)@ == old(out)@ + enc_info(i@),
{
    let ghost o = out@;
    let tag: u8 = match i.msg_type {
        PbftMessageType::PrePrepare => 0,
        PbftMessageType::Prepare => 1,
        PbftMessageType::Commit => 2,
        PbftMessageType::ViewChange => 3,
        PbftMessageType::NetworkChange => 4,
    };
    out.push(tag);
    put_u64(out, i.view);
    put_u64(out, i.seq_num);
    put_len_bytes(out, &i.signer_id);
    assert(out@ =~= o + enc_info(i@));
}

fn put_block(out: &mut Vec<u8>, b: &PbftBlock)
    ensures
        final(out)@ == old(out)@ + enc_block(b@),
{
    let ghost o = out@;
    put_len_bytes(out, &b.block_id);
    put_u64(out, b.block_num);
    put_len_bytes(out, &b.signer_id);
    put_len_bytes(out, &b.previous_id);
    put_len_bytes(out, &b.summary);
    assert(out@ =~= o + enc_block(b@));
}

fn put_msg(out: &mut Vec<u8>, m: &PbftMessage)
    ensures
        final(out)@ == old(out)@ + enc_msg(m@),
{
    let ghost o = out@;
    put_info(out, &m.info);
    put_block(out, &m.block);
    assert(out@ =~= o + enc_msg(m@));
}

/// Encodes a peer message for the wire.
pub fn encode(m: &PeerMessage) -> (r: Vec<u8>)
    ensures
        r@ == enc_peer_message(m@),
{
    let mut out: Vec<u8> = Vec::new();
    match m {
        PeerMessage::Pbft(v) => {
            out.push(0);
            put_msg(&mut out, v);
            assert(out@ =~= enc_peer_message(m@));
        },
        PeerMessage::ViewChange(v) => {
            out.push(1);
            put_info(&mut out, &v.info);
            put_u64(&mut out, v.checkpoint_messages.len() as u64);
            let ghost o = out@;
            let mut i: usize = 0;
            while i < v.checkpoint_messages.len()
                invariant
                    i <= v.checkpoint_messages@.len(),
                    out@ == o + enc_msgs(msgs_view(v.checkpoint_messages@).subrange(0, i as int)),
                decreases v.checkpoint_messages@.len() - i,
            {
                let ghost s = msgs_view(v.checkpoint_messages@);
                assert(s.subrange(0, i + 1).drop_last() =~= s.subrange(0, i as int));
                put_msg(&mut out, &v.checkpoint_messages[i]);
                assert(out@ =~= o + enc_msgs(s.subrange(0, i + 1)));
                i = i + 1;
            }
            assert(msgs_view(v.checkpoint_messages@).subrange(0, i as int) =~= msgs_view(
                v.checkpoint_messages@,
            ));
            assert(out@ =~= enc_peer_message(m@));
        },
        PeerMessage::NetworkChange(v) => {
            out.push(2);
            put_info(&mut out, &v.info);
            put_u64(&mut out, v.peers.len() as u64);
            let ghost o = out@;
            let mut i: usize = 0;
            while i < v.peers.len()
                invariant
                    i <= v.peers@.len(),
                    out@ == o + enc_ids(ids_view(v.peers@).subrange(0, i as int)),
                decreases v.peers@.len() - i,
            {
                let ghost s = ids_view(v.peers@);
                assert(s.subrange(0, i + 1).drop_last() =~= s.subrange(0, i as int));
                put_len_bytes(&mut out, &v.peers[i]);
                assert(out@ =~= o + enc_ids(s.subrange(0, i + 1)));
                i = i + 1;
            }
            assert(ids_view(v.peers@).subrange(0, i as int) =~= ids_view(v.peers@));
            put_block(&mut out, &v.head);
            out.push(if v.tentative { 1u8 } else { 0u8 });
            put_len_bytes(&mut out, &v.signer_id);
            assert(out@ =~= enc_peer_message(m@));
        },
    }
    out
}

/// `buf[a..c]` is `buf[a..b]` followed by `buf[b..c]`.
proof fn lemma_split(buf: Seq<u8>, a: int, b: int, c: int)
    requires
        0 <= a <= b <= c <= buf.len(),
    ensures
        buf.subrange(a, c) == buf.subrange(a, b) + buf.subrange(b, c),
{
    assert(buf.subrange(a, c) =~= buf.subrange(a, b) + buf.subrange(b, c));
}

/// `e` stands in `buf` from `pos` on.
pub open spec fn starts_with(buf: Seq<u8>, pos: int, e: Seq<u8>) -> bool {
    0 <= pos && pos + e.len() <= buf.len() && buf.subrange(pos, pos + e.len()) == e
}

proof fn lemma_starts_concat(buf: Seq<u8>, pos: int, a: Seq<u8>, b: Seq<u8>)
    requires
        starts_with(buf, pos, a + b),
    ensures
        starts_with(buf, pos, a),
        starts_with(buf, pos + a.len(), b),
{
    assert(buf.subrange(pos, pos + a.len()) =~= (a + b).subrange(0, a.len() as int));
    assert(buf.subrange(pos + a.len(), pos + a.len() + b.len()) =~= (a + b).subrange(
        a.len() as int,
        (a.len() + b.len()) as int,
    ));
    assert((a + b).subrange(0, a.len() as int) =~= a);
    assert((a + b).subrange(a.len() as int, (a.len() + b.len()) as int) =~= b);
}

fn get_u64(buf: &Vec<u8>, pos: usize, Ghost(hint): Ghost<Option<u64>>) -> (r: Option<(u64, usize)>)
    requires
        pos <= buf@.len(),
    ensures
        r matches Some((x, p)) ==> pos <= p <= buf@.len() && buf@.subrange(pos as int, p as int)
            == enc_u64(x),
        hint is Some && starts_with(buf@, pos as int, enc_u64(hint->0)) ==> r == Some((hint->0, (pos + 8) as usize)),
{
    proof {
        lemma_auto_spec_u64_to_from_le_bytes();
    }
    if buf.len() - pos < 8 {
        return None;
    }
    let s = slice_subrange(buf.as_slice(), pos, pos + 8);
    let x = u64_from_le_bytes(s);
    Some((x, pos + 8))
}

fn get_bytes(buf: &Vec<u8>, pos: usize, Ghost(hint): Ghost<Option<Seq<u8>>>) -> (r: Option<(Vec<u8>, usize)>)
    requires
        pos <= buf@.len(),
    ensures
        r matches Some((b, p)) ==> pos <= p <= buf@.len() && buf@.subrange(pos as int, p as int)
            == enc_bytes(b@),
        hint is Some && starts_with(buf@, pos as int, enc_bytes(hint->0)) ==> (r matches Some((
            b,
            p,
        )) && b@ == hint->0 && p == pos + enc_bytes(hint->0).len()),
{
    proof {
        lemma_auto_spec_u64_to_from_le_bytes();
        if hint is Some {
            let v = hint->0;
            if starts_with(buf@, pos as int, enc_bytes(v)) {
                lemma_starts_concat(buf@, pos as int, enc_u64(v.len() as u64), v);
            }
        }
    }
    let (n, p) = match get_u64(buf, pos, Ghost(match hint { Some(v) => Some(v.len() as u64), None => None })) {
        Some(v) => v,
        None => {
            return None;
        },
    };
    if n > (buf.len() - p) as u64 {
        return None;
    }
    let end = p + n as usize;
    let b = slice_to_vec(slice_subrange(buf.as_slice(), p, end));
    proof {
        lemma_split(buf@, pos as int, p as int, end as int);
    }
    Some((b, end))
}

fn get_info(buf: &Vec<u8>, pos: usize, Ghost(hint): Ghost<Option<InfoView>>) -> (r: Option<(PbftMessageInfo, usize)>)
    requires
        pos <= buf@.len(),
    ensures
        r matches Some((i, p)) ==> pos <= p <= buf@.len() && buf@.subrange(pos as int, p as int)
            == enc_info(i@),
        hint is Some && starts_with(buf@, pos as int, enc_info(hint->0)) ==> (r matches Some((
            i,
            p,
        )) && i@ == hint->0 && p == pos + enc_info(hint->0).len()),
{
    let ghost h = hint->0;
    let ghost on = hint is Some && starts_with(buf@, pos as int, enc_info(h));
    proof {
        lemma_auto_spec_u64_to_from_le_bytes();
        if on {
            let e0 = seq![type_tag(h.msg_type)];
            let e1 = enc_u64(h.view);
            let e2 = enc_u64(h.seq_num);
            let e3 = enc_bytes(h.signer_id);
            assert(enc_info(h) == e0 + e1 + e2 + e3);
            lemma_starts_concat(buf@, pos as int, e0 + e1 + e2, e3);
            lemma_starts_concat(buf@, pos as int, e0 + e1, e2);
            lemma_starts_concat(buf@, pos as int, e0, e1);
            assert(buf@[pos as int] == buf@.subrange(pos as int, pos + 1)[0]);
        }
    }
    if pos >= buf.len() {
        return None;
    }
    let msg_type = match buf[pos] {
        0 => PbftMessageType::PrePrepare,
        1 => PbftMessageType::Prepare,
        2 => PbftMessageType::Commit,
        3 => PbftMessageType::ViewChange,
        4 => PbftMessageType::NetworkChange,
        _ => {
            return None;
        },
    };
    let at0 = pos + 1;
    let (view, at1) = match get_u64(buf, at0, Ghost(if on { Some(h.view) } else { None })) {
        Some(v) => v,
        None => {
            return None;
        },
    };
    let (seq_num, at2) = match get_u64(buf, at1, Ghost(if on { Some(h.seq_num) } else { None })) {
        Some(v) => v,
        None => {
            return None;
        },
    };
    let (signer_id, at3) = match get_bytes(buf, at2, Ghost(if on { Some(h.signer_id) } else { None })) {
        Some(v) => v,
        None => {
            return None;
        },
    };
    let info = PbftMessageInfo { msg_type, view, seq_num, signer_id };
    proof {
        lemma_split(buf@, pos as int, at0 as int, at1 as int);
        lemma_split(buf@, pos as int, at1 as int, at2 as int);
        lemma_split(buf@, pos as int, at2 as int, at3 as int);
        assert(buf@.subrange(pos as int, at0 as int) =~= seq![type_tag(msg_type)]);
        assert(buf@.subrange(pos as int, at3 as int) =~= enc_info(info@));
    }
    Some((info, at3))
}

fn get_block(buf: &Vec<u8>, pos: usize, Ghost(hint): Ghost<Option<BlockView>>) -> (r: Option<(PbftBlock, usize)>)
    requires
        pos <= buf@.len(),
    ensures
        r matches Some((b, p)) ==> pos <= p <= buf@.len() && buf@.subrange(pos as int, p as int)
            == enc_block(b@),
        hint is Some && starts_with(buf@, pos as int, enc_block(hint->0)) ==> (r matches Some((
            b,
            p,
        )) && b@ == hint->0 && p == pos + enc_block(hint->0).len()),
{
    let ghost h = hint->0;
    let ghost on = hint is Some && starts_with(buf@, pos as int, enc_block(h));
    proof {
        lemma_auto_spec_u64_to_from_le_bytes();
        if on {
            let e1 = enc_bytes(h.block_id);
            let e2 = enc_u64(h.block_num);
            let e3 = enc_bytes(h.signer_id);
            let e4 = enc_bytes(h.previous_id);
            let e5 = enc_bytes(h.summary);
            lemma_starts_concat(buf@, pos as int, e1 + e2 + e3 + e4, e5);
            lemma_starts_concat(buf@, pos as int, e1 + e2 + e3, e4);
            lemma_starts_concat(buf@, pos as int, e1 + e2, e3);
            lemma_starts_concat(buf@, pos as int, e1, e2);
        }
    }
    let (block_id, at1) = match get_bytes(buf, pos, Ghost(if on { Some(h.block_id) } else { None })) {
        Some(v) => v,
        None => {
            return None;
        },
    };
    let (block_num, at2) = match get_u64(buf, at1, Ghost(if on { Some(h.block_num) } else { None })) {
        Some(v) => v,
        None => {
            return None;
        },
    };
    let (signer_id, at3) = match get_bytes(buf, at2, Ghost(if on { Some(h.signer_id) } else { None })) {
        Some(v) => v,
        None => {
            return None;
        },
    };
    let (previous_id, at4) = match get_bytes(buf, at3, Ghost(if on { Some(h.previous_id) } else { None })) {
        Some(v) => v,
        None => {
            return None;
        },
    };
    let (summary, at5) = match get_bytes(buf, at4, Ghost(if on { Some(h.summary) } else { None })) {
        Some(v) => v,
        None => {
            return None;
        },
    };
    let b = PbftBlock { block_id, block_num, signer_id, previous_id, summary };
    proof {
        lemma_split(buf@, pos as int, at1 as int, at2 as int);
        lemma_split(buf@, pos as int, at2 as int, at3 as int);
        lemma_split(buf@, pos as int, at3 as int, at4 as int);
        lemma_split(buf@, pos as int, at4 as int, at5 as int);
        assert(buf@.subrange(pos as int, at5 as int) =~= enc_block(b@));
    }
    Some((b, at5))
}

fn get_msg(buf: &Vec<u8>, pos: usize, Ghost(hint): Ghost<Option<MsgView>>) -> (r: Option<(PbftMessage, usize)>)
    requires
        pos <= buf@.len(),
    ensures
        r matches Some((m, p)) ==> pos <= p <= buf@.len() && buf@.subrange(pos as int, p as int)
            == enc_msg(m@),
        hint is Some && starts_with(buf@, pos as int, enc_msg(hint->0)) ==> (r matches Some((
            m,
            p,
        )) && m@ == hint->0 && p == pos + enc_msg(hint->0).len()),
{
    let ghost h = hint->0;
    let ghost on = hint is Some && starts_with(buf@, pos as int, enc_msg(h));
    proof {
        if on {
            lemma_starts_concat(buf@, pos as int, enc_info(h.info), enc_block(h.block));
        }
    }
    let (info, at1) = match get_info(buf, pos, Ghost(if on { Some(h.info) } else { None })) {
        Some(v) => v,
        None => {
            return None;
        },
    };
    let (block, at2) = match get_block(buf, at1, Ghost(if on { Some(h.block) } else { None })) {
        Some(v) => v,
        None => {
            return None;
        },
    };
    proof {
        lemma_split(buf@, pos as int, at1 as int, at2 as int);
    }
    Some((PbftMessage { info, block }, at2))
}

proof fn lemma_enc_msgs_append(a: Seq<MsgView>, b: Seq<MsgView>)
    ensures
        enc_msgs(a + b) == enc_msgs(a) + enc_msgs(b),
    decreases b.len(),
{
    if b.len() == 0 {
        assert(a + b =~= a);
        assert(enc_msgs(a) + enc_msgs(b) =~= enc_msgs(a));
    } else {
        assert((a + b).drop_last() =~= a + b.drop_last());
        lemma_enc_msgs_append(a, b.drop_last());
        assert(enc_msgs(a + b) =~= enc_msgs(a) + enc_msgs(b));
    }
}

proof fn lemma_enc_msgs_len(s: Seq<MsgView>)
    ensures
        enc_msgs(s).len() >= s.len(),
    decreases s.len(),
{
    if s.len() > 0 {
        lemma_enc_msgs_len(s.drop_last());
    }
}

proof fn lemma_enc_ids_append(a: Seq<Seq<u8>>, b: Seq<Seq<u8>>)
    ensures
        enc_ids(a + b) == enc_ids(a) + enc_ids(b),
    decreases b.len(),
{
    if b.len() == 0 {
        assert(a + b =~= a);
        assert(enc_ids(a) + enc_ids(b) =~= enc_ids(a));
    } else {
        assert((a + b).drop_last() =~= a + b.drop_last());
        lemma_enc_ids_append(a, b.drop_last());
        assert(enc_ids(a + b) =~= enc_ids(a) + enc_ids(b));
    }
}

proof fn lemma_enc_ids_len(s: Seq<Seq<u8>>)
    ensures
        enc_ids(s).len() >= 8 * s.len(),
    decreases s.len(),
{
    lemma_auto_spec_u64_to_from_le_bytes();
    if s.len() > 0 {
        lemma_enc_ids_len(s.drop_last());
    }
}

fn get_view_change(buf: &Vec<u8>, pos: usize, Ghost(hint): Ghost<Option<ViewChangeView>>) -> (r: Option<(PbftViewChange, usize)>)
    requires
        pos <= buf@.len(),
    ensures
        r matches Some((v, p)) ==> pos <= p <= buf@.len() && buf@.subrange(pos as int, p as int)
            == enc_view_change(v@),
        hint is Some && starts_with(buf@, pos as int, enc_view_change(hint->0)) ==> (r matches Some((
            v,
            p,
        )) && v@ == hint->0 && p == pos + enc_view_change(hint->0).len()),
{
    let ghost h = hint->0;
    let ghost on = hint is Some && starts_with(buf@, pos as int, enc_view_change(h));
    let ghost list = h.checkpoint_messages;
    let blen = buf.len();
    proof {
        lemma_auto_spec_u64_to_from_le_bytes();
        if on {
            let e1 = enc_info(h.info);
            let e2 = enc_u64(list.len() as u64);
            let e3 = enc_msgs(list);
            lemma_starts_concat(buf@, pos as int, e1 + e2, e3);
            lemma_starts_concat(buf@, pos as int, e1, e2);
            lemma_enc_msgs_len(list);
            assert(list.len() <= blen);
        }
    }
    let (info, at1) = match get_info(buf, pos, Ghost(if on { Some(h.info) } else { None })) {
        Some(v) => v,
        None => {
            return None;
        },
    };
    let (n, at2) = match get_u64(buf, at1, Ghost(if on { Some(list.len() as u64) } else { None })) {
        Some(v) => v,
        None => {
            return None;
        },
    };
    let mut msgs: Vec<PbftMessage> = Vec::new();
    assert(msgs_view(msgs@) =~= list.subrange(0, 0));
    let mut p = at2;
    let mut k: u64 = 0;
    while k < n
        invariant
            at2 <= p <= buf@.len(),
            k <= n,
            msgs@.len() == k,
            buf@.subrange(at2 as int, p as int) == enc_msgs(msgs_view(msgs@)),
            h == hint->0,
            list == h.checkpoint_messages,
            on == (hint is Some && starts_with(buf@, pos as int, enc_view_change(h))),
            on ==> at2 == pos + enc_info(h.info).len() + 8,
            on ==> n == list.len() && starts_with(buf@, at2 as int, enc_msgs(list)) && msgs_view(
                msgs@,
            ) == list.subrange(0, k as int),
        decreases n - k,
    {
        let ghost item = list[k as int];
        proof {
            if on {
                let front = list.subrange(0, k as int);
                let back = list.subrange(k + 1, list.len() as int);
                assert(list =~= front + seq![item] + back);
                lemma_enc_msgs_append(front + seq![item], back);
                lemma_enc_msgs_append(front, seq![item]);
                assert(seq![item].drop_last() =~= Seq::<MsgView>::empty());
                assert(enc_msgs(Seq::<MsgView>::empty()) == Seq::<u8>::empty());
                assert(enc_msgs(seq![item]) =~= enc_msg(item));
                lemma_starts_concat(buf@, at2 as int, enc_msgs(front) + enc_msg(item), enc_msgs(back));
                lemma_starts_concat(buf@, at2 as int, enc_msgs(front), enc_msg(item));
            }
        }
        let (m, q) = match get_msg(buf, p, Ghost(if on { Some(item) } else { None })) {
            Some(v) => v,
            None => {
                return None;
            },
        };
        let ghost before = msgs_view(msgs@);
        let ghost mv = m@;
        msgs.push(m);
        proof {
            lemma_split(buf@, at2 as int, p as int, q as int);
            assert(msgs_view(msgs@) =~= before.push(mv));
            assert(msgs_view(msgs@).drop_last() =~= before);
            if on {
                assert(list.subrange(0, k + 1) =~= list.subrange(0, k as int).push(item));
            }
        }
        p = q;
        k = k + 1;
    }
    let v = PbftViewChange { info, checkpoint_messages: msgs };
    proof {
        lemma_split(buf@, pos as int, at1 as int, at2 as int);
        lemma_split(buf@, pos as int, at2 as int, p as int);
        assert(buf@.subrange(pos as int, p as int) =~= enc_view_change(v@));
        if on {
            assert(list.subrange(0, k as int) =~= list);
        }
    }
    Some((v, p))
}

fn get_ids(buf: &Vec<u8>, pos: usize, n: u64, Ghost(hint): Ghost<Option<Seq<Seq<u8>>>>) -> (r: Option<(Vec<Vec<u8>>, usize)>)
    requires
        pos <= buf@.len(),
    ensures
        r matches Some((v, p)) ==> pos <= p <= buf@.len() && buf@.subrange(pos as int, p as int)
            == enc_ids(ids_view(v@)) && v@.len() == n,
        hint is Some && hint->0.len() == n && starts_with(buf@, pos as int, enc_ids(hint->0)) ==> (r matches Some((
            v,
            p,
        )) && ids_view(v@) == hint->0 && p == pos + enc_ids(hint->0).len()),
{
    let ghost list = hint->0;
    let ghost on = hint is Some && list.len() == n && starts_with(buf@, pos as int, enc_ids(list));
    let mut peers: Vec<Vec<u8>> = Vec::new();
    assert(ids_view(peers@) =~= list.subrange(0, 0));
    let mut p = pos;
    let mut k: u64 = 0;
    while k < n
        invariant
            pos <= p <= buf@.len(),
            k <= n,
            peers@.len() == k,
            buf@.subrange(pos as int, p as int) == enc_ids(ids_view(peers@)),
            list == hint->0,
            on == (hint is Some && list.len() == n && starts_with(buf@, pos as int, enc_ids(list))),
            on ==> ids_view(peers@) == list.subrange(0, k as int),
        decreases n - k,
    {
        let ghost item = list[k as int];
        proof {
            if on {
                let front = list.subrange(0, k as int);
                let back = list.subrange(k + 1, list.len() as int);
                assert(list =~= front + seq![item] + back);
                lemma_enc_ids_append(front + seq![item], back);
                lemma_enc_ids_append(front, seq![item]);
                assert(seq![item].drop_last() =~= Seq::<Seq<u8>>::empty());
                assert(enc_ids(Seq::<Seq<u8>>::empty()) == Seq::<u8>::empty());
                assert(enc_ids(seq![item]) =~= enc_bytes(item));
                lemma_starts_concat(buf@, pos as int, enc_ids(front) + enc_bytes(item), enc_ids(back));
                lemma_starts_concat(buf@, pos as int, enc_ids(front), enc_bytes(item));
            }
        }
        let (id, q) = match get_bytes(buf, p, Ghost(if on { Some(item) } else { None })) {
            Some(v) => v,
            None => {
                return None;
            },
        };
        let ghost before = ids_view(peers@);
        let ghost iv = id@;
        peers.push(id);
        proof {
            lemma_split(buf@, pos as int, p as int, q as int);
            assert(ids_view(peers@) =~= before.push(iv));
            assert(ids_view(peers@).drop_last() =~= before);
            if on {
                assert(list.subrange(0, k + 1) =~= list.subrange(0, k as int).push(item));
            }
        }
        p = q;
        k = k + 1;
    }
    proof {
        if on {
            assert(list.subrange(0, k as int) =~= list);
        }
    }
    Some((peers, p))
}

proof fn lemma_nc_parts(buf: Seq<u8>, pos: int, h: NetworkChangeView)
    requires
        starts_with(buf, pos, enc_network_change(h)),
    ensures
        starts_with(buf, pos, enc_info(h.info)),
        starts_with(buf, pos + enc_info(h.info).len(), enc_u64(h.peers.len() as u64)),
        starts_with(buf, pos + enc_info(h.info).len() + 8, enc_ids(h.peers)),
        starts_with(buf, pos + enc_info(h.info).len() + 8 + enc_ids(h.peers).len(), enc_block(h.head)),
        starts_with(buf, pos + enc_info(h.info).len() + 8 + enc_ids(h.peers).len() + enc_block(h.head).len(), seq![if h.tentative { 1u8 } else { 0u8 }]),
        starts_with(buf, pos + enc_info(h.info).len() + 8 + enc_ids(h.peers).len() + enc_block(h.head).len() + 1, enc_bytes(h.signer_id)),
{
    lemma_auto_spec_u64_to_from_le_bytes();
    let e1 = enc_info(h.info);
    let e2 = enc_u64(h.peers.len() as u64);
    let e3 = enc_ids(h.peers);
    let e4 = enc_block(h.head);
    let e5 = seq![if h.tentative { 1u8 } else { 0u8 }];
    let e6 = enc_bytes(h.signer_id);
    assert(enc_network_change(h) == e1 + e2 + e3 + e4 + e5 + e6);
    lemma_starts_concat(buf, pos, e1 + e2 + e3 + e4 + e5, e6);
    lemma_starts_concat(buf, pos, e1 + e2 + e3 + e4, e5);
    lemma_starts_concat(buf, pos, e1 + e2 + e3, e4);
    lemma_starts_concat(buf, pos, e1 + e2, e3);
    lemma_starts_concat(buf, pos, e1, e2);
}

proof fn lemma_nc_assemble(buf: Seq<u8>, pos: int, at1: int, at2: int, at3: int, at4: int, at5: int, at6: int, v: NetworkChangeView)
    requires
        0 <= pos <= at1 <= at2 <= at3 <= at4 <= at5 <= at6 <= buf.len(),
        buf.subrange(pos, at1) == enc_info(v.info),
        buf.subrange(at1, at2) == enc_u64(v.peers.len() as u64),
        buf.subrange(at2, at3) == enc_ids(v.peers),
        buf.subrange(at3, at4) == enc_block(v.head),
        buf.subrange(at4, at5) == seq![if v.tentative { 1u8 } else { 0u8 }],
        buf.subrange(at5, at6) == enc_bytes(v.signer_id),
    ensures
        buf.subrange(pos, at6) == enc_network_change(v),
{
    lemma_split(buf, pos, at1, at2);
    lemma_split(buf, pos, at2, at3);
    lemma_split(buf, pos, at3, at4);
    lemma_split(buf, pos, at4, at5);
    lemma_split(buf, pos, at5, at6);
    assert(buf.subrange(pos, at6) =~= enc_network_change(v));
}

fn get_network_change(buf: &Vec<u8>, pos: usize, Ghost(hint): Ghost<Option<NetworkChangeView>>) -> (r: Option<(PbftNetworkChange, usize)>)
    requires
        pos <= buf@.len(),
    ensures
        r matches Some((v, p)) ==> pos <= p <= buf@.len() && buf@.subrange(pos as int, p as int)
            == enc_network_change(v@),
        hint is Some && starts_with(buf@, pos as int, enc_network_change(hint->0)) ==> (r matches Some((
            v,
            p,
        )) && v@ == hint->0 && p == pos + enc_network_change(hint->0).len()),
{
    let ghost h = hint->0;
    let ghost on = hint is Some && starts_with(buf@, pos as int, enc_network_change(h));
    let ghost list = h.peers;
    let blen = buf.len();
    proof {
        lemma_auto_spec_u64_to_from_le_bytes();
        if on {
            lemma_nc_parts(buf@, pos as int, h);
            lemma_enc_ids_len(list);
            assert(list.len() <= blen);
        }
    }
    let (info, at1) = match get_info(buf, pos, Ghost(if on { Some(h.info) } else { None })) {
        Some(v) => v,
        None => {
            return None;
        },
    };
    let (n, at2) = match get_u64(buf, at1, Ghost(if on { Some(list.len() as u64) } else { None })) {
        Some(v) => v,
        None => {
            return None;
        },
    };
    let (peers, at3) = match get_ids(buf, at2, n, Ghost(if on { Some(list) } else { None })) {
        Some(v) => v,
        None => {
            return None;
        },
    };
    let (head, at4) = match get_block(buf, at3, Ghost(if on { Some(h.head) } else { None })) {
        Some(v) => v,
        None => {
            return None;
        },
    };
    if at4 >= buf.len() {
        return None;
    }
    proof {
        if on {
            assert(buf@[at4 as int] == buf@.subrange(at4 as int, at4 + 1)[0]);
        }
    }
    let tentative = match buf[at4] {
        0 => false,
        1 => true,
        _ => {
            return None;
        },
    };
    let at5 = at4 + 1;
    let (signer_id, at6) = match get_bytes(buf, at5, Ghost(if on { Some(h.signer_id) } else { None })) {
        Some(v) => v,
        None => {
            return None;
        },
    };
    let v = PbftNetworkChange { info, peers, head, tentative, signer_id };
    proof {
        assert(buf@.subrange(at4 as int, at5 as int) =~= seq![if tentative { 1u8 } else { 0u8 }]);
        lemma_nc_assemble(buf@, pos as int, at1 as int, at2 as int, at3 as int, at4 as int, at5 as int, at6 as int, v@);
    }
    Some((v, at6))
}

/// Decodes a peer message from the wire: it succeeds exactly on the
/// encodings of peer messages, and what it returns encodes back to exactly
/// the bytes given.
pub fn decode(buf: &Vec<u8>) -> (r: Option<PeerMessage>)
    ensures
        r matches Some(m) ==> enc_peer_message(m@) == buf@,
        (exists|v: PeerMessageView| enc_peer_message(v) == buf@) ==> r is Some,
{
    let ghost on = exists|v: PeerMessageView| enc_peer_message(v) == buf@;
    let ghost h = choose|v: PeerMessageView| enc_peer_message(v) == buf@;
    let ghost body = match h {
        PeerMessageView::Pbft(v) => enc_msg(v),
        PeerMessageView::ViewChange(v) => enc_view_change(v),
        PeerMessageView::NetworkChange(v) => enc_network_change(v),
    };
    let ghost tag: u8 = match h {
        PeerMessageView::Pbft(_) => 0,
        PeerMessageView::ViewChange(_) => 1,
        PeerMessageView::NetworkChange(_) => 2,
    };
    proof {
        if on {
            assert(enc_peer_message(h) == seq![tag] + body);
            assert(buf@ == seq![tag] + body);
            assert(buf@.subrange(0, buf@.len() as int) =~= buf@);
            lemma_starts_concat(buf@, 0, seq![tag], body);
            assert(buf@[0] == tag);
            assert(buf@.len() == 1 + body.len());
        }
    }
    if buf.len() == 0 {
        return None;
    }
    let (m, p) = match buf[0] {
        0 => match get_msg(buf, 1, Ghost(if on { Some(h->Pbft_0) } else { None })) {
            Some((v, p)) => (PeerMessage::Pbft(v), p),
            None => {
                return None;
            },
        },
        1 => match get_view_change(buf, 1, Ghost(if on { Some(h->ViewChange_0) } else { None })) {
            Some((v, p)) => (PeerMessage::ViewChange(v), p),
            None => {
                return None;
            },
        },
        2 => match get_network_change(buf, 1, Ghost(if on { Some(h->NetworkChange_0) } else { None })) {
            Some((v, p)) => (PeerMessage::NetworkChange(v), p),
            None => {
                return None;
            },
        },
        _ => {
            return None;
        },
    };
    if p != buf.len() {
        return None;
    }
    proof {
        lemma_split(buf@, 0, 1, p as int);
        assert(buf@.subrange(0, 1) =~= seq![buf@[0]]);
        assert(buf@.subrange(0, p as int) =~= buf@);
    }
    Some(m)
}

} // verus!

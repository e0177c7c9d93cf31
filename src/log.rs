//! The message log: votes stored per round and signer, and the quorum
//! questions asked of them.

use vstd::prelude::*;
use crate::error::PbftError;
use crate::message::{
    bytes_eq, msgs_view, BlockView, InfoView, MsgView, PbftBlock, PbftMessage, PbftMessageInfo,
    PbftMessageType,
    PbftViewChange, ViewChangeView,
};

verus! {

/// Two votes that occupy the same slot: one phase, one round, one signer.
pub open spec fn same_key(a: InfoView, b: InfoView) -> bool {
    a.msg_type == b.msg_type && a.view == b.view && a.seq_num == b.seq_num && a.signer_id
        == b.signer_id
}

/// No two votes of `s` occupy the same slot.
pub open spec fn keys_unique(s: Seq<MsgView>) -> bool {
    forall|i: int, j: int|
        0 <= i < s.len() && 0 <= j < s.len() && i != j ==> !same_key(#[trigger] s[i].info, #[trigger] s[j].info)
}

/// What recording `m` into `s` gives: `None` for a conflicting vote, `s` for a
/// vote already there, and `s` with `m` appended otherwise.
pub open spec fn record_outcome(s: Seq<MsgView>, m: MsgView) -> Option<Seq<MsgView>> {
    if exists|i: int| 0 <= i < s.len() && same_key(#[trigger] s[i].info, m.info) {
        if s.contains(m) {
            Some(s)
        } else {
            None
        }
    } else {
        Some(s.push(m))
    }
}

/// The commits of `s` cast in `view` at `seq_num` for the block with id
/// `block_id`, in order: the certificate of that block.
pub open spec fn cert_votes(s: Seq<MsgView>, view: u64, seq_num: u64, block_id: Seq<u8>) -> Seq<MsgView> {
    s.filter(
        |m: MsgView|
            m.info.msg_type == PbftMessageType::Commit && m.info.view == view && m.info.seq_num
                == seq_num && m.block.block_id == block_id,
    )
}

/// No vote of `s` occupies the slot of `info`.
pub open spec fn slot_free(s: Seq<MsgView>, info: InfoView) -> bool {
    forall|i: int| 0 <= i < s.len() ==> !same_key(#[trigger] s[i].info, info)
}

/// No view change of `s` asks for `view` on behalf of `signer`.
pub open spec fn vc_slot_free(s: Seq<ViewChangeView>, view: u64, signer: Seq<u8>) -> bool {
    forall|i: int| 0 <= i < s.len() ==> !(#[trigger] s[i].info.view == view && s[i].info.signer_id == signer)
}

/// `m` is a vote of the given phase and round.
pub open spec fn in_round(m: MsgView, view: u64, seq_num: u64, ty: PbftMessageType) -> bool {
    m.info.msg_type == ty && m.info.view == view && m.info.seq_num == seq_num
}

/// `m` is a vote of the given phase and round for `block`.
pub open spec fn is_vote(
    m: MsgView,
    view: u64,
    seq_num: u64,
    ty: PbftMessageType,
    block: BlockView,
) -> bool {
    in_round(m, view, seq_num, ty) && m.block == block
}

/// The number of entries of `s` that vote for `block` in the given phase and round.
pub open spec fn votes(
    s: Seq<MsgView>,
    view: u64,
    seq_num: u64,
    ty: PbftMessageType,
    block: BlockView,
) -> nat
    decreases s.len(),
{
    if s.len() == 0 {
        0
    } else {
        votes(s.drop_last(), view, seq_num, ty, block) + if is_vote(
            s.last(),
            view,
            seq_num,
            ty,
            block,
        ) {
            1nat
        } else {
            0nat
        }
    }
}

/// The distinct signers of `s` that vote for `block` in the given phase and round.
pub open spec fn voters(
    s: Seq<MsgView>,
    view: u64,
    seq_num: u64,
    ty: PbftMessageType,
    block: BlockView,
) -> Set<Seq<u8>> {
    Set::new(
        |p: Seq<u8>|
            exists|i: int|
                0 <= i < s.len() && is_vote(#[trigger] s[i], view, seq_num, ty, block)
                    && s[i].info.signer_id == p,
    )
}

/// `block` has at least `required` votes in the given phase and round.
pub open spec fn reaches_quorum(
    s: Seq<MsgView>,
    view: u64,
    seq_num: u64,
    ty: PbftMessageType,
    block: BlockView,
    required: nat,
) -> bool {
    votes(s, view, seq_num, ty, block) >= required
}

/// Entry `i` of `s` belongs to the round and its block reaches the quorum.
pub open spec fn certifies_at(
    s: Seq<MsgView>,
    i: int,
    view: u64,
    seq_num: u64,
    ty: PbftMessageType,
    required: nat,
) -> bool {
    0 <= i < s.len() && in_round(s[i], view, seq_num, ty) && reaches_quorum(
        s,
        view,
        seq_num,
        ty,
        s[i].block,
        required,
    )
}

/// In a log where each signer holds at most one vote per phase and round,
/// the votes for a block are exactly its distinct signers.
pub proof fn lemma_votes_are_voters(
    s: Seq<MsgView>,
    view: u64,
    seq_num: u64,
    ty: PbftMessageType,
    block: BlockView,
)
    requires
        keys_unique(s),
    ensures
        voters(s, view, seq_num, ty, block).finite(),
        voters(s, view, seq_num, ty, block).len() == votes(s, view, seq_num, ty, block),
    decreases s.len(),
{
    let vs = voters(s, view, seq_num, ty, block);
    if s.len() == 0 {
        assert(vs =~= Set::empty());
    } else {
        let t = s.drop_last();
        assert forall|i: int, j: int|
            0 <= i < t.len() && 0 <= j < t.len() && i != j implies !same_key(
            #[trigger] t[i].info,
            #[trigger] t[j].info,
        ) by {
            assert(t[i] == s[i] && t[j] == s[j]);
        }
        lemma_votes_are_voters(t, view, seq_num, ty, block);
        let vt = voters(t, view, seq_num, ty, block);
        let last = s.last();
        if is_vote(last, view, seq_num, ty, block) {
            assert(!vt.contains(last.info.signer_id)) by {
                if vt.contains(last.info.signer_id) {
                    let i = choose|i: int|
                        0 <= i < t.len() && is_vote(#[trigger] t[i], view, seq_num, ty, block)
                            && t[i].info.signer_id == last.info.signer_id;
                    assert(s[i] == t[i]);
                    assert(same_key(s[i].info, s[s.len() - 1].info));
                }
            }
            assert forall|p: Seq<u8>| vs.contains(p) == vt.insert(last.info.signer_id).contains(p) by {
                if vs.contains(p) {
                    let i = choose|i: int|
                        0 <= i < s.len() && is_vote(#[trigger] s[i], view, seq_num, ty, block)
                            && s[i].info.signer_id == p;
                    if i < t.len() {
                        assert(t[i] == s[i]);
                    }
                }
                if vt.contains(p) {
                    let i = choose|i: int|
                        0 <= i < t.len() && is_vote(#[trigger] t[i], view, seq_num, ty, block)
                            && t[i].info.signer_id == p;
                    assert(s[i] == t[i]);
                }
                if p == last.info.signer_id {
                    assert(is_vote(s[s.len() - 1], view, seq_num, ty, block));
                }
            }
            assert(vs =~= vt.insert(last.info.signer_id));
        } else {
            assert forall|p: Seq<u8>| vs.contains(p) == vt.contains(p) by {
                if vs.contains(p) {
                    let i = choose|i: int|
                        0 <= i < s.len() && is_vote(#[trigger] s[i], view, seq_num, ty, block)
                            && s[i].info.signer_id == p;
                    if i < t.len() {
                        assert(t[i] == s[i]);
                    }
                }
                if vt.contains(p) {
                    let i = choose|i: int|
                        0 <= i < t.len() && is_vote(#[trigger] t[i], view, seq_num, ty, block)
                            && t[i].info.signer_id == p;
                    assert(s[i] == t[i]);
                }
            }
            assert(vs =~= vt);
        }
    }
}

/// Quorum safety: where fewer than `required` distinct signers vote for a
/// block in a phase and round, that block does not reach the quorum.
pub proof fn lemma_quorum_safety(
    s: Seq<MsgView>,
    view: u64,
    seq_num: u64,
    ty: PbftMessageType,
    block: BlockView,
    required: nat,
)
    requires
        keys_unique(s),
        voters(s, view, seq_num, ty, block).len() < required,
    ensures
        !reaches_quorum(s, view, seq_num, ty, block, required),
{
    lemma_votes_are_voters(s, view, seq_num, ty, block);
}

/// No double commit: where every signer of a round's commits is one of the
/// peers and two quorums must overlap (`2 * required > |peers|`), at most one
/// block reaches the commit quorum of that round, however the log grows.
pub proof fn lemma_no_double_commit(
    s: Seq<MsgView>,
    peers: Set<Seq<u8>>,
    view: u64,
    seq_num: u64,
    b1: BlockView,
    b2: BlockView,
    required: nat,
)
    requires
        keys_unique(s),
        peers.finite(),
        forall|i: int|
            0 <= i < s.len() && in_round(#[trigger] s[i], view, seq_num, PbftMessageType::Commit)
                ==> peers.contains(s[i].info.signer_id),
        2 * required > peers.len(),
        reaches_quorum(s, view, seq_num, PbftMessageType::Commit, b1, required),
        reaches_quorum(s, view, seq_num, PbftMessageType::Commit, b2, required),
    ensures
        b1 == b2,
{
    let ty = PbftMessageType::Commit;
    lemma_votes_are_voters(s, view, seq_num, ty, b1);
    lemma_votes_are_voters(s, view, seq_num, ty, b2);
    let v1 = voters(s, view, seq_num, ty, b1);
    let v2 = voters(s, view, seq_num, ty, b2);
    if b1 != b2 {
        assert(v1.disjoint(v2)) by {
            assert forall|p: Seq<u8>| !(v1.contains(p) && v2.contains(p)) by {
                if v1.contains(p) && v2.contains(p) {
                    let i = choose|i: int|
                        0 <= i < s.len() && is_vote(#[trigger] s[i], view, seq_num, ty, b1)
                            && s[i].info.signer_id == p;
                    let j = choose|j: int|
                        0 <= j < s.len() && is_vote(#[trigger] s[j], view, seq_num, ty, b2)
                            && s[j].info.signer_id == p;
                    assert(same_key(s[i].info, s[j].info));
                }
            }
        }
        assert((v1 + v2).subset_of(peers)) by {
            assert forall|p: Seq<u8>| (v1 + v2).contains(p) implies peers.contains(p) by {
                if v1.contains(p) {
                    let i = choose|i: int|
                        0 <= i < s.len() && is_vote(#[trigger] s[i], view, seq_num, ty, b1)
                            && s[i].info.signer_id == p;
                    assert(in_round(s[i], view, seq_num, ty));
                } else {
                    let j = choose|j: int|
                        0 <= j < s.len() && is_vote(#[trigger] s[j], view, seq_num, ty, b2)
                            && s[j].info.signer_id == p;
                    assert(in_round(s[j], view, seq_num, ty));
                }
            }
        }
        vstd::set_lib::lemma_set_disjoint_lens(v1, v2);
        vstd::set_lib::lemma_len_subset(v1 + v2, peers);
    }
}

/// Equivocation detection: once a vote is recorded, a different vote of the
/// same signer for the same phase and round is refused, and the slot still
/// holds the first vote alone.
pub proof fn lemma_equivocation_rejected(s: Seq<MsgView>, m1: MsgView, m2: MsgView)
    requires
        keys_unique(s),
        same_key(m1.info, m2.info),
        m1 != m2,
        record_outcome(s, m1) is Some,
    ensures
        record_outcome(record_outcome(s, m1)->0, m2) is None,
        forall|i: int|
            0 <= i < record_outcome(s, m1)->0.len() && same_key(
                #[trigger] record_outcome(s, m1)->0[i].info,
                m1.info,
            ) ==> record_outcome(s, m1)->0[i] == m1,
{
    let t = record_outcome(s, m1)->0;
    let w: int;
    if exists|i: int| 0 <= i < s.len() && same_key(#[trigger] s[i].info, m1.info) {
        assert(t == s);
        let k = choose|k: int| 0 <= k < s.len() && s[k] == m1;
        w = k;
        assert(same_key(s[k].info, m1.info));
        assert forall|i: int| 0 <= i < t.len() && same_key(#[trigger] t[i].info, m1.info) implies t[i] == m1 by {
            if i != k {
                assert(same_key(s[i].info, s[k].info));
            }
        }
    } else {
        assert(t == s.push(m1));
        w = s.len() as int;
        assert forall|i: int| 0 <= i < t.len() && same_key(#[trigger] t[i].info, m1.info) implies t[i] == m1 by {
            if i < s.len() {
                assert(t[i] == s[i]);
            }
        }
    }
    assert(t[w] == m1 && same_key(t[w].info, m2.info));
    assert(!t.contains(m2)) by {
        if t.contains(m2) {
            let j = choose|j: int| 0 <= j < t.len() && t[j] == m2;
            assert(same_key(t[j].info, m1.info));
        }
    }
}

/// Two view changes that occupy the same slot: one target view, one signer.
pub open spec fn vc_same_key(a: ViewChangeView, b: ViewChangeView) -> bool {
    a.info.view == b.info.view && a.info.signer_id == b.info.signer_id
}

/// No two view changes of `s` occupy the same slot.
pub open spec fn vc_keys_unique(s: Seq<ViewChangeView>) -> bool {
    forall|i: int, j: int|
        0 <= i < s.len() && 0 <= j < s.len() && i != j ==> !vc_same_key(#[trigger] s[i], #[trigger] s[j])
}

/// What recording the view change `m` into `s` gives, as for votes.
pub open spec fn vc_record_outcome(s: Seq<ViewChangeView>, m: ViewChangeView) -> Option<Seq<ViewChangeView>> {
    if exists|i: int| 0 <= i < s.len() && vc_same_key(#[trigger] s[i], m) {
        if s.contains(m) {
            Some(s)
        } else {
            None
        }
    } else {
        Some(s.push(m))
    }
}

/// The number of view changes of `s` that ask for `view`.
pub open spec fn vc_votes(s: Seq<ViewChangeView>, view: u64) -> nat
    decreases s.len(),
{
    if s.len() == 0 {
        0
    } else {
        vc_votes(s.drop_last(), view) + if s.last().info.view == view {
            1nat
        } else {
            0nat
        }
    }
}

/// Filtering keeps the slots of the kept votes apart.
pub proof fn lemma_filter_keeps_unique(s: Seq<MsgView>, pred: spec_fn(MsgView) -> bool)
    requires
        keys_unique(s),
    ensures
        keys_unique(s.filter(pred)),
    decreases s.len(),
{
    reveal(Seq::filter);
    if s.len() > 0 {
        let t = s.drop_last();
        assert forall|i: int, j: int|
            0 <= i < t.len() && 0 <= j < t.len() && i != j implies !same_key(
            #[trigger] t[i].info,
            #[trigger] t[j].info,
        ) by {
            assert(t[i] == s[i] && t[j] == s[j]);
        }
        lemma_filter_keeps_unique(t, pred);
        let ft = t.filter(pred);
        if pred(s.last()) {
            let r = ft.push(s.last());
            assert forall|i: int| 0 <= i < ft.len() implies !same_key(#[trigger] r[i].info, s.last().info) by {
                assert(ft.contains(ft[i]));
                t.lemma_filter_contains_rev(pred, ft[i]);
                let k = choose|k: int| 0 <= k < t.len() && t[k] == ft[i];
                assert(s[k] == t[k]);
                assert(!same_key(s[k].info, s[s.len() - 1].info));
            }
            assert(keys_unique(r));
        }
    }
}

/// The whole content of a message log.
pub struct LogView {
    pub messages: Seq<MsgView>,
    pub view_changes: Seq<ViewChangeView>,
}

/// Votes and view changes received, each signer holding at most one per slot.
pub struct MessageLog {
    messages: Vec<PbftMessage>,
    view_changes: Vec<PbftViewChange>,
}

impl View for MessageLog {
    type V = LogView;

    closed spec fn view(&self) -> LogView {
        LogView {
            messages: msgs_view(self.messages@),
            view_changes: self.view_changes@.map_values(|v: PbftViewChange| v@),
        }
    }
}

impl MessageLog {
    /// Each slot holds at most one vote and at most one view change.
    pub open spec fn wf(&self) -> bool {
        keys_unique(self@.messages) && vc_keys_unique(self@.view_changes)
    }

    /// An empty log.
    pub fn new() -> (r: MessageLog)
        ensures
            r.wf(),
            r@.messages == Seq::<MsgView>::empty(),
            r@.view_changes == Seq::<ViewChangeView>::empty(),
    {
        let r = MessageLog { messages: Vec::new(), view_changes: Vec::new() };
        assert(r@.messages =~= Seq::<MsgView>::empty());
        assert(r@.view_changes =~= Seq::<ViewChangeView>::empty());
        r
    }

    /// Stores a vote. A vote already present is kept once; a different vote
    /// in an occupied slot is equivocation and is refused.
    pub fn record(&mut self, msg: PbftMessage) -> (r: Result<(), PbftError>)
        requires
            old(self).wf(),
        ensures
            final(self).wf(),
            final(self)@.view_changes == old(self)@.view_changes,
            match record_outcome(old(self)@.messages, msg@) {
                None => r == Err::<(), PbftError>(PbftError::ConflictingMessage) && final(self)@
                    == old(self)@,
                Some(l) => r is Ok && final(self)@.messages == l,
            },
    {
        let ghost s = self@.messages;
        let mut i: usize = 0;
        while i < self.messages.len()
            invariant
                i <= self.messages@.len(),
                s == msgs_view(self.messages@),
                self.wf(),
                self@ == old(self)@,
                s == old(self)@.messages,
                forall|k: int| 0 <= k < i ==> !same_key(#[trigger] s[k].info, msg@.info),
            decreases self.messages@.len() - i,
        {
            if self.messages[i].info.msg_type == msg.info.msg_type && self.messages[i].info.view
                == msg.info.view && self.messages[i].info.seq_num == msg.info.seq_num && bytes_eq(
                &self.messages[i].info.signer_id,
                &msg.info.signer_id,
            ) {
                assert(same_key(s[i as int].info, msg@.info));
                if self.messages[i] == msg {
                    assert(s[i as int] == msg@);
                    return Ok(());
                } else {
                    assert(!s.contains(msg@)) by {
                        if s.contains(msg@) {
                            let j = choose|j: int| 0 <= j < s.len() && s[j] == msg@;
                            assert(same_key(s[j].info, s[i as int].info));
                        }
                    }
                    return Err(PbftError::ConflictingMessage);
                }
            }
            i = i + 1;
        }
        let ghost mv = msg@;
        self.messages.push(msg);
        assert(self@.messages =~= s.push(mv));
        assert forall|a: int, b: int|
            0 <= a < s.push(mv).len() && 0 <= b < s.push(mv).len() && a != b implies !same_key(
            #[trigger] s.push(mv)[a].info,
            #[trigger] s.push(mv)[b].info,
        ) by {
            if a < s.len() && b < s.len() {
                assert(s.push(mv)[a] == s[a] && s.push(mv)[b] == s[b]);
            } else if a < s.len() {
                assert(s.push(mv)[a] == s[a]);
            } else if b < s.len() {
                assert(s.push(mv)[b] == s[b]);
            }
        }
        Ok(())
    }

    /// Whether some stored vote occupies the slot of `info`.
    pub fn slot_taken(&self, info: &PbftMessageInfo) -> (r: bool)
        ensures
            r == !slot_free(self@.messages, info@),
    {
        let ghost s = self@.messages;
        let mut i: usize = 0;
        while i < self.messages.len()
            invariant
                i <= self.messages@.len(),
                s == msgs_view(self.messages@),
                s == self@.messages,
                forall|k: int| 0 <= k < i ==> !same_key(#[trigger] s[k].info, info@),
            decreases self.messages@.len() - i,
        {
            let m = &self.messages[i];
            if m.info.msg_type == info.msg_type && m.info.view == info.view && m.info.seq_num
                == info.seq_num && bytes_eq(&m.info.signer_id, &info.signer_id) {
                assert(same_key(s[i as int].info, info@));
                return true;
            }
            i = i + 1;
        }
        false
    }

    /// The number of votes for `block` in the given phase and round.
    pub fn count_votes(&self, view: u64, seq_num: u64, ty: PbftMessageType, block: &PbftBlock) -> (r: usize)
        ensures
            r == votes(self@.messages, view, seq_num, ty, block@),
    {
        let ghost s = self@.messages;
        let mut n: usize = 0;
        let mut i: usize = 0;
        while i < self.messages.len()
            invariant
                i <= self.messages@.len(),
                s == msgs_view(self.messages@),
                n == votes(s.subrange(0, i as int), view, seq_num, ty, block@),
                n <= i,
            decreases self.messages@.len() - i,
        {
            assert(s.subrange(0, i + 1).drop_last() =~= s.subrange(0, i as int));
            let m = &self.messages[i];
            if m.info.msg_type == ty && m.info.view == view && m.info.seq_num == seq_num && m.block
                == *block {
                n = n + 1;
            }
            i = i + 1;
        }
        assert(s.subrange(0, i as int) =~= s);
        n
    }

    /// The block of the first vote of the given phase and round, in the order
    /// of arrival, whose block has at least `required` votes; `None` when no
    /// block of that round has.
    pub fn quorum_for(&self, view: u64, seq_num: u64, ty: PbftMessageType, required: usize) -> (r:
        Option<PbftBlock>)
        ensures
            r is None <==> forall|i: int|
                !certifies_at(self@.messages, i, view, seq_num, ty, required as nat),
            r matches Some(b) ==> exists|i: int|
                certifies_at(self@.messages, i, view, seq_num, ty, required as nat)
                    && self@.messages[i].block == b@ && forall|j: int|
                    0 <= j < i ==> !certifies_at(self@.messages, j, view, seq_num, ty, required as nat),
    {
        let ghost s = self@.messages;
        let mut i: usize = 0;
        while i < self.messages.len()
            invariant
                i <= self.messages@.len(),
                s == msgs_view(self.messages@),
                s == self@.messages,
                forall|j: int| 0 <= j < i ==> !certifies_at(s, j, view, seq_num, ty, required as nat),
            decreases self.messages@.len() - i,
        {
            let m = &self.messages[i];
            if m.info.msg_type == ty && m.info.view == view && m.info.seq_num == seq_num {
                let n = self.count_votes(view, seq_num, ty, &m.block);
                if n >= required {
                    assert(certifies_at(s, i as int, view, seq_num, ty, required as nat));
                    return Some(m.block.duplicate());
                }
            }
            i = i + 1;
        }
        None
    }

    /// Drops every vote whose sequence number is below `seq_num`.
    pub fn prune_below(&mut self, seq_num: u64)
        requires
            old(self).wf(),
        ensures
            final(self).wf(),
            final(self)@.view_changes == old(self)@.view_changes,
            final(self)@.messages == old(self)@.messages.filter(|m: MsgView| m.info.seq_num >= seq_num),
    {
        let ghost pred = |m: MsgView| m.info.seq_num >= seq_num;
        let ghost s = self@.messages;
        let mut kept: Vec<PbftMessage> = Vec::new();
        let mut i: usize = 0;
        while i < self.messages.len()
            invariant
                i <= self.messages@.len(),
                s == msgs_view(self.messages@),
                self.wf(),
                self@ == old(self)@,
                pred == (|m: MsgView| m.info.seq_num >= seq_num),
                msgs_view(kept@) == s.subrange(0, i as int).filter(pred),
            decreases self.messages@.len() - i,
        {
            proof {
                reveal(Seq::filter);
                let x = s.subrange(0, i + 1);
                assert(x.drop_last() =~= s.subrange(0, i as int));
                assert(x.last() == s[i as int]);
                assert(s[i as int] == self.messages@[i as int]@);
                assert(x.filter(pred) == if pred(s[i as int]) {
                    s.subrange(0, i as int).filter(pred).push(s[i as int])
                } else {
                    s.subrange(0, i as int).filter(pred)
                });
            }
            if self.messages[i].info.seq_num >= seq_num {
                let ghost k0 = kept@;
                kept.push(self.messages[i].duplicate());
                assert(msgs_view(kept@) =~= msgs_view(k0).push(s[i as int]));
            }
            i = i + 1;
        }
        proof {
            assert(s.subrange(0, i as int) =~= s);
            lemma_filter_keeps_unique(s, pred);
        }
        self.messages = kept;
    }

    /// The commits cast in `view` at `seq_num` for the block with id
    /// `block_id`, in the order of arrival.
    pub fn certificate(&self, view: u64, seq_num: u64, block_id: &Vec<u8>) -> (r: Vec<PbftMessage>)
        ensures
            msgs_view(r@) == cert_votes(self@.messages, view, seq_num, block_id@),
    {
        let ghost pred = |m: MsgView|
            m.info.msg_type == PbftMessageType::Commit && m.info.view == view && m.info.seq_num
                == seq_num && m.block.block_id == block_id@;
        let ghost s = self@.messages;
        let mut kept: Vec<PbftMessage> = Vec::new();
        let mut i: usize = 0;
        while i < self.messages.len()
            invariant
                i <= self.messages@.len(),
                s == msgs_view(self.messages@),
                pred == (|m: MsgView|
                    m.info.msg_type == PbftMessageType::Commit && m.info.view == view
                        && m.info.seq_num == seq_num && m.block.block_id == block_id@),
                msgs_view(kept@) == s.subrange(0, i as int).filter(pred),
            decreases self.messages@.len() - i,
        {
            proof {
                reveal(Seq::filter);
                let x = s.subrange(0, i + 1);
                assert(x.drop_last() =~= s.subrange(0, i as int));
                assert(x.last() == s[i as int]);
                assert(s[i as int] == self.messages@[i as int]@);
                assert(x.filter(pred) == if pred(s[i as int]) {
                    s.subrange(0, i as int).filter(pred).push(s[i as int])
                } else {
                    s.subrange(0, i as int).filter(pred)
                });
            }
            let m = &self.messages[i];
            if m.info.msg_type == PbftMessageType::Commit && m.info.view == view && m.info.seq_num
                == seq_num && bytes_eq(&m.block.block_id, block_id) {
                let ghost k0 = kept@;
                kept.push(m.duplicate());
                assert(msgs_view(kept@) =~= msgs_view(k0).push(s[i as int]));
            }
            i = i + 1;
        }
        assert(s.subrange(0, i as int) =~= s);
        kept
    }

    /// Stores a view change. One already present is kept once; a different
    /// one from the same signer for the same view is refused.
    pub fn record_view_change(&mut self, vc: PbftViewChange) -> (r: Result<(), PbftError>)
        requires
            old(self).wf(),
        ensures
            final(self).wf(),
            final(self)@.messages == old(self)@.messages,
            match vc_record_outcome(old(self)@.view_changes, vc@) {
                None => r == Err::<(), PbftError>(PbftError::ConflictingMessage) && final(self)@
                    == old(self)@,
                Some(l) => r is Ok && final(self)@.view_changes == l,
            },
    {
        let ghost s = self@.view_changes;
        let mut i: usize = 0;
        while i < self.view_changes.len()
            invariant
                i <= self.view_changes@.len(),
                s == self.view_changes@.map_values(|v: PbftViewChange| v@),
                self.wf(),
                self@ == old(self)@,
                s == old(self)@.view_changes,
                forall|k: int| 0 <= k < i ==> !vc_same_key(#[trigger] s[k], vc@),
            decreases self.view_changes@.len() - i,
        {
            if self.view_changes[i].info.view == vc.info.view && bytes_eq(
                &self.view_changes[i].info.signer_id,
                &vc.info.signer_id,
            ) {
                assert(vc_same_key(s[i as int], vc@));
                if self.view_changes[i] == vc {
                    assert(s[i as int] == vc@);
                    return Ok(());
                } else {
                    assert(!s.contains(vc@)) by {
                        if s.contains(vc@) {
                            let j = choose|j: int| 0 <= j < s.len() && s[j] == vc@;
                            assert(vc_same_key(s[j], s[i as int]));
                        }
                    }
                    return Err(PbftError::ConflictingMessage);
                }
            }
            i = i + 1;
        }
        let ghost mv = vc@;
        self.view_changes.push(vc);
        assert(self@.view_changes =~= s.push(mv));
        assert forall|a: int, b: int|
            0 <= a < s.push(mv).len() && 0 <= b < s.push(mv).len() && a != b implies !vc_same_key(
            #[trigger] s.push(mv)[a],
            #[trigger] s.push(mv)[b],
        ) by {
            if a < s.len() && b < s.len() {
                assert(s.push(mv)[a] == s[a] && s.push(mv)[b] == s[b]);
            } else if a < s.len() {
                assert(s.push(mv)[a] == s[a]);
            } else if b < s.len() {
                assert(s.push(mv)[b] == s[b]);
            }
        }
        Ok(())
    }

    /// The number of stored view changes that ask for `view`.
    pub fn count_view_changes(&self, view: u64) -> (r: usize)
        ensures
            r == vc_votes(self@.view_changes, view),
    {
        let ghost s = self@.view_changes;
        let mut n: usize = 0;
        let mut i: usize = 0;
        while i < self.view_changes.len()
            invariant
                i <= self.view_changes@.len(),
                s == self.view_changes@.map_values(|v: PbftViewChange| v@),
                n == vc_votes(s.subrange(0, i as int), view),
                n <= i,
            decreases self.view_changes@.len() - i,
        {
            assert(s.subrange(0, i + 1).drop_last() =~= s.subrange(0, i as int));
            if self.view_changes[i].info.view == view {
                n = n + 1;
            }
            i = i + 1;
        }
        assert(s.subrange(0, i as int) =~= s);
        n
    }
}

} // verus!

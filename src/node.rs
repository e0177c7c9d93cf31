//! The node state machine: the three-phase commit of one block per sequence
//! number, and the view change that replaces a silent or faulty primary.

use vstd::prelude::*;
use crate::error::PbftError;
use crate::log::{
    in_round, record_outcome, cert_votes, slot_free, vc_record_outcome, vc_slot_free, votes, MessageLog,
    vc_votes,
};
use crate::message::{
    BlockView, bytes_eq, copy_bytes, ids_contain, ids_view, msgs_view, MsgView, PbftBlock, PbftMessage,
    PbftMessageInfo, PbftMessageType, PbftViewChange, PeerMessage, PeerMessageView,
    ViewChangeView,
};

verus! {

/// Where the node stands in the agreement on the current block.
#[derive(Clone, Copy, Debug, PartialEq, Eq, Structural)]
pub enum Phase {
    NotStarted,
    PrePreparing,
    Preparing,
    Committing,
    Finishing,
}

/// Whether the node works in its view or is trying to leave it.
#[derive(Clone, Copy, Debug, PartialEq, Eq, Structural)]
pub enum Mode {
    Normal,
    ViewChanging,
}

/// Parameters read from the chain at startup, fixed for the node's lifetime.
#[derive(Clone, Copy, Debug, PartialEq, Eq, Structural)]
pub struct PbftConfig {
    /// Period of the publish and timeout checks.
    pub block_duration_ms: u64,
    /// Receive timeout, backlog retry period, and the time a phase may take.
    pub message_timeout_ms: u64,
}

/// What the node asks of its host.
#[derive(Clone, Debug)]
pub enum Action {
    /// Send the message to every peer.
    Broadcast(PeerMessage),
    /// Ask the host to validate the block with this id.
    CheckBlock(Vec<u8>),
    /// Ask the host to commit the block with this id.
    CommitBlock(Vec<u8>),
    /// Ask the host to build and publish a block on the current head.
    PublishBlock,
}

/// The value of an action, byte strings as sequences.
pub enum ActionView {
    Broadcast(PeerMessageView),
    CheckBlock(Seq<u8>),
    CommitBlock(Seq<u8>),
    PublishBlock,
}

impl View for Action {
    type V = ActionView;

    open spec fn view(&self) -> ActionView {
        match self {
            Action::Broadcast(m) => ActionView::Broadcast(m@),
            Action::CheckBlock(id) => ActionView::CheckBlock(id@),
            Action::CommitBlock(id) => ActionView::CommitBlock(id@),
            Action::PublishBlock => ActionView::PublishBlock,
        }
    }
}

pub open spec fn actions_view(v: Seq<Action>) -> Seq<ActionView> {
    v.map_values(|a: Action| a@)
}

/// From `o` to `n` the node moved only through the prepare and commit steps:
/// it broadcast its own commit on leaving `Preparing`, and asked the host to
/// commit the working block on entering `Finishing`; it did nothing else.
pub open spec fn advanced(o: &PbftNode, n: &PbftNode) -> bool {
    let wb = o.state.working_block->0@;
    let commit = ActionView::Broadcast(PeerMessageView::Pbft(o.own_vote(PbftMessageType::Commit, wb)));
    let request = ActionView::CommitBlock(wb.block_id);
    let oa = actions_view(o.actions@);
    let na = actions_view(n.actions@);
    &&& n.state.phase == o.state.phase ==> na == oa
    &&& n.state.phase != o.state.phase ==> ((o.state.phase == Phase::Preparing && (n.state.phase
        == Phase::Committing || n.state.phase == Phase::Finishing)) || (o.state.phase
        == Phase::Committing && n.state.phase == Phase::Finishing))
    &&& (o.state.phase == Phase::Preparing && n.state.phase == Phase::Committing) ==> na == oa.push(
        commit,
    )
    &&& (o.state.phase == Phase::Preparing && n.state.phase == Phase::Finishing) ==> na == oa.push(
        commit,
    ).push(request)
    &&& (o.state.phase == Phase::Committing && n.state.phase == Phase::Finishing) ==> na == oa.push(
        request,
    )
}

/// A commit request stands on a quorum: a step that moves a well-formed node
/// into `Finishing` appends the request for the working block as its last
/// action, and the node's log then holds 2f+1 commits for that block in the
/// current round.
pub proof fn lemma_commit_request_certified(o: &PbftNode, n: &PbftNode)
    requires
        n.wf(),
        advanced(o, n),
        o.state.phase != Phase::Finishing,
        n.state.phase == Phase::Finishing,
        n.state.working_block == o.state.working_block,
        n.state.view == o.state.view,
        n.state.seq_num == o.state.seq_num,
    ensures
        n.state.working_block is Some,
        actions_view(n.actions@).last() == ActionView::CommitBlock(n.state.working_block->0@.block_id),
        votes(
            n.msg_log@.messages,
            n.state.view,
            n.state.seq_num,
            PbftMessageType::Commit,
            n.state.working_block->0@,
        ) >= n.quorum(),
{
}

/// What handling the vote `m` does, beyond the log: votes that are not
/// admissible change neither the state nor the actions; a pre-prepare that
/// opens the round is answered with a validation request and this node's
/// prepare; any other vote only lets the node advance.
pub open spec fn pbft_step(o: &PbftNode, n: &PbftNode, m: MsgView, r: Result<(), PbftError>) -> bool {
    let starts = o.admissible(m) && m.info.msg_type == PbftMessageType::PrePrepare
        && o.state.phase == Phase::PrePreparing;
    let l = record_outcome(o.msg_log@.messages, m);
    &&& !o.admissible(m) ==> n.state == o.state && n.actions == o.actions
    &&& starts && l is Some && slot_free(o.msg_log@.messages, o.own_info(PbftMessageType::Prepare))
        ==> r is Ok
    &&& starts && r is Ok ==> n.state.phase == Phase::Preparing && (n.state.working_block matches Some(
        b,
    ) && b@ == m.block) && actions_view(n.actions@) == actions_view(o.actions@).push(
        ActionView::CheckBlock(m.block.block_id),
    ).push(ActionView::Broadcast(PeerMessageView::Pbft(o.own_vote(PbftMessageType::Prepare, m.block))))
    &&& starts && r is Err ==> n.same_as(o)
    &&& o.admissible(m) && !starts ==> advanced(o, n)
    &&& o.admissible(m) && !starts && r is Ok ==> n.settled()
    &&& o.admissible(m) && !starts && l is Some && slot_free(l->0, o.own_info(PbftMessageType::Commit))
        ==> r is Ok
}

/// What a new block from the host does: refused unless the node is ready for
/// it and it extends the last committed block; ignored by a backup; proposed
/// and prepared by the primary.
pub open spec fn block_new_step(o: &PbftNode, n: &PbftNode, block: BlockView, r: Result<(), PbftError>) -> bool {
    let ready = o.state.mode == Mode::Normal && o.state.phase == Phase::PrePreparing
        && block.block_num == o.state.seq_num;
    let extends = block.previous_id == o.state.last_committed_id@;
    &&& r is Err ==> n.same_as(o)
    &&& !ready ==> r == Err::<(), PbftError>(PbftError::NotReadyForMessage)
    &&& ready && !extends ==> r == Err::<(), PbftError>(PbftError::UnknownBlock)
    &&& ready && extends && !o.is_primary_spec() ==> r is Ok && n.same_as(o)
    &&& ready && extends && o.is_primary_spec() && slot_free(
        o.msg_log@.messages,
        o.own_info(PbftMessageType::PrePrepare),
    ) && slot_free(o.msg_log@.messages, o.own_info(PbftMessageType::Prepare)) ==> r is Ok
    &&& ready && o.is_primary_spec() && r is Ok ==> {
        &&& n.state.phase == Phase::Preparing
        &&& n.state.working_block matches Some(b) && b@ == block
        &&& n.msg_log@.messages.contains(o.own_vote(PbftMessageType::PrePrepare, block))
        &&& actions_view(n.actions@) == actions_view(o.actions@).push(
            ActionView::Broadcast(PeerMessageView::Pbft(o.own_vote(PbftMessageType::PrePrepare, block))),
        ).push(ActionView::CheckBlock(block.block_id)).push(
            ActionView::Broadcast(PeerMessageView::Pbft(o.own_vote(PbftMessageType::Prepare, block))),
        )
    }
}

/// What the host's validation of `id` does: where it is the working block,
/// the node advances as far as its votes allow.
pub open spec fn block_valid_step(o: &PbftNode, n: &PbftNode, id: Seq<u8>, r: Result<(), PbftError>) -> bool {
    let known = o.state.working_block matches Some(b) && b@.block_id == id;
    &&& !known ==> r == Err::<(), PbftError>(PbftError::UnknownBlock) && n.same_as(o)
    &&& known ==> n.state.block_valid && advanced(o, n)
    &&& known && r is Ok ==> n.settled()
    &&& known && slot_free(o.msg_log@.messages, o.own_info(PbftMessageType::Commit)) ==> r is Ok
}

/// What a view change from a peer does: refused from a stranger, when not a
/// view change or with a checkpoint that is neither empty nor a certificate;
/// dropped for a past view; otherwise recorded, and the node enters the
/// view once a quorum asks for it. The votes, backlog and actions stay.
pub open spec fn view_change_received_step(
    o: &PbftNode,
    n: &PbftNode,
    vc: ViewChangeView,
    now_ms: u64,
    r: Result<(), PbftError>,
) -> bool {
    let known = o.peer_ids().contains(vc.info.signer_id);
    let well_formed = vc.info.msg_type == PbftMessageType::ViewChange && checkpoint_matches(
        vc,
        o.peer_ids(),
        o.quorum(),
    );
    let ok = known && well_formed && vc.info.view > o.state.view;
    let outcome = vc_record_outcome(o.msg_log@.view_changes, vc);
    &&& n.state.seq_num == o.state.seq_num
    &&& n.msg_log@.messages == o.msg_log@.messages
    &&& n.backlog == o.backlog
    &&& n.actions == o.actions
    &&& !known ==> r == Err::<(), PbftError>(PbftError::UnknownSigner) && n.same_as(o)
    &&& known && !well_formed ==> r == Err::<(), PbftError>(PbftError::InvalidMessage) && n.same_as(o)
    &&& vc.info.view <= o.state.view ==> n.same_as(o)
    &&& ok && outcome is None ==> r == Err::<(), PbftError>(PbftError::ConflictingMessage) && n.same_as(o)
    &&& ok && outcome is Some ==> r is Ok && n.msg_log@.view_changes == outcome->0
    &&& ok && outcome is Some && vc_votes(outcome->0, vc.info.view) >= o.quorum() ==> {
        &&& n.state.view == vc.info.view
        &&& n.state.mode == Mode::Normal
        &&& n.state.phase == Phase::PrePreparing
        &&& n.state.last_progress_ms == now_ms
    }
    &&& ok && outcome is Some && vc_votes(outcome->0, vc.info.view) < o.quorum() ==> n.state == o.state
    &&& n.state.phase == o.state.phase || n.state.phase == Phase::PrePreparing
}

/// What asking for a view change does: this node's view change for the
/// next view is recorded and broadcast.
pub open spec fn view_change_step(o: &PbftNode, n: &PbftNode, r: Result<(), PbftError>) -> bool {
    let target = o.next_view();
    &&& target > u64::MAX ==> r == Err::<(), PbftError>(PbftError::CounterExhausted)
    &&& r is Err ==> n.same_as(o)
    &&& target <= u64::MAX && vc_slot_free(o.msg_log@.view_changes, target as u64, o.local_id())
        ==> r is Ok
    &&& r is Ok ==> actions_view(n.actions@) == actions_view(o.actions@).push(
        ActionView::Broadcast(PeerMessageView::ViewChange(o.own_view_change(target as u64))),
    )
    &&& r is Ok ==> ((n.state.mode == Mode::ViewChanging
        && n.state.pending_view == target && n.state.view == o.state.view) || (n.state.mode
        == Mode::Normal && n.state.view == target && n.state.phase == Phase::PrePreparing))
}

/// Recording a vote never takes votes away.
pub proof fn lemma_record_keeps_votes(
    s: Seq<MsgView>,
    m: MsgView,
    view: u64,
    seq_num: u64,
    ty: PbftMessageType,
    block: crate::message::BlockView,
)
    requires
        record_outcome(s, m) is Some,
    ensures
        votes(record_outcome(s, m)->0, view, seq_num, ty, block) >= votes(s, view, seq_num, ty, block),
{
    let l = record_outcome(s, m)->0;
    if l != s {
        assert(l.drop_last() =~= s);
    }
}

/// The protocol state of one node.
pub struct PbftState {
    /// The temporary id the node was started with.
    pub id: u64,
    /// Index of this node in `peers`: the identity it signs with.
    pub index: u64,
    pub view: u64,
    pub seq_num: u64,
    pub phase: Phase,
    pub mode: Mode,
    /// The view asked for while in `Mode::ViewChanging`.
    pub pending_view: u64,
    pub peers: Vec<Vec<u8>>,
    /// Faults tolerated: `(peers.len() - 1) / 3`.
    pub f: u64,
    /// The block under agreement in the current round.
    pub working_block: Option<PbftBlock>,
    /// The host has found the working block valid.
    pub block_valid: bool,
    /// The id of the last block committed on the chain.
    pub last_committed_id: Vec<u8>,
    /// The view in which that block was committed.
    pub last_committed_view: u64,
    /// A block was asked of the host in this round.
    pub publishing: bool,
    /// When the node last made progress.
    pub last_progress_ms: u64,
    pub message_timeout_ms: u64,
}

/// A running node: its state, its message log, the messages deferred for
/// later, and the actions waiting for the host.
pub struct PbftNode {
    pub state: PbftState,
    pub msg_log: MessageLog,
    pub backlog: Vec<PeerMessage>,
    pub actions: Vec<Action>,
}

/// The number of matching messages that certifies a step among `n` peers.
pub open spec fn quorum_of(n: nat) -> nat {
    2 * ((n - 1) as nat / 3) + 1
}

pub proof fn lemma_quorum_fits(n: nat)
    requires
        n >= 1,
    ensures
        quorum_of(n) <= n,
{
    let f = (n - 1) as nat / 3;
    assert((n - 1) as nat == 3 * f + (n - 1) as nat % 3) by (nonlinear_arith)
        requires f == (n - 1) as nat / 3;
}

/// The checkpoint of a view change is either empty (no certificate claimed)
/// or a certificate: at least `quorum` commits of the round before its own,
/// all naming one block id, signed by distinct members of `peers`.
pub open spec fn checkpoint_matches(v: ViewChangeView, peers: Seq<Seq<u8>>, quorum: nat) -> bool {
    let cp = v.checkpoint_messages;
    cp.len() == 0 || {
        &&& cp.len() >= quorum
        &&& forall|i: int|
            0 <= i < cp.len() ==> {
                let m = #[trigger] cp[i];
                &&& m.info.msg_type == PbftMessageType::Commit
                &&& m.info.seq_num + 1 == v.info.seq_num
                &&& m.block.block_id == cp[0].block.block_id
                &&& peers.contains(m.info.signer_id)
            }
        &&& forall|i: int, j: int|
            0 <= i < j < cp.len() ==> #[trigger] cp[i].info.signer_id != #[trigger] cp[j].info.signer_id
    }
}

/// Whether an earlier vote of `cp` than the one at `i` has the same signer.
fn signer_repeated(cp: &Vec<PbftMessage>, i: usize) -> (r: bool)
    requires
        i < cp@.len(),
    ensures
        r == exists|j: int| 0 <= j < i && #[trigger] msgs_view(cp@)[j].info.signer_id == msgs_view(cp@)[i as int].info.signer_id,
{
    let mut j: usize = 0;
    while j < i
        invariant
            j <= i < cp@.len(),
            forall|k: int| 0 <= k < j ==> #[trigger] msgs_view(cp@)[k].info.signer_id != msgs_view(cp@)[i as int].info.signer_id,
        decreases i - j,
    {
        assert(msgs_view(cp@)[j as int] == cp@[j as int]@ && msgs_view(cp@)[i as int] == cp@[i as int]@);
        if bytes_eq(&cp[j].info.signer_id, &cp[i].info.signer_id) {
            assert(msgs_view(cp@)[j as int].info.signer_id == msgs_view(cp@)[i as int].info.signer_id);
            return true;
        }
        j = j + 1;
    }
    false
}

/// Whether the checkpoint of `vc` is empty or a certificate among `peers`.
pub fn check_checkpoint(vc: &PbftViewChange, peers: &Vec<Vec<u8>>, quorum: usize) -> (r: bool)
    ensures
        r == checkpoint_matches(vc@, ids_view(peers@), quorum as nat),
{
    let cp = &vc.checkpoint_messages;
    let ghost v = msgs_view(cp@);
    assert(vc@.checkpoint_messages == v);
    if cp.len() == 0 {
        return true;
    }
    if cp.len() < quorum {
        return false;
    }
    let mut i: usize = 0;
    while i < cp.len()
        invariant
            0 < cp@.len(),
            i <= cp@.len(),
            cp@ == vc.checkpoint_messages@,
            v == msgs_view(cp@),
            forall|k: int|
                0 <= k < i ==> {
                    let m = #[trigger] v[k];
                    &&& m.info.msg_type == PbftMessageType::Commit
                    &&& m.info.seq_num + 1 == vc.info.seq_num
                    &&& m.block.block_id == v[0].block.block_id
                    &&& ids_view(peers@).contains(m.info.signer_id)
                },
            forall|a: int, b: int| 0 <= a < b < i ==> #[trigger] v[a].info.signer_id != #[trigger] v[b].info.signer_id,
        decreases cp@.len() - i,
    {
        let m = &cp[i];
        assert(v[i as int] == cp@[i as int]@ && v[0] == cp@[0]@);
        if !(m.info.msg_type == PbftMessageType::Commit && m.info.seq_num as u128 + 1
            == vc.info.seq_num as u128 && bytes_eq(&m.block.block_id, &cp[0].block.block_id)
            && ids_contain(peers, &m.info.signer_id)) {
            return false;
        }
        if signer_repeated(cp, i) {
            return false;
        }
        i = i + 1;
    }
    true
}

/// `a` lists elements of `b` in the order they have in `b`.
pub open spec fn ordered_subseq(a: Seq<PeerMessage>, b: Seq<PeerMessage>) -> bool {
    exists|idx: Seq<int>|
        #![trigger idx.len()]
        idx.len() == a.len() && (forall|t: int| 0 <= t < a.len() ==> 0 <= #[trigger] idx[t] < b.len() && a[t] == b[idx[t]])
            && (forall|t: int, u: int| 0 <= t < u < a.len() ==> #[trigger] idx[t] < #[trigger] idx[u])
}

/// Every vote of `s` is signed by one of `peers`.
pub open spec fn signers_within(s: Seq<MsgView>, peers: Seq<Seq<u8>>) -> bool {
    forall|i: int| 0 <= i < s.len() ==> peers.contains(#[trigger] s[i].info.signer_id)
}

pub proof fn lemma_record_keeps_signers(s: Seq<MsgView>, peers: Seq<Seq<u8>>, m: MsgView)
    requires
        signers_within(s, peers),
        peers.contains(m.info.signer_id),
        record_outcome(s, m) is Some,
    ensures
        signers_within(record_outcome(s, m)->0, peers),
{
    let l = record_outcome(s, m)->0;
    assert forall|i: int| 0 <= i < l.len() implies peers.contains(#[trigger] l[i].info.signer_id) by {
        if i < s.len() {
            assert(l[i] == s[i]);
        }
    }
}

pub proof fn lemma_filter_keeps_signers(
    s: Seq<MsgView>,
    peers: Seq<Seq<u8>>,
    pred: spec_fn(MsgView) -> bool,
)
    requires
        signers_within(s, peers),
    ensures
        signers_within(s.filter(pred), peers),
{
    let t = s.filter(pred);
    assert forall|i: int| 0 <= i < t.len() implies peers.contains(#[trigger] t[i].info.signer_id) by {
        assert(t.contains(t[i]));
        s.lemma_filter_contains_rev(pred, t[i]);
        let k = choose|k: int| 0 <= k < s.len() && s[k] == t[i];
        assert(peers.contains(s[k].info.signer_id));
    }
}

/// No double commit, for a running node (whose peer count is `3f + 1`): at
/// most one block reaches the commit quorum of a round in its log.
pub proof fn lemma_node_no_double_commit(
    node: &PbftNode,
    view: u64,
    seq_num: u64,
    b1: crate::message::BlockView,
    b2: crate::message::BlockView,
)
    requires
        node.wf(),
        votes(node.msg_log@.messages, view, seq_num, PbftMessageType::Commit, b1) >= node.quorum(),
        votes(node.msg_log@.messages, view, seq_num, PbftMessageType::Commit, b2) >= node.quorum(),
    ensures
        b1 == b2,
{
    let ids = node.peer_ids();
    let peers = ids.to_set();
    assert(peers.finite() && peers.len() <= ids.len()) by {
        vstd::seq_lib::seq_to_set_is_finite(ids);
        ids.lemma_cardinality_of_set();
    }
    let n = node.n();
    let f = node.state.f as nat;
    assert(n == 3 * f + 1) by (nonlinear_arith)
        requires
            n % 3 == 1,
            f == (n - 1) as nat / 3,
            n >= 1,
    ;
    let s = node.msg_log@.messages;
    assert forall|i: int|
        0 <= i < s.len() && in_round(#[trigger] s[i], view, seq_num, PbftMessageType::Commit)
            implies peers.contains(s[i].info.signer_id) by {
        assert(ids.contains(s[i].info.signer_id));
    }
    crate::log::lemma_no_double_commit(s, peers, view, seq_num, b1, b2, node.quorum());
}

impl PbftNode {
    pub open spec fn n(&self) -> nat {
        self.state.peers@.len()
    }

    pub open spec fn quorum(&self) -> nat {
        (2 * self.state.f + 1) as nat
    }

    pub open spec fn peer_ids(&self) -> Seq<Seq<u8>> {
        ids_view(self.state.peers@)
    }

    /// The identity this node signs with.
    pub open spec fn local_id(&self) -> Seq<u8> {
        self.state.peers@[self.state.index as int]@
    }

    /// The primary of view `view` is the peer at index `view mod n`.
    pub open spec fn primary_of(&self, view: u64) -> Seq<u8> {
        self.state.peers@[(view as nat % self.n()) as int]@
    }

    pub open spec fn is_primary_spec(&self) -> bool {
        self.state.index as nat == self.state.view as nat % self.n()
    }

    pub open spec fn in_flight(&self) -> bool {
        self.state.phase == Phase::Preparing || self.state.phase == Phase::Committing
            || self.state.phase == Phase::Finishing
    }

    pub open spec fn wf(&self) -> bool {
        &&& self.state.peers@.len() >= 1
        &&& self.state.peers@.len() % 3 == 1
        &&& self.state.index < self.state.peers@.len()
        &&& self.state.f == (self.state.peers@.len() - 1) as nat / 3
        &&& self.msg_log.wf()
        &&& signers_within(self.msg_log@.messages, self.peer_ids())
        &&& (self.state.working_block is Some <==> self.in_flight())
        &&& (self.state.phase == Phase::Committing || self.state.phase == Phase::Finishing)
            ==> self.state.block_valid && self.prepared()
        &&& self.state.phase == Phase::Finishing ==> self.committed_locally()
        &&& self.state.mode == Mode::ViewChanging ==> self.state.pending_view > self.state.view
    }

    /// The working block has a quorum of prepares in the current round.
    pub open spec fn prepared(&self) -> bool {
        self.state.working_block matches Some(b) && votes(
            self.msg_log@.messages,
            self.state.view,
            self.state.seq_num,
            PbftMessageType::Prepare,
            b@,
        ) >= self.quorum()
    }

    /// The working block has a quorum of commits in the current round.
    pub open spec fn committed_locally(&self) -> bool {
        self.state.working_block matches Some(b) && votes(
            self.msg_log@.messages,
            self.state.view,
            self.state.seq_num,
            PbftMessageType::Commit,
            b@,
        ) >= self.quorum()
    }

    /// The vote this node casts in the current round.
    pub open spec fn own_vote(&self, ty: PbftMessageType, block: crate::message::BlockView) -> MsgView {
        MsgView {
            info: crate::message::InfoView {
                msg_type: ty,
                view: self.state.view,
                seq_num: self.state.seq_num,
                signer_id: self.local_id(),
            },
            block,
        }
    }

    /// A node with temporary id `id` that signs as the peer at `index` of
    /// `peers`, about to agree on the block after `head_block_num`, in view 0.
    /// The peer count must be `3f + 1`, so that any two quorums overlap.
    pub fn new(
        id: u64,
        index: u64,
        config: &PbftConfig,
        peers: Vec<Vec<u8>>,
        head_block_id: Vec<u8>,
        head_block_num: u64,
        now_ms: u64,
    ) -> (r: PbftNode)
        requires
            peers@.len() % 3 == 1,
            index < peers@.len(),
            head_block_num < u64::MAX,
        ensures
            r.wf(),
            r.state.id == id,
            r.state.index == index,
            ids_view(r.state.peers@) == ids_view(peers@),
            r.state.view == 0,
            r.state.seq_num == head_block_num + 1,
            r.state.last_committed_id@ == head_block_id@,
            r.state.phase == Phase::NotStarted,
            r.state.mode == Mode::Normal,
            r.state.last_progress_ms == now_ms,
            r.state.message_timeout_ms == config.message_timeout_ms,
            r.msg_log@.messages.len() == 0,
            r.state.working_block is None,
            r.msg_log@.view_changes.len() == 0,
            r.backlog@.len() == 0,
            r.actions@.len() == 0,
    {
        let f = ((peers.len() - 1) / 3) as u64;
        let log = MessageLog::new();
        PbftNode {
            state: PbftState {
                id,
                index,
                view: 0,
                seq_num: head_block_num + 1,
                phase: Phase::NotStarted,
                mode: Mode::Normal,
                pending_view: 0,
                peers,
                f,
                working_block: None,
                block_valid: false,
                last_committed_id: head_block_id,
                last_committed_view: 0,
                publishing: false,
                last_progress_ms: now_ms,
                message_timeout_ms: config.message_timeout_ms,
            },
            msg_log: log,
            backlog: Vec::new(),
            actions: Vec::new(),
        }
    }

    /// Opens the first round.
    pub fn start(&mut self, now_ms: u64)
        requires
            old(self).wf(),
        ensures
            final(self).wf(),
            final(self).state.phase == if old(self).state.phase == Phase::NotStarted {
                Phase::PrePreparing
            } else {
                old(self).state.phase
            },
            final(self).state.last_progress_ms == if old(self).state.phase == Phase::NotStarted {
                now_ms
            } else {
                old(self).state.last_progress_ms
            },
            final(self).state.view == old(self).state.view,
            final(self).state.seq_num == old(self).state.seq_num,
            final(self).msg_log@ == old(self).msg_log@,
    {
        if self.state.phase == Phase::NotStarted {
            self.state.phase = Phase::PrePreparing;
            self.state.last_progress_ms = now_ms;
        }
    }

    /// The quorum size, `2f + 1`.
    pub fn quorum_size(&self) -> (r: usize)
        requires
            self.wf(),
        ensures
            r == self.quorum(),
            r == quorum_of(self.n()),
            r <= self.n(),
    {
        proof {
            lemma_quorum_fits(self.n());
        }
        let f: usize = (self.state.peers.len() - 1) / 3;
        2 * f + 1
    }

    /// Whether this node is the primary of its current view.
    pub fn is_primary(&self) -> (r: bool)
        requires
            self.wf(),
        ensures
            r == self.is_primary_spec(),
    {
        self.state.index == self.state.view % (self.state.peers.len() as u64)
    }

    /// True when no progress was made for a full message timeout.
    pub fn check_timeout_expired(&self, now_ms: u64) -> (r: bool)
        ensures
            r == (now_ms >= self.state.last_progress_ms && now_ms - self.state.last_progress_ms
                >= self.state.message_timeout_ms),
    {
        now_ms >= self.state.last_progress_ms && now_ms - self.state.last_progress_ms
            >= self.state.message_timeout_ms
    }

    /// Connectivity does not change the membership: quorums are computed from
    /// the configured peers.
    pub fn on_peer_change(&mut self, peer_id: Vec<u8>, connected: bool) -> (r: Result<(), PbftError>)
        ensures
            r == Ok::<(), PbftError>(()),
            *final(self) == *old(self),
    {
        Ok(())
    }

    /// The primary asks the host for a block, once per round, when no round is in flight.
    pub fn try_publish(&mut self) -> (r: Result<(), PbftError>)
        requires
            old(self).wf(),
        ensures
            final(self).wf(),
            r is Ok,
            final(self).state.view == old(self).state.view,
            final(self).state.seq_num == old(self).state.seq_num,
            final(self).state.phase == old(self).state.phase,
            final(self).state.mode == old(self).state.mode,
            final(self).state.peers == old(self).state.peers,
            final(self).state.index == old(self).state.index,
            final(self).state.pending_view == old(self).state.pending_view,
            final(self).state.last_committed_id == old(self).state.last_committed_id,
            final(self).state.last_committed_view == old(self).state.last_committed_view,
            final(self).state.last_progress_ms == old(self).state.last_progress_ms,
            final(self).state.message_timeout_ms == old(self).state.message_timeout_ms,
            final(self).msg_log@ == old(self).msg_log@,
            ({
                let go = old(self).is_primary_spec() && old(self).state.mode == Mode::Normal
                    && old(self).state.phase == Phase::PrePreparing && !old(self).state.publishing;
                &&& go ==> final(self).actions@ == old(self).actions@.push(Action::PublishBlock)
                    && final(self).state.publishing
                &&& !go ==> final(self).actions@ == old(self).actions@
                    && final(self).state.publishing == old(self).state.publishing
            }),
    {
        if self.is_primary() && self.state.mode == Mode::Normal && self.state.phase
            == Phase::PrePreparing && !self.state.publishing {
            self.actions.push(Action::PublishBlock);
            self.state.publishing = true;
        }
        Ok(())
    }

    /// The slot of this node's own vote of phase `ty` in the current round.
    pub open spec fn own_info(&self, ty: PbftMessageType) -> crate::message::InfoView {
        crate::message::InfoView {
            msg_type: ty,
            view: self.state.view,
            seq_num: self.state.seq_num,
            signer_id: self.local_id(),
        }
    }

    /// The view a view change started now asks for.
    pub open spec fn next_view(&self) -> int {
        if self.state.mode == Mode::Normal {
            self.state.view as int + 1
        } else {
            self.state.pending_view as int + 1
        }
    }

    /// This node's view change for `target`, carrying the certificate of the
    /// last committed block: the commits for it in the view it was committed in.
    pub open spec fn own_view_change(&self, target: u64) -> ViewChangeView {
        ViewChangeView {
            info: crate::message::InfoView {
                msg_type: PbftMessageType::ViewChange,
                view: target,
                seq_num: self.state.seq_num,
                signer_id: self.local_id(),
            },
            checkpoint_messages: if self.state.seq_num > 0 {
                cert_votes(
                    self.msg_log@.messages,
                    self.state.last_committed_view,
                    (self.state.seq_num - 1) as u64,
                    self.state.last_committed_id@,
                )
            } else {
                Seq::empty()
            },
        }
    }

    /// The node went as far as its votes and the host's validation allow.
    pub open spec fn settled(&self) -> bool {
        &&& self.state.phase == Phase::Preparing ==> !(self.state.block_valid && self.prepared())
        &&& self.state.phase == Phase::Committing ==> !self.committed_locally()
    }

    /// Nothing of the node differs.
    pub open spec fn same_as(&self, o: &PbftNode) -> bool {
        self.state == o.state && self.msg_log@ == o.msg_log@ && self.backlog == o.backlog
            && self.actions == o.actions
    }

    /// A message of the current round that this node cannot handle yet.
    pub open spec fn premature(&self, view: u64, seq_num: u64) -> bool {
        view > self.state.view || seq_num > self.state.seq_num || self.state.mode
            == Mode::ViewChanging || self.state.phase == Phase::NotStarted
    }

    /// The vote is from a peer, of a commit phase, of the current round, and
    /// a pre-prepare only from the primary of its view.
    pub open spec fn admissible(&self, m: MsgView) -> bool {
        &&& self.peer_ids().contains(m.info.signer_id)
        &&& (m.info.msg_type == PbftMessageType::PrePrepare || m.info.msg_type
            == PbftMessageType::Prepare || m.info.msg_type == PbftMessageType::Commit)
        &&& m.info.view == self.state.view && m.info.seq_num == self.state.seq_num
        &&& !self.premature(m.info.view, m.info.seq_num)
        &&& m.info.msg_type == PbftMessageType::PrePrepare ==> m.info.signer_id == self.primary_of(
            m.info.view,
        )
    }

    fn own_message(&self, ty: PbftMessageType, block: &PbftBlock) -> (r: PbftMessage)
        requires
            self.wf(),
        ensures
            r@ == self.own_vote(ty, block@),
            self.peer_ids().contains(r@.info.signer_id),
    {
        let n = self.state.peers.len();
        assert(self.state.index < n);
        assert(self.peer_ids()[self.state.index as int] == self.local_id());
        PbftMessage {
            info: PbftMessageInfo {
                msg_type: ty,
                view: self.state.view,
                seq_num: self.state.seq_num,
                signer_id: copy_bytes(&self.state.peers[self.state.index as usize]),
            },
            block: block.duplicate(),
        }
    }

    /// Records a vote signed by one of the peers.
    fn record_vote(&mut self, msg: PbftMessage) -> (r: Result<(), PbftError>)
        requires
            old(self).wf(),
            old(self).peer_ids().contains(msg@.info.signer_id),
        ensures
            final(self).wf(),
            final(self).state == old(self).state,
            final(self).backlog == old(self).backlog,
            final(self).actions == old(self).actions,
            final(self).msg_log@.view_changes == old(self).msg_log@.view_changes,
            forall|m: MsgView|
                old(self).msg_log@.messages.contains(m) ==> #[trigger] final(self).msg_log@.messages.contains(m),
            match record_outcome(old(self).msg_log@.messages, msg@) {
                None => r == Err::<(), PbftError>(PbftError::ConflictingMessage) && final(self).msg_log@
                    == old(self).msg_log@,
                Some(l) => r is Ok && final(self).msg_log@.messages == l,
            },
    {
        let ghost m = msg@;
        let ghost s = self.msg_log@.messages;
        let r = self.msg_log.record(msg);
        proof {
            if r is Ok {
                let l = self.msg_log@.messages;
                assert forall|x: MsgView| s.contains(x) implies l.contains(x) by {
                    let k = choose|k: int| 0 <= k < s.len() && s[k] == x;
                    if l != s {
                        assert(l[k] == s[k]);
                    }
                }
                lemma_record_keeps_signers(s, self.peer_ids(), m);
                let wb = self.state.working_block;
                if wb is Some {
                    let b = wb->0@;
                    let (v, q) = (self.state.view, self.state.seq_num);
                    lemma_record_keeps_votes(s, m, v, q, PbftMessageType::Prepare, b);
                    lemma_record_keeps_votes(s, m, v, q, PbftMessageType::Commit, b);
                }
            }
        }
        r
    }

    /// Moves through the prepare and commit steps as far as the stored
    /// quorums and the host's validation allow.
    fn try_advance(&mut self, now_ms: u64) -> (r: Result<(), PbftError>)
        requires
            old(self).wf(),
        ensures
            final(self).wf(),
            final(self).state.view == old(self).state.view,
            final(self).state.seq_num == old(self).state.seq_num,
            final(self).state.mode == old(self).state.mode,
            final(self).state.working_block == old(self).state.working_block,
            final(self).backlog == old(self).backlog,
            final(self).state.block_valid == old(self).state.block_valid,
            forall|m: MsgView|
                old(self).msg_log@.messages.contains(m) ==> #[trigger] final(self).msg_log@.messages.contains(m),
            final(self).msg_log@.view_changes == old(self).msg_log@.view_changes,
            advanced(old(self), final(self)),
            r is Ok ==> final(self).settled(),
            r is Err ==> r == Err::<(), PbftError>(PbftError::ConflictingMessage) && final(self).same_as(old(self)),
            slot_free(old(self).msg_log@.messages, old(self).own_info(PbftMessageType::Commit)) ==> r is Ok,
    {
        if self.state.phase == Phase::Preparing && self.state.block_valid {
            let b = match &self.state.working_block {
                Some(b) => b.duplicate(),
                None => {
                    return Ok(());
                },
            };
            let q = self.quorum_size();
            let n = self.msg_log.count_votes(self.state.view, self.state.seq_num, PbftMessageType::Prepare, &b);
            if n >= q {
                let commit = self.own_message(PbftMessageType::Commit, &b);
                if self.msg_log.slot_taken(&commit.info) {
                    return Err(PbftError::ConflictingMessage);
                }
                let out = commit.duplicate();
                let ghost s = self.msg_log@.messages;
                let ghost cv = commit@;
                let ghost a0 = self.actions@;
                let res = self.record_vote(commit);
                proof {
                    lemma_record_keeps_votes(s, cv, self.state.view, self.state.seq_num, PbftMessageType::Prepare, b@);
                    lemma_record_keeps_votes(s, cv, self.state.view, self.state.seq_num, PbftMessageType::Commit, b@);
                }
                let ghost ov = out@;
                self.actions.push(Action::Broadcast(PeerMessage::Pbft(out)));
                assert(actions_view(self.actions@) =~= actions_view(a0).push(ActionView::Broadcast(PeerMessageView::Pbft(ov))));
                self.state.phase = Phase::Committing;
                self.state.last_progress_ms = now_ms;
            }
        }
        if self.state.phase == Phase::Committing {
            let b = match &self.state.working_block {
                Some(b) => b.duplicate(),
                None => {
                    return Ok(());
                },
            };
            let q = self.quorum_size();
            let n = self.msg_log.count_votes(self.state.view, self.state.seq_num, PbftMessageType::Commit, &b);
            if n >= q {
                let ghost a0 = self.actions@;
                let id = copy_bytes(&b.block_id);
                self.actions.push(Action::CommitBlock(id));
                assert(actions_view(self.actions@) =~= actions_view(a0).push(ActionView::CommitBlock(b@.block_id)));
                self.state.phase = Phase::Finishing;
                self.state.last_progress_ms = now_ms;
            }
        }
        Ok(())
    }

    /// Takes `block` as the block of the current round: casts and sends this
    /// node's prepare and asks the host to validate the block.
    fn accept_block(&mut self, block: PbftBlock, now_ms: u64) -> (r: Result<(), PbftError>)
        requires
            old(self).wf(),
            old(self).state.phase == Phase::PrePreparing,
        ensures
            final(self).wf(),
            final(self).state.view == old(self).state.view,
            final(self).state.seq_num == old(self).state.seq_num,
            final(self).state.mode == old(self).state.mode,
            final(self).backlog == old(self).backlog,
            r is Ok ==> (final(self).state.working_block matches Some(b) && b@ == block@),
            r is Ok ==> final(self).state.phase == Phase::Preparing,
            r is Ok ==> actions_view(final(self).actions@) == actions_view(old(self).actions@).push(
                ActionView::CheckBlock(block@.block_id),
            ).push(ActionView::Broadcast(PeerMessageView::Pbft(old(self).own_vote(PbftMessageType::Prepare, block@)))),
            final(self).msg_log@.view_changes == old(self).msg_log@.view_changes,
            r is Err ==> final(self).same_as(old(self)),
            slot_free(old(self).msg_log@.messages, old(self).own_info(PbftMessageType::Prepare)) ==> r is Ok,
            forall|m: MsgView|
                old(self).msg_log@.messages.contains(m) ==> #[trigger] final(self).msg_log@.messages.contains(m),
    {
        let prepare = self.own_message(PbftMessageType::Prepare, &block);
        if self.msg_log.slot_taken(&prepare.info) {
            return Err(PbftError::ConflictingMessage);
        }
        let out = prepare.duplicate();
        let res = self.record_vote(prepare);
        let ghost a0 = self.actions@;
        let ghost ov = out@;
        self.actions.push(Action::CheckBlock(copy_bytes(&block.block_id)));
        self.actions.push(Action::Broadcast(PeerMessage::Pbft(out)));
        assert(actions_view(self.actions@) =~= actions_view(a0).push(ActionView::CheckBlock(block@.block_id)).push(
            ActionView::Broadcast(PeerMessageView::Pbft(ov))));
        self.state.working_block = Some(block);
        self.state.block_valid = false;
        self.state.phase = Phase::Preparing;
        self.state.last_progress_ms = now_ms;
        Ok(())
    }

    /// A new block from the host. A block that does not extend the last
    /// committed block is refused. The primary proposes it to its peers in a
    /// pre-prepare and prepares it; a backup waits for the primary's proposal.
    pub fn on_block_new(&mut self, block: PbftBlock, now_ms: u64) -> (r: Result<(), PbftError>)
        requires
            old(self).wf(),
        ensures
            final(self).wf(),
            final(self).state.view == old(self).state.view,
            final(self).state.seq_num == old(self).state.seq_num,
            final(self).backlog == old(self).backlog,
            block_new_step(old(self), final(self), block@, r),
    {
        if self.state.mode != Mode::Normal || self.state.phase != Phase::PrePreparing
            || block.block_num != self.state.seq_num {
            return Err(PbftError::NotReadyForMessage);
        }
        if !bytes_eq(&block.previous_id, &self.state.last_committed_id) {
            return Err(PbftError::UnknownBlock);
        }
        if !self.is_primary() {
            return Ok(());
        }
        let pre = self.own_message(PbftMessageType::PrePrepare, &block);
        let prepare = self.own_message(PbftMessageType::Prepare, &block);
        if self.msg_log.slot_taken(&pre.info) || self.msg_log.slot_taken(&prepare.info) {
            return Err(PbftError::ConflictingMessage);
        }
        let ghost pv = pre@;
        let ghost s0 = self.msg_log@.messages;
        let out = pre.duplicate();
        let res = self.record_vote(pre);
        assert(self.msg_log@.messages.contains(pv)) by {
            let s = self.msg_log@.messages;
            assert(s[s.len() - 1] == pv);
        }
        proof {
            let info = old(self).own_info(PbftMessageType::Prepare);
            let s1 = self.msg_log@.messages;
            assert forall|i: int| 0 <= i < s1.len() implies !crate::log::same_key(#[trigger] s1[i].info, info) by {
                if i < s0.len() {
                    assert(s1[i] == s0[i]);
                }
            }
        }
        let ghost a0 = self.actions@;
        let ghost ov = out@;
        self.actions.push(Action::Broadcast(PeerMessage::Pbft(out)));
        assert(actions_view(self.actions@) =~= actions_view(a0).push(ActionView::Broadcast(PeerMessageView::Pbft(ov))));
        let r = self.accept_block(block, now_ms);
        assert(self.msg_log@.messages.contains(pv));
        r
    }

    /// The host found `block_id` valid. Where it is the working block, the
    /// node may now commit to it once prepared.
    pub fn on_block_valid(&mut self, block_id: Vec<u8>, now_ms: u64) -> (r: Result<(), PbftError>)
        requires
            old(self).wf(),
        ensures
            final(self).wf(),
            final(self).state.view == old(self).state.view,
            final(self).state.seq_num == old(self).state.seq_num,
            final(self).backlog == old(self).backlog,
            !(old(self).state.working_block matches Some(b) && b@.block_id == block_id@) ==> r
                == Err::<(), PbftError>(PbftError::UnknownBlock) && final(self).same_as(old(self)),
            (old(self).state.working_block matches Some(b) && b@.block_id == block_id@) ==> final(self).state.block_valid,
            block_valid_step(old(self), final(self), block_id@, r),
    {
        let known = match &self.state.working_block {
            Some(b) => bytes_eq(&b.block_id, &block_id),
            None => false,
        };
        if !known {
            return Err(PbftError::UnknownBlock);
        }
        self.state.block_valid = true;
        self.try_advance(now_ms)
    }

    /// The host committed `block_id`. Where it is the block this node asked
    /// to commit, the round is over: the next sequence number opens, and the
    /// votes of rounds before the finished one are dropped.
    pub fn on_block_commit(&mut self, block_id: Vec<u8>, now_ms: u64) -> (r: Result<(), PbftError>)
        requires
            old(self).wf(),
        ensures
            final(self).wf(),
            final(self).backlog == old(self).backlog,
            final(self).actions == old(self).actions,
            final(self).state.view == old(self).state.view,
            !(old(self).state.phase == Phase::Finishing && (old(self).state.working_block matches Some(b) && b@.block_id == block_id@)) ==> r
                == Err::<(), PbftError>(PbftError::UnknownBlock) && final(self).same_as(old(self)),
            old(self).state.phase == Phase::Finishing && (old(self).state.working_block matches Some(b) && b@.block_id == block_id@)
                && old(self).state.seq_num < u64::MAX ==> r is Ok,
            old(self).state.phase == Phase::Finishing && (old(self).state.working_block matches Some(b) && b@.block_id == block_id@)
                && old(self).state.seq_num == u64::MAX ==> r == Err::<(), PbftError>(
                PbftError::CounterExhausted,
            ) && final(self).same_as(old(self)),
            r is Ok ==> {
                &&& final(self).state.seq_num == old(self).state.seq_num + 1
                &&& final(self).state.phase == Phase::PrePreparing
                &&& final(self).state.working_block is None
                &&& !final(self).state.block_valid
                &&& !final(self).state.publishing
                &&& final(self).state.last_progress_ms == now_ms
                &&& final(self).state.last_committed_id@ == block_id@
                &&& final(self).state.last_committed_view == old(self).state.view
                &&& final(self).msg_log@.messages == old(self).msg_log@.messages.filter(
                    |m: MsgView| m.info.seq_num >= old(self).state.seq_num,
                )
            },
    {
        let known = match &self.state.working_block {
            Some(b) => bytes_eq(&b.block_id, &block_id),
            None => false,
        };
        if !(self.state.phase == Phase::Finishing && known) {
            return Err(PbftError::UnknownBlock);
        }
        if self.state.seq_num == u64::MAX {
            return Err(PbftError::CounterExhausted);
        }
        let done = self.state.seq_num;
        self.msg_log.prune_below(done);
        proof {
            lemma_filter_keeps_signers(
                old(self).msg_log@.messages,
                self.peer_ids(),
                |m: MsgView| m.info.seq_num >= done,
            );
        }
        self.state.seq_num = done + 1;
        self.state.last_committed_id = block_id;
        self.state.last_committed_view = self.state.view;
        self.state.phase = Phase::PrePreparing;
        self.state.working_block = None;
        self.state.block_valid = false;
        self.state.publishing = false;
        self.state.last_progress_ms = now_ms;
        Ok(())
    }

    /// Enters view `view`: a new primary, and the round restarts.
    fn adopt_view(&mut self, view: u64, now_ms: u64)
        requires
            old(self).wf(),
            view > old(self).state.view,
        ensures
            final(self).wf(),
            final(self).state.view == view,
            final(self).state.mode == Mode::Normal,
            final(self).state.phase == Phase::PrePreparing,
            final(self).state.working_block is None,
            final(self).state.seq_num == old(self).state.seq_num,
            final(self).state.last_progress_ms == now_ms,
            final(self).msg_log@ == old(self).msg_log@,
            final(self).backlog == old(self).backlog,
            final(self).actions == old(self).actions,
    {
        self.state.view = view;
        self.state.pending_view = view;
        self.state.mode = Mode::Normal;
        self.state.phase = Phase::PrePreparing;
        self.state.working_block = None;
        self.state.block_valid = false;
        self.state.publishing = false;
        self.state.last_progress_ms = now_ms;
    }

    /// Asks the peers to move to the next view: to the view after the
    /// current one, or after the one already asked for. The view change
    /// carries the commits of the last finished round as checkpoint.
    pub fn start_view_change(&mut self, now_ms: u64) -> (r: Result<(), PbftError>)
        requires
            old(self).wf(),
        ensures
            final(self).wf(),
            final(self).state.seq_num == old(self).state.seq_num,
            final(self).msg_log@.messages == old(self).msg_log@.messages,
            final(self).backlog == old(self).backlog,
            ({
                let target = if old(self).state.mode == Mode::Normal {
                    old(self).state.view as int + 1
                } else {
                    old(self).state.pending_view as int + 1
                };
                &&& target > u64::MAX ==> r == Err::<(), PbftError>(PbftError::CounterExhausted)
                    && final(self).same_as(old(self))
                &&& r is Ok ==> final(self).state.last_progress_ms == now_ms && ((final(self).state.mode == Mode::ViewChanging && final(self).state.pending_view == target
                    && final(self).state.view == old(self).state.view) || (final(self).state.mode
                    == Mode::Normal && final(self).state.view == target && final(self).state.phase
                    == Phase::PrePreparing))
                &&& r is Ok ==> exists|i: int|
                    0 <= i < final(self).msg_log@.view_changes.len() && #[trigger] final(self).msg_log@.view_changes[i].info == (crate::message::InfoView {
                        msg_type: PbftMessageType::ViewChange,
                        view: target as u64,
                        seq_num: old(self).state.seq_num,
                        signer_id: old(self).local_id(),
                    })
            }),
            view_change_step(old(self), final(self), r),
    {
        let base = if self.state.mode == Mode::Normal {
            self.state.view
        } else {
            self.state.pending_view
        };
        if base == u64::MAX {
            return Err(PbftError::CounterExhausted);
        }
        let target = base + 1;
        let checkpoint = if self.state.seq_num > 0 {
            self.msg_log.certificate(
                self.state.last_committed_view,
                self.state.seq_num - 1,
                &self.state.last_committed_id,
            )
        } else {
            Vec::new()
        };
        let n = self.state.peers.len();
        assert(self.state.index < n);
        let vc = PbftViewChange {
            info: PbftMessageInfo {
                msg_type: PbftMessageType::ViewChange,
                view: target,
                seq_num: self.state.seq_num,
                signer_id: copy_bytes(&self.state.peers[self.state.index as usize]),
            },
            checkpoint_messages: checkpoint,
        };
        assert(vc@.checkpoint_messages =~= old(self).own_view_change(target).checkpoint_messages);
        assert(vc@ == old(self).own_view_change(target));
        let out = vc.duplicate();
        let ghost vv = vc@;
        let ghost s = self.msg_log@.view_changes;
        let res = self.msg_log.record_view_change(vc);
        if res.is_err() {
            return res;
        }
        assert(self.msg_log@.view_changes.contains(vv)) by {
            let t = self.msg_log@.view_changes;
            if !s.contains(vv) {
                assert(t[t.len() - 1] == vv);
            }
        }
        let ghost a0 = self.actions@;
        self.actions.push(Action::Broadcast(PeerMessage::ViewChange(out)));
        assert(actions_view(self.actions@) =~= actions_view(a0).push(ActionView::Broadcast(PeerMessageView::ViewChange(vv))));
        self.state.mode = Mode::ViewChanging;
        self.state.pending_view = target;
        self.state.last_progress_ms = now_ms;
        let q = self.quorum_size();
        if self.msg_log.count_view_changes(target) >= q {
            self.adopt_view(target, now_ms);
        }
        Ok(())
    }

    /// A view change from a peer. One whose checkpoint is not a set of
    /// matching commits of the round before is refused. Past views are
    /// dropped; otherwise it is
    /// recorded, and once a quorum of peers asks for the same view the node
    /// enters it.
    pub fn on_view_change(&mut self, vc: PbftViewChange, now_ms: u64) -> (r: Result<(), PbftError>)
        requires
            old(self).wf(),
        ensures
            final(self).wf(),
            view_change_received_step(old(self), final(self), vc@, now_ms, r),
    {
        if !ids_contain(&self.state.peers, &vc.info.signer_id) {
            return Err(PbftError::UnknownSigner);
        }
        let q = self.quorum_size();
        if vc.info.msg_type != PbftMessageType::ViewChange || !check_checkpoint(&vc, &self.state.peers, q) {
            return Err(PbftError::InvalidMessage);
        }
        if vc.info.view <= self.state.view {
            return Ok(());
        }
        let view = vc.info.view;
        let res = self.msg_log.record_view_change(vc);
        if res.is_err() {
            return res;
        }
        let q = self.quorum_size();
        if self.msg_log.count_view_changes(view) >= q {
            self.adopt_view(view, now_ms);
        }
        Ok(())
    }

    /// Any message from a peer, handed to the handler of its kind. Membership
    /// changes are not acted on: the peer set is fixed for the node's lifetime.
    pub fn on_peer_message(&mut self, msg: PeerMessage, now_ms: u64) -> (r: Result<(), PbftError>)
        requires
            old(self).wf(),
        ensures
            final(self).wf(),
            final(self).state.seq_num == old(self).state.seq_num,
            forall|x: MsgView|
                old(self).msg_log@.messages.contains(x) ==> #[trigger] final(self).msg_log@.messages.contains(x),
            final(self).backlog@ == old(self).backlog@ || final(self).backlog@ == old(self).backlog@.push(msg),
            msg is NetworkChange ==> r == Ok::<(), PbftError>(()) && final(self).same_as(old(self)),
            (msg matches PeerMessage::Pbft(m) && old(self).admissible(m@) && record_outcome(
                old(self).msg_log@.messages,
                m@,
            ) is Some && (m.info.msg_type == PbftMessageType::PrePrepare && old(self).state.phase
                == Phase::PrePreparing ==> slot_free(old(self).msg_log@.messages, old(self).own_info(
                PbftMessageType::Prepare,
            )))) ==> (msg matches PeerMessage::Pbft(m) && final(self).msg_log@.messages.contains(m@)),
            (msg matches PeerMessage::Pbft(m) && old(self).peer_ids().contains(m@.info.signer_id)
                && (m.info.msg_type == PbftMessageType::PrePrepare || m.info.msg_type
                == PbftMessageType::Prepare || m.info.msg_type == PbftMessageType::Commit)
                && m.info.view >= old(self).state.view && m.info.seq_num >= old(self).state.seq_num
                && old(self).premature(m.info.view, m.info.seq_num)) ==> r == Err::<(), PbftError>(
                PbftError::NotReadyForMessage,
            ) && final(self).backlog@ == old(self).backlog@.push(msg) && final(self).state
                == old(self).state && final(self).msg_log@ == old(self).msg_log@,
            msg matches PeerMessage::Pbft(m) ==> pbft_step(old(self), final(self), m@, r),
            msg matches PeerMessage::ViewChange(vc) ==> view_change_received_step(old(self), final(self), vc@, now_ms, r),
    {
        match msg {
            PeerMessage::Pbft(m) => self.on_pbft_message(m, now_ms),
            PeerMessage::ViewChange(vc) => self.on_view_change(vc, now_ms),
            PeerMessage::NetworkChange(_) => Ok(()),
        }
    }

    /// The first deferred message, where it is a vote that the node would
    /// now take and record.
    pub open spec fn ready_head(&self) -> Option<MsgView> {
        if self.backlog@.len() > 0 {
            match self.backlog@[0] {
                PeerMessage::Pbft(m) => if self.admissible(m@) && record_outcome(
                    self.msg_log@.messages,
                    m@,
                ) is Some && (m.info.msg_type == PbftMessageType::PrePrepare && self.state.phase
                    == Phase::PrePreparing ==> slot_free(
                    self.msg_log@.messages,
                    self.own_info(PbftMessageType::Prepare),
                )) {
                    Some(m@)
                } else {
                    None
                },
                _ => None,
            }
        } else {
            None
        }
    }

    /// Hands every deferred message, in order of arrival, to
    /// `on_peer_message` once more; those still premature go back to the
    /// backlog in the same order.
    pub fn retry_backlog(&mut self, now_ms: u64) -> (r: Result<(), PbftError>)
        requires
            old(self).wf(),
        ensures
            final(self).wf(),
            r is Ok,
            final(self).state.seq_num == old(self).state.seq_num,
            final(self).backlog@.len() <= old(self).backlog@.len(),
            forall|x: MsgView|
                old(self).msg_log@.messages.contains(x) ==> #[trigger] final(self).msg_log@.messages.contains(x),
            old(self).ready_head() matches Some(v) ==> final(self).msg_log@.messages.contains(v),
            forall|x: PeerMessage|
                final(self).backlog@.contains(x) ==> #[trigger] old(self).backlog@.contains(x),
            ordered_subseq(final(self).backlog@, old(self).backlog@),
    {
        let n = self.backlog.len();
        let mut k: usize = 0;
        let ghost mut rq: Seq<PeerMessage> = Seq::empty();
        let ghost mut idx: Seq<int> = Seq::empty();
        assert(self.backlog@ =~= old(self).backlog@.subrange(0, n as int) + rq);
        while k < n
            invariant
                self.wf(),
                k <= n,
                n == old(self).backlog@.len(),
                self.backlog@.len() <= n,
                self.state.seq_num == old(self).state.seq_num,
                forall|x: MsgView|
                    old(self).msg_log@.messages.contains(x) ==> #[trigger] self.msg_log@.messages.contains(x),
                k == 0 ==> *self == *old(self),
                k > 0 ==> (old(self).ready_head() matches Some(v) ==> self.msg_log@.messages.contains(v)),
                forall|x: PeerMessage|
                    self.backlog@.contains(x) ==> #[trigger] old(self).backlog@.contains(x),
                self.backlog@ == old(self).backlog@.subrange(k as int, n as int) + rq,
                idx.len() == rq.len(),
                forall|t: int| 0 <= t < rq.len() ==> 0 <= #[trigger] idx[t] < k && rq[t] == old(self).backlog@[idx[t]],
                forall|t: int, u: int| 0 <= t < u < rq.len() ==> #[trigger] idx[t] < #[trigger] idx[u],
            ensures
                self.backlog@ == old(self).backlog@.subrange(k as int, n as int) + rq,
                idx.len() == rq.len(),
                forall|t: int| 0 <= t < rq.len() ==> 0 <= #[trigger] idx[t] < k && rq[t] == old(self).backlog@[idx[t]],
                forall|t: int, u: int| 0 <= t < u < rq.len() ==> #[trigger] idx[t] < #[trigger] idx[u],
                forall|x: PeerMessage|
                    self.backlog@.contains(x) ==> #[trigger] old(self).backlog@.contains(x),
                self.wf(),
                self.backlog@.len() <= n,
                self.state.seq_num == old(self).state.seq_num,
                forall|x: MsgView|
                    old(self).msg_log@.messages.contains(x) ==> #[trigger] self.msg_log@.messages.contains(x),
                k > 0 || n == 0,
                k == n || self.backlog@.len() == 0,
                k > 0 ==> (old(self).ready_head() matches Some(v) ==> self.msg_log@.messages.contains(v)),
            decreases n - k,
        {
            if self.backlog.len() == 0 {
                break;
            }
            let ghost first = k == 0;
            let ghost b0 = self.backlog@;
            let msg = self.backlog.remove(0);
            proof {
                assert(b0.contains(msg)) by {
                    assert(b0[0] == msg);
                }
                assert forall|x: PeerMessage| self.backlog@.contains(x) implies old(self).backlog@.contains(x) by {
                    let j = choose|j: int| 0 <= j < self.backlog@.len() && self.backlog@[j] == x;
                    assert(b0[j + 1] == x);
                }
                if first {
                    assert(msg == old(self).backlog@[0]);
                    assert(self.state == old(self).state && self.msg_log@ == old(self).msg_log@);
                }
            }
            let ghost b1 = self.backlog@;
            let ghost mg = msg;
            proof {
                assert(mg == old(self).backlog@[k as int]);
                assert(b1 =~= old(self).backlog@.subrange(k + 1, n as int) + rq);
            }
            let _ = self.on_peer_message(msg, now_ms);
            proof {
                if self.backlog@.len() > b1.len() {
                    assert(self.backlog@ == b1.push(mg));
                    rq = rq.push(mg);
                    idx = idx.push(k as int);
                    assert(self.backlog@ =~= old(self).backlog@.subrange(k + 1, n as int) + rq);
                } else {
                    assert(self.backlog@ == b1);
                }
                assert forall|x: PeerMessage| self.backlog@.contains(x) implies old(self).backlog@.contains(x) by {
                    let j = choose|j: int| 0 <= j < self.backlog@.len() && self.backlog@[j] == x;
                    if j < b1.len() {
                        assert(b1[j] == x);
                        assert(b1.contains(x));
                    } else {
                        assert(x == mg);
                    }
                }
                if first {
                    if old(self).ready_head() is Some {
                        assert(self.msg_log@.messages.contains(old(self).ready_head()->0));
                    }
                }
            }
            k = k + 1;
        }
        proof {
            assert(old(self).backlog@.subrange(k as int, n as int).len() == n - k);
            assert(self.backlog@ =~= rq);
            assert(idx.len() == self.backlog@.len());
        }
        Ok(())
    }

    /// A vote from a peer. Votes from strangers, of the wrong kind, or
    /// pre-prepares from a backup are refused; votes of past rounds are
    /// dropped; votes of rounds not reached yet go to the backlog. Any other
    /// vote is recorded, a pre-prepare starts the round, and the node
    /// advances as far as the stored votes allow.
    pub fn on_pbft_message(&mut self, m: PbftMessage, now_ms: u64) -> (r: Result<(), PbftError>)
        requires
            old(self).wf(),
        ensures
            final(self).wf(),
            final(self).state.view == old(self).state.view,
            final(self).state.seq_num == old(self).state.seq_num,
            final(self).msg_log@.view_changes == old(self).msg_log@.view_changes,
            forall|x: MsgView|
                old(self).msg_log@.messages.contains(x) ==> #[trigger] final(self).msg_log@.messages.contains(x),
            !old(self).peer_ids().contains(m@.info.signer_id) ==> r == Err::<(), PbftError>(
                PbftError::UnknownSigner,
            ) && final(self).same_as(old(self)),
            old(self).peer_ids().contains(m@.info.signer_id) && (m.info.msg_type
                == PbftMessageType::ViewChange || m.info.msg_type == PbftMessageType::NetworkChange)
                ==> r == Err::<(), PbftError>(PbftError::InvalidMessage) && final(self).same_as(
                old(self),
            ),
            (m.info.view < old(self).state.view || m.info.seq_num < old(self).state.seq_num) && r
                is Ok ==> final(self).same_as(old(self)),
            ({
                let o = old(self);
                o.peer_ids().contains(m@.info.signer_id) && m.info.msg_type
                    != PbftMessageType::ViewChange && m.info.msg_type
                    != PbftMessageType::NetworkChange && m.info.view >= o.state.view
                    && m.info.seq_num >= o.state.seq_num && o.premature(m.info.view, m.info.seq_num)
                    ==> r == Err::<(), PbftError>(PbftError::NotReadyForMessage) && final(self).state
                    == o.state && final(self).msg_log@ == o.msg_log@ && final(self).actions
                    == o.actions && final(self).backlog@ == o.backlog@.push(PeerMessage::Pbft(m))
            }),
            old(self).admissible(m@) && record_outcome(old(self).msg_log@.messages, m@) is None
                ==> r == Err::<(), PbftError>(PbftError::ConflictingMessage) && final(self).same_as(
                old(self),
            ),
            old(self).admissible(m@) && record_outcome(old(self).msg_log@.messages, m@) is Some
                && (m.info.msg_type == PbftMessageType::PrePrepare && old(self).state.phase
                == Phase::PrePreparing ==> slot_free(old(self).msg_log@.messages, old(self).own_info(
                PbftMessageType::Prepare,
            ))) ==> final(self).msg_log@.messages.contains(m@),
            r is Err && !(r == Err::<(), PbftError>(PbftError::NotReadyForMessage)) ==> final(self).backlog == old(self).backlog,
            final(self).backlog@ == old(self).backlog@ || final(self).backlog@ == old(self).backlog@.push(PeerMessage::Pbft(m)),
            pbft_step(old(self), final(self), m@, r),
    {
        if !ids_contain(&self.state.peers, &m.info.signer_id) {
            return Err(PbftError::UnknownSigner);
        }
        if m.info.msg_type == PbftMessageType::ViewChange || m.info.msg_type
            == PbftMessageType::NetworkChange {
            return Err(PbftError::InvalidMessage);
        }
        if m.info.view < self.state.view || m.info.seq_num < self.state.seq_num {
            return Ok(());
        }
        if m.info.view > self.state.view || m.info.seq_num > self.state.seq_num || self.state.mode
            == Mode::ViewChanging || self.state.phase == Phase::NotStarted {
            self.backlog.push(PeerMessage::Pbft(m));
            return Err(PbftError::NotReadyForMessage);
        }
        let is_pre = m.info.msg_type == PbftMessageType::PrePrepare;
        if is_pre {
            let n = self.state.peers.len();
            let p = (self.state.view % (n as u64)) as usize;
            if !bytes_eq(&self.state.peers[p], &m.info.signer_id) {
                return Err(PbftError::NotFromPrimary);
            }
        }
        let start_round = is_pre && self.state.phase == Phase::PrePreparing;
        let block = m.block.duplicate();
        if start_round {
            let prepare = self.own_message(PbftMessageType::Prepare, &block);
            if self.msg_log.slot_taken(&prepare.info) {
                return Err(PbftError::ConflictingMessage);
            }
        }
        let ghost mv = m@;
        let ghost s0 = self.msg_log@.messages;
        let res = self.record_vote(m);
        if res.is_err() {
            return res;
        }
        assert(self.msg_log@.messages.contains(mv)) by {
            let s = self.msg_log@.messages;
            if old(self).msg_log@.messages.contains(mv) {
            } else {
                assert(s[s.len() - 1] == mv);
            }
        }
        if start_round {
            proof {
                let info = old(self).own_info(PbftMessageType::Prepare);
                let s1 = self.msg_log@.messages;
                assert forall|i: int| 0 <= i < s1.len() implies !crate::log::same_key(#[trigger] s1[i].info, info) by {
                    if i < s0.len() {
                        assert(s1[i] == s0[i]);
                    }
                }
            }
            return self.accept_block(block, now_ms);
        }
        self.try_advance(now_ms)
    }
}

} // verus!

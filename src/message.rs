//! The protocol messages and their identity: two messages are the same entity
//! exactly when every visible field is identical.

use vstd::prelude::*;

verus! {

/// Compares two byte strings.
pub fn bytes_eq(a: &Vec<u8>, b: &Vec<u8>) -> (r: bool)
    ensures
        r == (a@ == b@),
{
    if a.len() != b.len() {
        return false;
    }
    let mut i: usize = 0;
    while i < a.len()
        invariant
            a@.len() == b@.len(),
            i <= a@.len(),
            forall|k: int| 0 <= k < i ==> a@[k] == b@[k],
        decreases a@.len() - i,
    {
        if a[i] != b[i] {
            return false;
        }
        i = i + 1;
    }
    assert(a@ =~= b@);
    true
}

/// Copies a byte string.
pub fn copy_bytes(v: &Vec<u8>) -> (r: Vec<u8>)
    ensures
        r@ == v@,
{
    let r = v.clone();
    assert(r@ =~= v@);
    r
}

/// The phase or sub-protocol a message belongs to.
#[derive(Clone, Copy, Debug, PartialEq, Eq, Structural, Hash)]
pub enum PbftMessageType {
    PrePrepare,
    Prepare,
    Commit,
    ViewChange,
    NetworkChange,
}

/// Which phase, round and signer a message belongs to.
#[derive(Clone, Debug, Hash)]
pub struct PbftMessageInfo {
    pub msg_type: PbftMessageType,
    pub view: u64,
    pub seq_num: u64,
    pub signer_id: Vec<u8>,
}

/// The value of an info header, byte strings as sequences.
pub struct InfoView {
    pub msg_type: PbftMessageType,
    pub view: u64,
    pub seq_num: u64,
    pub signer_id: Seq<u8>,
}

impl View for PbftMessageInfo {
    type V = InfoView;

    open spec fn view(&self) -> InfoView {
        InfoView {
            msg_type: self.msg_type,
            view: self.view,
            seq_num: self.seq_num,
            signer_id: self.signer_id@,
        }
    }
}

impl PartialEq for PbftMessageInfo {
    fn eq(&self, o: &PbftMessageInfo) -> (r: bool) {
        self.msg_type == o.msg_type && self.view == o.view && self.seq_num == o.seq_num
            && bytes_eq(&self.signer_id, &o.signer_id)
    }
}

impl vstd::std_specs::cmp::PartialEqSpecImpl for PbftMessageInfo {
    open spec fn obeys_eq_spec() -> bool {
        true
    }

    open spec fn eq_spec(&self, o: &PbftMessageInfo) -> bool {
        self@ == o@
    }
}

impl Eq for PbftMessageInfo {}

impl PbftMessageInfo {
    /// A copy with the same view.
    pub fn duplicate(&self) -> (r: PbftMessageInfo)
        ensures
            r@ == self@,
    {
        PbftMessageInfo {
            msg_type: self.msg_type,
            view: self.view,
            seq_num: self.seq_num,
            signer_id: copy_bytes(&self.signer_id),
        }
    }
}

/// A candidate or finalized chain block.
#[derive(Clone, Debug, Hash)]
pub struct PbftBlock {
    pub block_id: Vec<u8>,
    pub block_num: u64,
    pub signer_id: Vec<u8>,
    pub previous_id: Vec<u8>,
    pub summary: Vec<u8>,
}

/// The value of a block, byte strings as sequences.
pub struct BlockView {
    pub block_id: Seq<u8>,
    pub block_num: u64,
    pub signer_id: Seq<u8>,
    pub previous_id: Seq<u8>,
    pub summary: Seq<u8>,
}

impl View for PbftBlock {
    type V = BlockView;

    open spec fn view(&self) -> BlockView {
        BlockView {
            block_id: self.block_id@,
            block_num: self.block_num,
            signer_id: self.signer_id@,
            previous_id: self.previous_id@,
            summary: self.summary@,
        }
    }
}

impl PartialEq for PbftBlock {
    fn eq(&self, o: &PbftBlock) -> (r: bool) {
        bytes_eq(&self.block_id, &o.block_id) && self.block_num == o.block_num
            && bytes_eq(&self.signer_id, &o.signer_id) && bytes_eq(&self.previous_id, &o.previous_id)
            && bytes_eq(&self.summary, &o.summary)
    }
}

impl vstd::std_specs::cmp::PartialEqSpecImpl for PbftBlock {
    open spec fn obeys_eq_spec() -> bool {
        true
    }

    open spec fn eq_spec(&self, o: &PbftBlock) -> bool {
        self@ == o@
    }
}

impl Eq for PbftBlock {}

impl PbftBlock {
    /// A copy with the same view.
    pub fn duplicate(&self) -> (r: PbftBlock)
        ensures
            r@ == self@,
    {
        PbftBlock {
            block_id: copy_bytes(&self.block_id),
            block_num: self.block_num,
            signer_id: copy_bytes(&self.signer_id),
            previous_id: copy_bytes(&self.previous_id),
            summary: copy_bytes(&self.summary),
        }
    }
}

/// One peer's vote, for a given phase, on a block at a given view and sequence number.
#[derive(Clone, Debug, Hash)]
pub struct PbftMessage {
    pub info: PbftMessageInfo,
    pub block: PbftBlock,
}

/// The value of a vote, byte strings as sequences.
pub struct MsgView {
    pub info: InfoView,
    pub block: BlockView,
}

impl View for PbftMessage {
    type V = MsgView;

    open spec fn view(&self) -> MsgView {
        MsgView { info: self.info@, block: self.block@ }
    }
}

impl PartialEq for PbftMessage {
    fn eq(&self, o: &PbftMessage) -> (r: bool) {
        self.info == o.info && self.block == o.block
    }
}

impl vstd::std_specs::cmp::PartialEqSpecImpl for PbftMessage {
    open spec fn obeys_eq_spec() -> bool {
        true
    }

    open spec fn eq_spec(&self, o: &PbftMessage) -> bool {
        self@ == o@
    }
}

impl Eq for PbftMessage {}

impl PbftMessage {
    /// A copy with the same view.
    pub fn duplicate(&self) -> (r: PbftMessage)
        ensures
            r@ == self@,
    {
        PbftMessage { info: self.info.duplicate(), block: self.block.duplicate() }
    }
}

/// The view of a sequence of votes.
pub open spec fn msgs_view(v: Seq<PbftMessage>) -> Seq<MsgView> {
    v.map_values(|m: PbftMessage| m@)
}

/// The view of a sequence of byte strings.
pub open spec fn ids_view(v: Seq<Vec<u8>>) -> Seq<Seq<u8>> {
    v.map_values(|p: Vec<u8>| p@)
}

/// Compares two sequences of votes element by element.
pub fn msgs_eq(a: &Vec<PbftMessage>, b: &Vec<PbftMessage>) -> (r: bool)
    ensures
        r == (msgs_view(a@) == msgs_view(b@)),
{
    if a.len() != b.len() {
        assert(msgs_view(a@).len() != msgs_view(b@).len());
        return false;
    }
    let mut i: usize = 0;
    while i < a.len()
        invariant
            a@.len() == b@.len(),
            i <= a@.len(),
            forall|k: int| 0 <= k < i ==> a@[k]@ == b@[k]@,
        decreases a@.len() - i,
    {
        if !(a[i] == b[i]) {
            assert(msgs_view(a@)[i as int] != msgs_view(b@)[i as int]);
            return false;
        }
        i = i + 1;
    }
    assert(msgs_view(a@) =~= msgs_view(b@));
    true
}

/// Compares two sequences of byte strings element by element.
pub fn ids_eq(a: &Vec<Vec<u8>>, b: &Vec<Vec<u8>>) -> (r: bool)
    ensures
        r == (ids_view(a@) == ids_view(b@)),
{
    if a.len() != b.len() {
        assert(ids_view(a@).len() != ids_view(b@).len());
        return false;
    }
    let mut i: usize = 0;
    while i < a.len()
        invariant
            a@.len() == b@.len(),
            i <= a@.len(),
            forall|k: int| 0 <= k < i ==> a@[k]@ == b@[k]@,
        decreases a@.len() - i,
    {
        if !bytes_eq(&a[i], &b[i]) {
            assert(ids_view(a@)[i as int] != ids_view(b@)[i as int]);
            return false;
        }
        i = i + 1;
    }
    assert(ids_view(a@) =~= ids_view(b@));
    true
}

/// Whether the byte string `p` occurs in `ids`.
pub fn ids_contain(ids: &Vec<Vec<u8>>, p: &Vec<u8>) -> (r: bool)
    ensures
        r == ids_view(ids@).contains(p@),
{
    let mut i: usize = 0;
    while i < ids.len()
        invariant
            i <= ids@.len(),
            forall|k: int| 0 <= k < i ==> ids@[k]@ != p@,
        decreases ids@.len() - i,
    {
        if bytes_eq(&ids[i], p) {
            assert(ids_view(ids@)[i as int] == p@);
            return true;
        }
        i = i + 1;
    }
    assert(!ids_view(ids@).contains(p@)) by {
        assert forall|k: int| 0 <= k < ids_view(ids@).len() implies ids_view(ids@)[k] != p@ by {
            assert(ids@[k]@ != p@);
        }
    }
    false
}

/// A peer's vote to move to a new view, carrying the certificate of the
/// highest block it holds to be committed.
#[derive(Clone, Debug, Hash)]
pub struct PbftViewChange {
    pub info: PbftMessageInfo,
    pub checkpoint_messages: Vec<PbftMessage>,
}

/// The value of a view change, byte strings as sequences.
pub struct ViewChangeView {
    pub info: InfoView,
    pub checkpoint_messages: Seq<MsgView>,
}

impl View for PbftViewChange {
    type V = ViewChangeView;

    open spec fn view(&self) -> ViewChangeView {
        ViewChangeView { info: self.info@, checkpoint_messages: msgs_view(self.checkpoint_messages@) }
    }
}

impl PartialEq for PbftViewChange {
    fn eq(&self, o: &PbftViewChange) -> (r: bool) {
        self.info == o.info && msgs_eq(&self.checkpoint_messages, &o.checkpoint_messages)
    }
}

impl vstd::std_specs::cmp::PartialEqSpecImpl for PbftViewChange {
    open spec fn obeys_eq_spec() -> bool {
        true
    }

    open spec fn eq_spec(&self, o: &PbftViewChange) -> bool {
        self@ == o@
    }
}

impl Eq for PbftViewChange {}

/// Copies a sequence of votes.
pub fn copy_msgs(v: &Vec<PbftMessage>) -> (r: Vec<PbftMessage>)
    ensures
        msgs_view(r@) == msgs_view(v@),
{
    let mut r: Vec<PbftMessage> = Vec::new();
    let mut i: usize = 0;
    while i < v.len()
        invariant
            i <= v@.len(),
            msgs_view(r@) == msgs_view(v@).subrange(0, i as int),
        decreases v@.len() - i,
    {
        let ghost r0 = r@;
        r.push(v[i].duplicate());
        assert(msgs_view(r@) =~= msgs_view(r0).push(v@[i as int]@));
        assert(msgs_view(v@).subrange(0, i + 1) =~= msgs_view(v@).subrange(0, i as int).push(v@[i as int]@));
        i = i + 1;
    }
    assert(msgs_view(v@).subrange(0, i as int) =~= msgs_view(v@));
    r
}

impl PbftViewChange {
    /// A copy with the same view.
    pub fn duplicate(&self) -> (r: PbftViewChange)
        ensures
            r@ == self@,
    {
        PbftViewChange { info: self.info.duplicate(), checkpoint_messages: copy_msgs(&self.checkpoint_messages) }
    }
}

/// A proposal, or the confirmation of one, to change the membership, anchored
/// to a chain head.
#[derive(Clone, Debug, Hash)]
pub struct PbftNetworkChange {
    pub info: PbftMessageInfo,
    pub peers: Vec<Vec<u8>>,
    pub head: PbftBlock,
    pub tentative: bool,
    pub signer_id: Vec<u8>,
}

/// The value of a membership change, byte strings as sequences.
pub struct NetworkChangeView {
    pub info: InfoView,
    pub peers: Seq<Seq<u8>>,
    pub head: BlockView,
    pub tentative: bool,
    pub signer_id: Seq<u8>,
}

impl View for PbftNetworkChange {
    type V = NetworkChangeView;

    open spec fn view(&self) -> NetworkChangeView {
        NetworkChangeView {
            info: self.info@,
            peers: ids_view(self.peers@),
            head: self.head@,
            tentative: self.tentative,
            signer_id: self.signer_id@,
        }
    }
}

impl PartialEq for PbftNetworkChange {
    fn eq(&self, o: &PbftNetworkChange) -> (r: bool) {
        self.info == o.info && ids_eq(&self.peers, &o.peers) && self.head == o.head
            && self.tentative == o.tentative && bytes_eq(&self.signer_id, &o.signer_id)
    }
}

impl vstd::std_specs::cmp::PartialEqSpecImpl for PbftNetworkChange {
    open spec fn obeys_eq_spec() -> bool {
        true
    }

    open spec fn eq_spec(&self, o: &PbftNetworkChange) -> bool {
        self@ == o@
    }
}

impl Eq for PbftNetworkChange {}

/// The message kinds that carry an info header.
pub trait PbftGetInfo {
    spec fn info_view(&self) -> InfoView;

    fn get_msg_info(&self) -> (r: &PbftMessageInfo)
        ensures
            r@ == self.info_view(),
    ;
}

impl PbftGetInfo for PbftMessage {
    open spec fn info_view(&self) -> InfoView {
        self.info@
    }

    fn get_msg_info(&self) -> (r: &PbftMessageInfo) {
        &self.info
    }
}

impl PbftGetInfo for PbftViewChange {
    open spec fn info_view(&self) -> InfoView {
        self.info@
    }

    fn get_msg_info(&self) -> (r: &PbftMessageInfo) {
        &self.info
    }
}

impl PbftGetInfo for PbftNetworkChange {
    open spec fn info_view(&self) -> InfoView {
        self.info@
    }

    fn get_msg_info(&self) -> (r: &PbftMessageInfo) {
        &self.info
    }
}

/// Any message a peer may send, already decoded.
#[derive(Clone, Debug, Hash)]
pub enum PeerMessage {
    Pbft(PbftMessage),
    ViewChange(PbftViewChange),
    NetworkChange(PbftNetworkChange),
}

/// The value of a peer message.
pub enum PeerMessageView {
    Pbft(MsgView),
    ViewChange(ViewChangeView),
    NetworkChange(NetworkChangeView),
}

impl View for PeerMessage {
    type V = PeerMessageView;

    open spec fn view(&self) -> PeerMessageView {
        match self {
            PeerMessage::Pbft(m) => PeerMessageView::Pbft(m@),
            PeerMessage::ViewChange(m) => PeerMessageView::ViewChange(m@),
            PeerMessage::NetworkChange(m) => PeerMessageView::NetworkChange(m@),
        }
    }
}

impl PbftGetInfo for PeerMessage {
    open spec fn info_view(&self) -> InfoView {
        match self {
            PeerMessage::Pbft(m) => m.info@,
            PeerMessage::ViewChange(m) => m.info@,
            PeerMessage::NetworkChange(m) => m.info@,
        }
    }

    fn get_msg_info(&self) -> (r: &PbftMessageInfo) {
        match self {
            PeerMessage::Pbft(m) => &m.info,
            PeerMessage::ViewChange(m) => &m.info,
            PeerMessage::NetworkChange(m) => &m.info,
        }
    }
}

} // verus!

//! The engine's side of the event loop: what each host event does to the
//! node, and what the two tickers do when they fire. The loop itself, which
//! waits for events and talks to the host, runs outside the library.

use vstd::prelude::*;
use crate::error::PbftError;
use crate::log::vc_slot_free;
use crate::message::{PbftBlock, PeerMessage, PeerMessageView};
use crate::node::{
    actions_view, block_new_step, block_valid_step, pbft_step, view_change_received_step,
    view_change_step, Action,
    ActionView, Mode, PbftNode, Phase,
};

verus! {

/// The engine's identity towards the host.
#[derive(Clone, Copy, Debug, PartialEq, Eq, Structural, Default)]
pub struct PbftEngine {}

impl PbftEngine {
    pub fn new() -> (r: PbftEngine) {
        PbftEngine {  }
    }

    /// The protocol name announced to the host.
    pub fn name(&self) -> (r: String)
        ensures
            r@ == "sawtooth-pbft"@,
    {
        "sawtooth-pbft".to_owned()
    }

    /// The protocol version announced to the host.
    pub fn version(&self) -> (r: String)
        ensures
            r@ == "0.1.0"@,
    {
        "0.1.0".to_owned()
    }
}

/// An event from the host, as the node sees it.
#[derive(Clone, Debug)]
pub enum Update {
    BlockNew(PbftBlock),
    BlockValid(Vec<u8>),
    BlockInvalid(Vec<u8>),
    BlockCommit(Vec<u8>),
    PeerMessage(PeerMessage),
    PeerConnected(Vec<u8>),
    PeerDisconnected(Vec<u8>),
    /// No event arrived within the message timeout.
    Timeout,
    Shutdown,
    /// The channel from the host is closed.
    Disconnected,
}

/// Hands one event to the node. `None` ends the loop: on shutdown and when
/// the host is gone. An invalid block makes the node ask for a view change.
pub fn dispatch(node: &mut PbftNode, update: Update, now_ms: u64) -> (r: Option<Result<(), PbftError>>)
    requires
        old(node).wf(),
    ensures
        final(node).wf(),
        (update is Shutdown || update is Disconnected) <==> r is None,
        (update is Shutdown || update is Disconnected) ==> final(node).same_as(old(node)),
        update is Timeout ==> r == Some(Err::<(), PbftError>(PbftError::Timeout)) && final(node).same_as(old(node)),
        (update is PeerConnected || update is PeerDisconnected) ==> r == Some(Ok::<(), PbftError>(()))
            && final(node).same_as(old(node)),
        update is BlockInvalid && r == Some(Ok::<(), PbftError>(())) ==> final(node).state.mode
            == Mode::ViewChanging || final(node).state.view > old(node).state.view,
        update matches Update::BlockNew(b) ==> (r is Some && ((old(node).state.mode != Mode::Normal
            || old(node).state.phase != Phase::PrePreparing || b.block_num
            != old(node).state.seq_num) ==> r == Some(
            Err::<(), PbftError>(PbftError::NotReadyForMessage),
        ))),
        update matches Update::BlockValid(id) ==> (r is Some && ((old(node).state.working_block matches Some(
            b,
        ) && b@.block_id == id@) ==> final(node).state.block_valid) && (!(old(node).state.working_block matches Some(b) && b@.block_id == id@) ==> r == Some(
            Err::<(), PbftError>(PbftError::UnknownBlock),
        ))),
        update matches Update::BlockCommit(id) ==> (r is Some && (r == Some(Ok::<(), PbftError>(()))
            ==> final(node).state.seq_num == old(node).state.seq_num + 1 && final(node).state.phase
            == Phase::PrePreparing) && (!(old(node).state.phase == Phase::Finishing && (old(node).state.working_block matches Some(b) && b@.block_id == id@)) ==> r == Some(
            Err::<(), PbftError>(PbftError::UnknownBlock),
        ))),
        update matches Update::PeerMessage(m) ==> (r is Some && (final(node).backlog@
            == old(node).backlog@ || final(node).backlog@ == old(node).backlog@.push(m))),
        update matches Update::PeerMessage(PeerMessage::Pbft(m)) ==> (r matches Some(res)
            && pbft_step(old(node), final(node), m@, res)),
        update matches Update::PeerMessage(PeerMessage::ViewChange(vc)) ==> (r matches Some(res)
            && view_change_received_step(old(node), final(node), vc@, now_ms, res)),
        update matches Update::PeerMessage(PeerMessage::NetworkChange(_)) ==> (r == Some(
            Ok::<(), PbftError>(()),
        ) && final(node).same_as(old(node))),
        update matches Update::BlockNew(b) ==> (r matches Some(res) && block_new_step(
            old(node),
            final(node),
            b@,
            res,
        )),
        update matches Update::BlockValid(id) ==> (r matches Some(res) && block_valid_step(
            old(node),
            final(node),
            id@,
            res,
        )),
        update is BlockInvalid ==> (r matches Some(res) && view_change_step(old(node), final(node), res)),
        update matches Update::BlockCommit(id) ==> (old(node).state.phase == Phase::Finishing && (old(node).state.working_block matches Some(b) && b@.block_id == id@) && old(node).state.seq_num
            < u64::MAX ==> (r matches Some(res) && res is Ok)),
{
    match update {
        Update::BlockNew(block) => Some(node.on_block_new(block, now_ms)),
        Update::BlockValid(id) => Some(node.on_block_valid(id, now_ms)),
        Update::BlockInvalid(_) => {
            let r = node.start_view_change(now_ms);
            Some(r)
        },
        Update::BlockCommit(id) => Some(node.on_block_commit(id, now_ms)),
        Update::PeerMessage(msg) => Some(node.on_peer_message(msg, now_ms)),
        Update::PeerConnected(id) => Some(node.on_peer_change(id, true)),
        Update::PeerDisconnected(id) => Some(node.on_peer_change(id, false)),
        Update::Timeout => Some(Err(PbftError::Timeout)),
        Update::Shutdown => None,
        Update::Disconnected => None,
    }
}

/// The publish ticker fired: the primary may ask for a block, and a node
/// that made no progress for a full message timeout asks for a view change.
/// Returns the outcome of the publish attempt and, where one was started, of
/// the view change.
pub fn on_working_tick(node: &mut PbftNode, now_ms: u64) -> (r: (
    Result<(), PbftError>,
    Option<Result<(), PbftError>>,
))
    requires
        old(node).wf(),
    ensures
        final(node).wf(),
        r.0 is Ok,
        r.1 is Some <==> (now_ms >= old(node).state.last_progress_ms && now_ms
            - old(node).state.last_progress_ms >= old(node).state.message_timeout_ms),
        r.1 == Some(Ok::<(), PbftError>(())) ==> (final(node).state.mode == Mode::ViewChanging
            || final(node).state.view > old(node).state.view),
        final(node).state.seq_num == old(node).state.seq_num,
        ({
            let o = old(node);
            let go = o.is_primary_spec() && o.state.mode == Mode::Normal && o.state.phase
                == Phase::PrePreparing && !o.state.publishing;
            let published = if go {
                o.actions@.push(Action::PublishBlock)
            } else {
                o.actions@
            };
            let expired = now_ms >= o.state.last_progress_ms && now_ms - o.state.last_progress_ms
                >= o.state.message_timeout_ms;
            let target = o.next_view();
            &&& !expired ==> final(node).actions@ == published
            &&& (expired && r.1 matches Some(Ok(_))) ==> actions_view(final(node).actions@)
                == actions_view(published).push(
                ActionView::Broadcast(PeerMessageView::ViewChange(o.own_view_change(target as u64))),
            )
            &&& (expired && r.1 matches Some(Err(_))) ==> final(node).actions@ == published
            &&& expired && target <= u64::MAX && vc_slot_free(
                o.msg_log@.view_changes,
                target as u64,
                o.local_id(),
            ) ==> (r.1 matches Some(res) && res is Ok)
        }),
{
    let published = node.try_publish();
    if node.check_timeout_expired(now_ms) {
        let r = node.start_view_change(now_ms);
        (published, Some(r))
    } else {
        (published, None)
    }
}

/// The backlog ticker fired: deferred messages are tried again.
pub fn on_backlog_tick(node: &mut PbftNode, now_ms: u64) -> (r: Result<(), PbftError>)
    requires
        old(node).wf(),
    ensures
        final(node).wf(),
        r is Ok,
        old(node).ready_head() matches Some(v) ==> final(node).msg_log@.messages.contains(v),
{
    node.retry_backlog(now_ms)
}

} // verus!

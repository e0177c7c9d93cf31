use sawtooth_pbft::engine::{dispatch, on_backlog_tick, on_working_tick, PbftEngine, Update};
use sawtooth_pbft::error::{handle_pbft_result, PbftError, Severity};
use sawtooth_pbft::log::MessageLog;
use sawtooth_pbft::message::{
    PbftBlock, PbftGetInfo, PbftMessage, PbftMessageInfo, PbftMessageType, PbftNetworkChange,
    PbftViewChange, PeerMessage,
};
use sawtooth_pbft::node::{Action, Mode, PbftConfig, PbftNode, Phase};
use sawtooth_pbft::peers::startup_peers;
use sawtooth_pbft::timing::Ticker;

fn peer(c: u8) -> Vec<u8> {
    vec![c, c, c]
}

fn block(id: u8, num: u64) -> PbftBlock {
    PbftBlock {
        block_id: vec![id],
        block_num: num,
        signer_id: peer(b'A'),
        previous_id: vec![0],
        summary: vec![id, id],
    }
}

fn vote(ty: PbftMessageType, view: u64, seq: u64, signer: u8, b: &PbftBlock) -> PbftMessage {
    PbftMessage {
        info: PbftMessageInfo { msg_type: ty, view, seq_num: seq, signer_id: peer(signer) },
        block: b.clone(),
    }
}

fn view_change(view: u64, seq: u64, signer: u8) -> PbftViewChange {
    PbftViewChange {
        info: PbftMessageInfo {
            msg_type: PbftMessageType::ViewChange,
            view,
            seq_num: seq,
            signer_id: peer(signer),
        },
        checkpoint_messages: vec![],
    }
}

fn four_peers() -> Vec<Vec<u8>> {
    vec![peer(b'A'), peer(b'B'), peer(b'C'), peer(b'D')]
}

fn config() -> PbftConfig {
    PbftConfig { block_duration_ms: 10, message_timeout_ms: 100 }
}

fn started_node(id: u64) -> PbftNode {
    let mut node = PbftNode::new(id, id, &config(), four_peers(), vec![0], 0, 0);
    node.start(0);
    node
}

fn commits_requested(node: &PbftNode) -> usize {
    node.actions.iter().filter(|a| matches!(a, Action::CommitBlock(_))).count()
}

#[test]
fn equal_messages_compare_equal() {
    let b = block(1, 1);
    let m1 = vote(PbftMessageType::Prepare, 0, 1, b'A', &b);
    let m2 = vote(PbftMessageType::Prepare, 0, 1, b'A', &b);
    assert!(m1 == m2);
    let mut m3 = m2.clone();
    m3.block.summary = vec![9];
    assert!(m1 != m3);
    let mut m4 = m2.clone();
    m4.info.view = 1;
    assert!(m1 != m4);
    assert_eq!(m1.get_msg_info().seq_num, 1);
}

#[test]
fn view_changes_and_network_changes_compare_by_all_fields() {
    let b = block(1, 1);
    let mut v1 = view_change(1, 1, b'A');
    let v2 = v1.clone();
    assert!(v1 == v2);
    v1.checkpoint_messages.push(vote(PbftMessageType::Commit, 0, 0, b'B', &b));
    assert!(v1 != v2);
    let n1 = PbftNetworkChange {
        info: v2.info.clone(),
        peers: four_peers(),
        head: b.clone(),
        tentative: true,
        signer_id: peer(b'A'),
    };
    let mut n2 = n1.clone();
    assert!(n1 == n2);
    n2.tentative = false;
    assert!(n1 != n2);
    assert_eq!(PeerMessage::NetworkChange(n1).get_msg_info().view, 1);
}

#[test]
fn recording_the_same_vote_twice_counts_once() {
    let b = block(1, 1);
    let mut log = MessageLog::new();
    assert_eq!(log.record(vote(PbftMessageType::Prepare, 0, 1, b'A', &b)), Ok(()));
    assert_eq!(log.record(vote(PbftMessageType::Prepare, 0, 1, b'A', &b)), Ok(()));
    assert_eq!(log.count_votes(0, 1, PbftMessageType::Prepare, &b), 1);
}

#[test]
fn equivocation_is_refused_and_first_vote_kept() {
    let b1 = block(1, 1);
    let b2 = block(2, 1);
    let mut log = MessageLog::new();
    assert_eq!(log.record(vote(PbftMessageType::Commit, 0, 1, b'A', &b1)), Ok(()));
    assert_eq!(
        log.record(vote(PbftMessageType::Commit, 0, 1, b'A', &b2)),
        Err(PbftError::ConflictingMessage)
    );
    assert_eq!(log.count_votes(0, 1, PbftMessageType::Commit, &b1), 1);
    assert_eq!(log.count_votes(0, 1, PbftMessageType::Commit, &b2), 0);
}

#[test]
fn quorum_needs_enough_distinct_signers() {
    let b = block(1, 1);
    let mut log = MessageLog::new();
    log.record(vote(PbftMessageType::Prepare, 0, 1, b'A', &b)).unwrap();
    log.record(vote(PbftMessageType::Prepare, 0, 1, b'B', &b)).unwrap();
    log.record(vote(PbftMessageType::Prepare, 0, 1, b'B', &b)).unwrap();
    assert_eq!(log.quorum_for(0, 1, PbftMessageType::Prepare, 3), None);
    log.record(vote(PbftMessageType::Prepare, 0, 1, b'C', &b)).unwrap();
    assert_eq!(log.quorum_for(0, 1, PbftMessageType::Prepare, 3), Some(b.clone()));
    assert_eq!(log.quorum_for(0, 1, PbftMessageType::Commit, 3), None);
    assert_eq!(log.quorum_for(1, 1, PbftMessageType::Prepare, 3), None);
}

#[test]
fn quorum_for_returns_first_certified_block() {
    let b1 = block(1, 1);
    let b2 = block(2, 1);
    let mut log = MessageLog::new();
    log.record(vote(PbftMessageType::Prepare, 0, 1, b'A', &b2)).unwrap();
    log.record(vote(PbftMessageType::Prepare, 0, 1, b'B', &b1)).unwrap();
    log.record(vote(PbftMessageType::Prepare, 0, 1, b'C', &b1)).unwrap();
    log.record(vote(PbftMessageType::Prepare, 0, 1, b'D', &b2)).unwrap();
    assert_eq!(log.quorum_for(0, 1, PbftMessageType::Prepare, 2), Some(b2.clone()));
    assert_eq!(log.quorum_for(0, 1, PbftMessageType::Prepare, 3), None);
}

#[test]
fn prune_below_drops_old_rounds_only() {
    let b = block(1, 1);
    let mut log = MessageLog::new();
    log.record(vote(PbftMessageType::Commit, 0, 1, b'A', &b)).unwrap();
    log.record(vote(PbftMessageType::Commit, 0, 2, b'A', &b)).unwrap();
    log.record(vote(PbftMessageType::Commit, 0, 3, b'A', &b)).unwrap();
    log.prune_below(2);
    assert_eq!(log.count_votes(0, 1, PbftMessageType::Commit, &b), 0);
    assert_eq!(log.count_votes(0, 2, PbftMessageType::Commit, &b), 1);
    assert_eq!(log.count_votes(0, 3, PbftMessageType::Commit, &b), 1);
    let cert = log.certificate(0, 2, &b.block_id);
    assert_eq!(log.certificate(1, 2, &b.block_id).len(), 0);
    assert_eq!(log.certificate(0, 2, &vec![99]).len(), 0);
    assert_eq!(cert.len(), 1);
    assert_eq!(cert[0].info.seq_num, 2);
}

#[test]
fn view_change_votes_are_counted_per_signer() {
    let mut log = MessageLog::new();
    assert_eq!(log.record_view_change(view_change(1, 1, b'A')), Ok(()));
    assert_eq!(log.record_view_change(view_change(1, 1, b'A')), Ok(()));
    assert_eq!(log.record_view_change(view_change(1, 2, b'A')), Err(PbftError::ConflictingMessage));
    assert_eq!(log.record_view_change(view_change(1, 1, b'B')), Ok(()));
    assert_eq!(log.count_view_changes(1), 2);
    assert_eq!(log.count_view_changes(2), 0);
}

#[test]
fn startup_peers_dedup_and_append_local() {
    let a = peer(b'A');
    let b = peer(b'B');
    let c = peer(b'C');
    let (list, id) = startup_peers(&vec![a.clone(), b.clone(), a.clone(), c.clone()], &a);
    assert_eq!(list, vec![a.clone(), b.clone(), c.clone(), a.clone()]);
    assert_eq!(id, 4);
    let (list, id) = startup_peers(&vec![], &a);
    assert_eq!(list, vec![a]);
    assert_eq!(id, 0);
}

#[test]
fn ticker_fires_once_per_period_without_catch_up() {
    let mut t = Ticker::new(10, 100);
    assert!(!t.tick(105));
    assert!(t.tick(110));
    assert!(!t.tick(115));
    assert!(t.tick(150));
    assert_eq!(t.last_ms, 150);
    assert!(!t.tick(159));
    assert!(!t.tick(20));
}

#[test]
fn error_severity_classification() {
    assert_eq!(handle_pbft_result(&Ok(())), Severity::Quiet);
    assert_eq!(handle_pbft_result(&Err(PbftError::Timeout)), Severity::Quiet);
    assert_eq!(handle_pbft_result(&Err(PbftError::NotReadyForMessage)), Severity::Trace);
    assert_eq!(
        handle_pbft_result(&Err(PbftError::WrongNumMessages(PbftMessageType::Commit, 3, 1))),
        Severity::Trace
    );
    assert_eq!(handle_pbft_result(&Err(PbftError::ConflictingMessage)), Severity::Error);
    assert_eq!(handle_pbft_result(&Err(PbftError::UnknownSigner)), Severity::Error);
}

#[test]
fn engine_identity() {
    let e = PbftEngine::new();
    assert_eq!(e.name(), "sawtooth-pbft");
    assert_eq!(e.version(), "0.1.0");
}

#[test]
fn new_node_quorum_and_primary() {
    let node = PbftNode::new(0, 0, &config(), four_peers(), vec![0], 0, 0);
    assert_eq!(node.quorum_size(), 3);
    assert!(node.is_primary());
    assert_eq!(node.state.seq_num, 1);
    assert_eq!(node.state.phase, Phase::NotStarted);
    let backup = PbftNode::new(2, 2, &config(), four_peers(), vec![0], 5, 0);
    assert!(!backup.is_primary());
    assert_eq!(backup.state.seq_num, 6);
    let seven: Vec<Vec<u8>> = (0..7u8).map(peer).collect();
    assert_eq!(PbftNode::new(0, 0, &config(), seven, vec![0], 0, 0).quorum_size(), 5);
}

#[test]
fn four_peers_commit_block_exactly_once() {
    let x = block(7, 1);
    let mut node = started_node(0);
    assert_eq!(node.try_publish(), Ok(()));
    assert!(matches!(node.actions.last(), Some(Action::PublishBlock)));
    assert_eq!(node.on_block_new(x.clone(), 1), Ok(()));
    assert_eq!(node.state.phase, Phase::Preparing);
    assert_eq!(node.on_block_valid(x.block_id.clone(), 2), Ok(()));
    assert_eq!(node.state.phase, Phase::Preparing);
    let p = |s| PeerMessage::Pbft(vote(PbftMessageType::Prepare, 0, 1, s, &x));
    let c = |s| PeerMessage::Pbft(vote(PbftMessageType::Commit, 0, 1, s, &x));
    assert_eq!(node.on_peer_message(p(b'B'), 3), Ok(()));
    assert_eq!(node.state.phase, Phase::Preparing);
    assert_eq!(node.on_peer_message(p(b'C'), 4), Ok(()));
    assert_eq!(node.state.phase, Phase::Committing);
    assert_eq!(node.on_peer_message(c(b'B'), 5), Ok(()));
    assert_eq!(commits_requested(&node), 0);
    assert_eq!(node.on_peer_message(c(b'C'), 6), Ok(()));
    assert_eq!(node.state.phase, Phase::Finishing);
    assert_eq!(commits_requested(&node), 1);
    assert_eq!(node.on_peer_message(c(b'C'), 7), Ok(()));
    assert_eq!(commits_requested(&node), 1);
    assert_eq!(node.on_block_commit(x.block_id.clone(), 8), Ok(()));
    assert_eq!(node.state.seq_num, 2);
    assert_eq!(node.state.last_committed_id, x.block_id);
    assert_eq!(node.state.phase, Phase::PrePreparing);
    assert_eq!(commits_requested(&node), 1);
    assert_eq!(node.on_peer_message(c(b'D'), 9), Ok(()));
    assert_eq!(commits_requested(&node), 1);
}

#[test]
fn backup_follows_primary_pre_prepare() {
    let x = block(7, 1);
    let mut node = started_node(1);
    assert_eq!(node.on_block_new(x.clone(), 1), Ok(()));
    assert_eq!(node.state.phase, Phase::PrePreparing);
    let from_c = PeerMessage::Pbft(vote(PbftMessageType::PrePrepare, 0, 1, b'C', &x));
    assert_eq!(node.on_peer_message(from_c, 2), Err(PbftError::NotFromPrimary));
    let from_a = PeerMessage::Pbft(vote(PbftMessageType::PrePrepare, 0, 1, b'A', &x));
    assert_eq!(node.on_peer_message(from_a, 3), Ok(()));
    assert_eq!(node.state.phase, Phase::Preparing);
    assert_eq!(node.state.working_block, Some(x.clone()));
    let mut off_chain = block(8, 1);
    off_chain.previous_id = vec![42];
    let mut primary = started_node(0);
    assert_eq!(primary.on_block_new(off_chain, 4), Err(PbftError::UnknownBlock));
    assert_eq!(primary.state.phase, Phase::PrePreparing);
    let stranger = PeerMessage::Pbft(vote(PbftMessageType::Prepare, 0, 1, b'Z', &x));
    assert_eq!(node.on_peer_message(stranger, 4), Err(PbftError::UnknownSigner));
    assert_eq!(node.on_block_valid(vec![99], 5), Err(PbftError::UnknownBlock));
    assert_eq!(node.on_block_commit(x.block_id.clone(), 5), Err(PbftError::UnknownBlock));
}

#[test]
fn premature_message_is_backlogged_then_delivered() {
    let x1 = block(1, 1);
    let x2 = block(2, 2);
    let mut node = started_node(1);
    let early = PeerMessage::Pbft(vote(PbftMessageType::Prepare, 0, 2, b'C', &x2));
    assert_eq!(node.on_peer_message(early, 1), Err(PbftError::NotReadyForMessage));
    assert_eq!(node.backlog.len(), 1);
    assert_eq!(node.retry_backlog(2), Ok(()));
    assert_eq!(node.backlog.len(), 1);
    let msg = |ty, s| PeerMessage::Pbft(vote(ty, 0, 1, s, &x1));
    node.on_peer_message(msg(PbftMessageType::PrePrepare, b'A'), 3).unwrap();
    node.on_block_valid(x1.block_id.clone(), 4).unwrap();
    node.on_peer_message(msg(PbftMessageType::Prepare, b'A'), 5).unwrap();
    node.on_peer_message(msg(PbftMessageType::Prepare, b'C'), 6).unwrap();
    node.on_peer_message(msg(PbftMessageType::Commit, b'A'), 7).unwrap();
    node.on_peer_message(msg(PbftMessageType::Commit, b'C'), 8).unwrap();
    assert_eq!(node.state.phase, Phase::Finishing);
    node.on_block_commit(x1.block_id.clone(), 9).unwrap();
    assert_eq!(node.state.seq_num, 2);
    assert_eq!(node.msg_log.count_votes(0, 2, PbftMessageType::Prepare, &x2), 0);
    assert_eq!(on_backlog_tick(&mut node, 10), Ok(()));
    assert_eq!(node.backlog.len(), 0);
    assert_eq!(node.msg_log.count_votes(0, 2, PbftMessageType::Prepare, &x2), 1);
}

#[test]
fn silent_primary_leads_to_next_view() {
    let mut node = started_node(1);
    assert!(!node.check_timeout_expired(99));
    assert!(node.check_timeout_expired(100));
    let (published, vc) = on_working_tick(&mut node, 100);
    assert_eq!(published, Ok(()));
    assert_eq!(vc, Some(Ok(())));
    assert_eq!(node.state.mode, Mode::ViewChanging);
    assert_eq!(node.state.pending_view, 1);
    assert_eq!(node.state.view, 0);
    assert!(matches!(node.actions.last(), Some(Action::Broadcast(PeerMessage::ViewChange(_)))));
    assert_eq!(node.on_peer_message(PeerMessage::ViewChange(view_change(1, 1, b'C')), 110), Ok(()));
    assert_eq!(node.state.view, 0);
    assert_eq!(node.on_peer_message(PeerMessage::ViewChange(view_change(1, 1, b'D')), 120), Ok(()));
    assert_eq!(node.state.view, 1);
    assert_eq!(node.state.mode, Mode::Normal);
    assert_eq!(node.state.phase, Phase::PrePreparing);
    assert!(node.is_primary());
    assert!(!node.check_timeout_expired(150));
}

#[test]
fn stale_view_change_is_dropped() {
    let mut node = started_node(1);
    assert_eq!(node.on_view_change(view_change(0, 1, b'C'), 1), Ok(()));
    assert_eq!(node.msg_log.count_view_changes(0), 0);
    assert_eq!(node.on_view_change(view_change(1, 1, b'Z'), 1), Err(PbftError::UnknownSigner));
}

#[test]
fn dispatch_stops_on_shutdown_and_reports_timeout() {
    let mut node = started_node(0);
    assert_eq!(dispatch(&mut node, Update::Shutdown, 1), None);
    assert_eq!(dispatch(&mut node, Update::Disconnected, 1), None);
    assert_eq!(dispatch(&mut node, Update::Timeout, 1), Some(Err(PbftError::Timeout)));
    assert_eq!(dispatch(&mut node, Update::PeerConnected(peer(b'E')), 1), Some(Ok(())));
    assert_eq!(dispatch(&mut node, Update::BlockInvalid(vec![1]), 2), Some(Ok(())));
    assert_eq!(node.state.mode, Mode::ViewChanging);
}

#[test]
fn only_one_block_reaches_commit_quorum() {
    let b1 = block(1, 1);
    let b2 = block(2, 1);
    let mut log = MessageLog::new();
    for s in [b'A', b'B', b'C'] {
        log.record(vote(PbftMessageType::Commit, 0, 1, s, &b1)).unwrap();
    }
    log.record(vote(PbftMessageType::Commit, 0, 1, b'D', &b2)).unwrap();
    for s in [b'A', b'B', b'C'] {
        assert_eq!(
            log.record(vote(PbftMessageType::Commit, 0, 1, s, &b2)),
            Err(PbftError::ConflictingMessage)
        );
    }
    assert_eq!(log.count_votes(0, 1, PbftMessageType::Commit, &b2), 1);
    assert_eq!(log.quorum_for(0, 1, PbftMessageType::Commit, 3), Some(b1.clone()));
}

#[test]
fn view_change_checkpoint_must_be_matching_commits() {
    let b = block(1, 1);
    let other = block(2, 1);
    let mut node = started_node(1);
    let mut good = view_change(1, 2, b'C');
    good.checkpoint_messages = vec![
        vote(PbftMessageType::Commit, 0, 1, b'A', &b),
        vote(PbftMessageType::Commit, 0, 1, b'B', &b),
        vote(PbftMessageType::Commit, 0, 1, b'C', &b),
    ];
    assert_eq!(node.on_view_change(good, 1), Ok(()));
    assert_eq!(node.msg_log.count_view_changes(1), 1);
    let mut wrong_phase = view_change(1, 2, b'D');
    wrong_phase.checkpoint_messages = vec![vote(PbftMessageType::Prepare, 0, 1, b'A', &b)];
    assert_eq!(node.on_view_change(wrong_phase, 2), Err(PbftError::InvalidMessage));
    let mut split = view_change(1, 2, b'D');
    split.checkpoint_messages = vec![
        vote(PbftMessageType::Commit, 0, 1, b'A', &b),
        vote(PbftMessageType::Commit, 0, 1, b'B', &other),
    ];
    assert_eq!(node.on_view_change(split, 3), Err(PbftError::InvalidMessage));
    let mut wrong_round = view_change(1, 2, b'D');
    wrong_round.checkpoint_messages = vec![vote(PbftMessageType::Commit, 0, 2, b'A', &b)];
    assert_eq!(node.on_view_change(wrong_round, 4), Err(PbftError::InvalidMessage));
    let mut too_few = view_change(1, 2, b'D');
    too_few.checkpoint_messages = vec![
        vote(PbftMessageType::Commit, 0, 1, b'A', &b),
        vote(PbftMessageType::Commit, 0, 1, b'B', &b),
    ];
    assert_eq!(node.on_view_change(too_few, 5), Err(PbftError::InvalidMessage));
    let mut repeated = view_change(1, 2, b'D');
    repeated.checkpoint_messages = vec![
        vote(PbftMessageType::Commit, 0, 1, b'A', &b),
        vote(PbftMessageType::Commit, 1, 1, b'A', &b),
        vote(PbftMessageType::Commit, 0, 1, b'B', &b),
    ];
    assert_eq!(node.on_view_change(repeated, 6), Err(PbftError::InvalidMessage));
    let mut stranger = view_change(1, 2, b'D');
    stranger.checkpoint_messages = vec![
        vote(PbftMessageType::Commit, 0, 1, b'A', &b),
        vote(PbftMessageType::Commit, 0, 1, b'B', &b),
        vote(PbftMessageType::Commit, 0, 1, b'Z', &b),
    ];
    assert_eq!(node.on_view_change(stranger, 7), Err(PbftError::InvalidMessage));
    assert_eq!(node.msg_log.count_view_changes(1), 1);
}

#[test]
fn own_checkpoint_carries_only_the_committed_certificate() {
    let x = block(7, 1);
    let mut z = block(9, 1);
    z.summary = vec![3];
    let mut node = started_node(0);
    node.on_block_new(x.clone(), 1).unwrap();
    node.on_block_valid(x.block_id.clone(), 2).unwrap();
    let msg = |ty, s, b: &PbftBlock| PeerMessage::Pbft(vote(ty, 0, 1, s, b));
    node.on_peer_message(msg(PbftMessageType::Prepare, b'B', &x), 3).unwrap();
    node.on_peer_message(msg(PbftMessageType::Prepare, b'C', &x), 4).unwrap();
    node.on_peer_message(msg(PbftMessageType::Commit, b'D', &z), 5).unwrap();
    node.on_peer_message(msg(PbftMessageType::Commit, b'B', &x), 6).unwrap();
    node.on_peer_message(msg(PbftMessageType::Commit, b'C', &x), 7).unwrap();
    node.on_block_commit(x.block_id.clone(), 8).unwrap();
    assert_eq!(node.start_view_change(200), Ok(()));
    let sent = match node.actions.last() {
        Some(Action::Broadcast(PeerMessage::ViewChange(vc))) => vc.clone(),
        _ => panic!("no view change broadcast"),
    };
    assert_eq!(sent.info.view, 1);
    assert_eq!(sent.checkpoint_messages.len(), 3);
    assert!(sent.checkpoint_messages.iter().all(|m| m.block == x));
    let mut at_two = PbftNode::new(1, 1, &config(), four_peers(), vec![7], 1, 0);
    at_two.start(0);
    assert_eq!(at_two.on_view_change(sent, 1), Ok(()));
    assert_eq!(at_two.msg_log.count_view_changes(1), 1);
}

#[test]
fn temporary_id_is_kept_apart_from_signing_index() {
    let node = PbftNode::new(4, 3, &config(), four_peers(), vec![0], 0, 0);
    assert_eq!(node.state.id, 4);
    assert_eq!(node.state.index, 3);
    assert!(!node.is_primary());
}

#[test]
fn equivocating_signer_cannot_commit_other_block() {
    let x = block(7, 1);
    let mut y = block(8, 1);
    y.summary = vec![1];
    let mut node = started_node(0);
    node.on_block_new(x.clone(), 1).unwrap();
    node.on_block_valid(x.block_id.clone(), 2).unwrap();
    let msg = |ty, s, b: &PbftBlock| PeerMessage::Pbft(vote(ty, 0, 1, s, b));
    node.on_peer_message(msg(PbftMessageType::Prepare, b'B', &x), 3).unwrap();
    node.on_peer_message(msg(PbftMessageType::Prepare, b'C', &x), 4).unwrap();
    assert_eq!(node.state.phase, Phase::Committing);
    node.on_peer_message(msg(PbftMessageType::Commit, b'B', &x), 5).unwrap();
    assert_eq!(
        node.on_peer_message(msg(PbftMessageType::Commit, b'B', &y), 6),
        Err(PbftError::ConflictingMessage)
    );
    node.on_peer_message(msg(PbftMessageType::Commit, b'C', &y), 7).unwrap();
    node.on_peer_message(msg(PbftMessageType::Commit, b'D', &y), 8).unwrap();
    assert_eq!(commits_requested(&node), 0);
    node.on_peer_message(msg(PbftMessageType::Commit, b'D', &x), 9).unwrap_err();
    assert_eq!(commits_requested(&node), 0);
    assert_eq!(node.state.phase, Phase::Committing);
}

#[test]
fn primary_sends_one_pre_prepare_then_prepare() {
    let x = block(7, 1);
    let mut node = started_node(0);
    node.on_block_new(x.clone(), 1).unwrap();
    assert_eq!(node.actions.len(), 3);
    assert!(matches!(&node.actions[0],
        Action::Broadcast(PeerMessage::Pbft(m)) if m.info.msg_type == PbftMessageType::PrePrepare && m.block == x));
    assert!(matches!(&node.actions[1], Action::CheckBlock(id) if *id == x.block_id));
    assert!(matches!(&node.actions[2],
        Action::Broadcast(PeerMessage::Pbft(m)) if m.info.msg_type == PbftMessageType::Prepare && m.info.signer_id == peer(b'A')));
}

#[test]
fn still_premature_messages_keep_their_order() {
    let x2 = block(2, 2);
    let x3 = block(3, 3);
    let mut node = started_node(1);
    let first = PeerMessage::Pbft(vote(PbftMessageType::Prepare, 0, 3, b'C', &x3));
    let second = PeerMessage::Pbft(vote(PbftMessageType::Prepare, 0, 2, b'C', &x2));
    assert_eq!(node.on_peer_message(first, 1), Err(PbftError::NotReadyForMessage));
    assert_eq!(node.on_peer_message(second, 2), Err(PbftError::NotReadyForMessage));
    assert_eq!(node.retry_backlog(3), Ok(()));
    assert_eq!(node.backlog.len(), 2);
    assert!(matches!(&node.backlog[0], PeerMessage::Pbft(m) if m.info.seq_num == 3));
    assert!(matches!(&node.backlog[1], PeerMessage::Pbft(m) if m.info.seq_num == 2));
}

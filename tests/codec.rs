use sawtooth_pbft::codec::{decode, encode};
use sawtooth_pbft::message::{
    PbftBlock, PbftMessage, PbftMessageInfo, PbftMessageType, PbftNetworkChange, PbftViewChange,
    PeerMessage,
};

fn info(ty: PbftMessageType) -> PbftMessageInfo {
    PbftMessageInfo { msg_type: ty, view: 3, seq_num: 258, signer_id: vec![7, 8, 9] }
}

fn block() -> PbftBlock {
    PbftBlock {
        block_id: vec![1, 2],
        block_num: 258,
        signer_id: vec![7, 8, 9],
        previous_id: vec![],
        summary: vec![5; 4],
    }
}

fn vote() -> PbftMessage {
    PbftMessage { info: info(PbftMessageType::Commit), block: block() }
}

fn same(a: &PeerMessage, b: &PeerMessage) -> bool {
    match (a, b) {
        (PeerMessage::Pbft(x), PeerMessage::Pbft(y)) => x == y,
        (PeerMessage::ViewChange(x), PeerMessage::ViewChange(y)) => x == y,
        (PeerMessage::NetworkChange(x), PeerMessage::NetworkChange(y)) => x == y,
        _ => false,
    }
}

#[test]
fn vote_encoding_layout() {
    let bytes = encode(&PeerMessage::Pbft(vote()));
    assert_eq!(bytes[0], 0);
    assert_eq!(bytes[1], 2);
    assert_eq!(&bytes[2..10], &[3, 0, 0, 0, 0, 0, 0, 0]);
    assert_eq!(&bytes[10..18], &[2, 1, 0, 0, 0, 0, 0, 0]);
    assert_eq!(&bytes[18..26], &[3, 0, 0, 0, 0, 0, 0, 0]);
    assert_eq!(&bytes[26..29], &[7, 8, 9]);
    assert_eq!(bytes.len(), 1 + 1 + 8 + 8 + 11 + 10 + 8 + 11 + 8 + 12);
}

#[test]
fn every_kind_round_trips() {
    let msgs = vec![
        PeerMessage::Pbft(vote()),
        PeerMessage::ViewChange(PbftViewChange {
            info: info(PbftMessageType::ViewChange),
            checkpoint_messages: vec![vote(), vote()],
        }),
        PeerMessage::ViewChange(PbftViewChange {
            info: info(PbftMessageType::ViewChange),
            checkpoint_messages: vec![],
        }),
        PeerMessage::NetworkChange(PbftNetworkChange {
            info: info(PbftMessageType::NetworkChange),
            peers: vec![vec![1], vec![], vec![2, 3]],
            head: block(),
            tentative: true,
            signer_id: vec![4],
        }),
    ];
    for m in msgs.iter() {
        let back = decode(&encode(m)).unwrap();
        assert!(same(m, &back));
    }
}

#[test]
fn malformed_input_is_refused() {
    assert!(decode(&vec![]).is_none());
    assert!(decode(&vec![9]).is_none());
    let mut bytes = encode(&PeerMessage::Pbft(vote()));
    bytes.push(0);
    assert!(decode(&bytes).is_none());
    bytes.pop();
    bytes.pop();
    assert!(decode(&bytes).is_none());
    let mut bad_type = encode(&PeerMessage::Pbft(vote()));
    bad_type[1] = 5;
    assert!(decode(&bad_type).is_none());
}


use ivlan::accept::{accept_step, AcceptAction, AcceptEvent, Stage};
use ivlan::addr::{IpAddr, Ipv4Addr};
use ivlan::auth::{Auth, AuthResp, AuthRules};
use ivlan::frame::{frame, open_datagram, Awaited};
use ivlan::inbound::{recv_step, Received, RecvAction, RecvEvent, Source};
use ivlan::send::{
    after_send, change_link, next_send, Link, LinkChange, SendAction, SendEvent, Verdict,
};

#[test]
fn a_message_is_a_packet_behind_its_length() {
    assert_eq!(frame(&[7, 8, 9, 10], 3), vec![3, 0, 7, 8, 9]);
    assert_eq!(frame(&[], 0), vec![0, 0]);
    let packet = vec![1; 0x1234];
    assert_eq!(frame(&packet, 0x1234)[..3], [0x34, 0x12, 1]);
}

/// The packets that are read from a stream before it ends.
fn packets_of(stream: &[u8]) -> Vec<Vec<u8>> {
    let mut packets = Vec::new();
    let mut awaited = Awaited::Length;
    let mut at = 0;
    while at + awaited.wanted() <= stream.len() {
        let octets = &stream[at..at + awaited.wanted()];
        at += octets.len();
        if let Awaited::Packet(_) = awaited {
            packets.push(octets.to_vec());
        }
        awaited = awaited.arrived(octets);
        if at == stream.len() && awaited == Awaited::Length {
            break;
        }
    }
    packets
}

#[test]
fn the_packets_that_are_written_are_read() {
    let packets: Vec<Vec<u8>> = vec![vec![1, 2, 3], vec![], vec![9; 300], vec![4; 65535]];
    let mut stream = Vec::new();
    for packet in &packets {
        stream.extend_from_slice(&frame(packet, packet.len() as u16));
    }
    assert_eq!(packets_of(&stream), packets);
    stream.extend_from_slice(&[5, 0, 1, 2]);
    assert_eq!(packets_of(&stream), packets);
}

#[test]
fn a_reader_waits_for_a_length_then_for_a_packet() {
    assert_eq!(Awaited::Length.wanted(), 2);
    assert_eq!(Awaited::Length.arrived(&[0x34, 0x12]), Awaited::Packet(0x1234));
    assert_eq!(Awaited::Length.arrived(&[0xff, 0xff]), Awaited::Packet(65535));
    assert_eq!(Awaited::Packet(3).wanted(), 3);
    assert_eq!(Awaited::Packet(3).arrived(&[1, 2, 3]), Awaited::Length);
}

#[test]
fn a_datagram_hands_its_packet_out() {
    assert_eq!(open_datagram(&frame(&[7, 8, 9], 3)), vec![7, 8, 9]);
    assert_eq!(open_datagram(&[0, 0]), Vec::<u8>::new());
    assert_eq!(open_datagram(&[0xff, 0xff, 1]), vec![1]);
}

#[test]
fn a_reader_goes_on_after_any_packet() {
    let addr = IpAddr::V4(Ipv4Addr { bits: 1 });
    for source in [Source::Stream, Source::Datagrams] {
        let step = |received| recv_step(source, RecvEvent::Packet(received));
        assert_eq!(step(Received::BadPacket), RecvAction::ReadOn);
        assert_eq!(step(Received::Skip), RecvAction::ReadOn);
        assert_eq!(step(Received::Deliver(addr, addr)), RecvAction::Deliver);
    }
}

#[test]
fn a_failed_stream_takes_the_connection_along() {
    let stream = recv_step(Source::Stream, RecvEvent::Failed);
    assert_eq!(stream, RecvAction::End { drop_link: true });
    let datagrams = recv_step(Source::Datagrams, RecvEvent::Failed);
    assert_eq!(datagrams, RecvAction::End { drop_link: false });
}

fn link(datagram_max: Option<usize>) -> Option<Link> {
    Some(Link { datagram_max })
}

#[test]
fn messages_go_out_as_datagrams_if_they_fit() {
    assert_eq!(next_send(None, 0), SendAction::Connect);
    assert_eq!(next_send(link(None), 10), SendAction::Stream);
    assert_eq!(next_send(link(Some(10)), 10), SendAction::Datagram);
    assert_eq!(next_send(link(Some(10)), 11), SendAction::Stream);
}

#[test]
fn what_follows_an_attempt_to_connect() {
    assert_eq!(after_send(SendEvent::Connected), (Verdict::Retry, LinkChange::Keep));
    let failed = after_send(SendEvent::ConnectFailed);
    assert_eq!(failed, (Verdict::RetryAfterPause, LinkChange::Keep));
}

#[test]
fn a_datagram_is_done_with_whatever_came_of_it() {
    let done = |event| {
        let (verdict, change) = after_send(event);
        assert_eq!(verdict, Verdict::Done);
        change_link(link(Some(100)), change)
    };
    assert_eq!(done(SendEvent::DatagramSent), link(Some(100)));
    assert_eq!(done(SendEvent::ConnectionLost), None);
    assert_eq!(done(SendEvent::DatagramsDisabled), link(None));
    assert_eq!(done(SendEvent::DatagramsUnsupported), link(None));
    assert_eq!(done(SendEvent::DatagramTooLarge(Some(50))), link(Some(50)));
    assert_eq!(done(SendEvent::DatagramTooLarge(None)), link(None));
}

#[test]
fn a_stream_is_tried_until_it_takes_the_message() {
    assert_eq!(after_send(SendEvent::StreamWritten), (Verdict::Done, LinkChange::Keep));
    let (verdict, change) = after_send(SendEvent::StreamFailed);
    assert_eq!(verdict, Verdict::RetryAfterPause);
    let after = change_link(link(None), change);
    assert_eq!(after, None);
    assert_eq!(next_send(after, 10), SendAction::Connect);
    assert_eq!(change_link(None, LinkChange::Resize(Some(1))), None);
}

fn rules() -> AuthRules {
    AuthRules { anybody: false, password: Some("secret".to_string()) }
}

/// What becomes of a connection whose peer shows `auth`.
fn outcome(auth: Auth) -> (AuthResp, AcceptAction) {
    let rules = rules();
    let mut stage = Stage::Accepting;
    for next in [Stage::Establishing, Stage::Opening, Stage::Asking] {
        let action = accept_step(&rules, stage, &AcceptEvent::Done);
        assert_eq!(action, AcceptAction::Wait(next));
        stage = next;
    }
    match accept_step(&rules, stage, &AcceptEvent::Asked(auth)) {
        AcceptAction::Wait(Stage::Answering(resp)) => {
            (resp, accept_step(&rules, Stage::Answering(resp), &AcceptEvent::Done))
        }
        other => panic!("{other:?}"),
    }
}

#[test]
fn a_peer_with_the_password_is_let_in() {
    let (resp, action) = outcome(Auth::Password("secret".to_string()));
    assert_eq!(resp, AuthResp::Good);
    assert_eq!(action, AcceptAction::Insert);
}

#[test]
fn a_peer_without_the_password_is_told_so_and_kept_out() {
    for auth in [Auth::Nothing, Auth::Password("guess".to_string())] {
        let (resp, action) = outcome(auth);
        assert_eq!(resp, AuthResp::Bad);
        assert_eq!(action, AcceptAction::GiveUp);
    }
}

#[test]
fn a_connection_that_fails_is_given_up() {
    let stages = [
        Stage::Accepting,
        Stage::Establishing,
        Stage::Opening,
        Stage::Asking,
        Stage::Answering(AuthResp::Good),
        Stage::Answering(AuthResp::Bad),
    ];
    for stage in stages {
        assert_eq!(accept_step(&rules(), stage, &AcceptEvent::Failed), AcceptAction::GiveUp);
    }
}

use pigeons::bridge::{
    copy_both, copy_flush, BridgeAction, BridgeEvent, BridgeState, CopyAction, CopyEvent,
    CopyState, Direction,
};
use pigeons::protocol::{
    local_ssh_addr, no_ssh_server, read_stream_preface, AcceptAction, AcceptEvent,
    PigeonsProtocol, PrefaceError, ALPN, STREAM_PREFACE,
};

#[test]
fn stream_preface_is_required_and_consumed() {
    let mut stream = STREAM_PREFACE.to_vec();
    stream.extend_from_slice(b"SSH-");
    let read = read_stream_preface(&stream).unwrap();
    assert_eq!(&stream[read..], b"SSH-");

    let error = read_stream_preface(&[1]).unwrap_err();
    assert_eq!(error, PrefaceError::InvalidData);
    assert_eq!(error.message(), "invalid pigeons stream preface");

    let error = read_stream_preface(&[]).unwrap_err();
    assert_eq!(error, PrefaceError::UnexpectedEof);
    assert_eq!(error.message(), "early eof");
}

#[test]
fn the_protocol_has_a_name() {
    assert_eq!(&ALPN, b"/pigeons/1");
}

#[test]
fn the_ssh_server_is_local() {
    assert_eq!(local_ssh_addr(22), "127.0.0.1:22");
    assert_eq!(local_ssh_addr(65535), "127.0.0.1:65535");
    assert_eq!(local_ssh_addr(0), "127.0.0.1:0");
    assert_eq!(
        no_ssh_server(2222),
        "no sshd detected on port 2222. Make sure sshd is running before sending pigeons to this roost"
    );
}

#[test]
fn a_pigeon_is_delivered() {
    let roost = PigeonsProtocol::new(2222);
    assert!(matches!(
        roost.accept(AcceptEvent::StreamOpened(true)),
        AcceptAction::ReadPreface(1)
    ));
    assert!(matches!(
        roost.accept(AcceptEvent::PrefaceRead(Some(vec![0]))),
        AcceptAction::ConnectSsh(addr) if addr == "127.0.0.1:2222"
    ));
    assert!(matches!(
        roost.accept(AcceptEvent::SshConnected(true)),
        AcceptAction::CopyBoth
    ));
    for clean in [true, false] {
        assert!(matches!(
            roost.accept(AcceptEvent::CopyEnded(clean)),
            AcceptAction::AwaitStop
        ));
        assert!(matches!(
            roost.accept(AcceptEvent::StreamStopped(clean)),
            AcceptAction::Finish
        ));
    }
}

#[test]
fn what_is_no_pigeon_does_not_reach_ssh() {
    let roost = PigeonsProtocol::new(22);
    for event in [
        AcceptEvent::StreamOpened(false),
        AcceptEvent::PrefaceRead(None),
        AcceptEvent::PrefaceRead(Some(vec![])),
        AcceptEvent::PrefaceRead(Some(vec![1])),
        AcceptEvent::SshConnected(false),
    ] {
        assert!(matches!(roost.accept(event), AcceptAction::Finish));
    }
}

#[test]
fn every_write_is_flushed() {
    let mut state = CopyState::new();
    for (event, expected) in [
        (CopyEvent::Read(5), CopyAction::Write(5)),
        (CopyEvent::Written, CopyAction::Flush),
        (CopyEvent::Flushed, CopyAction::Read),
        (CopyEvent::Read(7), CopyAction::Write(7)),
        (CopyEvent::Written, CopyAction::Flush),
        (CopyEvent::Flushed, CopyAction::Read),
        (CopyEvent::Read(0), CopyAction::Finish(12)),
    ] {
        let (next, action) = copy_flush(state, event);
        assert_eq!(action, expected);
        state = next;
    }
}

#[test]
fn failures_of_copying_are_reported() {
    let (state, _) = copy_flush(CopyState::new(), CopyEvent::Read(5));
    assert_eq!(copy_flush(state, CopyEvent::Failed).1, CopyAction::Fail);
    assert_eq!(
        copy_flush(CopyState::new(), CopyEvent::Failed).1,
        CopyAction::Fail
    );
}

#[test]
fn half_closed_bridges_stay_open() {
    for (first, second) in [
        (Direction::Outbound, Direction::Inbound),
        (Direction::Inbound, Direction::Outbound),
    ] {
        let (state, action) = copy_both(BridgeState::new(), BridgeEvent::Ended(first));
        assert_eq!(action, BridgeAction::ShutWriter(first));
        let (half, action) = copy_both(state, BridgeEvent::WriterShut(first));
        assert_eq!(action, BridgeAction::Continue);
        assert_eq!(copy_both(half, BridgeEvent::Failed).1, BridgeAction::Fail);
        let (state, action) = copy_both(half, BridgeEvent::Ended(second));
        assert_eq!(action, BridgeAction::ShutWriter(second));
        assert_eq!(
            copy_both(state, BridgeEvent::WriterShut(second)).1,
            BridgeAction::Finish
        );
    }
}

/// Both sources may end before either end was passed on.
#[test]
fn both_ends_are_passed_on() {
    let (state, _) = copy_both(BridgeState::new(), BridgeEvent::Ended(Direction::Outbound));
    let (state, action) = copy_both(state, BridgeEvent::Ended(Direction::Inbound));
    assert_eq!(action, BridgeAction::ShutWriter(Direction::Inbound));
    let (state, action) = copy_both(state, BridgeEvent::WriterShut(Direction::Inbound));
    assert_eq!(action, BridgeAction::Continue);
    assert_eq!(
        copy_both(state, BridgeEvent::WriterShut(Direction::Outbound)).1,
        BridgeAction::Finish
    );
}

/// A source ends once, and only its end is passed on.
#[test]
fn events_out_of_turn_fail() {
    let start = BridgeState::new();
    assert_eq!(
        copy_both(start, BridgeEvent::WriterShut(Direction::Inbound)).1,
        BridgeAction::Fail
    );
    let (state, _) = copy_both(start, BridgeEvent::Ended(Direction::Inbound));
    assert_eq!(
        copy_both(state, BridgeEvent::Ended(Direction::Inbound)).1,
        BridgeAction::Fail
    );
}

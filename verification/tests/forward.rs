use p2pssh::forward::{
    both, forward_bidi, forward_bidi_stdio, Flow, FlowAction, FlowEvent, FlowState, Forwarder,
};

#[test]
fn a_connection_has_two_directions() {
    let (a, b) = forward_bidi();
    assert_eq!((a.flow, b.flow), (Flow::QuicToTcp, Flow::TcpToQuic));
    let (a, b) = forward_bidi_stdio();
    assert_eq!((a.flow, b.flow), (Flow::QuicToStdout, Flow::StdinToQuic));
    assert_eq!(a.action(), FlowAction::Read);
    assert_eq!(b.state, FlowState::Reading);
}

#[test]
fn bytes_are_written_as_they_are_read() {
    for flow in [Flow::QuicToTcp, Flow::TcpToQuic, Flow::QuicToStdout, Flow::StdinToQuic] {
        let mut f = Forwarder::new(flow);
        for len in [1, 65536, 7] {
            assert_eq!(
                f.step(FlowEvent::Read { got: Some(len) }),
                FlowAction::Write { len }
            );
            assert_eq!(f.step(FlowEvent::Written), FlowAction::Read);
        }
    }
}

#[test]
fn a_transfer_neither_loses_nor_reorders_bytes() {
    let source: Vec<u8> = (0..200_000u32).map(|i| (i % 251) as u8).collect();
    for size in [1000, 65536] {
        let mut buffer = vec![0u8; 65536];
        let mut out: Vec<u8> = Vec::new();
        let mut at = 0;
        let mut f = Forwarder::new(Flow::TcpToQuic);
        let mut action = f.action();
        loop {
            action = match action {
                FlowAction::Read => {
                    let n = size.min(source.len() - at);
                    buffer[..n].copy_from_slice(&source[at..at + n]);
                    at += n;
                    f.step(FlowEvent::Read { got: Some(n) })
                }
                FlowAction::Write { len } => {
                    out.extend_from_slice(&buffer[..len]);
                    f.step(FlowEvent::Written)
                }
                FlowAction::ShutdownWrite | FlowAction::FinishSend => f.step(FlowEvent::Closed),
                FlowAction::Stop { ok } => {
                    assert!(ok);
                    break;
                }
            };
            assert!(source.starts_with(&out));
        }
        assert_eq!(out, source);
    }
}

#[test]
fn the_end_of_a_quic_stream_shuts_tcp_down() {
    let mut f = Forwarder::new(Flow::QuicToTcp);
    assert_eq!(f.step(FlowEvent::Read { got: None }), FlowAction::ShutdownWrite);
    assert_eq!(f.step(FlowEvent::Closed), FlowAction::Stop { ok: true });

    let mut f = Forwarder::new(Flow::QuicToTcp);
    f.step(FlowEvent::Read { got: None });
    assert_eq!(f.step(FlowEvent::CloseFailed), FlowAction::Stop { ok: false });

    let mut f = Forwarder::new(Flow::QuicToStdout);
    assert_eq!(f.step(FlowEvent::Read { got: None }), FlowAction::Stop { ok: true });
}

#[test]
fn the_end_of_a_byte_stream_finishes_quic() {
    for flow in [Flow::TcpToQuic, Flow::StdinToQuic] {
        let mut f = Forwarder::new(flow);
        assert_eq!(f.step(FlowEvent::Read { got: Some(0) }), FlowAction::FinishSend);
        assert_eq!(f.state, FlowState::Closing);
        assert_eq!(f.step(FlowEvent::CloseFailed), FlowAction::Stop { ok: true });
    }
}

#[test]
fn an_empty_quic_chunk_is_no_end() {
    let mut f = Forwarder::new(Flow::QuicToTcp);
    assert_eq!(
        f.step(FlowEvent::Read { got: Some(0) }),
        FlowAction::Write { len: 0 }
    );
    assert_eq!(f.step(FlowEvent::Written), FlowAction::Read);
}

#[test]
fn errors_end_a_direction() {
    let mut f = Forwarder::new(Flow::TcpToQuic);
    assert_eq!(f.step(FlowEvent::ReadFailed), FlowAction::Stop { ok: false });
    let mut f = Forwarder::new(Flow::TcpToQuic);
    f.step(FlowEvent::Read { got: Some(3) });
    assert_eq!(f.step(FlowEvent::WriteFailed), FlowAction::Stop { ok: false });
    assert_eq!(f.state, FlowState::Ended { ok: false });
}

#[test]
fn the_first_error_counts() {
    assert_eq!(both::<u8>(Ok(()), Ok(())), Ok(()));
    assert_eq!(both(Err(1), Err(2)), Err(1));
    assert_eq!(both(Ok(()), Err(2)), Err(2));
    assert_eq!(both(Err(1), Ok(())), Err(1));
}

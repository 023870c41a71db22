use inet2_services::esb::{Action, Controller, Error, Event, LoopState, RoutedFrame, Senders};
use inet2_services::rpc::{RpcClient, RpcError};

fn frame(src: &str, dst: &str, body: &[u8]) -> RoutedFrame {
    RoutedFrame { src: src.as_bytes().to_vec(), dst: dst.as_bytes().to_vec(), body: body.to_vec() }
}

fn started(identity: &str, buses: Vec<&'static str>) -> Controller<&'static str> {
    let mut c = Controller::init(identity.as_bytes().to_vec(), b"router".to_vec(), buses);
    assert_eq!(c.start(), Action::Poll);
    c
}

fn step(c: &mut Controller<&'static str>, e: Event) -> Action {
    assert!(c.accepts(&e));
    c.step(e)
}

#[test]
fn local_dispatch() {
    let mut c = started("A", vec!["X"]);
    assert_eq!(step(&mut c, Event::Polled(vec![true])), Action::Receive { bus: 0 });
    let a = step(&mut c, Event::Received(frame("P", "A", b"ping")));
    assert_eq!(a, Action::Handle { bus: 0, source: b"P".to_vec() });
    assert!(!c.accepts(&Event::Sent));
    assert_eq!(step(&mut c, Event::Handled), Action::Poll);
}

#[test]
fn forwarding_keeps_body_and_bus() {
    let mut c = started("R", vec!["X"]);
    assert_eq!(step(&mut c, Event::Polled(vec![true])), Action::Receive { bus: 0 });
    let body = vec![0x00, 0x10, 0xff, 0x42];
    let a = step(&mut c, Event::Received(frame("P", "Q", &body)));
    match a {
        Action::Send(o) => {
            assert_eq!(o.bus, 0);
            assert_eq!(o.frame.dst, b"Q".to_vec());
            assert_eq!(o.frame.src, b"R".to_vec());
            assert_eq!(o.frame.body, body);
        }
        other => panic!("expected a forward, got {:?}", other),
    }
    assert!(!c.accepts(&Event::Handled));
    assert_eq!(step(&mut c, Event::Sent), Action::Poll);
}

#[test]
fn unknown_bus_reaches_recovery_hook() {
    let mut c = started("A", vec!["X"]);
    let err = c.send_to(&"Y", b"Q".to_vec(), b"m".to_vec()).unwrap_err();
    assert_eq!(err, Error::UnknownBusId("Y".to_string()));
    assert_eq!(step(&mut c, Event::Polled(vec![true])), Action::Receive { bus: 0 });
    step(&mut c, Event::Received(frame("P", "A", b"m")));
    assert_eq!(step(&mut c, Event::HandlerFailed(err.clone())), Action::HandleErr(err));
    assert_eq!(step(&mut c, Event::Recovered), Action::Poll);
    assert_eq!(c.state(), &LoopState::Polling);
}

#[test]
fn decode_failure_reaches_recovery_hook() {
    let mut c = started("A", vec!["X"]);
    step(&mut c, Event::Polled(vec![true]));
    let a = step(&mut c, Event::DecodeFailed("unknown type 0xdead".to_string()));
    assert_eq!(a, Action::HandleErr(Error::Presentation("unknown type 0xdead".to_string())));
    assert_eq!(step(&mut c, Event::Recovered), Action::Poll);
    assert_eq!(step(&mut c, Event::Polled(vec![true])), Action::Receive { bus: 0 });
    let a = step(&mut c, Event::Received(frame("P", "A", b"ok")));
    assert_eq!(a, Action::Handle { bus: 0, source: b"P".to_vec() });
}

#[test]
fn fatal_escalation_stops_loop() {
    let mut c = started("A", vec!["X"]);
    let a = step(&mut c, Event::PollFailed("socket closed".to_string()));
    assert_eq!(a, Action::HandleErr(Error::Transport("socket closed".to_string())));
    let fatal = Error::ServiceError("fatal".to_string());
    assert_eq!(step(&mut c, Event::Escalated(fatal.clone())), Action::Stop(fatal));
    assert_eq!(c.state(), &LoopState::Stopped);
    assert!(!c.accepts(&Event::Polled(vec![true])));
}

#[test]
fn ready_buses_drained_in_poll_order() {
    let mut c = started("A", vec!["X", "Y", "Z"]);
    assert_eq!(
        step(&mut c, Event::Polled(vec![true, false, true])),
        Action::Receive { bus: 0 }
    );
    step(&mut c, Event::Received(frame("P", "A", b"1")));
    assert_eq!(step(&mut c, Event::Handled), Action::Receive { bus: 2 });
    // A spurious wakeup: no frame on the bus.
    assert_eq!(step(&mut c, Event::NothingReceived), Action::Poll);
    assert_eq!(step(&mut c, Event::Polled(vec![false, false, false])), Action::Poll);
    // Flags beyond the bus list are ignored.
    assert_eq!(step(&mut c, Event::Polled(vec![false, false, false, true])), Action::Poll);
}

#[test]
fn frames_of_one_bus_in_order() {
    let mut c = started("R", vec!["X"]);
    let mut sent = Vec::new();
    for body in [b"first".to_vec(), b"second".to_vec()] {
        assert_eq!(step(&mut c, Event::Polled(vec![true])), Action::Receive { bus: 0 });
        assert!(!c.accepts(&Event::Sent));
        match step(&mut c, Event::Received(frame("P", "Q", &body))) {
            Action::Send(o) => sent.push(o.frame.body),
            other => panic!("expected a forward, got {:?}", other),
        }
        assert!(!c.accepts(&Event::Received(frame("P", "Q", b"third"))));
        assert_eq!(step(&mut c, Event::Sent), Action::Poll);
    }
    assert_eq!(sent, vec![b"first".to_vec(), b"second".to_vec()]);
}

#[test]
fn forward_stays_on_its_bus() {
    let mut c = started("R", vec!["X", "Y"]);
    assert_eq!(step(&mut c, Event::Polled(vec![false, true])), Action::Receive { bus: 1 });
    match step(&mut c, Event::Received(frame("P", "Q", b"m"))) {
        Action::Send(o) => assert_eq!(o.bus, 1),
        other => panic!("expected a forward, got {:?}", other),
    }
}

#[test]
fn unreachable_destination_is_a_send_error() {
    let mut c = started("R", vec!["X"]);
    step(&mut c, Event::Polled(vec![true]));
    step(&mut c, Event::Received(frame("P", "nobody", b"m")));
    let a = step(&mut c, Event::SendFailed("host unreachable".to_string()));
    assert_eq!(
        a,
        Action::HandleErr(Error::Send(
            b"R".to_vec(),
            b"nobody".to_vec(),
            "host unreachable".to_string()
        ))
    );
    assert_eq!(step(&mut c, Event::Recovered), Action::Poll);
}

#[test]
fn receive_failure_is_transport_error() {
    let mut c = started("A", vec!["X"]);
    step(&mut c, Event::Polled(vec![true]));
    let a = step(&mut c, Event::ReceiveFailed("EAGAIN".to_string()));
    assert_eq!(a, Action::HandleErr(Error::Transport("EAGAIN".to_string())));
}

#[test]
fn senders_use_controller_identity() {
    let s = Senders::new(b"me".to_vec(), b"router".to_vec(), vec!["X", "Y"]);
    assert_eq!(s.bus_count(), 2);
    assert_eq!(s.identity_bytes(), &b"me".to_vec());
    assert_eq!(s.router_bytes(), &b"router".to_vec());
    assert_eq!(s.bus_index(&"Y"), Some(1));
    assert_eq!(s.bus_index(&"Z"), None);
    let o = s.send_to(&"Y", b"peer".to_vec(), b"body".to_vec()).unwrap();
    assert_eq!(o.bus, 1);
    assert_eq!(o.frame, RoutedFrame { src: b"me".to_vec(), dst: b"peer".to_vec(), body: b"body".to_vec() });
    assert_eq!(
        s.send_to(&"Z", b"peer".to_vec(), b"body".to_vec()),
        Err(Error::UnknownBusId("Z".to_string()))
    );
    assert_eq!(
        s.send_failed(b"peer".to_vec(), "gone".to_string()),
        Error::Send(b"me".to_vec(), b"peer".to_vec(), "gone".to_string())
    );
}

#[test]
fn rpc_endpoint_selection() {
    let client = RpcClient::init(vec!["bitcoind", "lnd"]);
    assert_eq!(client.endpoint_count(), 2);
    assert_eq!(client.endpoint_socket(&"lnd"), Ok(1));
    assert_eq!(
        client.endpoint_socket(&"cln"),
        Err(RpcError::UnknownEndpoint("cln".to_string()))
    );
}

#[test]
fn controller_waits_for_start() {
    let mut c: Controller<u8> = Controller::init(b"A".to_vec(), b"R".to_vec(), vec![1, 2]);
    assert_eq!(c.state(), &LoopState::Constructed);
    assert!(!c.accepts(&Event::Polled(vec![true])));
    assert_eq!(c.senders().bus_count(), 2);
    assert_eq!(c.start(), Action::Poll);
    assert!(c.accepts(&Event::Polled(vec![true])));
    assert!(!c.accepts(&Event::Handled));
}

#[test]
fn finished_send_reports_destination() {
    let s = Senders::new(b"me".to_vec(), b"router".to_vec(), vec!["X"]);
    let o = s.send_to(&"X", b"peer".to_vec(), b"body".to_vec()).unwrap();
    assert_eq!(s.finish_send(&o, Ok(())), Ok(()));
    assert_eq!(
        s.finish_send(&o, Err("host unreachable".to_string())),
        Err(Error::Send(b"me".to_vec(), b"peer".to_vec(), "host unreachable".to_string()))
    );
}

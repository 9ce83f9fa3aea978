use thrust::connection::Dispatch;
use thrust::connection::Events;
use thrust::connection::Interest;
use thrust::connection::ReadOutcome;
use thrust::connection::Readiness;
use thrust::connection::State;
use thrust::connection::WriteOutcome;

type Out = WriteOutcome<&'static str>;
use thrust::connection::WriteStep;
use thrust::reactor::Action;
use thrust::reactor::Message;
use thrust::reactor::Reactor;
use thrust::reactor::Step;
use thrust::reactor::Timeout;

type Msg = Message<&'static str, &'static str, u32>;

fn ev(readable: bool, writable: bool, error: bool, hup: bool) -> Events {
    Events { readable, writable, error, hup }
}

#[test]
fn create_reactor() {
    // Bind a listener, connect to it, send "abc" on the connection and
    // read it back on the accepted side.
    let mut reactor = Reactor::new();
    let server_chan = 10u32;
    match reactor.notify::<&str, &str, u32>(Msg::Bind("listener", "127.0.0.1:5543", server_chan)) {
        Action::Bind { listener, addr, chan, reply, registration } => {
            match reply {
                Dispatch::Id(n) => assert_eq!(n, 0),
                _ => panic!("expected the listener's token"),
            }
            assert_eq!(listener, "listener");
            assert_eq!(addr, "127.0.0.1:5543");
            assert_eq!(chan, server_chan);
            assert_eq!(registration.token, 0);
            assert_eq!(registration.interest, Interest::Readable);
            assert!(registration.edge && !registration.oneshot);
        },
        _ => panic!("expected a bind"),
    }
    let id = match reactor.notify::<&str, &str, u32>(Msg::Connect("127.0.0.1:5543", 20)) {
        Action::Connect { reply: Dispatch::Id(n), chan, registration, .. } => {
            assert_eq!(chan, 20);
            assert_eq!(registration.token, n);
            n
        },
        _ => panic!("Expected to receive the Connection id/token."),
    };
    assert_eq!(id, 1);
    match reactor.notify::<&str, &str, u32>(Msg::Rpc(id, b"abc".to_vec())) {
        Action::Flush(t) => assert_eq!(t, id),
        _ => panic!("expected a flush"),
    }
    let sent = reactor.connection_unwritten(id).to_vec();
    reactor.connection_flush(id, Out::Written(sent.len())).unwrap();
    assert_eq!(reactor.connection_unwritten(id), b"");

    // The listener becomes readable: the accepted socket gets its own token.
    assert_eq!(reactor.ready(0, ev(true, false, false, false)), Step::Accept);
    let (reg, reply) = reactor.accept_connection(0);
    assert_eq!(reg.token, 2);
    match reply {
        Dispatch::Id(n) => assert_eq!(n, 2),
        _ => panic!("expected the accepted connection's token"),
    }
    assert_eq!(reactor.ready(2, ev(true, false, false, false)), Step::Connection(Readiness::Read));
    let v = match reactor.connection_readable(2, ReadOutcome::Data(sent)) {
        Some(Dispatch::Data(v)) => v,
        _ => panic!("Error trying to assert reactor test."),
    };
    assert!(reactor.connection_readable(2, ReadOutcome::WouldBlock).is_none());
    assert_eq!(v.len(), 3);
    assert_eq!(v, b"abc");
}

#[test]
fn tokens_are_allocated_in_order_and_never_reused() {
    let mut r = Reactor::new();
    assert_eq!(r.next_token(), 0);
    let _ = r.notify::<&str, &str, u32>(Msg::Bind("l", "a", 1));
    let _ = r.notify::<&str, &str, u32>(Msg::Connect("a", 2));
    let (reg, _) = r.accept_connection(0);
    assert_eq!(reg.token, 2);
    assert_eq!(r.ready(1, ev(false, false, false, true)), Step::Hangup);
    assert!(!r.is_connection(1));
    let _ = r.notify::<&str, &str, u32>(Msg::Connect("a", 3));
    assert_eq!(r.next_token(), 4);
    assert!(r.is_connection(3));
    assert!(r.is_listener(0));
    assert!(!r.is_listener(3));
    assert!(!r.is_connection(0));
}

#[test]
fn ready_decisions() {
    let mut r = Reactor::new();
    let _ = r.notify::<&str, &str, u32>(Msg::Bind("l", "a", 1));
    let _ = r.notify::<&str, &str, u32>(Msg::Connect("a", 2));
    // An error changes nothing.
    assert_eq!(r.ready(1, ev(true, false, true, false)), Step::Failure);
    assert!(r.is_connection(1));
    // A writable listener takes nothing.
    assert_eq!(r.ready(0, ev(false, true, false, false)), Step::Ignored);
    // Unknown tokens are ignored; a hang-up on one changes nothing.
    assert_eq!(r.ready(99, ev(true, true, false, false)), Step::Ignored);
    assert_eq!(r.ready(99, ev(false, false, false, true)), Step::Hangup);
    assert!(r.is_connection(1));
    // A reading connection that is only writable just re-arms.
    assert_eq!(r.ready(1, ev(false, true, false, false)), Step::Connection(Readiness::Idle));
    assert_eq!(r.connection_reregister(1).interest, Interest::Readable);
    // Hang-up drops the connection.
    assert_eq!(r.ready(1, ev(true, false, false, true)), Step::Hangup);
    assert!(!r.is_connection(1));
    assert_eq!(r.connection_state(1), None);
}

#[test]
fn connection_cycle_through_the_reactor() {
    let mut r = Reactor::new();
    let _ = r.notify::<&str, &str, u32>(Msg::Connect("a", 2));
    assert_eq!(r.connection_state(0), Some(State::Reading));
    match r.connection_readable(0, ReadOutcome::Data(b"req".to_vec())) {
        Some(Dispatch::Data(v)) => assert_eq!(v, b"req"),
        _ => panic!("expected data"),
    }
    assert!(r.connection_readable(0, ReadOutcome::Failed).is_none());
    assert_eq!(r.connection_state(0), Some(State::Writing));
    let reg = r.connection_reregister(0);
    assert_eq!(reg.interest, Interest::Writable);
    assert!(reg.oneshot && !reg.edge);
    let _ = r.notify::<&str, &str, u32>(Msg::Rpc(0, b"reply".to_vec()));
    assert_eq!(r.ready(0, ev(false, true, false, false)), Step::Connection(Readiness::Write));
    assert_eq!(r.connection_writable(0), WriteStep::Flush);
    r.connection_flush(0, Out::Written(3)).unwrap();
    assert_eq!(r.connection_unwritten(0), b"ly");
    assert_eq!(r.connection_flush(0, Out::Failed("reset")), Err("reset"));
    r.connection_flush(0, Out::WouldBlock).unwrap();
    assert_eq!(r.connection_writable(0), WriteStep::Flush);
    r.connection_flush(0, Out::Written(2)).unwrap();
    assert_eq!(r.connection_writable(0), WriteStep::Done);
    assert_eq!(r.connection_state(0), Some(State::Reading));
}

#[test]
fn rpc_appends_behind_queued_bytes() {
    let mut r = Reactor::new();
    let _ = r.notify::<&str, &str, u32>(Msg::Connect("a", 2));
    let _ = r.notify::<&str, &str, u32>(Msg::Rpc(0, b"one".to_vec()));
    let _ = r.notify::<&str, &str, u32>(Msg::Rpc(0, b"two".to_vec()));
    assert_eq!(r.connection_unwritten(0), b"onetwo");
}

#[test]
fn timeout_changes_nothing() {
    let mut r = Reactor::new();
    let _ = r.notify::<&str, &str, u32>(Msg::Connect("a", 2));
    r.timeout(Timeout::Reconnect(0, "a"));
    assert_eq!(r.next_token(), 1);
    assert!(r.is_connection(0));
}

#[test]
fn shutdown_drops_listeners_and_connections() {
    let mut r = Reactor::new();
    let _ = r.notify::<&str, &str, u32>(Msg::Bind("l", "a", 1));
    let _ = r.notify::<&str, &str, u32>(Msg::Connect("a", 2));
    match r.notify::<&str, &str, u32>(Msg::Shutdown) {
        Action::Shutdown => {},
        _ => panic!("expected a shutdown"),
    }
    assert!(!r.is_listener(0));
    assert!(!r.is_connection(1));
    assert_eq!(r.ready(0, ev(true, false, false, false)), Step::Ignored);
    // Tokens are not handed out again.
    assert_eq!(r.next_token(), 2);
    let _ = r.notify::<&str, &str, u32>(Msg::Connect("a", 3));
    assert!(r.is_connection(2));
}

#[test]
fn data_goes_to_the_initiator_or_the_listener_channel() {
    let mut r = Reactor::new();
    let _ = r.notify::<&str, &str, u32>(Msg::Bind("l", "a", 1));
    let _ = r.notify::<&str, &str, u32>(Msg::Connect("a", 2));
    let _ = r.accept_connection(0);
    // The connected stream reports to its own channel, the accepted one to
    // its listener's.
    assert_eq!(r.connection_channel(1), 1);
    assert_eq!(r.connection_channel(2), 0);
    let _ = r.connection_readable(2, ReadOutcome::WouldBlock);
    assert_eq!(r.connection_channel(2), 0);
}

use thrust::connection::Connection;
use thrust::connection::Dispatch;
use thrust::connection::Events;
use thrust::connection::Interest;
use thrust::connection::ReadOutcome;
use thrust::connection::Readiness;
use thrust::connection::State;
use thrust::connection::ThrustError;
use thrust::connection::WriteOutcome;

type Out = WriteOutcome<&'static str>;
use thrust::connection::WriteStep;

fn events(readable: bool, writable: bool) -> Events {
    Events { readable, writable, error: false, hup: false }
}

#[test]
fn new_connection_reads_first() {
    let c = Connection::new(7, 7);
    assert_eq!(c.token, 7);
    assert_eq!(c.state(), State::Reading);
    assert!(!c.has_remaining());
    assert_eq!(c.unwritten(), b"");
    let reg = c.register(7);
    assert_eq!(reg.token, 7);
    assert_eq!(reg.interest, Interest::Readable);
    assert!(reg.edge && reg.oneshot);
}

#[test]
fn ready_follows_state_and_events() {
    let mut c = Connection::new(1, 1);
    assert_eq!(c.ready(events(true, false)), Readiness::Read);
    assert_eq!(c.ready(events(false, true)), Readiness::Idle);
    assert_eq!(c.ready(events(false, false)), Readiness::Idle);
    assert!(c.readable(ReadOutcome::WouldBlock).is_none());
    assert_eq!(c.state(), State::Writing);
    assert_eq!(c.ready(events(false, true)), Readiness::Write);
    assert_eq!(c.ready(events(true, false)), Readiness::Idle);
    assert_eq!(c.ready(events(true, true)), Readiness::Write);
}

#[test]
fn read_hands_over_exactly_what_was_read() {
    let mut c = Connection::new(1, 1);
    match c.read(ReadOutcome::Data(b"hello".to_vec())) {
        Ok(v) => assert_eq!(v, b"hello"),
        Err(_) => panic!("expected data"),
    }
    match c.read(ReadOutcome::Data(b"again".to_vec())) {
        Ok(v) => assert_eq!(v, b"again"),
        Err(_) => panic!("expected data"),
    }
    assert_eq!(c.read(ReadOutcome::WouldBlock), Err(ThrustError::NotReady));
    assert_eq!(c.read(ReadOutcome::Failed), Err(ThrustError::Other));
    assert_eq!(c.state(), State::Reading);
}

#[test]
fn read_phase_dispatches_each_chunk_then_turns_to_writing() {
    let mut c = Connection::new(3, 3);
    match c.readable(ReadOutcome::Data(b"ab".to_vec())) {
        Some(Dispatch::Data(v)) => assert_eq!(v, b"ab"),
        _ => panic!("expected a Data dispatch"),
    }
    assert_eq!(c.state(), State::Reading);
    match c.readable(ReadOutcome::Data(Vec::new())) {
        Some(Dispatch::Data(v)) => assert!(v.is_empty()),
        _ => panic!("expected an empty Data dispatch"),
    }
    assert!(c.readable(ReadOutcome::Failed).is_none());
    assert_eq!(c.state(), State::Writing);
    let reg = c.reregister();
    assert_eq!(reg.token, 3);
    assert_eq!(reg.interest, Interest::Writable);
    assert!(!reg.edge && reg.oneshot);
}

#[test]
fn write_phase_flushes_until_empty_then_turns_to_reading() {
    let mut c = Connection::new(2, 2);
    assert!(c.readable(ReadOutcome::WouldBlock).is_none());
    assert_eq!(c.write(b"abcdef"), WriteStep::Flush);
    assert_eq!(c.writable(), WriteStep::Flush);
    assert_eq!(c.state(), State::Writing);
    assert_eq!(c.unwritten(), b"abcdef");
    assert_eq!(c.flush(Out::Written(2)), Ok(()));
    assert_eq!(c.unwritten(), b"cdef");
    assert_eq!(c.flush(Out::WouldBlock), Ok(()));
    assert_eq!(c.unwritten(), b"cdef");
    assert_eq!(c.flush(Out::Failed("broken pipe")), Err("broken pipe"));
    assert_eq!(c.unwritten(), b"cdef");
    assert_eq!(c.writable(), WriteStep::Flush);
    assert_eq!(c.flush(Out::Written(4)), Ok(()));
    assert!(!c.has_remaining());
    assert_eq!(c.writable(), WriteStep::Done);
    assert_eq!(c.state(), State::Reading);
    assert_eq!(c.reregister().interest, Interest::Readable);
}

#[test]
fn flush_past_the_end_takes_everything() {
    let mut c = Connection::new(4, 4);
    c.write(b"xyz");
    assert_eq!(c.flush(Out::Written(usize::MAX)), Ok(()));
    assert_eq!(c.unwritten(), b"");
    c.write(b"12");
    assert_eq!(c.unwritten(), b"12");
}

#[test]
fn peer_receives_written_bytes_in_order() {
    let mut c = Connection::new(5, 5);
    let mut received: Vec<u8> = Vec::new();
    c.write(b"hello ");
    let chunk = c.unwritten()[..4].to_vec();
    received.extend_from_slice(&chunk);
    c.flush(Out::Written(4)).unwrap();
    c.write(b"world");
    let chunk = c.unwritten().to_vec();
    received.extend_from_slice(&chunk);
    c.flush(Out::Written(chunk.len())).unwrap();
    assert_eq!(received, b"hello world");
    assert!(!c.has_remaining());
}

#[test]
fn write_flushes_once_and_reports_that_flush() {
    let mut c = Connection::new(6, 1);
    assert_eq!(c.chan(), 1);
    assert_eq!(c.write(b"ab"), WriteStep::Flush);
    assert_eq!(c.finish_write(Out::Written(1)), Ok(0));
    assert_eq!(c.unwritten(), b"b");
    // Data written behind pending bytes goes after them.
    assert_eq!(c.write(b"cd"), WriteStep::Flush);
    assert_eq!(c.unwritten(), b"bcd");
    assert_eq!(c.finish_write(Out::WouldBlock), Ok(0));
    assert_eq!(c.unwritten(), b"bcd");
    // A failed flush reports its error; the data stays queued.
    assert_eq!(c.write(b"e"), WriteStep::Flush);
    assert_eq!(c.finish_write(Out::Failed("reset")), Err("reset"));
    assert_eq!(c.unwritten(), b"bcde");
    assert_eq!(c.state(), State::Reading);
    // An empty write still flushes once.
    assert_eq!(c.write(b""), WriteStep::Flush);
    assert_eq!(c.finish_write(Out::Written(10)), Ok(0));
    assert!(!c.has_remaining());
}

//! One socket managed by the reactor: its read/write cycle, its outgoing byte
//! queue and the readiness it waits for next.
use vstd::prelude::*;

verus! {

/// Where a connection stands in its read/write cycle.
#[derive(Debug, PartialEq, Eq, Structural, Clone, Copy)]
pub enum State {
    Reading,
    Writing,
    Closed,
}

/// Communication from the reactor to the components outside the event loop.
pub enum Dispatch {
    /// The token allocated to a newly created resource.
    Id(usize),
    /// Bytes that were read from a socket.
    Data(Vec<u8>),
}

/// Errors of the transport layer.
#[derive(Debug, PartialEq, Eq, Structural, Clone, Copy)]
pub enum ThrustError {
    /// The socket had nothing to offer right now.
    NotReady,
    /// The socket failed.
    Other,
}

/// The readiness that the event loop reported for one socket.
#[derive(Debug, PartialEq, Eq, Structural, Clone, Copy)]
pub struct Events {
    pub readable: bool,
    pub writable: bool,
    pub error: bool,
    pub hup: bool,
}

/// The readiness a socket is registered for.
#[derive(Debug, PartialEq, Eq, Structural, Clone, Copy)]
pub enum Interest {
    Readable,
    Writable,
    Nothing,
}

/// A (re)registration of a socket with the event loop.
#[derive(Debug, PartialEq, Eq, Structural, Clone, Copy)]
pub struct Registration {
    pub token: usize,
    pub interest: Interest,
    /// Edge-triggered notification.
    pub edge: bool,
    /// The registration is disarmed after one notification.
    pub oneshot: bool,
}

/// What one non-blocking read of the socket gave.
pub enum ReadOutcome {
    /// These bytes were read (possibly none, at the end of the stream).
    Data(Vec<u8>),
    /// The read would have blocked.
    WouldBlock,
    /// The read failed.
    Failed,
}

/// What one non-blocking write of the unwritten bytes gave; `E` is the
/// socket's error.
#[derive(Debug)]
pub enum WriteOutcome<E> {
    /// The socket took this many bytes.
    Written(usize),
    /// The write would have blocked.
    WouldBlock,
    /// The write failed with this error.
    Failed(E),
}

/// What a connection does with a readiness notification.
#[derive(Debug, PartialEq, Eq, Structural, Clone, Copy)]
pub enum Readiness {
    /// Drain the socket (see [`Connection::readable`]).
    Read,
    /// Flush the queued bytes (see [`Connection::writable`]).
    Write,
    /// Only re-arm the registration.
    Idle,
}

/// The next step of the write phase.
#[derive(Debug, PartialEq, Eq, Structural, Clone, Copy)]
pub enum WriteStep {
    /// Bytes are still queued: write [`Connection::unwritten`] and report it with
    /// [`Connection::flush`].
    Flush,
    /// Everything was written; the connection now waits for readability.
    Done,
}

/// The abstract state of a connection.
pub struct ConnectionView {
    pub token: usize,
    /// The token of the resource whose channel receives this connection's
    /// messages.
    pub chan: usize,
    pub state: State,
    /// Every byte ever queued for writing, in order.
    pub queued: Seq<u8>,
    /// How many of the queued bytes the socket has taken.
    pub sent: nat,
}

impl ConnectionView {
    /// The queued bytes that the socket has not taken yet.
    pub open spec fn pending(self) -> Seq<u8> {
        self.queued.subrange(self.sent as int, self.queued.len() as int)
    }

    pub open spec fn valid(self) -> bool {
        &&& self.sent <= self.queued.len()
        &&& self.state != State::Closed
    }

    pub open spec fn with_state(self, state: State) -> ConnectionView {
        ConnectionView { state, ..self }
    }

    /// The view after `data` was queued.
    pub open spec fn appended(self, data: Seq<u8>) -> ConnectionView {
        ConnectionView { queued: self.queued + data, ..self }
    }

    /// How many bytes a write reported as `n` bytes long takes off the queue.
    pub open spec fn taken(self, n: nat) -> nat {
        if self.sent + n >= self.queued.len() {
            (self.queued.len() - self.sent) as nat
        } else {
            n
        }
    }

    /// The view after the socket took `n` bytes of the pending ones.
    pub open spec fn advanced(self, n: nat) -> ConnectionView {
        ConnectionView { sent: self.sent + self.taken(n), ..self }
    }
}

/// The readiness a connection in `state` registers for.
pub open spec fn interest_for(state: State) -> Interest {
    match state {
        State::Reading => Interest::Readable,
        State::Writing => Interest::Writable,
        State::Closed => Interest::Nothing,
    }
}

/// What a connection in `state` does on `events`.
pub open spec fn readiness_for(state: State, events: Events) -> Readiness {
    if state == State::Reading && events.readable {
        Readiness::Read
    } else if state == State::Writing && events.writable {
        Readiness::Write
    } else {
        Readiness::Idle
    }
}

/// A write-side operation on a connection, for reasoning about a run of them.
pub enum WriteOp {
    /// [`Connection::write`] of these bytes.
    Queue(Seq<u8>),
    /// [`Connection::flush`] of a write that the socket reported as this many bytes.
    Took(nat),
}

impl ConnectionView {
    pub open spec fn apply(self, op: WriteOp) -> ConnectionView {
        match op {
            WriteOp::Queue(data) => self.appended(data),
            WriteOp::Took(n) => self.advanced(n),
        }
    }

    /// The bytes that `op` hands to the peer: the part of the pending bytes
    /// that the socket took.
    pub open spec fn handed(self, op: WriteOp) -> Seq<u8> {
        match op {
            WriteOp::Queue(_) => Seq::empty(),
            WriteOp::Took(n) => self.pending().take(self.taken(n) as int),
        }
    }
}

/// The view after a run of write-side operations.
pub open spec fn run_ops(v: ConnectionView, ops: Seq<WriteOp>) -> ConnectionView
    decreases ops.len(),
{
    if ops.len() == 0 {
        v
    } else {
        run_ops(v.apply(ops[0]), ops.drop_first())
    }
}

/// Everything a run of write-side operations hands to the peer, in order.
pub open spec fn delivered(v: ConnectionView, ops: Seq<WriteOp>) -> Seq<u8>
    decreases ops.len(),
{
    if ops.len() == 0 {
        Seq::empty()
    } else {
        v.handed(ops[0]) + delivered(v.apply(ops[0]), ops.drop_first())
    }
}

/// Everything a run of write-side operations queues, in order.
pub open spec fn queued_by(ops: Seq<WriteOp>) -> Seq<u8>
    decreases ops.len(),
{
    if ops.len() == 0 {
        Seq::empty()
    } else {
        let data = match ops[0] {
            WriteOp::Queue(d) => d,
            WriteOp::Took(_) => Seq::empty(),
        };
        data + queued_by(ops.drop_first())
    }
}

/// Over any run of writes and flushes, the queue only grows by what was
/// written, and the bytes handed to the peer are exactly the queued bytes
/// between the old and the new write position: none is lost, repeated or
/// reordered.
pub proof fn lemma_bytes_delivered_in_order(v: ConnectionView, ops: Seq<WriteOp>)
    requires
        v.sent <= v.queued.len(),
    ensures
        run_ops(v, ops).queued == v.queued + queued_by(ops),
        v.sent <= run_ops(v, ops).sent <= run_ops(v, ops).queued.len(),
        run_ops(v, ops).token == v.token,
        run_ops(v, ops).state == v.state,
        delivered(v, ops) == run_ops(v, ops).queued.subrange(
            v.sent as int,
            run_ops(v, ops).sent as int,
        ),
    decreases ops.len(),
{
    if ops.len() > 0 {
        let v1 = v.apply(ops[0]);
        let rest = ops.drop_first();
        lemma_bytes_delivered_in_order(v1, rest);
        let r = run_ops(v1, rest);
        assert(run_ops(v, ops) == r);
        match ops[0] {
            WriteOp::Queue(d) => {
                assert(r.queued =~= v.queued + queued_by(ops));
                assert(delivered(v, ops) =~= delivered(v1, rest));
            },
            WriteOp::Took(n) => {
                assert(queued_by(ops) =~= queued_by(rest));
                let t = v.taken(n);
                assert(v.handed(ops[0]) =~= r.queued.subrange(v.sent as int, (v.sent + t) as int));
                assert(delivered(v, ops) =~= r.queued.subrange(v.sent as int, r.sent as int));
            },
        }
    } else {
        assert(v.queued + queued_by(ops) =~= v.queued);
        assert(delivered(v, ops) =~= v.queued.subrange(v.sent as int, v.sent as int));
    }
}

/// What a new connection hands to its peer is always a prefix of what was
/// written to it, and all of it once nothing is pending any more: the peer
/// reads back exactly the bytes written.
pub proof fn lemma_peer_receives_what_was_written(token: usize, chan: usize, ops: Seq<WriteOp>)
    ensures
        ({
            let v0 = ConnectionView {
                token,
                chan,
                state: State::Reading,
                queued: Seq::empty(),
                sent: 0,
            };
            &&& delivered(v0, ops) == queued_by(ops).take(delivered(v0, ops).len() as int)
            &&& run_ops(v0, ops).pending().len() == 0 ==> delivered(v0, ops) == queued_by(ops)
        }),
{
    let v0 = ConnectionView {
                token,
                chan,
                state: State::Reading,
                queued: Seq::empty(),
                sent: 0,
            };
    lemma_bytes_delivered_in_order(v0, ops);
    let r = run_ops(v0, ops);
    assert(r.queued =~= queued_by(ops));
    assert(delivered(v0, ops) =~= queued_by(ops).take(delivered(v0, ops).len() as int));
    if r.pending().len() == 0 {
        assert(delivered(v0, ops) =~= queued_by(ops));
    }
}

/// A write the socket reported as `n` bytes takes the first `n` pending bytes
/// off the queue's pending part (all of them when `n` reaches past it): the
/// bytes handed over are its front, what stays pending is the rest, and the
/// queue and everything else about the connection stay as they were.
pub proof fn lemma_flush_takes_front(v: ConnectionView, n: nat)
    requires
        v.valid(),
    ensures
        v.advanced(n).queued == v.queued,
        v.advanced(n).token == v.token,
        v.advanced(n).chan == v.chan,
        v.advanced(n).state == v.state,
        v.advanced(n).valid(),
        n < v.pending().len() ==> v.advanced(n).sent == v.sent + n,
        n < v.pending().len() ==> v.advanced(n).pending() == v.pending().skip(n as int),
        n < v.pending().len() ==> v.handed(WriteOp::Took(n)) == v.pending().take(n as int),
        n >= v.pending().len() ==> v.advanced(n).pending().len() == 0,
        n >= v.pending().len() ==> v.handed(WriteOp::Took(n)) == v.pending(),
        v.handed(WriteOp::Took(n)) + v.advanced(n).pending() == v.pending(),
{
    let w = v.advanced(n);
    let h = v.handed(WriteOp::Took(n));
    if n < v.pending().len() {
        assert(w.pending() =~= v.pending().skip(n as int));
    } else {
        assert(h =~= v.pending());
    }
    assert(h + w.pending() =~= v.pending());
}

/// A write followed by its one flush: the data goes behind the pending bytes
/// `p`, the peer receives a prefix `q` of `p + data`, and what stays pending is
/// the rest of `p + data`.
pub proof fn lemma_write_then_flush(v: ConnectionView, data: Seq<u8>, n: nat)
    requires
        v.valid(),
    ensures
        ({
            let w = v.apply(WriteOp::Queue(data));
            let q = w.handed(WriteOp::Took(n));
            let after = w.apply(WriteOp::Took(n));
            &&& w.pending() == v.pending() + data
            &&& q == (v.pending() + data).take(q.len() as int)
            &&& after.pending() == (v.pending() + data).skip(q.len() as int)
            &&& after.queued == v.queued + data
        }),
{
    let w = v.apply(WriteOp::Queue(data));
    assert(w.pending() =~= v.pending() + data);
    let q = w.handed(WriteOp::Took(n));
    let after = w.apply(WriteOp::Took(n));
    assert(q =~= (v.pending() + data).take(q.len() as int));
    assert(after.pending() =~= (v.pending() + data).skip(q.len() as int));
}

/// What the view operations do: changing the state changes nothing else;
/// appending puts the data behind everything queued and leaves the write
/// position; the pending bytes are what follows the write position.
pub proof fn lemma_view_operations(v: ConnectionView, state: State, data: Seq<u8>)
    requires
        v.valid(),
    ensures
        v.with_state(state).state == state,
        v.with_state(state).token == v.token,
        v.with_state(state).chan == v.chan,
        v.with_state(state).queued == v.queued,
        v.with_state(state).sent == v.sent,
        v.appended(data).queued == v.queued + data,
        v.appended(data).sent == v.sent,
        v.appended(data).token == v.token,
        v.appended(data).chan == v.chan,
        v.appended(data).state == v.state,
        v.appended(data).pending() == v.pending() + data,
        v.pending().len() == v.queued.len() - v.sent,
        v.queued.take(v.sent as int) + v.pending() == v.queued,
{
    assert(v.appended(data).pending() =~= v.pending() + data);
    assert(v.queued.take(v.sent as int) + v.pending() =~= v.queued);
}

/// A reading connection reads when the socket is readable and otherwise
/// waits; a writing connection writes when the socket is writable and
/// otherwise waits; each registers for the readiness it waits for.
pub proof fn lemma_readiness_and_interest(state: State, events: Events)
    ensures
        state == State::Reading ==> (readiness_for(state, events) == Readiness::Read
            <==> events.readable),
        state == State::Reading && !events.readable ==> readiness_for(state, events)
            == Readiness::Idle,
        state == State::Writing ==> (readiness_for(state, events) == Readiness::Write
            <==> events.writable),
        state == State::Writing && !events.writable ==> readiness_for(state, events)
            == Readiness::Idle,
        state == State::Closed ==> readiness_for(state, events) == Readiness::Idle,
        state == State::Reading <==> interest_for(state) == Interest::Readable,
        state == State::Writing <==> interest_for(state) == Interest::Writable,
        state == State::Closed <==> interest_for(state) == Interest::Nothing,
{
}

/// A socket of the reactor: the buffers and the read/write cycle around it.
pub struct Connection {
    pub token: usize,
    chan: usize,
    state: State,
    rbuffer: Vec<u8>,
    wbuffer: Vec<u8>,
    wpos: usize,
}

impl View for Connection {
    type V = ConnectionView;

    closed spec fn view(&self) -> ConnectionView {
        ConnectionView {
            token: self.token,
            chan: self.chan,
            state: self.state,
            queued: self.wbuffer@,
            sent: self.wpos as nat,
        }
    }
}

impl Connection {
    /// The connection's internal invariant: the write position lies within the
    /// queue, nothing is left in the read buffer between reads, and a connection
    /// is never closed while it is managed.
    pub closed spec fn wf(&self) -> bool {
        &&& self.wpos <= self.wbuffer.len()
        &&& self.rbuffer@.len() == 0
        &&& self.state != State::Closed
    }

    /// A well-formed connection has a valid view.
    pub proof fn lemma_wf_valid(&self)
        requires
            self.wf(),
        ensures
            self@.valid(),
    {
    }

    /// A new connection that reports to the channel of resource `chan`:
    /// reading, with nothing queued.
    pub fn new(token: usize, chan: usize) -> (c: Connection)
        ensures
            c.wf(),
            c@ == (ConnectionView {
                token,
                chan,
                state: State::Reading,
                queued: Seq::empty(),
                sent: 0,
            }),
    {
        Connection {
            token: token,
            chan: chan,
            state: State::Reading,
            rbuffer: Vec::new(),
            wbuffer: Vec::new(),
            wpos: 0,
        }
    }

    pub fn state(&self) -> (s: State)
        ensures
            s == self@.state,
    {
        self.state
    }

    /// The token of the resource whose channel receives this connection's
    /// messages.
    pub fn chan(&self) -> (c: usize)
        ensures
            c == self@.chan,
    {
        self.chan
    }

    /// What the connection does on a readiness notification: drain the socket
    /// when it is reading and the socket is readable, flush when it is writing
    /// and the socket is writable, and otherwise only re-arm its registration.
    pub fn ready(&self, events: Events) -> (r: Readiness)
        ensures
            r == readiness_for(self@.state, events),
    {
        match self.state {
            State::Reading if events.readable => Readiness::Read,
            State::Writing if events.writable => Readiness::Write,
            _ => Readiness::Idle,
        }
    }

    /// Takes the outcome of one read of the socket into the read buffer, and
    /// hands over what was read.
    pub fn read(&mut self, outcome: ReadOutcome) -> (r: Result<Vec<u8>, ThrustError>)
        requires
            old(self).wf(),
        ensures
            final(self).wf(),
            final(self)@ == old(self)@,
            match outcome {
                ReadOutcome::Data(bytes) => r matches Ok(v) && v@ == bytes@,
                ReadOutcome::WouldBlock => r == Err::<Vec<u8>, ThrustError>(ThrustError::NotReady),
                ReadOutcome::Failed => r == Err::<Vec<u8>, ThrustError>(ThrustError::Other),
            },
    {
        match outcome {
            ReadOutcome::Data(bytes) => {
                let mut bytes = bytes;
                self.rbuffer.append(&mut bytes);
                let mut taken = Vec::new();
                std::mem::swap(&mut taken, &mut self.rbuffer);
                Ok(taken)
            },
            ReadOutcome::WouldBlock => Err(ThrustError::NotReady),
            ReadOutcome::Failed => Err(ThrustError::Other),
        }
    }

    /// One step of the read phase. Bytes read (none at the end of the stream)
    /// are handed out as a [`Dispatch::Data`] and the phase goes on; the first
    /// read that would block or fails ends it, and the connection turns to
    /// writing.
    pub fn readable(&mut self, outcome: ReadOutcome) -> (r: Option<Dispatch>)
        requires
            old(self).wf(),
        ensures
            final(self).wf(),
            match outcome {
                ReadOutcome::Data(bytes) => {
                    &&& r matches Some(Dispatch::Data(v)) && v@ == bytes@
                    &&& final(self)@ == old(self)@
                },
                _ => r is None && final(self)@ == old(self)@.with_state(State::Writing),
            },
    {
        match self.read(outcome) {
            Ok(buf) => Some(Dispatch::Data(buf)),
            Err(_) => {
                self.state = State::Writing;
                None
            },
        }
    }

    /// One step of the write phase: while bytes are queued they must be
    /// flushed; once none are, the connection turns to reading.
    pub fn writable(&mut self) -> (step: WriteStep)
        requires
            old(self).wf(),
        ensures
            final(self).wf(),
            old(self)@.pending().len() > 0 ==> {
                &&& step == WriteStep::Flush
                &&& final(self)@ == old(self)@
            },
            old(self)@.pending().len() == 0 ==> {
                &&& step == WriteStep::Done
                &&& final(self)@ == old(self)@.with_state(State::Reading)
            },
    {
        if self.has_remaining() {
            WriteStep::Flush
        } else {
            self.state = State::Reading;
            WriteStep::Done
        }
    }

    /// The first registration of a new connection's socket: readable,
    /// edge-triggered and one-shot.
    pub fn register(&self, token: usize) -> (reg: Registration)
        ensures
            reg == (Registration {
                token,
                interest: Interest::Readable,
                edge: true,
                oneshot: true,
            }),
    {
        Registration { token, interest: Interest::Readable, edge: true, oneshot: true }
    }

    /// Re-arms the socket for the readiness that the current state waits for.
    pub fn reregister(&self) -> (reg: Registration)
        ensures
            reg == (Registration {
                token: self@.token,
                interest: interest_for(self@.state),
                edge: false,
                oneshot: true,
            }),
    {
        let interest = match self.state {
            State::Reading => Interest::Readable,
            State::Writing => Interest::Writable,
            _ => Interest::Nothing,
        };
        Registration { token: self.token, interest, edge: false, oneshot: true }
    }

    /// Queues `data` behind the bytes already queued, never over them. The
    /// write goes on with one flush: write [`Connection::unwritten`] once and
    /// report the outcome with [`Connection::finish_write`].
    pub fn write(&mut self, data: &[u8]) -> (step: WriteStep)
        requires
            old(self).wf(),
        ensures
            final(self).wf(),
            final(self)@ == old(self)@.appended(data@),
            step == WriteStep::Flush,
    {
        let mut i: usize = 0;
        while i < data.len()
            invariant
                self.wf(),
                i <= data@.len(),
                self@ == old(self)@.appended(data@.take(i as int)),
            decreases data@.len() - i,
        {
            self.wbuffer.push(data[i]);
            i = i + 1;
            assert(data@.take(i as int) =~= data@.take(i - 1) + seq![data@[i - 1]]);
            assert(self.wbuffer@ =~= old(self).wbuffer@ + data@.take(i as int));
        }
        assert(data@.take(data@.len() as int) =~= data@);
        WriteStep::Flush
    }

    /// Whether queued bytes wait for the socket.
    pub fn has_remaining(&self) -> (b: bool)
        requires
            self.wf(),
        ensures
            b == (self@.pending().len() > 0),
    {
        self.wpos < self.wbuffer.len()
    }

    /// The queued bytes that the socket has not taken yet.
    pub fn unwritten(&self) -> (s: &[u8])
        requires
            self.wf(),
        ensures
            s@ == self@.pending(),
    {
        vstd::slice::slice_subrange(self.wbuffer.as_slice(), self.wpos, self.wbuffer.len())
    }

    /// Takes the outcome of one write of [`Connection::unwritten`]: the bytes
    /// the socket took leave the queue's pending part; a count beyond it takes
    /// all of it.
    pub fn flush<E>(&mut self, outcome: WriteOutcome<E>) -> (r: Result<(), E>)
        requires
            old(self).wf(),
        ensures
            final(self).wf(),
            match outcome {
                WriteOutcome::Written(n) => r is Ok && final(self)@ == old(self)@.advanced(n as nat),
                WriteOutcome::WouldBlock => r is Ok && final(self)@ == old(self)@,
                WriteOutcome::Failed(e) => {
                    &&& r == Err::<(), E>(e)
                    &&& final(self)@ == old(self)@
                },
            },
    {
        match outcome {
            WriteOutcome::Written(n) => {
                let remaining = self.wbuffer.len() - self.wpos;
                if n >= remaining {
                    self.wpos = self.wbuffer.len();
                } else {
                    self.wpos = self.wpos + n;
                }
                Ok(())
            },
            WriteOutcome::WouldBlock => Ok(()),
            WriteOutcome::Failed(e) => Err(e),
        }
    }

    /// Ends a [`Connection::write`] with the outcome of its one flush: the
    /// flush's error, or else 0.
    pub fn finish_write<E>(&mut self, outcome: WriteOutcome<E>) -> (r: Result<usize, E>)
        requires
            old(self).wf(),
        ensures
            final(self).wf(),
            match outcome {
                WriteOutcome::Written(n) => {
                    &&& r == Ok::<usize, E>(0)
                    &&& final(self)@ == old(self)@.advanced(n as nat)
                },
                WriteOutcome::WouldBlock => r == Ok::<usize, E>(0) && final(self)@ == old(self)@,
                WriteOutcome::Failed(e) => {
                    &&& r == Err::<usize, E>(e)
                    &&& final(self)@ == old(self)@
                },
            },
    {
        match self.flush(outcome) {
            Ok(()) => Ok(0),
            Err(e) => Err(e),
        }
    }
}

} // verus!

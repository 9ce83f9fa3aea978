//! The reactor's registry of listeners and connections, keyed by the tokens
//! it allocates, and the decisions it takes on socket events and on messages
//! sent into the event loop.
use vstd::prelude::*;
use std::collections::HashMap;
use std::collections::HashSet;
use crate::connection::Connection;
use crate::connection::ConnectionView;
use crate::connection::Dispatch;
use crate::connection::Events;
use crate::connection::Interest;
use crate::connection::ReadOutcome;
use crate::connection::Readiness;
use crate::connection::Registration;
use crate::connection::State;
use crate::connection::WriteOutcome;
use crate::connection::WriteStep;
use crate::connection::readiness_for;

verus! {

broadcast use vstd::std_specs::hash::group_hash_axioms;

/// Communication into the event loop. `A` is the address type, `L` the
/// blocking listener type and `C` the channel on which the initiator hears
/// back.
pub enum Message<A, L, C> {
    /// Connect to a remote; the channel learns the new connection's token
    /// and receives the bytes read from it.
    Connect(A, C),
    /// Serve on an already bound listener; the channel learns the listener's
    /// token and the token of every connection it accepts, and receives the
    /// bytes read from them.
    Bind(L, A, C),
    /// Send these bytes on the connection with this token.
    Rpc(usize, Vec<u8>),
    /// Shut the event loop down; all listeners and connections are dropped.
    Shutdown,
}

/// Timers of the event loop.
pub enum Timeout<A> {
    Reconnect(usize, A),
}

/// What the event loop has to carry out after [`Reactor::notify`].
pub enum Action<A, L, C> {
    /// Bytes were queued on this connection: write its unwritten bytes once
    /// and report the outcome with [`Reactor::connection_flush`].
    Flush(usize),
    /// Drop every listener and connection and stop the event loop.
    Shutdown,
    /// Connect a stream to `addr`, send `reply` on `chan`, and register the
    /// stream as `registration` says.
    Connect { addr: A, chan: C, reply: Dispatch, registration: Registration },
    /// Turn `listener` into a non-blocking one on `addr`, send `reply` on
    /// `chan`, remember `chan` for the connections it accepts, and register
    /// the listener as `registration` says.
    Bind { listener: L, addr: A, chan: C, reply: Dispatch, registration: Registration },
}

/// What the event loop has to carry out after [`Reactor::ready`].
#[derive(Debug, PartialEq, Eq, Structural, Clone, Copy)]
pub enum Step {
    /// The peer hung up; the connection, if any, was dropped.
    Hangup,
    /// The socket reported an error; nothing changed.
    Failure,
    /// A listener is readable: accept a connection and report it with
    /// [`Reactor::accept_connection`].
    Accept,
    /// What the connection does with the notification.
    Connection(Readiness),
    /// The token names nothing that can take the notification.
    Ignored,
}

/// The abstract state of a reactor.
pub struct ReactorView {
    pub listeners: Set<usize>,
    pub connections: Map<usize, ConnectionView>,
    /// The token that the next resource will get.
    pub next_token: usize,
}

/// The view of a connection that was just created and reports to the
/// channel of resource `chan`.
pub open spec fn fresh_connection(token: usize, chan: usize) -> ConnectionView {
    ConnectionView { token, chan, state: State::Reading, queued: Seq::empty(), sent: 0 }
}

/// The first registration of a connection's socket.
pub open spec fn connection_registration(token: usize) -> Registration {
    Registration { token, interest: Interest::Readable, edge: true, oneshot: true }
}

/// The registration of a listener.
pub open spec fn listener_registration(token: usize) -> Registration {
    Registration { token, interest: Interest::Readable, edge: true, oneshot: false }
}

impl ReactorView {
    /// Whether a listener or a connection holds `token`.
    pub open spec fn in_use(self, token: usize) -> bool {
        self.listeners.contains(token) || self.connections.contains_key(token)
    }

    /// Every token in use was allocated earlier, and no token names both a
    /// listener and a connection.
    pub open spec fn registry_valid(self) -> bool {
        &&& forall|t: usize| #[trigger] self.listeners.contains(t) ==> t < self.next_token
        &&& forall|t: usize| #[trigger] self.connections.contains_key(t) ==> t < self.next_token
        &&& forall|t: usize|
            !(#[trigger] self.listeners.contains(t) && self.connections.contains_key(t))
    }

    /// The registry is valid, every connection is valid and stored under its
    /// own token, and its messages go to its own channel (a connection made by
    /// a connect) or to the channel of a listener (an accepted connection).
    pub open spec fn valid(self) -> bool {
        &&& self.registry_valid()
        &&& forall|t: usize| #[trigger]
            self.connections.contains_key(t) ==> {
                &&& self.connections[t].token == t
                &&& self.connections[t].valid()
                &&& self.connections[t].chan == t || self.listeners.contains(
                    self.connections[t].chan,
                )
            }
    }

    pub open spec fn with_connection(self, token: usize, c: ConnectionView) -> ReactorView {
        ReactorView { connections: self.connections.insert(token, c), ..self }
    }

    /// The view after a connection that reports to the channel of `chan` got
    /// the next token.
    pub open spec fn with_new_connection(self, chan: usize) -> ReactorView {
        ReactorView {
            connections: self.connections.insert(
                self.next_token,
                fresh_connection(self.next_token, chan),
            ),
            next_token: (self.next_token + 1) as usize,
            ..self
        }
    }

    /// The view after a listener got the next token.
    pub open spec fn with_new_listener(self) -> ReactorView {
        ReactorView {
            listeners: self.listeners.insert(self.next_token),
            next_token: (self.next_token + 1) as usize,
            ..self
        }
    }

    /// The decision on a readiness notification for `token`.
    pub open spec fn ready_step(self, token: usize, events: Events) -> (ReactorView, Step) {
        if events.hup {
            (ReactorView { connections: self.connections.remove(token), ..self }, Step::Hangup)
        } else if events.error {
            (self, Step::Failure)
        } else if events.readable && self.listeners.contains(token) {
            (self, Step::Accept)
        } else if self.connections.contains_key(token) {
            (self, Step::Connection(readiness_for(self.connections[token].state, events)))
        } else {
            (self, Step::Ignored)
        }
    }

    /// Whether [`Reactor::notify`] can take `msg`: an RPC must name a
    /// connection, and a new resource needs a token left.
    pub open spec fn admits<A, L, C>(self, msg: Message<A, L, C>) -> bool {
        match msg {
            Message::Rpc(id, _) => self.connections.contains_key(id),
            Message::Shutdown => true,
            _ => self.next_token < usize::MAX,
        }
    }

    /// The decision on a message sent into the event loop.
    pub open spec fn notify_step<A, L, C>(self, msg: Message<A, L, C>) -> (
        ReactorView,
        Action<A, L, C>,
    ) {
        match msg {
            Message::Rpc(id, data) => (
                self.with_connection(id, self.connections[id].appended(data@)),
                Action::Flush(id),
            ),
            Message::Shutdown => (
                ReactorView { listeners: Set::empty(), connections: Map::empty(), ..self },
                Action::Shutdown,
            ),
            Message::Connect(addr, chan) => (
                self.with_new_connection(self.next_token),
                Action::Connect {
                    addr,
                    chan,
                    reply: Dispatch::Id(self.next_token),
                    registration: connection_registration(self.next_token),
                },
            ),
            Message::Bind(listener, addr, chan) => (
                self.with_new_listener(),
                Action::Bind {
                    listener,
                    addr,
                    chan,
                    reply: Dispatch::Id(self.next_token),
                    registration: listener_registration(self.next_token),
                },
            ),
        }
    }
}

/// A hang-up drops the connection under its token, whatever state it is in,
/// and nothing else; any other notification leaves the registry as it is.
pub proof fn lemma_hangup_drops_connection(v: ReactorView, token: usize, events: Events)
    ensures
        events.hup ==> ({
            let (w, step) = v.ready_step(token, events);
            &&& step == Step::Hangup
            &&& !w.connections.contains_key(token)
            &&& w.listeners == v.listeners
            &&& w.next_token == v.next_token
            &&& forall|t: usize|
                t != token ==> (#[trigger] w.connections.contains_key(t)
                    == v.connections.contains_key(t))
            &&& forall|t: usize|
                t != token && v.connections.contains_key(t) ==> #[trigger] w.connections[t]
                    == v.connections[t]
        }),
        !events.hup ==> v.ready_step(token, events).0 == v,
{
}

/// A connect or a bind gives the new resource the next token, which nothing
/// holds yet; the resource is stored and registered under that token, and the
/// reply on its channel names exactly that token.
pub proof fn lemma_new_resource_reply<A, L, C>(v: ReactorView, msg: Message<A, L, C>)
    requires
        v.registry_valid(),
        v.next_token < usize::MAX,
    ensures
        ({
            let (w, action) = v.notify_step(msg);
            match msg {
                Message::Connect(_, _) => action matches Action::Connect { reply, registration, .. }
                    && {
                    &&& reply == Dispatch::Id(registration.token)
                    &&& registration.token == v.next_token
                    &&& !v.in_use(registration.token)
                    &&& w.connections.contains_key(registration.token)
                    &&& w.connections[registration.token].token == registration.token
                    &&& w.connections[registration.token].chan == registration.token
                    &&& w.next_token == registration.token + 1
                },
                Message::Bind(_, _, _) => action matches Action::Bind { reply, registration, .. }
                    && {
                    &&& reply == Dispatch::Id(registration.token)
                    &&& registration.token == v.next_token
                    &&& !v.in_use(registration.token)
                    &&& w.listeners.contains(registration.token)
                    &&& w.next_token == registration.token + 1
                },
                _ => w.next_token == v.next_token,
            }
        }),
{
}

/// What the registry operations do. A new connection gets the next token,
/// reports to the channel given, starts reading with nothing queued, and
/// leaves every other resource alone; a new listener likewise; replacing a
/// connection's view touches no other.
pub proof fn lemma_registry_operations(v: ReactorView, chan: usize, token: usize, c: ConnectionView)
    requires
        v.next_token < usize::MAX,
    ensures
        ({
            let w = v.with_new_connection(chan);
            let n = w.connections[v.next_token];
            &&& w.connections.contains_key(v.next_token)
            &&& n.token == v.next_token && n.chan == chan && n.state == State::Reading
            &&& n.queued.len() == 0 && n.sent == 0
            &&& w.next_token == v.next_token + 1
            &&& w.listeners == v.listeners
            &&& forall|t: usize|
                t != v.next_token ==> (#[trigger] w.connections.contains_key(t)
                    == v.connections.contains_key(t))
            &&& forall|t: usize|
                t != v.next_token && v.connections.contains_key(t) ==> #[trigger] w.connections[t]
                    == v.connections[t]
        }),
        ({
            let w = v.with_new_listener();
            &&& w.listeners.contains(v.next_token)
            &&& forall|t: usize|
                t != v.next_token ==> (#[trigger] w.listeners.contains(t) == v.listeners.contains(
                    t,
                ))
            &&& w.connections == v.connections
            &&& w.next_token == v.next_token + 1
        }),
        ({
            let w = v.with_connection(token, c);
            &&& w.connections.contains_key(token) && w.connections[token] == c
            &&& forall|t: usize|
                t != token ==> (#[trigger] w.connections.contains_key(t)
                    == v.connections.contains_key(t))
            &&& forall|t: usize|
                t != token && v.connections.contains_key(t) ==> #[trigger] w.connections[t]
                    == v.connections[t]
            &&& w.listeners == v.listeners
            &&& w.next_token == v.next_token
        }),
{
}

/// Without a hang-up or an error: a readable listener has a connection to
/// accept; otherwise a connection decides by its state; anything else is
/// ignored. An error (without a hang-up) is reported and changes nothing.
pub proof fn lemma_ready_decisions(v: ReactorView, token: usize, events: Events)
    requires
        v.registry_valid(),
    ensures
        !events.hup && events.error ==> v.ready_step(token, events) == (v, Step::Failure),
        !events.hup && !events.error && events.readable && v.listeners.contains(token)
            ==> v.ready_step(token, events).1 == Step::Accept,
        !events.hup && !events.error && v.connections.contains_key(token) ==> v.ready_step(
            token,
            events,
        ).1 == Step::Connection(readiness_for(v.connections[token].state, events)),
        !events.hup && !events.error && !v.in_use(token) ==> v.ready_step(token, events).1
            == Step::Ignored,
        !events.hup && !events.error && !events.readable && v.listeners.contains(token) ==> v.ready_step(
            token,
            events,
        ).1 == Step::Ignored,
{
    if v.connections.contains_key(token) {
        assert(!v.listeners.contains(token));
    }
}

/// An RPC puts its bytes behind everything queued on its connection and asks
/// for a flush of that connection, touching nothing else; a shutdown drops
/// every listener and connection but hands out no token again.
pub proof fn lemma_rpc_and_shutdown<A, L, C>(v: ReactorView, msg: Message<A, L, C>)
    ensures
        msg matches Message::Rpc(id, data) ==> (v.connections.contains_key(id) ==> ({
            let (w, action) = v.notify_step(msg);
            &&& action matches Action::Flush(t) && t == id
            &&& w.connections.contains_key(id)
            &&& w.connections[id].queued == v.connections[id].queued + data@
            &&& w.connections[id].sent == v.connections[id].sent
            &&& w.connections[id].state == v.connections[id].state
            &&& w.connections[id].token == v.connections[id].token
            &&& w.connections[id].chan == v.connections[id].chan
            &&& w.listeners == v.listeners
            &&& w.next_token == v.next_token
            &&& forall|t: usize|
                t != id ==> (#[trigger] w.connections.contains_key(t)
                    == v.connections.contains_key(t))
            &&& forall|t: usize|
                t != id && v.connections.contains_key(t) ==> #[trigger] w.connections[t]
                    == v.connections[t]
        })),
        msg is Shutdown ==> ({
            let (w, action) = v.notify_step(msg);
            &&& action is Shutdown
            &&& forall|t: usize| !w.in_use(t)
            &&& w.next_token == v.next_token
        }),
{
}

/// How one operation of the reactor may change its registry: either no token
/// is allocated and no resource is added (resources may go), or the next
/// token is handed to exactly one new listener or connection.
pub open spec fn registry_step(a: ReactorView, b: ReactorView) -> bool {
    ||| {
        &&& b.next_token == a.next_token
        &&& b.listeners.subset_of(a.listeners)
        &&& b.connections.dom().subset_of(a.connections.dom())
    }
    ||| {
        &&& b.next_token == a.next_token + 1
        &&& b.listeners == a.listeners.insert(a.next_token)
        &&& b.connections.dom() == a.connections.dom()
    }
    ||| {
        &&& b.next_token == a.next_token + 1
        &&& b.listeners == a.listeners
        &&& b.connections.dom() == a.connections.dom().insert(a.next_token)
    }
}

/// A run of reactor operations, seen through the views before and after each.
pub open spec fn registry_run(run: Seq<ReactorView>) -> bool {
    forall|i: int| 0 <= i < run.len() - 1 ==> registry_step(#[trigger] run[i], run[i + 1])
}

/// Whether the operation after view `i` of a run allocated a token.
pub open spec fn allocates(run: Seq<ReactorView>, i: int) -> bool {
    run[i + 1].next_token > run[i].next_token
}

/// Tokens are never reused: along any run of operations from a valid
/// registry, every registry stays valid, the next token never decreases, a
/// token handed out was not in use at any earlier point, and no two operations
/// hand out the same token.
pub proof fn lemma_tokens_never_reused(run: Seq<ReactorView>)
    requires
        run.len() > 0,
        run[0].registry_valid(),
        registry_run(run),
    ensures
        forall|i: int| 0 <= i < run.len() ==> (#[trigger] run[i]).registry_valid(),
        forall|i: int, j: int|
            0 <= i <= j < run.len() ==> (#[trigger] run[i]).next_token
                <= (#[trigger] run[j]).next_token,
        forall|i: int, j: int|
            0 <= i <= j < run.len() - 1 && allocates(run, j) ==> !(#[trigger] run[i]).in_use(
                (#[trigger] run[j]).next_token,
            ),
        forall|i: int, j: int|
            0 <= i < j < run.len() - 1 && allocates(run, i) && allocates(run, j) ==> (
            #[trigger] run[i]).next_token != (#[trigger] run[j]).next_token,
    decreases run.len(),
{
    if run.len() > 1 {
        let prefix = run.drop_last();
        assert forall|i: int| 0 <= i < prefix.len() - 1 implies registry_step(
            #[trigger] prefix[i],
            prefix[i + 1],
        ) by {
            assert(registry_step(run[i], run[i + 1]));
        }
        lemma_tokens_never_reused(prefix);
        let n = run.len() - 1;
        let a = run[n - 1];
        let b = run[n];
        assert(registry_step(a, b));
        assert(prefix[n - 1] == a);
        assert forall|t: usize| #[trigger] b.listeners.contains(t) implies t < b.next_token by {
            if !a.listeners.contains(t) {
                assert(t == a.next_token);
            }
        }
        assert forall|t: usize| #[trigger] b.connections.contains_key(t) implies t
            < b.next_token by {
            if !a.connections.contains_key(t) {
                assert(b.connections.dom().contains(t));
                assert(t == a.next_token);
            }
        }
        assert forall|t: usize|
            !(#[trigger] b.listeners.contains(t) && b.connections.contains_key(t)) by {
            if b.listeners.contains(t) && b.connections.contains_key(t) {
                assert(b.connections.dom().contains(t));
                if a.listeners.contains(t) {
                    assert(!a.connections.contains_key(t));
                    assert(t == a.next_token);
                } else {
                    assert(t == a.next_token);
                }
            }
        }
        assert forall|i: int| 0 <= i < run.len() implies (#[trigger] run[i]).registry_valid() by {
            if i < n {
                assert(run[i] == prefix[i]);
            }
        }
        assert forall|i: int, j: int| 0 <= i <= j < run.len() implies (#[trigger] run[i]).next_token
            <= (#[trigger] run[j]).next_token by {
            if j < n {
                assert(run[i] == prefix[i] && run[j] == prefix[j]);
            } else if i < n {
                assert(run[i] == prefix[i]);
                assert(prefix[i].next_token <= prefix[n - 1].next_token);
            }
        }
        assert forall|i: int, j: int|
            0 <= i <= j < run.len() - 1 && allocates(run, j) implies !(
            #[trigger] run[i]).in_use((#[trigger] run[j]).next_token) by {
            assert(run[i] == prefix[i] && run[j] == prefix[j]);
            assert(prefix[i].next_token <= prefix[j].next_token);
            assert(prefix[i].registry_valid());
            if j < n - 1 {
                assert(allocates(prefix, j));
            }
        }
        assert forall|i: int, j: int|
            0 <= i < j < run.len() - 1 && allocates(run, i) && allocates(run, j) implies (
            #[trigger] run[i]).next_token != (#[trigger] run[j]).next_token by {
            assert(run[i] == prefix[i] && run[j] == prefix[j]);
            assert(run[i + 1] == prefix[i + 1]);
            assert(prefix[i + 1].next_token <= prefix[j].next_token);
        }
    }
}

/// The views of the connections in a map.
pub open spec fn views_of(m: Map<usize, Connection>) -> Map<usize, ConnectionView> {
    m.map_values(|c: Connection| c@)
}

proof fn lemma_views_insert(m: Map<usize, Connection>, t: usize, c: Connection)
    ensures
        views_of(m.insert(t, c)) =~= views_of(m).insert(t, c@),
{
}

proof fn lemma_views_remove(m: Map<usize, Connection>, t: usize)
    ensures
        views_of(m.remove(t)) =~= views_of(m).remove(t),
{
}

/// Replacing a connection by one with the same token keeps the invariant.
proof fn lemma_replace_keeps_wf(before: &Reactor, after: &Reactor, token: usize)
    requires
        before.wf(),
        before.connections@.contains_key(token),
        after.listeners@ == before.listeners@,
        after.current_token == before.current_token,
        after.connections@ == before.connections@.insert(token, after.connections@[token]),
        after.connections@[token]@.token == token,
        after.connections@[token]@.chan == before.connections@[token]@.chan,
        after.connections@[token].wf(),
    ensures
        after.wf(),
{
    assert(after.connections@.dom() =~= before.connections@.dom());
    assert forall|k: usize| #[trigger] after@.listeners.contains(k) implies k
        < after@.next_token by {
        assert(before@.listeners.contains(k));
    }
    assert forall|k: usize| #[trigger] after.connections@.contains_key(k) implies {
        &&& after.connections@[k]@.token == k
        &&& after.connections@[k].wf()
        &&& after.connections@[k]@.chan == k || after.listeners@.contains(
            after.connections@[k]@.chan,
        )
    } by {
        assert(before.connections@.contains_key(k));
    }
    assert forall|k: usize| #[trigger] after@.connections.contains_key(k) implies k
        < after@.next_token by {
        assert(before.connections@.contains_key(k));
        assert(before@.connections.contains_key(k));
    }
    assert forall|k: usize|
        !(#[trigger] after@.listeners.contains(k) && after@.connections.contains_key(k)) by {
        if after@.listeners.contains(k) && after@.connections.contains_key(k) {
            assert(before@.listeners.contains(k));
            assert(after.connections@.contains_key(k));
            assert(before.connections@.contains_key(k));
            assert(before@.connections.contains_key(k));
        }
    }
}

/// Adding a fresh connection under the next token keeps the invariant.
proof fn lemma_add_keeps_wf(before: &Reactor, after: &Reactor)
    requires
        before.wf(),
        after.listeners@ == before.listeners@,
        after.current_token == before.current_token + 1,
        after.connections@ == before.connections@.insert(
            before.current_token,
            after.connections@[before.current_token],
        ),
        after.connections@[before.current_token]@.token == before.current_token,
        after.connections@[before.current_token]@.chan == before.current_token
            || before.listeners@.contains(after.connections@[before.current_token]@.chan),
        after.connections@[before.current_token].wf(),
    ensures
        after.wf(),
{
    let t = before.current_token;
    assert forall|k: usize| #[trigger] after.connections@.contains_key(k) implies {
        &&& after.connections@[k]@.token == k
        &&& after.connections@[k].wf()
        &&& after.connections@[k]@.chan == k || after.listeners@.contains(
            after.connections@[k]@.chan,
        )
    } by {
        if k != t {
            assert(before.connections@.contains_key(k));
        }
    }
    assert forall|k: usize| #[trigger] after@.connections.contains_key(k) implies k
        < after@.next_token by {
        if k != t {
            assert(before.connections@.contains_key(k));
            assert(before@.connections.contains_key(k));
        }
    }
    assert forall|k: usize|
        !(#[trigger] after@.listeners.contains(k) && after@.connections.contains_key(k)) by {
        if after@.listeners.contains(k) && after@.connections.contains_key(k) {
            assert(before@.listeners.contains(k));
            assert(k < before@.next_token);
            assert(after.connections@.contains_key(k));
            assert(before.connections@.contains_key(k));
            assert(before@.connections.contains_key(k));
        }
    }
    assert forall|k: usize| #[trigger] after@.listeners.contains(k) implies k
        < after@.next_token by {
        assert(before@.listeners.contains(k));
    }
}

/// The reactor: which tokens name listeners and which name connections, the
/// connections themselves, and the token that the next resource gets.
pub struct Reactor {
    listeners: HashSet<usize>,
    connections: HashMap<usize, Connection>,
    current_token: usize,
}

impl View for Reactor {
    type V = ReactorView;

    closed spec fn view(&self) -> ReactorView {
        ReactorView {
            listeners: self.listeners@,
            connections: views_of(self.connections@),
            next_token: self.current_token,
        }
    }
}

impl Reactor {
    /// The reactor's internal invariant: a valid registry of well-formed
    /// connections, each stored under its own token.
    pub closed spec fn wf(&self) -> bool {
        &&& self@.registry_valid()
        &&& forall|t: usize| #[trigger]
            self.connections@.contains_key(t) ==> {
                &&& self.connections@[t]@.token == t
                &&& self.connections@[t].wf()
                &&& self.connections@[t]@.chan == t || self.listeners@.contains(
                    self.connections@[t]@.chan,
                )
            }
    }

    /// A well-formed reactor has a valid view.
    pub proof fn lemma_wf_valid(&self)
        requires
            self.wf(),
        ensures
            self@.valid(),
    {
        assert forall|t: usize| #[trigger] self@.connections.contains_key(t) implies {
            &&& self@.connections[t].token == t
            &&& self@.connections[t].valid()
            &&& self@.connections[t].chan == t || self@.listeners.contains(self@.connections[t].chan)
        } by {
            assert(self.connections@.contains_key(t));
            self.connections@[t].lemma_wf_valid();
        }
    }

    /// An empty reactor; the first resource gets token 0.
    pub fn new() -> (r: Reactor)
        ensures
            r.wf(),
            r@ == (ReactorView {
                listeners: Set::empty(),
                connections: Map::empty(),
                next_token: 0,
            }),
    {
        let r = Reactor { listeners: HashSet::new(), connections: HashMap::new(), current_token: 0 };
        assert(views_of(r.connections@) =~= Map::empty());
        r
    }

    pub fn next_token(&self) -> (t: usize)
        ensures
            t == self@.next_token,
    {
        self.current_token
    }

    pub fn is_listener(&self, token: usize) -> (b: bool)
        ensures
            b == self@.listeners.contains(token),
    {
        self.listeners.contains(&token)
    }

    pub fn is_connection(&self, token: usize) -> (b: bool)
        ensures
            b == self@.connections.contains_key(token),
    {
        self.connections.contains_key(&token)
    }

    /// The state of the connection with this token, if there is one.
    pub fn connection_state(&self, token: usize) -> (s: Option<State>)
        ensures
            match s {
                Some(st) => self@.connections.contains_key(token) && st
                    == self@.connections[token].state,
                None => !self@.connections.contains_key(token),
            },
    {
        match self.connections.get(&token) {
            Some(c) => Some(c.state()),
            None => None,
        }
    }

    /// The token of the resource whose channel receives the messages of the
    /// connection with this token: its own for a connection made by a
    /// connect, its listener's for an accepted one.
    pub fn connection_channel(&self, token: usize) -> (chan: usize)
        requires
            self@.connections.contains_key(token),
        ensures
            chan == self@.connections[token].chan,
    {
        let conn = self.connections.get(&token).unwrap();
        conn.chan()
    }

    /// Creates a connection under the next token, reporting to the channel of
    /// `chan`, and returns the registration of its socket.
    fn add_connection(&mut self, chan: usize) -> (reg: Registration)
        requires
            old(self).wf(),
            old(self)@.next_token < usize::MAX,
            chan == old(self)@.next_token || old(self)@.listeners.contains(chan),
        ensures
            final(self).wf(),
            final(self)@ == old(self)@.with_new_connection(chan),
            reg == connection_registration(old(self)@.next_token),
    {
        let new_token = self.current_token;
        let conn = Connection::new(new_token, chan);
        let reg = conn.register(new_token);
        proof {
            lemma_views_insert(self.connections@, new_token, conn);
        }
        self.connections.insert(new_token, conn);
        self.current_token = self.current_token + 1;
        assert(self@.connections =~= old(self)@.connections.insert(new_token, fresh_connection(new_token, chan)));
        proof {
            lemma_add_keeps_wf(old(self), self);
        }
        reg
    }

    /// A listener accepted a socket: the new connection gets the next token.
    /// Returns the registration of the accepted socket, and the message that
    /// tells the listener's channel the new token.
    pub fn accept_connection(&mut self, listener: usize) -> (accepted: (Registration, Dispatch))
        requires
            old(self).wf(),
            old(self)@.listeners.contains(listener),
            old(self)@.next_token < usize::MAX,
        ensures
            final(self).wf(),
            final(self)@ == old(self)@.with_new_connection(listener),
            accepted.0 == connection_registration(old(self)@.next_token),
            accepted.1 == Dispatch::Id(old(self)@.next_token),
            registry_step(old(self)@, final(self)@),
    {
        let token = self.current_token;
        let reg = self.add_connection(listener);
        assert(self@.connections.dom() =~= old(self)@.connections.dom().insert(old(self)@.next_token));
        (reg, Dispatch::Id(token))
    }

    /// The decision on a readiness notification for `token`. A hang-up drops
    /// the connection; an error changes nothing; a readable listener has a
    /// connection to accept; a connection decides for itself; anything else
    /// is ignored.
    pub fn ready(&mut self, token: usize, events: Events) -> (step: Step)
        requires
            old(self).wf(),
        ensures
            final(self).wf(),
            (final(self)@, step) == old(self)@.ready_step(token, events),
            registry_step(old(self)@, final(self)@),
    {
        if events.hup {
            if self.connections.contains_key(&token) {
                proof {
                    lemma_views_remove(self.connections@, token);
                }
                self.connections.remove(&token);
            } else {
                assert(self.connections@.remove(token) =~= self.connections@);
                assert(old(self)@.connections.remove(token) =~= old(self)@.connections);
            }
            assert(self@.connections.dom().subset_of(old(self)@.connections.dom()));
            return Step::Hangup;
        }
        assert(self@.connections.dom().subset_of(old(self)@.connections.dom()));
        if events.error {
            return Step::Failure;
        }
        if events.readable && self.listeners.contains(&token) {
            return Step::Accept;
        }
        match self.connections.get(&token) {
            Some(conn) => Step::Connection(conn.ready(events)),
            None => Step::Ignored,
        }
    }

    /// Timers carry no decision.
    pub fn timeout<A>(&mut self, timeout: Timeout<A>)
        requires
            old(self).wf(),
        ensures
            final(self).wf(),
            final(self)@ == old(self)@,
    {
    }

    /// The decision on a message sent into the event loop: an RPC queues its
    /// bytes on the connection; a connect or a bind hands the next token to a
    /// new connection or listener; a shutdown stops the loop.
    pub fn notify<A, L, C>(&mut self, msg: Message<A, L, C>) -> (action: Action<A, L, C>)
        requires
            old(self).wf(),
            old(self)@.admits(msg),
        ensures
            final(self).wf(),
            (final(self)@, action) == old(self)@.notify_step(msg),
            registry_step(old(self)@, final(self)@),
    {
        match msg {
            Message::Rpc(id, data) => {
                let conn = self.connections.remove(&id);
                let mut conn = conn.unwrap();
                proof {
                    lemma_views_remove(old(self).connections@, id);
                }
                conn.write(data.as_slice());
                proof {
                    lemma_views_insert(self.connections@, id, conn);
                }
                self.connections.insert(id, conn);
                assert(self.connections@ =~= old(self).connections@.insert(id, conn));
                proof {
                    lemma_replace_keeps_wf(old(self), self, id);
                }
                assert(self@.connections =~= old(self)@.connections.insert(
                    id,
                    old(self)@.connections[id].appended(data@),
                ));
                assert(self@.connections.dom() =~= old(self)@.connections.dom());
                Action::Flush(id)
            },
            Message::Shutdown => {
                self.listeners.clear();
                self.connections.clear();
                assert(views_of(self.connections@) =~= Map::empty());
                Action::Shutdown
            },
            Message::Connect(addr, chan) => {
                let token = self.current_token;
                let registration = self.add_connection(token);
                assert(self@.connections.dom() =~= old(self)@.connections.dom().insert(token));
                Action::Connect { addr, chan, reply: Dispatch::Id(token), registration }
            },
            Message::Bind(listener, addr, chan) => {
                let token = self.current_token;
                self.listeners.insert(token);
                self.current_token = self.current_token + 1;
                proof {
                    assert forall|k: usize| #[trigger] self@.listeners.contains(k) implies k
                        < self@.next_token by {
                        if k != token {
                            assert(old(self)@.listeners.contains(k));
                        }
                    }
                    assert forall|k: usize| #[trigger] self@.connections.contains_key(k) implies k
                        < self@.next_token by {
                        assert(old(self)@.connections.contains_key(k));
                    }
                    assert forall|k: usize|
                        !(#[trigger] self@.listeners.contains(k) && self@.connections.contains_key(
                            k,
                        )) by {
                        if self@.listeners.contains(k) && self@.connections.contains_key(k) {
                            assert(old(self)@.connections.contains_key(k));
                            if k != token {
                                assert(old(self)@.listeners.contains(k));
                            }
                        }
                    }
                    assert forall|k: usize| #[trigger]
                        self.connections@.contains_key(k) implies {
                        &&& self.connections@[k]@.token == k
                        &&& self.connections@[k].wf()
                        &&& self.connections@[k]@.chan == k || self.listeners@.contains(
                            self.connections@[k]@.chan,
                        )
                    } by {
                        assert(old(self).connections@.contains_key(k));
                    }
                }
                let registration = Registration {
                    token,
                    interest: Interest::Readable,
                    edge: true,
                    oneshot: false,
                };
                Action::Bind { listener, addr, chan, reply: Dispatch::Id(token), registration }
            },
        }
    }

    /// One step of the read phase of the connection with this token (see
    /// [`Connection::readable`]).
    pub fn connection_readable(&mut self, token: usize, outcome: ReadOutcome) -> (r: Option<
        Dispatch,
    >)
        requires
            old(self).wf(),
            old(self)@.connections.contains_key(token),
        ensures
            final(self).wf(),
            registry_step(old(self)@, final(self)@),
            match outcome {
                ReadOutcome::Data(bytes) => {
                    &&& r matches Some(Dispatch::Data(v)) && v@ == bytes@
                    &&& final(self)@ == old(self)@
                },
                _ => {
                    &&& r is None
                    &&& final(self)@ == old(self)@.with_connection(
                        token,
                        old(self)@.connections[token].with_state(State::Writing),
                    )
                },
            },
    {
        let conn = self.connections.remove(&token);
        let mut conn = conn.unwrap();
        let r = conn.readable(outcome);
        proof {
            lemma_views_remove(old(self).connections@, token);
            lemma_views_insert(self.connections@, token, conn);
        }
        self.connections.insert(token, conn);
        assert(self.connections@ =~= old(self).connections@.insert(token, conn));
        proof {
            lemma_replace_keeps_wf(old(self), self, token);
        }
        assert(self@.connections.dom() =~= old(self)@.connections.dom());
        proof {
            if !(outcome is Data) {
                assert(self@.connections =~= old(self)@.connections.insert(
                    token,
                    old(self)@.connections[token].with_state(State::Writing),
                ));
            } else {
                assert(self@.connections =~= old(self)@.connections);
            }
        }
        r
    }

    /// One step of the write phase of the connection with this token (see
    /// [`Connection::writable`]).
    pub fn connection_writable(&mut self, token: usize) -> (step: WriteStep)
        requires
            old(self).wf(),
            old(self)@.connections.contains_key(token),
        ensures
            final(self).wf(),
            registry_step(old(self)@, final(self)@),
            old(self)@.connections[token].pending().len() > 0 ==> {
                &&& step == WriteStep::Flush
                &&& final(self)@ == old(self)@
            },
            old(self)@.connections[token].pending().len() == 0 ==> {
                &&& step == WriteStep::Done
                &&& final(self)@ == old(self)@.with_connection(
                    token,
                    old(self)@.connections[token].with_state(State::Reading),
                )
            },
    {
        let conn = self.connections.remove(&token);
        let mut conn = conn.unwrap();
        let step = conn.writable();
        proof {
            lemma_views_remove(old(self).connections@, token);
            lemma_views_insert(self.connections@, token, conn);
        }
        self.connections.insert(token, conn);
        assert(self.connections@ =~= old(self).connections@.insert(token, conn));
        proof {
            lemma_replace_keeps_wf(old(self), self, token);
        }
        assert(self@.connections.dom() =~= old(self)@.connections.dom());
        proof {
            if step == WriteStep::Flush {
                assert(self@.connections =~= old(self)@.connections);
            } else {
                assert(self@.connections =~= old(self)@.connections.insert(
                    token,
                    old(self)@.connections[token].with_state(State::Reading),
                ));
            }
        }
        step
    }

    /// The queued bytes of the connection with this token that its socket has
    /// not taken yet.
    pub fn connection_unwritten(&self, token: usize) -> (s: &[u8])
        requires
            self.wf(),
            self@.connections.contains_key(token),
        ensures
            s@ == self@.connections[token].pending(),
    {
        let conn = self.connections.get(&token).unwrap();
        conn.unwritten()
    }

    /// Takes the outcome of one write on the connection with this token (see
    /// [`Connection::flush`]).
    pub fn connection_flush<E>(&mut self, token: usize, outcome: WriteOutcome<E>) -> (r: Result<
        (),
        E,
    >)
        requires
            old(self).wf(),
            old(self)@.connections.contains_key(token),
        ensures
            final(self).wf(),
            registry_step(old(self)@, final(self)@),
            match outcome {
                WriteOutcome::Written(n) => {
                    &&& r is Ok
                    &&& final(self)@ == old(self)@.with_connection(
                        token,
                        old(self)@.connections[token].advanced(n as nat),
                    )
                },
                WriteOutcome::WouldBlock => r is Ok && final(self)@ == old(self)@,
                WriteOutcome::Failed(e) => {
                    &&& r == Err::<(), E>(e)
                    &&& final(self)@ == old(self)@
                },
            },
    {
        let conn = self.connections.remove(&token);
        let mut conn = conn.unwrap();
        let ghost out = outcome;
        let r = conn.flush(outcome);
        proof {
            lemma_views_remove(old(self).connections@, token);
            lemma_views_insert(self.connections@, token, conn);
        }
        self.connections.insert(token, conn);
        assert(self.connections@ =~= old(self).connections@.insert(token, conn));
        proof {
            lemma_replace_keeps_wf(old(self), self, token);
        }
        assert(self@.connections.dom() =~= old(self)@.connections.dom());
        proof {
            match out {
                WriteOutcome::Written(n) => {
                    assert(self@.connections =~= old(self)@.connections.insert(
                        token,
                        old(self)@.connections[token].advanced(n as nat),
                    ));
                },
                _ => {
                    assert(self@.connections =~= old(self)@.connections);
                },
            }
        }
        r
    }

    /// The re-registration of the connection with this token (see
    /// [`Connection::reregister`]).
    pub fn connection_reregister(&self, token: usize) -> (reg: Registration)
        requires
            self.wf(),
            self@.connections.contains_key(token),
        ensures
            reg == (Registration {
                token,
                interest: crate::connection::interest_for(self@.connections[token].state),
                edge: false,
                oneshot: true,
            }),
    {
        let conn = self.connections.get(&token).unwrap();
        conn.reregister()
    }
}

} // verus!

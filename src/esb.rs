//! The enterprise service bus (ESB): identity-based routing of frames over a
//! set of buses, each backed by one routed socket.
//!
//! The controller is a state machine. Whoever owns the sockets runs the loop:
//! it performs each [`Action`] that the controller asks for (poll the bus
//! sockets, receive and decode a frame, call the handler, send a frame, report
//! an error to the handler) and hands the outcome back as an [`Event`].

use vstd::prelude::*;
use vstd::std_specs::cmp::PartialEqSpec;

verus! {

/// Service bus identifiers: small tags that name the buses of a controller.
pub trait BusId: Copy + Eq + std::hash::Hash + std::fmt::Display {}

impl<T: Copy + Eq + std::hash::Hash + std::fmt::Display> BusId for T {}

/// Service addresses: identities on a bus, convertible to and from their
/// bytes without loss.
pub trait ServiceAddress: Clone + Eq + std::hash::Hash + std::fmt::Debug + Into<Vec<u8>> + From<
    Vec<u8>,
> {}

impl<T: Clone + Eq + std::hash::Hash + std::fmt::Debug + Into<Vec<u8>> + From<
    Vec<u8>,
>> ServiceAddress for T {}

/// Errors of the service bus, over the type `A` of service addresses.
#[derive(Clone, Debug, PartialEq, Eq)]
pub enum Error<A> {
    /// Unexpected server response
    UnexpectedServerResponse,
    /// Message serialization or structure error
    Presentation(String),
    /// Error sending a message from the first address to the second
    Send(A, A, String),
    /// Transport-level protocol error
    Transport(String),
    /// The service bus id is unknown
    UnknownBusId(String),
    /// Error reported by a service
    ServiceError(String),
}

/// A frame on a routed socket: source identity, destination identity, body.
#[derive(Clone, Debug, PartialEq, Eq)]
pub struct RoutedFrame {
    /// Identity of the sender
    pub src: Vec<u8>,
    /// Identity of the receiver
    pub dst: Vec<u8>,
    /// The encoded message
    pub body: Vec<u8>,
}

/// A frame to send on the bus with the given index.
#[derive(Clone, Debug, PartialEq, Eq)]
pub struct Outgoing {
    /// Index of the bus in the controller's bus list
    pub bus: usize,
    /// The frame to send
    pub frame: RoutedFrame,
}

/// The index of the first item equal to `x`, if any.
pub(crate) fn position_of<T: PartialEq>(items: &Vec<T>, x: &T) -> (r: Option<usize>)
    ensures
        match r {
            Some(i) => i < items@.len() && (T::obeys_eq_spec() ==> items@[i as int].eq_spec(x)),
            None => T::obeys_eq_spec() ==> forall|i: int|
                0 <= i < items@.len() ==> !items@[i].eq_spec(x),
        },
{
    let mut i: usize = 0;
    while i < items.len()
        invariant
            i <= items@.len(),
            T::obeys_eq_spec() ==> forall|j: int| 0 <= j < i ==> !items@[j].eq_spec(x),
        decreases items@.len() - i,
    {
        if items[i] == *x {
            return Some(i);
        }
        i = i + 1;
    }
    None
}

/// No item of the sequence occurs twice.
pub open spec fn distinct<T>(s: Seq<T>) -> bool {
    forall|i: int, j: int| 0 <= i < j < s.len() ==> s[i] != s[j]
}

/// The send side of the bus: the controller's identity and its buses. A bus
/// is named by its index in the bus list, which is also the index of its
/// socket.
pub struct Senders<B> {
    identity: Vec<u8>,
    router: Vec<u8>,
    buses: Vec<B>,
}

impl<B: BusId> Senders<B> {
    /// The identity that every sent frame carries as its source.
    pub closed spec fn identity(&self) -> Seq<u8> {
        self.identity@
    }

    /// The default forwarding peer given at construction. The routing rules
    /// here do not read it: a frame goes to its own destination, and one whose
    /// destination the transport does not know fails (mandatory routing).
    /// It is kept for whoever runs the sockets.
    pub closed spec fn router(&self) -> Seq<u8> {
        self.router@
    }

    /// The buses, in the order of their sockets.
    pub closed spec fn buses(&self) -> Seq<B> {
        self.buses@
    }

    /// Each bus is listed once, so that each has one socket.
    pub open spec fn wf(&self) -> bool {
        distinct(self.buses())
    }

    /// Creates the send side for an identity, a default peer and the buses,
    /// each listed once.
    pub fn new(identity: Vec<u8>, router: Vec<u8>, buses: Vec<B>) -> (r: Senders<B>)
        requires
            distinct(buses@),
        ensures
            r.wf(),
            r.identity() == identity@,
            r.router() == router@,
            r.buses() == buses@,
    {
        Senders { identity, router, buses }
    }

    /// Number of buses.
    pub fn bus_count(&self) -> (r: usize)
        ensures
            r == self.buses().len(),
    {
        self.buses.len()
    }

    /// The identity that every sent frame carries as its source.
    pub fn identity_bytes(&self) -> (r: &Vec<u8>)
        ensures
            r@ == self.identity(),
    {
        &self.identity
    }

    /// The default peer towards which frames are forwarded.
    pub fn router_bytes(&self) -> (r: &Vec<u8>)
        ensures
            r@ == self.router(),
    {
        &self.router
    }

    /// The index of a bus in the bus list, if the bus is there.
    pub fn bus_index(&self, bus: &B) -> (r: Option<usize>)
        ensures
            match r {
                Some(i) => i < self.buses().len() && (B::obeys_eq_spec() ==> self.buses()[i as int].eq_spec(bus)),
                None => B::obeys_eq_spec() ==> forall|i: int|
                    0 <= i < self.buses().len() ==> !self.buses()[i].eq_spec(bus),
            },
    {
        position_of(&self.buses, bus)
    }

    /// Prepares sending `body` to `dest` on `bus`: the frame carries the
    /// controller's identity as its source. A bus that is not in the bus list
    /// gives `UnknownBusId`.
    pub fn send_to(&self, bus: &B, dest: Vec<u8>, body: Vec<u8>) -> (r: Result<Outgoing, Error<Vec<u8>>>)
        ensures
            match r {
                Ok(o) => {
                    &&& o.bus < self.buses().len()
                    &&& B::obeys_eq_spec() ==> self.buses()[o.bus as int].eq_spec(bus)
                    &&& o.frame.src@ == self.identity()
                    &&& o.frame.dst@ == dest@
                    &&& o.frame.body@ == body@
                },
                Err(e) => {
                    &&& e matches Error::UnknownBusId(t)
                        && vstd::string::to_string_from_display_ensures::<B>(bus, t)
                    &&& B::obeys_eq_spec() ==> forall|i: int|
                        0 <= i < self.buses().len() ==> !self.buses()[i].eq_spec(bus)
                },
            },
    {
        match self.bus_index(bus) {
            Some(i) => Ok(
                Outgoing {
                    bus: i,
                    frame: RoutedFrame { src: self.identity.clone(), dst: dest, body },
                },
            ),
            None => Err(Error::UnknownBusId(bus.to_string())),
        }
    }

    /// The outcome of handing a prepared frame to the transport: success, or
    /// a send error from the controller's identity to the frame's destination
    /// that carries the transport's error. A failed send is never reported as
    /// a success.
    pub fn finish_send(&self, out: &Outgoing, sent: Result<(), String>) -> (r: Result<(), Error<Vec<u8>>>)
        ensures
            match sent {
                Ok(()) => r is Ok,
                Err(cause) => r matches Err(Error::Send(s, d, c)) && s@ == self.identity() && d@
                    == out.frame.dst@ && c == cause,
            },
    {
        match sent {
            Ok(()) => Ok(()),
            Err(cause) => Err(self.send_failed(out.frame.dst.clone(), cause)),
        }
    }

    /// The error for a frame to `dest` that the transport failed to send.
    pub fn send_failed(&self, dest: Vec<u8>, cause: String) -> (r: Error<Vec<u8>>)
        ensures
            r matches Error::Send(s, d, c) && s@ == self.identity() && d@ == dest@ && c == cause,
    {
        Error::Send(self.identity.clone(), dest, cause)
    }
}

/// Whether two byte strings are equal.
pub(crate) fn same_bytes(a: &Vec<u8>, b: &Vec<u8>) -> (r: bool)
    ensures
        r == (a@ == b@),
{
    if a.len() != b.len() {
        return false;
    }
    let mut i: usize = 0;
    while i < a.len()
        invariant
            a@.len() == b@.len(),
            i <= a@.len(),
            forall|j: int| 0 <= j < i ==> a@[j] == b@[j],
        decreases a@.len() - i,
    {
        if a[i] != b[i] {
            return false;
        }
        i = i + 1;
    }
    assert(a@ =~= b@);
    true
}

/// Where the controller stands in its loop.
///
/// `Constructed` and `Polling` are the states of the same names; the others
/// are the stages of servicing one frame of the ready buses, or of reporting
/// an error to the handler.
#[derive(Clone, Debug, PartialEq, Eq)]
pub enum LoopState {
    /// Sockets exist, the loop has not started
    Constructed,
    /// Waiting for the poll of all bus sockets
    Polling,
    /// Waiting for a frame from the bus `ready[pos]`
    Receiving { ready: Vec<usize>, pos: usize },
    /// Waiting for the handler (`forwarding` false) or for the forwarding
    /// send (`forwarding` true) of a frame to `dest` from the bus `ready[pos]`
    Dispatching { ready: Vec<usize>, pos: usize, dest: Vec<u8>, forwarding: bool },
    /// Waiting for the handler's answer to an error
    Recovering,
    /// The handler escalated an error; the loop is over
    Stopped,
}

/// What the controller asks the loop to do next.
#[derive(Clone, Debug, PartialEq, Eq)]
pub enum Action {
    /// Poll all bus sockets, waiting without a time limit
    Poll,
    /// Receive one routed frame from a bus socket and decode its body
    Receive { bus: usize },
    /// Call the handler with the request just decoded
    Handle { bus: usize, source: Vec<u8> },
    /// Send a routed frame
    Send(Outgoing),
    /// Report an error to the handler's recovery hook
    HandleErr(Error<Vec<u8>>),
    /// End the loop with this error
    Stop(Error<Vec<u8>>),
}

/// The outcome of an [`Action`].
#[derive(Clone, Debug, PartialEq, Eq)]
pub enum Event {
    /// The poll returned; one flag per bus socket: readable or in error
    Polled(Vec<bool>),
    /// The poll failed
    PollFailed(String),
    /// A frame arrived and its body decoded
    Received(RoutedFrame),
    /// The socket yielded no frame
    NothingReceived,
    /// Receiving failed
    ReceiveFailed(String),
    /// The frame arrived but its body did not decode
    DecodeFailed(String),
    /// The handler returned successfully
    Handled,
    /// The handler returned an error
    HandlerFailed(Error<Vec<u8>>),
    /// The frame was sent
    Sent,
    /// The transport could not send the frame
    SendFailed(String),
    /// The recovery hook absorbed the error
    Recovered,
    /// The recovery hook escalated an error
    Escalated(Error<Vec<u8>>),
}

/// The indices of the set flags among the first `n`, in order.
pub open spec fn ready_buses(flags: Seq<bool>, n: nat) -> Seq<usize>
    decreases flags.len(),
{
    if flags.len() == 0 {
        Seq::empty()
    } else {
        let prev = ready_buses(flags.drop_last(), n);
        if flags.last() && flags.len() - 1 < n {
            prev.push((flags.len() - 1) as usize)
        } else {
            prev
        }
    }
}

/// Every ready index is a bus index.
pub proof fn lemma_ready_buses_in_range(flags: Seq<bool>, n: nat)
    requires
        flags.len() <= usize::MAX,
    ensures
        forall|i: int| 0 <= i < ready_buses(flags, n).len() ==> ready_buses(flags, n)[i] < n,
    decreases flags.len(),
{
    if flags.len() > 0 {
        let prev = ready_buses(flags.drop_last(), n);
        lemma_ready_buses_in_range(flags.drop_last(), n);
        if flags.last() && flags.len() - 1 < n {
            assert(((flags.len() - 1) as usize) as int == flags.len() - 1);
            let next = prev.push((flags.len() - 1) as usize);
            assert forall|i: int| 0 <= i < next.len() implies #[trigger] next[i] < n by {
                if i < prev.len() {
                    assert(next[i] == prev[i]);
                }
            }
        }
    }
}

/// Bus `b` is among the ready buses `r`.
pub open spec fn lists_bus(r: Seq<usize>, b: int) -> bool {
    exists|i: int| 0 <= i < r.len() && r[i] == b
}

/// The ready buses of a poll are exactly the buses whose flag is set, each
/// once, in the order of the poll result.
pub proof fn lemma_ready_buses_poll_order(flags: Seq<bool>, n: nat)
    requires
        flags.len() <= usize::MAX,
    ensures
        forall|i: int, j: int|
            0 <= i < j < ready_buses(flags, n).len() ==> ready_buses(flags, n)[i] < ready_buses(
                flags,
                n,
            )[j],
        forall|b: int| #[trigger]
            lists_bus(ready_buses(flags, n), b) <==> (0 <= b < n && b < flags.len() && flags[b]),
    decreases flags.len(),
{
    if flags.len() > 0 {
        let prev = ready_buses(flags.drop_last(), n);
        lemma_ready_buses_poll_order(flags.drop_last(), n);
        let last = flags.len() - 1;
        assert forall|i: int| 0 <= i < prev.len() implies prev[i] < last by {
            assert(lists_bus(prev, prev[i] as int));
        }
        assert forall|b: int| 0 <= b < last implies flags.drop_last()[b] == flags[b] by {}
        if flags.last() && last < n {
            let next = prev.push(last as usize);
            assert(ready_buses(flags, n) == next);
            assert forall|b: int| #[trigger] lists_bus(next, b) implies (0 <= b < n && b
                < flags.len() && flags[b]) by {
                let i = choose|i: int| 0 <= i < next.len() && next[i] == b;
                if i < prev.len() {
                    assert(next[i] == prev[i]);
                    assert(lists_bus(prev, b));
                }
            }
            assert forall|b: int| (0 <= b < n && b < flags.len() && flags[b]) implies #[trigger]
                lists_bus(next, b) by {
                if b < last {
                    assert(lists_bus(prev, b));
                    let i = choose|i: int| 0 <= i < prev.len() && prev[i] == b;
                    assert(next[i] == b);
                } else {
                    assert(next[prev.len() as int] == b);
                }
            }
        } else {
            assert(ready_buses(flags, n) == prev);
            assert forall|b: int| #[trigger] lists_bus(prev, b) implies (0 <= b < n && b
                < flags.len() && flags[b]) by {}
            assert forall|b: int| (0 <= b < n && b < flags.len() && flags[b]) implies #[trigger]
                lists_bus(prev, b) by {
                assert(b < last);
            }
        }
    }
}

/// After a frame of the ready buses is done: the next ready bus, or a new
/// poll.
pub open spec fn advanced(ready: Seq<usize>, pos: int, st: LoopState, a: Action) -> bool {
    if pos + 1 < ready.len() {
        &&& st matches LoopState::Receiving { ready: r, pos: p } && r@ == ready && p == pos + 1
        &&& a == (Action::Receive { bus: ready[pos + 1] })
    } else {
        st is Polling && a is Poll
    }
}

/// The controller of a service bus: its identity, the send side, and where
/// it stands in its loop.
pub struct Controller<B> {
    senders: Senders<B>,
    state: LoopState,
}

impl<B: BusId> Controller<B> {
    /// The send side.
    pub closed spec fn send_side(&self) -> Senders<B> {
        self.senders
    }

    /// Where the controller stands in its loop.
    pub closed spec fn phase(&self) -> LoopState {
        self.state
    }

    /// The controller's identity.
    pub open spec fn identity(&self) -> Seq<u8> {
        self.send_side().identity()
    }

    /// Number of buses.
    pub open spec fn bus_count(&self) -> nat {
        self.send_side().buses().len()
    }

    /// Each bus is listed once, and the bus indices held by the state are bus
    /// indices.
    pub open spec fn wf(&self) -> bool {
        &&& self.send_side().wf()
        &&& match self.phase() {
            LoopState::Receiving { ready, pos } => pos < ready@.len() && forall|i: int|
                0 <= i < ready@.len() ==> ready@[i] < self.bus_count(),
            LoopState::Dispatching { ready, pos, .. } => pos < ready@.len() && forall|i: int|
                0 <= i < ready@.len() ==> ready@[i] < self.bus_count(),
            _ => true,
        }
    }

    /// The events that the controller waits for in its state.
    pub open spec fn expects(&self, e: Event) -> bool {
        match self.phase() {
            LoopState::Polling => e is Polled || e is PollFailed,
            LoopState::Receiving { .. } => e is Received || e is NothingReceived || e is ReceiveFailed
                || e is DecodeFailed,
            LoopState::Dispatching { forwarding, .. } => if forwarding {
                e is Sent || e is SendFailed
            } else {
                e is Handled || e is HandlerFailed
            },
            LoopState::Recovering => e is Recovered || e is Escalated,
            _ => false,
        }
    }

    /// The step from `self` on event `e` to the controller `next` with the
    /// action `a`.
    pub open spec fn steps_to(&self, e: Event, next: Self, a: Action) -> bool {
        &&& next.send_side() == self.send_side()
        &&& match (self.phase(), e) {
            (LoopState::Polling, Event::Polled(flags)) => {
                let ready = ready_buses(flags@, self.bus_count());
                if ready.len() == 0 {
                    next.phase() is Polling && a is Poll
                } else {
                    &&& next.phase() matches LoopState::Receiving { ready: r, pos: p } && r@ == ready
                        && p == 0
                    &&& a == (Action::Receive { bus: ready[0] })
                }
            },
            (LoopState::Polling, Event::PollFailed(m)) => next.phase() is Recovering && a
                == Action::HandleErr(Error::Transport(m)),
            (LoopState::Receiving { ready, pos }, Event::Received(f)) => {
                let bus = ready@[pos as int];
                if f.dst@ == self.identity() {
                    &&& next.phase() matches LoopState::Dispatching { ready: r, pos: p, dest, forwarding }
                        && r@ == ready@ && p == pos && dest@ == f.dst@ && !forwarding
                    &&& a matches Action::Handle { bus: b, source } && b == bus && source@ == f.src@
                } else {
                    &&& next.phase() matches LoopState::Dispatching { ready: r, pos: p, dest, forwarding }
                        && r@ == ready@ && p == pos && dest@ == f.dst@ && forwarding
                    &&& a matches Action::Send(o) && o.bus == bus && o.frame.src@ == self.identity()
                        && o.frame.dst@ == f.dst@ && o.frame.body@ == f.body@
                }
            },
            (LoopState::Receiving { ready, pos }, Event::NothingReceived) => advanced(
                ready@,
                pos as int,
                next.phase(),
                a,
            ),
            (LoopState::Receiving { .. }, Event::ReceiveFailed(m)) => next.phase() is Recovering && a
                == Action::HandleErr(Error::Transport(m)),
            (LoopState::Receiving { .. }, Event::DecodeFailed(m)) => next.phase() is Recovering && a
                == Action::HandleErr(Error::Presentation(m)),
            (LoopState::Dispatching { ready, pos, .. }, Event::Handled) => advanced(
                ready@,
                pos as int,
                next.phase(),
                a,
            ),
            (LoopState::Dispatching { ready, pos, .. }, Event::Sent) => advanced(
                ready@,
                pos as int,
                next.phase(),
                a,
            ),
            (LoopState::Dispatching { .. }, Event::HandlerFailed(err)) => next.phase() is Recovering
                && a == Action::HandleErr(err),
            (LoopState::Dispatching { dest, .. }, Event::SendFailed(m)) => {
                &&& next.phase() is Recovering
                &&& a matches Action::HandleErr(Error::Send(s, d, c)) && s@ == self.identity() && d@
                    == dest@ && c == m
            },
            (LoopState::Recovering, Event::Recovered) => next.phase() is Polling && a is Poll,
            (LoopState::Recovering, Event::Escalated(err)) => next.phase() is Stopped && a
                == Action::Stop(err),
            _ => false,
        }
    }

    /// Creates the controller for an identity, a default forwarding peer and
    /// its buses (in the order of their sockets, each listed once).
    pub fn init(identity: Vec<u8>, router: Vec<u8>, buses: Vec<B>) -> (r: Controller<B>)
        requires
            distinct(buses@),
        ensures
            r.identity() == identity@,
            r.send_side().router() == router@,
            r.send_side().buses() == buses@,
            r.phase() is Constructed,
            r.wf(),
    {
        Controller { senders: Senders::new(identity, router, buses), state: LoopState::Constructed }
    }

    /// The send side, to lend to the handler.
    pub fn senders(&self) -> (r: &Senders<B>)
        ensures
            *r == self.send_side(),
    {
        &self.senders
    }

    /// Where the controller stands in its loop.
    pub fn state(&self) -> (r: &LoopState)
        ensures
            *r == self.phase(),
    {
        &self.state
    }

    /// Prepares sending `body` to `dest` on `bus` from the controller.
    pub fn send_to(&self, bus: &B, dest: Vec<u8>, body: Vec<u8>) -> (r: Result<Outgoing, Error<Vec<u8>>>)
        ensures
            match r {
                Ok(o) => {
                    &&& o.bus < self.bus_count()
                    &&& B::obeys_eq_spec() ==> self.send_side().buses()[o.bus as int].eq_spec(bus)
                    &&& o.frame.src@ == self.identity()
                    &&& o.frame.dst@ == dest@
                    &&& o.frame.body@ == body@
                },
                Err(e) => {
                    &&& e matches Error::UnknownBusId(t)
                        && vstd::string::to_string_from_display_ensures::<B>(bus, t)
                    &&& B::obeys_eq_spec() ==> forall|i: int|
                        0 <= i < self.bus_count() ==> !self.send_side().buses()[i].eq_spec(bus)
                },
            },
    {
        self.senders.send_to(bus, dest, body)
    }

    /// Starts the loop: the first action is a poll.
    pub fn start(&mut self) -> (a: Action)
        requires
            old(self).wf(),
            old(self).phase() is Constructed,
        ensures
            final(self).send_side() == old(self).send_side(),
            final(self).phase() is Polling,
            a is Poll,
            final(self).wf(),
    {
        self.state = LoopState::Polling;
        Action::Poll
    }

    /// Whether the controller waits for the event `e`.
    pub fn accepts(&self, e: &Event) -> (r: bool)
        ensures
            r == self.expects(*e),
    {
        match (&self.state, e) {
            (LoopState::Polling, Event::Polled(_)) => true,
            (LoopState::Polling, Event::PollFailed(_)) => true,
            (LoopState::Receiving { .. }, Event::Received(_)) => true,
            (LoopState::Receiving { .. }, Event::NothingReceived) => true,
            (LoopState::Receiving { .. }, Event::ReceiveFailed(_)) => true,
            (LoopState::Receiving { .. }, Event::DecodeFailed(_)) => true,
            (LoopState::Dispatching { forwarding, .. }, Event::Sent) => *forwarding,
            (LoopState::Dispatching { forwarding, .. }, Event::SendFailed(_)) => *forwarding,
            (LoopState::Dispatching { forwarding, .. }, Event::Handled) => !*forwarding,
            (LoopState::Dispatching { forwarding, .. }, Event::HandlerFailed(_)) => !*forwarding,
            (LoopState::Recovering, Event::Recovered) => true,
            (LoopState::Recovering, Event::Escalated(_)) => true,
            _ => false,
        }
    }

    /// The ready buses of a poll result: the indices of the set flags, in
    /// poll order.
    fn collect_ready(&self, flags: &Vec<bool>) -> (r: Vec<usize>)
        ensures
            r@ == ready_buses(flags@, self.bus_count()),
            forall|i: int| 0 <= i < r@.len() ==> r@[i] < self.bus_count(),
    {
        let n = self.senders.bus_count();
        let mut r: Vec<usize> = Vec::new();
        let mut i: usize = 0;
        while i < flags.len()
            invariant
                n == self.bus_count(),
                i <= flags@.len(),
                r@ == ready_buses(flags@.subrange(0, i as int), n as nat),
            decreases flags@.len() - i,
        {
            assert(flags@.subrange(0, i + 1).drop_last() =~= flags@.subrange(0, i as int));
            if flags[i] && i < n {
                r.push(i);
            }
            i = i + 1;
        }
        assert(flags@.subrange(0, flags@.len() as int) =~= flags@);
        proof {
            lemma_ready_buses_in_range(flags@, n as nat);
        }
        r
    }

    /// After a frame of the ready buses is done: the next ready bus, or a new
    /// poll.
    fn advance(&mut self, ready: Vec<usize>, pos: usize) -> (a: Action)
        requires
            old(self).send_side().wf(),
            pos < ready@.len(),
            forall|i: int| 0 <= i < ready@.len() ==> ready@[i] < old(self).bus_count(),
        ensures
            final(self).send_side() == old(self).send_side(),
            advanced(ready@, pos as int, final(self).phase(), a),
            final(self).wf(),
    {
        if pos < ready.len() - 1 {
            let bus = ready[pos + 1];
            self.state = LoopState::Receiving { ready, pos: pos + 1 };
            Action::Receive { bus }
        } else {
            self.state = LoopState::Polling;
            Action::Poll
        }
    }

    /// Takes one step of the loop on the outcome of the last action.
    pub fn step(&mut self, e: Event) -> (a: Action)
        requires
            old(self).wf(),
            old(self).expects(e),
        ensures
            old(self).steps_to(e, *final(self), a),
            final(self).wf(),
    {
        let mut state = LoopState::Stopped;
        std::mem::swap(&mut state, &mut self.state);
        match (state, e) {
            (LoopState::Polling, Event::Polled(flags)) => {
                let ready = self.collect_ready(&flags);
                if ready.len() == 0 {
                    self.state = LoopState::Polling;
                    Action::Poll
                } else {
                    let bus = ready[0];
                    self.state = LoopState::Receiving { ready, pos: 0 };
                    Action::Receive { bus }
                }
            },
            (LoopState::Polling, Event::PollFailed(m)) => {
                self.state = LoopState::Recovering;
                Action::HandleErr(Error::Transport(m))
            },
            (LoopState::Receiving { ready, pos }, Event::Received(f)) => {
                let bus = ready[pos];
                if same_bytes(&f.dst, &self.senders.identity) {
                    self.state = LoopState::Dispatching { ready, pos, dest: f.dst, forwarding: false };
                    Action::Handle { bus, source: f.src }
                } else {
                    let dest = f.dst.clone();
                    self.state = LoopState::Dispatching { ready, pos, dest, forwarding: true };
                    let frame = RoutedFrame {
                        src: self.senders.identity.clone(),
                        dst: f.dst,
                        body: f.body,
                    };
                    Action::Send(Outgoing { bus, frame })
                }
            },
            (LoopState::Receiving { ready, pos }, Event::NothingReceived) => self.advance(ready, pos),
            (LoopState::Receiving { .. }, Event::ReceiveFailed(m)) => {
                self.state = LoopState::Recovering;
                Action::HandleErr(Error::Transport(m))
            },
            (LoopState::Receiving { .. }, Event::DecodeFailed(m)) => {
                self.state = LoopState::Recovering;
                Action::HandleErr(Error::Presentation(m))
            },
            (LoopState::Dispatching { ready, pos, .. }, Event::Handled) => self.advance(ready, pos),
            (LoopState::Dispatching { ready, pos, .. }, Event::Sent) => self.advance(ready, pos),
            (LoopState::Dispatching { .. }, Event::HandlerFailed(err)) => {
                self.state = LoopState::Recovering;
                Action::HandleErr(err)
            },
            (LoopState::Dispatching { dest, .. }, Event::SendFailed(m)) => {
                self.state = LoopState::Recovering;
                Action::HandleErr(self.senders.send_failed(dest, m))
            },
            (LoopState::Recovering, Event::Recovered) => {
                self.state = LoopState::Polling;
                Action::Poll
            },
            (LoopState::Recovering, Event::Escalated(err)) => {
                self.state = LoopState::Stopped;
                Action::Stop(err)
            },
            (_, _) => {
                proof {
                    assert(false);
                }
                Action::Poll
            },
        }
    }
}

/// The bus whose frame the controller is servicing, in a servicing state.
pub open spec fn current_bus(st: LoopState) -> usize {
    match st {
        LoopState::Receiving { ready, pos } => ready@[pos as int],
        LoopState::Dispatching { ready, pos, .. } => ready@[pos as int],
        _ => 0,
    }
}

/// A frame addressed to the controller's identity goes to the handler, with
/// its source and the bus it came on; a frame addressed to any other identity
/// is forwarded on the same bus to that identity, its body unchanged, and the
/// handler is not called.
pub proof fn lemma_local_or_forward<B: BusId>(
    c: Controller<B>,
    f: RoutedFrame,
    next: Controller<B>,
    a: Action,
)
    requires
        c.phase() is Receiving,
        c.steps_to(Event::Received(f), next, a),
    ensures
        f.dst@ == c.identity() ==> (a matches Action::Handle { bus, source } && bus == current_bus(
            c.phase(),
        ) && source@ == f.src@),
        f.dst@ != c.identity() ==> (a matches Action::Send(o) && o.bus == current_bus(c.phase())
            && o.frame.dst@ == f.dst@ && o.frame.body@ == f.body@),
{
}

/// No cross-bus leakage: the only frames that the loop itself sends are
/// forwards, and each goes out on the bus that its frame came in on.
pub proof fn lemma_no_cross_bus<B: BusId>(
    c: Controller<B>,
    e: Event,
    next: Controller<B>,
    a: Action,
)
    requires
        c.steps_to(e, next, a),
        a is Send,
    ensures
        c.phase() is Receiving,
        e is Received,
        a->Send_0.bus == current_bus(c.phase()),
{
}

/// Every frame that the loop sends on its own (a forward) carries the
/// controller's identity as its source. Frames that the handler sends get
/// the same source from [`Senders::send_to`].
pub proof fn lemma_send_identity<B: BusId>(
    c: Controller<B>,
    e: Event,
    next: Controller<B>,
    a: Action,
)
    requires
        c.steps_to(e, next, a),
    ensures
        a matches Action::Send(o) ==> o.frame.src@ == c.identity(),
{
}

/// Frames are serviced one at a time, in the order the transport delivers
/// them: a frame is dispatched (to the handler or forwarded) at once, and the
/// controller takes no other frame until that dispatch has finished.
pub proof fn lemma_one_frame_at_a_time<B: BusId>(
    c: Controller<B>,
    e: Event,
    next: Controller<B>,
    a: Action,
    g: RoutedFrame,
)
    requires
        c.steps_to(e, next, a),
    ensures
        e is Received ==> (a is Handle || a is Send) && next.phase() is Dispatching && !next.expects(
            Event::Received(g),
        ),
        (a is Handle || a is Send) ==> e is Received,
        a is Receive ==> next.phase() is Receiving && a->Receive_bus == current_bus(next.phase()),
{
}

/// A run of the loop: controllers `cs` with `cs[i]` stepping on
/// `events[i]` to `cs[i + 1]` with `actions[i]`.
pub open spec fn is_run<B: BusId>(cs: Seq<Controller<B>>, events: Seq<Event>, actions: Seq<Action>) -> bool {
    &&& cs.len() == events.len() + 1
    &&& actions.len() == events.len()
    &&& forall|i: int| 0 <= i < events.len() ==> #[trigger] cs[i].steps_to(events[i], cs[i + 1], actions[i])
}

/// The action dispatches frame `f`, received by `c` on its current bus: to
/// the handler when `f` is addressed to `c`, else as a forward on that bus.
pub open spec fn dispatches<B: BusId>(c: Controller<B>, f: RoutedFrame, a: Action) -> bool {
    if f.dst@ == c.identity() {
        a matches Action::Handle { bus, source } && bus == current_bus(c.phase()) && source@ == f.src@
    } else {
        a matches Action::Send(o) && o.bus == current_bus(c.phase()) && o.frame.dst@ == f.dst@
            && o.frame.body@ == f.body@
    }
}

/// First in, first out over a whole run: the dispatches (handler calls and
/// forwards) are exactly the steps that receive a frame, each dispatching the
/// frame received at that step. So frames are handled or forwarded in the
/// order the transport delivered them, and after frame `i` is dispatched no
/// frame is received until that dispatch has finished.
pub proof fn lemma_run_first_in_first_out<B: BusId>(
    cs: Seq<Controller<B>>,
    events: Seq<Event>,
    actions: Seq<Action>,
)
    requires
        is_run(cs, events, actions),
    ensures
        forall|i: int|
            0 <= i < events.len() ==> ((#[trigger] actions[i] is Handle || actions[i] is Send)
                <==> events[i] is Received),
        forall|i: int|
            0 <= i < events.len() && #[trigger] events[i] is Received ==> dispatches(
                cs[i],
                events[i]->Received_0,
                actions[i],
            ),
        forall|i: int|
            0 <= i < events.len() && #[trigger] events[i] is Received && i + 1 < events.len()
                ==> !(events[i + 1] is Received),
{
    assert forall|i: int| 0 <= i < events.len() implies ((#[trigger] actions[i] is Handle
        || actions[i] is Send) <==> events[i] is Received) by {
        assert(cs[i].steps_to(events[i], cs[i + 1], actions[i]));
    }
    assert forall|i: int| 0 <= i < events.len() && #[trigger] events[i] is Received implies dispatches(
        cs[i],
        events[i]->Received_0,
        actions[i],
    ) by {
        assert(cs[i].steps_to(events[i], cs[i + 1], actions[i]));
    }
    assert forall|i: int|
        0 <= i < events.len() && #[trigger] events[i] is Received && i + 1 < events.len()
            implies !(events[i + 1] is Received) by {
        let j = i + 1;
        assert(cs[i].steps_to(events[i], cs[j], actions[i]));
        assert(cs[j].phase() is Dispatching);
        assert(cs[j].steps_to(events[j], cs[j + 1], actions[j]));
    }
}

/// Error recovery: every error from the poll, a receive, a decode, the
/// handler or a send goes to the handler's recovery hook, and the loop ends
/// only when that hook escalates; once the hook absorbs an error, the loop
/// polls again.
pub proof fn lemma_error_recovery<B: BusId>(
    c: Controller<B>,
    e: Event,
    next: Controller<B>,
    a: Action,
)
    requires
        c.steps_to(e, next, a),
    ensures
        (e is PollFailed || e is ReceiveFailed || e is DecodeFailed || e is HandlerFailed
            || e is SendFailed) ==> a is HandleErr && next.phase() is Recovering,
        e is Recovered ==> a is Poll && next.phase() is Polling,
        a is Stop <==> e is Escalated,
        a is Stop ==> next.phase() is Stopped,
{
}

/// Mandatory routing: a forward that the transport cannot deliver fails
/// there and then, and the failure reaches the recovery hook as a send error
/// from the controller's identity to the destination.
pub proof fn lemma_send_failure_reported<B: BusId>(
    c: Controller<B>,
    m: String,
    next: Controller<B>,
    a: Action,
)
    requires
        c.phase() is Dispatching,
        c.steps_to(Event::SendFailed(m), next, a),
    ensures
        a matches Action::HandleErr(Error::Send(s, d, cause)) && s@ == c.identity() && d@
            == c.phase()->Dispatching_dest@ && cause == m,
{
}

} // verus!

//! The decisions of the proxy-chain connector, for one intercepted
//! connection.
//!
//! The caller owns the sockets. It tells the connector how each step went
//! and is told what to do next. Taking up a connection resolves its
//! destination at once: the placeholder address is looked up in the mapping
//! cache, and a connection to an address that was never issued is given up
//! before any hop is tried. The chain is then built hop by hop: the first
//! hop that is reached is dialled directly, every further hop is reached by
//! asking the hop before it, in its own protocol, to connect on, and the
//! last hop that was reached is asked for the destination.
//!
//! Under the strict policy the first hop that fails ends the connection.
//! Under the dynamic policy a hop that fails is left out of the chain and
//! the next configured hop is tried from where the chain stands; the
//! connection ends only if no hop at all could be reached. Either way each
//! hop is tried at most once, in the configured order.

use vstd::prelude::*;
use crate::config::{Config, ProxyMethod};
use crate::mapping::{backward, Ipv4Mapping};

verus! {

/// Why an intercepted connection was given up.
#[derive(Clone, Copy, Debug, PartialEq, Eq, Structural)]
pub enum AbortKind {
    /// The destination address was never issued by the resolver.
    DestinationNotFound,
    /// A hop could not be connected to.
    HopUnreachable,
    /// A hop turned the handshake down.
    HandshakeRejected,
    /// No configured hop could be reached.
    ChainExhausted,
}

/// How a step went wrong.
#[derive(Clone, Copy, Debug, PartialEq, Eq, Structural)]
pub enum HopFailure {
    /// The connection could not be made.
    Unreachable,
    /// The hop that was asked refused.
    Rejected,
}

/// How the step that the connector asked for went.
#[derive(Clone, Copy, Debug, PartialEq, Eq, Structural)]
pub enum Event {
    /// It was done. For a relay: it has ended.
    Succeeded,
    /// It failed. For a relay: it has ended.
    Failed(HopFailure),
}

/// Where a connection stands.
#[derive(Clone, Copy, Debug, PartialEq, Eq, Structural)]
pub enum State {
    /// Hop `hop` is being tried; `tunnel` is the last hop reached so far.
    Connecting { hop: usize, tunnel: Option<usize> },
    /// Hop `via`, the end of the chain, is being asked for the destination.
    Reaching { via: usize },
    /// Bytes are being copied between the intercepted connection and hop
    /// `via`.
    Relaying { via: usize },
    /// The relay has ended.
    Closed,
    /// The connection was given up.
    Aborted { kind: AbortKind },
}

/// What the caller does next with the hops, numbered as configured.
#[derive(Clone, Copy, Debug, PartialEq, Eq, Structural)]
pub enum Action {
    /// Connect to hop `hop` directly.
    Dial { hop: usize },
    /// Ask hop `via`, at the end of the chain, to connect to hop `hop`.
    Extend { via: usize, hop: usize },
    /// Ask hop `via`, at the end of the chain, to connect to the
    /// destination.
    Reach { via: usize },
    /// Copy bytes both ways until either side ends.
    Relay { via: usize },
    /// Close both ends; the connection is over.
    Close,
    /// Close the intercepted connection and record why.
    Abort { kind: AbortKind },
}

/// The kind of abort that a failed step leads to.
pub open spec fn abort_kind(failure: HopFailure) -> AbortKind {
    match failure {
        HopFailure::Unreachable => AbortKind::HopUnreachable,
        HopFailure::Rejected => AbortKind::HandshakeRejected,
    }
}

/// The step that tries hop `hop` when the chain ends at `tunnel`.
pub open spec fn attempt(hop: usize, tunnel: Option<usize>) -> Action {
    match tunnel {
        None => Action::Dial { hop },
        Some(via) => Action::Extend { via, hop },
    }
}

/// Going on with hop `hop` of `hops`, the chain ending at `tunnel`: the hop
/// is tried if there is one; after the last one the end of the chain is
/// asked for the destination, and without a chain the connection is given
/// up.
pub open spec fn proceed(hops: usize, hop: usize, tunnel: Option<usize>) -> (State, Action) {
    if hop < hops {
        (State::Connecting { hop, tunnel }, attempt(hop, tunnel))
    } else {
        match tunnel {
            Some(via) => (State::Reaching { via }, Action::Reach { via }),
            None => (
                State::Aborted { kind: AbortKind::ChainExhausted },
                Action::Abort { kind: AbortKind::ChainExhausted },
            ),
        }
    }
}

/// The state that follows `state` on `event`, and the step to take.
pub open spec fn next(method: ProxyMethod, hops: usize, state: State, event: Event) -> (
    State,
    Action,
) {
    match state {
        State::Connecting { hop, tunnel } => match event {
            Event::Succeeded => proceed(hops, (hop + 1) as usize, Some(hop)),
            Event::Failed(failure) => match method {
                ProxyMethod::StrictChain => (
                    State::Aborted { kind: abort_kind(failure) },
                    Action::Abort { kind: abort_kind(failure) },
                ),
                ProxyMethod::DynamicChain => proceed(hops, (hop + 1) as usize, tunnel),
            },
        },
        State::Reaching { via } => match event {
            Event::Succeeded => (State::Relaying { via }, Action::Relay { via }),
            Event::Failed(failure) => (
                State::Aborted { kind: abort_kind(failure) },
                Action::Abort { kind: abort_kind(failure) },
            ),
        },
        State::Relaying { via } => (State::Closed, Action::Close),
        State::Closed => (State::Closed, Action::Close),
        State::Aborted { kind } => (State::Aborted { kind }, Action::Abort { kind }),
    }
}

/// The hops that `state` names exist, and the chain ends before the hop
/// that is being tried.
pub open spec fn state_in_range(hops: usize, state: State) -> bool {
    match state {
        State::Connecting { hop, tunnel } => hop < hops && (tunnel matches Some(via) ==> via < hop),
        State::Reaching { via } => via < hops,
        State::Relaying { via } => via < hops,
        State::Closed => true,
        State::Aborted { kind } => true,
    }
}

/// The hops that `action` names exist.
pub open spec fn action_in_range(hops: usize, action: Action) -> bool {
    match action {
        Action::Dial { hop } => hop < hops,
        Action::Extend { via, hop } => via < hop < hops,
        Action::Reach { via } => via < hops,
        Action::Relay { via } => via < hops,
        Action::Close => true,
        Action::Abort { kind } => true,
    }
}

/// One intercepted connection on its way through the chain.
#[derive(Debug)]
pub struct Connection {
    method: ProxyMethod,
    hops: usize,
    state: State,
    domain: String,
    port: u16,
}

impl Connection {
    /// The traversal policy.
    pub closed spec fn method(&self) -> ProxyMethod {
        self.method
    }

    /// The number of configured hops.
    pub closed spec fn hops(&self) -> usize {
        self.hops
    }

    /// Where the connection stands.
    pub closed spec fn state(&self) -> State {
        self.state
    }

    /// The domain that the connection is meant for; empty if its address
    /// was never issued.
    pub closed spec fn domain(&self) -> Seq<char> {
        self.domain@
    }

    /// The port that the connection is meant for.
    pub closed spec fn port(&self) -> u16 {
        self.port
    }

    /// The state names only hops that exist.
    pub open spec fn wf(&self) -> bool {
        state_in_range(self.hops(), self.state())
    }

    /// Takes up a connection that was intercepted on its way to the
    /// placeholder address `addr` and the port `port`. If the address was
    /// never issued, the connection is given up before any hop is tried.
    /// Otherwise the destination is the domain that the address stands for,
    /// and the first hop is dialled.
    pub fn accept(config: &Config, mapping: &Ipv4Mapping, addr: u32, port: u16) -> (accepted: (
        Connection,
        Action,
    ))
        requires
            mapping.wf(),
        ensures
            accepted.0.wf(),
            action_in_range(accepted.0.hops(), accepted.1),
            accepted.0.method() == config.method,
            accepted.0.hops() == config.proxies@.len(),
            accepted.0.port() == port,
            match backward(mapping@, addr) {
                Some(name) => accepted.0.domain() == name && (accepted.0.state(), accepted.1)
                    == proceed(accepted.0.hops(), 0, None),
                None => accepted.0.state() == (State::Aborted {
                    kind: AbortKind::DestinationNotFound,
                }) && accepted.1 == (Action::Abort { kind: AbortKind::DestinationNotFound }),
            },
    {
        let hops = config.proxies.len();
        match mapping.get_name(addr) {
            Some(name) => {
                let (state, action) = Self::go_on(hops, 0, None);
                (Connection { method: config.method, hops, state, domain: name.clone(), port }, action)
            },
            None => (
                Connection {
                    method: config.method,
                    hops,
                    state: State::Aborted { kind: AbortKind::DestinationNotFound },
                    domain: String::new(),
                    port,
                },
                Action::Abort { kind: AbortKind::DestinationNotFound },
            ),
        }
    }

    fn go_on(hops: usize, hop: usize, tunnel: Option<usize>) -> (r: (State, Action))
        requires
            hop <= hops,
            tunnel matches Some(via) ==> via < hop,
        ensures
            r == proceed(hops, hop, tunnel),
            state_in_range(hops, r.0),
            action_in_range(hops, r.1),
    {
        if hop < hops {
            let action = match tunnel {
                None => Action::Dial { hop },
                Some(via) => Action::Extend { via, hop },
            };
            (State::Connecting { hop, tunnel }, action)
        } else {
            match tunnel {
                Some(via) => (State::Reaching { via }, Action::Reach { via }),
                None => (
                    State::Aborted { kind: AbortKind::ChainExhausted },
                    Action::Abort { kind: AbortKind::ChainExhausted },
                ),
            }
        }
    }

    /// Takes note of how the last step went and says what to do next.
    pub fn step(&mut self, event: Event) -> (action: Action)
        requires
            old(self).wf(),
        ensures
            final(self).wf(),
            action_in_range(final(self).hops(), action),
            (final(self).state(), action) == next(
                old(self).method(),
                old(self).hops(),
                old(self).state(),
                event,
            ),
            final(self).method() == old(self).method(),
            final(self).hops() == old(self).hops(),
            final(self).domain() == old(self).domain(),
            final(self).port() == old(self).port(),
    {
        let (state, action) = match self.state {
            State::Connecting { hop, tunnel } => match event {
                Event::Succeeded => Self::go_on(self.hops, hop + 1, Some(hop)),
                Event::Failed(failure) => match self.method {
                    ProxyMethod::StrictChain => {
                        let kind = Self::kind_of(failure);
                        (State::Aborted { kind }, Action::Abort { kind })
                    },
                    ProxyMethod::DynamicChain => Self::go_on(self.hops, hop + 1, tunnel),
                },
            },
            State::Reaching { via } => match event {
                Event::Succeeded => (State::Relaying { via }, Action::Relay { via }),
                Event::Failed(failure) => {
                    let kind = Self::kind_of(failure);
                    (State::Aborted { kind }, Action::Abort { kind })
                },
            },
            State::Relaying { via } => (State::Closed, Action::Close),
            State::Closed => (State::Closed, Action::Close),
            State::Aborted { kind } => (State::Aborted { kind }, Action::Abort { kind }),
        };
        self.state = state;
        action
    }

    fn kind_of(failure: HopFailure) -> (kind: AbortKind)
        ensures
            kind == abort_kind(failure),
    {
        match failure {
            HopFailure::Unreachable => AbortKind::HopUnreachable,
            HopFailure::Rejected => AbortKind::HandshakeRejected,
        }
    }

    /// Whom `action` asks, and for which host and port: to extend the
    /// chain, the hop at its end is asked for the address and port of the
    /// hop to add; to reach the destination, it is asked for the domain and
    /// port that the connection is meant for. `None` where the action asks
    /// nobody, or names a hop that `config` does not have.
    pub fn handshake_target<'a>(&'a self, config: &'a Config, action: Action) -> (target: Option<
        (usize, &'a str, u16),
    >)
        ensures
            match action {
                Action::Extend { via, hop } => if via < config.proxies@.len() && hop
                    < config.proxies@.len() {
                    target matches Some((asked, host, port)) && asked == via && host@
                        == config.proxies@[hop as int].address@ && port
                        == config.proxies@[hop as int].port
                } else {
                    target is None
                },
                Action::Reach { via } => if via < config.proxies@.len() {
                    target matches Some((asked, host, port)) && asked == via && host@
                        == self.domain() && port == self.port()
                } else {
                    target is None
                },
                _ => target is None,
            },
    {
        match action {
            Action::Extend { via, hop } => {
                if via < config.proxies.len() && hop < config.proxies.len() {
                    Some((via, config.proxies[hop].address.as_str(), config.proxies[hop].port))
                } else {
                    None
                }
            },
            Action::Reach { via } => {
                if via < config.proxies.len() {
                    Some((via, self.domain.as_str(), self.port))
                } else {
                    None
                }
            },
            _ => None,
        }
    }

    /// Where the connection stands.
    pub fn current_state(&self) -> (state: State)
        ensures
            state == self.state(),
    {
        self.state
    }

    /// The domain and the port that the end of the chain is asked for.
    pub fn destination(&self) -> (destination: (&str, u16))
        ensures
            destination.0@ == self.domain(),
            destination.1 == self.port(),
    {
        (self.domain.as_str(), self.port)
    }
}

/// The event that reports `outcome`: `None` is success.
pub open spec fn event_of(outcome: Option<HopFailure>) -> Event {
    match outcome {
        None => Event::Succeeded,
        Some(failure) => Event::Failed(failure),
    }
}

/// An upper bound on the steps still to come before the relay starts or
/// the connection is given up.
pub open spec fn steps_left(hops: usize, state: State) -> nat {
    match state {
        State::Connecting { hop, tunnel } => if hop < hops {
            (hops - hop + 1) as nat
        } else {
            0
        },
        State::Reaching { via } => 1,
        _ => 0,
    }
}

/// The steps that follow `state` until the relay starts or the connection
/// is given up, when trying hop `i` goes as `outcomes[i]` says and asking
/// for the destination goes as `destination` says.
pub open spec fn steps_from(
    method: ProxyMethod,
    hops: usize,
    state: State,
    outcomes: Seq<Option<HopFailure>>,
    destination: Option<HopFailure>,
) -> Seq<Action>
    decreases steps_left(hops, state),
{
    match state {
        State::Connecting { hop, tunnel } => if hop < hops {
            let (after, action) = next(method, hops, state, event_of(outcomes[hop as int]));
            seq![action] + steps_from(method, hops, after, outcomes, destination)
        } else {
            Seq::empty()
        },
        State::Reaching { via } => seq![next(method, hops, state, event_of(destination)).1],
        _ => Seq::empty(),
    }
}

/// All the steps of a connection whose destination is known, from the
/// first one to the one that starts the relay or gives the connection up.
pub open spec fn traversal(
    method: ProxyMethod,
    hops: usize,
    outcomes: Seq<Option<HopFailure>>,
    destination: Option<HopFailure>,
) -> Seq<Action> {
    let (state, action) = proceed(hops, 0, None);
    seq![action] + steps_from(method, hops, state, outcomes, destination)
}

/// The hop before `hop` in a chain that leaves no hop out.
pub open spec fn hop_before(hop: int) -> Option<usize> {
    if hop <= 0 {
        None
    } else {
        Some((hop - 1) as usize)
    }
}

/// The last of the hops below `upto` that can be reached.
pub open spec fn last_reached(outcomes: Seq<Option<HopFailure>>, upto: int) -> Option<usize>
    decreases upto,
{
    if upto <= 0 {
        None
    } else if outcomes[upto - 1] is None {
        Some((upto - 1) as usize)
    } else {
        last_reached(outcomes, upto - 1)
    }
}

/// How a run ends once every hop was tried and the chain ends at `tunnel`.
pub open spec fn ending(tunnel: Option<usize>, destination: Option<HopFailure>) -> Seq<Action> {
    match tunnel {
        Some(via) => seq![
            Action::Reach { via },
            match destination {
                None => Action::Relay { via },
                Some(failure) => Action::Abort { kind: abort_kind(failure) },
            },
        ],
        None => seq![Action::Abort { kind: AbortKind::ChainExhausted }],
    }
}

proof fn lemma_strict_from(
    hops: usize,
    outcomes: Seq<Option<HopFailure>>,
    destination: Option<HopFailure>,
    k: int,
    i: int,
)
    requires
        outcomes.len() == hops,
        0 <= i <= k < hops,
        forall|j: int| 0 <= j < k ==> outcomes[j] is None,
        outcomes[k] is Some,
    ensures
        ({
            let state = State::Connecting { hop: i as usize, tunnel: hop_before(i) };
            let rest = steps_from(ProxyMethod::StrictChain, hops, state, outcomes, destination);
            &&& rest.len() == k - i + 1
            &&& forall|j: int|
                0 <= j < k - i ==> rest[j] == attempt((i + 1 + j) as usize, hop_before(i + 1 + j))
            &&& rest[k - i] == Action::Abort { kind: abort_kind(outcomes[k].unwrap()) }
        }),
    decreases k - i,
{
    let state = State::Connecting { hop: i as usize, tunnel: hop_before(i) };
    let rest = steps_from(ProxyMethod::StrictChain, hops, state, outcomes, destination);
    let (after, action) = next(
        ProxyMethod::StrictChain,
        hops,
        state,
        event_of(outcomes[i]),
    );
    let tail = steps_from(ProxyMethod::StrictChain, hops, after, outcomes, destination);
    assert(rest == seq![action] + tail);
    if i == k {
        assert(tail =~= Seq::empty());
    } else {
        assert(after == State::Connecting { hop: (i + 1) as usize, tunnel: hop_before(i + 1) });
        lemma_strict_from(hops, outcomes, destination, k, i + 1);
        assert forall|j: int| 0 <= j < k - i implies rest[j] == attempt(
            (i + 1 + j) as usize,
            hop_before(i + 1 + j),
        ) by {
            if j > 0 {
                assert(rest[j] == tail[j - 1]);
            }
        }
        assert(rest[k - i] == tail[k - i - 1]);
    }
}

/// Under the strict policy, if hop `k` is the first that fails, then the
/// hops up to `k` were tried in order, each through the one before it, and
/// the next step gives the connection up: no hop after `k` is tried and
/// nobody is asked for the destination.
pub proof fn lemma_strict_chain_stops_at_first_failure(
    hops: usize,
    outcomes: Seq<Option<HopFailure>>,
    destination: Option<HopFailure>,
    k: int,
)
    requires
        outcomes.len() == hops,
        0 <= k < hops,
        forall|j: int| 0 <= j < k ==> outcomes[j] is None,
        outcomes[k] is Some,
    ensures
        ({
            let steps = traversal(ProxyMethod::StrictChain, hops, outcomes, destination);
            &&& steps.len() == k + 2
            &&& forall|i: int| 0 <= i <= k ==> steps[i] == attempt(i as usize, hop_before(i))
            &&& steps[k + 1] == Action::Abort { kind: abort_kind(outcomes[k].unwrap()) }
        }),
{
    let steps = traversal(ProxyMethod::StrictChain, hops, outcomes, destination);
    let state = State::Connecting { hop: 0, tunnel: None };
    let rest = steps_from(ProxyMethod::StrictChain, hops, state, outcomes, destination);
    lemma_strict_from(hops, outcomes, destination, k, 0);
    assert(steps == seq![Action::Dial { hop: 0 }] + rest);
    assert forall|i: int| 0 <= i <= k implies steps[i] == attempt(i as usize, hop_before(i)) by {
        if i > 0 {
            assert(steps[i] == rest[i - 1]);
        }
    }
    assert(steps[k + 1] == rest[k]);
}

proof fn lemma_all_reached_from(
    method: ProxyMethod,
    hops: usize,
    outcomes: Seq<Option<HopFailure>>,
    destination: Option<HopFailure>,
    i: int,
)
    requires
        outcomes.len() == hops,
        0 <= i < hops,
        forall|j: int| 0 <= j < hops ==> outcomes[j] is None,
    ensures
        ({
            let state = State::Connecting { hop: i as usize, tunnel: hop_before(i) };
            let rest = steps_from(method, hops, state, outcomes, destination);
            &&& rest.len() == hops - i + 1
            &&& forall|j: int|
                0 <= j < hops - i - 1 ==> rest[j] == attempt(
                    (i + 1 + j) as usize,
                    hop_before(i + 1 + j),
                )
            &&& rest.subrange(hops - i - 1, hops - i + 1) == ending(
                Some((hops - 1) as usize),
                destination,
            )
        }),
    decreases hops - i,
{
    let state = State::Connecting { hop: i as usize, tunnel: hop_before(i) };
    let rest = steps_from(method, hops, state, outcomes, destination);
    let (after, action) = next(method, hops, state, event_of(outcomes[i]));
    let tail = steps_from(method, hops, after, outcomes, destination);
    assert(rest == seq![action] + tail);
    if i == hops - 1 {
        assert(after == State::Reaching { via: i as usize });
        assert(rest.subrange(hops - i - 1, hops - i + 1) =~= ending(
            Some((hops - 1) as usize),
            destination,
        ));
    } else {
        assert(after == State::Connecting { hop: (i + 1) as usize, tunnel: hop_before(i + 1) });
        lemma_all_reached_from(method, hops, outcomes, destination, i + 1);
        assert forall|j: int| 0 <= j < hops - i - 1 implies rest[j] == attempt(
            (i + 1 + j) as usize,
            hop_before(i + 1 + j),
        ) by {
            if j > 0 {
                assert(rest[j] == tail[j - 1]);
            }
        }
        assert(rest.subrange(hops - i - 1, hops - i + 1) =~= tail.subrange(
            hops - i - 2,
            hops - i,
        ));
    }
}

/// Under either policy, if every hop can be reached, then the hops are
/// tried in order, each through the one before it, the last configured hop
/// is asked for the destination, and the relay runs through it if it
/// agrees.
pub proof fn lemma_whole_chain(
    method: ProxyMethod,
    hops: usize,
    outcomes: Seq<Option<HopFailure>>,
    destination: Option<HopFailure>,
)
    requires
        outcomes.len() == hops,
        hops > 0,
        forall|j: int| 0 <= j < hops ==> outcomes[j] is None,
    ensures
        ({
            let steps = traversal(method, hops, outcomes, destination);
            &&& steps.len() == hops + 2
            &&& forall|i: int| 0 <= i < hops ==> steps[i] == attempt(i as usize, hop_before(i))
            &&& steps[hops as int] == Action::Reach { via: (hops - 1) as usize }
            &&& steps[hops + 1] == match destination {
                None => Action::Relay { via: (hops - 1) as usize },
                Some(failure) => Action::Abort { kind: abort_kind(failure) },
            }
        }),
{
    let steps = traversal(method, hops, outcomes, destination);
    let state = State::Connecting { hop: 0, tunnel: None };
    let rest = steps_from(method, hops, state, outcomes, destination);
    lemma_all_reached_from(method, hops, outcomes, destination, 0);
    assert(steps == seq![Action::Dial { hop: 0 }] + rest);
    assert forall|i: int| 0 <= i < hops implies steps[i] == attempt(i as usize, hop_before(i)) by {
        if i > 0 {
            assert(steps[i] == rest[i - 1]);
        }
    }
    let end = rest.subrange(hops - 1, hops + 1);
    assert(steps[hops as int] == end[0]);
    assert(steps[hops + 1] == end[1]);
}

proof fn lemma_dynamic_from(
    hops: usize,
    outcomes: Seq<Option<HopFailure>>,
    destination: Option<HopFailure>,
    i: int,
)
    requires
        outcomes.len() == hops,
        0 <= i < hops,
    ensures
        ({
            let state = State::Connecting {
                hop: i as usize,
                tunnel: last_reached(outcomes, i),
            };
            let rest = steps_from(ProxyMethod::DynamicChain, hops, state, outcomes, destination);
            let end = ending(last_reached(outcomes, hops as int), destination);
            &&& rest.len() == hops - i - 1 + end.len()
            &&& forall|j: int|
                0 <= j < hops - i - 1 ==> rest[j] == attempt(
                    (i + 1 + j) as usize,
                    last_reached(outcomes, i + 1 + j),
                )
            &&& rest.subrange(hops - i - 1, rest.len() as int) == end
        }),
    decreases hops - i,
{
    let state = State::Connecting { hop: i as usize, tunnel: last_reached(outcomes, i) };
    let rest = steps_from(ProxyMethod::DynamicChain, hops, state, outcomes, destination);
    let end = ending(last_reached(outcomes, hops as int), destination);
    let (after, action) = next(
        ProxyMethod::DynamicChain,
        hops,
        state,
        event_of(outcomes[i]),
    );
    let tail = steps_from(ProxyMethod::DynamicChain, hops, after, outcomes, destination);
    assert(rest == seq![action] + tail);
    let reached = last_reached(outcomes, i + 1);
    assert((after, action) == proceed(hops, (i + 1) as usize, reached));
    if i == hops - 1 {
        match reached {
            Some(via) => {
                assert(tail =~= seq![end[1]]);
            },
            None => {
                assert(tail =~= Seq::empty());
            },
        }
        assert(rest.subrange(hops - i - 1, rest.len() as int) =~= end);
    } else {
        lemma_dynamic_from(hops, outcomes, destination, i + 1);
        assert forall|j: int| 0 <= j < hops - i - 1 implies rest[j] == attempt(
            (i + 1 + j) as usize,
            last_reached(outcomes, i + 1 + j),
        ) by {
            if j > 0 {
                assert(rest[j] == tail[j - 1]);
            }
        }
        assert(rest.subrange(hops - i - 1, rest.len() as int) =~= tail.subrange(
            hops - i - 2,
            tail.len() as int,
        ));
    }
}

/// Under the dynamic policy every hop is tried once, in order, through the
/// last hop reached before it, or directly where none was reached yet. Then
/// the last hop that was reached is asked for the destination, and the
/// relay runs through it if it agrees; if no hop was reached, the
/// connection is given up as exhausted.
pub proof fn lemma_dynamic_chain(
    hops: usize,
    outcomes: Seq<Option<HopFailure>>,
    destination: Option<HopFailure>,
)
    requires
        outcomes.len() == hops,
    ensures
        ({
            let steps = traversal(ProxyMethod::DynamicChain, hops, outcomes, destination);
            let end = ending(last_reached(outcomes, hops as int), destination);
            &&& steps.len() == hops + end.len()
            &&& forall|i: int|
                0 <= i < hops ==> steps[i] == attempt(i as usize, last_reached(outcomes, i))
            &&& steps.subrange(hops as int, steps.len() as int) == end
        }),
{
    let steps = traversal(ProxyMethod::DynamicChain, hops, outcomes, destination);
    let end = ending(last_reached(outcomes, hops as int), destination);
    if hops == 0 {
        assert(steps =~= end);
        assert(steps.subrange(0, steps.len() as int) =~= end);
    } else {
        let state = State::Connecting { hop: 0, tunnel: None };
        let rest = steps_from(ProxyMethod::DynamicChain, hops, state, outcomes, destination);
        lemma_dynamic_from(hops, outcomes, destination, 0);
        assert(steps == seq![Action::Dial { hop: 0 }] + rest);
        assert forall|i: int| 0 <= i < hops implies steps[i] == attempt(
            i as usize,
            last_reached(outcomes, i),
        ) by {
            if i > 0 {
                assert(steps[i] == rest[i - 1]);
            }
        }
        assert(steps.subrange(hops as int, steps.len() as int) =~= rest.subrange(
            hops - 1,
            rest.len() as int,
        ));
    }
}

/// No hop below `upto` is reached where all of them fail, and the last one
/// reached is `k` where `k` succeeds and all after it fail.
pub proof fn lemma_last_reached(outcomes: Seq<Option<HopFailure>>, upto: int, k: int)
    requires
        0 <= upto <= outcomes.len() <= usize::MAX,
    ensures
        (forall|j: int| 0 <= j < upto ==> outcomes[j] is Some) ==> last_reached(outcomes, upto)
            is None,
        0 <= k < upto && outcomes[k] is None ==> (last_reached(outcomes, upto) matches Some(last)
            && k <= last < upto && outcomes[last as int] is None),
        0 <= k < upto && outcomes[k] is None && (forall|j: int|
            k < j < upto ==> outcomes[j] is Some) ==> last_reached(outcomes, upto) == Some(
            k as usize,
        ),
    decreases upto,
{
    if upto > 0 {
        lemma_last_reached(outcomes, upto - 1, k);
    }
}

/// Under the dynamic policy, if the hops before `k` fail and hop `k`
/// succeeds, then the hops up to `k` are dialled directly, one after the
/// other, the connection is not given up for want of a hop, and the
/// destination is presented once, after every hop was tried, to the last
/// hop that was reached. That hop is `k` itself where no later hop can be
/// reached; it is the one that the relay runs through.
pub proof fn lemma_dynamic_chain_skips_failed_hops(
    hops: usize,
    outcomes: Seq<Option<HopFailure>>,
    destination: Option<HopFailure>,
    k: int,
)
    requires
        outcomes.len() == hops,
        0 <= k < hops,
        forall|j: int| 0 <= j < k ==> outcomes[j] is Some,
        outcomes[k] is None,
    ensures
        ({
            let steps = traversal(ProxyMethod::DynamicChain, hops, outcomes, destination);
            let last = last_reached(outcomes, hops as int);
            &&& last matches Some(via) && k <= via < hops && outcomes[via as int] is None
            &&& (forall|j: int| k < j < hops ==> outcomes[j] is Some) ==> last == Some(k as usize)
            &&& steps.len() == hops + 2
            &&& forall|i: int| 0 <= i <= k ==> steps[i] == Action::Dial { hop: i as usize }
            &&& forall|i: int| 0 <= i < hops ==> !(steps[i] is Reach) && !(steps[i] is Abort)
            &&& steps[hops as int] == Action::Reach { via: last.unwrap() }
            &&& steps[hops + 1] == match destination {
                None => Action::Relay { via: last.unwrap() },
                Some(failure) => Action::Abort { kind: abort_kind(failure) },
            }
        }),
{
    let steps = traversal(ProxyMethod::DynamicChain, hops, outcomes, destination);
    let end = ending(last_reached(outcomes, hops as int), destination);
    lemma_dynamic_chain(hops, outcomes, destination);
    lemma_last_reached(outcomes, hops as int, k);
    assert forall|i: int| 0 <= i <= k implies steps[i] == Action::Dial { hop: i as usize } by {
        lemma_last_reached(outcomes, i, k);
    }
    let tail = steps.subrange(hops as int, steps.len() as int);
    assert(steps[hops as int] == tail[0]);
    assert(steps[hops + 1] == tail[1]);
}

} // verus!

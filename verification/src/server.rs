//! The acceptor: admission of new connections and graceful shutdown.
//!
//! The server is a machine that is fed what happened on the listening
//! socket and among the running handlers, and that answers with what to do
//! about it. The caller owns the socket and the tasks. It waits for the
//! events that fit the server's phase, and performs each action:
//!
//! - `Accepting`: wait for a new connection, the end of a handler, or the
//!   shutdown signal.
//! - `Waiting`: a connection was accepted while every permit was held. It is
//!   kept until a handler ends; no other connection is accepted meanwhile.
//! - `Draining`: shutdown was asked for. Wait for the handlers to end.
//! - `Stopped`: every handler has ended.

use vstd::prelude::*;
use crate::admission::AdmissionController;
use crate::config::ServerConfig;

verus! {

/// What the server is doing.
#[derive(Debug, Clone, Copy, PartialEq, Eq, Structural)]
pub enum ServerPhase {
    Accepting,
    Waiting,
    Draining,
    Stopped,
}

/// What happened.
#[derive(Debug, Clone, Copy, PartialEq, Eq, Structural)]
pub enum ServerEvent {
    /// A connection was accepted.
    Accepted,
    /// Accepting a connection failed.
    AcceptFailed,
    /// A handler ended, with or without success.
    ConnectionFinished,
    /// The signal to shut down arrived.
    ShutdownRequested,
}

/// What the caller is to do.
#[derive(Debug, Clone, Copy, PartialEq, Eq, Structural)]
pub enum ServerAction {
    /// Nothing but to wait for the next event.
    Continue,
    /// Start a handler for the connection that was accepted last. It holds a
    /// permit until it ends.
    Start,
    /// Keep the connection that was just accepted until a permit is free.
    Hold,
    /// Close the connection that was just accepted without serving it.
    Refuse,
    /// Close the connection that is kept without serving it: shutdown was
    /// asked for and no permit will ever be free.
    Abandon,
    /// Leave: nothing is running any more.
    Exit,
}

/// The model of the server.
pub struct ServerView {
    pub phase: ServerPhase,
    /// The number of permits.
    pub capacity: nat,
    /// The number of handlers that are running, each with a permit.
    pub running: nat,
    /// Whether shutdown was asked for while a connection was kept waiting.
    pub leaving: bool,
}

/// The state in which every server starts.
pub open spec fn initial(capacity: nat) -> ServerView {
    ServerView { phase: ServerPhase::Accepting, capacity, running: 0, leaving: false }
}

/// The server after a handler has ended: its permit is free again. An end
/// that is reported while nothing runs changes nothing.
pub open spec fn released(s: ServerView) -> ServerView {
    if s.running > 0 {
        ServerView { running: (s.running - 1) as nat, ..s }
    } else {
        s
    }
}

/// The server's answer to an event: its next state and what the caller is
/// to do.
pub open spec fn next(s: ServerView, event: ServerEvent) -> (ServerView, ServerAction) {
    match s.phase {
        ServerPhase::Accepting => match event {
            ServerEvent::Accepted => if s.running < s.capacity {
                (ServerView { running: s.running + 1, ..s }, ServerAction::Start)
            } else {
                (ServerView { phase: ServerPhase::Waiting, ..s }, ServerAction::Hold)
            },
            ServerEvent::AcceptFailed => (s, ServerAction::Continue),
            ServerEvent::ConnectionFinished => (released(s), ServerAction::Continue),
            ServerEvent::ShutdownRequested => if s.running == 0 {
                (ServerView { phase: ServerPhase::Stopped, ..s }, ServerAction::Exit)
            } else {
                (ServerView { phase: ServerPhase::Draining, ..s }, ServerAction::Continue)
            },
        },
        ServerPhase::Waiting => match event {
            ServerEvent::Accepted => (s, ServerAction::Refuse),
            ServerEvent::AcceptFailed => (s, ServerAction::Continue),
            ServerEvent::ConnectionFinished => if s.running > 0 {
                (
                    ServerView {
                        phase: if s.leaving {
                            ServerPhase::Draining
                        } else {
                            ServerPhase::Accepting
                        },
                        leaving: false,
                        ..s
                    },
                    ServerAction::Start,
                )
            } else {
                (released(s), ServerAction::Continue)
            },
            ServerEvent::ShutdownRequested => if s.running == 0 {
                (
                    ServerView { phase: ServerPhase::Stopped, leaving: false, ..s },
                    ServerAction::Abandon,
                )
            } else {
                (ServerView { leaving: true, ..s }, ServerAction::Continue)
            },
        },
        ServerPhase::Draining => match event {
            ServerEvent::Accepted => (s, ServerAction::Refuse),
            ServerEvent::ConnectionFinished => if s.running <= 1 {
                (
                    ServerView { phase: ServerPhase::Stopped, running: 0, ..s },
                    ServerAction::Exit,
                )
            } else {
                (released(s), ServerAction::Continue)
            },
            _ => (s, ServerAction::Continue),
        },
        ServerPhase::Stopped => match event {
            ServerEvent::Accepted => (s, ServerAction::Refuse),
            _ => (s, ServerAction::Exit),
        },
    }
}

/// The acceptor's state.
pub struct Server {
    config: ServerConfig,
    limiter: AdmissionController,
    phase: ServerPhase,
    leaving: bool,
}

impl View for Server {
    type V = ServerView;

    closed spec fn view(&self) -> ServerView {
        ServerView {
            phase: self.phase,
            capacity: self.limiter.capacity(),
            running: self.limiter.outstanding(),
            leaving: self.leaving,
        }
    }
}

impl Server {
    /// The configuration that the server was made with.
    pub closed spec fn settings(&self) -> ServerConfig {
        self.config
    }

    /// A server that accepts connections, with as many permits as the
    /// configuration allows connections.
    pub fn new(config: ServerConfig) -> (out: Self)
        ensures
            out@ == initial(config.max_connections as nat),
            out.settings() == config,
    {
        let limiter = AdmissionController::new(config.max_connections);
        Server { config, limiter, phase: ServerPhase::Accepting, leaving: false }
    }

    /// The configuration that the server was made with.
    pub fn config(&self) -> (config: &ServerConfig)
        ensures
            *config == self.settings(),
    {
        &self.config
    }

    /// What the server is doing, which tells the caller what to wait for.
    pub fn phase(&self) -> (phase: ServerPhase)
        ensures
            phase == self@.phase,
    {
        self.phase
    }

    /// The number of handlers that are running. It never exceeds the
    /// number of permits.
    pub fn running(&self) -> (n: usize)
        ensures
            n == self@.running,
            self@.running <= self@.capacity,
    {
        self.limiter.in_use()
    }

    /// Takes in what happened and says what to do about it.
    pub fn step(&mut self, event: ServerEvent) -> (action: ServerAction)
        ensures
            (final(self)@, action) == next(old(self)@, event),
            final(self)@.running <= final(self)@.capacity,
            final(self).settings() == old(self).settings(),
    {
        let running = self.limiter.in_use();
        match self.phase {
            ServerPhase::Accepting => match event {
                ServerEvent::Accepted => {
                    if self.limiter.try_acquire() {
                        ServerAction::Start
                    } else {
                        self.phase = ServerPhase::Waiting;
                        ServerAction::Hold
                    }
                },
                ServerEvent::AcceptFailed => ServerAction::Continue,
                ServerEvent::ConnectionFinished => {
                    if running > 0 {
                        self.limiter.release();
                    }
                    ServerAction::Continue
                },
                ServerEvent::ShutdownRequested => {
                    if running == 0 {
                        self.phase = ServerPhase::Stopped;
                        ServerAction::Exit
                    } else {
                        self.phase = ServerPhase::Draining;
                        ServerAction::Continue
                    }
                },
            },
            ServerPhase::Waiting => match event {
                ServerEvent::Accepted => ServerAction::Refuse,
                ServerEvent::AcceptFailed => ServerAction::Continue,
                ServerEvent::ConnectionFinished => {
                    if running > 0 {
                        // The permit passes from the handler that ended to
                        // the connection that was kept.
                        self.limiter.release();
                        let granted = self.limiter.try_acquire();
                        assert(granted);
                        self.phase = if self.leaving {
                            ServerPhase::Draining
                        } else {
                            ServerPhase::Accepting
                        };
                        self.leaving = false;
                        ServerAction::Start
                    } else {
                        ServerAction::Continue
                    }
                },
                ServerEvent::ShutdownRequested => {
                    if running == 0 {
                        self.phase = ServerPhase::Stopped;
                        self.leaving = false;
                        ServerAction::Abandon
                    } else {
                        self.leaving = true;
                        ServerAction::Continue
                    }
                },
            },
            ServerPhase::Draining => match event {
                ServerEvent::Accepted => ServerAction::Refuse,
                ServerEvent::ConnectionFinished => {
                    if running > 0 {
                        self.limiter.release();
                    }
                    if running <= 1 {
                        self.phase = ServerPhase::Stopped;
                        ServerAction::Exit
                    } else {
                        ServerAction::Continue
                    }
                },
                _ => ServerAction::Continue,
            },
            ServerPhase::Stopped => match event {
                ServerEvent::Accepted => ServerAction::Refuse,
                _ => ServerAction::Exit,
            },
        }
    }
}

/// What holds of the server at all times: no more handlers run than there
/// are permits; a connection is only kept waiting while every permit is
/// held; and once the server has stopped, nothing runs.
pub open spec fn valid(s: ServerView) -> bool {
    &&& s.running <= s.capacity
    &&& s.phase == ServerPhase::Waiting ==> s.running == s.capacity
    &&& s.phase == ServerPhase::Stopped ==> s.running == 0
    &&& s.leaving ==> s.phase == ServerPhase::Waiting
}

/// Whether shutdown has been asked for.
pub open spec fn shutting_down(s: ServerView) -> bool {
    s.phase == ServerPhase::Draining || s.phase == ServerPhase::Stopped || s.leaving
}

/// The server after a sequence of events, one after the other.
pub open spec fn run(s: ServerView, events: Seq<ServerEvent>) -> ServerView
    decreases events.len(),
{
    if events.len() == 0 {
        s
    } else {
        next(run(s, events.drop_last()), events.last()).0
    }
}

/// Every step keeps the server valid and leaves the number of permits as
/// it is.
pub proof fn lemma_step_valid(s: ServerView, event: ServerEvent)
    requires
        valid(s),
    ensures
        valid(next(s, event).0),
        next(s, event).0.capacity == s.capacity,
{
}

/// Bounded admission: whatever happens, in whatever order, the number of
/// running handlers never exceeds the number of permits.
pub proof fn lemma_admission_bounded(capacity: nat, events: Seq<ServerEvent>)
    ensures
        valid(run(initial(capacity), events)),
        run(initial(capacity), events).capacity == capacity,
        run(initial(capacity), events).running <= capacity,
    decreases events.len(),
{
    if events.len() > 0 {
        lemma_admission_bounded(capacity, events.drop_last());
        lemma_step_valid(run(initial(capacity), events.drop_last()), events.last());
    }
}

/// Connections that arrive one after the other, while none ends, are all
/// started as long as there are permits for them.
pub proof fn lemma_arrivals_fill_permits(capacity: nat, arrivals: nat)
    requires
        arrivals <= capacity,
    ensures
        run(initial(capacity), Seq::new(arrivals, |i: int| ServerEvent::Accepted)) == (ServerView {
            running: arrivals,
            ..initial(capacity)
        }),
    decreases arrivals,
{
    let events = Seq::new(arrivals, |i: int| ServerEvent::Accepted);
    if arrivals > 0 {
        let before = Seq::new((arrivals - 1) as nat, |i: int| ServerEvent::Accepted);
        assert(events.drop_last() =~= before);
        lemma_arrivals_fill_permits(capacity, (arrivals - 1) as nat);
    }
}

/// One connection more than there are permits is not started with the
/// others: it is kept, and it is started when the first of them ends.
pub proof fn lemma_one_too_many_waits(capacity: nat)
    requires
        capacity > 0,
    ensures
        ({
            let full = run(initial(capacity), Seq::new(capacity, |i: int| ServerEvent::Accepted));
            let kept = next(full, ServerEvent::Accepted);
            let served = next(kept.0, ServerEvent::ConnectionFinished);
            &&& full.running == capacity
            &&& kept.1 == ServerAction::Hold
            &&& kept.0.running == capacity
            &&& served.1 == ServerAction::Start
            &&& served.0.running == capacity
            &&& served.0.phase == ServerPhase::Accepting
        }),
{
    lemma_arrivals_fill_permits(capacity, capacity);
}

/// A handler is started only with a permit of its own: for a connection
/// that arrives while a permit is free, or for the one that was kept, at
/// the moment a running handler ends. A connection that arrives while every
/// permit is held is kept, not started.
pub proof fn lemma_start_needs_permit(s: ServerView, event: ServerEvent)
    requires
        valid(s),
    ensures
        next(s, event).1 == ServerAction::Start <==> {
            ||| s.phase == ServerPhase::Accepting && event == ServerEvent::Accepted && s.running
                < s.capacity
            ||| s.phase == ServerPhase::Waiting && event == ServerEvent::ConnectionFinished
                && s.running > 0
        },
        s.phase == ServerPhase::Accepting && event == ServerEvent::Accepted && s.running
            == s.capacity ==> next(s, event) == (
            ServerView { phase: ServerPhase::Waiting, ..s },
            ServerAction::Hold,
        ),
{
}

/// A connection that is kept waiting is not lost: as soon as a running
/// handler ends, it is started, whether or not shutdown was asked for in
/// the meantime.
pub proof fn lemma_waiting_is_served(s: ServerView)
    requires
        valid(s),
        s.phase == ServerPhase::Waiting,
        s.capacity > 0,
    ensures
        next(s, ServerEvent::ConnectionFinished).1 == ServerAction::Start,
        next(s, ServerEvent::ConnectionFinished).0.running == s.running,
{
}

/// Graceful shutdown. Once shutdown was asked for, it stays so, and every
/// connection that is accepted from then on is refused. No handler is
/// started but for the one connection that was already kept waiting, and
/// that one is abandoned only by a server that has no permits at all. The
/// server says `Exit` only when no handler runs any more, and nothing but
/// its own end takes a handler off the count.
pub proof fn lemma_shutdown_drains(s: ServerView, event: ServerEvent)
    requires
        valid(s),
    ensures
        shutting_down(next(s, ServerEvent::ShutdownRequested).0),
        shutting_down(s) ==> shutting_down(next(s, event).0),
        shutting_down(s) && event == ServerEvent::Accepted ==> next(s, event) == (
            s,
            ServerAction::Refuse,
        ),
        shutting_down(s) && next(s, event).1 == ServerAction::Start ==> s.phase
            == ServerPhase::Waiting,
        next(s, event).1 == ServerAction::Exit ==> next(s, event).0.running == 0 && next(
            s,
            event,
        ).0.phase == ServerPhase::Stopped,
        next(s, event).0.running < s.running ==> event == ServerEvent::ConnectionFinished,
        next(s, event).1 == ServerAction::Abandon ==> s.capacity == 0,
{
}

/// The server after the first `n` of a sequence of events is valid, and
/// one more event takes it on by one step.
proof fn lemma_run_step(capacity: nat, events: Seq<ServerEvent>, n: int)
    requires
        0 <= n < events.len(),
    ensures
        valid(run(initial(capacity), events.take(n))),
        run(initial(capacity), events.take(n + 1)) == next(
            run(initial(capacity), events.take(n)),
            events[n],
        ).0,
{
    lemma_admission_bounded(capacity, events.take(n));
    assert(events.take(n + 1).drop_last() =~= events.take(n));
}

/// Once shutdown was asked for, the server is shutting down for good.
proof fn lemma_stays_shutting_down(capacity: nat, events: Seq<ServerEvent>, asked: int, n: int)
    requires
        0 <= asked < n <= events.len(),
        events[asked] == ServerEvent::ShutdownRequested,
    ensures
        shutting_down(run(initial(capacity), events.take(n))),
    decreases n,
{
    lemma_run_step(capacity, events, n - 1);
    let before = run(initial(capacity), events.take(n - 1));
    lemma_shutdown_drains(before, events[n - 1]);
    if asked < n - 1 {
        lemma_stays_shutting_down(capacity, events, asked, n - 1);
    }
}

/// No admission after shutdown: in every course of events, a connection
/// that is accepted after shutdown was asked for is refused, and the only
/// handler that may still be started is the one for a connection that was
/// kept waiting from before.
pub proof fn lemma_no_admission_after_shutdown(
    capacity: nat,
    events: Seq<ServerEvent>,
    asked: int,
    later: int,
)
    requires
        0 <= asked < later < events.len(),
        events[asked] == ServerEvent::ShutdownRequested,
    ensures
        ({
            let before = run(initial(capacity), events.take(later));
            let answer = next(before, events[later]);
            &&& events[later] == ServerEvent::Accepted ==> answer.1 == ServerAction::Refuse
            &&& answer.1 == ServerAction::Start ==> before.phase == ServerPhase::Waiting
                && events[later] == ServerEvent::ConnectionFinished
            &&& answer.1 == ServerAction::Exit ==> answer.0.running == 0
        }),
{
    lemma_stays_shutting_down(capacity, events, asked, later);
    lemma_run_step(capacity, events, later);
    let before = run(initial(capacity), events.take(later));
    lemma_shutdown_drains(before, events[later]);
    lemma_start_needs_permit(before, events[later]);
}

} // verus!

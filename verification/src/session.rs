//! One analyzer session: the client state machine, the request-id counter,
//! the pending-request table, and the routing of incoming messages.
use vstd::prelude::*;

use crate::pending::{contains_id, PendingRequests};

verus! {

/// The client's lifecycle states. Only `Ready` accepts user requests.
#[derive(Clone, Copy, Debug, PartialEq, Eq, Structural)]
pub enum ClientState {
    Starting,
    Initializing,
    Ready,
    Terminated,
}

/// An event observed by the session.
#[derive(Clone, Copy, Debug, PartialEq, Eq, Structural)]
pub enum SessionEvent {
    /// The child process was spawned and its pipes are connected.
    Spawned,
    /// A valid response to the initialize request arrived.
    InitializeOk,
    /// The initialize request failed or timed out.
    InitializeErr,
    /// A fatal transport error: the pipe closed or framing broke.
    TransportFailed,
    /// An explicit shutdown was requested.
    ShutdownRequested,
}

/// What the caller must do after a transition.
#[derive(Clone, Copy, Debug, PartialEq, Eq, Structural)]
pub enum SessionAction {
    /// Write the initialize request to the child.
    SendInitialize,
    /// Write the `initialized` notification; the session is now ready.
    SendInitialized,
    /// Surface an initialize-failed signal to the caller.
    ReportInitializeFailed,
    /// Complete every pending sink with a terminated signal.
    CompletePendingTerminated,
    /// Deliver a termination signal to the child process.
    TerminateChild,
    /// Nothing: the event does not apply in this state.
    Ignore,
}

/// The transition table of the client state machine: spawn leads to
/// `Initializing`; a valid initialize response sends the `initialized`
/// notification and reaches `Ready`; a fatal transport error or an
/// explicit shutdown reaches `Terminated`.
pub open spec fn spec_step(s: ClientState, e: SessionEvent) -> (ClientState, SessionAction) {
    match e {
        SessionEvent::TransportFailed => (
            ClientState::Terminated,
            SessionAction::CompletePendingTerminated,
        ),
        SessionEvent::ShutdownRequested => (ClientState::Terminated, SessionAction::TerminateChild),
        SessionEvent::Spawned => match s {
            ClientState::Starting => (ClientState::Initializing, SessionAction::SendInitialize),
            _ => (s, SessionAction::Ignore),
        },
        SessionEvent::InitializeOk => match s {
            ClientState::Initializing => (ClientState::Ready, SessionAction::SendInitialized),
            _ => (s, SessionAction::Ignore),
        },
        SessionEvent::InitializeErr => match s {
            ClientState::Initializing => (
                ClientState::Terminated,
                SessionAction::ReportInitializeFailed,
            ),
            _ => (s, SessionAction::Ignore),
        },
    }
}

/// Where an incoming message goes.
pub enum RouteOutcome<S> {
    /// The message carries no id: a notification, nothing is owed.
    Notification,
    /// The id has no live entry: a late response or an id already
    /// completed or cancelled. The message is discarded.
    NoPending,
    /// The sink awaiting this response; its entry has been removed.
    Deliver(S),
}

/// One live analyzer session. `S` is the response-sink handle the
/// surrounding runtime registers per request.
pub struct Session<S> {
    pub state: ClientState,
    /// The id the next request will take; ids start at 1 and are never
    /// reused within a session.
    pub next_id: u64,
    pub pending: PendingRequests<S>,
    /// The ids of all requests sent so far, in write order.
    pub sent_ids: Ghost<Seq<u64>>,
}

impl<S> Session<S> {
    /// Session well-formedness: the pending table holds at most one entry
    /// per id, every live or issued id lies below the counter, and ids
    /// were written in strictly increasing order.
    pub open spec fn wf(&self) -> bool {
        &&& self.next_id >= 1
        &&& self.pending.wf()
        &&& forall|i: int|
            0 <= i < self.pending@.len() ==> 1 <= (#[trigger] self.pending@[i]).0 < self.next_id
        &&& forall|i: int| 0 <= i < self.sent_ids@.len() ==> #[trigger] self.sent_ids@[i]
            < self.next_id
        &&& forall|i: int, j: int|
            0 <= i < j < self.sent_ids@.len() ==> #[trigger] self.sent_ids@[i] < #[trigger]
            self.sent_ids@[j]
    }

    /// A fresh session: not yet spawned, the next id is 1, nothing
    /// pending.
    pub fn new() -> (r: Self)
        ensures
            r.wf(),
            r.state == ClientState::Starting,
            r.next_id == 1,
            r.pending@ =~= Seq::<(u64, S)>::empty(),
            r.sent_ids@ =~= Seq::<u64>::empty(),
    {
        Session {
            state: ClientState::Starting,
            next_id: 1,
            pending: PendingRequests::new(),
            sent_ids: Ghost(Seq::empty()),
        }
    }

    /// Apply one lifecycle event; returns what the caller must do.
    /// The pending table and the id counter are untouched: completing
    /// pending sinks on termination is a separate `drain_pending` call.
    pub fn step(&mut self, e: SessionEvent) -> (a: SessionAction)
        requires
            old(self).wf(),
        ensures
            final(self).wf(),
            (final(self).state, a) == spec_step(old(self).state, e),
            final(self).next_id == old(self).next_id,
            final(self).pending@ == old(self).pending@,
            final(self).sent_ids@ == old(self).sent_ids@,
    {
        let (next, action): (ClientState, SessionAction) = match e {
            SessionEvent::TransportFailed => (
                ClientState::Terminated,
                SessionAction::CompletePendingTerminated,
            ),
            SessionEvent::ShutdownRequested => (
                ClientState::Terminated,
                SessionAction::TerminateChild,
            ),
            SessionEvent::Spawned => match self.state {
                ClientState::Starting => (
                    ClientState::Initializing,
                    SessionAction::SendInitialize,
                ),
                _ => (self.state, SessionAction::Ignore),
            },
            SessionEvent::InitializeOk => match self.state {
                ClientState::Initializing => (ClientState::Ready, SessionAction::SendInitialized),
                _ => (self.state, SessionAction::Ignore),
            },
            SessionEvent::InitializeErr => match self.state {
                ClientState::Initializing => (
                    ClientState::Terminated,
                    SessionAction::ReportInitializeFailed,
                ),
                _ => (self.state, SessionAction::Ignore),
            },
        };
        self.state = next;
        action
    }

    /// Acquire the next request id and register `sink` under it. Only a
    /// `Ready` session accepts user requests. The returned id is fresh:
    /// it differs from every id this session ever issued.
    pub fn send_request(&mut self, sink: S) -> (id: u64)
        requires
            old(self).wf(),
            old(self).state == ClientState::Ready,
            old(self).next_id < u64::MAX,
        ensures
            final(self).wf(),
            id == old(self).next_id,
            final(self).next_id == old(self).next_id + 1,
            final(self).state == old(self).state,
            final(self).pending@ == old(self).pending@ + seq![(id, sink)],
            final(self).sent_ids@ == old(self).sent_ids@.push(id),
            !contains_id(old(self).pending@, id),
            forall|i: int| 0 <= i < old(self).sent_ids@.len() ==> #[trigger] old(
                self,
            ).sent_ids@[i] != id,
    {
        let id = self.next_id;
        proof {
            if contains_id(self.pending@, id) {
                let w = choose|w: int|
                    0 <= w < self.pending@.len() && (#[trigger] self.pending@[w]).0 == id;
            }
        }
        self.pending.add_request(id, sink);
        self.next_id = self.next_id + 1;
        proof {
            self.sent_ids@ = self.sent_ids@.push(id);
        }
        id
    }

    /// Acquire an id and register the sink for the initialize request,
    /// the one request issued while the session is still initializing.
    pub fn send_handshake_request(&mut self, sink: S) -> (id: u64)
        requires
            old(self).wf(),
            old(self).state == ClientState::Initializing,
            old(self).next_id < u64::MAX,
        ensures
            final(self).wf(),
            id == old(self).next_id,
            final(self).next_id == old(self).next_id + 1,
            final(self).state == old(self).state,
            final(self).pending@ == old(self).pending@ + seq![(id, sink)],
            final(self).sent_ids@ == old(self).sent_ids@.push(id),
            !contains_id(old(self).pending@, id),
    {
        let id = self.next_id;
        proof {
            if contains_id(self.pending@, id) {
                let w = choose|w: int|
                    0 <= w < self.pending@.len() && (#[trigger] self.pending@[w]).0 == id;
            }
        }
        self.pending.add_request(id, sink);
        self.next_id = self.next_id + 1;
        proof {
            self.sent_ids@ = self.sent_ids@.push(id);
        }
        id
    }

    /// Route one incoming message, identified by the id it carries, if
    /// any. A response to a live request yields its sink and removes the
    /// entry; a notification or an unknown id is discarded.
    pub fn route_incoming(&mut self, id: Option<u64>) -> (r: RouteOutcome<S>)
        requires
            old(self).wf(),
        ensures
            final(self).wf(),
            final(self).state == old(self).state,
            final(self).next_id == old(self).next_id,
            final(self).sent_ids@ == old(self).sent_ids@,
            match id {
                None => r is Notification && final(self).pending@ == old(self).pending@,
                Some(i) => if contains_id(old(self).pending@, i) {
                    &&& r is Deliver
                    &&& !contains_id(final(self).pending@, i)
                    &&& forall|x: u64|
                        x != i ==> contains_id(final(self).pending@, x) == contains_id(
                            old(self).pending@,
                            x,
                        )
                } else {
                    r is NoPending && final(self).pending@ == old(self).pending@
                },
            },
    {
        match id {
            None => RouteOutcome::Notification,
            Some(i) => match self.pending.remove_request(i) {
                Some(sink) => RouteOutcome::Deliver(sink),
                None => RouteOutcome::NoPending,
            },
        }
    }

    /// Complete the request `id` with its response: take its sink. At
    /// most one completion per id can ever succeed.
    pub fn complete(&mut self, id: u64) -> (r: Option<S>)
        requires
            old(self).wf(),
        ensures
            final(self).wf(),
            final(self).state == old(self).state,
            final(self).next_id == old(self).next_id,
            final(self).sent_ids@ == old(self).sent_ids@,
            r is Some <==> contains_id(old(self).pending@, id),
            !contains_id(final(self).pending@, id),
            forall|x: u64|
                x != id ==> contains_id(final(self).pending@, x) == contains_id(
                    old(self).pending@,
                    x,
                ),
    {
        self.pending.remove_request(id)
    }

    /// Cancel the request `id`: the caller abandoned it. Its entry, if
    /// any, is removed, so the eventual response will be discarded.
    pub fn cancel(&mut self, id: u64) -> (r: Option<S>)
        requires
            old(self).wf(),
        ensures
            final(self).wf(),
            final(self).state == old(self).state,
            final(self).next_id == old(self).next_id,
            final(self).sent_ids@ == old(self).sent_ids@,
            r is Some <==> contains_id(old(self).pending@, id),
            !contains_id(final(self).pending@, id),
            forall|x: u64|
                x != id ==> contains_id(final(self).pending@, x) == contains_id(
                    old(self).pending@,
                    x,
                ),
    {
        self.pending.remove_request(id)
    }

    /// Take every pending sink after the transport failed or the session
    /// terminated: each is completed with a terminal signal by the
    /// caller, exactly once.
    pub fn drain_pending(&mut self) -> (r: Vec<S>)
        requires
            old(self).wf(),
        ensures
            final(self).wf(),
            final(self).state == old(self).state,
            final(self).next_id == old(self).next_id,
            final(self).sent_ids@ == old(self).sent_ids@,
            final(self).pending@ =~= Seq::<(u64, S)>::empty(),
            r@.len() == old(self).pending@.len(),
            forall|i: int| 0 <= i < r@.len() ==> r@[i] == (#[trigger] old(self).pending@[i]).1,
    {
        self.pending.drain()
    }
}

/// The manager's map of live analyzer clients, one per language: a
/// language whose client already runs is skipped, and a fresh client is
/// inserted only after its handshake finished. `C` is the runtime's
/// client handle.
pub struct ClientMap<C> {
    pub entries: Vec<(crate::api_types::SupportedLanguages, C)>,
}

/// Whether some entry carries `lang`.
pub open spec fn map_contains<C>(
    es: Seq<(crate::api_types::SupportedLanguages, C)>,
    lang: crate::api_types::SupportedLanguages,
) -> bool {
    exists|i: int| 0 <= i < es.len() && (#[trigger] es[i]).0 == lang
}

impl<C> ClientMap<C> {
    /// The live clients, in insertion order.
    pub open spec fn view(&self) -> Seq<(crate::api_types::SupportedLanguages, C)> {
        self.entries@
    }

    /// Well-formedness: at most one client per language.
    pub open spec fn wf(&self) -> bool {
        forall|i: int, j: int|
            0 <= i < j < self.entries@.len() ==> (#[trigger] self.entries@[i]).0 != (#[trigger]
            self.entries@[j]).0
    }

    /// Whether `lang` has a live client.
    pub open spec fn spec_contains(&self, lang: crate::api_types::SupportedLanguages) -> bool {
        map_contains(self.entries@, lang)
    }

    /// An empty map.
    pub fn new() -> (r: Self)
        ensures
            r.wf(),
            r@ =~= Seq::<(crate::api_types::SupportedLanguages, C)>::empty(),
    {
        ClientMap { entries: Vec::new() }
    }

    /// The index of `lang`'s client, used to reach it without moving it;
    /// nothing when the language has no live client yet.
    pub fn index_of(&self, lang: crate::api_types::SupportedLanguages) -> (r: Option<usize>)
        ensures
            match r {
                Some(i) => i < self@.len() && (#[trigger] self@[i as int]).0 == lang,
                None => !self.spec_contains(lang),
            },
    {
        let n = self.entries.len();
        let mut k: usize = 0;
        while k < n
            invariant
                0 <= k <= n == self.entries@.len(),
                forall|j: int| 0 <= j < k ==> (#[trigger] self.entries@[j]).0 != lang,
            decreases n - k,
        {
            if self.entries[k].0 == lang {
                return Some(k);
            }
            k = k + 1;
        }
        proof {
            if map_contains(self.entries@, lang) {
                let w = choose|w: int|
                    0 <= w < self.entries@.len() && (#[trigger] self.entries@[w]).0 == lang;
            }
        }
        None
    }

    /// Insert the client for a language with none yet: the caller checks
    /// `index_of` first and skips languages whose client already runs.
    pub fn insert(&mut self, lang: crate::api_types::SupportedLanguages, client: C)
        requires
            old(self).wf(),
            !old(self).spec_contains(lang),
        ensures
            final(self).wf(),
            final(self)@ == old(self)@ + seq![(lang, client)],
            final(self).spec_contains(lang),
            forall|x: crate::api_types::SupportedLanguages|
                x != lang ==> map_contains(final(self)@, x) == map_contains(old(self)@, x),
    {
        self.entries.push((lang, client));
        proof {
            let es = self.entries@;
            let oldes = old(self).entries@;
            assert(forall|i: int| 0 <= i < oldes.len() ==> es[i] == #[trigger] oldes[i]);
            assert(es[es.len() - 1].0 == lang);
            assert forall|x: crate::api_types::SupportedLanguages| x != lang implies map_contains(
                es,
                x,
            ) == map_contains(oldes, x) by {
                if map_contains(es, x) {
                    let w = choose|w: int| 0 <= w < es.len() && (#[trigger] es[w]).0 == x;
                    assert(w < oldes.len());
                    assert(oldes[w].0 == x);
                }
                if map_contains(oldes, x) {
                    let w = choose|w: int| 0 <= w < oldes.len() && (#[trigger] oldes[w]).0 == x;
                    assert(es[w].0 == x);
                }
            };
        }
    }
}

/// Requests are framed and written in the order their ids were acquired:
/// of any two requests on one session, the one with the smaller index in
/// the write log has the smaller id, and conversely.
pub proof fn lemma_write_order<S>(s: &Session<S>, a: int, b: int)
    requires
        s.wf(),
        0 <= a < b < s.sent_ids@.len(),
    ensures
        s.sent_ids@[a] < s.sent_ids@[b],
{
}

/// Ids are never reused within a session: every id ever issued lies below
/// the counter, so each `send_request` returns an id that differs from
/// all earlier ones, and the pending table holds at most one live entry
/// per id.
pub proof fn lemma_ids_never_reused<S>(s: &Session<S>)
    requires
        s.wf(),
    ensures
        forall|i: int| 0 <= i < s.sent_ids@.len() ==> #[trigger] s.sent_ids@[i] < s.next_id,
        forall|i: int, j: int|
            0 <= i < j < s.sent_ids@.len() ==> #[trigger] s.sent_ids@[i] != #[trigger]
            s.sent_ids@[j],
        forall|i: int, j: int|
            0 <= i < j < s.pending@.len() ==> (#[trigger] s.pending@[i]).0 != (#[trigger]
            s.pending@[j]).0,
{
}

} // verus!

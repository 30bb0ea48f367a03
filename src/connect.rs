//! The connect orchestrator's decisions. A connection attempt runs in three
//! phases around a read/write lock on [`ConnectState`]: under the read lock
//! the routes are put in ledger order ([`ConnectState::start_attempt`]);
//! without touching the state, the routes are tried one after another
//! ([`Attempt`]), each failure being classified by the caller; then, the read
//! lock released, the batch of outcomes is applied under a fresh write lock
//! ([`ConnectState::complete_attempt`]). No step upgrades a held read lock.
use crate::ledger::{apply_all, route_delay, ConnectionOutcomeParams, ConnectionOutcomes, OutcomeRecord, OutcomeUpdate};
use crate::route::{opt_view, UnresolvedRouteDescription, WebSocketServiceRoute};
use std::ops::ControlFlow;
use std::time::Duration;
use vstd::prelude::*;

verus! {

/// Why a multi-route attempt ended without a connection.
#[derive(Clone, Debug, PartialEq, Eq)]
pub enum ConnectError<E> {
    /// There was no route to try.
    NoResolvedRoutes,
    /// Every route was tried and failed, and the caller chose to go on each time.
    AllAttemptsFailed,
    /// The caller chose to stop after a failure, with this error.
    FatalConnect(E),
}

/// An error, or the overall timeout with the duration it allowed.
#[derive(Debug, PartialEq, Eq)]
pub enum TimeoutOr<E> {
    Timeout { attempt_duration: Duration },
    Other(E),
}

/// The configuration a [`ConnectState`] is made from.
#[derive(Clone, Copy, Debug, PartialEq, Eq)]
pub struct Config {
    pub connect_params: ConnectionOutcomeParams,
    pub connect_timeout: Duration,
}

/// The log-safe description of the route that a connection went through.
#[derive(Clone, Debug, PartialEq, Eq)]
pub struct RouteInfo {
    pub unresolved: UnresolvedRouteDescription,
}

impl RouteInfo {
    /// The route as it may be written to a log.
    pub fn to_log_string(&self) -> (r: String)
        ensures
            r@ == crate::route::describe(
                self.unresolved.host@,
                self.unresolved.port,
                opt_view(self.unresolved.front_name),
            ),
    {
        self.unresolved.to_log_string()
    }
}

/// `info` describes `route`.
pub open spec fn describes(info: RouteInfo, route: WebSocketServiceRoute) -> bool {
    &&& info.unresolved.host@ == route.host@
    &&& info.unresolved.port == route.port
    &&& opt_view(info.unresolved.front_name) == opt_view(route.front_name)
}

/// What the driver of an attempt does next.
pub enum AttemptStep<E> {
    /// Wait `delay` milliseconds, then connect through route number `route`.
    Connect { route: usize, delay: u64 },
    /// The attempt is over.
    Done(Result<RouteInfo, ConnectError<E>>),
}

/// The indices `i < n` whose delay is zero (`ready`) or not (`!ready`), in
/// increasing order.
pub open spec fn indices_where(delays: Seq<u64>, ready: bool, n: nat) -> Seq<usize>
    decreases n,
{
    if n == 0 {
        seq![]
    } else {
        let prev = indices_where(delays, ready, (n - 1) as nat);
        if (delays[n - 1] == 0) == ready {
            prev.push((n - 1) as usize)
        } else {
            prev
        }
    }
}

/// The order in which routes are tried: those that the ledger does not delay
/// first, then the delayed ones, each group in the provider's order.
pub open spec fn ledger_order(delays: Seq<u64>) -> Seq<usize> {
    indices_where(delays, true, delays.len()) + indices_where(delays, false, delays.len())
}

proof fn lemma_indices(delays: Seq<u64>, ready: bool, n: nat)
    requires
        n <= delays.len(),
        delays.len() <= usize::MAX,
    ensures
        indices_where(delays, ready, n).len() <= n,
        forall|j: int|
            0 <= j < indices_where(delays, ready, n).len() ==> {
                let x = #[trigger] indices_where(delays, ready, n)[j];
                &&& x < n
                &&& (delays[x as int] == 0) == ready
            },
        forall|j: int, k: int|
            0 <= j < k < indices_where(delays, ready, n).len() ==> #[trigger] indices_where(
                delays,
                ready,
                n,
            )[j] < #[trigger] indices_where(delays, ready, n)[k],
        forall|i: int|
            0 <= i < n && (delays[i] == 0) == ready ==> #[trigger] indices_where(
                delays,
                ready,
                n,
            ).contains(i as usize),
    decreases n,
{
    if n > 0 {
        lemma_indices(delays, ready, (n - 1) as nat);
        let prev = indices_where(delays, ready, (n - 1) as nat);
        let cur = indices_where(delays, ready, n);
        assert forall|j: int| 0 <= j < cur.len() implies #[trigger] cur[j] < n && (delays[cur[j] as int]
            == 0) == ready by {
            if j < prev.len() {
                assert(cur[j] == prev[j]);
            }
        }
        assert forall|j: int, k: int| 0 <= j < k < cur.len() implies #[trigger] cur[j] < #[trigger] cur[k] by {
            assert(cur[j] == prev[j]);
            if k < prev.len() {
                assert(cur[k] == prev[k]);
            }
        }
        assert forall|i: int| 0 <= i < n && (delays[i] == 0) == ready implies #[trigger] cur.contains(
            i as usize,
        ) by {
            if i < n - 1 {
                assert(prev.contains(i as usize));
                let j = choose|j: int| 0 <= j < prev.len() && prev[j] == i as usize;
                assert(cur[j] == prev[j]);
            } else {
                assert(cur[cur.len() - 1] == i as usize);
            }
        }
    }
}

proof fn lemma_indices_split(delays: Seq<u64>, n: nat)
    requires
        n <= delays.len(),
    ensures
        indices_where(delays, true, n).len() + indices_where(delays, false, n).len() == n,
    decreases n,
{
    if n > 0 {
        lemma_indices_split(delays, (n - 1) as nat);
    }
}

/// The ledger order tries every route exactly once.
pub proof fn lemma_ledger_order_permutes(delays: Seq<u64>)
    requires
        delays.len() <= usize::MAX,
    ensures
        ledger_order(delays).len() == delays.len(),
        forall|j: int|
            0 <= j < delays.len() ==> #[trigger] ledger_order(delays)[j] < delays.len(),
        forall|i: int| 0 <= i < delays.len() ==> #[trigger] ledger_order(delays).contains(i as usize),
        ledger_order(delays).no_duplicates(),
{
    let n = delays.len();
    let a = indices_where(delays, true, n);
    let b = indices_where(delays, false, n);
    let o = ledger_order(delays);
    lemma_indices(delays, true, n);
    lemma_indices(delays, false, n);
    lemma_indices_split(delays, n);
    assert forall|j: int| 0 <= j < n implies #[trigger] o[j] < n by {
        if j >= a.len() {
            assert(o[j] == b[j - a.len()]);
        }
    }
    assert forall|i: int| 0 <= i < n implies #[trigger] o.contains(i as usize) by {
        if delays[i] == 0 {
            assert(a.contains(i as usize));
            let j = choose|j: int| 0 <= j < a.len() && a[j] == i as usize;
            assert(o[j] == a[j]);
        } else {
            assert(b.contains(i as usize));
            let j = choose|j: int| 0 <= j < b.len() && b[j] == i as usize;
            assert(o[a.len() + j] == b[j]);
        }
    }
    assert forall|j: int, k: int| 0 <= j < o.len() && 0 <= k < o.len() && j != k implies o[j]
        != o[k] by {
        if j < a.len() && k < a.len() {
            if j < k {
                assert(a[j] < a[k]);
            } else {
                assert(a[k] < a[j]);
            }
        } else if j >= a.len() && k >= a.len() {
            assert(o[j] == b[j - a.len()]);
            assert(o[k] == b[k - a.len()]);
            if j < k {
                assert(b[j - a.len()] < b[k - a.len()]);
            } else {
                assert(b[k - a.len()] < b[j - a.len()]);
            }
        } else if j < a.len() {
            assert(o[k] == b[k - a.len()]);
            assert(delays[a[j] as int] == 0);
            assert(delays[b[k - a.len()] as int] != 0);
        } else {
            assert(o[j] == b[j - a.len()]);
            assert(delays[a[k] as int] == 0);
            assert(delays[b[j - a.len()] as int] != 0);
        }
    }
}

/// One multi-route attempt in progress: the routes, the order to try them
/// in, how many have been started, and the outcomes recorded so far.
pub struct Attempt {
    routes: Vec<WebSocketServiceRoute>,
    delays: Vec<u64>,
    order: Vec<usize>,
    started: usize,
    finished: bool,
    updates: Vec<OutcomeUpdate>,
}

impl Attempt {
    pub closed spec fn spec_routes(&self) -> Seq<WebSocketServiceRoute> {
        self.routes@
    }

    pub closed spec fn spec_delays(&self) -> Seq<u64> {
        self.delays@
    }

    pub closed spec fn spec_order(&self) -> Seq<usize> {
        self.order@
    }

    /// How many routes have been started.
    pub closed spec fn spec_started(&self) -> nat {
        self.started as nat
    }

    pub closed spec fn spec_finished(&self) -> bool {
        self.finished
    }

    /// The outcomes recorded so far, one per route that finished.
    pub closed spec fn spec_updates(&self) -> Seq<OutcomeUpdate> {
        self.updates@
    }

    pub closed spec fn wf(&self) -> bool {
        &&& self.delays@.len() == self.routes@.len()
        &&& self.order@.len() == self.routes@.len()
        &&& forall|j: int| 0 <= j < self.order@.len() ==> #[trigger] self.order@[j] < self.routes@.len()
        &&& self.started <= self.order@.len()
    }

    /// A route has been started and its outcome is awaited.
    pub open spec fn spec_in_progress(&self) -> bool {
        self.spec_started() > 0 && !self.spec_finished()
    }

    /// The route whose outcome is awaited.
    pub open spec fn spec_current(&self) -> WebSocketServiceRoute {
        self.spec_routes()[self.spec_order()[self.spec_started() - 1] as int]
    }

    /// No route has been started and the attempt is not over.
    pub fn is_fresh(&self) -> (r: bool)
        ensures
            r == (self.spec_started() == 0 && !self.spec_finished()),
    {
        self.started == 0 && !self.finished
    }

    pub fn is_in_progress(&self) -> (r: bool)
        ensures
            r == self.spec_in_progress(),
    {
        self.started > 0 && !self.finished
    }

    /// The route with the given index in the provider's order.
    pub fn route(&self, index: usize) -> (r: &WebSocketServiceRoute)
        requires
            index < self.spec_routes().len(),
        ensures
            *r == self.spec_routes()[index as int],
    {
        &self.routes[index]
    }

    /// The order in which the routes are tried, by index.
    pub fn order(&self) -> (r: &Vec<usize>)
        ensures
            r@ == self.spec_order(),
    {
        &self.order
    }

    /// The outcomes recorded so far.
    pub fn updates(&self) -> (r: &Vec<OutcomeUpdate>)
        ensures
            r@ == self.spec_updates(),
    {
        &self.updates
    }

    fn next_connect<E>(&mut self) -> (r: AttemptStep<E>)
        requires
            old(self).wf(),
            old(self).spec_started() < old(self).spec_order().len(),
        ensures
            final(self).wf(),
            final(self).spec_started() == old(self).spec_started() + 1,
            final(self).spec_routes() == old(self).spec_routes(),
            final(self).spec_delays() == old(self).spec_delays(),
            final(self).spec_order() == old(self).spec_order(),
            final(self).spec_updates() == old(self).spec_updates(),
            final(self).spec_finished() == old(self).spec_finished(),
            r == (AttemptStep::<E>::Connect {
                route: old(self).spec_order()[old(self).spec_started() as int],
                delay: old(self).spec_delays()[old(self).spec_order()[old(self).spec_started() as int] as int],
            }),
    {
        let route = self.order[self.started];
        assert(self.started < self.order.len());
        self.started = self.started + 1;
        AttemptStep::Connect { route, delay: self.delays[route] }
    }

    /// Starts the attempt: the first route in order, or the end where there
    /// is none.
    pub fn begin<E>(&mut self) -> (r: AttemptStep<E>)
        requires
            old(self).wf(),
            old(self).spec_started() == 0,
            !old(self).spec_finished(),
        ensures
            final(self).wf(),
            final(self).spec_routes() == old(self).spec_routes(),
            final(self).spec_delays() == old(self).spec_delays(),
            final(self).spec_order() == old(self).spec_order(),
            final(self).spec_updates() == old(self).spec_updates(),
            old(self).spec_order().len() == 0 ==> {
                &&& final(self).spec_finished()
                &&& r matches AttemptStep::Done(Err(ConnectError::NoResolvedRoutes))
            },
            old(self).spec_order().len() > 0 ==> {
                &&& final(self).spec_in_progress()
                &&& final(self).spec_started() == 1
                &&& r == (AttemptStep::<E>::Connect {
                    route: old(self).spec_order()[0],
                    delay: old(self).spec_delays()[old(self).spec_order()[0] as int],
                })
            },
    {
        if self.order.len() == 0 {
            self.finished = true;
            AttemptStep::Done(Err(ConnectError::NoResolvedRoutes))
        } else {
            self.next_connect()
        }
    }

    /// The route in progress connected at `finished_at`: the attempt ends
    /// with its description, and its success is recorded.
    pub fn on_connected<E>(&mut self, finished_at: u64) -> (r: AttemptStep<E>)
        requires
            old(self).wf(),
            old(self).spec_in_progress(),
        ensures
            final(self).wf(),
            final(self).spec_finished(),
            final(self).spec_routes() == old(self).spec_routes(),
            final(self).spec_delays() == old(self).spec_delays(),
            final(self).spec_order() == old(self).spec_order(),
            final(self).spec_started() == old(self).spec_started(),
            final(self).spec_updates() == old(self).spec_updates().push(
                OutcomeUpdate {
                    route: old(self).spec_current().id,
                    record: OutcomeRecord { finished_at, success: true },
                },
            ),
            r matches AttemptStep::Done(Ok(info)) && describes(info, old(self).spec_current()),
    {
        let index = self.order[self.started - 1];
        let route = &self.routes[index];
        self.updates.push(
            OutcomeUpdate { route: route.id, record: OutcomeRecord { finished_at, success: true } },
        );
        let info = RouteInfo { unresolved: route.description() };
        self.finished = true;
        AttemptStep::Done(Ok(info))
    }

    /// The route in progress failed at `finished_at`, and the caller decided
    /// whether to go on. The failure is recorded; a `Break` ends the attempt
    /// with its error; otherwise the next route in order is started, or the
    /// attempt ends when none is left.
    pub fn on_failed<E>(&mut self, decision: ControlFlow<E>, finished_at: u64) -> (r: AttemptStep<
        E,
    >)
        requires
            old(self).wf(),
            old(self).spec_in_progress(),
        ensures
            final(self).wf(),
            final(self).spec_routes() == old(self).spec_routes(),
            final(self).spec_delays() == old(self).spec_delays(),
            final(self).spec_order() == old(self).spec_order(),
            final(self).spec_updates() == old(self).spec_updates().push(
                OutcomeUpdate {
                    route: old(self).spec_current().id,
                    record: OutcomeRecord { finished_at, success: false },
                },
            ),
            match decision {
                ControlFlow::Break(e) => {
                    &&& final(self).spec_finished()
                    &&& final(self).spec_started() == old(self).spec_started()
                    &&& r == AttemptStep::<E>::Done(Err(ConnectError::FatalConnect(e)))
                },
                ControlFlow::Continue(()) => if old(self).spec_started()
                    < old(self).spec_order().len() {
                    &&& final(self).spec_in_progress()
                    &&& final(self).spec_started() == old(self).spec_started() + 1
                    &&& r == (AttemptStep::<E>::Connect {
                        route: old(self).spec_order()[old(self).spec_started() as int],
                        delay: old(self).spec_delays()[old(self).spec_order()[old(
                            self,
                        ).spec_started() as int] as int],
                    })
                } else {
                    &&& final(self).spec_finished()
                    &&& final(self).spec_started() == old(self).spec_started()
                    &&& r matches AttemptStep::Done(Err(ConnectError::AllAttemptsFailed))
                },
            },
    {
        let index = self.order[self.started - 1];
        let id = self.routes[index].id;
        self.updates.push(
            OutcomeUpdate { route: id, record: OutcomeRecord { finished_at, success: false } },
        );
        match decision {
            ControlFlow::Break(e) => {
                self.finished = true;
                AttemptStep::Done(Err(ConnectError::FatalConnect(e)))
            },
            ControlFlow::Continue(()) => {
                if self.started < self.order.len() {
                    self.next_connect()
                } else {
                    self.finished = true;
                    AttemptStep::Done(Err(ConnectError::AllAttemptsFailed))
                }
            },
        }
    }
}

/// Endpoint-agnostic state shared by the connection attempts of one client:
/// the overall timeout and the outcome ledger.
pub struct ConnectState {
    connect_timeout: Duration,
    attempts_record: ConnectionOutcomes,
}

impl ConnectState {
    pub closed spec fn spec_record(&self) -> ConnectionOutcomes {
        self.attempts_record
    }

    /// The time allowed for each multi-route attempt.
    pub closed spec fn spec_connect_timeout(&self) -> Duration {
        self.connect_timeout
    }

    pub fn connect_timeout(&self) -> (r: Duration)
        ensures
            r == self.spec_connect_timeout(),
    {
        self.connect_timeout
    }

    /// State with an empty ledger.
    pub fn new(config: Config) -> (r: Self)
        ensures
            r.spec_connect_timeout() == config.connect_timeout,
            r.spec_record()@ == Map::<u64, OutcomeRecord>::empty(),
            r.spec_record().spec_params() == config.connect_params,
    {
        let Config { connect_params, connect_timeout } = config;
        ConnectState { connect_timeout, attempts_record: ConnectionOutcomes::new(connect_params) }
    }

    pub fn attempts_record(&self) -> (r: &ConnectionOutcomes)
        ensures
            *r == self.spec_record(),
    {
        &self.attempts_record
    }

    /// The read phase: fixes the routes of one attempt and the order to try
    /// them in at time `now`, reading the ledger and changing nothing.
    pub fn start_attempt(&self, routes: Vec<WebSocketServiceRoute>, now: u64) -> (r: Attempt)
        ensures
            r.wf(),
            r.spec_routes() == routes@,
            r.spec_delays().len() == routes@.len(),
            forall|i: int|
                0 <= i < routes@.len() ==> #[trigger] r.spec_delays()[i] as int == route_delay(
                    self.spec_record()@,
                    self.spec_record().spec_params(),
                    routes@[i].id,
                    now,
                ),
            r.spec_order() == ledger_order(r.spec_delays()),
            r.spec_started() == 0,
            !r.spec_finished(),
            r.spec_updates() == Seq::<OutcomeUpdate>::empty(),
    {
        let mut delays: Vec<u64> = Vec::new();
        let mut i: usize = 0;
        while i < routes.len()
            invariant
                i <= routes@.len(),
                delays@.len() == i,
                forall|k: int|
                    0 <= k < i ==> #[trigger] delays@[k] as int == route_delay(
                        self.attempts_record@,
                        self.attempts_record.spec_params(),
                        routes@[k].id,
                        now,
                    ),
            decreases routes@.len() - i,
        {
            let d = self.attempts_record.delay_for(routes[i].id, now);
            delays.push(d);
            i = i + 1;
        }
        let mut ready: Vec<usize> = Vec::new();
        let mut delayed: Vec<usize> = Vec::new();
        let mut j: usize = 0;
        while j < delays.len()
            invariant
                j <= delays@.len(),
                ready@ == indices_where(delays@, true, j as nat),
                delayed@ == indices_where(delays@, false, j as nat),
            decreases delays@.len() - j,
        {
            if delays[j] == 0 {
                ready.push(j);
            } else {
                delayed.push(j);
            }
            j = j + 1;
        }
        proof {
            lemma_ledger_order_permutes(delays@);
        }
        ready.append(&mut delayed);
        assert(ready@ =~= ledger_order(delays@));
        Attempt { routes, delays, order: ready, started: 0, finished: false, updates: Vec::new() }
    }

    /// The write phase, entered after the read lock is released. Where the
    /// attempt ended by itself (`outcome` is `Some`) its outcomes are applied
    /// to the ledger and its result passed on; where the timeout fired first
    /// (`None`) the ledger is left as it is and the timeout is reported with
    /// the configured duration.
    pub fn complete_attempt<E>(
        &mut self,
        attempt: &Attempt,
        outcome: Option<Result<RouteInfo, ConnectError<E>>>,
    ) -> (r: Result<RouteInfo, TimeoutOr<ConnectError<E>>>)
        ensures
            final(self).spec_connect_timeout() == old(self).spec_connect_timeout(),
            final(self).spec_record().spec_params() == old(self).spec_record().spec_params(),
            match outcome {
                None => {
                    &&& final(self).spec_record()@ == old(self).spec_record()@
                    &&& r == Err::<RouteInfo, _>(
                        TimeoutOr::<ConnectError<E>>::Timeout {
                            attempt_duration: old(self).spec_connect_timeout(),
                        },
                    )
                },
                Some(res) => {
                    &&& final(self).spec_record()@ == apply_all(
                        old(self).spec_record()@,
                        attempt.spec_updates(),
                    )
                    &&& match res {
                        Ok(info) => r == Ok::<_, TimeoutOr<ConnectError<E>>>(info),
                        Err(e) => r == Err::<RouteInfo, _>(TimeoutOr::Other(e)),
                    }
                },
            },
    {
        match outcome {
            None => Err(TimeoutOr::Timeout { attempt_duration: self.connect_timeout }),
            Some(res) => {
                self.attempts_record.apply_outcome_updates(&attempt.updates);
                match res {
                    Ok(info) => Ok(info),
                    Err(e) => Err(TimeoutOr::Other(e)),
                }
            },
        }
    }
}

} // verus!

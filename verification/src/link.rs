//! What holds of an API and its worker together, with the two channels between
//! them.
use crate::api::{ApiState, ApiToWorker, IpfsApiRequest, WaitEvent, WorkerToApi};
use crate::offchain::{IpfsRequest, IpfsRequestId};
use crate::worker::{report, rotated, Incoming, IpfsWorkerRequest, Polled, WorkerState};
use vstd::prelude::*;
use vstd::seq_lib::*;

verus! {

/// The requests that messages to the worker are about.
pub open spec fn asked(messages: Seq<ApiToWorker>) -> Seq<IpfsRequestId> {
    messages.map_values(|message: ApiToWorker| message.id())
}

/// The requests that messages to the API are about.
pub open spec fn answered(messages: Seq<WorkerToApi>) -> Seq<IpfsRequestId> {
    messages.map_values(|message: WorkerToApi| message.id())
}

/// The requests that a worker is running.
pub open spec fn running<F>(requests: Seq<(IpfsRequestId, IpfsWorkerRequest<F>)>) -> Seq<
    IpfsRequestId,
> {
    requests.map_values(|request: (IpfsRequestId, IpfsWorkerRequest<F>)| request.0)
}

/// How often `id` occurs in `ids`.
pub open spec fn times(ids: Seq<IpfsRequestId>, id: IpfsRequestId) -> nat {
    ids.to_multiset().count(id)
}

/// An API, its worker, and what is on the way between them.
#[verifier::ext_equal]
pub struct Link<F> {
    /// The API.
    pub api: ApiState,
    /// The channel to the worker, oldest message first.
    pub to_worker: Seq<ApiToWorker>,
    /// The worker.
    pub worker: WorkerState<F>,
    /// The channel to the API, oldest message first.
    pub to_api: Seq<WorkerToApi>,
}

/// One thing that an API and its worker do.
pub enum Step<F> {
    /// A request is started.
    Start(IpfsRequest),
    /// The API's outbox is sent.
    SendToWorker,
    /// The worker is polled.
    Poll(Seq<Polled>, Incoming<F>),
    /// The worker's outbox is sent.
    SendToApi,
    /// A wait begins, passes its deadline, or finds the worker gone.
    Wait(Seq<IpfsRequestId>, WaitEvent),
    /// A wait gets the next message.
    Receive(Seq<IpfsRequestId>),
}

impl<F> Link<F> {
    /// How often request `id` is on its way through the channels, the outboxes
    /// and the worker.
    pub open spec fn in_flight(self, id: IpfsRequestId) -> nat {
        times(asked(self.api.to_worker), id) + times(asked(self.to_worker), id) + times(
            running(self.worker.requests),
            id,
        ) + times(answered(self.worker.to_api), id) + times(answered(self.to_api), id)
    }

    /// Every request that the API takes to be with the worker is on its way
    /// exactly once, no other request is on its way, and the worker runs nothing
    /// that is over.
    pub open spec fn sound(self) -> bool {
        &&& self.api.wf()
        &&& forall|id: IpfsRequestId| #[trigger]
            self.in_flight(id) == if self.api.dispatched(id) {
                1nat
            } else {
                0nat
            }
        &&& forall|n: int|
            0 <= n < self.worker.requests.len() ==> (#[trigger] self.worker.requests[n]).1
                is Dispatched
    }

    /// `step` can happen.
    pub open spec fn allows(self, step: Step<F>) -> bool {
        match step {
            Step::Start(_) => self.api.next_id < u16::MAX,
            Step::SendToWorker => true,
            Step::Poll(polled, incoming) => {
                &&& polled.len() == self.worker.requests.len()
                &&& incoming matches Incoming::Dispatch { id, .. } ==> self.to_worker.len() > 0
                    && self.to_worker[0].id() == id
            },
            Step::SendToApi => true,
            Step::Wait(ids, event) => !(event is Message),
            Step::Receive(ids) => self.to_api.len() > 0,
        }
    }

    /// The state after `step`.
    pub open spec fn next(self, step: Step<F>) -> Link<F> {
        match step {
            Step::Start(request) => Link { api: self.api.started(request), ..self },
            Step::SendToWorker => Link {
                api: ApiState { to_worker: Seq::empty(), ..self.api },
                to_worker: self.to_worker + self.api.to_worker,
                ..self
            },
            Step::Poll(polled, incoming) => Link {
                worker: self.worker.swept(polled).accepted(incoming),
                to_worker: if incoming is Dispatch {
                    self.to_worker.drop_first()
                } else {
                    self.to_worker
                },
                ..self
            },
            Step::SendToApi => Link {
                worker: WorkerState { to_api: Seq::empty(), ..self.worker },
                to_api: self.to_api + self.worker.to_api,
                ..self
            },
            Step::Wait(ids, event) => Link { api: self.api.waited(ids, event).0, ..self },
            Step::Receive(ids) => Link {
                api: self.api.waited(ids, WaitEvent::Message(self.to_api[0])).0,
                to_api: self.to_api.drop_first(),
                ..self
            },
        }
    }

    /// Each of the steps can happen after those before it.
    pub open spec fn allows_all(self, steps: Seq<Step<F>>) -> bool
        decreases steps.len(),
    {
        steps.len() == 0 || (self.allows_all(steps.drop_last()) && self.after(
            steps.drop_last(),
        ).allows(steps.last()))
    }

    /// The state after all of the steps.
    pub open spec fn after(self, steps: Seq<Step<F>>) -> Link<F>
        decreases steps.len(),
    {
        if steps.len() == 0 {
            self
        } else {
            self.after(steps.drop_last()).next(steps.last())
        }
    }
}

/// Nothing is on its way.
pub open spec fn idle<F>(link: Link<F>) -> bool {
    &&& link.api.to_worker.len() == 0
    &&& link.to_worker.len() == 0
    &&& link.worker.requests.len() == 0
    &&& link.worker.to_api.len() == 0
    &&& link.to_api.len() == 0
}

/// Nothing has happened yet.
pub open spec fn fresh<F>(link: Link<F>) -> bool {
    &&& link.api.requests == Map::<u16, IpfsApiRequest>::empty()
    &&& idle(link)
}

pub(crate) proof fn lemma_times_add(a: Seq<IpfsRequestId>, b: Seq<IpfsRequestId>, id: IpfsRequestId)
    ensures
        times(a + b, id) == times(a, id) + times(b, id),
{
    lemma_multiset_commutative(a, b);
}

pub(crate) proof fn lemma_times_one(one: IpfsRequestId, id: IpfsRequestId)
    ensures
        times(seq![one], id) == if one == id {
            1nat
        } else {
            0nat
        },
{
    broadcast use group_to_multiset_ensures;

    assert(seq![one] == Seq::<IpfsRequestId>::empty().push(one));
    assert(Seq::<IpfsRequestId>::empty().to_multiset().count(id) == 0) by {
        assert(!Seq::<IpfsRequestId>::empty().contains(id));
    }
}

pub(crate) proof fn lemma_times_empty(id: IpfsRequestId)
    ensures
        times(Seq::empty(), id) == 0,
{
    broadcast use group_to_multiset_ensures;

    assert(!Seq::<IpfsRequestId>::empty().contains(id));
}

/// Moving the last element to the front changes no count.
proof fn lemma_times_rotated<F>(
    requests: Seq<(IpfsRequestId, IpfsWorkerRequest<F>)>,
    id: IpfsRequestId,
)
    ensures
        times(running(rotated(requests)), id) == times(running(requests), id),
{
    if requests.len() > 0 {
        let last = requests.last().0;
        let rest = running(requests.drop_last());
        assert(running(requests) == rest + seq![last]);
        assert(running(rotated(requests)) == seq![last] + rest);
        lemma_times_add(rest, seq![last], id);
        lemma_times_add(seq![last], rest, id);
    } else {
        assert(rotated(requests) == requests);
    }
}

/// A sweep keeps or reports each request.
pub(crate) proof fn lemma_times_swept<F>(
    worker: WorkerState<F>,
    polled: Seq<Polled>,
    n: int,
    id: IpfsRequestId,
)
    requires
        0 <= n <= worker.requests.len(),
        polled.len() == worker.requests.len(),
        forall|m: int|
            0 <= m < worker.requests.len() ==> (#[trigger] worker.requests[m]).1 is Dispatched,
    ensures
        times(running(worker.kept(polled, n)), id) + times(
            answered(worker.reports(polled, n)),
            id,
        ) == times(running(worker.requests.skip(n)), id),
        forall|m: int|
            0 <= m < worker.kept(polled, n).len() ==> (#[trigger] worker.kept(polled, n)[m]).1
                is Dispatched,
    decreases worker.requests.len() - n,
{
    let kept = worker.kept(polled, n);
    let reports = worker.reports(polled, n);
    if n == worker.requests.len() {
        assert(running(kept) == Seq::<IpfsRequestId>::empty());
        assert(answered(reports) == Seq::<IpfsRequestId>::empty());
        assert(running(worker.requests.skip(n)) == Seq::<IpfsRequestId>::empty());
        lemma_times_empty(id);
    } else {
        let one = worker.requests[n].0;
        let later = worker.kept(polled, n + 1);
        lemma_times_swept(worker, polled, n + 1, id);
        lemma_times_rotated(later, id);
        assert(running(worker.requests.skip(n)) == seq![one] + running(
            worker.requests.skip(n + 1),
        ));
        lemma_times_add(seq![one], running(worker.requests.skip(n + 1)), id);
        assert forall|m: int| 0 <= m < rotated(later).len() implies (#[trigger] rotated(
            later,
        )[m]).1 is Dispatched by {
            if m == 0 {
                assert(rotated(later)[m] == later[later.len() - 1]);
            } else {
                assert(rotated(later)[m] == later[m - 1]);
            }
        }
        if worker.goes_on(polled, n) {
            assert(running(kept) == running(rotated(later)) + seq![one]);
            lemma_times_add(running(rotated(later)), seq![one], id);
        } else {
            let before = worker.reports(polled, n + 1);
            assert(answered(reports) == answered(before) + seq![one]);
            lemma_times_add(answered(before), seq![one], id);
        }
    }
}

/// Whatever the API and its worker do, every request that the API takes to be with
/// the worker stays on its way exactly once: none is lost and none is run twice.
pub proof fn law_step_keeps_sound<F>(link: Link<F>, step: Step<F>)
    requires
        link.sound(),
        link.allows(step),
    ensures
        link.next(step).sound(),
{
    let next = link.next(step);
    assert(next.api.wf());
    match step {
        Step::Poll(polled, incoming) => {
            lemma_times_swept(link.worker, polled, 0, IpfsRequestId(0));
        },
        _ => {},
    }
    assert forall|id: IpfsRequestId| #[trigger] next.in_flight(id) == if next.api.dispatched(id) {
        1nat
    } else {
        0nat
    } by {
        assert(link.in_flight(id) == if link.api.dispatched(id) {
            1nat
        } else {
            0nat
        });
        lemma_times_empty(id);
        match step {
            Step::Start(request) => {
                let new = IpfsRequestId(link.api.next_id);
                assert(asked(next.api.to_worker) == asked(link.api.to_worker) + seq![new]);
                lemma_times_add(asked(link.api.to_worker), seq![new], id);
                lemma_times_one(new, id);
                assert(!link.api.dispatched(new));
            },
            Step::SendToWorker => {
                assert(asked(next.to_worker) == asked(link.to_worker) + asked(link.api.to_worker));
                lemma_times_add(asked(link.to_worker), asked(link.api.to_worker), id);
                assert(asked(next.api.to_worker) == Seq::<IpfsRequestId>::empty());
            },
            Step::Poll(polled, incoming) => {
                let swept = link.worker.swept(polled);
                let reports = link.worker.reports(polled, 0);
                lemma_times_swept(link.worker, polled, 0, id);
                assert(link.worker.requests.skip(0) == link.worker.requests);
                assert(answered(swept.to_api) == answered(link.worker.to_api) + answered(reports));
                lemma_times_add(answered(link.worker.to_api), answered(reports), id);
                if let Incoming::Dispatch { id: new, future } = incoming {
                    assert(running(next.worker.requests) == running(swept.requests) + seq![new]);
                    lemma_times_add(running(swept.requests), seq![new], id);
                    assert(asked(link.to_worker) == seq![new] + asked(next.to_worker));
                    lemma_times_add(seq![new], asked(next.to_worker), id);
                }
            },
            Step::SendToApi => {
                assert(answered(next.to_api) == answered(link.to_api) + answered(
                    link.worker.to_api,
                ));
                lemma_times_add(answered(link.to_api), answered(link.worker.to_api), id);
                assert(answered(next.worker.to_api) == Seq::<IpfsRequestId>::empty());
            },
            Step::Wait(ids, event) => {
                assert(next.api.dispatched(id) == link.api.dispatched(id));
            },
            Step::Receive(ids) => {
                let settled = link.to_api[0].id();
                law_messages_are_expected(link);
                assert(answered(link.to_api) == seq![settled] + answered(next.to_api));
                lemma_times_add(seq![settled], answered(next.to_api), id);
                lemma_times_one(settled, id);
                let received = link.api.received(link.to_api[0]);
                assert(next.api.dispatched(id) == received.dispatched(id));
            },
        }
    }
}

/// A message from the worker is about a request that the API takes to be with the
/// worker.
pub proof fn law_messages_are_expected<F>(link: Link<F>)
    requires
        link.sound(),
        link.to_api.len() > 0,
    ensures
        link.api.dispatched(link.to_api[0].id()),
{
    let id = link.to_api[0].id();
    let rest = answered(link.to_api.drop_first());
    assert(answered(link.to_api) == seq![id] + rest);
    lemma_times_add(seq![id], rest, id);
    lemma_times_one(id, id);
    assert(link.in_flight(id) >= 1);
}

/// A request that reaches the worker is none that the worker is running already.
pub proof fn law_dispatched_requests_are_new<F>(link: Link<F>)
    requires
        link.sound(),
        link.to_worker.len() > 0,
    ensures
        !running(link.worker.requests).contains(link.to_worker[0].id()),
{
    broadcast use group_to_multiset_ensures;

    let id = link.to_worker[0].id();
    let rest = asked(link.to_worker.drop_first());
    assert(asked(link.to_worker) == seq![id] + rest);
    lemma_times_add(seq![id], rest, id);
    lemma_times_one(id, id);
    assert(link.in_flight(id) <= 1);
}

/// With nothing on its way, a wait is over as soon as it begins.
pub proof fn law_idle_waits_are_over<F>(link: Link<F>, ids: Seq<IpfsRequestId>)
    requires
        link.sound(),
        idle(link),
    ensures
        link.api.waited(ids, WaitEvent::Start).1 is Some,
{
    assert forall|i: int| 0 <= i < ids.len() implies !link.api.dispatched(#[trigger] ids[i]) by {
        let none = Seq::<IpfsRequestId>::empty();
        assert(asked(link.api.to_worker) == none);
        assert(asked(link.to_worker) == none);
        assert(running(link.worker.requests) == none);
        assert(answered(link.worker.to_api) == none);
        assert(answered(link.to_api) == none);
        lemma_times_empty(ids[i]);
        assert(link.in_flight(ids[i]) == 0);
    }
}

/// However often the API and its worker act, every request that the API takes to be
/// with the worker stays on its way exactly once.
pub proof fn law_run_keeps_sound<F>(link: Link<F>, steps: Seq<Step<F>>)
    requires
        link.sound(),
        link.allows_all(steps),
    ensures
        link.after(steps).sound(),
    decreases steps.len(),
{
    if steps.len() > 0 {
        law_run_keeps_sound(link, steps.drop_last());
        law_step_keeps_sound(link.after(steps.drop_last()), steps.last());
    }
}

/// From the beginning on, and however often the API and its worker act, every
/// request that the API takes to be with the worker is on its way exactly once.
pub proof fn law_always_sound<F>(link: Link<F>, steps: Seq<Step<F>>)
    requires
        fresh(link),
        link.allows_all(steps),
    ensures
        link.after(steps).sound(),
{
    assert forall|id: IpfsRequestId| #[trigger] link.in_flight(id) == 0nat by {
        let none = Seq::<IpfsRequestId>::empty();
        assert(asked(link.api.to_worker) == none);
        assert(asked(link.to_worker) == none);
        assert(running(link.worker.requests) == none);
        assert(answered(link.worker.to_api) == none);
        assert(answered(link.to_api) == none);
        lemma_times_empty(id);
    }
    law_run_keeps_sound(link, steps);
}

/// A poll of the worker keeps or reports each request that it was running, and it
/// reports none that it was not running.
pub proof fn law_polls_lose_nothing<F>(
    worker: WorkerState<F>,
    polled: Seq<Polled>,
    id: IpfsRequestId,
)
    requires
        polled.len() == worker.requests.len(),
        forall|n: int|
            0 <= n < worker.requests.len() ==> (#[trigger] worker.requests[n]).1 is Dispatched,
    ensures
        times(running(worker.swept(polled).requests), id) + times(
            answered(worker.swept(polled).to_api),
            id,
        ) == times(running(worker.requests), id) + times(answered(worker.to_api), id),
{
    let reports = worker.reports(polled, 0);
    lemma_times_swept(worker, polled, 0, id);
    assert(worker.requests.skip(0) == worker.requests);
    assert(answered(worker.swept(polled).to_api) == answered(worker.to_api) + answered(reports));
    lemma_times_add(answered(worker.to_api), answered(reports), id);
}

/// A sweep reports the result of each computation that has ended under the number of
/// its request.
pub(crate) proof fn lemma_reported<F>(worker: WorkerState<F>, polled: Seq<Polled>, m: int, n: int)
    requires
        0 <= m <= n < worker.requests.len(),
        worker.ended(polled, n),
    ensures
        worker.reports(polled, m).contains(report(worker.requests[n].0, polled[n]->Ready_0)),
    decreases n - m,
{
    let message = report(worker.requests[n].0, polled[n]->Ready_0);
    let reports = worker.reports(polled, m);
    if m == n {
        assert(reports.last() == message);
    } else {
        lemma_reported(worker, polled, m + 1, n);
        let later = worker.reports(polled, m + 1);
        assert(reports[later.index_of(message)] == message);
    }
}

/// However many requests are on their way: the result of a computation is sent to the
/// API under the number of its request.
pub proof fn law_results_reach_the_api<F>(
    link: Link<F>,
    polled: Seq<Polled>,
    incoming: Incoming<F>,
    n: int,
)
    requires
        link.sound(),
        link.allows(Step::Poll(polled, incoming)),
        0 <= n < link.worker.requests.len(),
        polled[n] is Ready,
    ensures
        ({
            let done = link.next(Step::Poll(polled, incoming)).next(Step::SendToApi);
            &&& done.sound()
            &&& done.to_api.contains(report(link.worker.requests[n].0, polled[n]->Ready_0))
        }),
{
    let message = report(link.worker.requests[n].0, polled[n]->Ready_0);
    let reports = link.worker.reports(polled, 0);
    let run = link.next(Step::Poll(polled, incoming));
    let done = run.next(Step::SendToApi);
    law_step_keeps_sound(link, Step::Poll(polled, incoming));
    law_step_keeps_sound(run, Step::SendToApi);
    lemma_reported(link.worker, polled, 0, n);
    let at = link.to_api.len() + link.worker.to_api.len() + reports.index_of(message);
    assert(done.to_api[at] == message);
}

} // verus!

//! Whose answer a request gets, while any number of requests are on their trips.
use crate::api::{ApiToWorker, IpfsApiRequest, IpfsResponse, NodeError, WorkerToApi};
use crate::link::{
    answered, law_messages_are_expected, law_run_keeps_sound, law_step_keeps_sound, running, Link,
    Step,
};
use crate::offchain::{IpfsRequest, IpfsRequestId};
use crate::trip::{asks_for, law_requests_reach_the_worker};
use crate::worker::{
    lemma_kept_was_there, report, Incoming, IpfsWorkerRequest, Polled, WorkerState,
};
use vstd::prelude::*;
use vstd::seq_lib::*;

verus! {

/// The worker runs every request with the computation that was made for its number.
pub open spec fn own_computations<F>(link: Link<F>, made: spec_fn(IpfsRequestId) -> F) -> bool {
    forall|n: int|
        0 <= n < link.worker.requests.len() ==> (#[trigger] link.worker.requests[n]).1
            == IpfsWorkerRequest::Dispatched(made(link.worker.requests[n].0))
}

/// However often the API and its worker act: if every request is dispatched with the
/// computation that was made for its number, it is never run with another one.
pub proof fn law_computations_stay_with_their_numbers<F>(
    link: Link<F>,
    steps: Seq<Step<F>>,
    made: spec_fn(IpfsRequestId) -> F,
)
    requires
        own_computations(link, made),
        link.allows_all(steps),
        forall|i: int|
            0 <= i < steps.len() ==> (#[trigger] steps[i] matches Step::Poll(
                _,
                Incoming::Dispatch { id, future },
            ) ==> future == made(id)),
    ensures
        own_computations(link.after(steps), made),
    decreases steps.len(),
{
    if steps.len() > 0 {
        let before = link.after(steps.drop_last());
        let step = steps.last();
        let earlier = steps.drop_last();
        assert forall|i: int| 0 <= i < earlier.len() implies (#[trigger] earlier[i] matches
            Step::Poll(_, Incoming::Dispatch { id, future }) ==> future == made(id)) by {
            assert(earlier[i] == steps[i]);
        }
        law_computations_stay_with_their_numbers(link, earlier, made);
        assert(steps[steps.len() - 1] == step);
        if let Step::Poll(polled, incoming) = step {
            let next = before.next(step);
            let kept = before.worker.kept(polled, 0);
            assert forall|n: int| 0 <= n < next.worker.requests.len() implies (
            #[trigger] next.worker.requests[n]).1 == IpfsWorkerRequest::Dispatched(
                made(next.worker.requests[n].0),
            ) by {
                if n < kept.len() {
                    assert(next.worker.requests[n] == kept[n]);
                    lemma_kept_was_there(before.worker, polled, 0, n);
                }
            }
        }
    }
}

/// A request that the worker takes on in `step` is run with what the engine does for
/// that request, and a computation that ends in `step` comes to what it has to.
pub open spec fn serves<F>(
    link: Link<F>,
    step: Step<F>,
    engine: spec_fn(IpfsRequest) -> F,
    comes_to: spec_fn(F) -> Result<IpfsResponse, NodeError>,
) -> bool {
    &&& step matches Step::Poll(_, Incoming::Dispatch { future, .. }) ==> {
        &&& link.to_worker.len() > 0
        &&& link.to_worker[0] matches ApiToWorker::Dispatch { request, .. } && future == engine(
            request,
        )
    }
    &&& step matches Step::Poll(polled, _) ==> forall|n: int|
        0 <= n < link.worker.requests.len() ==> (#[trigger] link.worker.requests[n].1 matches
            IpfsWorkerRequest::Dispatched(future) ==> (polled[n] matches Polled::Ready(result)
            ==> result == comes_to(future)))
}

/// So it is in each of the steps.
pub open spec fn always_serves<F>(
    link: Link<F>,
    steps: Seq<Step<F>>,
    engine: spec_fn(IpfsRequest) -> F,
    comes_to: spec_fn(F) -> Result<IpfsResponse, NodeError>,
) -> bool
    decreases steps.len(),
{
    steps.len() == 0 || (always_serves(link, steps.drop_last(), engine, comes_to) && serves(
        link.after(steps.drop_last()),
        steps.last(),
        engine,
        comes_to,
    ))
}

/// Wherever request `id` is met, it is run with `future` or has come to `result`.
pub open spec fn treated_as<F>(
    link: Link<F>,
    id: IpfsRequestId,
    future: F,
    result: Result<IpfsResponse, NodeError>,
) -> bool {
    &&& forall|n: int|
        0 <= n < link.worker.requests.len() && (#[trigger] link.worker.requests[n]).0 == id
            ==> link.worker.requests[n].1 == IpfsWorkerRequest::Dispatched(future)
    &&& forall|n: int|
        0 <= n < link.worker.to_api.len() && (#[trigger] link.worker.to_api[n]).id() == id
            ==> link.worker.to_api[n] == report(id, result)
    &&& forall|n: int|
        0 <= n < link.to_api.len() && (#[trigger] link.to_api[n]).id() == id ==> link.to_api[n]
            == report(id, result)
    &&& link.api.requests.contains_key(id.0) && !(link.api.requests[id.0] is Dispatched)
        ==> link.api.requests[id.0] == report(id, result).outcome()
}

/// What a sweep reports is what computations have come to.
proof fn lemma_reports_are_results<F>(
    worker: WorkerState<F>,
    polled: Seq<Polled>,
    m: int,
    at: int,
)
    requires
        0 <= m <= worker.requests.len(),
        0 <= at < worker.reports(polled, m).len(),
    ensures
        exists|n: int|
            m <= n < worker.requests.len() && #[trigger] worker.ended(polled, n)
                && worker.reports(polled, m)[at] == report(
                worker.requests[n].0,
                polled[n]->Ready_0,
            ),
    decreases worker.requests.len() - m,
{
    let reports = worker.reports(polled, m);
    if worker.ended(polled, m) && at == reports.len() - 1 {
        assert(reports[at] == report(worker.requests[m].0, polled[m]->Ready_0));
    } else {
        assert(reports[at] == worker.reports(polled, m + 1)[at]);
        lemma_reports_are_results(worker, polled, m + 1, at);
    }
}

/// A step treats a request as it was treated before.
proof fn lemma_step_treats<F>(
    link: Link<F>,
    step: Step<F>,
    engine: spec_fn(IpfsRequest) -> F,
    comes_to: spec_fn(F) -> Result<IpfsResponse, NodeError>,
    id: IpfsRequestId,
    request: IpfsRequest,
)
    requires
        link.sound(),
        link.allows(step),
        serves(link, step, engine, comes_to),
        asks_for(link, id, request),
        treated_as(link, id, engine(request), comes_to(engine(request))),
    ensures
        treated_as(link.next(step), id, engine(request), comes_to(engine(request))),
{
    let future = engine(request);
    let result = comes_to(future);
    let next = link.next(step);
    match step {
        Step::Poll(polled, incoming) => {
            let kept = link.worker.kept(polled, 0);
            let reports = link.worker.reports(polled, 0);
            assert forall|n: int|
                0 <= n < next.worker.requests.len() && (#[trigger] next.worker.requests[n]).0
                    == id implies next.worker.requests[n].1 == IpfsWorkerRequest::Dispatched(
                future,
            ) by {
                if n < kept.len() {
                    assert(next.worker.requests[n] == kept[n]);
                    lemma_kept_was_there(link.worker, polled, 0, n);
                } else {
                    assert(link.to_worker[0].id() == id);
                }
            }
            assert forall|n: int|
                0 <= n < next.worker.to_api.len() && (#[trigger] next.worker.to_api[n]).id()
                    == id implies next.worker.to_api[n] == report(id, result) by {
                if n < link.worker.to_api.len() {
                    assert(next.worker.to_api[n] == link.worker.to_api[n]);
                } else {
                    let at = n - link.worker.to_api.len();
                    assert(next.worker.to_api[n] == reports[at]);
                    lemma_reports_are_results(link.worker, polled, 0, at);
                    let m = choose|m: int|
                        0 <= m < link.worker.requests.len() && #[trigger] link.worker.ended(
                            polled,
                            m,
                        ) && reports[at] == report(link.worker.requests[m].0, polled[m]->Ready_0);
                    assert(link.worker.requests[m].0 == id);
                    assert(link.worker.requests[m].1 == IpfsWorkerRequest::Dispatched(future));
                }
            }
        },
        Step::SendToApi => {
            assert forall|n: int|
                0 <= n < next.to_api.len() && (#[trigger] next.to_api[n]).id()
                    == id implies next.to_api[n] == report(id, result) by {
                if n < link.to_api.len() {
                    assert(next.to_api[n] == link.to_api[n]);
                } else {
                    assert(next.to_api[n] == link.worker.to_api[n - link.to_api.len()]);
                }
            }
        },
        Step::Receive(ids) => {
            law_messages_are_expected(link);
            assert forall|n: int|
                0 <= n < next.to_api.len() && (#[trigger] next.to_api[n]).id()
                    == id implies next.to_api[n] == report(id, result) by {
                assert(next.to_api[n] == link.to_api[n + 1]);
            }
        },
        _ => {},
    }
}

/// A request that has just been started is met nowhere but on its way to the worker.
proof fn lemma_new_request_is_treated<F>(
    link: Link<F>,
    request: IpfsRequest,
    future: F,
    result: Result<IpfsResponse, NodeError>,
)
    requires
        link.sound(),
        link.allows(Step::Start(request)),
    ensures
        treated_as(
            link.next(Step::Start(request)),
            IpfsRequestId(link.api.next_id),
            future,
            result,
        ),
{
    broadcast use group_to_multiset_ensures;

    let id = IpfsRequestId(link.api.next_id);
    assert(!link.api.dispatched(id));
    assert(link.in_flight(id) == 0);
    assert forall|n: int| 0 <= n < link.worker.requests.len() implies (
    #[trigger] link.worker.requests[n]).0 != id by {
        if link.worker.requests[n].0 == id {
            assert(running(link.worker.requests)[n] == id);
        }
    }
    assert forall|n: int| 0 <= n < link.worker.to_api.len() implies (
    #[trigger] link.worker.to_api[n]).id() != id by {
        if link.worker.to_api[n].id() == id {
            assert(answered(link.worker.to_api)[n] == id);
        }
    }
    assert forall|n: int| 0 <= n < link.to_api.len() implies (#[trigger] link.to_api[n]).id()
        != id by {
        if link.to_api[n].id() == id {
            assert(answered(link.to_api)[n] == id);
        }
    }
}

proof fn lemma_run_treats<F>(
    link: Link<F>,
    request: IpfsRequest,
    steps: Seq<Step<F>>,
    engine: spec_fn(IpfsRequest) -> F,
    comes_to: spec_fn(F) -> Result<IpfsResponse, NodeError>,
)
    requires
        link.sound(),
        link.allows(Step::Start(request)),
        link.next(Step::Start(request)).allows_all(steps),
        always_serves(link.next(Step::Start(request)), steps, engine, comes_to),
    ensures
        treated_as(
            link.next(Step::Start(request)).after(steps),
            IpfsRequestId(link.api.next_id),
            engine(request),
            comes_to(engine(request)),
        ),
    decreases steps.len(),
{
    let id = IpfsRequestId(link.api.next_id);
    let started = link.next(Step::Start(request));
    if steps.len() == 0 {
        lemma_new_request_is_treated(link, request, engine(request), comes_to(engine(request)));
    } else {
        let before = started.after(steps.drop_last());
        lemma_run_treats(link, request, steps.drop_last(), engine, comes_to);
        law_step_keeps_sound(link, Step::Start(request));
        law_run_keeps_sound(started, steps.drop_last());
        law_requests_reach_the_worker(link, request, steps.drop_last());
        lemma_step_treats(before, steps.last(), engine, comes_to, id, request);
    }
}

/// However many requests are on their way and however their trips interleave: a request
/// is run with what the engine does for that request and for no other, the messages about
/// it tell what that has come to, and so does what the API knows of it.
pub proof fn law_every_request_gets_its_own_answer<F>(
    link: Link<F>,
    request: IpfsRequest,
    steps: Seq<Step<F>>,
    engine: spec_fn(IpfsRequest) -> F,
    comes_to: spec_fn(F) -> Result<IpfsResponse, NodeError>,
)
    requires
        link.sound(),
        link.allows(Step::Start(request)),
        link.next(Step::Start(request)).allows_all(steps),
        always_serves(link.next(Step::Start(request)), steps, engine, comes_to),
    ensures
        ({
            let id = IpfsRequestId(link.api.next_id);
            let end = link.next(Step::Start(request)).after(steps);
            let result = comes_to(engine(request));
            &&& forall|n: int|
                0 <= n < end.worker.requests.len() && (#[trigger] end.worker.requests[n]).0 == id
                    ==> end.worker.requests[n].1 == IpfsWorkerRequest::Dispatched(engine(request))
            &&& forall|n: int|
                0 <= n < end.to_api.len() ==> match #[trigger] end.to_api[n] {
                    WorkerToApi::Response { id: to, value } => to == id ==> result == Ok::<
                        IpfsResponse,
                        NodeError,
                    >(value),
                    WorkerToApi::Fail { id: to, error } => to == id ==> result == Err::<
                        IpfsResponse,
                        NodeError,
                    >(error),
                }
            &&& end.api.requests.contains_key(id.0) ==> match end.api.requests[id.0] {
                IpfsApiRequest::NotDispatched(_) => false,
                IpfsApiRequest::Dispatched => true,
                IpfsApiRequest::Response(value) => result == Ok::<IpfsResponse, NodeError>(value),
                IpfsApiRequest::Fail(error) => result == Err::<IpfsResponse, NodeError>(error),
            }
        }),
{
    let id = IpfsRequestId(link.api.next_id);
    let started = link.next(Step::Start(request));
    let end = started.after(steps);
    lemma_run_treats(link, request, steps, engine, comes_to);
    law_step_keeps_sound(link, Step::Start(request));
    law_run_keeps_sound(started, steps);
    assert forall|n: int| 0 <= n < end.to_api.len() implies match #[trigger] end.to_api[n] {
        WorkerToApi::Response { id: to, value } => to == id ==> comes_to(engine(request)) == Ok::<
            IpfsResponse,
            NodeError,
        >(value),
        WorkerToApi::Fail { id: to, error } => to == id ==> comes_to(engine(request)) == Err::<
            IpfsResponse,
            NodeError,
        >(error),
    } by {
        if end.to_api[n].id() == id {
            assert(end.to_api[n] == report(id, comes_to(engine(request))));
        }
    }
}

} // verus!

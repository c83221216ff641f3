//! What becomes of a request on its trip from the API to the worker and back, while
//! any number of other requests are on theirs.
use crate::api::{ApiToWorker, IpfsApiRequest, IpfsResponse, NodeError, WaitEvent};
use crate::link::{
    answered, asked, idle, law_messages_are_expected, law_run_keeps_sound, law_step_keeps_sound,
    lemma_reported, lemma_times_add, lemma_times_empty, lemma_times_one, lemma_times_swept,
    running, times, Link, Step,
};
use crate::offchain::{IpfsRequest, IpfsRequestId, IpfsRequestStatus};
use crate::worker::{lemma_going_on, report, Incoming, Polled, WorkerState};
use vstd::prelude::*;
use vstd::seq_lib::*;

verus! {

/// Request `id` is on its way to the worker, or the worker is running it.
pub open spec fn outbound<F>(link: Link<F>, id: IpfsRequestId) -> bool {
    ||| asked(link.api.to_worker).contains(id)
    ||| asked(link.to_worker).contains(id)
    ||| running(link.worker.requests).contains(id)
}

/// The message that request `id` has come to `result` is on its way to the API.
pub open spec fn inbound<F>(
    link: Link<F>,
    id: IpfsRequestId,
    result: Result<IpfsResponse, NodeError>,
) -> bool {
    ||| link.worker.to_api.contains(report(id, result))
    ||| link.to_api.contains(report(id, result))
}

/// The API knows that request `id` has come to `result`.
pub open spec fn known<F>(
    link: Link<F>,
    id: IpfsRequestId,
    result: Result<IpfsResponse, NodeError>,
) -> bool {
    &&& link.api.requests.contains_key(id.0)
    &&& link.api.requests[id.0] == report(id, result).outcome()
}

/// Request `id` is somewhere on its trip, and it is `result` that it comes to if it
/// has come to something.
pub open spec fn traced<F>(
    link: Link<F>,
    id: IpfsRequestId,
    result: Result<IpfsResponse, NodeError>,
) -> bool {
    outbound(link, id) || inbound(link, id, result) || known(link, id, result)
}

/// If the computation behind request `id` ends in `step`, it comes to `result`.
pub open spec fn ends_with<F>(
    link: Link<F>,
    step: Step<F>,
    id: IpfsRequestId,
    result: Result<IpfsResponse, NodeError>,
) -> bool {
    step matches Step::Poll(polled, _) ==> forall|n: int|
        0 <= n < link.worker.requests.len() && (#[trigger] link.worker.requests[n]).0 == id
            && polled[n] is Ready ==> polled[n]->Ready_0 == result
}

/// The wait in `step`, if there is one, reports that request `id` has failed, and not
/// because the worker has gone.
pub open spec fn reports_failure<F>(link: Link<F>, step: Step<F>, id: IpfsRequestId) -> bool {
    match step {
        Step::Wait(ids, event) => {
            &&& !(event is WorkerGone)
            &&& link.api.waited(ids, event).1 is Some
            &&& exists|i: int|
                0 <= i < ids.len() && #[trigger] ids[i] == id && link.api.waited(
                    ids,
                    event,
                ).1->0[i] is IoError
        },
        Step::Receive(ids) => {
            let event = WaitEvent::Message(link.to_api[0]);
            &&& link.api.waited(ids, event).1 is Some
            &&& exists|i: int|
                0 <= i < ids.len() && #[trigger] ids[i] == id && link.api.waited(
                    ids,
                    event,
                ).1->0[i] is IoError
        },
        _ => false,
    }
}

/// If the computation behind request `id` ends in one of the steps, it comes to
/// `result`.
pub open spec fn always_ends_with<F>(
    link: Link<F>,
    steps: Seq<Step<F>>,
    id: IpfsRequestId,
    result: Result<IpfsResponse, NodeError>,
) -> bool
    decreases steps.len(),
{
    steps.len() == 0 || (always_ends_with(link, steps.drop_last(), id, result) && ends_with(
        link.after(steps.drop_last()),
        steps.last(),
        id,
        result,
    ))
}

/// The wait in one of the steps reports that request `id` has failed.
pub open spec fn failure_reported<F>(
    link: Link<F>,
    steps: Seq<Step<F>>,
    id: IpfsRequestId,
) -> bool
    decreases steps.len(),
{
    steps.len() > 0 && (failure_reported(link, steps.drop_last(), id) || reports_failure(
        link.after(steps.drop_last()),
        steps.last(),
        id,
    ))
}

/// A sweep keeps each request whose computation goes on.
proof fn lemma_kept<F>(worker: WorkerState<F>, polled: Seq<Polled>, m: int, n: int)
    requires
        0 <= m <= n < worker.requests.len(),
        worker.goes_on(polled, n),
    ensures
        worker.kept(polled, m).contains(worker.requests[n]),
{
    lemma_going_on(worker, polled, m, n);
}

/// What is in one of two lists is in the two together.
proof fn lemma_contains_add<A>(a: Seq<A>, b: Seq<A>, x: A)
    requires
        a.contains(x) || b.contains(x),
    ensures
        (a + b).contains(x),
{
    if a.contains(x) {
        assert((a + b)[a.index_of(x)] == x);
    } else {
        assert((a + b)[a.len() + b.index_of(x)] == x);
    }
}

/// What is in a list is its first element or in the rest of it.
proof fn lemma_contains_drop_first<A>(s: Seq<A>, x: A)
    requires
        s.contains(x),
        s[0] != x,
    ensures
        s.drop_first().contains(x),
{
    assert(s.drop_first()[s.index_of(x) - 1] == x);
}

/// A traced request is one that has been started.
proof fn lemma_traced_is_started<F>(
    link: Link<F>,
    id: IpfsRequestId,
    result: Result<IpfsResponse, NodeError>,
)
    requires
        link.sound(),
        traced(link, id, result),
    ensures
        id.0 < link.api.next_id,
        outbound(link, id) || inbound(link, id, result) ==> link.api.dispatched(id),
{
    broadcast use group_to_multiset_ensures;

    let message = report(id, result);
    if link.worker.to_api.contains(message) {
        assert(answered(link.worker.to_api)[link.worker.to_api.index_of(message)] == id);
    }
    if link.to_api.contains(message) {
        assert(answered(link.to_api)[link.to_api.index_of(message)] == id);
    }
    if outbound(link, id) || inbound(link, id, result) {
        assert(link.in_flight(id) >= 1);
    }
}

/// If the next message to the API is about a traced request, it is the one that the
/// request is traced by.
proof fn lemma_next_message<F>(
    link: Link<F>,
    id: IpfsRequestId,
    result: Result<IpfsResponse, NodeError>,
)
    requires
        link.sound(),
        traced(link, id, result),
        link.to_api.len() > 0,
        link.to_api[0].id() == id,
    ensures
        link.to_api[0] == report(id, result),
{
    broadcast use group_to_multiset_ensures;

    let message = report(id, result);
    let rest = link.to_api.drop_first();
    law_messages_are_expected(link);
    assert(link.in_flight(id) == 1);
    assert(answered(link.to_api) == seq![id] + answered(rest));
    lemma_times_add(seq![id], answered(rest), id);
    lemma_times_one(id, id);
    if link.worker.to_api.contains(message) {
        assert(answered(link.worker.to_api)[link.worker.to_api.index_of(message)] == id);
    }
    if link.to_api[0] != message {
        assert(link.to_api.contains(message));
        lemma_contains_drop_first(link.to_api, message);
        assert(answered(rest)[rest.index_of(message)] == id);
    }
}

/// A traced request stays traced, until a wait reports that it has failed.
proof fn lemma_step_traces<F>(
    link: Link<F>,
    step: Step<F>,
    id: IpfsRequestId,
    result: Result<IpfsResponse, NodeError>,
)
    requires
        link.sound(),
        link.allows(step),
        traced(link, id, result),
        ends_with(link, step, id, result),
    ensures
        if reports_failure(link, step, id) {
            &&& result is Err
            &&& !link.next(step).api.requests.contains_key(id.0)
        } else {
            traced(link.next(step), id, result)
        },
{
    let next = link.next(step);
    let message = report(id, result);
    lemma_traced_is_started(link, id, result);
    match step {
        Step::Start(request) => {
            let new = seq![IpfsRequestId(link.api.next_id)];
            assert(asked(next.api.to_worker) == asked(link.api.to_worker) + new);
            if asked(link.api.to_worker).contains(id) {
                lemma_contains_add(asked(link.api.to_worker), new, id);
            }
        },
        Step::SendToWorker => {
            assert(asked(next.to_worker) == asked(link.to_worker) + asked(link.api.to_worker));
            if asked(link.api.to_worker).contains(id) || asked(link.to_worker).contains(id) {
                lemma_contains_add(asked(link.to_worker), asked(link.api.to_worker), id);
            }
        },
        Step::Poll(polled, incoming) => {
            lemma_poll_traces(link, polled, incoming, id, result);
        },
        Step::SendToApi => {
            if inbound(link, id, result) {
                lemma_contains_add(link.to_api, link.worker.to_api, message);
            }
        },
        Step::Wait(ids, event) => {
            if known(link, id, result) && !(event is WorkerGone) && link.api.waited(
                ids,
                event,
            ).1 is Some && ids.contains(id) && result is Err {
                assert(ids[ids.index_of(id)] == id);
                assert(reports_failure(link, step, id));
            }
        },
        Step::Receive(ids) => {
            let event = WaitEvent::Message(link.to_api[0]);
            law_messages_are_expected(link);
            if link.to_api.contains(message) && link.to_api[0] != message {
                lemma_contains_drop_first(link.to_api, message);
            }
            if link.to_api[0].id() == id {
                lemma_next_message(link, id, result);
            }
            let received = link.api.received(link.to_api[0]);
            if link.api.waited(ids, event).1 is Some && ids.contains(id) && received.failed(id) {
                assert(ids[ids.index_of(id)] == id);
                assert(reports_failure(link, step, id));
            }
        },
    }
}

/// The case of [`lemma_step_traces`] in which the worker is polled.
proof fn lemma_poll_traces<F>(
    link: Link<F>,
    polled: Seq<Polled>,
    incoming: Incoming<F>,
    id: IpfsRequestId,
    result: Result<IpfsResponse, NodeError>,
)
    requires
        link.sound(),
        link.allows(Step::Poll(polled, incoming)),
        traced(link, id, result),
        ends_with(link, Step::Poll(polled, incoming), id, result),
    ensures
        traced(link.next(Step::Poll(polled, incoming)), id, result),
{
    let next = link.next(Step::Poll(polled, incoming));
    let message = report(id, result);
    let kept = link.worker.kept(polled, 0);
    let reports = link.worker.reports(polled, 0);
    assert(next.worker.to_api == link.worker.to_api + reports);
    if link.worker.to_api.contains(message) {
        lemma_contains_add(link.worker.to_api, reports, message);
    }
    if running(link.worker.requests).contains(id) {
        let n = running(link.worker.requests).index_of(id);
        assert(link.worker.requests[n].0 == id);
        if link.worker.goes_on(polled, n) {
            lemma_kept(link.worker, polled, 0, n);
            let at = kept.index_of(link.worker.requests[n]);
            assert(next.worker.requests[at] == kept[at]);
            assert(running(next.worker.requests)[at] == id);
        } else {
            lemma_reported(link.worker, polled, 0, n);
            lemma_contains_add(link.worker.to_api, reports, message);
        }
    }
    if asked(link.to_worker).contains(id) {
        if let Incoming::Dispatch { id: new, future } = incoming {
            assert(asked(link.to_worker)[0] == new);
            if new == id {
                assert(running(next.worker.requests)[kept.len() as int] == id);
            } else {
                lemma_contains_drop_first(asked(link.to_worker), id);
                assert(asked(link.to_worker).drop_first() == asked(next.to_worker));
            }
        }
    }
}

/// A request that has been forgotten stays forgotten.
proof fn lemma_step_stays_forgotten<F>(link: Link<F>, step: Step<F>, id: IpfsRequestId)
    requires
        link.sound(),
        link.allows(step),
        id.0 < link.api.next_id,
        !link.api.requests.contains_key(id.0),
    ensures
        id.0 < link.next(step).api.next_id,
        !link.next(step).api.requests.contains_key(id.0),
{
    if step is Receive {
        law_messages_are_expected(link);
    }
}

/// However the trips of requests interleave: a traced request stays traced, until a
/// wait reports that it has failed; after that, the API does not know it any more.
pub proof fn law_requests_stay_traced<F>(
    link: Link<F>,
    steps: Seq<Step<F>>,
    id: IpfsRequestId,
    result: Result<IpfsResponse, NodeError>,
)
    requires
        link.sound(),
        link.allows_all(steps),
        traced(link, id, result),
        always_ends_with(link, steps, id, result),
    ensures
        link.after(steps).sound(),
        if failure_reported(link, steps, id) {
            &&& result is Err
            &&& id.0 < link.after(steps).api.next_id
            &&& !link.after(steps).api.requests.contains_key(id.0)
        } else {
            traced(link.after(steps), id, result)
        },
    decreases steps.len(),
{
    if steps.len() > 0 {
        let before = link.after(steps.drop_last());
        let step = steps.last();
        law_requests_stay_traced(link, steps.drop_last(), id, result);
        law_step_keeps_sound(before, step);
        if failure_reported(link, steps.drop_last(), id) {
            lemma_step_stays_forgotten(before, step, id);
        } else {
            lemma_traced_is_started(before, id, result);
            lemma_step_traces(before, step, id, result);
        }
    }
}

/// Every message to the worker about request `id` asks for `request`.
pub open spec fn asks_for<F>(link: Link<F>, id: IpfsRequestId, request: IpfsRequest) -> bool {
    &&& id.0 < link.api.next_id
    &&& forall|n: int|
        0 <= n < link.api.to_worker.len() && (#[trigger] link.api.to_worker[n]).id() == id
            ==> link.api.to_worker[n] == (ApiToWorker::Dispatch { id, request })
    &&& forall|n: int|
        0 <= n < link.to_worker.len() && (#[trigger] link.to_worker[n]).id() == id
            ==> link.to_worker[n] == (ApiToWorker::Dispatch { id, request })
}

/// However the trips of requests interleave: a request that is started is on its way
/// to the worker, and what the worker is asked under its number is that request.
pub proof fn law_requests_reach_the_worker<F>(
    link: Link<F>,
    request: IpfsRequest,
    steps: Seq<Step<F>>,
)
    requires
        link.sound(),
        link.allows(Step::Start(request)),
        link.next(Step::Start(request)).allows_all(steps),
    ensures
        ({
            let id = IpfsRequestId(link.api.next_id);
            let started = link.next(Step::Start(request));
            &&& started.sound()
            &&& outbound(started, id)
            &&& started.api.to_worker.last() == (ApiToWorker::Dispatch { id, request })
            &&& asks_for(started.after(steps), id, request)
        }),
    decreases steps.len(),
{
    broadcast use group_to_multiset_ensures;

    let id = IpfsRequestId(link.api.next_id);
    let started = link.next(Step::Start(request));
    law_step_keeps_sound(link, Step::Start(request));
    if steps.len() == 0 {
        assert(asked(started.api.to_worker)[link.api.to_worker.len() as int] == id);
        assert(!link.api.dispatched(id));
        assert(link.in_flight(id) == 0);
        assert forall|n: int| 0 <= n < link.api.to_worker.len() implies (
        #[trigger] link.api.to_worker[n]).id() != id by {
            if link.api.to_worker[n].id() == id {
                assert(asked(link.api.to_worker)[n] == id);
            }
        }
        assert forall|n: int| 0 <= n < link.to_worker.len() implies (
        #[trigger] link.to_worker[n]).id() != id by {
            if link.to_worker[n].id() == id {
                assert(asked(link.to_worker)[n] == id);
            }
        }
    } else {
        law_requests_reach_the_worker(link, request, steps.drop_last());
    }
}

/// However many requests are on their way and however their trips interleave: a
/// request comes back with what the engine makes of it. Whatever wait for it ends, it
/// reports the request as finished if the engine has served it; as failed if the
/// engine has not, and as not valid after that has been reported once; and as late only
/// if the deadline has passed and the API has not been told yet.
pub proof fn law_round_trip<F>(
    link: Link<F>,
    request: IpfsRequest,
    steps: Seq<Step<F>>,
    result: Result<IpfsResponse, NodeError>,
    ids: Seq<IpfsRequestId>,
    event: WaitEvent,
    i: int,
)
    requires
        link.sound(),
        link.allows(Step::Start(request)),
        link.next(Step::Start(request)).allows_all(steps),
        always_ends_with(
            link.next(Step::Start(request)),
            steps,
            IpfsRequestId(link.api.next_id),
            result,
        ),
        0 <= i < ids.len(),
        ids[i] == IpfsRequestId(link.api.next_id),
        !(event is WorkerGone),
        event matches WaitEvent::Message(message) ==> {
            let end = link.next(Step::Start(request)).after(steps);
            end.to_api.len() > 0 && message == end.to_api[0]
        },
        link.next(Step::Start(request)).after(steps).api.waited(ids, event).1 is Some,
    ensures
        ({
            let id = IpfsRequestId(link.api.next_id);
            let started = link.next(Step::Start(request));
            let end = started.after(steps);
            let (state, statuses) = end.api.waited(ids, event);
            let late = event is DeadlineReached && end.api.dispatched(id);
            &&& statuses->0[i] == if failure_reported(started, steps, id) {
                IpfsRequestStatus::Invalid
            } else if late {
                IpfsRequestStatus::DeadlineReached
            } else if result is Ok {
                IpfsRequestStatus::Finished
            } else {
                IpfsRequestStatus::IoError
            }
            &&& result is Ok && !late ==> state.requests.contains_key(id.0)
                && state.requests[id.0] == IpfsApiRequest::Response(result->Ok_0)
        }),
{
    let id = IpfsRequestId(link.api.next_id);
    let started = link.next(Step::Start(request));
    let end = started.after(steps);
    law_requests_reach_the_worker(link, request, steps);
    law_requests_stay_traced(started, steps, id, result);
    let settled = match event {
        WaitEvent::Message(message) => end.api.received(message),
        _ => end.api,
    };
    if event is Message {
        law_messages_are_expected(end);
    }
    if !failure_reported(started, steps, id) {
        lemma_traced_is_started(end, id, result);
        if event is Message && end.to_api[0].id() == id {
            lemma_next_message(end, id, result);
        }
    }
    if !(event is DeadlineReached) {
        assert(!settled.dispatched(ids[i]));
    }
}

/// Doing one step and then others is doing all of them.
proof fn lemma_one_step_first<F>(link: Link<F>, step: Step<F>, steps: Seq<Step<F>>)
    requires
        link.allows(step),
        link.next(step).allows_all(steps),
    ensures
        link.allows_all(seq![step] + steps),
        link.after(seq![step] + steps) == link.next(step).after(steps),
    decreases steps.len(),
{
    let all = seq![step] + steps;
    assert(all.last() == if steps.len() == 0 {
        step
    } else {
        steps.last()
    });
    if steps.len() == 0 {
        assert(all.drop_last() == Seq::<Step<F>>::empty());
        assert(link.allows_all(all.drop_last()));
        assert(link.after(all.drop_last()) == link);
    } else {
        lemma_one_step_first(link, step, steps.drop_last());
        assert(all.drop_last() == seq![step] + steps.drop_last());
    }
}

/// What an API and its worker do next when they bring every request home.
pub open spec fn homeward<F>(
    link: Link<F>,
    futures: spec_fn(IpfsRequestId) -> F,
    results: spec_fn(IpfsRequestId) -> Result<IpfsResponse, NodeError>,
) -> Step<F> {
    let running = link.worker.requests.len();
    if link.api.to_worker.len() > 0 {
        Step::SendToWorker
    } else if link.to_worker.len() > 0 {
        let id = link.to_worker[0].id();
        Step::Poll(
            Seq::new(running, |n: int| Polled::Pending),
            Incoming::Dispatch { id, future: futures(id) },
        )
    } else if running > 0 {
        Step::Poll(
            Seq::new(running, |n: int| Polled::Ready(results(link.worker.requests[n].0))),
            Incoming::Pending,
        )
    } else if link.worker.to_api.len() > 0 {
        Step::SendToApi
    } else {
        Step::Receive(Seq::empty())
    }
}

/// If the engine ends every computation, the API and its worker can bring every
/// request home: then nothing is on its way any more, and the API knows of each request
/// what the engine has made of it, under the number of that request.
pub proof fn law_all_requests_come_home<F>(
    link: Link<F>,
    futures: spec_fn(IpfsRequestId) -> F,
    results: spec_fn(IpfsRequestId) -> Result<IpfsResponse, NodeError>,
)
    requires
        link.sound(),
    ensures
        exists|steps: Seq<Step<F>>| #[trigger]
            link.allows_all(steps) && idle(link.after(steps)) && forall|id: IpfsRequestId|
                #[trigger] traced(link, id, results(id))
                    ==> known(link.after(steps), id, results(id)),
    decreases
        link.api.to_worker.len(),
        link.to_worker.len(),
        link.worker.requests.len(),
        link.worker.to_api.len(),
        link.to_api.len(),
{
    if idle(link) {
        let steps = Seq::<Step<F>>::empty();
        assert(link.allows_all(steps));
        assert(link.after(steps) == link);
    } else {
        let step = homeward(link, futures, results);
        let next = link.next(step);
        law_step_keeps_sound(link, step);
        if let Step::Poll(polled, incoming) = step {
            if link.to_worker.len() == 0 {
                lemma_all_ended(link.worker, polled, 0);
            }
        }
        law_all_requests_come_home(next, futures, results);
        let rest = choose|steps: Seq<Step<F>>| #[trigger]
            next.allows_all(steps) && idle(next.after(steps)) && forall|id: IpfsRequestId|
                #[trigger] traced(next, id, results(id)) ==> known(
                    next.after(steps),
                    id,
                    results(id),
                );
        lemma_one_step_first(link, step, rest);
        let steps = seq![step] + rest;
        assert forall|id: IpfsRequestId| #[trigger] traced(link, id, results(id)) implies known(
            link.after(steps),
            id,
            results(id),
        ) by {
            lemma_step_traces(link, step, id, results(id));
            assert(traced(next, id, results(id)));
        }
        assert(link.allows_all(steps));
    }
}

/// A sweep keeps nothing if every computation has ended.
proof fn lemma_all_ended<F>(worker: WorkerState<F>, polled: Seq<Polled>, n: int)
    requires
        0 <= n <= worker.requests.len(),
        forall|m: int| 0 <= m < worker.requests.len() ==> (#[trigger] polled[m]) is Ready,
    ensures
        worker.kept(polled, n).len() == 0,
    decreases worker.requests.len() - n,
{
    if n < worker.requests.len() {
        lemma_all_ended(worker, polled, n + 1);
        assert(polled[n] is Ready);
    }
}

/// How many messages about request `id` the worker sends in `step`.
pub open spec fn messages_sent<F>(link: Link<F>, step: Step<F>, id: IpfsRequestId) -> nat {
    match step {
        Step::Poll(polled, _) => times(answered(link.worker.reports(polled, 0)), id),
        _ => 0,
    }
}

/// How many messages about request `id` the worker sends in all of the steps.
pub open spec fn all_messages_sent<F>(
    link: Link<F>,
    steps: Seq<Step<F>>,
    id: IpfsRequestId,
) -> nat
    decreases steps.len(),
{
    if steps.len() == 0 {
        0
    } else {
        all_messages_sent(link, steps.drop_last(), id) + messages_sent(
            link.after(steps.drop_last()),
            steps.last(),
            id,
        )
    }
}

/// How many messages about request `id` the API sends in all of the steps.
pub open spec fn all_messages_asked<F>(
    link: Link<F>,
    steps: Seq<Step<F>>,
    id: IpfsRequestId,
) -> nat
    decreases steps.len(),
{
    if steps.len() == 0 {
        0
    } else {
        all_messages_asked(link, steps.drop_last(), id) + if steps.last() is Start && link.after(
            steps.drop_last(),
        ).api.next_id == id.0 {
            1nat
        } else {
            0nat
        }
    }
}

/// How often request `id` is on its way to the worker or run by it.
pub open spec fn times_outbound<F>(link: Link<F>, id: IpfsRequestId) -> nat {
    times(asked(link.api.to_worker), id) + times(asked(link.to_worker), id) + times(
        running(link.worker.requests),
        id,
    )
}

/// A step takes a request to the worker and away from it at most once.
proof fn lemma_step_sends<F>(link: Link<F>, step: Step<F>, id: IpfsRequestId)
    requires
        link.sound(),
        link.allows(step),
    ensures
        link.api.next_id <= link.next(step).api.next_id,
        messages_sent(link, step, id) + times_outbound(link.next(step), id) == times_outbound(
            link,
            id,
        ) + if link.api.next_id <= id.0 < link.next(step).api.next_id {
            1nat
        } else {
            0nat
        },
{
    let next = link.next(step);
    lemma_times_empty(id);
    match step {
        Step::Start(request) => {
            let new = IpfsRequestId(link.api.next_id);
            assert(asked(next.api.to_worker) == asked(link.api.to_worker) + seq![new]);
            lemma_times_add(asked(link.api.to_worker), seq![new], id);
            lemma_times_one(new, id);
        },
        Step::SendToWorker => {
            assert(asked(next.to_worker) == asked(link.to_worker) + asked(link.api.to_worker));
            lemma_times_add(asked(link.to_worker), asked(link.api.to_worker), id);
            assert(asked(next.api.to_worker) == Seq::<IpfsRequestId>::empty());
        },
        Step::Poll(polled, incoming) => {
            let kept = link.worker.kept(polled, 0);
            lemma_times_swept(link.worker, polled, 0, id);
            assert(link.worker.requests.skip(0) == link.worker.requests);
            if let Incoming::Dispatch { id: new, future } = incoming {
                assert(running(next.worker.requests) == running(kept) + seq![new]);
                lemma_times_add(running(kept), seq![new], id);
                assert(asked(link.to_worker) == seq![new] + asked(next.to_worker));
                lemma_times_add(seq![new], asked(next.to_worker), id);
            }
        },
        _ => {},
    }
}

/// Over a whole run, at most one message about a request is sent in each direction.
/// The API asks for each request that is started in the run once. The worker answers
/// each request that was on its way to it, or is started in the run, at most once, and
/// any other request never.
pub proof fn law_one_message_per_request<F>(link: Link<F>, steps: Seq<Step<F>>, id: IpfsRequestId)
    requires
        link.sound(),
        link.allows_all(steps),
    ensures
        link.api.next_id <= link.after(steps).api.next_id,
        all_messages_sent(link, steps, id) + times_outbound(link.after(steps), id)
            == times_outbound(link, id) + if link.api.next_id <= id.0 < link.after(
            steps,
        ).api.next_id {
            1nat
        } else {
            0nat
        },
        all_messages_sent(link, steps, id) <= 1,
        all_messages_asked(link, steps, id) == if link.api.next_id <= id.0 < link.after(
            steps,
        ).api.next_id {
            1nat
        } else {
            0nat
        },
        !outbound(link, id) && !(link.api.next_id <= id.0 < link.after(steps).api.next_id)
            ==> all_messages_sent(link, steps, id) == 0,
    decreases steps.len(),
{
    broadcast use group_to_multiset_ensures;

    if steps.len() > 0 {
        let before = link.after(steps.drop_last());
        law_one_message_per_request(link, steps.drop_last(), id);
        law_run_keeps_sound(link, steps.drop_last());
        lemma_step_sends(before, steps.last(), id);
    }
    assert(link.in_flight(id) <= 1);
    if link.in_flight(id) == 1 {
        assert(link.api.dispatched(id));
    }
}

} // verus!

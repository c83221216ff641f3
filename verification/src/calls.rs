//! What a call of each operation does, told by what goes into the call and what comes
//! out of it.
//!
//! A law in here speaks of any call that may happen: `call_ensures` holds of the
//! operation, its arguments and its result. Of an argument that the operation changes,
//! `old` is the value before the call and `final` the value after it.
use crate::api::{
    ipfs, law_reports_are_complete, law_waits_are_over_in_time, listed, numbers, ApiToWorker,
    IpfsApi, IpfsApiRequest, IpfsResponse, NodeError, WaitEvent, WorkerToApi,
};
use crate::offchain::{IpfsError, IpfsRequest, IpfsRequestId, IpfsRequestStatus, Timestamp};
use crate::runtime::{
    ids, law_each_request_gets_its_own_result, law_late_only_after_deadline, Error,
    IpfsResult, PendingRequest, Progress, Request, Response, ResponseBody,
};
use crate::worker::{
    ipfs_request, law_computations_keep_their_numbers, law_nothing_to_poll, law_one_request_more,
    node_call, Incoming, IpfsWorker, IpfsWorkerRequest, NodeCall, NodeReply, Polled, WorkerPoll,
};
use vstd::prelude::*;

verus! {

/// The first number is what a random number leaves after division by 2000, and there
/// is no request yet.
pub proof fn law_first_number(random: u16, api: IpfsApi)
    requires
        call_ensures(IpfsApi::with_random_number, (random,), api),
    ensures
        api@.next_id < 2000,
        exists|q: int| random == #[trigger] (q * 2000) + api@.next_id,
        forall|k: u16| !(#[trigger] api@.requests.contains_key(k)),
        api@.to_worker.len() == 0,
{
    assert(random == (random as int / 2000) * 2000 + api@.next_id);
}

/// A pair starts with a number below 2000, without requests and without messages.
pub proof fn law_first_pair<F>(pair: (IpfsApi, IpfsWorker<F>))
    requires
        call_ensures(ipfs::<F>, (), pair),
    ensures
        pair.0@.next_id < 2000,
        forall|k: u16| !(#[trigger] pair.0@.requests.contains_key(k)),
        pair.0@.to_worker.len() == 0,
        pair.1@.requests.len() == 0,
        pair.1@.to_api.len() == 0,
{
}

/// A request is started unless the numbers are used up. It gets the next number, which
/// no known request has; the worker is asked for that request under that number, after
/// everything it was asked before; and nothing changes for any other request.
pub proof fn law_request_start(
    api: &mut IpfsApi,
    request: IpfsRequest,
    started: Result<IpfsRequestId, ()>,
)
    requires
        old(api)@.wf(),
        call_ensures(IpfsApi::request_start, (api, request), started),
    ensures
        started is Err <==> old(api)@.next_id == 0xffff,
        started is Err ==> final(api)@ == old(api)@,
        started matches Ok(id) ==> {
            &&& id.0 == old(api)@.next_id
            &&& final(api)@.next_id == id.0 + 1
            &&& !old(api)@.requests.contains_key(id.0)
            &&& final(api)@.requests.contains_key(id.0)
            &&& final(api)@.requests[id.0] is Dispatched
            &&& final(api)@.to_worker.len() == old(api)@.to_worker.len() + 1
            &&& final(api)@.to_worker.last() == (ApiToWorker::Dispatch { id, request })
            &&& final(api)@.to_worker.drop_last() == old(api)@.to_worker
        },
        forall|k: u16|
            k != old(api)@.next_id ==> (#[trigger] final(api)@.requests.contains_key(k)
                <==> old(api)@.requests.contains_key(k)),
        forall|k: u16|
            k != old(api)@.next_id && old(api)@.requests.contains_key(k) ==> (
            #[trigger] final(api)@.requests[k]) == old(api)@.requests[k],
{
    if let Ok(id) = started {
        assert(final(api)@.to_worker.drop_last() =~= old(api)@.to_worker);
    }
}

/// What an API knows once it has been told of `event`: what the worker says of a
/// request is noted if the request is with the worker; if it is not, the request is
/// forgotten. Nothing else changes what is known.
pub open spec fn informed(
    before: Map<u16, IpfsApiRequest>,
    event: WaitEvent,
    known: Map<u16, IpfsApiRequest>,
) -> bool {
    match event {
        WaitEvent::Message(WorkerToApi::Response { id, value }) => known == if before.contains_key(
            id.0,
        ) && before[id.0] is Dispatched {
            before.insert(id.0, IpfsApiRequest::Response(value))
        } else {
            before.remove(id.0)
        },
        WaitEvent::Message(WorkerToApi::Fail { id, error }) => known == if before.contains_key(
            id.0,
        ) && before[id.0] is Dispatched {
            before.insert(id.0, IpfsApiRequest::Fail(error))
        } else {
            before.remove(id.0)
        },
        _ => known == before,
    }
}

/// A wait ends if the deadline has passed or the worker has gone, and otherwise exactly
/// if none of the requests that are waited for is with the worker, whatever other
/// requests there are and whatever becomes of them.
pub proof fn law_waits_end_in_time(
    api: &mut IpfsApi,
    ids: &[IpfsRequestId],
    event: WaitEvent,
    report: Option<Vec<IpfsRequestStatus>>,
    known: Map<u16, IpfsApiRequest>,
)
    requires
        old(api)@.wf(),
        call_ensures(IpfsApi::response_wait, (api, ids, event), report),
        informed(old(api)@.requests, event, known),
    ensures
        report is Some <==> {
            ||| event is DeadlineReached
            ||| event is WorkerGone
            ||| forall|i: int|
                0 <= i < ids@.len() ==> !(known.contains_key((#[trigger] ids@[i]).0)
                    && known[ids@[i].0] is Dispatched)
        },
{
    let s = old(api)@;
    let settled = match event {
        WaitEvent::Message(message) => s.received(message),
        _ => s,
    };
    assert(settled.requests =~= known);
    if !(event is DeadlineReached || event is WorkerGone) {
        assert(report is Some <==> !settled.must_wait(ids@));
        if settled.must_wait(ids@) {
            let i = choose|i: int| 0 <= i < ids@.len() && settled.dispatched(#[trigger] ids@[i]);
            assert(known[ids@[i].0] is Dispatched);
        } else {
            assert forall|i: int| 0 <= i < ids@.len() implies !(known.contains_key(
                (#[trigger] ids@[i]).0,
            ) && known[ids@[i].0] is Dispatched) by {
                assert(!settled.dispatched(ids@[i]));
            }
        }
    }
}

/// A report has one entry for each request that is waited for, at the place of that
/// request: finished if the request has been answered, failed if it has failed or the
/// worker has gone, late if it is with the worker, and not valid if it is not known.
pub proof fn law_reports_tell_what_is_known(
    api: &mut IpfsApi,
    ids: &[IpfsRequestId],
    event: WaitEvent,
    report: Option<Vec<IpfsRequestStatus>>,
    known: Map<u16, IpfsApiRequest>,
)
    requires
        old(api)@.wf(),
        call_ensures(IpfsApi::response_wait, (api, ids, event), report),
        informed(old(api)@.requests, event, known),
        report is Some,
    ensures
        report->0@.len() == ids@.len(),
        forall|i: int|
            #![trigger report->0@[i]]
            #![trigger ids@[i]]
            0 <= i < ids@.len() ==> {
                let at = ids@[i].0;
                &&& report->0@[i] is Invalid <==> !(event is WorkerGone) && !known.contains_key(at)
                &&& report->0@[i] is Finished <==> !(event is WorkerGone) && known.contains_key(at)
                    && known[at] is Response
                &&& report->0@[i] is IoError <==> event is WorkerGone || known.contains_key(at)
                    && known[at] is Fail
                &&& report->0@[i] is DeadlineReached <==> !(event is WorkerGone)
                    && known.contains_key(at) && known[at] is Dispatched
            },
{
    let s = old(api)@;
    let settled = match event {
        WaitEvent::Message(message) => s.received(message),
        _ => s,
    };
    assert(settled.requests =~= known);
    assert(s.waited(ids@, event).1 == Some(report->0@));
    if !(event is WorkerGone) {
        assert(report->0@ == settled.statuses(ids@));
        assert forall|k: u16| #[trigger] known.contains_key(k) implies !(known[k]
            is NotDispatched) by {
            assert(s.requests.contains_key(k));
        }
    }
}

/// A wait that goes on keeps all that is known. One that ends forgets of it the failed
/// requests that were waited for, and nothing else, unless the worker has gone. No wait
/// hands out a number or sends anything.
pub proof fn law_waits_forget_only_failures(
    api: &mut IpfsApi,
    ids: &[IpfsRequestId],
    event: WaitEvent,
    report: Option<Vec<IpfsRequestStatus>>,
    known: Map<u16, IpfsApiRequest>,
    k: u16,
)
    requires
        old(api)@.wf(),
        call_ensures(IpfsApi::response_wait, (api, ids, event), report),
        informed(old(api)@.requests, event, known),
    ensures
        final(api)@.next_id == old(api)@.next_id,
        final(api)@.to_worker == old(api)@.to_worker,
        final(api)@.requests.contains_key(k) <==> known.contains_key(k) && !(report is Some && !(
        event is WorkerGone) && known[k] is Fail && exists|i: int|
            0 <= i < ids@.len() && (#[trigger] ids@[i]).0 == k),
        final(api)@.requests.contains_key(k) ==> final(api)@.requests[k] == known[k],
{
    let s = old(api)@;
    let settled = match event {
        WaitEvent::Message(message) => s.received(message),
        _ => s,
    };
    assert(settled.requests =~= known);
    if ids@.contains(IpfsRequestId(k)) {
        assert(ids@[ids@.index_of(IpfsRequestId(k))].0 == k);
    }
    if exists|i: int| 0 <= i < ids@.len() && (#[trigger] ids@[i]).0 == k {
        let i = choose|i: int| 0 <= i < ids@.len() && (#[trigger] ids@[i]).0 == k;
        assert(ids@[i] == IpfsRequestId(k));
        assert(ids@.contains(IpfsRequestId(k)));
    }
}

/// A message settles the request that it is about if that request is with the worker:
/// the answer is kept, or the failure with the engine's words, under the number of the
/// request. If it is not, the request is forgotten. No other request is affected.
pub proof fn law_messages_are_noted(
    api: &mut IpfsApi,
    ids: &[IpfsRequestId],
    message: WorkerToApi,
    report: Option<Vec<IpfsRequestStatus>>,
    k: u16,
)
    requires
        old(api)@.wf(),
        ids@.len() == 0,
        call_ensures(IpfsApi::response_wait, (api, ids, WaitEvent::Message(message)), report),
    ensures
        message matches WorkerToApi::Response { id, value } ==> (id.0 == k ==> {
            &&& final(api)@.requests.contains_key(k) <==> old(api)@.requests.contains_key(k)
                && old(api)@.requests[k] is Dispatched
            &&& final(api)@.requests.contains_key(k) ==> final(api)@.requests[k]
                == IpfsApiRequest::Response(value)
        }),
        message matches WorkerToApi::Fail { id, error } ==> (id.0 == k ==> {
            &&& final(api)@.requests.contains_key(k) <==> old(api)@.requests.contains_key(k)
                && old(api)@.requests[k] is Dispatched
            &&& final(api)@.requests.contains_key(k) ==> final(api)@.requests[k]
                == IpfsApiRequest::Fail(error)
        }),
        (message matches WorkerToApi::Response { id, .. } ==> id.0 != k) && (
        message matches WorkerToApi::Fail { id, .. } ==> id.0 != k) ==> {
            &&& final(api)@.requests.contains_key(k) <==> old(api)@.requests.contains_key(k)
            &&& old(api)@.requests.contains_key(k) ==> final(api)@.requests[k]
                == old(api)@.requests[k]
        },
{
}

/// To get a message in a wait is to note the message and to begin the wait then.
pub proof fn law_messages_only_inform(
    api: &mut IpfsApi,
    ids: &[IpfsRequestId],
    message: WorkerToApi,
    report: Option<Vec<IpfsRequestStatus>>,
    first: &mut IpfsApi,
    none: &[IpfsRequestId],
    noted: Option<Vec<IpfsRequestStatus>>,
    second: &mut IpfsApi,
    begun: Option<Vec<IpfsRequestStatus>>,
)
    requires
        old(api)@.wf(),
        call_ensures(IpfsApi::response_wait, (api, ids, WaitEvent::Message(message)), report),
        old(first)@ == old(api)@,
        none@.len() == 0,
        call_ensures(IpfsApi::response_wait, (first, none, WaitEvent::Message(message)), noted),
        old(second)@ == final(first)@,
        call_ensures(IpfsApi::response_wait, (second, ids, WaitEvent::Start), begun),
    ensures
        final(second)@ == final(api)@,
        report is Some <==> begun is Some,
        report is Some ==> report->0@ == begun->0@,
{
    let received = old(api)@.received(message);
    assert(!received.must_wait(none@));
    assert(received.purged(none@) =~= received);
}

/// A wait for requests is over exactly if the wait for each of them alone would be, and
/// it tells of each of them what that wait would tell.
pub proof fn law_waits_for_many_and_for_one(
    many: &mut IpfsApi,
    ids: &[IpfsRequestId],
    event: WaitEvent,
    report: Option<Vec<IpfsRequestStatus>>,
    ones: spec_fn(int) -> (&mut IpfsApi, &[IpfsRequestId], Option<Vec<IpfsRequestStatus>>),
)
    requires
        old(many)@.wf(),
        call_ensures(IpfsApi::response_wait, (many, ids, event), report),
        forall|i: int|
            0 <= i < ids@.len() ==> {
                let (one, id, told) = #[trigger] ones(i);
                &&& one@ == old(many)@
                &&& id@ == seq![ids@[i]]
                &&& call_ensures(IpfsApi::response_wait, (one, id, event), told)
            },
    ensures
        report is Some <==> forall|i: int| 0 <= i < ids@.len() ==> (#[trigger] ones(i)).2 is Some,
        report is Some ==> report->0@.len() == ids@.len() && forall|i: int|
            0 <= i < ids@.len() ==> (#[trigger] ones(i)).2->0@ == seq![report->0@[i]],
{
    let s = old(many)@;
    law_waits_are_over_in_time(s, ids@, event);
    assert forall|i: int| 0 <= i < ids@.len() implies listed((#[trigger] ones(i)).2)
        == s.waited(seq![ids@[i]], event).1 by {}
    if report is Some {
        law_reports_are_complete(s, ids@, event);
    } else {
        let i = choose|i: int|
            0 <= i < ids@.len() && !((#[trigger] s.waited(seq![ids@[i]], event)).1 is Some);
        assert(ones(i).2 is None);
    }
}

/// The messages to the worker come out of the outbox once, all of them and in the order
/// in which the requests were started.
pub proof fn law_outbox_of_the_api(
    first: &mut IpfsApi,
    messages: Vec<ApiToWorker>,
    second: &mut IpfsApi,
    none: Vec<ApiToWorker>,
)
    requires
        call_ensures(IpfsApi::take_to_worker, (first,), messages),
        old(second)@ == final(first)@,
        call_ensures(IpfsApi::take_to_worker, (second,), none),
    ensures
        messages@ == old(first)@.to_worker,
        none@.len() == 0,
        final(first)@.requests == old(first)@.requests,
        final(first)@.next_id == old(first)@.next_id,
{
}

/// A request that is started on an API whose outbox is empty is what the worker is asked
/// for next, under the number that was handed out.
pub proof fn law_started_requests_are_sent(
    first: &mut IpfsApi,
    request: IpfsRequest,
    id: IpfsRequestId,
    second: &mut IpfsApi,
    messages: Vec<ApiToWorker>,
)
    requires
        old(first)@.wf(),
        old(first)@.to_worker.len() == 0,
        call_ensures(IpfsApi::request_start, (first, request), Ok::<IpfsRequestId, ()>(id)),
        old(second)@ == final(first)@,
        call_ensures(IpfsApi::take_to_worker, (second,), messages),
    ensures
        messages@.len() == 1,
        messages@[0] == (ApiToWorker::Dispatch { id, request }),
{
}

/// The answer to a request can be read exactly when it has arrived, and it is the one
/// that has arrived.
pub proof fn law_response(api: &IpfsApi, id: IpfsRequestId, response: Option<&IpfsResponse>)
    requires
        call_ensures(IpfsApi::response, (api, id), response),
    ensures
        response is Some <==> api@.requests.contains_key(id.0) && api@.requests[id.0] is Response,
        response is Some ==> IpfsApiRequest::Response(*response->0) == api@.requests[id.0],
{
}

/// The answer that the worker sends for a request that is with it can be read from then
/// on, whatever was waited for.
pub proof fn law_answers_can_be_read(
    first: &mut IpfsApi,
    ids: &[IpfsRequestId],
    id: IpfsRequestId,
    value: IpfsResponse,
    report: Option<Vec<IpfsRequestStatus>>,
    second: &IpfsApi,
    response: Option<&IpfsResponse>,
)
    requires
        old(first)@.wf(),
        old(first)@.requests.contains_key(id.0),
        old(first)@.requests[id.0] is Dispatched,
        call_ensures(
            IpfsApi::response_wait,
            (first, ids, WaitEvent::Message(WorkerToApi::Response { id, value })),
            report,
        ),
        second@ == final(first)@,
        call_ensures(IpfsApi::response, (second, id), response),
    ensures
        response is Some,
        *response->0 == value,
{
    let event = WaitEvent::Message(WorkerToApi::Response { id, value });
    let known = old(first)@.requests.insert(id.0, IpfsApiRequest::Response(value));
    law_waits_forget_only_failures(first, ids, event, report, known, id.0);
}

/// A message is unexpected exactly if it is about a request that is known and not with
/// the worker.
pub proof fn law_is_expected(api: &IpfsApi, message: &WorkerToApi, expected: bool)
    requires
        call_ensures(IpfsApi::is_expected, (api, message), expected),
    ensures
        message matches WorkerToApi::Response { id, .. } ==> (expected <==> (
        api@.requests.contains_key(id.0) ==> api@.requests[id.0] is Dispatched)),
        message matches WorkerToApi::Fail { id, .. } ==> (expected <==> (
        api@.requests.contains_key(id.0) ==> api@.requests[id.0] is Dispatched)),
{
}

/// The call for a new block succeeds and changes nothing.
pub proof fn law_process_block(api: &mut IpfsApi, done: Result<(), ()>)
    requires
        call_ensures(IpfsApi::process_block, (api,), done),
    ensures
        done is Ok,
        final(api)@ == old(api)@,
{
}

/// The text about a request names its state, and for a failure the engine's words.
pub proof fn law_text_of_a_request(request: &IpfsApiRequest, text: String)
    requires
        call_ensures(IpfsApiRequest::describe, (request,), text),
    ensures
        request is NotDispatched ==> text@ == "IpfsApiRequest::NotDispatched"@,
        request is Dispatched ==> text@ == "IpfsApiRequest::Dispatched"@,
        request is Response ==> text@ == "IpfsApiRequest::Response"@,
        *request matches IpfsApiRequest::Fail(error) ==> text@ == "IpfsApiRequest::Fail("@
            + error.message@ + ")"@,
{
}

/// The list for people to read has exactly one entry for each known request, and the
/// entry has the text of that request.
pub proof fn law_entries_of_the_api(
    api: &IpfsApi,
    entries: Vec<(IpfsRequestId, String)>,
    request: &IpfsApiRequest,
    text: String,
)
    requires
        call_ensures(IpfsApi::entries, (api,), entries),
        call_ensures(IpfsApiRequest::describe, (request,), text),
    ensures
        forall|m: int, n: int|
            0 <= m < n < entries@.len() ==> (#[trigger] entries@[m]).0 != (
            #[trigger] entries@[n]).0,
        forall|n: int|
            0 <= n < entries@.len() ==> api@.requests.contains_key((#[trigger] entries@[n]).0.0),
        forall|k: u16| #[trigger]
            api@.requests.contains_key(k) ==> exists|n: int|
                0 <= n < entries@.len() && (#[trigger] entries@[n]).0.0 == k,
        forall|n: int|
            0 <= n < entries@.len() && api@.requests[(#[trigger] entries@[n]).0.0] == *request
                ==> entries@[n].1@ == text@,
{
    let list = numbers(entries@);
    assert forall|m: int, n: int| 0 <= m < n < entries@.len() implies (#[trigger] entries@[m]).0
        != (#[trigger] entries@[n]).0 by {
        assert(list[m] != list[n]);
    }
    assert forall|n: int| 0 <= n < entries@.len() implies api@.requests.contains_key(
        (#[trigger] entries@[n]).0.0,
    ) by {
        assert(list.to_set().contains(list[n]));
    }
    assert forall|k: u16| #[trigger] api@.requests.contains_key(k) implies exists|n: int|
        0 <= n < entries@.len() && (#[trigger] entries@[n]).0.0 == k by {
        assert(list.to_set().contains(k));
        let n = list.index_of(k);
        assert(entries@[n].0.0 == k);
    }
}

/// The engine is asked for what the request asks for, and what it replies is the result
/// of the request: its identity if it was asked for that, its blocks if it was asked for
/// those, and its error if it has none of them.
pub proof fn law_served_in_kind(
    request: IpfsRequest,
    call: NodeCall,
    reply: NodeReply,
    result: Result<IpfsResponse, NodeError>,
)
    requires
        call_ensures(node_call, (request,), call),
        call_ensures(ipfs_request, (reply,), result),
        call is Identity ==> reply is Identity,
        call is RefsLocal ==> reply is RefsLocal,
    ensures
        request is Identity <==> reply is Identity,
        request is LocalRefs <==> reply is RefsLocal,
        reply matches NodeReply::Identity(Ok(identity)) ==> {
            &&& result is Ok
            &&& result->Ok_0 is Identity
            &&& result->Ok_0->Identity_0 == identity.0
            &&& result->Ok_0->Identity_1 == identity.1
        },
        reply matches NodeReply::RefsLocal(Ok(blocks)) ==> {
            &&& result is Ok
            &&& result->Ok_0 is LocalRefs
            &&& result->Ok_0->LocalRefs_0 == blocks
        },
        reply matches NodeReply::Identity(Err(error)) ==> result is Err && result->Err_0 == error,
        reply matches NodeReply::RefsLocal(Err(error)) ==> result is Err && result->Err_0 == error,
{
}

/// After a poll, a request is run with a computation exactly if it was run with that
/// computation and goes on, or has just come with it.
pub proof fn law_poll_keeps_computations<F>(
    worker: &mut IpfsWorker<F>,
    polled: Vec<Polled>,
    incoming: Incoming<F>,
    outcome: WorkerPoll,
    id: IpfsRequestId,
    future: F,
)
    requires
        polled@.len() == old(worker)@.requests.len(),
        call_ensures(IpfsWorker::<F>::poll, (worker, polled, incoming), outcome),
    ensures
        final(worker)@.requests.contains((id, IpfsWorkerRequest::Dispatched(future))) <==> {
            ||| exists|n: int|
                0 <= n < polled@.len() && #[trigger] old(worker)@.requests[n] == (
                    id,
                    IpfsWorkerRequest::Dispatched(future),
                ) && polled@[n] is Pending
            ||| incoming == Incoming::Dispatch { id, future }
        },
{
    law_computations_keep_their_numbers(old(worker)@, polled@, incoming, id, future);
}

/// A worker is finished exactly if the API has gone. It wants to be polled again at once
/// exactly if a request has come or a computation has succeeded.
pub proof fn law_outcome_of_a_poll<F>(
    worker: &mut IpfsWorker<F>,
    polled: Vec<Polled>,
    incoming: Incoming<F>,
    outcome: WorkerPoll,
)
    requires
        polled@.len() == old(worker)@.requests.len(),
        call_ensures(IpfsWorker::<F>::poll, (worker, polled, incoming), outcome),
    ensures
        outcome.finished <==> incoming is Closed,
        outcome.wake <==> {
            ||| incoming is Dispatch
            ||| exists|n: int|
                0 <= n < polled@.len() && (#[trigger] old(worker)@.requests[n]).1 is Dispatched
                    && polled@[n] is Ready && polled@[n]->Ready_0 is Ok
        },
{
    let s = old(worker)@;
    if exists|n: int|
        0 <= n < polled@.len() && (#[trigger] s.requests[n]).1 is Dispatched && polled@[n] is Ready
            && polled@[n]->Ready_0 is Ok {
        let n = choose|n: int|
            0 <= n < polled@.len() && (#[trigger] s.requests[n]).1 is Dispatched && polled@[n]
                is Ready && polled@[n]->Ready_0 is Ok;
        assert(s.succeeded(polled@, n));
    }
    if exists|n: int| 0 <= n < polled@.len() && #[trigger] s.succeeded(polled@, n) {
        let n = choose|n: int| 0 <= n < polled@.len() && #[trigger] s.succeeded(polled@, n);
        assert(s.requests[n].1 is Dispatched);
    }
}

/// A request that comes in a poll makes only this difference: it is put at the end of
/// what the worker runs, under its number and with its computation. If none comes, it
/// makes no difference whether one may come later.
pub proof fn law_taking_on_a_request<F>(
    one: &mut IpfsWorker<F>,
    two: &mut IpfsWorker<F>,
    polled: Vec<Polled>,
    incoming: Incoming<F>,
    outcome: WorkerPoll,
    other: WorkerPoll,
)
    requires
        polled@.len() == old(one)@.requests.len(),
        old(two)@ == old(one)@,
        call_ensures(IpfsWorker::<F>::poll, (one, polled, incoming), outcome),
        call_ensures(IpfsWorker::<F>::poll, (two, polled, Incoming::<F>::Pending), other),
    ensures
        final(one)@.to_api == final(two)@.to_api,
        incoming matches Incoming::Dispatch { id, future } ==> final(one)@.requests
            == final(two)@.requests.push((id, IpfsWorkerRequest::Dispatched(future))),
        !(incoming is Dispatch) ==> final(one)@.requests == final(two)@.requests,
{
}

/// A request more at the front makes only this difference to a poll: the last of the
/// requests that go on is moved to the front of them, and then the one more is put at
/// their end if it goes on too; and if it has ended, its result is reported last, under
/// its number.
pub proof fn law_polling_one_request_more<F>(
    whole: &mut IpfsWorker<F>,
    polled: Vec<Polled>,
    outcome: WorkerPoll,
    rest: &mut IpfsWorker<F>,
    others: Vec<Polled>,
    other: WorkerPoll,
)
    requires
        polled@.len() == old(whole)@.requests.len(),
        polled@.len() > 0,
        old(rest)@.requests == old(whole)@.requests.drop_first(),
        old(rest)@.to_api == old(whole)@.to_api,
        others@ == polled@.drop_first(),
        call_ensures(IpfsWorker::<F>::poll, (whole, polled, Incoming::<F>::Pending), outcome),
        call_ensures(IpfsWorker::<F>::poll, (rest, others, Incoming::<F>::Pending), other),
    ensures
        ({
            let first = old(whole)@.requests[0];
            let kept = final(rest)@.requests;
            let moved = if kept.len() == 0 {
                kept
            } else {
                seq![kept.last()] + kept.drop_last()
            };
            &&& final(whole)@.requests == if first.1 is Dispatched && polled@[0] is Pending {
                moved.push(first)
            } else {
                moved
            }
            &&& final(whole)@.to_api == match (first.1, polled@[0]) {
                (IpfsWorkerRequest::Dispatched(_), Polled::Ready(Ok(value))) =>
                    final(rest)@.to_api.push(WorkerToApi::Response { id: first.0, value }),
                (IpfsWorkerRequest::Dispatched(_), Polled::Ready(Err(error))) =>
                    final(rest)@.to_api.push(WorkerToApi::Fail { id: first.0, error }),
                _ => final(rest)@.to_api,
            }
        }),
{
    law_one_request_more(old(whole)@, polled@, old(rest)@, others@);
}

/// If there is nothing to poll, nothing happens.
pub proof fn law_polling_nothing<F>(
    worker: &mut IpfsWorker<F>,
    polled: Vec<Polled>,
    outcome: WorkerPoll,
)
    requires
        polled@.len() == old(worker)@.requests.len(),
        polled@.len() == 0,
        call_ensures(IpfsWorker::<F>::poll, (worker, polled, Incoming::<F>::Pending), outcome),
    ensures
        final(worker)@ == old(worker)@,
{
    law_nothing_to_poll(old(worker)@, polled@);
}

/// A new worker runs nothing and has nothing to send.
pub proof fn law_new_worker<F>(worker: IpfsWorker<F>)
    requires
        call_ensures(IpfsWorker::<F>::new, (), worker),
    ensures
        worker@.requests.len() == 0,
        worker@.to_api.len() == 0,
{
}

/// The computation at a position is the one of the request at that position, and whoever
/// polls it changes nothing else.
pub proof fn law_future_mut<F>(worker: &mut IpfsWorker<F>, n: usize, future: Option<&mut F>)
    requires
        call_ensures(IpfsWorker::<F>::future_mut, (worker, n), future),
    ensures
        future is Some <==> n < old(worker)@.requests.len() && old(worker)@.requests[n as int].1
            is Dispatched,
        final(worker)@.to_api == old(worker)@.to_api,
        final(worker)@.requests.len() == old(worker)@.requests.len(),
        forall|m: int|
            0 <= m < old(worker)@.requests.len() && (m != n || future is None) ==> (
            #[trigger] final(worker)@.requests[m]) == old(worker)@.requests[m],
        future matches Some(future) ==> {
            &&& old(worker)@.requests[n as int].1 == IpfsWorkerRequest::Dispatched(*future)
            &&& final(worker)@.requests[n as int] == (
                old(worker)@.requests[n as int].0,
                IpfsWorkerRequest::Dispatched(*final(future)),
            )
        },
{
}

/// The messages to the API come out of the outbox once, all of them and oldest first.
pub proof fn law_outbox_of_the_worker<F>(
    first: &mut IpfsWorker<F>,
    messages: Vec<WorkerToApi>,
    second: &mut IpfsWorker<F>,
    none: Vec<WorkerToApi>,
)
    requires
        call_ensures(IpfsWorker::<F>::take_to_api, (first,), messages),
        old(second)@ == final(first)@,
        call_ensures(IpfsWorker::<F>::take_to_api, (second,), none),
    ensures
        messages@ == old(first)@.to_api,
        none@.len() == 0,
        final(first)@.requests == old(first)@.requests,
{
}

/// The list for people to read has one entry for each request that is run, in the order
/// of the positions by which computations are polled.
pub proof fn law_entries_of_the_worker<F>(
    worker: &IpfsWorker<F>,
    len: usize,
    entries: Vec<(IpfsRequestId, String)>,
)
    requires
        call_ensures(IpfsWorker::<F>::len, (worker,), len),
        call_ensures(IpfsWorker::<F>::entries, (worker,), entries),
    ensures
        len == worker@.requests.len(),
        len == entries@.len(),
        forall|n: int|
            #![trigger entries@[n]]
            #![trigger worker@.requests[n]]
            0 <= n < len ==> {
                &&& entries@[n].0 == worker@.requests[n].0
                &&& worker@.requests[n].1 is Dispatched ==> entries@[n].1@
                    == "IpfsWorkerRequest::Dispatched"@
                &&& worker@.requests[n].1 is Ready ==> entries@[n].1@
                    == "IpfsWorkerRequest::Response"@
            },
{
}

/// The text about a request that is run names its state.
pub proof fn law_text_of_a_running_request<F>(request: &IpfsWorkerRequest<F>, text: String)
    requires
        call_ensures(IpfsWorkerRequest::<F>::describe, (request,), text),
    ensures
        request is Dispatched ==> text@ == "IpfsWorkerRequest::Dispatched"@,
        request is Ready ==> text@ == "IpfsWorkerRequest::Response"@,
{
}

/// A handle is handed out exactly if a request has been started, and it has the number
/// of that request.
pub proof fn law_handles(
    started: Result<IpfsRequestId, ()>,
    pending: Result<PendingRequest, IpfsError>,
)
    requires
        call_ensures(PendingRequest::new, (started,), pending),
    ensures
        pending is Ok <==> started is Ok,
        started is Ok ==> pending->Ok_0.id == started->Ok_0,
        started is Err ==> pending->Err_0 is IoError,
{
}

/// A request that runtime code makes is the request that the API starts.
pub proof fn law_new_request(
    one: &mut IpfsApi,
    two: &mut IpfsApi,
    request: IpfsRequest,
    pending: Result<PendingRequest, IpfsError>,
    started: Result<IpfsRequestId, ()>,
)
    requires
        old(one)@.wf(),
        old(two)@ == old(one)@,
        call_ensures(Request::new, (one, request), pending),
        call_ensures(IpfsApi::request_start, (two, request), started),
    ensures
        final(one)@ == final(two)@,
        pending is Ok <==> started is Ok,
        started is Ok ==> pending->Ok_0.id == started->Ok_0,
        started is Err ==> pending->Err_0 is IoError,
{
}

/// The numbers of the requests are listed in the order of the requests.
pub proof fn law_numbers_of_handles(requests: &Vec<PendingRequest>, list: Vec<IpfsRequestId>)
    requires
        call_ensures(PendingRequest::ids, (requests,), list),
    ensures
        list@.len() == requests@.len(),
        forall|i: int|
            #![trigger list@[i]]
            #![trigger requests@[i]]
            0 <= i < requests@.len() ==> list@[i] == requests@[i].id,
{
}

/// Each request is resolved by the status at its own place, as far as there are both:
/// it comes back itself if it is late, has a response with its number and the code zero
/// if it is finished, and an error otherwise.
pub proof fn law_resolve_all(
    requests: Vec<PendingRequest>,
    statuses: Vec<IpfsRequestStatus>,
    results: Vec<Result<IpfsResult, PendingRequest>>,
)
    requires
        call_ensures(PendingRequest::resolve_all, (requests, statuses), results),
    ensures
        results@.len() <= requests@.len(),
        results@.len() <= statuses@.len(),
        results@.len() == requests@.len() || results@.len() == statuses@.len(),
        forall|i: int|
            #![trigger results@[i]]
            0 <= i < results@.len() ==> match statuses@[i] {
                IpfsRequestStatus::Finished => {
                    &&& results@[i] is Ok
                    &&& results@[i]->Ok_0 is Ok
                    &&& results@[i]->Ok_0->Ok_0.id == requests@[i].id
                    &&& results@[i]->Ok_0->Ok_0.code == 0
                },
                IpfsRequestStatus::IoError => results@[i] == Ok::<IpfsResult, PendingRequest>(
                    Err(Error::IoError),
                ),
                IpfsRequestStatus::Invalid => results@[i] == Ok::<IpfsResult, PendingRequest>(
                    Err(Error::Unknown),
                ),
                IpfsRequestStatus::DeadlineReached => results@[i] is Err && results@[i]->Err_0
                    == requests@[i],
            },
{
}

/// A wait for a request goes on exactly if the request is with the worker, the deadline
/// has not passed and the worker has not gone. Otherwise it is done: with a response that
/// has the number of the request and the code zero exactly if the API holds an answer;
/// with one error if the request has failed or the worker has gone, with another if the
/// API does not know the request; and with the request itself exactly if the request is
/// with the worker.
pub proof fn law_try_wait(
    pending: PendingRequest,
    api: &mut IpfsApi,
    event: WaitEvent,
    progress: Progress<Result<IpfsResult, PendingRequest>, PendingRequest>,
    known: Map<u16, IpfsApiRequest>,
)
    requires
        old(api)@.wf(),
        call_ensures(PendingRequest::try_wait, (pending, api, event), progress),
        informed(old(api)@.requests, event, known),
    ensures
        ({
            let at = pending.id.0;
            let running = known.contains_key(at) && known[at] is Dispatched;
            match progress {
                Progress::Waiting(waiting) => {
                    &&& waiting == pending
                    &&& running
                    &&& !(event is DeadlineReached)
                    &&& !(event is WorkerGone)
                },
                Progress::Done(Err(late)) => {
                    &&& late == pending
                    &&& running
                    &&& event is DeadlineReached
                },
                Progress::Done(Ok(Ok(response))) => {
                    &&& response.id == pending.id
                    &&& response.code == 0
                    &&& known.contains_key(at)
                    &&& known[at] is Response
                    &&& !(event is WorkerGone)
                },
                Progress::Done(Ok(Err(Error::IoError))) => {
                    ||| event is WorkerGone
                    ||| known.contains_key(at) && known[at] is Fail
                },
                Progress::Done(Ok(Err(Error::Unknown))) => {
                    &&& !known.contains_key(at)
                    &&& !(event is WorkerGone)
                },
                Progress::Done(Ok(Err(Error::DeadlineReached))) => false,
            }
        }),
{
    let s = old(api)@;
    let settled = match event {
        WaitEvent::Message(message) => s.received(message),
        _ => s,
    };
    let one = seq![pending.id];
    assert(settled.requests =~= known);
    assert(one[0] == pending.id);
    assert(settled.must_wait(one) ==> settled.dispatched(one[0]));
    assert(settled.dispatched(one[0]) ==> settled.must_wait(one));
    assert(known.contains_key(pending.id.0) ==> !(known[pending.id.0] is NotDispatched)) by {
        if known.contains_key(pending.id.0) {
            assert(s.requests.contains_key(pending.id.0));
        }
    }
}

/// A wait without a deadline comes to what one with a deadline comes to.
pub proof fn law_wait(
    pending: PendingRequest,
    api: &mut IpfsApi,
    event: WaitEvent,
    progress: Progress<IpfsResult, PendingRequest>,
    other: &mut IpfsApi,
    tried: Progress<Result<IpfsResult, PendingRequest>, PendingRequest>,
)
    requires
        old(api)@.wf(),
        !(event is DeadlineReached),
        call_ensures(PendingRequest::wait, (pending, api, event), progress),
        old(other)@ == old(api)@,
        call_ensures(PendingRequest::try_wait, (pending, other, event), tried),
    ensures
        final(api)@ == final(other)@,
        match progress {
            Progress::Done(result) => tried == Progress::<
                Result<IpfsResult, PendingRequest>,
                PendingRequest,
            >::Done(Ok(result)),
            Progress::Waiting(waiting) => waiting == pending && tried == Progress::<
                Result<IpfsResult, PendingRequest>,
                PendingRequest,
            >::Waiting(pending),
        },
{
}

/// To wait for one request does to the API what a wait for its number alone does.
pub proof fn law_try_wait_is_a_wait_for_one(
    pending: PendingRequest,
    api: &mut IpfsApi,
    event: WaitEvent,
    progress: Progress<Result<IpfsResult, PendingRequest>, PendingRequest>,
    other: &mut IpfsApi,
    list: &[IpfsRequestId],
    report: Option<Vec<IpfsRequestStatus>>,
)
    requires
        old(api)@.wf(),
        call_ensures(PendingRequest::try_wait, (pending, api, event), progress),
        old(other)@ == old(api)@,
        list@.len() == 1,
        list@[0] == pending.id,
        call_ensures(IpfsApi::response_wait, (other, list, event), report),
    ensures
        final(api)@ == final(other)@,
        progress is Done <==> report is Some,
{
    assert(list@ =~= seq![pending.id]);
}

/// To wait for many requests does to the API what a wait for their numbers does. It is
/// done exactly when that is, with one result for each request; until then the requests
/// come back as they are.
pub proof fn law_try_wait_all(
    requests: Vec<PendingRequest>,
    api: &mut IpfsApi,
    event: WaitEvent,
    progress: Progress<Vec<Result<IpfsResult, PendingRequest>>, Vec<PendingRequest>>,
    other: &mut IpfsApi,
    list: &[IpfsRequestId],
    report: Option<Vec<IpfsRequestStatus>>,
)
    requires
        old(api)@.wf(),
        call_ensures(PendingRequest::try_wait_all, (requests, api, event), progress),
        old(other)@ == old(api)@,
        list@.len() == requests@.len(),
        forall|i: int| 0 <= i < list@.len() ==> (#[trigger] list@[i]) == requests@[i].id,
        call_ensures(IpfsApi::response_wait, (other, list, event), report),
    ensures
        final(api)@ == final(other)@,
        match progress {
            Progress::Done(results) => report is Some && results@.len() == requests@.len(),
            Progress::Waiting(waiting) => report is None && waiting == requests,
        },
{
    assert(list@ =~= ids(requests@));
    if report is Some {
        law_reports_are_complete(old(api)@, list@, event);
    }
}

/// In a wait for many requests, each of them gets at its own place the result that a wait
/// for it alone gets.
pub proof fn law_many_waits_in_one(
    requests: Vec<PendingRequest>,
    api: &mut IpfsApi,
    event: WaitEvent,
    results: Vec<Result<IpfsResult, PendingRequest>>,
    i: int,
    other: &mut IpfsApi,
    progress: Progress<Result<IpfsResult, PendingRequest>, PendingRequest>,
)
    requires
        old(api)@.wf(),
        call_ensures(
            PendingRequest::try_wait_all,
            (requests, api, event),
            Progress::<Vec<Result<IpfsResult, PendingRequest>>, Vec<PendingRequest>>::Done(results),
        ),
        0 <= i < requests@.len(),
        old(other)@ == old(api)@,
        call_ensures(PendingRequest::try_wait, (requests@[i], other, event), progress),
    ensures
        results@.len() == requests@.len(),
        progress == Progress::<Result<IpfsResult, PendingRequest>, PendingRequest>::Done(
            results@[i],
        ),
{
    law_each_request_gets_its_own_result(old(api)@, requests@, event, i);
}

/// A wait for many requests without a deadline comes to what one with a deadline comes to.
pub proof fn law_wait_all(
    requests: Vec<PendingRequest>,
    api: &mut IpfsApi,
    event: WaitEvent,
    progress: Progress<Vec<IpfsResult>, Vec<PendingRequest>>,
    other: &mut IpfsApi,
    tried: Progress<Vec<Result<IpfsResult, PendingRequest>>, Vec<PendingRequest>>,
)
    requires
        old(api)@.wf(),
        !(event is DeadlineReached),
        call_ensures(PendingRequest::wait_all, (requests, api, event), progress),
        old(other)@ == old(api)@,
        call_ensures(PendingRequest::try_wait_all, (requests, other, event), tried),
    ensures
        final(api)@ == final(other)@,
        match progress {
            Progress::Done(results) => {
                &&& tried is Done
                &&& tried->Done_0@.len() == requests@.len()
                &&& results@.len() == requests@.len()
                &&& forall|i: int|
                    0 <= i < results@.len() ==> Ok::<IpfsResult, PendingRequest>(
                        #[trigger] results@[i],
                    ) == tried->Done_0@[i]
            },
            Progress::Waiting(waiting) => {
                &&& tried is Waiting
                &&& waiting == requests
                &&& tried->Waiting_0 == requests
            },
        },
{
    if let Progress::Done(results) = progress {
        law_late_only_after_deadline(old(api)@, requests@, event);
        let all = results@.map_values(
            |result: IpfsResult| Ok::<IpfsResult, PendingRequest>(result),
        );
        assert(all == tried->Done_0@);
        assert forall|i: int| 0 <= i < results@.len() implies Ok::<IpfsResult, PendingRequest>(
            #[trigger] results@[i],
        ) == tried->Done_0@[i] by {
            assert(all[i] == tried->Done_0@[i]);
        }
    }
}

/// The body of a response belongs to the request of the response; there is no error and
/// no deadline yet. A deadline that is set stays, and clears the error.
pub proof fn law_body(
    response: &Response,
    first: ResponseBody,
    body: &mut ResponseBody,
    deadline: Option<Timestamp>,
    before: &ResponseBody,
    before_error: &Option<IpfsError>,
    after: &ResponseBody,
    after_error: &Option<IpfsError>,
)
    requires
        call_ensures(Response::body, (response,), first),
        call_ensures(ResponseBody::deadline, (body, deadline), ()),
        before@ == first@,
        call_ensures(ResponseBody::error, (before,), before_error),
        after@ == final(body)@,
        call_ensures(ResponseBody::error, (after,), after_error),
    ensures
        first@.id == response.id,
        first@.deadline is None,
        *before_error is None,
        final(body)@.id == old(body)@.id,
        final(body)@.deadline == deadline,
        *after_error is None,
{
}

/// An error is read as it is held.
pub proof fn law_error_of_a_body(body: &ResponseBody, error: &Option<IpfsError>)
    requires
        call_ensures(ResponseBody::error, (body,), error),
    ensures
        *error == body@.error,
{
}

} // verus!

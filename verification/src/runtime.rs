//! Handles on IPFS requests for runtime code.
use crate::api::{law_reports_are_complete, ApiState, IpfsApi, WaitEvent};
use crate::offchain::{IpfsError, IpfsRequest, IpfsRequestId, IpfsRequestStatus, Timestamp};
use vstd::prelude::*;

verus! {

/// An IPFS request.
#[derive(Clone, Copy, PartialEq, Eq, Structural, Debug)]
pub struct Request(pub IpfsRequest);

impl Request {
    /// Starts a request and hands out a handle on it.
    pub fn new(api: &mut IpfsApi, request: IpfsRequest) -> (started: Result<
        PendingRequest,
        IpfsError,
    >)
        requires
            old(api)@.wf(),
        ensures
            final(api)@.wf(),
            old(api)@.next_id < u16::MAX ==> started == Ok::<PendingRequest, IpfsError>(
                PendingRequest { id: IpfsRequestId(old(api)@.next_id) },
            ) && final(api)@ == old(api)@.started(request),
            old(api)@.next_id == u16::MAX ==> started == Err::<PendingRequest, IpfsError>(
                IpfsError::IoError,
            ) && final(api)@ == old(api)@,
    {
        PendingRequest::new(api.request_start(request))
    }
}

/// Why a request was not answered.
#[derive(Clone, Copy, PartialEq, Eq, Structural, Debug)]
pub enum Error {
    /// The deadline has been reached.
    DeadlineReached,
    /// The request failed.
    IoError,
    /// The cause is not known.
    Unknown,
}

/// A request that has not been waited for yet.
#[derive(PartialEq, Eq, Structural, Debug)]
pub struct PendingRequest {
    /// Identifies the request.
    pub id: IpfsRequestId,
}

/// What comes of waiting for a request.
pub type IpfsResult = Result<Response, Error>;

/// How a wait stands.
pub enum Progress<T, W> {
    /// The wait is over.
    Done(T),
    /// Something else has to happen first; these are the requests that are waited for.
    Waiting(W),
}

/// The identifiers of the requests.
pub open spec fn ids(requests: Seq<PendingRequest>) -> Seq<IpfsRequestId> {
    requests.map_values(|request: PendingRequest| request.id)
}

/// What comes of waiting for `request` when the wait ends with `status`: the
/// request itself if it is late, otherwise a response or an error.
pub open spec fn resolved(request: PendingRequest, status: IpfsRequestStatus) -> Result<
    IpfsResult,
    PendingRequest,
> {
    match status {
        IpfsRequestStatus::DeadlineReached => Err(request),
        IpfsRequestStatus::IoError => Ok(Err(Error::IoError)),
        IpfsRequestStatus::Invalid => Ok(Err(Error::Unknown)),
        IpfsRequestStatus::Finished => Ok(Ok(Response { id: request.id, code: 0 })),
    }
}

/// What comes of waiting for the requests when the wait ends with `statuses`: one
/// result for each request that there is a status for.
pub open spec fn all_resolved(
    requests: Seq<PendingRequest>,
    statuses: Seq<IpfsRequestStatus>,
) -> Seq<Result<IpfsResult, PendingRequest>> {
    Seq::new(
        if requests.len() <= statuses.len() {
            requests.len()
        } else {
            statuses.len()
        },
        |i: int| resolved(requests[i], statuses[i]),
    )
}

/// A wait that ends for another reason than its deadline tells of no request that
/// it is late, and tells of every request.
pub proof fn law_late_only_after_deadline(
    state: ApiState,
    requests: Seq<PendingRequest>,
    event: WaitEvent,
)
    requires
        state.wf(),
        !(event is DeadlineReached),
        state.waited(ids(requests), event).1 is Some,
    ensures
        all_resolved(requests, state.waited(ids(requests), event).1->0).len() == requests.len(),
        forall|i: int|
            0 <= i < requests.len() ==> (#[trigger] all_resolved(
                requests,
                state.waited(ids(requests), event).1->0,
            )[i]) is Ok,
{
    let ids = ids(requests);
    let settled = match event {
        WaitEvent::Message(message) => state.received(message),
        _ => state,
    };
    assert forall|i: int| 0 <= i < requests.len() implies (#[trigger] all_resolved(
        requests,
        state.waited(ids, event).1->0,
    )[i]) is Ok by {
        if !(event is WorkerGone) {
            assert(!settled.dispatched(ids[i]));
        }
    }
}

/// Whether a request has been answered is told of that request: what comes of it in a
/// wait for many is what would come of it in a wait for it alone.
pub proof fn law_each_request_gets_its_own_result(
    state: ApiState,
    requests: Seq<PendingRequest>,
    event: WaitEvent,
    i: int,
)
    requires
        state.waited(ids(requests), event).1 is Some,
        0 <= i < requests.len(),
    ensures
        all_resolved(requests, state.waited(ids(requests), event).1->0).len() == requests.len(),
        state.waited(seq![requests[i].id], event).1 is Some,
        all_resolved(requests, state.waited(ids(requests), event).1->0)[i] == resolved(
            requests[i],
            state.waited(seq![requests[i].id], event).1->0[0],
        ),
{
    let list = ids(requests);
    law_reports_are_complete(state, list, event);
    assert(list[i] == requests[i].id);
    assert(state.waited(seq![list[i]], event).1 == Some(seq![state.waited(list, event).1->0[i]]));
}

/// What a wait for one request comes to, if the worker has not gone: a response with the
/// number of the request and the code zero if the API holds an answer to it; an error if
/// it has failed; another error if the API does not know it; and the request itself
/// exactly if it is with the worker when the deadline passes.
pub proof fn law_result_is_what_the_api_knows(
    state: ApiState,
    request: PendingRequest,
    event: WaitEvent,
)
    requires
        state.wf(),
        event is Start || event is DeadlineReached,
        state.waited(seq![request.id], event).1 is Some,
    ensures
        ({
            let result = resolved(request, state.waited(seq![request.id], event).1->0[0]);
            let known = state.requests.contains_key(request.id.0);
            let entry = state.requests[request.id.0];
            &&& result matches Ok(Ok(response)) ==> response.id == request.id && response.code == 0
            &&& result matches Err(pending) ==> pending == request
            &&& (result is Ok && result->Ok_0 is Ok) <==> known && entry is Response
            &&& (result == Ok::<IpfsResult, PendingRequest>(Err(Error::IoError))) <==> known
                && entry is Fail
            &&& (result == Ok::<IpfsResult, PendingRequest>(Err(Error::Unknown))) <==> !known
            &&& result is Err <==> known && entry is Dispatched && event is DeadlineReached
        }),
{
    if event is Start {
        assert(!state.must_wait(seq![request.id]));
        assert(!state.dispatched(seq![request.id][0]));
    }
}

impl PendingRequest {
    /// Turns what the host answers to the start of a request into a handle on it.
    pub fn new(started: Result<IpfsRequestId, ()>) -> (pending: Result<PendingRequest, IpfsError>)
        ensures
            pending == match started {
                Ok(id) => Ok::<PendingRequest, IpfsError>(PendingRequest { id }),
                Err(_) => Err::<PendingRequest, IpfsError>(IpfsError::IoError),
            },
    {
        match started {
            Ok(id) => Ok(PendingRequest { id }),
            Err(_) => Err(IpfsError::IoError),
        }
    }

    /// The identifiers of the requests.
    pub fn ids(requests: &Vec<PendingRequest>) -> (list: Vec<IpfsRequestId>)
        ensures
            list@ == ids(requests@),
    {
        let mut list: Vec<IpfsRequestId> = Vec::with_capacity(requests.len());
        for n in 0..requests.len()
            invariant
                list@.len() == n,
                forall|i: int| 0 <= i < n ==> list@[i] == requests@[i].id,
        {
            list.push(requests[n].id);
        }
        assert(list@ == ids(requests@));
        list
    }

    /// What comes of waiting for the requests when the wait ends with `statuses`.
    pub fn resolve_all(requests: Vec<PendingRequest>, statuses: Vec<IpfsRequestStatus>) -> (results:
        Vec<Result<IpfsResult, PendingRequest>>)
        ensures
            results@ == all_resolved(requests@, statuses@),
    {
        let mut results: Vec<Result<IpfsResult, PendingRequest>> = Vec::new();
        let mut n: usize = 0;
        while n < requests.len() && n < statuses.len()
            invariant
                n <= requests@.len(),
                n <= statuses@.len(),
                results@.len() == n,
                forall|i: int|
                    0 <= i < n ==> results@[i] == resolved(requests@[i], statuses@[i]),
            decreases requests@.len() - n,
        {
            let id: IpfsRequestId = requests[n].id;
            results.push(
                match statuses[n] {
                    IpfsRequestStatus::DeadlineReached => Err(PendingRequest { id }),
                    IpfsRequestStatus::IoError => Ok(Err(Error::IoError)),
                    IpfsRequestStatus::Invalid => Ok(Err(Error::Unknown)),
                    IpfsRequestStatus::Finished => Ok(Ok(Response::new(id, 0))),
                },
            );
            n = n + 1;
        }
        results
    }

    /// Waits for all of the requests, up to a deadline: call it with
    /// [`WaitEvent::Start`], and after that with whatever happens next, until it is
    /// done.
    ///
    /// Requests that are complete come out as `Ok`; the others are handed back.
    pub fn try_wait_all(
        requests: Vec<PendingRequest>,
        api: &mut IpfsApi,
        event: WaitEvent,
    ) -> (progress: Progress<Vec<Result<IpfsResult, PendingRequest>>, Vec<PendingRequest>>)
        requires
            old(api)@.wf(),
        ensures
            final(api)@.wf(),
            final(api)@ == old(api)@.waited(ids(requests@), event).0,
            match progress {
                Progress::Done(results) => {
                    &&& old(api)@.waited(ids(requests@), event).1 is Some
                    &&& results@ == all_resolved(
                        requests@,
                        old(api)@.waited(ids(requests@), event).1->0,
                    )
                },
                Progress::Waiting(waiting) => {
                    &&& old(api)@.waited(ids(requests@), event).1 is None
                    &&& waiting == requests
                },
            },
    {
        let list: Vec<IpfsRequestId> = Self::ids(&requests);
        match api.response_wait(list.as_slice(), event) {
            Some(statuses) => Progress::Done(Self::resolve_all(requests, statuses)),
            None => Progress::Waiting(requests),
        }
    }

    /// Waits for the request, up to a deadline. The request is handed back if the
    /// deadline is reached.
    pub fn try_wait(self, api: &mut IpfsApi, event: WaitEvent) -> (progress: Progress<
        Result<IpfsResult, PendingRequest>,
        PendingRequest,
    >)
        requires
            old(api)@.wf(),
        ensures
            final(api)@.wf(),
            final(api)@ == old(api)@.waited(seq![self.id], event).0,
            match progress {
                Progress::Done(result) => {
                    &&& old(api)@.waited(seq![self.id], event).1 is Some
                    &&& result == resolved(self, old(api)@.waited(seq![self.id], event).1->0[0])
                },
                Progress::Waiting(waiting) => {
                    &&& old(api)@.waited(seq![self.id], event).1 is None
                    &&& waiting == self
                },
            },
    {
        let ghost request = self;
        let mut requests: Vec<PendingRequest> = Vec::new();
        requests.push(self);
        assert(ids(requests@) == seq![request.id]);
        match Self::try_wait_all(requests, api, event) {
            Progress::Done(results) => {
                let mut results: Vec<Result<IpfsResult, PendingRequest>> = results;
                Progress::Done(results.pop().unwrap())
            },
            Progress::Waiting(waiting) => {
                let mut waiting: Vec<PendingRequest> = waiting;
                Progress::Waiting(waiting.pop().unwrap())
            },
        }
    }

    /// Waits for all of the requests, without a deadline.
    pub fn wait_all(
        requests: Vec<PendingRequest>,
        api: &mut IpfsApi,
        event: WaitEvent,
    ) -> (progress: Progress<Vec<IpfsResult>, Vec<PendingRequest>>)
        requires
            old(api)@.wf(),
            !(event is DeadlineReached),
        ensures
            final(api)@.wf(),
            final(api)@ == old(api)@.waited(ids(requests@), event).0,
            match progress {
                Progress::Done(results) => {
                    &&& old(api)@.waited(ids(requests@), event).1 is Some
                    &&& results@.map_values(
                        |result: IpfsResult| Ok::<IpfsResult, PendingRequest>(result),
                    ) == all_resolved(requests@, old(api)@.waited(ids(requests@), event).1->0)
                },
                Progress::Waiting(waiting) => {
                    &&& old(api)@.waited(ids(requests@), event).1 is None
                    &&& waiting == requests
                },
            },
    {
        let ghost before = api@;
        let ghost pending = requests@;
        match Self::try_wait_all(requests, api, event) {
            Progress::Done(resolved) => {
                proof {
                    law_late_only_after_deadline(before, pending, event);
                }
                let ghost all = resolved@;
                let mut results: Vec<IpfsResult> = Vec::with_capacity(resolved.len());
                for result in walk: resolved
                    invariant
                        walk.seq() == all,
                        results@.len() == walk.index(),
                        forall|i: int| 0 <= i < all.len() ==> (#[trigger] all[i]) is Ok,
                        forall|i: int|
                            0 <= i < results@.len() ==> Ok::<IpfsResult, PendingRequest>(
                                #[trigger] results@[i],
                            ) == all[i],
                {
                    assert(result == all[walk.index()]);
                    if let Ok(result) = result {
                        results.push(result);
                    }
                }
                assert(results@.map_values(
                    |result: IpfsResult| Ok::<IpfsResult, PendingRequest>(result),
                ) == all);
                Progress::Done(results)
            },
            Progress::Waiting(waiting) => Progress::Waiting(waiting),
        }
    }

    /// Waits for the request, without a deadline.
    ///
    /// The wait can last for ever.
    pub fn wait(self, api: &mut IpfsApi, event: WaitEvent) -> (progress: Progress<
        IpfsResult,
        PendingRequest,
    >)
        requires
            old(api)@.wf(),
            !(event is DeadlineReached),
        ensures
            final(api)@.wf(),
            final(api)@ == old(api)@.waited(seq![self.id], event).0,
            match progress {
                Progress::Done(result) => {
                    &&& old(api)@.waited(seq![self.id], event).1 is Some
                    &&& Ok::<IpfsResult, PendingRequest>(result) == resolved(
                        self,
                        old(api)@.waited(seq![self.id], event).1->0[0],
                    )
                },
                Progress::Waiting(waiting) => {
                    &&& old(api)@.waited(seq![self.id], event).1 is None
                    &&& waiting == self
                },
            },
    {
        proof {
            if api@.waited(seq![self.id], event).1 is Some {
                assert(ids(seq![self]) == seq![self.id]);
                law_late_only_after_deadline(api@, seq![self], event);
                let results = all_resolved(seq![self], api@.waited(seq![self.id], event).1->0);
                assert(results[0] is Ok);
            }
        }
        match self.try_wait(api, event) {
            Progress::Done(Ok(result)) => Progress::Done(result),
            Progress::Done(Err(pending)) => Progress::Waiting(pending),
            Progress::Waiting(pending) => Progress::Waiting(pending),
        }
    }
}

/// The response to a request.
#[derive(PartialEq, Eq, Structural, Debug)]
pub struct Response {
    /// Identifies the request.
    pub id: IpfsRequestId,
    /// The status code of the response.
    pub code: u16,
}

impl Response {
    fn new(id: IpfsRequestId, code: u16) -> (response: Response)
        ensures
            response == (Response { id, code }),
    {
        Response { id, code }
    }

    /// The body of the response.
    pub fn body(&self) -> (body: ResponseBody)
        ensures
            body@ == (BodyState { id: self.id, error: None, deadline: None }),
    {
        ResponseBody::new(self.id)
    }
}

/// The mathematical content of a [`ResponseBody`].
pub struct BodyState {
    /// Identifies the request.
    pub id: IpfsRequestId,
    /// What kept the body from being read on.
    pub error: Option<IpfsError>,
    /// When reading has to be done.
    pub deadline: Option<Timestamp>,
}

/// The body of a response.
#[derive(Clone, Copy, Debug)]
pub struct ResponseBody {
    id: IpfsRequestId,
    error: Option<IpfsError>,
    deadline: Option<Timestamp>,
}

impl View for ResponseBody {
    type V = BodyState;

    closed spec fn view(&self) -> BodyState {
        BodyState { id: self.id, error: self.error, deadline: self.deadline }
    }
}

impl ResponseBody {
    fn new(id: IpfsRequestId) -> (body: ResponseBody)
        ensures
            body@ == (BodyState { id, error: None, deadline: None }),
    {
        ResponseBody { id, error: None, deadline: None }
    }

    /// Sets the deadline for reading the body. An earlier error is forgotten, so
    /// that reading can go on after [`IpfsError::DeadlineReached`].
    pub fn deadline(&mut self, deadline: Option<Timestamp>)
        ensures
            final(self)@ == (BodyState { id: old(self)@.id, error: None, deadline }),
    {
        self.deadline = deadline;
        self.error = None;
    }

    /// The error that kept the body from being read on.
    pub fn error(&self) -> (error: &Option<IpfsError>)
        ensures
            *error == self@.error,
    {
        &self.error
    }
}

} // verus!

//! The side of the client that offchain workers talk to.
use crate::offchain::{IpfsRequest, IpfsRequestId, IpfsRequestStatus, OpaqueMultiaddr};
use crate::requests;
use crate::worker::IpfsWorker;
use fnv::FnvHashMap;
use vstd::prelude::*;

verus! {

/// The public key of a node in its encoded form.
#[derive(PartialEq, Eq, Debug)]
pub struct PublicKey(pub Vec<u8>);

/// The identifier of a block in its encoded form.
#[derive(PartialEq, Eq, Debug)]
pub struct Cid(pub Vec<u8>);

/// What the IPFS engine reports when it cannot serve a request.
#[derive(PartialEq, Eq, Debug)]
pub struct NodeError {
    /// The text that `{:?}` gives of the engine's own error.
    pub message: String,
}

/// What the IPFS engine answers.
#[derive(PartialEq, Eq, Debug)]
pub enum IpfsResponse {
    /// Answers [`IpfsRequest::Identity`].
    Identity(PublicKey, Vec<OpaqueMultiaddr>),
    /// Answers [`IpfsRequest::LocalRefs`].
    LocalRefs(Vec<Cid>),
}

/// One request that the API knows of.
pub enum IpfsApiRequest {
    /// Not handed to the worker yet.
    NotDispatched(IpfsRequest),
    /// Handed to the worker, not answered yet.
    Dispatched,
    /// Answered.
    Response(IpfsResponse),
    /// Failed.
    Fail(NodeError),
}

impl IpfsApiRequest {
    /// The text of [`IpfsApiRequest::describe`].
    pub open spec fn description(self) -> Seq<char> {
        match self {
            IpfsApiRequest::NotDispatched(_) => "IpfsApiRequest::NotDispatched"@,
            IpfsApiRequest::Dispatched => "IpfsApiRequest::Dispatched"@,
            IpfsApiRequest::Response(_) => "IpfsApiRequest::Response"@,
            IpfsApiRequest::Fail(error) => "IpfsApiRequest::Fail("@ + error.message@ + ")"@,
        }
    }

    /// A text for people to read.
    pub fn describe(&self) -> (text: String)
        ensures
            text@ == self.description(),
    {
        match self {
            IpfsApiRequest::NotDispatched(_) => "IpfsApiRequest::NotDispatched".to_owned(),
            IpfsApiRequest::Dispatched => "IpfsApiRequest::Dispatched".to_owned(),
            IpfsApiRequest::Response(_) => "IpfsApiRequest::Response".to_owned(),
            IpfsApiRequest::Fail(error) => {
                let mut text: String = "IpfsApiRequest::Fail(".to_owned();
                text.append(error.message.as_str());
                text.append(")");
                text
            },
        }
    }
}

/// Message from the API to the worker.
#[derive(Clone, Copy, PartialEq, Eq, Structural, Debug)]
pub enum ApiToWorker {
    /// Runs a new request.
    Dispatch {
        /// The identifier under which to answer.
        id: IpfsRequestId,
        /// The request to run.
        request: IpfsRequest,
    },
}

/// Message from the worker to the API.
#[derive(PartialEq, Eq, Debug)]
pub enum WorkerToApi {
    /// A request has succeeded.
    Response {
        /// The identifier that came with the request.
        id: IpfsRequestId,
        /// The answer.
        value: IpfsResponse,
    },
    /// A request has failed.
    Fail {
        /// The identifier that came with the request.
        id: IpfsRequestId,
        /// What went wrong.
        error: NodeError,
    },
}

impl ApiToWorker {
    /// The request that the message is about.
    pub open spec fn id(self) -> IpfsRequestId {
        match self {
            ApiToWorker::Dispatch { id, .. } => id,
        }
    }
}

impl WorkerToApi {
    /// The request that the message is about.
    pub open spec fn id(self) -> IpfsRequestId {
        match self {
            WorkerToApi::Response { id, .. } => id,
            WorkerToApi::Fail { id, .. } => id,
        }
    }

    /// What the API knows of a request once this message about it has arrived.
    pub open spec fn outcome(self) -> IpfsApiRequest {
        match self {
            WorkerToApi::Response { value, .. } => IpfsApiRequest::Response(value),
            WorkerToApi::Fail { error, .. } => IpfsApiRequest::Fail(error),
        }
    }
}

/// What happens while [`IpfsApi::response_wait`] waits.
pub enum WaitEvent {
    /// The wait begins.
    Start,
    /// The worker has sent a message.
    Message(WorkerToApi),
    /// The worker has gone away, and no message will come any more.
    WorkerGone,
    /// The deadline has passed without a message.
    DeadlineReached,
}

/// The mathematical content of an [`IpfsApi`].
#[verifier::ext_equal]
pub struct ApiState {
    /// The number of the next request.
    pub next_id: u16,
    /// The requests that are known, by their numbers.
    pub requests: Map<u16, IpfsApiRequest>,
    /// Messages to the worker that still have to be sent, oldest first.
    pub to_worker: Seq<ApiToWorker>,
}

impl ApiState {
    /// Numbers have been handed out in ascending order, and every request that
    /// is known has been given to the worker.
    pub open spec fn wf(self) -> bool {
        forall|id: u16| #[trigger]
            self.requests.contains_key(id) ==> id < self.next_id && !(
            self.requests[id] is NotDispatched)
    }

    /// Request `id` is with the worker.
    pub open spec fn dispatched(self, id: IpfsRequestId) -> bool {
        self.requests.contains_key(id.0) && self.requests[id.0] is Dispatched
    }

    /// Request `id` has failed.
    pub open spec fn failed(self, id: IpfsRequestId) -> bool {
        self.requests.contains_key(id.0) && self.requests[id.0] is Fail
    }

    /// How far request `id` has come. A request that is still with the worker is
    /// reported as late.
    pub open spec fn status(self, id: IpfsRequestId) -> IpfsRequestStatus {
        if !self.requests.contains_key(id.0) {
            IpfsRequestStatus::Invalid
        } else {
            match self.requests[id.0] {
                IpfsApiRequest::Response(_) => IpfsRequestStatus::Finished,
                IpfsApiRequest::Fail(_) => IpfsRequestStatus::IoError,
                _ => IpfsRequestStatus::DeadlineReached,
            }
        }
    }

    /// How far each of the requests has come.
    pub open spec fn statuses(self, ids: Seq<IpfsRequestId>) -> Seq<IpfsRequestStatus> {
        ids.map_values(|id: IpfsRequestId| self.status(id))
    }

    /// One of the requests is still with the worker.
    pub open spec fn must_wait(self, ids: Seq<IpfsRequestId>) -> bool {
        exists|i: int| 0 <= i < ids.len() && self.dispatched(#[trigger] ids[i])
    }

    /// The state after `request` has been started, where a number was left.
    pub open spec fn started(self, request: IpfsRequest) -> ApiState {
        ApiState {
            next_id: (self.next_id + 1) as u16,
            requests: self.requests.insert(self.next_id, IpfsApiRequest::Dispatched),
            to_worker: self.to_worker.push(
                ApiToWorker::Dispatch { id: IpfsRequestId(self.next_id), request },
            ),
        }
    }

    /// The state after a message from the worker. It settles a request that was
    /// with the worker. A message about a request that was settled before makes
    /// the API forget that request.
    pub open spec fn received(self, message: WorkerToApi) -> ApiState {
        ApiState {
            requests: if self.dispatched(message.id()) {
                self.requests.insert(message.id().0, message.outcome())
            } else {
                self.requests.remove(message.id().0)
            },
            ..self
        }
    }

    /// The state without those of the requests that have failed.
    pub open spec fn purged(self, ids: Seq<IpfsRequestId>) -> ApiState {
        ApiState {
            requests: self.requests.remove_keys(
                Set::new(
                    |id: u16| self.failed(IpfsRequestId(id)) && ids.contains(IpfsRequestId(id)),
                ),
            ),
            ..self
        }
    }

    /// The state, and what is reported if the wait for `ids` is over: because none
    /// of them is with the worker any more, or because it is `late`.
    pub open spec fn settled(self, ids: Seq<IpfsRequestId>, late: bool) -> (
        ApiState,
        Option<Seq<IpfsRequestStatus>>,
    ) {
        if late || !self.must_wait(ids) {
            (self.purged(ids), Some(self.statuses(ids)))
        } else {
            (self, None)
        }
    }

    /// The state after `event` in a wait for `ids`, and what is reported if the
    /// wait is over.
    pub open spec fn waited(self, ids: Seq<IpfsRequestId>, event: WaitEvent) -> (
        ApiState,
        Option<Seq<IpfsRequestStatus>>,
    ) {
        match event {
            WaitEvent::Start => self.settled(ids, false),
            WaitEvent::Message(message) => self.received(message).settled(ids, false),
            WaitEvent::WorkerGone => (
                self,
                Some(ids.map_values(|id: IpfsRequestId| IpfsRequestStatus::IoError)),
            ),
            WaitEvent::DeadlineReached => self.settled(ids, true),
        }
    }
}

/// The number that the next request gets is not in use, and the one after it gets
/// the next number.
pub proof fn law_numbers_are_new(state: ApiState, request: IpfsRequest)
    requires
        state.wf(),
        state.next_id < u16::MAX,
    ensures
        !state.requests.contains_key(state.next_id),
        state.started(request).wf(),
        state.started(request).next_id == state.next_id + 1,
        state.started(request).dispatched(IpfsRequestId(state.next_id)),
{
}

/// A report tells of each request that is waited for, in the order in which they
/// are waited for, what a wait for that request alone would have ended with.
pub proof fn law_reports_are_complete(state: ApiState, ids: Seq<IpfsRequestId>, event: WaitEvent)
    requires
        state.waited(ids, event).1 is Some,
    ensures
        state.waited(ids, event).1->0.len() == ids.len(),
        forall|i: int|
            0 <= i < ids.len() ==> #[trigger] state.waited(seq![ids[i]], event).1 == Some(
                seq![state.waited(ids, event).1->0[i]],
            ),
{
    let settled = match event {
        WaitEvent::Message(message) => state.received(message),
        _ => state,
    };
    assert forall|i: int| 0 <= i < ids.len() implies #[trigger] state.waited(seq![ids[i]], event).1
        == Some(seq![state.waited(ids, event).1->0[i]]) by {
        let one = seq![ids[i]];
        if !(event is DeadlineReached || event is WorkerGone) {
            assert(!settled.dispatched(ids[i]));
            assert(!settled.must_wait(one));
        }
        assert(state.waited(one, event).1->0 == seq![state.waited(ids, event).1->0[i]]);
    }
}

/// A wait is over exactly if the wait for each of the requests alone would be; and the
/// wait for one request goes on exactly if the request is with the worker, no message
/// about it has come, the deadline has not passed and the worker has not gone.
pub proof fn law_waits_are_over_in_time(state: ApiState, ids: Seq<IpfsRequestId>, event: WaitEvent)
    ensures
        state.waited(ids, event).1 is Some <==> forall|i: int|
            0 <= i < ids.len() ==> (#[trigger] state.waited(seq![ids[i]], event)).1 is Some,
        forall|id: IpfsRequestId|
            (#[trigger] state.waited(seq![id], event)).1 is None <==> {
                &&& state.requests.contains_key(id.0)
                &&& state.requests[id.0] is Dispatched
                &&& event is Start || event is Message
                &&& !(event matches WaitEvent::Message(WorkerToApi::Response { id: settled, .. })
                    && settled == id)
                &&& !(event matches WaitEvent::Message(WorkerToApi::Fail { id: settled, .. })
                    && settled == id)
            },
{
    let settled = match event {
        WaitEvent::Message(message) => state.received(message),
        _ => state,
    };
    assert forall|id: IpfsRequestId| #[trigger] settled.dispatched(id) <==> settled.must_wait(
        seq![id],
    ) by {
        if settled.dispatched(id) {
            assert(settled.dispatched(seq![id][0]));
        }
    }
    if event is Start || event is Message {
        if state.waited(ids, event).1 is None {
            let i = choose|i: int| 0 <= i < ids.len() && settled.dispatched(#[trigger] ids[i]);
            assert(state.waited(seq![ids[i]], event).1 is None);
        } else {
            assert forall|i: int| 0 <= i < ids.len() implies (#[trigger] state.waited(
                seq![ids[i]],
                event,
            )).1 is Some by {
                assert(!settled.dispatched(ids[i]));
            }
        }
    }
    assert forall|id: IpfsRequestId|
        (#[trigger] state.waited(seq![id], event)).1 is None implies settled.dispatched(id) by {}
    assert forall|id: IpfsRequestId|
        settled.dispatched(id) && (event is Start || event is Message) implies (
    #[trigger] state.waited(seq![id], event)).1 is None by {
        assert(settled.must_wait(seq![id]));
    }
}

/// A wait that passes its deadline or finds the worker gone is over.
pub proof fn law_waits_can_be_ended(state: ApiState, ids: Seq<IpfsRequestId>, event: WaitEvent)
    requires
        event is DeadlineReached || event is WorkerGone,
    ensures
        state.waited(ids, event).1 is Some,
{
}

/// An answer that arrives for a request with the worker ends the wait for that
/// request, which is then, and whenever it is waited for again, finished.
pub proof fn law_answers_are_reported(state: ApiState, id: IpfsRequestId, value: IpfsResponse)
    requires
        state.dispatched(id),
    ensures
        ({
            let answer = WorkerToApi::Response { id, value };
            let (after, report) = state.waited(seq![id], WaitEvent::Message(answer));
            &&& after.requests == state.requests.insert(id.0, IpfsApiRequest::Response(value))
            &&& report == Some(seq![IpfsRequestStatus::Finished])
            &&& after.waited(seq![id], WaitEvent::Start) == (after, report)
        }),
{
    let answer = WorkerToApi::Response { id, value };
    let received = state.received(answer);
    assert(!received.must_wait(seq![id]));
    assert(received.purged(seq![id]) == received);
    assert(received.statuses(seq![id]) == seq![IpfsRequestStatus::Finished]);
}

/// A failure that arrives for a request with the worker ends the wait for that
/// request and is reported once: after that, the request is not valid any more.
pub proof fn law_failures_are_reported_once(state: ApiState, id: IpfsRequestId, error: NodeError)
    requires
        state.dispatched(id),
    ensures
        ({
            let failure = WorkerToApi::Fail { id, error };
            let (after, report) = state.waited(seq![id], WaitEvent::Message(failure));
            &&& after.requests == state.requests.remove(id.0)
            &&& report == Some(seq![IpfsRequestStatus::IoError])
            &&& after.waited(seq![id], WaitEvent::Start) == (
                after,
                Some(seq![IpfsRequestStatus::Invalid]),
            )
        }),
{
    let failure = WorkerToApi::Fail { id, error };
    let received = state.received(failure);
    let after = received.purged(seq![id]);
    assert(seq![id][0] == id);
    assert(seq![id].contains(id));
    assert(!received.must_wait(seq![id]));
    assert(received.statuses(seq![id]) == seq![IpfsRequestStatus::IoError]);
    assert(after.requests =~= state.requests.remove(id.0));
    assert(!after.must_wait(seq![id]));
    assert(after.purged(seq![id]) == after);
    assert(after.statuses(seq![id]) == seq![IpfsRequestStatus::Invalid]);
}

/// What the worker says of a request is kept when it is read in a wait that goes on
/// or that is for other requests: a later wait for the request reports it.
pub proof fn law_read_messages_are_reported(
    state: ApiState,
    ids: Seq<IpfsRequestId>,
    message: WorkerToApi,
    later: Seq<IpfsRequestId>,
    event: WaitEvent,
    i: int,
)
    requires
        state.dispatched(message.id()),
        state.waited(ids, WaitEvent::Message(message)).1 is None || !ids.contains(message.id()),
        event is Start || event is DeadlineReached,
        0 <= i < later.len(),
        later[i] == message.id(),
        state.waited(ids, WaitEvent::Message(message)).0.waited(later, event).1 is Some,
    ensures
        state.waited(ids, WaitEvent::Message(message)).0.waited(later, event).1->0[i] == if message
            is Response {
            IpfsRequestStatus::Finished
        } else {
            IpfsRequestStatus::IoError
        },
{
    let read = state.waited(ids, WaitEvent::Message(message)).0;
    assert(read.requests.contains_key(message.id().0));
    assert(read.requests[message.id().0] == message.outcome());
}

/// Whatever a wait was for and however it ended, unless the worker has gone: a
/// request that it reports as failed is not valid any more.
pub proof fn law_any_failure_is_reported_once(
    state: ApiState,
    ids: Seq<IpfsRequestId>,
    event: WaitEvent,
    i: int,
    later: WaitEvent,
)
    requires
        !(event is WorkerGone),
        state.waited(ids, event).1 is Some,
        0 <= i < ids.len(),
        state.waited(ids, event).1->0[i] is IoError,
        later is Start || later is DeadlineReached,
    ensures
        state.waited(ids, event).0.waited(seq![ids[i]], later) == (
            state.waited(ids, event).0,
            Some(seq![IpfsRequestStatus::Invalid]),
        ),
{
    let settled = match event {
        WaitEvent::Message(message) => state.received(message),
        _ => state,
    };
    let after = state.waited(ids, event).0;
    assert(settled.failed(ids[i]));
    assert(!after.requests.contains_key(ids[i].0));
    assert(!after.must_wait(seq![ids[i]]));
    assert(after.purged(seq![ids[i]]) == after);
    assert(after.statuses(seq![ids[i]]) == seq![IpfsRequestStatus::Invalid]);
}

/// Nothing changes for a request by a wait for others, nor by a message about another
/// that arrives in it.
pub proof fn law_waits_leave_others_alone(
    state: ApiState,
    ids: Seq<IpfsRequestId>,
    event: WaitEvent,
    other: IpfsRequestId,
)
    requires
        !ids.contains(other),
        event matches WaitEvent::Message(message) ==> message.id() != other,
    ensures
        ({
            let after = state.waited(ids, event).0;
            &&& after.requests.contains_key(other.0) == state.requests.contains_key(other.0)
            &&& state.requests.contains_key(other.0) ==> after.requests[other.0]
                == state.requests[other.0]
        }),
{
}

/// The content of a report, if there is one.
pub open spec fn listed(report: Option<Vec<IpfsRequestStatus>>) -> Option<Seq<IpfsRequestStatus>> {
    match report {
        Some(statuses) => Some(statuses@),
        None => None,
    }
}

/// The numbers of the requests in a list.
pub open spec fn numbers(entries: Seq<(IpfsRequestId, String)>) -> Seq<u16> {
    entries.map_values(|entry: (IpfsRequestId, String)| entry.0.0)
}

/// Provides IPFS to offchain workers.
pub struct IpfsApi {
    /// Messages to the worker that still have to be sent.
    to_worker: Vec<ApiToWorker>,
    /// The identifier of the next request.
    next_id: IpfsRequestId,
    /// The requests that are known.
    requests: FnvHashMap<u16, IpfsApiRequest>,
}

impl View for IpfsApi {
    type V = ApiState;

    closed spec fn view(&self) -> ApiState {
        ApiState {
            next_id: self.next_id.0,
            requests: self.requests@,
            to_worker: self.to_worker@,
        }
    }
}

/// The first request gets a number below this one.
pub const FIRST_ID_BOUND: u16 = 2000;

/// Calls `rand::random`. Nothing is claimed of the number that comes back.
#[verifier::external_body]
fn random_number() -> u16 {
    rand::random::<u16>()
}

/// Creates an API and the worker that serves it.
///
/// The first request gets a random number, so that nobody can rely on a
/// particular one.
pub fn ipfs<F>() -> (pair: (IpfsApi, IpfsWorker<F>))
    ensures
        pair.0@.wf(),
        pair.0@.next_id < FIRST_ID_BOUND,
        pair.0@ == (ApiState {
            next_id: pair.0@.next_id,
            requests: Map::empty(),
            to_worker: Seq::empty(),
        }),
        pair.1@.requests.len() == 0,
        pair.1@.to_api.len() == 0,
{
    (IpfsApi::with_random_number(random_number()), IpfsWorker::new())
}

impl IpfsApi {
    /// An API without requests, the first of which is numbered by what a random
    /// number leaves after division by [`FIRST_ID_BOUND`].
    pub fn with_random_number(random: u16) -> (api: IpfsApi)
        ensures
            api@.wf(),
            api@ == (ApiState {
                next_id: (random as int % FIRST_ID_BOUND as int) as u16,
                requests: Map::empty(),
                to_worker: Seq::empty(),
            }),
    {
        IpfsApi {
            to_worker: Vec::new(),
            next_id: IpfsRequestId(random % FIRST_ID_BOUND),
            requests: requests::empty(),
        }
    }

    /// Starts a request: gives it a number and leaves a message to the worker in
    /// the outbox. Fails when no number is left.
    pub fn request_start(&mut self, request: IpfsRequest) -> (started: Result<IpfsRequestId, ()>)
        requires
            old(self)@.wf(),
        ensures
            final(self)@.wf(),
            old(self)@.next_id < u16::MAX ==> started == Ok::<IpfsRequestId, ()>(
                IpfsRequestId(old(self)@.next_id),
            ) && final(self)@ == old(self)@.started(request),
            old(self)@.next_id == u16::MAX ==> started == Err::<IpfsRequestId, ()>(())
                && final(self)@ == old(self)@,
    {
        let id: IpfsRequestId = self.next_id;
        match self.next_id.0.checked_add(1) {
            Some(next) => {
                self.next_id = IpfsRequestId(next);
            },
            None => {
                return Err(());
            },
        }
        self.to_worker.push(ApiToWorker::Dispatch { id, request });
        let _ = requests::insert(&mut self.requests, id.0, IpfsApiRequest::Dispatched);
        Ok(id)
    }

    /// Takes note of a message from the worker.
    fn receive(&mut self, message: WorkerToApi)
        requires
            old(self)@.wf(),
        ensures
            final(self)@.wf(),
            final(self)@ == old(self)@.received(message),
    {
        let (id, outcome) = match message {
            WorkerToApi::Response { id, value } => (id, IpfsApiRequest::Response(value)),
            WorkerToApi::Fail { id, error } => (id, IpfsApiRequest::Fail(error)),
        };
        match requests::remove(&mut self.requests, id.0) {
            Some(IpfsApiRequest::Dispatched) => {
                let _ = requests::insert(&mut self.requests, id.0, outcome);
            },
            // Nothing is kept of a request that was unknown or had been settled.
            _ => {},
        }
        assert(self@ == old(self)@.received(message));
    }

    /// How far each of the requests has come, and whether one of them is still
    /// with the worker.
    fn collect(&self, ids: &[IpfsRequestId]) -> (collected: (Vec<IpfsRequestStatus>, bool))
        requires
            self@.wf(),
        ensures
            collected.0@ == self@.statuses(ids@),
            collected.1 == self@.must_wait(ids@),
    {
        let mut output: Vec<IpfsRequestStatus> = Vec::with_capacity(ids.len());
        let mut must_wait_more: bool = false;
        for n in 0..ids.len()
            invariant
                self@.wf(),
                output@ == self@.statuses(ids@.take(n as int)),
                must_wait_more == self@.must_wait(ids@.take(n as int)),
        {
            let status = match requests::get(&self.requests, ids[n].0) {
                None => IpfsRequestStatus::Invalid,
                Some(IpfsApiRequest::Fail(_)) => IpfsRequestStatus::IoError,
                Some(IpfsApiRequest::Response(_)) => IpfsRequestStatus::Finished,
                // Nothing that has not been dispatched is ever in the table.
                Some(_) => {
                    must_wait_more = true;
                    IpfsRequestStatus::DeadlineReached
                },
            };
            output.push(status);
            proof {
                let before = ids@.take(n as int);
                let after = ids@.take(n + 1);
                assert(after == before.push(ids[n as int]));
                if self@.must_wait(before) {
                    let i = choose|i: int|
                        0 <= i < before.len() && self@.dispatched(#[trigger] before[i]);
                    assert(self@.dispatched(after[i]));
                }
                if self@.dispatched(ids[n as int]) {
                    assert(self@.dispatched(after[n as int]));
                }
                if self@.must_wait(after) {
                    let i = choose|i: int|
                        0 <= i < after.len() && self@.dispatched(#[trigger] after[i]);
                    if i < n {
                        assert(self@.dispatched(before[i]));
                    }
                }
            }
        }
        assert(ids@.take(ids@.len() as int) == ids@);
        (output, must_wait_more)
    }

    /// Forgets those of the requests that have failed.
    fn purge(&mut self, ids: &[IpfsRequestId], output: &Vec<IpfsRequestStatus>)
        requires
            old(self)@.wf(),
            output@ == old(self)@.statuses(ids@),
        ensures
            final(self)@.wf(),
            final(self)@ == old(self)@.purged(ids@),
    {
        let mut n: usize = ids.len();
        while n > 0
            invariant
                n <= ids@.len(),
                output@ == old(self)@.statuses(ids@),
                self@ == old(self)@.purged(ids@.skip(n as int)),
            decreases n,
        {
            n = n - 1;
            let ghost before = self@;
            if let IpfsRequestStatus::IoError = output[n] {
                let _ = requests::remove(&mut self.requests, ids[n].0);
            }
            proof {
                let now = ids@.skip(n as int);
                let then = ids@.skip(n + 1);
                assert(now == seq![ids[n as int]] + then);
                assert forall|id: IpfsRequestId| #[trigger] now.contains(id) <==> id
                    == ids[n as int] || then.contains(id) by {
                    assert(now[0] == ids[n as int]);
                    if then.contains(id) {
                        let i = then.index_of(id);
                        assert(now[i + 1] == id);
                    }
                }
                assert(self@ =~= old(self)@.purged(now));
            }
        }
        assert(ids@.skip(0) == ids@);
    }

    /// Waits for requests to be answered: call it with [`WaitEvent::Start`], and
    /// after that with whatever happens next, until it reports.
    ///
    /// It reports once none of the requests is with the worker any more, or the
    /// deadline has passed; then it forgets those of them that have failed. If
    /// the worker has gone away, everything is reported as failed.
    pub fn response_wait(&mut self, ids: &[IpfsRequestId], event: WaitEvent) -> (report: Option<
        Vec<IpfsRequestStatus>,
    >)
        requires
            old(self)@.wf(),
        ensures
            final(self)@.wf(),
            final(self)@ == old(self)@.waited(ids@, event).0,
            listed(report) == old(self)@.waited(ids@, event).1,
    {
        let late: bool = match event {
            WaitEvent::Start => false,
            WaitEvent::DeadlineReached => true,
            WaitEvent::Message(message) => {
                self.receive(message);
                false
            },
            WaitEvent::WorkerGone => {
                let mut output: Vec<IpfsRequestStatus> = Vec::with_capacity(ids.len());
                for n in 0..ids.len()
                    invariant
                        output@.len() == n,
                        forall|i: int| 0 <= i < n ==> output@[i] == IpfsRequestStatus::IoError,
                {
                    output.push(IpfsRequestStatus::IoError);
                }
                assert(output@ == ids@.map_values(
                    |id: IpfsRequestId| IpfsRequestStatus::IoError,
                ));
                return Some(output);
            },
        };
        let (output, must_wait_more) = self.collect(ids);
        if late || !must_wait_more {
            self.purge(ids, &output);
            Some(output)
        } else {
            None
        }
    }

    /// Whether a message from the worker is to be expected: it is not if it is about a
    /// request that has been settled, for then the API and the worker disagree.
    pub fn is_expected(&self, message: &WorkerToApi) -> (expected: bool)
        ensures
            expected == (self@.dispatched(message.id()) || !self@.requests.contains_key(
                message.id().0,
            )),
    {
        let id: IpfsRequestId = match message {
            WorkerToApi::Response { id, .. } => *id,
            WorkerToApi::Fail { id, .. } => *id,
        };
        match requests::get(&self.requests, id.0) {
            None => true,
            Some(IpfsApiRequest::Dispatched) => true,
            Some(_) => false,
        }
    }

    /// The answer to a request, once it has arrived.
    pub fn response(&self, id: IpfsRequestId) -> (response: Option<&IpfsResponse>)
        ensures
            match response {
                Some(value) => self@.requests.contains_key(id.0) && self@.requests[id.0]
                    == IpfsApiRequest::Response(*value),
                None => !(self@.requests.contains_key(id.0) && self@.requests[id.0] is Response),
            },
    {
        match requests::get(&self.requests, id.0) {
            Some(IpfsApiRequest::Response(value)) => Some(value),
            _ => None,
        }
    }

    /// Called once per block; there is nothing to do.
    pub fn process_block(&mut self) -> (done: Result<(), ()>)
        ensures
            done == Ok::<(), ()>(()),
            *final(self) == *old(self),
    {
        Ok(())
    }

    /// Takes the messages to the worker out of the outbox.
    pub fn take_to_worker(&mut self) -> (messages: Vec<ApiToWorker>)
        requires
            old(self)@.wf(),
        ensures
            final(self)@.wf(),
            messages@ == old(self)@.to_worker,
            final(self)@ == (ApiState { to_worker: Seq::empty(), ..old(self)@ }),
    {
        let mut messages: Vec<ApiToWorker> = Vec::new();
        messages.append(&mut self.to_worker);
        assert(messages@ == old(self)@.to_worker);
        messages
    }

    /// The requests that are known, for people to read, each of them once and in no
    /// particular order.
    pub fn entries(&self) -> (entries: Vec<(IpfsRequestId, String)>)
        ensures
            numbers(entries@).no_duplicates(),
            numbers(entries@).to_set() == self@.requests.dom(),
            forall|n: int|
                0 <= n < entries@.len() ==> (#[trigger] entries@[n]).1@
                    == self@.requests[entries@[n].0.0].description(),
    {
        let keys: Vec<u16> = requests::keys(&self.requests);
        let mut entries: Vec<(IpfsRequestId, String)> = Vec::new();
        for n in 0..keys.len()
            invariant
                keys@.to_set() == self.requests@.dom(),
                entries@.len() == n,
                forall|m: int|
                    0 <= m < n ==> (#[trigger] entries@[m]).0.0 == keys@[m] && entries@[m].1@
                        == self.requests@[keys@[m]].description(),
        {
            let key: u16 = keys[n];
            assert(keys@.to_set().contains(key));
            if let Some(request) = requests::get(&self.requests, key) {
                entries.push((IpfsRequestId(key), request.describe()));
            }
        }
        assert(numbers(entries@) == keys@);
        entries
    }
}

} // verus!

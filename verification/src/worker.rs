//! The side of the client that runs requests in the background.
use crate::api::{Cid, IpfsResponse, NodeError, PublicKey, WorkerToApi};
use crate::offchain::{IpfsRequest, IpfsRequestId, OpaqueMultiaddr};
use vstd::prelude::*;

verus! {

/// A request that the worker is running. `F` is the computation that the engine
/// performs for it.
pub enum IpfsWorkerRequest<F> {
    /// The engine is at work.
    Dispatched(F),
    /// The engine is done.
    Ready(Result<IpfsResponse, NodeError>),
}

impl<F> IpfsWorkerRequest<F> {
    /// The text of [`IpfsWorkerRequest::describe`].
    pub open spec fn description(self) -> Seq<char> {
        match self {
            IpfsWorkerRequest::Dispatched(_) => "IpfsWorkerRequest::Dispatched"@,
            IpfsWorkerRequest::Ready(_) => "IpfsWorkerRequest::Response"@,
        }
    }

    /// A text for people to read.
    pub fn describe(&self) -> (text: String)
        ensures
            text@ == self.description(),
    {
        match self {
            IpfsWorkerRequest::Dispatched(_) => "IpfsWorkerRequest::Dispatched".to_owned(),
            IpfsWorkerRequest::Ready(_) => "IpfsWorkerRequest::Response".to_owned(),
        }
    }
}

/// A call on the IPFS engine.
#[derive(Clone, Copy, PartialEq, Eq, Structural, Debug)]
pub enum NodeCall {
    /// Asks for the public key and the addresses of the node.
    Identity,
    /// Asks for the blocks that the node holds.
    RefsLocal,
}

/// What a call on the IPFS engine returns.
pub enum NodeReply {
    /// Returned by [`NodeCall::Identity`].
    Identity(Result<(PublicKey, Vec<OpaqueMultiaddr>), NodeError>),
    /// Returned by [`NodeCall::RefsLocal`].
    RefsLocal(Result<Vec<Cid>, NodeError>),
}

impl NodeCall {
    /// The call that serves `request`.
    pub open spec fn serving(request: IpfsRequest) -> NodeCall {
        match request {
            IpfsRequest::Identity => NodeCall::Identity,
            IpfsRequest::LocalRefs => NodeCall::RefsLocal,
        }
    }

    /// `reply` is of the kind that this call returns.
    pub open spec fn fits(self, reply: NodeReply) -> bool {
        match self {
            NodeCall::Identity => reply is Identity,
            NodeCall::RefsLocal => reply is RefsLocal,
        }
    }
}

impl NodeReply {
    /// The result of the request that the call was made for.
    pub open spec fn result(self) -> Result<IpfsResponse, NodeError> {
        match self {
            NodeReply::Identity(Ok((key, addrs))) => Ok(IpfsResponse::Identity(key, addrs)),
            NodeReply::Identity(Err(error)) => Err(error),
            NodeReply::RefsLocal(Ok(cids)) => Ok(IpfsResponse::LocalRefs(cids)),
            NodeReply::RefsLocal(Err(error)) => Err(error),
        }
    }
}

/// Which call on the engine serves a request.
pub fn node_call(request: IpfsRequest) -> (call: NodeCall)
    ensures
        call == NodeCall::serving(request),
{
    match request {
        IpfsRequest::Identity => NodeCall::Identity,
        IpfsRequest::LocalRefs => NodeCall::RefsLocal,
    }
}

/// Runs a request: turns what the call on the engine returned into the result of
/// the request.
pub fn ipfs_request(reply: NodeReply) -> (result: Result<IpfsResponse, NodeError>)
    ensures
        result == reply.result(),
{
    match reply {
        NodeReply::Identity(Ok((key, addrs))) => Ok(IpfsResponse::Identity(key, addrs)),
        NodeReply::Identity(Err(error)) => Err(error),
        NodeReply::RefsLocal(Ok(cids)) => Ok(IpfsResponse::LocalRefs(cids)),
        NodeReply::RefsLocal(Err(error)) => Err(error),
    }
}

/// A request is answered in kind: the response to a question about the identity
/// of the node tells its identity, and the response to a question about local
/// blocks lists local blocks.
pub proof fn law_answered_in_kind(request: IpfsRequest, reply: NodeReply)
    requires
        NodeCall::serving(request).fits(reply),
        reply.result() is Ok,
    ensures
        request is Identity <==> reply.result()->Ok_0 is Identity,
        request is LocalRefs <==> reply.result()->Ok_0 is LocalRefs,
{
}

/// What the computation behind a request has come to.
pub enum Polled {
    /// It goes on.
    Pending,
    /// It is over.
    Ready(Result<IpfsResponse, NodeError>),
}

/// What the channel from the API holds.
pub enum Incoming<F> {
    /// No message for now.
    Pending,
    /// No message any more: the API has gone away.
    Closed,
    /// A new request, and the computation that the engine will perform for it.
    Dispatch {
        /// The identifier under which to answer.
        id: IpfsRequestId,
        /// The computation.
        future: F,
    },
}

/// What is to become of the worker after a poll.
#[derive(Clone, Copy, PartialEq, Eq, Structural, Debug)]
pub struct WorkerPoll {
    /// The worker has nothing left to do.
    pub finished: bool,
    /// The worker wants to be polled again at once.
    pub wake: bool,
}

/// The mathematical content of an [`IpfsWorker`].
#[verifier::ext_equal]
pub struct WorkerState<F> {
    /// The requests that are being run.
    pub requests: Seq<(IpfsRequestId, IpfsWorkerRequest<F>)>,
    /// Messages to the API that still have to be sent, oldest first.
    pub to_api: Seq<WorkerToApi>,
}

/// The message that reports the result of request `id`.
pub open spec fn report(id: IpfsRequestId, result: Result<IpfsResponse, NodeError>) -> WorkerToApi {
    match result {
        Ok(value) => WorkerToApi::Response { id, value },
        Err(error) => WorkerToApi::Fail { id, error },
    }
}

/// `s` with its last element moved to the front.
pub open spec fn rotated<A>(s: Seq<A>) -> Seq<A> {
    if s.len() == 0 {
        s
    } else {
        seq![s.last()] + s.drop_last()
    }
}

impl<F> WorkerState<F> {
    /// The computation behind the request at position `n` goes on.
    pub open spec fn goes_on(self, polled: Seq<Polled>, n: int) -> bool {
        self.requests[n].1 is Dispatched && polled[n] is Pending
    }

    /// The computation behind the request at position `n` has just ended.
    pub open spec fn ended(self, polled: Seq<Polled>, n: int) -> bool {
        self.requests[n].1 is Dispatched && polled[n] is Ready
    }

    /// The computation behind the request at position `n` has just succeeded.
    pub open spec fn succeeded(self, polled: Seq<Polled>, n: int) -> bool {
        self.ended(polled, n) && polled[n]->Ready_0 is Ok
    }

    /// What is left of the requests from position `n` on: those whose computation
    /// goes on, the last one first, rotated by one place for every request that
    /// has been looked at since.
    pub open spec fn kept(self, polled: Seq<Polled>, n: int) -> Seq<
        (IpfsRequestId, IpfsWorkerRequest<F>),
    >
        decreases self.requests.len() - n,
    {
        if n >= self.requests.len() {
            Seq::empty()
        } else if self.goes_on(polled, n) {
            rotated(self.kept(polled, n + 1)).push(self.requests[n])
        } else {
            rotated(self.kept(polled, n + 1))
        }
    }

    /// The messages about the requests from position `n` on whose computation has
    /// just ended, the last request first.
    pub open spec fn reports(self, polled: Seq<Polled>, n: int) -> Seq<WorkerToApi>
        decreases self.requests.len() - n,
    {
        if n >= self.requests.len() {
            Seq::empty()
        } else if self.ended(polled, n) {
            self.reports(polled, n + 1).push(report(self.requests[n].0, polled[n]->Ready_0))
        } else {
            self.reports(polled, n + 1)
        }
    }

    /// The state after every computation has been polled.
    pub open spec fn swept(self, polled: Seq<Polled>) -> WorkerState<F> {
        WorkerState {
            requests: self.kept(polled, 0),
            to_api: self.to_api + self.reports(polled, 0),
        }
    }

    /// The state after the channel from the API has been polled.
    pub open spec fn accepted(self, incoming: Incoming<F>) -> WorkerState<F> {
        match incoming {
            Incoming::Dispatch { id, future } => WorkerState {
                requests: self.requests.push((id, IpfsWorkerRequest::Dispatched(future))),
                ..self
            },
            _ => self,
        }
    }
}

/// What is left of a list of requests does not depend on what stands before it.
proof fn lemma_swept_behind<F>(
    whole: WorkerState<F>,
    polled: Seq<Polled>,
    rest: WorkerState<F>,
    others: Seq<Polled>,
    n: int,
)
    requires
        whole.requests.len() > 0,
        polled.len() == whole.requests.len(),
        rest.requests == whole.requests.drop_first(),
        others == polled.drop_first(),
        0 <= n <= rest.requests.len(),
    ensures
        whole.kept(polled, n + 1) == rest.kept(others, n),
        whole.reports(polled, n + 1) == rest.reports(others, n),
    decreases rest.requests.len() - n,
{
    if n < rest.requests.len() {
        lemma_swept_behind(whole, polled, rest, others, n + 1);
        assert(rest.requests[n] == whole.requests[n + 1]);
        assert(others[n] == polled[n + 1]);
    }
}

/// A request more at the front makes this difference to a poll: the last of the requests
/// that go on is moved to the front of them, and then the one more is put at their end
/// if it goes on too; and if it has ended, its report comes last, under its number.
pub proof fn law_one_request_more<F>(
    whole: WorkerState<F>,
    polled: Seq<Polled>,
    rest: WorkerState<F>,
    others: Seq<Polled>,
)
    requires
        whole.requests.len() > 0,
        polled.len() == whole.requests.len(),
        rest.requests == whole.requests.drop_first(),
        rest.to_api == whole.to_api,
        others == polled.drop_first(),
    ensures
        ({
            let kept = rest.swept(others).requests;
            let moved = if kept.len() == 0 {
                kept
            } else {
                seq![kept.last()] + kept.drop_last()
            };
            whole.swept(polled).requests == if whole.requests[0].1 is Dispatched && polled[0]
                is Pending {
                moved.push(whole.requests[0])
            } else {
                moved
            }
        }),
        whole.swept(polled).to_api == match (whole.requests[0].1, polled[0]) {
            (IpfsWorkerRequest::Dispatched(_), Polled::Ready(Ok(value))) => rest.swept(
                others,
            ).to_api.push(WorkerToApi::Response { id: whole.requests[0].0, value }),
            (IpfsWorkerRequest::Dispatched(_), Polled::Ready(Err(error))) => rest.swept(
                others,
            ).to_api.push(WorkerToApi::Fail { id: whole.requests[0].0, error }),
            _ => rest.swept(others).to_api,
        },
{
    lemma_swept_behind(whole, polled, rest, others, 0);
    assert(whole.kept(polled, 0) == if whole.goes_on(polled, 0) {
        rotated(whole.kept(polled, 1)).push(whole.requests[0])
    } else {
        rotated(whole.kept(polled, 1))
    });
    assert(whole.swept(polled).to_api =~= if whole.ended(polled, 0) {
        rest.swept(others).to_api.push(report(whole.requests[0].0, polled[0]->Ready_0))
    } else {
        rest.swept(others).to_api
    });
}

/// A poll of a worker without requests changes nothing.
pub proof fn law_nothing_to_poll<F>(worker: WorkerState<F>, polled: Seq<Polled>)
    requires
        worker.requests.len() == 0,
    ensures
        worker.swept(polled) == worker,
{
    assert(worker.swept(polled).requests =~= worker.requests);
    assert(worker.swept(polled).to_api =~= worker.to_api);
}

proof fn lemma_all_go_on<F>(worker: WorkerState<F>, polled: Seq<Polled>, n: int)
    requires
        0 <= n < worker.requests.len(),
        polled.len() == worker.requests.len(),
        forall|m: int| 0 <= m < polled.len() ==> #[trigger] worker.goes_on(polled, m),
    ensures
        worker.kept(polled, n) == worker.requests.skip(n + 1).push(worker.requests[n]),
        worker.reports(polled, n).len() == 0,
    decreases worker.requests.len() - n,
{
    let later = worker.kept(polled, n + 1);
    assert(worker.goes_on(polled, n));
    if n + 1 < worker.requests.len() {
        lemma_all_go_on(worker, polled, n + 1);
        assert(later.drop_last() =~= worker.requests.skip(n + 2));
        assert(rotated(later) =~= worker.requests.skip(n + 1));
    } else {
        assert(worker.reports(polled, n + 1).len() == 0);
        assert(rotated(later) =~= worker.requests.skip(n + 1));
    }
}

/// If every computation goes on, every request stays, with the computation that it had:
/// the first one goes to the end, the others keep their order. Nothing is reported.
pub proof fn law_all_go_on<F>(worker: WorkerState<F>, polled: Seq<Polled>)
    requires
        worker.requests.len() > 0,
        polled.len() == worker.requests.len(),
        forall|n: int|
            0 <= n < polled.len() ==> (#[trigger] worker.requests[n]).1 is Dispatched && polled[n]
                is Pending,
    ensures
        worker.swept(polled).requests == worker.requests.drop_first().push(worker.requests[0]),
        worker.swept(polled).to_api == worker.to_api,
{
    assert forall|n: int| 0 <= n < polled.len() implies #[trigger] worker.goes_on(polled, n) by {
        assert(worker.requests[n].1 is Dispatched);
    }
    lemma_all_go_on(worker, polled, 0);
    assert(worker.requests.skip(1) =~= worker.requests.drop_first());
    assert(worker.swept(polled).to_api =~= worker.to_api);
}

/// A sweep keeps each request whose computation goes on.
pub(crate) proof fn lemma_going_on<F>(worker: WorkerState<F>, polled: Seq<Polled>, m: int, n: int)
    requires
        0 <= m <= n < worker.requests.len(),
        worker.goes_on(polled, n),
    ensures
        worker.kept(polled, m).contains(worker.requests[n]),
    decreases n - m,
{
    let request = worker.requests[n];
    let kept = worker.kept(polled, m);
    if m == n {
        assert(kept.last() == request);
    } else {
        lemma_going_on(worker, polled, m + 1, n);
        let later = worker.kept(polled, m + 1);
        let at = later.index_of(request);
        if at == later.len() - 1 {
            assert(rotated(later)[0] == request);
            assert(kept[0] == request);
        } else {
            assert(rotated(later)[at + 1] == request);
            assert(kept[at + 1] == request);
        }
    }
}

/// A sweep keeps nothing else.
pub(crate) proof fn lemma_kept_was_there<F>(
    worker: WorkerState<F>,
    polled: Seq<Polled>,
    m: int,
    at: int,
)
    requires
        0 <= m <= worker.requests.len(),
        0 <= at < worker.kept(polled, m).len(),
    ensures
        exists|n: int|
            m <= n < worker.requests.len() && #[trigger] worker.goes_on(polled, n)
                && worker.requests[n] == worker.kept(polled, m)[at],
    decreases worker.requests.len() - m,
{
    let kept = worker.kept(polled, m);
    let later = worker.kept(polled, m + 1);
    if worker.goes_on(polled, m) && at == kept.len() - 1 {
        assert(worker.requests[m] == kept[at]);
    } else {
        let before = if at == 0 {
            later.len() - 1
        } else {
            at - 1
        };
        assert(kept[at] == rotated(later)[at]);
        assert(rotated(later)[at] == later[before]);
        lemma_kept_was_there(worker, polled, m + 1, before);
    }
}

/// A computation stays with the number that it was dispatched under. After a whole poll,
/// the requests that were running and go on are there, each with its own computation; the
/// request that has come is there with the computation that has come with it; and there
/// are no others.
pub proof fn law_computations_keep_their_numbers<F>(
    worker: WorkerState<F>,
    polled: Seq<Polled>,
    incoming: Incoming<F>,
    id: IpfsRequestId,
    future: F,
)
    requires
        polled.len() == worker.requests.len(),
    ensures
        worker.swept(polled).accepted(incoming).requests.contains(
            (id, IpfsWorkerRequest::Dispatched(future)),
        ) <==> {
            ||| exists|n: int|
                0 <= n < worker.requests.len() && #[trigger] worker.requests[n] == (
                    id,
                    IpfsWorkerRequest::Dispatched(future),
                ) && polled[n] is Pending
            ||| incoming == Incoming::Dispatch { id, future }
        },
{
    let pair = (id, IpfsWorkerRequest::Dispatched(future));
    let kept = worker.kept(polled, 0);
    let after = worker.swept(polled).accepted(incoming).requests;
    if exists|n: int|
        0 <= n < worker.requests.len() && #[trigger] worker.requests[n] == pair && polled[n]
            is Pending {
        let n = choose|n: int|
            0 <= n < worker.requests.len() && #[trigger] worker.requests[n] == pair && polled[n]
                is Pending;
        assert(worker.goes_on(polled, n));
        lemma_going_on(worker, polled, 0, n);
        assert(after[kept.index_of(pair)] == pair);
    }
    if incoming == (Incoming::Dispatch { id, future }) {
        assert(after[kept.len() as int] == pair);
    }
    if after.contains(pair) {
        let at = after.index_of(pair);
        if at < kept.len() {
            assert(after[at] == kept[at]);
            lemma_kept_was_there(worker, polled, 0, at);
        }
    }
}

/// Runs the requests of an API. It has to be polled for the API to make progress.
pub struct IpfsWorker<F> {
    /// Messages to the API that still have to be sent.
    to_api: Vec<WorkerToApi>,
    /// The requests that are being run.
    requests: Vec<(IpfsRequestId, IpfsWorkerRequest<F>)>,
}

impl<F> View for IpfsWorker<F> {
    type V = WorkerState<F>;

    closed spec fn view(&self) -> WorkerState<F> {
        WorkerState { requests: self.requests@, to_api: self.to_api@ }
    }
}

impl<F> IpfsWorker<F> {
    /// A worker without requests.
    pub fn new() -> (worker: IpfsWorker<F>)
        ensures
            worker@ == (WorkerState::<F> { requests: Seq::empty(), to_api: Seq::empty() }),
    {
        IpfsWorker { to_api: Vec::new(), requests: Vec::new() }
    }

    /// Sorts out the requests whose computation has ended. Tells whether one of
    /// them has succeeded.
    fn sweep(&mut self, polled: Vec<Polled>) -> (wake: bool)
        requires
            polled@.len() == old(self)@.requests.len(),
        ensures
            final(self)@ == old(self)@.swept(polled@),
            wake == exists|n: int|
                0 <= n < polled@.len() && #[trigger] old(self)@.succeeded(polled@, n),
    {
        let ghost start = self@;
        let ghost outcomes = polled@;
        let mut polled: Vec<Polled> = polled;
        let mut wake: bool = false;
        let mut n: usize = self.requests.len();
        while n > 0
            invariant
                n <= start.requests.len(),
                outcomes.len() == start.requests.len(),
                polled@ == outcomes.take(n as int),
                self@.requests == start.requests.take(n as int) + start.kept(outcomes, n as int),
                self@.to_api == start.to_api + start.reports(outcomes, n as int),
                wake == exists|m: int|
                    n <= m < outcomes.len() && #[trigger] start.succeeded(outcomes, m),
            decreases n,
        {
            n = n - 1;
            let ghost tail = start.kept(outcomes, n + 1);
            // Each request is taken out, and put back at the end if it goes on.
            let (id, request) = self.requests.swap_remove(n);
            let outcome = polled.pop().unwrap();
            assert(request == start.requests[n as int].1);
            assert(outcome == outcomes[n as int]);
            assert(self@.requests == start.requests.take(n as int) + rotated(tail));
            match request {
                IpfsWorkerRequest::Dispatched(future) => match outcome {
                    Polled::Pending => {
                        self.requests.push((id, IpfsWorkerRequest::Dispatched(future)));
                    },
                    Polled::Ready(Ok(value)) => {
                        self.to_api.push(WorkerToApi::Response { id, value });
                        wake = true;
                        assert(start.succeeded(outcomes, n as int));
                    },
                    Polled::Ready(Err(error)) => {
                        self.to_api.push(WorkerToApi::Fail { id, error });
                    },
                },
                IpfsWorkerRequest::Ready(_) => {},
            }
        }
        wake
    }

    /// Polls the worker: `polled` says what the computation behind each request
    /// has come to, `incoming` what the channel from the API holds.
    ///
    /// The results of computations that have ended are reported to the API, and a
    /// new request is taken on.
    pub fn poll(&mut self, polled: Vec<Polled>, incoming: Incoming<F>) -> (outcome: WorkerPoll)
        requires
            polled@.len() == old(self)@.requests.len(),
        ensures
            final(self)@ == old(self)@.swept(polled@).accepted(incoming),
            outcome.finished == (incoming is Closed),
            outcome.wake == (incoming is Dispatch || exists|n: int|
                0 <= n < polled@.len() && #[trigger] old(self)@.succeeded(polled@, n)),
    {
        let succeeded: bool = self.sweep(polled);
        match incoming {
            Incoming::Pending => WorkerPoll { finished: false, wake: succeeded },
            Incoming::Closed => WorkerPoll { finished: true, wake: succeeded },
            Incoming::Dispatch { id, future } => {
                self.requests.push((id, IpfsWorkerRequest::Dispatched(future)));
                WorkerPoll { finished: false, wake: true }
            },
        }
    }

    /// How many requests are being run.
    pub fn len(&self) -> (len: usize)
        ensures
            len == self@.requests.len(),
    {
        self.requests.len()
    }

    /// The computation behind the request at position `n`, for it to be polled.
    pub fn future_mut(&mut self, n: usize) -> (future: Option<&mut F>)
        ensures
            match future {
                Some(future) => {
                    &&& n < old(self)@.requests.len()
                    &&& old(self)@.requests[n as int].1 == IpfsWorkerRequest::Dispatched(*future)
                    &&& final(self)@ == (WorkerState {
                        requests: old(self)@.requests.update(
                            n as int,
                            (
                                old(self)@.requests[n as int].0,
                                IpfsWorkerRequest::Dispatched(*final(future)),
                            ),
                        ),
                        to_api: old(self)@.to_api,
                    })
                },
                None => {
                    &&& n >= old(self)@.requests.len() || old(self)@.requests[n as int].1 is Ready
                    &&& final(self)@ == old(self)@
                },
            },
    {
        if n < self.requests.len() {
            match &mut self.requests[n].1 {
                IpfsWorkerRequest::Dispatched(future) => Some(future),
                IpfsWorkerRequest::Ready(_) => None,
            }
        } else {
            None
        }
    }

    /// Takes the messages to the API out of the outbox.
    pub fn take_to_api(&mut self) -> (messages: Vec<WorkerToApi>)
        ensures
            messages@ == old(self)@.to_api,
            final(self)@ == (WorkerState { to_api: Seq::empty(), ..old(self)@ }),
    {
        let mut messages: Vec<WorkerToApi> = Vec::new();
        messages.append(&mut self.to_api);
        assert(messages@ == old(self)@.to_api);
        messages
    }

    /// The requests that are being run, for people to read.
    pub fn entries(&self) -> (entries: Vec<(IpfsRequestId, String)>)
        ensures
            entries@.len() == self@.requests.len(),
            forall|n: int|
                0 <= n < entries@.len() ==> (#[trigger] entries@[n]).0 == self@.requests[n].0
                    && entries@[n].1@ == self@.requests[n].1.description(),
    {
        let mut entries: Vec<(IpfsRequestId, String)> = Vec::new();
        for n in 0..self.requests.len()
            invariant
                entries@.len() == n,
                forall|m: int|
                    0 <= m < n ==> (#[trigger] entries@[m]).0 == self.requests@[m].0
                        && entries@[m].1@ == self.requests@[m].1.description(),
        {
            entries.push((self.requests[n].0, self.requests[n].1.describe()));
        }
        entries
    }
}

} // verus!

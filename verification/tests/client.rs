use ipfs_offchain::api::{
    ipfs, ApiToWorker, Cid, IpfsApi, IpfsApiRequest, IpfsResponse, NodeError, PublicKey, WaitEvent,
    WorkerToApi, FIRST_ID_BOUND,
};
use ipfs_offchain::offchain::{
    Duration, IpfsRequest, IpfsRequestId, IpfsRequestStatus, OpaqueMultiaddr, Timestamp,
};
use ipfs_offchain::worker::{
    ipfs_request, node_call, Incoming, IpfsWorker, IpfsWorkerRequest, NodeCall, NodeReply, Polled,
    WorkerPoll,
};

/// What a node that answers every call makes of a request.
fn serve(request: IpfsRequest) -> Result<IpfsResponse, NodeError> {
    let reply = match node_call(request) {
        NodeCall::Identity => NodeReply::Identity(Ok((PublicKey(vec![8, 1]), vec![]))),
        NodeCall::RefsLocal => NodeReply::RefsLocal(Ok(vec![Cid(vec![1, 85])])),
    };
    ipfs_request(reply)
}

fn failure(text: &str) -> NodeError {
    NodeError { message: text.to_string() }
}

fn response(id: IpfsRequestId) -> WorkerToApi {
    WorkerToApi::Response { id, value: IpfsResponse::LocalRefs(vec![]) }
}

fn fail(id: IpfsRequestId) -> WorkerToApi {
    WorkerToApi::Fail { id, error: failure("offline") }
}

/// Hands the API's outbox to the worker. The computation behind a request is the
/// request itself.
fn dispatch(api: &mut IpfsApi, worker: &mut IpfsWorker<IpfsRequest>) {
    for message in api.take_to_worker() {
        let ApiToWorker::Dispatch { id, request } = message;
        let polled = (0..worker.len()).map(|_| Polled::Pending).collect();
        let outcome = worker.poll(polled, Incoming::Dispatch { id, future: request });
        assert_eq!(outcome, WorkerPoll { finished: false, wake: true });
    }
}

/// Lets every computation of the worker end.
fn finish(worker: &mut IpfsWorker<IpfsRequest>) -> Vec<WorkerToApi> {
    let mut polled = Vec::new();
    for n in 0..worker.len() {
        let request = *worker.future_mut(n).unwrap();
        polled.push(Polled::Ready(serve(request)));
    }
    worker.poll(polled, Incoming::Pending);
    worker.take_to_api()
}

#[test]
fn metadata_calls() {
    let deadline = Timestamp(0).add(Duration::from_millis(10_000));
    assert_eq!(deadline, Timestamp(10_000));

    let (mut api, mut worker) = ipfs();

    let id1 = api.request_start(IpfsRequest::Identity).unwrap();
    let id2 = api.request_start(IpfsRequest::LocalRefs).unwrap();
    dispatch(&mut api, &mut worker);

    assert_eq!(api.response_wait(&[id1, id2], WaitEvent::Start), None);
    let mut messages = finish(&mut worker).into_iter();
    let message = messages.next().unwrap();
    assert_eq!(api.response_wait(&[id1, id2], WaitEvent::Message(message)), None);
    let message = messages.next().unwrap();
    match api.response_wait(&[id1, id2], WaitEvent::Message(message)).unwrap().as_slice() {
        [IpfsRequestStatus::Finished, IpfsRequestStatus::Finished] => {},
        x => panic!("Connecting to the IPFS node failed: {:?}", x),
    }
    assert!(messages.next().is_none());
}

#[test]
fn first_id_is_random_below_the_bound() {
    let mut seen = Vec::new();
    for _ in 0..64 {
        let (mut api, worker): (IpfsApi, IpfsWorker<u8>) = ipfs();
        let id = api.request_start(IpfsRequest::Identity).unwrap();
        assert!(id.0 < FIRST_ID_BOUND);
        assert_eq!(worker.len(), 0);
        seen.push(id.0);
    }
    assert!(seen.iter().any(|id| *id != seen[0]));
}

#[test]
fn first_id_is_the_remainder() {
    for (random, first) in [(0, 0), (1999, 1999), (2000, 0), (4007, 7), (65535, 1535)] {
        let mut api = IpfsApi::with_random_number(random);
        assert_eq!(api.request_start(IpfsRequest::Identity), Ok(IpfsRequestId(first)));
    }
}

#[test]
fn requests_are_numbered_in_order_and_left_in_the_outbox() {
    let mut api = IpfsApi::with_random_number(41);
    assert_eq!(api.request_start(IpfsRequest::Identity), Ok(IpfsRequestId(41)));
    assert_eq!(api.request_start(IpfsRequest::LocalRefs), Ok(IpfsRequestId(42)));
    assert_eq!(
        api.take_to_worker(),
        vec![
            ApiToWorker::Dispatch { id: IpfsRequestId(41), request: IpfsRequest::Identity },
            ApiToWorker::Dispatch { id: IpfsRequestId(42), request: IpfsRequest::LocalRefs },
        ]
    );
    assert_eq!(api.take_to_worker(), vec![]);
}

#[test]
fn numbers_run_out() {
    let mut api = IpfsApi::with_random_number(1999);
    for id in 1999..u16::MAX {
        assert_eq!(api.request_start(IpfsRequest::Identity), Ok(IpfsRequestId(id)));
    }
    let sent = api.take_to_worker().len();
    assert_eq!(sent, (u16::MAX - 1999) as usize);
    assert_eq!(api.request_start(IpfsRequest::Identity), Err(()));
    assert_eq!(api.request_start(IpfsRequest::Identity), Err(()));
    assert_eq!(api.take_to_worker(), vec![]);
    assert_eq!(
        api.response_wait(&[IpfsRequestId(u16::MAX)], WaitEvent::Start),
        Some(vec![IpfsRequestStatus::Invalid])
    );
}

#[test]
fn unknown_requests_are_invalid_at_once() {
    let mut api = IpfsApi::with_random_number(3);
    assert_eq!(api.response_wait(&[], WaitEvent::Start), Some(vec![]));
    assert_eq!(
        api.response_wait(&[IpfsRequestId(3), IpfsRequestId(9)], WaitEvent::Start),
        Some(vec![IpfsRequestStatus::Invalid, IpfsRequestStatus::Invalid])
    );
}

#[test]
fn deadline_ends_the_wait() {
    let mut api = IpfsApi::with_random_number(0);
    let id = api.request_start(IpfsRequest::Identity).unwrap();
    assert_eq!(api.response_wait(&[id], WaitEvent::Start), None);
    assert_eq!(
        api.response_wait(&[id], WaitEvent::DeadlineReached),
        Some(vec![IpfsRequestStatus::DeadlineReached])
    );
    // The request goes on.
    assert_eq!(
        api.response_wait(&[id], WaitEvent::Message(response(id))),
        Some(vec![IpfsRequestStatus::Finished])
    );
}

#[test]
fn finished_requests_stay_finished() {
    let mut api = IpfsApi::with_random_number(0);
    let id = api.request_start(IpfsRequest::LocalRefs).unwrap();
    for event in [WaitEvent::Message(response(id)), WaitEvent::Start, WaitEvent::DeadlineReached] {
        assert_eq!(api.response_wait(&[id], event), Some(vec![IpfsRequestStatus::Finished]));
    }
}

#[test]
fn failures_are_reported_once() {
    let mut api = IpfsApi::with_random_number(0);
    let good = api.request_start(IpfsRequest::Identity).unwrap();
    let bad = api.request_start(IpfsRequest::LocalRefs).unwrap();
    assert_eq!(api.response_wait(&[bad, good, bad], WaitEvent::Message(fail(bad))), None);
    assert_eq!(
        api.response_wait(&[bad, good, bad], WaitEvent::DeadlineReached),
        Some(vec![
            IpfsRequestStatus::IoError,
            IpfsRequestStatus::DeadlineReached,
            IpfsRequestStatus::IoError
        ])
    );
    assert_eq!(
        api.response_wait(&[bad], WaitEvent::Start),
        Some(vec![IpfsRequestStatus::Invalid])
    );
}

#[test]
fn waits_leave_other_failures_alone() {
    let mut api = IpfsApi::with_random_number(0);
    let one = api.request_start(IpfsRequest::Identity).unwrap();
    let two = api.request_start(IpfsRequest::Identity).unwrap();
    assert_eq!(api.response_wait(&[one], WaitEvent::Message(fail(two))), None);
    assert_eq!(
        api.response_wait(&[one], WaitEvent::Message(fail(one))),
        Some(vec![IpfsRequestStatus::IoError])
    );
    assert_eq!(
        api.response_wait(&[two, one], WaitEvent::Start),
        Some(vec![IpfsRequestStatus::IoError, IpfsRequestStatus::Invalid])
    );
}

#[test]
fn worker_gone_fails_everything() {
    let mut api = IpfsApi::with_random_number(0);
    let done = api.request_start(IpfsRequest::Identity).unwrap();
    let open = api.request_start(IpfsRequest::Identity).unwrap();
    let known = [done, open, IpfsRequestId(900)];
    assert_eq!(api.response_wait(&known, WaitEvent::Message(response(done))), None);
    assert_eq!(
        api.response_wait(&known, WaitEvent::WorkerGone),
        Some(vec![IpfsRequestStatus::IoError; 3])
    );
    // Nothing has been forgotten.
    assert_eq!(
        api.response_wait(&known, WaitEvent::DeadlineReached),
        Some(vec![
            IpfsRequestStatus::Finished,
            IpfsRequestStatus::DeadlineReached,
            IpfsRequestStatus::Invalid
        ])
    );
}

#[test]
fn messages_about_unknown_requests_are_ignored() {
    let mut api = IpfsApi::with_random_number(0);
    let id = api.request_start(IpfsRequest::Identity).unwrap();
    let stranger = IpfsRequestId(77);
    assert_eq!(api.response_wait(&[id], WaitEvent::Message(response(stranger))), None);
    assert_eq!(
        api.response_wait(&[stranger], WaitEvent::Start),
        Some(vec![IpfsRequestStatus::Invalid])
    );
}

#[test]
fn second_answers_make_requests_invalid() {
    let mut api = IpfsApi::with_random_number(0);
    let id = api.request_start(IpfsRequest::Identity).unwrap();
    assert_eq!(
        api.response_wait(&[id], WaitEvent::Message(response(id))),
        Some(vec![IpfsRequestStatus::Finished])
    );
    assert_eq!(
        api.response_wait(&[id], WaitEvent::Message(fail(id))),
        Some(vec![IpfsRequestStatus::Invalid])
    );
}

#[test]
fn messages_about_settled_requests_are_not_expected() {
    let mut api = IpfsApi::with_random_number(0);
    let id = api.request_start(IpfsRequest::Identity).unwrap();
    assert!(api.is_expected(&response(id)));
    assert!(api.is_expected(&fail(id)));
    assert!(api.is_expected(&response(IpfsRequestId(70))));
    api.response_wait(&[], WaitEvent::Message(response(id)));
    assert!(!api.is_expected(&response(id)));
    assert!(!api.is_expected(&fail(id)));
}

#[test]
fn responses_can_be_looked_up() {
    let mut api = IpfsApi::with_random_number(0);
    let good = api.request_start(IpfsRequest::LocalRefs).unwrap();
    let bad = api.request_start(IpfsRequest::LocalRefs).unwrap();
    assert_eq!(api.response(good), None);
    let value = IpfsResponse::LocalRefs(vec![Cid(vec![3])]);
    api.response_wait(&[], WaitEvent::Message(WorkerToApi::Response { id: good, value }));
    api.response_wait(&[], WaitEvent::Message(fail(bad)));
    assert_eq!(api.response(good), Some(&IpfsResponse::LocalRefs(vec![Cid(vec![3])])));
    assert_eq!(api.response(bad), None);
    assert_eq!(api.response(IpfsRequestId(70)), None);
}

#[test]
fn messages_read_in_other_waits_are_reported_later() {
    let mut api = IpfsApi::with_random_number(0);
    let one = api.request_start(IpfsRequest::Identity).unwrap();
    let two = api.request_start(IpfsRequest::Identity).unwrap();
    let three = api.request_start(IpfsRequest::Identity).unwrap();
    assert_eq!(api.response_wait(&[one], WaitEvent::Message(response(two))), None);
    assert_eq!(api.response_wait(&[one], WaitEvent::Message(fail(three))), None);
    assert_eq!(
        api.response_wait(&[three, two], WaitEvent::Start),
        Some(vec![IpfsRequestStatus::IoError, IpfsRequestStatus::Finished])
    );
    assert_eq!(
        api.response_wait(&[three, one, two], WaitEvent::DeadlineReached),
        Some(vec![
            IpfsRequestStatus::Invalid,
            IpfsRequestStatus::DeadlineReached,
            IpfsRequestStatus::Finished
        ])
    );
}

#[test]
fn results_come_back_under_the_numbers_of_their_requests() {
    let mut api = IpfsApi::with_random_number(20);
    let mut worker = IpfsWorker::new();
    let mut ids = Vec::new();
    for n in 0..6u8 {
        ids.push(api.request_start(IpfsRequest::LocalRefs).unwrap());
        for ApiToWorker::Dispatch { id, .. } in api.take_to_worker() {
            let polled = (0..worker.len()).map(|_| Polled::Pending).collect();
            worker.poll(polled, Incoming::Dispatch { id, future: n });
        }
    }
    // Even computations end at once, odd ones later.
    let mut messages = Vec::new();
    for parity in [0, 1] {
        let mut polled = Vec::new();
        for n in 0..worker.len() {
            let future = *worker.future_mut(n).unwrap();
            polled.push(if future % 2 == parity {
                Polled::Ready(Ok(IpfsResponse::LocalRefs(vec![Cid(vec![future])])))
            } else {
                Polled::Pending
            });
        }
        worker.poll(polled, Incoming::Pending);
        messages.extend(worker.take_to_api());
    }
    assert_eq!(worker.len(), 0);
    // One message per request.
    assert_eq!(messages.len(), 6);
    for message in messages {
        assert!(api.is_expected(&message));
        api.response_wait(&[], WaitEvent::Message(message));
    }
    for n in 0..6u8 {
        assert_eq!(
            api.response(ids[n as usize]),
            Some(&IpfsResponse::LocalRefs(vec![Cid(vec![n])]))
        );
    }
    assert_eq!(
        api.response_wait(&ids, WaitEvent::Start),
        Some(vec![IpfsRequestStatus::Finished; 6])
    );
}

#[test]
fn blocks_change_nothing() {
    let mut api = IpfsApi::with_random_number(12);
    assert_eq!(api.process_block(), Ok(()));
    assert_eq!(api.request_start(IpfsRequest::Identity), Ok(IpfsRequestId(12)));
}

#[test]
fn worker_reports_from_the_last_request_to_the_first() {
    let mut worker = IpfsWorker::new();
    for n in 0..4 {
        let polled = (0..n).map(|_| Polled::Pending).collect();
        worker.poll(polled, Incoming::Dispatch { id: IpfsRequestId(n), future: n });
    }
    // Polling has turned the requests round.
    let mut order = Vec::new();
    for n in 0..worker.len() {
        order.push(*worker.future_mut(n).unwrap());
    }
    assert_eq!(order, vec![0, 2, 1, 3]);
    let polled = vec![
        Polled::Ready(Ok(IpfsResponse::LocalRefs(vec![]))),
        Polled::Pending,
        Polled::Ready(Err(failure("offline"))),
        Polled::Pending,
    ];
    let outcome = worker.poll(polled, Incoming::Pending);
    assert_eq!(outcome, WorkerPoll { finished: false, wake: true });
    assert_eq!(worker.take_to_api(), vec![fail(IpfsRequestId(1)), response(IpfsRequestId(0))]);
    assert_eq!(worker.take_to_api(), vec![]);
    let left: Vec<u16> = worker.entries().iter().map(|entry| entry.0 .0).collect();
    assert_eq!(left, vec![2, 3]);
}

#[test]
fn failures_do_not_wake_the_worker() {
    let mut worker = IpfsWorker::new();
    worker.poll(vec![], Incoming::Dispatch { id: IpfsRequestId(5), future: () });
    let outcome = worker.poll(vec![Polled::Ready(Err(failure("offline")))], Incoming::Pending);
    assert_eq!(outcome, WorkerPoll { finished: false, wake: false });
    assert_eq!(worker.len(), 0);
}

#[test]
fn worker_ends_when_the_api_is_gone() {
    let mut worker = IpfsWorker::new();
    worker.poll(vec![], Incoming::Dispatch { id: IpfsRequestId(5), future: () });
    let outcome = worker.poll(vec![Polled::Pending], Incoming::Closed);
    assert_eq!(outcome, WorkerPoll { finished: true, wake: false });
    assert_eq!(worker.len(), 1);
    assert!(worker.future_mut(1).is_none());
}

#[test]
fn requests_are_answered_in_kind() {
    assert_eq!(node_call(IpfsRequest::Identity), NodeCall::Identity);
    assert_eq!(node_call(IpfsRequest::LocalRefs), NodeCall::RefsLocal);
    let addr = OpaqueMultiaddr(b"/ip4/127.0.0.1".to_vec());
    assert_eq!(
        ipfs_request(NodeReply::Identity(Ok((PublicKey(vec![1]), vec![addr.clone()])))),
        Ok(IpfsResponse::Identity(PublicKey(vec![1]), vec![addr]))
    );
    assert_eq!(
        ipfs_request(NodeReply::RefsLocal(Ok(vec![Cid(vec![2])]))),
        Ok(IpfsResponse::LocalRefs(vec![Cid(vec![2])]))
    );
    assert_eq!(ipfs_request(NodeReply::Identity(Err(failure("a")))), Err(failure("a")));
    assert_eq!(ipfs_request(NodeReply::RefsLocal(Err(failure("b")))), Err(failure("b")));
}

#[test]
fn requests_are_described() {
    assert_eq!(
        IpfsApiRequest::NotDispatched(IpfsRequest::Identity).describe(),
        "IpfsApiRequest::NotDispatched"
    );
    assert_eq!(IpfsApiRequest::Dispatched.describe(), "IpfsApiRequest::Dispatched");
    assert_eq!(
        IpfsApiRequest::Response(IpfsResponse::LocalRefs(vec![])).describe(),
        "IpfsApiRequest::Response"
    );
    assert_eq!(
        IpfsApiRequest::Fail(failure("offline")).describe(),
        "IpfsApiRequest::Fail(offline)"
    );
    assert_eq!(IpfsWorkerRequest::Dispatched(0).describe(), "IpfsWorkerRequest::Dispatched");
    assert_eq!(
        IpfsWorkerRequest::<u8>::Ready(Err(failure("offline"))).describe(),
        "IpfsWorkerRequest::Response"
    );

    let mut api = IpfsApi::with_random_number(6);
    assert_eq!(api.entries(), vec![]);
    for _ in 0..3 {
        api.request_start(IpfsRequest::Identity).unwrap();
    }
    api.response_wait(&[IpfsRequestId(8)], WaitEvent::Message(response(IpfsRequestId(7))));
    let mut entries = api.entries();
    entries.sort_by_key(|entry| entry.0 .0);
    let entries: Vec<(u16, &str)> =
        entries.iter().map(|entry| (entry.0 .0, entry.1.as_str())).collect();
    assert_eq!(
        entries,
        vec![
            (6, "IpfsApiRequest::Dispatched"),
            (7, "IpfsApiRequest::Response"),
            (8, "IpfsApiRequest::Dispatched")
        ]
    );
}

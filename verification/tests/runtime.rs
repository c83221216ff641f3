use ipfs_offchain::api::{IpfsApi, IpfsResponse, NodeError, WaitEvent, WorkerToApi};
use ipfs_offchain::offchain::{
    Duration, IpfsError, IpfsRequest, IpfsRequestId, IpfsRequestStatus, Timestamp,
};
use ipfs_offchain::runtime::{Error, PendingRequest, Progress, Request, Response};

fn done<T, W>(progress: Progress<T, W>) -> T {
    match progress {
        Progress::Done(value) => value,
        Progress::Waiting(_) => panic!("the wait goes on"),
    }
}

fn waiting<T, W>(progress: Progress<T, W>) -> W {
    match progress {
        Progress::Done(_) => panic!("the wait is over"),
        Progress::Waiting(value) => value,
    }
}

fn response(id: u16) -> WaitEvent {
    WaitEvent::Message(WorkerToApi::Response {
        id: IpfsRequestId(id),
        value: IpfsResponse::LocalRefs(vec![]),
    })
}

fn fail(id: u16) -> WaitEvent {
    WaitEvent::Message(WorkerToApi::Fail {
        id: IpfsRequestId(id),
        error: NodeError { message: "offline".to_string() },
    })
}

fn pending(id: u16) -> PendingRequest {
    PendingRequest { id: IpfsRequestId(id) }
}

fn finished(id: u16) -> Response {
    Response { id: IpfsRequestId(id), code: 0 }
}

#[test]
fn started_requests_are_pending() {
    let mut api = IpfsApi::with_random_number(10);
    assert_eq!(Request::new(&mut api, IpfsRequest::Identity), Ok(pending(10)));
    assert_eq!(Request::new(&mut api, IpfsRequest::LocalRefs), Ok(pending(11)));
    assert_eq!(api.take_to_worker().len(), 2);
}

#[test]
fn requests_fail_to_start_without_numbers() {
    let mut api = IpfsApi::with_random_number(0);
    for _ in 0..u16::MAX {
        api.request_start(IpfsRequest::Identity).unwrap();
    }
    assert_eq!(Request::new(&mut api, IpfsRequest::Identity), Err(IpfsError::IoError));
    assert_eq!(PendingRequest::new(Err(())), Err(IpfsError::IoError));
    assert_eq!(PendingRequest::new(Ok(IpfsRequestId(3))), Ok(pending(3)));
}

#[test]
fn wait_until_the_answer_comes() {
    let mut api = IpfsApi::with_random_number(0);
    let request = Request::new(&mut api, IpfsRequest::Identity).unwrap();
    let request = waiting(request.wait(&mut api, WaitEvent::Start));
    assert_eq!(request, pending(0));
    let response = done(request.wait(&mut api, response(0))).unwrap();
    assert_eq!(response, finished(0));

    let body = response.body();
    assert_eq!(body.error(), &None);
}

#[test]
fn wait_for_a_failure() {
    let mut api = IpfsApi::with_random_number(0);
    let request = Request::new(&mut api, IpfsRequest::Identity).unwrap();
    assert_eq!(done(request.wait(&mut api, fail(0))), Err(Error::IoError));
    assert_eq!(done(pending(0).wait(&mut api, WaitEvent::Start)), Err(Error::Unknown));
    let request = Request::new(&mut api, IpfsRequest::Identity).unwrap();
    assert_eq!(done(request.wait(&mut api, WaitEvent::WorkerGone)), Err(Error::IoError));
}

#[test]
fn late_requests_are_handed_back() {
    let mut api = IpfsApi::with_random_number(5);
    let request = Request::new(&mut api, IpfsRequest::Identity).unwrap();
    let request = waiting(request.try_wait(&mut api, WaitEvent::Start));
    let late = done(request.try_wait(&mut api, WaitEvent::DeadlineReached));
    assert_eq!(late, Err(pending(5)));
    assert_eq!(done(pending(5).try_wait(&mut api, response(5))), Ok(Ok(finished(5))));
}

#[test]
fn try_wait_all_tells_of_each_request() {
    let mut api = IpfsApi::with_random_number(0);
    for _ in 0..3 {
        api.request_start(IpfsRequest::Identity).unwrap();
    }
    let all = || vec![pending(0), pending(1), pending(2), pending(9)];
    let rest = waiting(PendingRequest::try_wait_all(all(), &mut api, response(0)));
    assert_eq!(rest, all());
    let rest = waiting(PendingRequest::try_wait_all(rest, &mut api, fail(2)));
    let results = done(PendingRequest::try_wait_all(rest, &mut api, WaitEvent::DeadlineReached));
    assert_eq!(
        results,
        vec![
            Ok(Ok(finished(0))),
            Err(pending(1)),
            Ok(Err(Error::IoError)),
            Ok(Err(Error::Unknown))
        ]
    );
}

#[test]
fn wait_all_without_a_deadline() {
    let mut api = IpfsApi::with_random_number(0);
    for _ in 0..2 {
        api.request_start(IpfsRequest::Identity).unwrap();
    }
    let all = vec![pending(1), pending(0), pending(7)];
    let all = waiting(PendingRequest::wait_all(all, &mut api, WaitEvent::Start));
    let all = waiting(PendingRequest::wait_all(all, &mut api, fail(1)));
    assert_eq!(
        done(PendingRequest::wait_all(all, &mut api, response(0))),
        vec![Err(Error::IoError), Ok(finished(0)), Err(Error::Unknown)]
    );
    assert_eq!(done(PendingRequest::wait_all(vec![], &mut api, WaitEvent::Start)), vec![]);
}

#[test]
fn statuses_are_resolved_in_order() {
    let requests = || vec![pending(1), pending(2), pending(3), pending(4)];
    assert_eq!(
        PendingRequest::ids(&requests()),
        vec![IpfsRequestId(1), IpfsRequestId(2), IpfsRequestId(3), IpfsRequestId(4)]
    );
    assert_eq!(
        PendingRequest::resolve_all(
            requests(),
            vec![
                IpfsRequestStatus::Invalid,
                IpfsRequestStatus::IoError,
                IpfsRequestStatus::DeadlineReached,
                IpfsRequestStatus::Finished,
            ]
        ),
        vec![
            Ok(Err(Error::Unknown)),
            Ok(Err(Error::IoError)),
            Err(pending(3)),
            Ok(Ok(finished(4)))
        ]
    );
    // Requests without a status are left out.
    assert_eq!(
        PendingRequest::resolve_all(requests(), vec![IpfsRequestStatus::Finished]),
        vec![Ok(Ok(finished(1)))]
    );
}

#[test]
fn bodies_have_deadlines() {
    let mut body = finished(4).body();
    assert_eq!(
        format!("{:?}", body),
        "ResponseBody { id: IpfsRequestId(4), error: None, deadline: None }"
    );
    body.deadline(Some(Timestamp(7)));
    assert_eq!(
        format!("{:?}", body.clone()),
        "ResponseBody { id: IpfsRequestId(4), error: None, deadline: Some(Timestamp(7)) }"
    );
    assert_eq!(body.error(), &None);
    body.deadline(None);
    assert_eq!(
        format!("{:?}", body),
        "ResponseBody { id: IpfsRequestId(4), error: None, deadline: None }"
    );
}

#[test]
fn timestamps_are_added_up_to_the_end_of_time() {
    assert_eq!(Timestamp(5).add(Duration::from_millis(10)), Timestamp(15));
    assert_eq!(Timestamp(u64::MAX - 1).add(Duration::from_millis(1)), Timestamp(u64::MAX));
    assert_eq!(Timestamp(u64::MAX - 1).add(Duration::from_millis(10)), Timestamp(u64::MAX));
}

use ipfs_offchain::offchain::{IpfsError, IpfsRequestId, OpaqueMultiaddr, Timestamp};
use ipfs_offchain::pallet::{
    ensure_signed, BadOrigin, Error, Event, Module, Origin, PeerRequest, PeerResponse, Report,
    RequestError, ADD_ADDRESS_WEIGHT, REMOVE_ADDRESS_WEIGHT,
};
use ipfs_offchain::runtime::PendingRequest;

type Pallet = Module<u64>;

fn addr(text: &str) -> OpaqueMultiaddr {
    OpaqueMultiaddr(text.as_bytes().to_vec())
}

fn addrs(texts: &[&str]) -> Vec<OpaqueMultiaddr> {
    texts.iter().map(|text| addr(text)).collect()
}

fn lines(texts: &[&str]) -> Vec<String> {
    texts.iter().map(|text| text.to_string()).collect()
}

#[test]
fn addresses_are_added_once() {
    let mut pallet = Pallet::new(vec![]);
    assert_eq!(pallet.add_address(Origin::Signed(1), b"a".to_vec()), Ok(()));
    assert_eq!(pallet.add_address(Origin::Signed(2), b"b".to_vec()), Ok(()));
    assert_eq!(pallet.add_address(Origin::Signed(3), b"a".to_vec()), Ok(()));
    assert_eq!(pallet.desired(), &addrs(&["a", "b"]));
    assert_eq!(
        pallet.take_events(),
        vec![Event::AddressAdded(1), Event::AddressAdded(2), Event::AddressAdded(3)]
    );
    assert_eq!(pallet.take_events(), vec![]);
}

#[test]
fn addresses_are_removed() {
    let mut pallet = Pallet::new(addrs(&["a", "b", "c"]));
    assert_eq!(pallet.remove_address(Origin::Signed(1), b"b".to_vec()), Ok(()));
    assert_eq!(pallet.desired(), &addrs(&["a", "c"]));
    assert_eq!(pallet.remove_address(Origin::Signed(2), b"x".to_vec()), Ok(()));
    assert_eq!(pallet.desired(), &addrs(&["a", "c"]));
    assert_eq!(pallet.take_events(), vec![Event::AddressRemoved(1), Event::AddressRemoved(2)]);
}

#[test]
fn removal_undoes_addition() {
    let mut pallet = Pallet::new(addrs(&["a", "b"]));
    pallet.add_address(Origin::Signed(1), b"c".to_vec()).unwrap();
    pallet.remove_address(Origin::Signed(1), b"c".to_vec()).unwrap();
    assert_eq!(pallet.desired(), &addrs(&["a", "b"]));
}

#[test]
fn only_the_first_of_several_is_removed() {
    let mut pallet = Pallet::new(addrs(&["b", "a", "c", "a"]));
    pallet.remove_address(Origin::Signed(1), b"a".to_vec()).unwrap();
    assert_eq!(pallet.desired(), &addrs(&["b", "c", "a"]));
}

#[test]
fn unsigned_calls_change_nothing() {
    let mut pallet = Pallet::new(addrs(&["a"]));
    assert_eq!(pallet.add_address(Origin::Root, b"b".to_vec()), Err(BadOrigin));
    assert_eq!(pallet.add_address(Origin::Unsigned, b"b".to_vec()), Err(BadOrigin));
    assert_eq!(pallet.remove_address(Origin::Root, b"a".to_vec()), Err(BadOrigin));
    assert_eq!(pallet.remove_address(Origin::Unsigned, b"a".to_vec()), Err(BadOrigin));
    assert_eq!(pallet.desired(), &addrs(&["a"]));
    assert_eq!(pallet.take_events(), vec![]);
    assert_eq!(ensure_signed(Origin::Signed(7)), Ok(7));
}

#[test]
fn housekeeping_runs_at_every_other_block() {
    let runs: Vec<bool> = (0..5).map(Pallet::offchain_worker).collect();
    assert_eq!(runs, vec![false, true, false, true, false]);
    assert!(Pallet::offchain_worker(u64::MAX));
}

#[test]
fn requests_have_a_second() {
    assert_eq!(Pallet::request_deadline(Timestamp(5)), Timestamp(1_005));
    assert_eq!(Pallet::request_deadline(Timestamp(u64::MAX - 3)), Timestamp(u64::MAX));
    assert_eq!(
        Pallet::housekeeping_start(Timestamp(70)),
        (PeerRequest::Peers, Timestamp(1_070))
    );
}

#[test]
fn outcomes_of_requests() {
    let mut log = vec!["before".to_string()];
    let late = PendingRequest { id: IpfsRequestId(1) };
    assert_eq!(
        Pallet::ipfs_request(Err(IpfsError::IoError), &mut log),
        Err(Error::CantCreateRequest)
    );
    assert_eq!(Pallet::ipfs_request(Ok(Err(late)), &mut log), Err(Error::RequestTimeout));
    assert_eq!(
        Pallet::ipfs_request(Ok(Ok(Ok(PeerResponse::Peers(addrs(&["a"]))))), &mut log),
        Ok(PeerResponse::Peers(addrs(&["a"])))
    );
    assert_eq!(log, lines(&["before"]));
    for error in [
        RequestError::IoError("caf\u{e9} closed".as_bytes().to_vec()),
        RequestError::Unknown,
        RequestError::DeadlineReached,
    ] {
        assert_eq!(
            Pallet::ipfs_request(Ok(Ok(Err(error))), &mut log),
            Err(Error::RequestFailed)
        );
    }
    assert_eq!(
        log,
        lines(&[
            "before",
            "IPFS request failed: caf\u{e9} closed",
            "IPFS request failed: Unknown",
            "IPFS request failed: DeadlineReached",
        ])
    );
}

#[test]
fn unreadable_words_have_no_text() {
    assert_eq!(RequestError::IoError(vec![0xff]).text(), None);
    assert_eq!(RequestError::IoError(vec![]).text(), Some(String::new()));
    assert_eq!(RequestError::Unknown.text(), Some("Unknown".to_string()));
    assert_eq!(RequestError::DeadlineReached.text(), Some("DeadlineReached".to_string()));
}

#[test]
fn calls_have_weights() {
    assert_eq!((ADD_ADDRESS_WEIGHT, REMOVE_ADDRESS_WEIGHT), (100_000, 500_000));
}

#[test]
fn housekeeping_connects_and_disconnects() {
    let pallet = Pallet::new(addrs(&["a", "b", "c"]));
    let peers = PeerResponse::Peers(addrs(&["x", "b", "y"]));
    let housekeeping = pallet.connection_housekeeping(Ok(peers)).unwrap();
    assert_eq!(
        housekeeping.requests,
        vec![
            PeerRequest::Connect(addr("a")),
            PeerRequest::Connect(addr("c")),
            PeerRequest::Disconnect(addr("x")),
            PeerRequest::Disconnect(addr("y")),
        ]
    );
    assert_eq!(housekeeping.report, Report::AllLive { current: lines(&["x", "b", "y"]) });
}

#[test]
fn housekeeping_reports_what_is_missing() {
    let mut wanted = addrs(&["a", "b"]);
    wanted.push(OpaqueMultiaddr(vec![0xff, 0xfe]));
    let pallet = Pallet::new(wanted);
    let peers = vec![addr("b"), OpaqueMultiaddr(vec![0xc3]), addr("\u{e9}"), addr("z")];
    let housekeeping = pallet.connection_housekeeping(Ok(PeerResponse::Peers(peers))).unwrap();
    assert_eq!(
        housekeeping.report,
        Report::NotAllLive { current: lines(&["b", "\u{e9}", "z"]), missing: lines(&["a"]) }
    );
    assert_eq!(housekeeping.requests.len(), 5);
}

#[test]
fn housekeeping_fails_with_its_first_request() {
    let pallet = Pallet::new(addrs(&["a"]));
    for error in [Error::CantCreateRequest, Error::RequestTimeout, Error::RequestFailed] {
        assert_eq!(pallet.connection_housekeeping(Err(error)), Err(error));
    }
}

#[test]
fn housekeeping_reaches_what_is_wanted() {
    let pallet = Pallet::new(addrs(&["a", "b", "c"]));
    let mut peers = addrs(&["c", "x", "a", "y"]);
    let plan = pallet.connection_housekeeping(Ok(PeerResponse::Peers(peers.clone()))).unwrap();
    for request in plan.requests {
        match request {
            PeerRequest::Connect(addr) => peers.push(addr),
            PeerRequest::Disconnect(addr) => peers.retain(|peer| *peer != addr),
            PeerRequest::Peers => unreachable!(),
        }
    }
    assert_eq!(peers, addrs(&["c", "a", "b"]));
    let plan = pallet.connection_housekeeping(Ok(PeerResponse::Peers(peers))).unwrap();
    assert_eq!(plan.requests, vec![]);
    assert_eq!(plan.report, Report::AllLive { current: lines(&["c", "a", "b"]) });
}

#[test]
fn housekeeping_repeats_requests_only_for_repeated_addresses() {
    let pallet = Pallet::new(addrs(&["a", "b"]));
    let peers = PeerResponse::Peers(addrs(&["x", "b", "x"]));
    let plan = pallet.connection_housekeeping(Ok(peers)).unwrap();
    assert_eq!(
        plan.requests,
        vec![
            PeerRequest::Connect(addr("a")),
            PeerRequest::Disconnect(addr("x")),
            PeerRequest::Disconnect(addr("x")),
        ]
    );
}

#[test]
fn missing_connections_are_asked_for_again() {
    let mut pallet = Pallet::new(vec![]);
    pallet.add_address(Origin::Signed(1), b"a".to_vec()).unwrap();
    for _ in 0..3 {
        let plan = pallet.connection_housekeeping(Ok(PeerResponse::Peers(vec![]))).unwrap();
        assert_eq!(plan.requests, vec![PeerRequest::Connect(addr("a"))]);
    }
    pallet.remove_address(Origin::Signed(1), b"a".to_vec()).unwrap();
    let peers = PeerResponse::Peers(addrs(&["a"]));
    let plan = pallet.connection_housekeeping(Ok(peers)).unwrap();
    assert_eq!(plan.requests, vec![PeerRequest::Disconnect(addr("a"))]);
}

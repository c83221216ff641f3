//! Keeps the node connected to a list of peers.
use crate::offchain::{later, Duration, IpfsError, OpaqueMultiaddr, Timestamp};
use crate::runtime::PendingRequest;
use vstd::prelude::*;
use vstd::seq_lib::{group_to_multiset_ensures, lemma_multiset_commutative};
use vstd::utf8::{decode_utf8, valid_utf8};

verus! {

/// Who asks for a change of the list.
pub enum Origin<AccountId> {
    /// The system itself.
    Root,
    /// An account that has signed.
    Signed(AccountId),
    /// Nobody who has signed.
    Unsigned,
}

/// The origin of a call is not the one that the call needs.
#[derive(Clone, Copy, PartialEq, Eq, Structural, Debug)]
pub struct BadOrigin;

/// The account that has signed, if one has.
pub fn ensure_signed<AccountId>(origin: Origin<AccountId>) -> (who: Result<AccountId, BadOrigin>)
    ensures
        who == match origin {
            Origin::Signed(account) => Ok::<AccountId, BadOrigin>(account),
            _ => Err::<AccountId, BadOrigin>(BadOrigin),
        },
{
    match origin {
        Origin::Signed(account) => Ok(account),
        _ => Err(BadOrigin),
    }
}

/// What the pallet tells the outside world.
#[derive(PartialEq, Eq, Debug)]
pub enum Event<AccountId> {
    /// An account has asked for an address to be kept connected.
    AddressAdded(AccountId),
    /// An account has asked for an address not to be kept connected any more.
    AddressRemoved(AccountId),
}

/// Why a request of the pallet was not answered.
#[derive(Clone, Copy, PartialEq, Eq, Structural, Debug)]
pub enum Error {
    /// The request could not be started.
    CantCreateRequest,
    /// The request was late.
    RequestTimeout,
    /// The request failed.
    RequestFailed,
}

/// What the pallet asks of the IPFS engine.
#[derive(PartialEq, Eq, Debug)]
pub enum PeerRequest {
    /// The peers that the node is connected to.
    Peers,
    /// A connection to a peer.
    Connect(OpaqueMultiaddr),
    /// The end of the connection to a peer.
    Disconnect(OpaqueMultiaddr),
}

/// The mathematical content of a [`PeerRequest`].
pub enum PeerRequestView {
    /// See [`PeerRequest::Peers`].
    Peers,
    /// See [`PeerRequest::Connect`].
    Connect(Seq<u8>),
    /// See [`PeerRequest::Disconnect`].
    Disconnect(Seq<u8>),
}

impl View for PeerRequest {
    type V = PeerRequestView;

    open spec fn view(&self) -> PeerRequestView {
        match self {
            PeerRequest::Peers => PeerRequestView::Peers,
            PeerRequest::Connect(addr) => PeerRequestView::Connect(addr@),
            PeerRequest::Disconnect(addr) => PeerRequestView::Disconnect(addr@),
        }
    }
}

/// What the IPFS engine answers to the pallet.
#[derive(PartialEq, Eq, Debug)]
pub enum PeerResponse {
    /// The peers that the node is connected to.
    Peers(Vec<OpaqueMultiaddr>),
    /// The request has been carried out.
    Done,
}

/// Why a request of the pallet was refused.
#[derive(PartialEq, Eq, Debug)]
pub enum RequestError {
    /// The deadline has been reached.
    DeadlineReached,
    /// The engine could not serve the request; these are its words.
    IoError(Vec<u8>),
    /// The cause is not known.
    Unknown,
}

impl RequestError {
    /// The words of the engine, if there are any, are readable text.
    pub open spec fn readable(self) -> bool {
        self matches RequestError::IoError(words) ==> valid_utf8(words@)
    }

    /// The text of [`RequestError::text`].
    pub open spec fn description(self) -> Seq<char> {
        match self {
            RequestError::DeadlineReached => "DeadlineReached"@,
            RequestError::IoError(words) => decode_utf8(words@),
            RequestError::Unknown => "Unknown"@,
        }
    }

    /// The line to log when a request is refused.
    pub open spec fn line(self) -> Seq<char> {
        "IPFS request failed: "@ + self.description()
    }

    /// A text for people to read, unless the engine's words are not readable.
    pub fn text(&self) -> (text: Option<String>)
        ensures
            match text {
                Some(text) => self.readable() && text@ == self.description(),
                None => !self.readable(),
            },
    {
        match self {
            RequestError::DeadlineReached => Some("DeadlineReached".to_owned()),
            RequestError::IoError(words) => readable_text(words),
            RequestError::Unknown => Some("Unknown".to_owned()),
        }
    }
}

/// The addresses in a list.
pub open spec fn addrs(list: Seq<OpaqueMultiaddr>) -> Seq<Seq<u8>> {
    list.map_values(|addr: OpaqueMultiaddr| addr@)
}

/// The content of a list of requests.
pub open spec fn asked(requests: Seq<PeerRequest>) -> Seq<PeerRequestView> {
    requests.map_values(|request: PeerRequest| request@)
}

/// The content of a list of texts.
pub open spec fn texts(list: Seq<String>) -> Seq<Seq<char>> {
    list.map_values(|text: String| text@)
}

/// `list` with `addr` at its end, unless it is there already.
pub open spec fn added(list: Seq<Seq<u8>>, addr: Seq<u8>) -> Seq<Seq<u8>> {
    if list.contains(addr) {
        list
    } else {
        list.push(addr)
    }
}

/// Those of `list` that are not in `others`.
pub open spec fn without(list: Seq<Seq<u8>>, others: Seq<Seq<u8>>) -> Seq<Seq<u8>> {
    list.filter(|addr: Seq<u8>| !others.contains(addr))
}

/// Those of `list` that are readable text.
pub open spec fn readable(list: Seq<Seq<u8>>) -> Seq<Seq<char>> {
    list.filter(|addr: Seq<u8>| valid_utf8(addr)).map_values(|addr: Seq<u8>| decode_utf8(addr))
}

/// What has to be asked for when the node is connected to `peers` and should be
/// connected to `wanted`: the connections that are missing, then the end of those
/// that are not wanted.
pub open spec fn plan(wanted: Seq<Seq<u8>>, peers: Seq<Seq<u8>>) -> Seq<PeerRequestView> {
    without(wanted, peers).map_values(|addr: Seq<u8>| PeerRequestView::Connect(addr)) + without(
        peers,
        wanted,
    ).map_values(|addr: Seq<u8>| PeerRequestView::Disconnect(addr))
}

/// How the connections stand, for people to read. Addresses that are not readable
/// text are left out.
#[derive(PartialEq, Eq, Debug)]
pub enum Report {
    /// There are as many connections as are wanted.
    AllLive {
        /// The peers that the node is connected to.
        current: Vec<String>,
    },
    /// The number of connections is not the one that is wanted.
    NotAllLive {
        /// The peers that the node is connected to.
        current: Vec<String>,
        /// The peers that the node should be connected to and is not.
        missing: Vec<String>,
    },
}

impl Report {
    /// The report tells how `wanted` and `peers` stand.
    pub open spec fn tells(self, wanted: Seq<Seq<u8>>, peers: Seq<Seq<u8>>) -> bool {
        match self {
            Report::AllLive { current } => {
                &&& wanted.len() == peers.len()
                &&& texts(current@) == readable(peers)
            },
            Report::NotAllLive { current, missing } => {
                &&& wanted.len() != peers.len()
                &&& texts(current@) == readable(peers)
                &&& texts(missing@) == readable(without(wanted, peers))
            },
        }
    }
}

/// What comes of a look at the connections.
#[derive(PartialEq, Eq, Debug)]
pub struct Housekeeping {
    /// The requests to make, in this order. Whether they are answered does not
    /// matter.
    pub requests: Vec<PeerRequest>,
    /// How the connections stand.
    pub report: Report,
}

/// The mathematical content of a [`Module`].
#[verifier::ext_equal]
pub struct ModuleState<AccountId> {
    /// The addresses to keep connections to.
    pub desired: Seq<Seq<u8>>,
    /// Events that still have to be published, oldest first.
    pub events: Seq<Event<AccountId>>,
}

/// The pallet.
pub struct Module<AccountId> {
    /// The addresses to keep connections to.
    desired: Vec<OpaqueMultiaddr>,
    /// Events that still have to be published.
    events: Vec<Event<AccountId>>,
}

impl<AccountId> View for Module<AccountId> {
    type V = ModuleState<AccountId>;

    closed spec fn view(&self) -> ModuleState<AccountId> {
        ModuleState { desired: addrs(self.desired@), events: self.events@ }
    }
}

/// The weight of [`Module::add_address`].
pub const ADD_ADDRESS_WEIGHT: u64 = 100_000;

/// The weight of [`Module::remove_address`].
pub const REMOVE_ADDRESS_WEIGHT: u64 = 500_000;

/// How long a request may take, in milliseconds.
pub const REQUEST_MILLIS: u64 = 1_000;

/// Where in `list` the address `addr` occurs first.
fn position(list: &Vec<OpaqueMultiaddr>, addr: &OpaqueMultiaddr) -> (found: Option<usize>)
    ensures
        match found {
            Some(n) => addrs(list@).index_of_first(addr@) == Some(n as int),
            None => addrs(list@).index_of_first(addr@) is None,
        },
        found is Some <==> addrs(list@).contains(addr@),
{
    proof {
        addrs(list@).index_of_first_ensures(addr@);
    }
    for n in 0..list.len()
        invariant
            forall|m: int| 0 <= m < n ==> addrs(list@)[m] != addr@,
    {
        if list[n].0 == addr.0 {
            assert(list[n as int]@ == addr@);
            assert(addrs(list@)[n as int] == addr@);
            proof {
                addrs(list@).index_of_first_ensures(addr@);
            }
            return Some(n);
        }
        assert(list[n as int]@ != addr@);
    }
    None
}

/// Calls `sp_std::str::from_utf8`, which is the function of that name in `core`, and
/// copies what it returns. Believed without proof: it succeeds exactly on valid
/// UTF-8, with the text that the bytes encode.
#[verifier::external_body]
fn readable_text(bytes: &Vec<u8>) -> (text: Option<String>)
    ensures
        match text {
            Some(text) => valid_utf8(bytes@) && text@ == decode_utf8(bytes@),
            None => !valid_utf8(bytes@),
        },
{
    sp_std::str::from_utf8(bytes).ok().map(str::to_owned)
}

/// Those of the addresses that are not in `others`.
fn missing_from(list: &Vec<OpaqueMultiaddr>, others: &Vec<OpaqueMultiaddr>) -> (missing: Vec<
    OpaqueMultiaddr,
>)
    ensures
        addrs(missing@) == without(addrs(list@), addrs(others@)),
{
    let ghost keep = |addr: Seq<u8>| !addrs(others@).contains(addr);
    let mut missing: Vec<OpaqueMultiaddr> = Vec::new();
    assert(addrs(list@).take(0).filter(keep) == Seq::<Seq<u8>>::empty()) by {
        reveal(Seq::filter);
    }
    for n in 0..list.len()
        invariant
            keep == (|addr: Seq<u8>| !addrs(others@).contains(addr)),
            addrs(missing@) == addrs(list@).take(n as int).filter(keep),
    {
        proof {
            addrs(list@).take(n as int).lemma_filter_push(list[n as int]@, keep);
            assert(addrs(list@).take(n + 1) == addrs(list@).take(n as int).push(list[n as int]@));
        }
        if position(others, &list[n]).is_none() {
            let ghost before = missing@;
            missing.push(list[n].clone());
            assert(addrs(missing@) == addrs(before).push(list[n as int]@));
        }
    }
    assert(addrs(list@).take(list@.len() as int) == addrs(list@));
    missing
}

/// Those of the addresses that are readable text.
fn readable_addrs(list: &Vec<OpaqueMultiaddr>) -> (lines: Vec<String>)
    ensures
        texts(lines@) == readable(addrs(list@)),
{
    let ghost keep = |addr: Seq<u8>| valid_utf8(addr);
    let ghost read = |addr: Seq<u8>| decode_utf8(addr);
    let mut lines: Vec<String> = Vec::new();
    assert(addrs(list@).take(0).filter(keep).map_values(read) == Seq::<Seq<char>>::empty()) by {
        reveal(Seq::filter);
    }
    for n in 0..list.len()
        invariant
            keep == (|addr: Seq<u8>| valid_utf8(addr)),
            read == (|addr: Seq<u8>| decode_utf8(addr)),
            texts(lines@) == addrs(list@).take(n as int).filter(keep).map_values(read),
    {
        let ghost seen = addrs(list@).take(n as int);
        proof {
            seen.lemma_filter_push(list[n as int]@, keep);
            assert(addrs(list@).take(n + 1) == seen.push(list[n as int]@));
        }
        if let Some(line) = readable_text(&list[n].0) {
            let ghost before = lines@;
            lines.push(line);
            assert(texts(lines@) == texts(before).push(line@));
            assert(seen.filter(keep).push(list[n as int]@).map_values(read) == seen.filter(
                keep,
            ).map_values(read).push(line@));
        }
    }
    assert(addrs(list@).take(list@.len() as int) == addrs(list@));
    lines
}

impl<AccountId> Module<AccountId> {
    /// The pallet with the addresses that have been stored.
    pub fn new(desired: Vec<OpaqueMultiaddr>) -> (module: Module<AccountId>)
        ensures
            module@ == (ModuleState::<AccountId> {
                desired: addrs(desired@),
                events: Seq::empty(),
            }),
    {
        Module { desired, events: Vec::new() }
    }

    /// Adds an address to keep a connection to. The connection is made by the next
    /// housekeeping, or by a later one if that fails.
    pub fn add_address(&mut self, origin: Origin<AccountId>, addr: Vec<u8>) -> (done: Result<
        (),
        BadOrigin,
    >)
        ensures
            match origin {
                Origin::Signed(who) => {
                    &&& done == Ok::<(), BadOrigin>(())
                    &&& final(self)@ == (ModuleState {
                        desired: added(old(self)@.desired, addr@),
                        events: old(self)@.events.push(Event::AddressAdded(who)),
                    })
                },
                _ => done == Err::<(), BadOrigin>(BadOrigin) && final(self)@ == old(self)@,
            },
    {
        let who = match ensure_signed(origin) {
            Ok(who) => who,
            Err(error) => {
                return Err(error);
            },
        };
        let ghost before = self.desired@;
        let addr = OpaqueMultiaddr(addr);
        if position(&self.desired, &addr).is_none() {
            self.desired.push(addr);
            assert(addrs(self.desired@) == addrs(before).push(addr@));
        }
        self.events.push(Event::AddressAdded(who));
        Ok(())
    }

    /// Removes an address to keep a connection to. The connection is ended by the
    /// next housekeeping.
    pub fn remove_address(&mut self, origin: Origin<AccountId>, addr: Vec<u8>) -> (done: Result<
        (),
        BadOrigin,
    >)
        ensures
            match origin {
                Origin::Signed(who) => {
                    &&& done == Ok::<(), BadOrigin>(())
                    &&& final(self)@ == (ModuleState {
                        desired: old(self)@.desired.remove_value(addr@),
                        events: old(self)@.events.push(Event::AddressRemoved(who)),
                    })
                },
                _ => done == Err::<(), BadOrigin>(BadOrigin) && final(self)@ == old(self)@,
            },
    {
        let who = match ensure_signed(origin) {
            Ok(who) => who,
            Err(error) => {
                return Err(error);
            },
        };
        let ghost before = self.desired@;
        let addr = OpaqueMultiaddr(addr);
        proof {
            addrs(before).index_of_first_ensures(addr@);
        }
        if let Some(n) = position(&self.desired, &addr) {
            let _ = self.desired.remove(n);
            assert(addrs(self.desired@) == addrs(before).remove(n as int));
        }
        self.events.push(Event::AddressRemoved(who));
        Ok(())
    }

    /// Whether the offchain worker does its housekeeping at this block: it does so at
    /// every other block.
    pub fn offchain_worker(block_number: u64) -> (run: bool)
        ensures
            run == (block_number % 2 == 1),
    {
        block_number % 2 == 1
    }

    /// When a request that is made now has to be answered.
    pub fn request_deadline(now: Timestamp) -> (deadline: Timestamp)
        ensures
            deadline == Timestamp(later(now.0, REQUEST_MILLIS)),
    {
        now.add(Duration::from_millis(REQUEST_MILLIS))
    }

    /// Makes a request: turns what came of starting it and of waiting for it into the
    /// answer. `outcome` is an error if the request could not be started; otherwise
    /// it holds what came of the wait.
    ///
    /// If the request was refused, a line that tells why is left in `log`.
    pub fn ipfs_request(
        outcome: Result<Result<Result<PeerResponse, RequestError>, PendingRequest>, IpfsError>,
        log: &mut Vec<String>,
    ) -> (answer: Result<PeerResponse, Error>)
        requires
            outcome matches Ok(Ok(Err(error))) ==> error.readable(),
        ensures
            answer == match outcome {
                Err(_) => Err::<PeerResponse, Error>(Error::CantCreateRequest),
                Ok(Err(_)) => Err::<PeerResponse, Error>(Error::RequestTimeout),
                Ok(Ok(Err(_))) => Err::<PeerResponse, Error>(Error::RequestFailed),
                Ok(Ok(Ok(response))) => Ok::<PeerResponse, Error>(response),
            },
            texts(final(log)@) == match outcome {
                Ok(Ok(Err(error))) => texts(old(log)@).push(error.line()),
                _ => texts(old(log)@),
            },
    {
        match outcome {
            Err(_) => Err(Error::CantCreateRequest),
            Ok(Err(_)) => Err(Error::RequestTimeout),
            Ok(Ok(Err(error))) => {
                let mut line: String = "IPFS request failed: ".to_owned();
                line.append(error.text().unwrap().as_str());
                log.push(line);
                assert(texts(log@) == texts(old(log)@).push(error.line()));
                Err(Error::RequestFailed)
            },
            Ok(Ok(Ok(response))) => Ok(response),
        }
    }

    /// The request with which housekeeping begins, and when it has to be answered.
    pub fn housekeeping_start(now: Timestamp) -> (first: (PeerRequest, Timestamp))
        ensures
            first.0 is Peers,
            first.1 == Timestamp(later(now.0, REQUEST_MILLIS)),
    {
        (PeerRequest::Peers, Self::request_deadline(now))
    }

    /// Looks at the connections: `answer` is the answer to the request with which
    /// housekeeping begins.
    pub fn connection_housekeeping(&self, answer: Result<PeerResponse, Error>) -> (result: Result<
        Housekeeping,
        Error,
    >)
        requires
            answer matches Ok(response) ==> response is Peers,
        ensures
            match answer {
                Err(error) => result == Err::<Housekeeping, Error>(error),
                Ok(response) => {
                    &&& result is Ok
                    &&& asked(result->Ok_0.requests@) == plan(
                        self@.desired,
                        addrs(response->Peers_0@),
                    )
                    &&& result->Ok_0.report.tells(self@.desired, addrs(response->Peers_0@))
                },
            },
    {
        let peers: Vec<OpaqueMultiaddr> = match answer {
            Ok(PeerResponse::Peers(peers)) => peers,
            Ok(PeerResponse::Done) => vstd::pervasive::unreached(),
            Err(error) => {
                return Err(error);
            },
        };
        let missing: Vec<OpaqueMultiaddr> = missing_from(&self.desired, &peers);
        let unwanted: Vec<OpaqueMultiaddr> = missing_from(&peers, &self.desired);
        let mut requests: Vec<PeerRequest> = Vec::new();
        for n in 0..missing.len()
            invariant
                requests@.len() == n,
                forall|m: int|
                    0 <= m < n ==> (#[trigger] requests@[m])@ == PeerRequestView::Connect(
                        missing@[m]@,
                    ),
        {
            requests.push(PeerRequest::Connect(missing[n].clone()));
        }
        for n in 0..unwanted.len()
            invariant
                requests@.len() == missing@.len() + n,
                forall|m: int|
                    0 <= m < missing@.len() ==> (#[trigger] requests@[m])@
                        == PeerRequestView::Connect(missing@[m]@),
                forall|m: int|
                    missing@.len() <= m < missing@.len() + n ==> (#[trigger] requests@[m])@
                        == PeerRequestView::Disconnect(unwanted@[m - missing@.len()]@),
        {
            requests.push(PeerRequest::Disconnect(unwanted[n].clone()));
        }
        assert(asked(requests@) == addrs(missing@).map_values(
            |addr: Seq<u8>| PeerRequestView::Connect(addr),
        ) + addrs(unwanted@).map_values(|addr: Seq<u8>| PeerRequestView::Disconnect(addr)));
        let current: Vec<String> = readable_addrs(&peers);
        let report = if self.desired.len() == peers.len() {
            Report::AllLive { current }
        } else {
            Report::NotAllLive { current, missing: readable_addrs(&missing) }
        };
        Ok(Housekeeping { requests, report })
    }

    /// The addresses to keep connections to.
    pub fn desired(&self) -> (list: &Vec<OpaqueMultiaddr>)
        ensures
            addrs(list@) == self@.desired,
    {
        &self.desired
    }

    /// Takes the events that still have to be published.
    pub fn take_events(&mut self) -> (events: Vec<Event<AccountId>>)
        ensures
            events@ == old(self)@.events,
            final(self)@ == (ModuleState { events: Seq::empty(), ..old(self)@ }),
    {
        let mut events: Vec<Event<AccountId>> = Vec::new();
        events.append(&mut self.events);
        assert(events@ == old(self)@.events);
        events
    }
}

/// No address is listed twice: a list without repetitions stays so.
pub proof fn law_no_address_twice(list: Seq<Seq<u8>>, addr: Seq<u8>)
    requires
        list.no_duplicates(),
    ensures
        added(list, addr).no_duplicates(),
        list.remove_value(addr).no_duplicates(),
{
    list.index_of_first_ensures(addr);
}

/// An address that has been added is listed, and no other address is affected.
/// Adding it again makes no difference.
pub proof fn law_added_address_is_listed(list: Seq<Seq<u8>>, addr: Seq<u8>)
    ensures
        forall|other: Seq<u8>| #[trigger]
            added(list, addr).contains(other) <==> other == addr || list.contains(other),
        added(added(list, addr), addr) == added(list, addr),
{
    assert forall|other: Seq<u8>| #[trigger] added(list, addr).contains(other) <==> other == addr
        || list.contains(other) by {
        let longer = list.push(addr);
        assert(longer[list.len() as int] == addr);
        if list.contains(other) {
            assert(longer[list.index_of(other)] == other);
        }
    }
}

/// An address that has been removed is not listed, and no other address is affected.
pub proof fn law_removed_address_is_not_listed(list: Seq<Seq<u8>>, addr: Seq<u8>)
    requires
        list.no_duplicates(),
    ensures
        forall|other: Seq<u8>| #[trigger]
            list.remove_value(addr).contains(other) <==> other != addr && list.contains(other),
{
    list.index_of_first_ensures(addr);
    let shorter = list.remove_value(addr);
    if list.contains(addr) {
        let n = list.index_of_first(addr)->0;
        assert forall|other: Seq<u8>| #[trigger] shorter.contains(other) <==> other != addr
            && list.contains(other) by {
            if other != addr && list.contains(other) {
                let m = list.index_of(other);
                if m < n {
                    assert(shorter[m] == other);
                } else {
                    assert(shorter[m - 1] == other);
                }
            }
            if shorter.contains(other) {
                let m = shorter.index_of(other);
                if m < n {
                    assert(list[m] == other);
                } else {
                    assert(list[m + 1] == other);
                }
            }
        }
    }
}

/// Removing an address undoes its addition.
pub proof fn law_removal_undoes_addition(list: Seq<Seq<u8>>, addr: Seq<u8>)
    requires
        !list.contains(addr),
    ensures
        added(list, addr).remove_value(addr) == list,
{
    let longer = list.push(addr);
    assert(longer[list.len() as int] == addr);
    longer.index_of_first_ensures(addr);
    let n = longer.index_of_first(addr)->0;
    assert(n == list.len()) by {
        if n < list.len() {
            assert(list[n] == addr);
        }
    }
    assert(longer.remove(n) == list);
}

proof fn lemma_without(list: Seq<Seq<u8>>, others: Seq<Seq<u8>>, addr: Seq<u8>)
    ensures
        without(list, others).contains(addr) <==> list.contains(addr) && !others.contains(addr),
{
    broadcast use Seq::lemma_filter_pred;

    let keep = |addr: Seq<u8>| !others.contains(addr);
    if list.contains(addr) && !others.contains(addr) {
        list.lemma_filter_contains(keep, list.index_of(addr));
    }
    if without(list, others).contains(addr) {
        list.lemma_filter_contains_rev(keep, addr);
        assert(keep(list.filter(keep)[list.filter(keep).index_of(addr)]));
    }
}

/// Housekeeping asks for a connection exactly if it is wanted and missing, and for
/// the end of a connection exactly if it is there and not wanted.
pub proof fn law_plan_is_exact(wanted: Seq<Seq<u8>>, peers: Seq<Seq<u8>>, addr: Seq<u8>)
    ensures
        plan(wanted, peers).contains(PeerRequestView::Connect(addr)) <==> wanted.contains(addr)
            && !peers.contains(addr),
        plan(wanted, peers).contains(PeerRequestView::Disconnect(addr)) <==> peers.contains(addr)
            && !wanted.contains(addr),
        !plan(wanted, peers).contains(PeerRequestView::Peers),
{
    let missing = without(wanted, peers);
    let unwanted = without(peers, wanted);
    let all = plan(wanted, peers);
    lemma_without(wanted, peers, addr);
    lemma_without(peers, wanted, addr);
    if missing.contains(addr) {
        assert(all[missing.index_of(addr)] == PeerRequestView::Connect(addr));
    }
    if unwanted.contains(addr) {
        assert(all[missing.len() + unwanted.index_of(addr)] == PeerRequestView::Disconnect(addr));
    }
    if all.contains(PeerRequestView::Connect(addr)) {
        let n = all.index_of(PeerRequestView::Connect(addr));
        assert(n < missing.len());
        assert(missing[n] == addr);
    }
    if all.contains(PeerRequestView::Disconnect(addr)) {
        let n = all.index_of(PeerRequestView::Disconnect(addr));
        assert(n >= missing.len());
        assert(unwanted[n - missing.len()] == addr);
    }
}

proof fn lemma_without_no_duplicates(list: Seq<Seq<u8>>, others: Seq<Seq<u8>>)
    requires
        list.no_duplicates(),
    ensures
        without(list, others).no_duplicates(),
    decreases list.len(),
{
    reveal(Seq::filter);
    if list.len() > 0 {
        let rest = list.drop_last();
        lemma_without_no_duplicates(rest, others);
        lemma_without(rest, others, list.last());
    }
}

/// How often an element occurs in a list whose elements are made, one from each, out of
/// the elements of a list without repetitions.
proof fn lemma_count_mapped<B>(list: Seq<Seq<u8>>, f: spec_fn(Seq<u8>) -> B, addr: Seq<u8>)
    requires
        list.no_duplicates(),
        forall|a: Seq<u8>, b: Seq<u8>| #[trigger] f(a) == #[trigger] f(b) ==> a == b,
    ensures
        list.map_values(f).to_multiset().count(f(addr)) == if list.contains(addr) {
            1nat
        } else {
            0nat
        },
{
    broadcast use group_to_multiset_ensures;

    let mapped = list.map_values(f);
    assert(mapped.no_duplicates()) by {
        assert forall|i: int, j: int|
            0 <= i < mapped.len() && 0 <= j < mapped.len() && i != j implies mapped[i]
            != mapped[j] by {
            assert(list[i] != list[j]);
            assert(f(list[i]) != f(list[j]));
        }
    }
    mapped.lemma_multiset_has_no_duplicates();
    if list.contains(addr) {
        assert(mapped[list.index_of(addr)] == f(addr));
        assert(mapped.to_multiset().contains(f(addr)));
    } else if mapped.contains(f(addr)) {
        let i = mapped.index_of(f(addr));
        assert(f(list[i]) == f(addr));
    }
}

/// Housekeeping repeats no request: it asks once for a connection that is wanted and
/// missing if no address is wanted twice, and once for the end of a connection that is
/// there and not wanted if no peer is listed twice.
pub proof fn law_plan_repeats_nothing(wanted: Seq<Seq<u8>>, peers: Seq<Seq<u8>>, addr: Seq<u8>)
    ensures
        wanted.no_duplicates() ==> plan(wanted, peers).to_multiset().count(
            PeerRequestView::Connect(addr),
        ) == if wanted.contains(addr) && !peers.contains(addr) {
            1nat
        } else {
            0nat
        },
        peers.no_duplicates() ==> plan(wanted, peers).to_multiset().count(
            PeerRequestView::Disconnect(addr),
        ) == if peers.contains(addr) && !wanted.contains(addr) {
            1nat
        } else {
            0nat
        },
{
    broadcast use group_to_multiset_ensures;

    let connect = |addr: Seq<u8>| PeerRequestView::Connect(addr);
    let disconnect = |addr: Seq<u8>| PeerRequestView::Disconnect(addr);
    let connects = without(wanted, peers).map_values(connect);
    let disconnects = without(peers, wanted).map_values(disconnect);
    lemma_multiset_commutative(connects, disconnects);
    lemma_without(wanted, peers, addr);
    lemma_without(peers, wanted, addr);
    if wanted.no_duplicates() {
        lemma_without_no_duplicates(wanted, peers);
        lemma_count_mapped(without(wanted, peers), connect, addr);
        assert(!disconnects.contains(connect(addr)));
    }
    if peers.no_duplicates() {
        lemma_without_no_duplicates(peers, wanted);
        lemma_count_mapped(without(peers, wanted), disconnect, addr);
        assert(!connects.contains(disconnect(addr)));
    }
}

proof fn lemma_filter_count(list: Seq<Seq<u8>>, keep: spec_fn(Seq<u8>) -> bool, addr: Seq<u8>)
    ensures
        list.filter(keep).to_multiset().count(addr) == if keep(addr) {
            list.to_multiset().count(addr)
        } else {
            0nat
        },
    decreases list.len(),
{
    broadcast use group_to_multiset_ensures;

    reveal(Seq::filter);
    if list.len() > 0 {
        lemma_filter_count(list.drop_last(), keep, addr);
        assert(list == list.drop_last().push(list.last()));
    } else {
        assert(!list.filter(keep).contains(addr));
        assert(!list.contains(addr));
    }
}

proof fn lemma_mapped_count<B>(list: Seq<Seq<u8>>, f: spec_fn(Seq<u8>) -> B, addr: Seq<u8>)
    requires
        forall|a: Seq<u8>, b: Seq<u8>| #[trigger] f(a) == #[trigger] f(b) ==> a == b,
    ensures
        list.map_values(f).to_multiset().count(f(addr)) == list.to_multiset().count(addr),
    decreases list.len(),
{
    broadcast use group_to_multiset_ensures;

    if list.len() > 0 {
        let rest = list.drop_last();
        lemma_mapped_count(rest, f, addr);
        assert(list == rest.push(list.last()));
        assert(list.map_values(f) == rest.map_values(f).push(f(list.last())));
    } else {
        assert(!list.map_values(f).contains(f(addr)));
        assert(!list.contains(addr));
    }
}

/// Housekeeping asks for a missing connection as often as it is wanted, and for the end
/// of an unwanted one as often as it is there.
pub proof fn law_plan_counts(wanted: Seq<Seq<u8>>, peers: Seq<Seq<u8>>, addr: Seq<u8>)
    ensures
        plan(wanted, peers).to_multiset().count(PeerRequestView::Connect(addr))
            == if peers.contains(addr) {
            0nat
        } else {
            wanted.to_multiset().count(addr)
        },
        plan(wanted, peers).to_multiset().count(PeerRequestView::Disconnect(addr))
            == if wanted.contains(addr) {
            0nat
        } else {
            peers.to_multiset().count(addr)
        },
{
    broadcast use group_to_multiset_ensures;

    let connect = |addr: Seq<u8>| PeerRequestView::Connect(addr);
    let disconnect = |addr: Seq<u8>| PeerRequestView::Disconnect(addr);
    let connects = without(wanted, peers).map_values(connect);
    let disconnects = without(peers, wanted).map_values(disconnect);
    lemma_multiset_commutative(connects, disconnects);
    lemma_filter_count(wanted, |addr: Seq<u8>| !peers.contains(addr), addr);
    lemma_filter_count(peers, |addr: Seq<u8>| !wanted.contains(addr), addr);
    lemma_mapped_count(without(wanted, peers), connect, addr);
    lemma_mapped_count(without(peers, wanted), disconnect, addr);
    assert(!disconnects.contains(connect(addr)));
    assert(!connects.contains(disconnect(addr)));
}

/// A report says that all connections are live exactly if there are as many as are
/// wanted.
pub proof fn law_all_live_means_as_many(
    report: Report,
    wanted: Seq<Seq<u8>>,
    peers: Seq<Seq<u8>>,
)
    requires
        report.tells(wanted, peers),
    ensures
        report is AllLive <==> wanted.len() == peers.len(),
{
}

proof fn lemma_readable(list: Seq<Seq<u8>>, text: Seq<char>)
    ensures
        readable(list).contains(text) <==> exists|addr: Seq<u8>| #[trigger]
            list.contains(addr) && valid_utf8(addr) && decode_utf8(addr) == text,
{
    broadcast use Seq::lemma_filter_pred;

    let keep = |addr: Seq<u8>| valid_utf8(addr);
    let kept = list.filter(keep);
    if exists|addr: Seq<u8>| #[trigger]
        list.contains(addr) && valid_utf8(addr) && decode_utf8(addr) == text {
        let addr = choose|addr: Seq<u8>| #[trigger]
            list.contains(addr) && valid_utf8(addr) && decode_utf8(addr) == text;
        list.lemma_filter_contains(keep, list.index_of(addr));
        assert(kept.contains(addr));
        assert(readable(list)[kept.index_of(addr)] == text);
    }
    if readable(list).contains(text) {
        let i = readable(list).index_of(text);
        let addr = kept[i];
        assert(kept.contains(addr));
        list.lemma_filter_contains_rev(keep, addr);
        assert(keep(kept[i]));
        assert(list.contains(addr) && valid_utf8(addr) && decode_utf8(addr) == text);
    }
}

/// A list without repetitions whose elements are in another list is not longer.
proof fn lemma_no_longer(list: Seq<Seq<u8>>, other: Seq<Seq<u8>>)
    requires
        list.no_duplicates(),
        forall|addr: Seq<u8>| #[trigger] list.contains(addr) ==> other.contains(addr),
    ensures
        list.len() <= other.len(),
{
    list.unique_seq_to_set();
    other.lemma_cardinality_of_set();
    assert(list.to_set().subset_of(other.to_set())) by {
        assert forall|addr: Seq<u8>| list.to_set().contains(addr) implies other.to_set().contains(
            addr,
        ) by {
            assert(list.contains(addr));
        }
    }
    vstd::set_lib::lemma_len_subset(list.to_set(), other.to_set());
}

/// If no address is listed twice, a report that all connections are live is right unless
/// a peer that is not wanted takes the place of one that is: with a wanted peer missing
/// and no unwanted one connected, the report says that not all are live, and it names
/// that peer if its address is readable text.
pub proof fn law_missing_peers_are_reported(
    report: Report,
    wanted: Seq<Seq<u8>>,
    peers: Seq<Seq<u8>>,
    addr: Seq<u8>,
)
    requires
        report.tells(wanted, peers),
        wanted.no_duplicates(),
        peers.no_duplicates(),
        wanted.contains(addr),
        !peers.contains(addr),
        forall|peer: Seq<u8>| #[trigger] peers.contains(peer) ==> wanted.contains(peer),
    ensures
        report is NotAllLive,
        valid_utf8(addr) ==> exists|i: int|
            0 <= i < report->missing@.len() && (#[trigger] report->missing@[i])@ == decode_utf8(
                addr,
            ),
{
    let more = peers.push(addr);
    assert(more.no_duplicates()) by {
        assert forall|i: int, j: int|
            0 <= i < more.len() && 0 <= j < more.len() && i != j implies more[i] != more[j] by {
            if i < peers.len() {
                assert(peers.contains(peers[i]));
            }
            if j < peers.len() {
                assert(peers.contains(peers[j]));
            }
        }
    }
    assert forall|peer: Seq<u8>| #[trigger] more.contains(peer) implies wanted.contains(peer) by {
        let i = more.index_of(peer);
        if i < peers.len() {
            assert(peers.contains(peers[i]));
        }
    }
    lemma_no_longer(more, wanted);
    if valid_utf8(addr) {
        let missing = without(wanted, peers);
        lemma_without(wanted, peers, addr);
        lemma_readable(missing, decode_utf8(addr));
        assert(missing.contains(addr));
        let i = texts(report->missing@).index_of(decode_utf8(addr));
        assert(report->missing@[i]@ == decode_utf8(addr));
    }
}

/// The peers that a report names as missing are exactly those that are wanted and not
/// connected, and the ones that it names as connected are exactly those that are, as far
/// as their addresses are readable text.
pub proof fn law_reports_name_the_right_peers(
    report: Report,
    wanted: Seq<Seq<u8>>,
    peers: Seq<Seq<u8>>,
    text: Seq<char>,
)
    requires
        report.tells(wanted, peers),
    ensures
        (match report {
            Report::AllLive { current } => texts(current@),
            Report::NotAllLive { current, .. } => texts(current@),
        }).contains(text) <==> exists|addr: Seq<u8>| #[trigger]
            peers.contains(addr) && valid_utf8(addr) && decode_utf8(addr) == text,
        report matches Report::NotAllLive { missing, .. } ==> (texts(missing@).contains(text)
            <==> exists|addr: Seq<u8>| #[trigger]
            wanted.contains(addr) && !peers.contains(addr) && valid_utf8(addr) && decode_utf8(addr)
                == text),
{
    lemma_readable(peers, text);
    lemma_readable(without(wanted, peers), text);
    assert forall|addr: Seq<u8>| #[trigger] without(wanted, peers).contains(addr) <==>
        wanted.contains(addr) && !peers.contains(addr) by {
        lemma_without(wanted, peers, addr);
    }
    if exists|addr: Seq<u8>| #[trigger]
        wanted.contains(addr) && !peers.contains(addr) && valid_utf8(addr) && decode_utf8(addr)
            == text {
        let addr = choose|addr: Seq<u8>| #[trigger]
            wanted.contains(addr) && !peers.contains(addr) && valid_utf8(addr) && decode_utf8(addr)
                == text;
        assert(without(wanted, peers).contains(addr));
    }
}

/// The connection to an address that has been added is made by the next
/// housekeeping, and by every later one that finds it missing; none ends it.
pub proof fn law_added_address_gets_connected(
    list: Seq<Seq<u8>>,
    addr: Seq<u8>,
    peers: Seq<Seq<u8>>,
)
    ensures
        !peers.contains(addr) ==> plan(added(list, addr), peers).contains(
            PeerRequestView::Connect(addr),
        ),
        !plan(added(list, addr), peers).contains(PeerRequestView::Disconnect(addr)),
{
    law_added_address_is_listed(list, addr);
    assert(added(list, addr).contains(addr));
    law_plan_is_exact(added(list, addr), peers, addr);
}

/// The connection to an address that has been removed is ended by the next
/// housekeeping; none makes it.
pub proof fn law_removed_address_gets_disconnected(
    list: Seq<Seq<u8>>,
    addr: Seq<u8>,
    peers: Seq<Seq<u8>>,
)
    requires
        list.no_duplicates(),
    ensures
        peers.contains(addr) ==> plan(list.remove_value(addr), peers).contains(
            PeerRequestView::Disconnect(addr),
        ),
        !plan(list.remove_value(addr), peers).contains(PeerRequestView::Connect(addr)),
{
    law_removed_address_is_not_listed(list, addr);
    assert(!list.remove_value(addr).contains(addr));
    law_plan_is_exact(list.remove_value(addr), peers, addr);
}

/// The peers that the node is connected to after the requests have been carried out.
pub open spec fn carried_out(peers: Set<Seq<u8>>, requests: Seq<PeerRequestView>) -> Set<Seq<u8>>
    decreases requests.len(),
{
    if requests.len() == 0 {
        peers
    } else {
        let before = carried_out(peers, requests.drop_last());
        match requests.last() {
            PeerRequestView::Peers => before,
            PeerRequestView::Connect(addr) => before.insert(addr),
            PeerRequestView::Disconnect(addr) => before.remove(addr),
        }
    }
}

proof fn lemma_carried_out_twice(
    peers: Set<Seq<u8>>,
    first: Seq<PeerRequestView>,
    second: Seq<PeerRequestView>,
)
    ensures
        carried_out(peers, first + second) == carried_out(carried_out(peers, first), second),
    decreases second.len(),
{
    if second.len() == 0 {
        assert(first + second == first);
    } else {
        lemma_carried_out_twice(peers, first, second.drop_last());
        assert((first + second).drop_last() == first + second.drop_last());
    }
}

proof fn lemma_connected(peers: Set<Seq<u8>>, list: Seq<Seq<u8>>)
    ensures
        carried_out(peers, list.map_values(|addr: Seq<u8>| PeerRequestView::Connect(addr)))
            == peers.union(list.to_set()),
    decreases list.len(),
{
    let connect = |addr: Seq<u8>| PeerRequestView::Connect(addr);
    let requests = list.map_values(connect);
    if list.len() == 0 {
        assert(peers.union(list.to_set()) == peers);
    } else {
        lemma_connected(peers, list.drop_last());
        assert(requests.drop_last() == list.drop_last().map_values(connect));
        assert(list == list.drop_last().push(list.last()));
        assert(list.to_set() == list.drop_last().to_set().insert(list.last())) by {
            lemma_to_set_push(list.drop_last(), list.last());
        }
        assert(peers.union(list.to_set()) == peers.union(list.drop_last().to_set()).insert(
            list.last(),
        ));
    }
}

proof fn lemma_disconnected(peers: Set<Seq<u8>>, list: Seq<Seq<u8>>)
    ensures
        carried_out(peers, list.map_values(|addr: Seq<u8>| PeerRequestView::Disconnect(addr)))
            == peers.difference(list.to_set()),
    decreases list.len(),
{
    let disconnect = |addr: Seq<u8>| PeerRequestView::Disconnect(addr);
    let requests = list.map_values(disconnect);
    if list.len() == 0 {
        assert(peers.difference(list.to_set()) == peers);
    } else {
        lemma_disconnected(peers, list.drop_last());
        assert(requests.drop_last() == list.drop_last().map_values(disconnect));
        assert(list == list.drop_last().push(list.last()));
        assert(list.to_set() == list.drop_last().to_set().insert(list.last())) by {
            lemma_to_set_push(list.drop_last(), list.last());
        }
        assert(peers.difference(list.to_set()) == peers.difference(
            list.drop_last().to_set(),
        ).remove(list.last()));
    }
}

proof fn lemma_to_set_push(list: Seq<Seq<u8>>, last: Seq<u8>)
    ensures
        list.push(last).to_set() == list.to_set().insert(last),
{
    let longer = list.push(last);
    assert(longer[list.len() as int] == last);
    assert forall|addr: Seq<u8>| list.contains(addr) implies longer.contains(addr) by {
        assert(longer[list.index_of(addr)] == addr);
    }
    assert(longer.to_set() =~= list.to_set().insert(last));
}

/// If everything that housekeeping asks for is carried out, the node is connected to
/// exactly the peers that are wanted.
pub proof fn law_housekeeping_reaches_what_is_wanted(wanted: Seq<Seq<u8>>, peers: Seq<Seq<u8>>)
    ensures
        carried_out(peers.to_set(), plan(wanted, peers)) == wanted.to_set(),
{
    let missing = without(wanted, peers);
    let unwanted = without(peers, wanted);
    lemma_carried_out_twice(
        peers.to_set(),
        missing.map_values(|addr: Seq<u8>| PeerRequestView::Connect(addr)),
        unwanted.map_values(|addr: Seq<u8>| PeerRequestView::Disconnect(addr)),
    );
    lemma_connected(peers.to_set(), missing);
    lemma_disconnected(peers.to_set().union(missing.to_set()), unwanted);
    assert forall|addr: Seq<u8>| #[trigger]
        wanted.to_set().contains(addr) <==> peers.to_set().union(missing.to_set()).difference(
            unwanted.to_set(),
        ).contains(addr) by {
        lemma_without(wanted, peers, addr);
        lemma_without(peers, wanted, addr);
    }
    assert(peers.to_set().union(missing.to_set()).difference(unwanted.to_set())
        =~= wanted.to_set());
}

/// Housekeeping asks for nothing exactly if the node is connected to the peers that
/// are wanted and to no others.
pub proof fn law_housekeeping_rests_when_done(wanted: Seq<Seq<u8>>, peers: Seq<Seq<u8>>)
    ensures
        plan(wanted, peers).len() == 0 <==> wanted.to_set() == peers.to_set(),
{
    if wanted.to_set() == peers.to_set() {
        if plan(wanted, peers).len() > 0 {
            let first = plan(wanted, peers)[0];
            assert(plan(wanted, peers).contains(first));
            match first {
                PeerRequestView::Peers => {
                    law_plan_is_exact(wanted, peers, Seq::empty());
                },
                PeerRequestView::Connect(addr) => {
                    law_plan_is_exact(wanted, peers, addr);
                    assert(wanted.to_set().contains(addr) == peers.to_set().contains(addr));
                },
                PeerRequestView::Disconnect(addr) => {
                    law_plan_is_exact(wanted, peers, addr);
                    assert(wanted.to_set().contains(addr) == peers.to_set().contains(addr));
                },
            }
        }
    }
    if plan(wanted, peers).len() == 0 {
        assert forall|addr: Seq<u8>| wanted.to_set().contains(addr) <==> peers.to_set().contains(
            addr,
        ) by {
            law_plan_is_exact(wanted, peers, addr);
        }
        assert(wanted.to_set() =~= peers.to_set());
    }
}

} // verus!

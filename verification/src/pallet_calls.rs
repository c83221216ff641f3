//! What a call of each operation of the pallet does, and of each operation on points in
//! time, told by what goes into the call and what comes out of it, in the way of
//! [`calls`](crate::calls).
use crate::offchain::{Duration, IpfsError, OpaqueMultiaddr, Timestamp};
use crate::pallet::{
    addrs, asked, ensure_signed, plan, readable, texts, without, BadOrigin, Error, Event,
    Housekeeping, Module, Origin, PeerRequest, PeerRequestView, PeerResponse, Report, RequestError,
};
use crate::runtime::PendingRequest;
use vstd::prelude::*;
use vstd::utf8::{decode_utf8, valid_utf8};

verus! {

/// A duration has the milliseconds that it is made of.
pub proof fn law_duration(millis: u64, duration: Duration)
    requires
        call_ensures(Duration::from_millis, (millis,), duration),
    ensures
        duration.0 == millis,
{
}

/// A point in time is moved on by as many milliseconds as the duration has, but not past
/// the latest one that there is.
pub proof fn law_timestamp_add(now: &Timestamp, duration: Duration, sum: Timestamp)
    requires
        call_ensures(Timestamp::add, (now, duration), sum),
    ensures
        sum.0 - now.0 == duration.0 || (sum.0 == 0xffff_ffff_ffff_ffff && sum.0 - now.0
            < duration.0),
{
}

/// A copy of an address has the bytes of the address.
pub proof fn law_copied_address(addr: &OpaqueMultiaddr, copy: OpaqueMultiaddr)
    requires
        call_ensures(OpaqueMultiaddr::clone, (addr,), copy),
    ensures
        copy.0@ == addr.0@,
{
}

/// The account that has signed is handed out; nobody else passes.
pub proof fn law_ensure_signed<AccountId>(
    origin: Origin<AccountId>,
    who: Result<AccountId, BadOrigin>,
)
    requires
        call_ensures(ensure_signed::<AccountId>, (origin,), who),
    ensures
        who is Ok <==> origin is Signed,
        origin is Signed ==> who->Ok_0 == origin->Signed_0,
{
}

/// A pallet keeps the addresses that it is given, in their order, and has nothing to
/// publish yet.
pub proof fn law_new_module<AccountId>(stored: Vec<OpaqueMultiaddr>, module: Module<AccountId>)
    requires
        call_ensures(Module::<AccountId>::new, (stored,), module),
    ensures
        module@.desired.len() == stored@.len(),
        forall|n: int| 0 <= n < stored@.len() ==> #[trigger] module@.desired[n] == stored@[n].0@,
        module@.events.len() == 0,
{
}

/// The addresses are listed in their order.
pub proof fn law_desired<AccountId>(module: &Module<AccountId>, list: &Vec<OpaqueMultiaddr>)
    requires
        call_ensures(Module::<AccountId>::desired, (module,), list),
    ensures
        list@.len() == module@.desired.len(),
        forall|n: int| 0 <= n < list@.len() ==> #[trigger] module@.desired[n] == list@[n].0@,
{
}

/// An account that has signed can add an address, and nobody else can. The address is put
/// at the end of the list unless it is there already, nothing else changes in the list,
/// and an event that names the account is published after those before it.
pub proof fn law_add_address<AccountId>(
    module: &mut Module<AccountId>,
    origin: Origin<AccountId>,
    addr: Vec<u8>,
    done: Result<(), BadOrigin>,
)
    requires
        call_ensures(Module::<AccountId>::add_address, (module, origin, addr), done),
    ensures
        done is Ok <==> origin is Signed,
        done is Err ==> final(module)@ == old(module)@,
        origin matches Origin::Signed(who) ==> {
            &&& final(module)@.events.len() == old(module)@.events.len() + 1
            &&& final(module)@.events.last() == Event::AddressAdded(who)
            &&& final(module)@.events.drop_last() == old(module)@.events
            &&& (exists|n: int|
                0 <= n < old(module)@.desired.len() && #[trigger] old(module)@.desired[n]
                    == addr@) ==> final(module)@.desired == old(module)@.desired
            &&& (forall|n: int|
                0 <= n < old(module)@.desired.len() ==> #[trigger] old(module)@.desired[n]
                    != addr@) ==> {
                &&& final(module)@.desired.len() == old(module)@.desired.len() + 1
                &&& final(module)@.desired.last() == addr@
                &&& final(module)@.desired.drop_last() == old(module)@.desired
            }
        },
{
    let s = old(module)@;
    let t = final(module)@;
    if let Origin::Signed(who) = origin {
        assert(t.events.drop_last() =~= s.events);
        if exists|n: int| 0 <= n < s.desired.len() && #[trigger] s.desired[n] == addr@ {
            assert(s.desired.contains(addr@));
        } else {
            assert(!s.desired.contains(addr@));
            assert(t.desired.drop_last() =~= s.desired);
        }
    }
}

/// An account that has signed can remove an address, and nobody else can. The address is
/// taken out where it occurs first, nothing else changes in the list, and an event that
/// names the account is published after those before it.
pub proof fn law_remove_address<AccountId>(
    module: &mut Module<AccountId>,
    origin: Origin<AccountId>,
    addr: Vec<u8>,
    done: Result<(), BadOrigin>,
)
    requires
        call_ensures(Module::<AccountId>::remove_address, (module, origin, addr), done),
    ensures
        done is Ok <==> origin is Signed,
        done is Err ==> final(module)@ == old(module)@,
        origin matches Origin::Signed(who) ==> {
            &&& final(module)@.events.len() == old(module)@.events.len() + 1
            &&& final(module)@.events.last() == Event::AddressRemoved(who)
            &&& final(module)@.events.drop_last() == old(module)@.events
            &&& (forall|n: int|
                0 <= n < old(module)@.desired.len() ==> #[trigger] old(module)@.desired[n]
                    != addr@) ==> final(module)@.desired == old(module)@.desired
            &&& forall|n: int|
                0 <= n < old(module)@.desired.len() && #[trigger] old(module)@.desired[n] == addr@
                    && (forall|m: int|
                    0 <= m < n ==> #[trigger] old(module)@.desired[m] != addr@) ==> {
                    &&& final(module)@.desired.len() == old(module)@.desired.len() - 1
                    &&& final(module)@.desired.take(n) == old(module)@.desired.take(n)
                    &&& final(module)@.desired.skip(n) == old(module)@.desired.skip(n + 1)
                }
        },
{
    let s = old(module)@;
    let t = final(module)@;
    if let Origin::Signed(who) = origin {
        assert(t.events.drop_last() =~= s.events);
        s.desired.index_of_first_ensures(addr@);
        if forall|n: int| 0 <= n < s.desired.len() ==> #[trigger] s.desired[n] != addr@ {
            assert(!s.desired.contains(addr@));
            assert(t.desired == s.desired);
        }
        assert forall|n: int|
            0 <= n < s.desired.len() && #[trigger] s.desired[n] == addr@ && (forall|m: int|
                0 <= m < n ==> #[trigger] s.desired[m] != addr@) implies {
            &&& t.desired.len() == s.desired.len() - 1
            &&& t.desired.take(n) == s.desired.take(n)
            &&& t.desired.skip(n) == s.desired.skip(n + 1)
        } by {
            assert(s.desired.contains(addr@));
            let first = s.desired.index_of_first(addr@)->0;
            assert(s.desired[first] == addr@);
            assert(first == n);
            assert(t.desired == s.desired.remove(n));
            assert(t.desired.take(n) =~= s.desired.take(n));
            assert(t.desired.skip(n) =~= s.desired.skip(n + 1));
        }
    }
}

/// Events come out once, all of them and oldest first, and the list stays as it is.
pub proof fn law_take_events<AccountId>(
    first: &mut Module<AccountId>,
    events: Vec<Event<AccountId>>,
    second: &mut Module<AccountId>,
    none: Vec<Event<AccountId>>,
)
    requires
        call_ensures(Module::<AccountId>::take_events, (first,), events),
        old(second)@ == final(first)@,
        call_ensures(Module::<AccountId>::take_events, (second,), none),
    ensures
        events@ == old(first)@.events,
        none@.len() == 0,
        final(first)@.desired == old(first)@.desired,
{
}

/// Housekeeping is done at exactly one of two blocks that follow each other, and it is
/// done at the blocks with an odd number.
pub proof fn law_every_other_block<AccountId>(block: u64, run: bool, next_run: bool)
    requires
        block < 0xffff_ffff_ffff_ffff,
        call_ensures(Module::<AccountId>::offchain_worker, (block,), run),
        call_ensures(Module::<AccountId>::offchain_worker, ((block + 1) as u64,), next_run),
    ensures
        run <==> !next_run,
        run <==> exists|half: u64| block == #[trigger] (half * 2) + 1,
{
    if run {
        let half = (block / 2) as u64;
        assert(block == half * 2 + 1);
    }
}

/// A request has to be answered within a second of now, or by the latest point in time
/// that there is. Housekeeping begins by asking for the peers.
pub proof fn law_deadlines<AccountId>(
    now: Timestamp,
    deadline: Timestamp,
    first: (PeerRequest, Timestamp),
)
    requires
        call_ensures(Module::<AccountId>::request_deadline, (now,), deadline),
        call_ensures(Module::<AccountId>::housekeeping_start, (now,), first),
    ensures
        deadline.0 - now.0 == 1000 || (deadline.0 == 0xffff_ffff_ffff_ffff && deadline.0 - now.0
            < 1000),
        first.0 is Peers,
        first.1 == deadline,
{
}

/// The text about a refusal names its cause, in the engine's words if there are any. It
/// is missing exactly if those words are not readable text.
pub proof fn law_text_of_a_refusal(error: &RequestError, text: Option<String>)
    requires
        call_ensures(RequestError::text, (error,), text),
    ensures
        error is DeadlineReached ==> text is Some && text->0@ == "DeadlineReached"@,
        error is Unknown ==> text is Some && text->0@ == "Unknown"@,
        *error matches RequestError::IoError(words) ==> {
            &&& text is Some <==> valid_utf8(words@)
            &&& text is Some ==> text->0@ == decode_utf8(words@)
        },
{
}

/// The answer to a request is what the engine responds. Otherwise it is an error, which
/// tells whether the request could not be started, was late or was refused; and exactly a
/// refusal is logged, in one line after those before it, with the text about it.
pub proof fn law_ipfs_request<AccountId>(
    outcome: Result<Result<Result<PeerResponse, RequestError>, PendingRequest>, IpfsError>,
    log: &mut Vec<String>,
    answer: Result<PeerResponse, Error>,
    error: &RequestError,
    text: Option<String>,
)
    requires
        call_ensures(Module::<AccountId>::ipfs_request, (outcome, log), answer),
        call_ensures(RequestError::text, (error,), text),
        outcome matches Ok(Ok(Err(refusal))) ==> refusal == *error && text is Some,
    ensures
        answer is Ok <==> outcome is Ok && outcome->Ok_0 is Ok && outcome->Ok_0->Ok_0 is Ok,
        answer is Ok ==> answer->Ok_0 == outcome->Ok_0->Ok_0->Ok_0,
        outcome is Err ==> answer is Err && answer->Err_0 is CantCreateRequest,
        outcome is Ok && outcome->Ok_0 is Err ==> answer is Err && answer->Err_0 is RequestTimeout,
        outcome is Ok && outcome->Ok_0 is Ok && outcome->Ok_0->Ok_0 is Err ==> {
            &&& answer is Err
            &&& answer->Err_0 is RequestFailed
            &&& final(log)@.len() == old(log)@.len() + 1
            &&& final(log)@.last()@ == "IPFS request failed: "@ + text->0@
        },
        !(answer is Err && answer->Err_0 is RequestFailed) ==> final(log)@.len() == old(log)@.len(),
        forall|n: int|
            0 <= n < old(log)@.len() ==> (#[trigger] final(log)@[n])@ == old(log)@[n]@,
{
    let before = texts(old(log)@);
    let after = texts(final(log)@);
    assert(before.len() == old(log)@.len());
    assert(after.len() == final(log)@.len());
    assert forall|n: int| 0 <= n < old(log)@.len() implies (#[trigger] final(log)@[n])@
        == old(log)@[n]@ by {
        assert(after[n] == before[n]);
    }
    if let Ok(Ok(Err(refusal))) = outcome {
        assert(after.last() == refusal.line());
        assert(after[after.len() - 1] == final(log)@[final(log)@.len() - 1]@);
    }
}

/// If the peers are not known, housekeeping fails for the same reason.
pub proof fn law_housekeeping_needs_the_peers<AccountId>(
    module: &Module<AccountId>,
    error: Error,
    result: Result<Housekeeping, Error>,
)
    requires
        call_ensures(
            Module::<AccountId>::connection_housekeeping,
            (module, Err::<PeerResponse, Error>(error)),
            result,
        ),
    ensures
        result is Err,
        result->Err_0 == error,
{
}

/// Housekeeping first asks for a connection to each wanted address that is not connected,
/// in the order of the wanted ones, and then for the end of the connection to each peer
/// that is not wanted, in the order of the peers. It asks for nothing else.
pub proof fn law_housekeeping_asks_in_order<AccountId>(
    module: &Module<AccountId>,
    list: Vec<OpaqueMultiaddr>,
    peers: Seq<Seq<u8>>,
    result: Result<Housekeeping, Error>,
)
    requires
        call_ensures(
            Module::<AccountId>::connection_housekeeping,
            (module, Ok::<PeerResponse, Error>(PeerResponse::Peers(list))),
            result,
        ),
        peers.len() == list@.len(),
        forall|n: int| 0 <= n < list@.len() ==> #[trigger] peers[n] == list@[n].0@,
    ensures
        result is Ok,
        ({
            let wanted = module@.desired;
            let missing = wanted.filter(|addr: Seq<u8>| !peers.contains(addr));
            let unwanted = peers.filter(|addr: Seq<u8>| !wanted.contains(addr));
            let requests = result->Ok_0.requests@;
            &&& requests.len() == missing.len() + unwanted.len()
            &&& forall|n: int|
                0 <= n < missing.len() ==> (#[trigger] requests[n]) is Connect
                    && requests[n]->Connect_0.0@ == missing[n]
            &&& forall|n: int|
                missing.len() <= n < requests.len() ==> (#[trigger] requests[n]) is Disconnect
                    && requests[n]->Disconnect_0.0@ == unwanted[n - missing.len()]
        }),
{
    let wanted = module@.desired;
    assert(addrs(list@) =~= peers);
    let missing = without(wanted, peers);
    let unwanted = without(peers, wanted);
    let requests = result->Ok_0.requests@;
    let all = asked(requests);
    assert(all == plan(wanted, peers));
    assert(all.len() == requests.len());
    assert forall|n: int| 0 <= n < missing.len() implies (#[trigger] requests[n]) is Connect
        && requests[n]->Connect_0.0@ == missing[n] by {
        assert(all[n] == PeerRequestView::Connect(missing[n]));
        assert(all[n] == requests[n]@);
    }
    assert forall|n: int| missing.len() <= n < requests.len() implies (#[trigger] requests[n])
        is Disconnect && requests[n]->Disconnect_0.0@ == unwanted[n - missing.len()] by {
        assert(all[n] == PeerRequestView::Disconnect(unwanted[n - missing.len()]));
        assert(all[n] == requests[n]@);
    }
}

/// Housekeeping reports that all connections are live exactly if there are as many peers
/// as wanted addresses. It names the peers in their order, and, if not all are live, the
/// wanted addresses that are not connected, in their order; both as far as they are
/// readable text.
pub proof fn law_housekeeping_reports<AccountId>(
    module: &Module<AccountId>,
    list: Vec<OpaqueMultiaddr>,
    peers: Seq<Seq<u8>>,
    result: Result<Housekeeping, Error>,
)
    requires
        call_ensures(
            Module::<AccountId>::connection_housekeeping,
            (module, Ok::<PeerResponse, Error>(PeerResponse::Peers(list))),
            result,
        ),
        peers.len() == list@.len(),
        forall|n: int| 0 <= n < list@.len() ==> #[trigger] peers[n] == list@[n].0@,
    ensures
        result is Ok,
        result->Ok_0.report is AllLive <==> module@.desired.len() == peers.len(),
        ({
            let current = match result->Ok_0.report {
                Report::AllLive { current } => current@,
                Report::NotAllLive { current, .. } => current@,
            };
            let named = peers.filter(|addr: Seq<u8>| valid_utf8(addr));
            &&& current.len() == named.len()
            &&& forall|n: int|
                0 <= n < named.len() ==> (#[trigger] current[n])@ == decode_utf8(named[n])
        }),
        result->Ok_0.report matches Report::NotAllLive { missing, .. } ==> {
            let named = module@.desired.filter(|addr: Seq<u8>| !peers.contains(addr)).filter(
                |addr: Seq<u8>| valid_utf8(addr),
            );
            &&& missing@.len() == named.len()
            &&& forall|n: int|
                0 <= n < named.len() ==> (#[trigger] missing@[n])@ == decode_utf8(named[n])
        },
{
    let wanted = module@.desired;
    assert(addrs(list@) =~= peers);
    let report = result->Ok_0.report;
    assert(report.tells(wanted, peers));
    let current = match report {
        Report::AllLive { current } => current@,
        Report::NotAllLive { current, .. } => current@,
    };
    lemma_named(current, peers);
    if let Report::NotAllLive { missing, .. } = report {
        lemma_named(missing@, without(wanted, peers));
    }
}

/// Lines that tell of a list name, one after the other, what is readable in it.
proof fn lemma_named(lines: Seq<String>, list: Seq<Seq<u8>>)
    requires
        texts(lines) == readable(list),
    ensures
        ({
            let named = list.filter(|addr: Seq<u8>| valid_utf8(addr));
            &&& lines.len() == named.len()
            &&& forall|n: int|
                0 <= n < named.len() ==> (#[trigger] lines[n])@ == decode_utf8(named[n])
        }),
{
    let named = list.filter(|addr: Seq<u8>| valid_utf8(addr));
    assert(texts(lines).len() == lines.len());
    assert(readable(list).len() == named.len());
    assert forall|n: int| 0 <= n < named.len() implies (#[trigger] lines[n])@ == decode_utf8(
        named[n],
    ) by {
        assert(texts(lines)[n] == readable(list)[n]);
    }
}

} // verus!

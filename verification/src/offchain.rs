//! Values that offchain workers, the runtime and the client have in common.
use vstd::prelude::*;

verus! {

/// Identifies a request that has been started.
#[derive(Clone, Copy, PartialEq, Eq, Structural, Debug)]
pub struct IpfsRequestId(pub u16);

/// What can be asked of the IPFS engine.
#[derive(Clone, Copy, PartialEq, Eq, Structural, Debug)]
pub enum IpfsRequest {
    /// The public key and the addresses of the node.
    Identity,
    /// The blocks that the node holds.
    LocalRefs,
}

/// How far a request has come.
#[derive(Clone, Copy, PartialEq, Eq, Structural, Debug)]
pub enum IpfsRequestStatus {
    /// No answer came before the deadline.
    DeadlineReached,
    /// The request failed.
    IoError,
    /// No such request is known.
    Invalid,
    /// The request has been answered.
    Finished,
}

/// Why an operation on a request failed.
#[derive(Clone, Copy, PartialEq, Eq, Structural, Debug)]
pub enum IpfsError {
    /// The operation did not complete before the deadline.
    DeadlineReached,
    /// The request could not be processed.
    IoError,
    /// The request is not valid in this context.
    Invalid,
}

/// A point in time, in milliseconds since the Unix epoch.
#[derive(Clone, Copy, PartialEq, Eq, Structural, Debug)]
pub struct Timestamp(pub u64);

/// A length of time in milliseconds.
#[derive(Clone, Copy, PartialEq, Eq, Structural, Debug)]
pub struct Duration(pub u64);

/// `now + millis`, but no more than the latest representable point in time.
pub open spec fn later(now: u64, millis: u64) -> u64 {
    if now + millis > u64::MAX {
        u64::MAX
    } else {
        (now + millis) as u64
    }
}

/// Calls `sp_core::offchain::Timestamp::add` on the timestamp of `now`
/// milliseconds and the duration of `millis` milliseconds.
///
/// Believed without proof: the sum saturates at `u64::MAX`, and the conversions
/// `from_unix_millis`, `from_millis` and `unix_millis` keep the number.
#[verifier::external_body]
fn timestamp_add(now: u64, millis: u64) -> (sum: u64)
    ensures
        sum == later(now, millis),
{
    let duration = sp_core::offchain::Duration::from_millis(millis);
    sp_core::offchain::Timestamp::from_unix_millis(now).add(duration).unix_millis()
}

impl Duration {
    /// The duration of `millis` milliseconds.
    pub fn from_millis(millis: u64) -> (duration: Duration)
        ensures
            duration == Duration(millis),
    {
        Duration(millis)
    }
}

impl Timestamp {
    /// The point in time `duration` later.
    pub fn add(&self, duration: Duration) -> (sum: Timestamp)
        ensures
            sum == Timestamp(later(self.0, duration.0)),
    {
        Timestamp(timestamp_add(self.0, duration.0))
    }
}

/// A network address in its encoded form.
#[derive(PartialEq, Eq, Debug)]
pub struct OpaqueMultiaddr(pub Vec<u8>);

impl View for OpaqueMultiaddr {
    type V = Seq<u8>;

    open spec fn view(&self) -> Seq<u8> {
        self.0@
    }
}

impl Clone for OpaqueMultiaddr {
    fn clone(&self) -> (copy: OpaqueMultiaddr)
        ensures
            copy@ == self@,
    {
        let copy = OpaqueMultiaddr(self.0.clone());
        assert(copy@ == self@);
        copy
    }
}

} // verus!

//! IPFS requests for offchain workers.
//!
//! An offchain worker asks its node's IPFS engine for something, goes on with
//! other work, and comes back for the answer. Three parts take part in that:
//!
//! - [`api::IpfsApi`] hands out request identifiers and knows how far each
//!   request has come; [`worker::IpfsWorker`] runs the requests in the
//!   background. The two exchange messages over a pair of channels; [`link`],
//!   [`trip`] and [`answers`] say what holds of them together.
//! - [`runtime`] holds the handles that runtime code keeps on its requests.
//! - [`pallet`] keeps a list of peers that the node should stay connected to,
//!   and works out what has to be asked of the engine to get there.
//!
//! [`calls`] and [`pallet_calls`] say what a call of each operation does.
//!
//! None of it performs input or output. A function that would have to wait for
//! the outside world takes what happened as an argument and leaves what has to
//! be sent in an outbox.
pub mod answers;
pub mod api;
pub mod calls;
pub mod link;
pub mod offchain;
pub mod pallet;
pub mod pallet_calls;
mod requests;
pub mod runtime;
pub mod trip;
pub mod worker;

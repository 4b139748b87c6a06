//! Which calls the pool takes from outside.

use vstd::prelude::*;

verus! {

/// Longest argument that a member may send, in bytes.
pub const MAX_ARGUMENT_BYTES: usize = 1_000;

/// The methods of the pool, as far as admission tells them apart.
#[derive(Clone, Copy, Debug, PartialEq, Eq, Structural)]
pub enum Method {
    JoinPool,
    PayMemberRewards,
    SetMemberBlockCycles,
    SpawnMiner,
    Start,
    Stop,
    /// Any other method: the queries, and names the pool does not know.
    Other,
}

/// What becomes of a call from outside.
#[derive(Clone, Copy, Debug, PartialEq, Eq, Structural)]
pub enum Admission {
    /// The call is taken.
    Accepted,
    /// The argument of a member's call is longer than the pool reads.
    ArgumentTooLong { length: usize },
    /// The method is for the controllers of the pool.
    ControllersOnly,
    /// The method is not called from outside.
    NotViaIngress,
}

impl Method {
    /// The method is one that members call.
    pub open spec fn is_for_members(self) -> bool {
        self == Method::JoinPool || self == Method::PayMemberRewards || self
            == Method::SetMemberBlockCycles
    }

    /// The method is one that controllers call.
    pub open spec fn is_for_controllers(self) -> bool {
        self == Method::SpawnMiner || self == Method::Start || self == Method::Stop
    }
}

/// What becomes of a call: a member's call is taken when its argument is
/// short enough, a controller's call when a controller makes it, and no
/// other call is taken.
pub open spec fn admission(method: Method, argument_bytes: usize, by_controller: bool) -> Admission {
    if method.is_for_members() {
        if argument_bytes > MAX_ARGUMENT_BYTES {
            Admission::ArgumentTooLong { length: argument_bytes }
        } else {
            Admission::Accepted
        }
    } else if method.is_for_controllers() {
        if by_controller {
            Admission::Accepted
        } else {
            Admission::ControllersOnly
        }
    } else {
        Admission::NotViaIngress
    }
}

/// Decides whether a call from outside is taken.
pub fn inspect_message(method: Method, argument_bytes: usize, by_controller: bool) -> (r: Admission)
    ensures
        r == admission(method, argument_bytes, by_controller),
{
    match method {
        Method::JoinPool | Method::PayMemberRewards | Method::SetMemberBlockCycles => {
            if argument_bytes > MAX_ARGUMENT_BYTES {
                Admission::ArgumentTooLong { length: argument_bytes }
            } else {
                Admission::Accepted
            }
        },
        Method::SpawnMiner | Method::Start | Method::Stop => {
            if by_controller {
                Admission::Accepted
            } else {
                Admission::ControllersOnly
            }
        },
        Method::Other => Admission::NotViaIngress,
    }
}

} // verus!

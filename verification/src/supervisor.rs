//! Fan-out supervision: a discovery result (an ordered list of endpoint
//! addresses, or a failure) becomes one independent connection session per
//! address. Discovery failure is the only process-fatal error; an empty
//! discovery result is a clean early exit with no sessions started.

use vstd::prelude::*;
use crate::session::Session;

verus! {

/// Failure of the endpoint-discovery call, with its reported message.
#[derive(Debug)]
pub struct DiscoveryFailure {
    pub message: String,
}

/// What the supervisor does with a discovery result.
#[derive(Debug)]
pub enum LaunchPlan {
    /// Discovery itself failed: the process fails as a whole, with no
    /// sessions ever started.
    Fail(DiscoveryFailure),
    /// Discovery returned no addresses: exit cleanly, with no sessions
    /// ever started.
    Idle,
    /// One session per discovered address, in discovery order, each
    /// independent and ready to connect.
    Spawn(Vec<Session>),
}

/// Turns the discovery result into the fan-out plan: a failure is
/// propagated, an empty list spawns zero sessions and exits without error,
/// and a non-empty list yields exactly one fresh session per address, in
/// order.
pub fn plan_sessions(discovery: Result<Vec<String>, DiscoveryFailure>) -> (r: LaunchPlan)
    ensures
        (discovery matches Err(e) ==> (r matches LaunchPlan::Fail(f) && f.message@ == e.message@)),
        (discovery matches Ok(addrs) ==> ((addrs@.len() == 0) <==> r is Idle)),
        (discovery matches Ok(addrs) ==> (addrs@.len() > 0 ==> (r matches LaunchPlan::Spawn(ss)
            && ss@.len() == addrs@.len() && forall|j: int|
            0 <= j < ss@.len() ==> ((#[trigger] ss@[j]).wf() && ss@[j].state is Connecting
                && ss@[j].termination is None && ss@[j].address@ == addrs@[j]@)))),
{
    match discovery {
        Err(e) => LaunchPlan::Fail(e),
        Ok(addrs) => {
            if addrs.len() == 0 {
                LaunchPlan::Idle
            } else {
                let mut sessions: Vec<Session> = Vec::new();
                let mut i: usize = 0;
                while i < addrs.len()
                    invariant
                        i <= addrs.len(),
                        sessions@.len() == i,
                        forall|j: int|
                            0 <= j < i ==> ((#[trigger] sessions@[j]).wf()
                                && sessions@[j].state is Connecting
                                && sessions@[j].termination is None && sessions@[j].address@
                                == addrs@[j]@),
                    decreases addrs.len() - i,
                {
                    let address = addrs[i].clone();
                    sessions.push(Session::new(address));
                    i += 1;
                }
                LaunchPlan::Spawn(sessions)
            }
        },
    }
}

} // verus!

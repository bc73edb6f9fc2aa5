pub mod environment;
pub mod execute;
pub mod fork;
pub mod numeric;
pub mod proxy;
pub mod request;
pub mod store;

use vstd::prelude::*;

verus! {

/// Service configuration: the remote node endpoint that every batch forks from.
pub struct Opt {
    pub fork_url: String,
}

/// State shared by every request the service handles.
pub struct Service {
    pub opt: Opt,
}

/// Assembles the service state from the parsed configuration.
pub fn rocket(opt: Opt) -> (s: Service)
    ensures
        s.opt.fork_url@ == opt.fork_url@,
{
    Service { opt }
}

} // verus!

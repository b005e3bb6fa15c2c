//! The windows scheduler backend.
use vstd::prelude::*;

use crate::error::Error;
use crate::scheduler::ScheduledTask;
use vstd::string::StringExecFns;

verus! {

/// The message of the error the Task Scheduler backend answers with.
pub open spec fn unavailable_text() -> Seq<char> {
    "the Windows Task Scheduler is not available in this build"@
}

fn unavailable() -> (e: Error)
    ensures
        e matches Error::Scheduler(m) && m@ == unavailable_text(),
{
    Error::Scheduler(String::from_str("the Windows Task Scheduler is not available in this build"))
}

/// Install a Windows scheduled task via the Task Scheduler service. This
/// build has no access to that service: the call fails and nothing is
/// installed.
pub fn install(_task: &ScheduledTask) -> (r: Result<(), Error>)
    ensures
        r matches Err(Error::Scheduler(m)) && m@ == unavailable_text(),
{
    Err(unavailable())
}

/// Remove a managed task. This build has no access to the Task Scheduler:
/// the call fails and nothing is removed.
pub fn remove(_name: &str) -> (r: Result<(), Error>)
    ensures
        r matches Err(Error::Scheduler(m)) && m@ == unavailable_text(),
{
    Err(unavailable())
}

/// The managed tasks. This build has no access to the Task Scheduler: the
/// call fails.
pub fn list() -> (r: Result<Vec<ScheduledTask>, Error>)
    ensures
        r matches Err(Error::Scheduler(m)) && m@ == unavailable_text(),
{
    Err(unavailable())
}

} // verus!

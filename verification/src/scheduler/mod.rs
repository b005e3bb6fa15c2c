//! Installation of recurring filecanopy tasks in the host OS scheduler: cron
//! on Linux and macOS, Task Scheduler on Windows.
pub mod linux;
pub mod windows;

use vstd::prelude::*;

use crate::error::Error;

verus! {

/// A recurring task.
#[derive(Debug, Clone)]
pub struct ScheduledTask {
    pub name: String,
    pub cron: String,
    pub command: String,
}

/// Install `task` into the crontab text `crontab` (cron on Linux and
/// macOS): the new crontab text, or a scheduler error when the task cannot
/// be written as one managed line. The caller reads and writes the crontab.
pub fn install(crontab: &str, task: &ScheduledTask) -> (r: Result<String, Error>)
    ensures
        match r {
            Ok(text) => linux::task_ok(linux::task_value(*task)) && text@ == linux::install_text(
                crontab@,
                linux::task_value(*task),
            ),
            Err(e) => !linux::task_ok(linux::task_value(*task)) && e is Scheduler,
        },
{
    linux::install(crontab, task)
}

/// The crontab text `crontab` without the task named `name`.
pub fn remove(crontab: &str, name: &str) -> (r: String)
    ensures
        r@ == linux::without_task(crontab@, name@),
{
    linux::remove(crontab, name)
}

/// The filecanopy tasks installed in the crontab text `crontab`.
pub fn list(crontab: &str) -> (r: Vec<ScheduledTask>)
    ensures
        r@.map_values(|x: ScheduledTask| linux::task_value(x)) == linux::tasks_in(crontab@),
{
    linux::list(crontab)
}

} // verus!

//! Subcommand dispatch: thin glue that wires parsed arguments to the library.
use vstd::prelude::*;

use crate::cli::args::{
    Cli, Command, CompareArgs, DedupArgs, DuplicatesArgs, ExportArgs, LineCountArgs, ScanArgs,
    ScheduleAction, ScheduleArgs, SnapshotArgs, TopArgs, TreemapArgs,
};
use crate::error::Error;

verus! {

/// Run the subcommand of `cli`. None of the subcommands does any work here
/// yet; each one succeeds. (`schedule` is carried out by the program, which
/// reads and writes the crontab around `scheduler::install`, `remove` and
/// `list`.)
pub fn dispatch(cli: Cli) -> (r: Result<(), Error>)
    ensures
        r is Ok,
{
    match cli.command {
        Command::Scan(args) => run_scan(args),
        Command::Treemap(args) => run_treemap(args),
        Command::Top(args) => run_top(args),
        Command::Duplicates(args) => run_duplicates(args),
        Command::Dedup(args) => run_dedup(args),
        Command::Snapshot(args) => run_snapshot(args),
        Command::Compare(args) => run_compare(args),
        Command::LineCount(args) => run_line_count(args),
        Command::Schedule(args) => run_schedule(args),
        Command::Export(args) => run_export(args),
    }
}

fn run_scan(_args: ScanArgs) -> (r: Result<(), Error>)
    ensures
        r is Ok,
{
    Ok(())
}

fn run_treemap(_args: TreemapArgs) -> (r: Result<(), Error>)
    ensures
        r is Ok,
{
    Ok(())
}

fn run_top(_args: TopArgs) -> (r: Result<(), Error>)
    ensures
        r is Ok,
{
    Ok(())
}

fn run_duplicates(_args: DuplicatesArgs) -> (r: Result<(), Error>)
    ensures
        r is Ok,
{
    Ok(())
}

fn run_dedup(_args: DedupArgs) -> (r: Result<(), Error>)
    ensures
        r is Ok,
{
    Ok(())
}

fn run_snapshot(_args: SnapshotArgs) -> (r: Result<(), Error>)
    ensures
        r is Ok,
{
    Ok(())
}

fn run_compare(_args: CompareArgs) -> (r: Result<(), Error>)
    ensures
        r is Ok,
{
    Ok(())
}

fn run_line_count(_args: LineCountArgs) -> (r: Result<(), Error>)
    ensures
        r is Ok,
{
    Ok(())
}

fn run_schedule(args: ScheduleArgs) -> (r: Result<(), Error>)
    ensures
        r is Ok,
{
    match args.action {
        ScheduleAction::Install { .. } => {},
        ScheduleAction::Remove { .. } => {},
        ScheduleAction::List => {},
    }
    Ok(())
}

fn run_export(_args: ExportArgs) -> (r: Result<(), Error>)
    ensures
        r is Ok,
{
    Ok(())
}

} // verus!

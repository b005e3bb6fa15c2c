use filecanopy::cli::args::{about, program_name, version};
use filecanopy::cli::args::{Cli, Command, ScheduleAction, ScheduleArgs, TopArgs};
use filecanopy::cli::commands::dispatch;

#[test]
fn prints_version() {
    let cmd = clap::Command::new(program_name())
        .version(version())
        .about(about());
    let err = cmd
        .try_get_matches_from(["filecanopy", "--version"])
        .unwrap_err();
    assert_eq!(err.kind(), clap::error::ErrorKind::DisplayVersion);
    assert!(err.to_string().contains("filecanopy"));
    assert_eq!(err.to_string(), "filecanopy 0.1.0\n");
}

#[test]
fn prints_help() {
    let cmd = clap::Command::new(program_name())
        .version(version())
        .about(about());
    let err = cmd.try_get_matches_from(["filecanopy", "--help"]).unwrap_err();
    assert_eq!(err.kind(), clap::error::ErrorKind::DisplayHelp);
    assert!(err.to_string().contains("filecanopy"));
    assert!(err.to_string().contains(about()));
}

#[test]
fn dispatch_runs_every_subcommand() {
    let top = Cli {
        config: None,
        verbose: 0,
        quiet: false,
        command: Command::Top(TopArgs { root: "/data".to_string(), limit: 50, min_size: None }),
    };
    assert!(dispatch(top).is_ok());
    let sched = Cli {
        config: None,
        verbose: 1,
        quiet: true,
        command: Command::Schedule(ScheduleArgs { action: ScheduleAction::List }),
    };
    assert!(dispatch(sched).is_ok());
}

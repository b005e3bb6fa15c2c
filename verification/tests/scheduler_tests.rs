use filecanopy::error::Error;
use filecanopy::scheduler::{install, list, remove, windows, ScheduledTask};

fn task(name: &str, cron: &str, command: &str) -> ScheduledTask {
    ScheduledTask { name: name.to_string(), cron: cron.to_string(), command: command.to_string() }
}

#[test]
fn installed_task_is_listed_and_other_lines_stay() {
    let before = "MAILTO=me\n30 1 * * * backup.sh";
    let t = task("nightly", "0 2 * * *", "/usr/bin/filecanopy scan /data");
    let after = install(before, &t).unwrap();
    assert_eq!(
        after,
        "MAILTO=me\n30 1 * * * backup.sh\n0 2 * * * /usr/bin/filecanopy scan /data # filecanopy:nightly\n"
    );
    let listed = list(&after);
    assert_eq!(listed.len(), 1);
    assert_eq!(listed[0].name, "nightly");
    assert_eq!(listed[0].cron, "0 2 * * *");
    assert_eq!(listed[0].command, "/usr/bin/filecanopy scan /data");
    assert!(list(before).is_empty());
}

#[test]
fn install_into_an_empty_crontab() {
    let t = task("filecanopy", "*/5 * * * *", "filecanopy top /home");
    assert_eq!(install("", &t).unwrap(), "*/5 * * * * filecanopy top /home # filecanopy:filecanopy\n");
    let two = install(&install("", &t).unwrap(), &task("b", "0 0 1 * *", "x")).unwrap();
    let names: Vec<String> = list(&two).into_iter().map(|t| t.name).collect();
    assert_eq!(names, vec!["filecanopy".to_string(), "b".to_string()]);
}

#[test]
fn tasks_that_cannot_be_one_line_are_refused() {
    for t in [
        task("a", "0 2 * *", "x"),
        task("a", "0 2 * * * *", "x"),
        task("a", "0 2 * * *", "echo # no"),
        task("a\nb", "0 2 * * *", "x"),
        task("a", "0 2 * * *", "x\ny"),
    ] {
        assert!(matches!(install("", &t), Err(Error::Scheduler(_))));
    }
}

#[test]
fn remove_drops_only_that_task() {
    let text = "# keep me\n0 2 * * * a # filecanopy:one\n0 3 * * * b # filecanopy:two\n15 * * * * other\n";
    let out = remove(text, "one");
    assert_eq!(out, "# keep me\n0 3 * * * b # filecanopy:two\n15 * * * * other\n");
    let names: Vec<String> = list(&out).into_iter().map(|t| t.name).collect();
    assert_eq!(names, vec!["two".to_string()]);
    assert_eq!(remove(text, "absent"), text);
    assert_eq!(remove("0 2 * * * a # filecanopy:one", "one"), "");
}

#[test]
fn windows_scheduler_is_unavailable() {
    let t = task("a", "0 2 * * *", "x");
    assert!(matches!(windows::install(&t), Err(Error::Scheduler(_))));
    assert!(matches!(windows::remove("a"), Err(Error::Scheduler(_))));
    assert!(matches!(windows::list(), Err(Error::Scheduler(_))));
}

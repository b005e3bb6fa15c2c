use filecanopy::config::{Config, LineCountingConfig};
use filecanopy::error::Error;
use filecanopy::ui::app::{Action, App};
use filecanopy::ui::message::Message;

fn sample() -> Config {
    Config {
        default_roots: vec!["/home/u".to_string(), "/srv/data dir".to_string()],
        snapshot_db: Some("/var/lib/fc/snap \"1\".db".to_string()),
        report_dir: None,
        ignore_globs: vec!["*.tmp".to_string(), "back\\slash\tand\nnewline".to_string()],
        follow_symlinks: true,
        line_counting: LineCountingConfig { extensions: vec!["rs".to_string(), "py".to_string()], max_size_bytes: Some(1048576) },
    }
}

fn same(a: &Config, b: &Config) -> bool {
    a.default_roots == b.default_roots
        && a.snapshot_db == b.snapshot_db
        && a.report_dir == b.report_dir
        && a.ignore_globs == b.ignore_globs
        && a.follow_symlinks == b.follow_symlinks
        && a.line_counting.extensions == b.line_counting.extensions
        && a.line_counting.max_size_bytes == b.line_counting.max_size_bytes
}

#[test]
fn saved_configuration_loads_back() {
    let c = sample();
    let text = c.save();
    let back = Config::load(Some(&text)).unwrap();
    assert!(same(&c, &back));
    let d = Config::default();
    assert!(same(&d, &Config::load(Some(&d.save())).unwrap()));
}

#[test]
fn saved_text_is_toml() {
    let text = sample().save();
    assert_eq!(
        text,
        "default_roots = [\"/home/u\", \"/srv/data dir\"]\n\
         ignore_globs = [\"*.tmp\", \"back\\\\slash\\tand\\nnewline\"]\n\
         follow_symlinks = true\n\
         snapshot_db = \"/var/lib/fc/snap \\\"1\\\".db\"\n\
         [line_counting]\n\
         extensions = [\"rs\", \"py\"]\n\
         max_size_bytes = 1048576\n"
    );
    assert_eq!(
        Config::default().save(),
        "default_roots = []\nignore_globs = []\nfollow_symlinks = false\n[line_counting]\nextensions = []\n"
    );
}

#[test]
fn hand_written_file_with_comments_and_spacing() {
    let text = "# my settings\r\n\n  follow_symlinks=true  \nreport_dir = \"/r\"\n[ line_counting ]\n\textensions = [ \"c\" , \"h\", ]\n";
    let c = Config::load(Some(text)).unwrap();
    assert!(c.follow_symlinks);
    assert_eq!(c.report_dir.as_deref(), Some("/r"));
    assert_eq!(c.line_counting.extensions, vec!["c".to_string(), "h".to_string()]);
    assert!(c.default_roots.is_empty());
    assert_eq!(c.line_counting.max_size_bytes, None);
}

#[test]
fn unreadable_files_are_refused() {
    let expected = "the configuration file could not be read";
    for bad in [
        "follow_symlinks = yes\n",
        "unknown = 1\n",
        "extensions = [\"rs\"]\n",
        "[line_counting]\nmax_size_bytes = 18446744073709551616\n",
        "[other]\n",
        "report_dir = \"open\n",
        "just words\n",
    ] {
        match Config::load(Some(bad)) {
            Err(Error::Config(m)) => assert_eq!(m, expected),
            other => panic!("{:?} gave {:?}", bad, other.map(|c| c.save())),
        }
    }
    let c = Config::load(Some("[line_counting]\nmax_size_bytes = 18446744073709551615\n")).unwrap();
    assert_eq!(c.line_counting.max_size_bytes, Some(u64::MAX));
}

#[test]
fn save_settings_hands_out_the_configuration_text() {
    let mut app = App::with_config(sample());
    assert_eq!(app.config.line_counting.max_size_bytes, Some(1048576));
    let expected = sample().save();
    match app.update(Message::SaveSettings) {
        Action::SaveConfig(text) => assert_eq!(text, expected),
        _ => panic!("expected SaveConfig"),
    }
}

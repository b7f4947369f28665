use wp_update::decode::UpdateCandidate;
use wp_update::plan::{
    backup_dest, commit_prefix_bytes, filter_excluded, update_core, update_plugins,
    update_themes, update_translations, Action, Cmd,
};
use wp_update::{main_loop, Cli, Step, StepOracle};

fn b(s: &str) -> Vec<u8> {
    s.as_bytes().to_vec()
}

fn wp(args: &[&str]) -> Cmd {
    Cmd { program: b("wp"), args: args.iter().map(|a| b(a)).collect() }
}

fn git(args: &[&str]) -> Cmd {
    Cmd { program: b("git"), args: args.iter().map(|a| b(a)).collect() }
}

fn base_cli() -> Cli {
    Cli {
        commit_prefix: None,
        database_file_path: String::from("{installation_path}/../{unix_time}.{step}.sql"),
        exclude_plugins: vec![],
        exclude_themes: vec![],
        no_backup_database: false,
        no_commit: false,
        separator: String::from(": "),
        steps: vec![Step::Core, Step::Themes, Step::Plugins, Step::Translations],
        remove_paths: vec![],
        wordpress_path: String::from("/srv/wp"),
    }
}

fn contains(hay: &[u8], needle: &[u8]) -> bool {
    hay.windows(needle.len()).any(|w| w == needle)
}

fn action_mentions(a: &Action, needle: &[u8]) -> bool {
    match a {
        Action::Stream(c) | Action::Capture(c) => {
            contains(&c.program, needle) || c.args.iter().any(|arg| contains(arg, needle))
        }
        Action::EnsureParent(p) | Action::RemovePath(p) => contains(p, needle),
    }
}

#[test]
fn core_step_call_sequence() {
    let cli = base_cli();
    let prefix = commit_prefix_bytes(&cli);
    let plan = update_core(
        &cli,
        &prefix,
        42,
        &b(r#"[{"name":"foo"}]"#),
        &b("6.4.1"),
        &b("6.4.2"),
    );
    let dest = "/srv/wp/../42.update_core.sql";
    let expected = vec![
        Action::Capture(wp(&[
            "plugin",
            "list",
            "--fields=name",
            "--status=active",
            "--format=json",
            "--path=/srv/wp",
        ])),
        Action::Capture(wp(&["core", "version", "--path=/srv/wp"])),
        Action::EnsureParent(b(dest)),
        Action::Stream(wp(&["db", "export", dest, "--defaults", "--path=/srv/wp"])),
        Action::Stream(wp(&["plugin", "deactivate", "foo", "--path=/srv/wp"])),
        Action::Stream(wp(&["core", "update", "--path=/srv/wp"])),
        Action::Stream(wp(&["plugin", "activate", "foo", "--path=/srv/wp"])),
        Action::Capture(wp(&["core", "version", "--path=/srv/wp"])),
        Action::Stream(git(&["-C", "/srv/wp", "add", "."])),
        Action::Stream(git(&["-C", "/srv/wp", "commit", "-m", "Update WordPress Core: 6.4.1 -> 6.4.2"])),
    ];
    assert_eq!(plan, expected);
    // The commit message names both captured versions.
    match plan.last().unwrap() {
        Action::Stream(c) => {
            let msg = c.args.last().unwrap();
            assert!(contains(msg, b"6.4.1".as_slice()));
            assert!(contains(msg, b"6.4.2".as_slice()));
        }
        other => panic!("expected a commit, got {other:?}"),
    }
}

#[test]
fn core_step_without_commit_queries_no_version() {
    let mut cli = base_cli();
    cli.no_commit = true;
    let prefix = commit_prefix_bytes(&cli);
    let plan = update_core(&cli, &prefix, 42, &b("[]"), &b(""), &b(""));
    let dest = "/srv/wp/../42.update_core.sql";
    let expected = vec![
        Action::Capture(wp(&[
            "plugin",
            "list",
            "--fields=name",
            "--status=active",
            "--format=json",
            "--path=/srv/wp",
        ])),
        Action::EnsureParent(b(dest)),
        Action::Stream(wp(&["db", "export", dest, "--defaults", "--path=/srv/wp"])),
        Action::Stream(wp(&["plugin", "deactivate", "--path=/srv/wp"])),
        Action::Stream(wp(&["core", "update", "--path=/srv/wp"])),
        Action::Stream(wp(&["plugin", "activate", "--path=/srv/wp"])),
    ];
    assert_eq!(plan, expected);
}

#[test]
fn core_step_without_backup_resolves_no_path() {
    let mut cli = base_cli();
    cli.no_backup_database = true;
    let prefix = commit_prefix_bytes(&cli);
    let plan = update_core(&cli, &prefix, 42, &b("[]"), &b("a"), &b("b"));
    for a in &plan {
        match a {
            Action::EnsureParent(_) => panic!("backup disabled, yet a path was prepared"),
            Action::Stream(c) => assert_ne!(c.args.first(), Some(&b("db"))),
            _ => {}
        }
    }
}

#[test]
fn plugins_step_skips_excluded_names() {
    let mut cli = base_cli();
    cli.exclude_plugins = vec![String::from("bar")];
    let prefix = commit_prefix_bytes(&cli);
    let raw = b(
        r#"[{"name":"foo","version":"1.0","update_version":"1.1"},{"name":"bar","version":"2.0","update_version":"2.1"}]"#,
    );
    let times = vec![7u64];
    let plan = update_plugins(&cli, &prefix, &raw, &times);
    let dest = "/srv/wp/../7.update_plugin.foo.sql";
    let expected = vec![
        Action::Capture(wp(&[
            "plugin",
            "list",
            "--update=available",
            "--fields=name,version,update_version",
            "--format=json",
            "--path=/srv/wp",
        ])),
        Action::EnsureParent(b(dest)),
        Action::Stream(wp(&["db", "export", dest, "--defaults", "--path=/srv/wp"])),
        Action::Stream(wp(&["plugin", "update", "foo", "--path=/srv/wp"])),
        Action::Stream(git(&["-C", "/srv/wp", "add", "."])),
        Action::Stream(git(&["-C", "/srv/wp", "commit", "-m", "Update plugin: foo: 1.0 -> 1.1"])),
    ];
    assert_eq!(plan, expected);
    // The excluded item is untouched: no planned action mentions it.
    for a in plan.iter().skip(1) {
        assert!(!action_mentions(a, b"bar".as_slice()), "bar leaked into {a:?}");
    }
}

#[test]
fn translations_step_with_hooks_disabled_is_exactly_three_calls() {
    let mut cli = base_cli();
    cli.no_backup_database = true;
    cli.no_commit = true;
    let prefix = commit_prefix_bytes(&cli);
    let plan = update_translations(&cli, &prefix, 5);
    let expected = vec![
        Action::Stream(wp(&["language", "core", "update", "--path=/srv/wp"])),
        Action::Stream(wp(&["language", "theme", "update", "--all", "--path=/srv/wp"])),
        Action::Stream(wp(&["language", "plugin", "update", "--all", "--path=/srv/wp"])),
    ];
    assert_eq!(plan, expected);
}

#[test]
fn stray_paths_are_removed_after_the_update_and_before_the_commit() {
    let mut cli = base_cli();
    cli.no_backup_database = true;
    cli.remove_paths = vec![String::from("{installation_path}/$XDG_CACHE_HOME")];
    let prefix = commit_prefix_bytes(&cli);
    let plan = update_translations(&cli, &prefix, 5);
    let expected = vec![
        Action::Stream(wp(&["language", "core", "update", "--path=/srv/wp"])),
        Action::Stream(wp(&["language", "theme", "update", "--all", "--path=/srv/wp"])),
        Action::Stream(wp(&["language", "plugin", "update", "--all", "--path=/srv/wp"])),
        Action::RemovePath(b("/srv/wp/$XDG_CACHE_HOME")),
        Action::Stream(git(&["-C", "/srv/wp", "add", "."])),
        Action::Stream(git(&["-C", "/srv/wp", "commit", "-m", "Update translations"])),
    ];
    assert_eq!(plan, expected);
}

#[test]
fn commit_prefix_opens_every_message() {
    let mut cli = base_cli();
    cli.commit_prefix = Some(String::from("chore"));
    let prefix = commit_prefix_bytes(&cli);
    assert_eq!(prefix, b("chore: "));
    let plan = update_translations(&cli, &prefix, 5);
    match plan.last().unwrap() {
        Action::Stream(c) => {
            assert_eq!(c.args.last().unwrap(), &b("chore: Update translations"));
        }
        other => panic!("expected a commit, got {other:?}"),
    }
}

#[test]
fn disabled_commit_ignores_the_prefix() {
    let mut cli = base_cli();
    cli.commit_prefix = Some(String::from("chore"));
    cli.no_commit = true;
    assert_eq!(commit_prefix_bytes(&cli), b(""));
}

#[test]
fn filter_keeps_order_and_drops_excluded() {
    let items = vec![
        UpdateCandidate { name: b("a"), version: b("1"), update_version: b("2") },
        UpdateCandidate { name: b("b"), version: b("3"), update_version: b("4") },
        UpdateCandidate { name: b("c"), version: b("5"), update_version: b("6") },
    ];
    let excl = vec![String::from("b")];
    let kept = filter_excluded(items, &excl);
    assert_eq!(kept.len(), 2);
    assert_eq!(kept[0].name, b("a"));
    assert_eq!(kept[1].name, b("c"));
}

#[test]
fn backup_destination_resolves_the_template() {
    let cli = base_cli();
    let dest = backup_dest(&cli, b"update_core", 1700000000);
    assert_eq!(dest, b("/srv/wp/../1700000000.update_core.sql"));
}

#[test]
fn main_loop_concatenates_the_steps_in_order() {
    let mut cli = base_cli();
    cli.no_backup_database = true;
    cli.steps = vec![Step::Translations, Step::Plugins];
    let prefix = commit_prefix_bytes(&cli);
    let raw = b(r#"[{"name":"foo","version":"1.0","update_version":"1.1"}]"#);
    let oracles = vec![
        StepOracle::Translations { now: 5 },
        StepOracle::Items { raw_list: raw.clone(), times: vec![7] },
    ];
    let plan = main_loop(&cli, &oracles);
    let mut expected = update_translations(&cli, &prefix, 5);
    expected.extend(update_plugins(&cli, &prefix, &raw, &vec![7]));
    assert_eq!(plan, expected);
}

#[test]
fn main_loop_runs_a_step_each_time_it_is_configured() {
    let mut cli = base_cli();
    cli.no_backup_database = true;
    cli.no_commit = true;
    cli.steps = vec![Step::Translations, Step::Translations];
    let prefix = commit_prefix_bytes(&cli);
    let oracles = vec![
        StepOracle::Translations { now: 1 },
        StepOracle::Translations { now: 2 },
    ];
    let plan = main_loop(&cli, &oracles);
    let mut expected = update_translations(&cli, &prefix, 1);
    expected.extend(update_translations(&cli, &prefix, 2));
    assert_eq!(plan, expected);
    assert_eq!(plan.len(), 6);
}

#[test]
fn main_loop_reproduces_a_core_step() {
    let cli = base_cli();
    let prefix = commit_prefix_bytes(&cli);
    let raw_active = b(r#"[{"name":"foo"}]"#);
    let oracle = StepOracle::Core {
        now: 42,
        raw_active: raw_active.clone(),
        old_version: b("6.4.1"),
        new_version: b("6.4.2"),
    };
    let mut one_step = base_cli();
    one_step.steps = vec![Step::Core];
    let plan = main_loop(&one_step, &vec![oracle]);
    let expected = update_core(&one_step, &prefix, 42, &raw_active, &b("6.4.1"), &b("6.4.2"));
    assert_eq!(plan, expected);
}

#[test]
fn themes_step_uses_theme_labels_and_messages() {
    let cli = base_cli();
    let prefix = commit_prefix_bytes(&cli);
    let raw = b(r#"[{"name":"twentytwenty","version":"2.0","update_version":"2.1"}]"#);
    let times = vec![9u64];
    let plan = update_themes(&cli, &prefix, &raw, &times);
    let dest = "/srv/wp/../9.update_theme.twentytwenty.sql";
    let expected = vec![
        Action::Capture(wp(&[
            "theme",
            "list",
            "--update=available",
            "--fields=name,version,update_version",
            "--format=json",
            "--path=/srv/wp",
        ])),
        Action::EnsureParent(b(dest)),
        Action::Stream(wp(&["db", "export", dest, "--defaults", "--path=/srv/wp"])),
        Action::Stream(wp(&["theme", "update", "twentytwenty", "--path=/srv/wp"])),
        Action::Stream(git(&["-C", "/srv/wp", "add", "."])),
        Action::Stream(git(&[
            "-C",
            "/srv/wp",
            "commit",
            "-m",
            "Update theme: twentytwenty: 2.0 -> 2.1",
        ])),
    ];
    assert_eq!(plan, expected);
}

use contemplate::engine::Engine;
use contemplate::error::Error;
use contemplate::filters::{
    base64encode, from_json, hexencode, value_as_bytes, FilterItem, FilterValue,
};
use contemplate::jsontext::to_json_text;
use contemplate::notify::{event_triggers, FileEventKind, NotifyChannel, OfferOutcome};
use contemplate::plan::{
    backup_path, elements_are_unique, validate_plan, ApplyInputs, ApplyOutcome, InPlace, Plan,
    TemplateDestination, TemplateOperation, TemplateSource, WriteAction,
};
use contemplate::reload::{
    matching_pids, OnReload, OnReloadAction, OnReloadSignalTarget, ReloadDirective,
};
use contemplate::source::{Environment, File, Source, SourceRegistry};
use contemplate::strutil::{int_to_text, join_char, parse_int, split_char, to_lower};
use contemplate::value::{Coalescible, ConfigValue};

fn inputs(source_text: Option<&str>, dest_existing: Option<&str>) -> ApplyInputs {
    ApplyInputs {
        source_text: source_text.map(|s| s.to_string()),
        dest_existing: dest_existing.map(|s| s.to_string()),
        source_bytes: None,
        backup_bytes: None,
        old_header: "old".to_string(),
        new_header: "new".to_string(),
        color: false,
    }
}

fn ctx_x_equals_2() -> String {
    let snapshot = ConfigValue::Tree(vec![("x".to_string(), ConfigValue::Int(2))]);
    to_json_text(&snapshot)
}

#[test]
fn render_template_against_snapshot() {
    // End to end: a file layer and an environment layer merged, then
    // rendered; the later environment layer wins, so x is 2.
    let file = File::new("a.yaml".to_string());
    let file_layer = file.layer("x: 1").unwrap();
    let env = Environment::new(Some("APP".to_string()));
    let env_layer = env.layer(&vec![("APP_X".to_string(), "2".to_string())]);

    let registry = SourceRegistry::new(vec![
        Source::File(file),
        Source::Environment(env),
    ]);
    let snapshot = registry
        .as_snapshot(vec![Ok(file_layer), Ok(env_layer)])
        .unwrap();
    assert_eq!(to_json_text(&snapshot), "{\"x\":2}");

    let mut engine = Engine::new();
    let mut op = TemplateOperation::new(
        TemplateSource::FileSystem("t.tmpl".to_string()),
        TemplateDestination::StdOut,
    );
    let out = op
        .apply(
            &mut engine,
            &to_json_text(&snapshot),
            inputs(Some("{{x}}"), None),
            false,
            false,
        )
        .unwrap();
    assert!(out.changed);
    match out.write {
        WriteAction::WriteStdOut(s) => assert_eq!(s, "2"),
        _ => panic!("stdout destination must write to standard output"),
    }
    // And merging is usable directly on the values too.
    let a = ConfigValue::Tree(vec![("x".to_string(), ConfigValue::Int(1))]);
    let b = ConfigValue::Tree(vec![("x".to_string(), ConfigValue::Int(2))]);
    assert_eq!(to_json_text(&a.merge(b)), "{\"x\":2}");
}

#[test]
fn trailing_newline_is_preserved() {
    let mut engine = Engine::new();
    let mut with_nl = TemplateOperation::new(
        TemplateSource::FileSystem("a.tmpl".to_string()),
        TemplateDestination::FileSystem("out".to_string()),
    );
    let out = with_nl
        .apply(
            &mut engine,
            &ctx_x_equals_2(),
            inputs(Some("v={{x}}\n"), Some("")),
            false,
            false,
        )
        .unwrap();
    match out.write {
        WriteAction::WriteFile { content, .. } => assert_eq!(content, "v=2\n"),
        _ => panic!("changed file must be written"),
    }

    let mut without_nl = TemplateOperation::new(
        TemplateSource::FileSystem("b.tmpl".to_string()),
        TemplateDestination::FileSystem("out2".to_string()),
    );
    let out = without_nl
        .apply(
            &mut engine,
            &ctx_x_equals_2(),
            inputs(Some("v={{x}}"), Some("")),
            false,
            false,
        )
        .unwrap();
    match out.write {
        WriteAction::WriteFile { content, .. } => assert_eq!(content, "v=2"),
        _ => panic!("changed file must be written"),
    }
}

#[test]
fn idempotent_write_reports_unchanged() {
    let mut engine = Engine::new();
    let mut op = TemplateOperation::new(
        TemplateSource::FileSystem("a.tmpl".to_string()),
        TemplateDestination::FileSystem("out".to_string()),
    );
    // First pass: the destination is empty, so it changes.
    let out = op
        .apply(
            &mut engine,
            &ctx_x_equals_2(),
            inputs(Some("v={{x}}\n"), Some("")),
            false,
            false,
        )
        .unwrap();
    assert!(out.changed);
    let written = match out.write {
        WriteAction::WriteFile { content, .. } => content,
        _ => panic!("changed file must be written"),
    };
    // Second pass against an unchanged snapshot and the written content:
    // nothing changes and nothing is written.
    let out = op
        .apply(
            &mut engine,
            &ctx_x_equals_2(),
            inputs(None, Some(&written)),
            false,
            false,
        )
        .unwrap();
    assert!(!out.changed);
    assert!(matches!(out.write, WriteAction::Nothing));
}

#[test]
fn backup_collision_aborts_without_writing() {
    let mut engine = Engine::new();
    let mut op = TemplateOperation::new(
        TemplateSource::FileSystem("conf".to_string()),
        TemplateDestination::FileSystem("conf".to_string()),
    )
    .with_backup_extension("bak".to_string());
    let mut inp = inputs(Some("v={{x}}"), Some("old"));
    inp.source_bytes = Some(b"v={{x}}".to_vec());
    inp.backup_bytes = Some(b"something else".to_vec());
    match op.apply(&mut engine, &ctx_x_equals_2(), inp, false, false) {
        Err(Error::BackupWouldBeOverwritten(p)) => assert_eq!(p, "conf.bak"),
        _ => panic!("a differing backup must abort the operation"),
    }
}

#[test]
fn matching_backup_is_rewritten() {
    let mut engine = Engine::new();
    let mut op = TemplateOperation::new(
        TemplateSource::FileSystem("conf".to_string()),
        TemplateDestination::FileSystem("conf".to_string()),
    )
    .with_backup_extension("bak".to_string());
    let mut inp = inputs(Some("v={{x}}"), Some("old"));
    inp.source_bytes = Some(b"v={{x}}".to_vec());
    inp.backup_bytes = Some(b"v={{x}}".to_vec());
    let out = op.apply(&mut engine, &ctx_x_equals_2(), inp, false, false).unwrap();
    assert_eq!(
        out.backup,
        Some(("conf".to_string(), "conf.bak".to_string()))
    );
    assert!(out.changed);
}

#[test]
fn first_backup_copies_without_question() {
    let mut engine = Engine::new();
    let mut op = TemplateOperation::new(
        TemplateSource::FileSystem("conf".to_string()),
        TemplateDestination::FileSystem("conf".to_string()),
    )
    .with_backup_extension("bak".to_string());
    let mut inp = inputs(Some("v={{x}}"), Some("old"));
    inp.source_bytes = Some(b"v={{x}}".to_vec());
    inp.backup_bytes = None;
    let out = op.apply(&mut engine, &ctx_x_equals_2(), inp, false, false).unwrap();
    assert_eq!(
        out.backup,
        Some(("conf".to_string(), "conf.bak".to_string()))
    );
}

#[test]
fn dry_run_reports_but_writes_nothing() {
    let mut engine = Engine::new();
    let mut op = TemplateOperation::new(
        TemplateSource::FileSystem("a.tmpl".to_string()),
        TemplateDestination::FileSystem("out".to_string()),
    )
    .with_backup_extension("bak".to_string());
    let out = op
        .apply(
            &mut engine,
            &ctx_x_equals_2(),
            inputs(Some("v={{x}}"), Some("")),
            true,
            true,
        )
        .unwrap();
    assert!(out.changed);
    assert!(matches!(out.write, WriteAction::Nothing));
    assert!(out.backup.is_none());
    assert!(out.diff_text.is_none());
    // The backup extension survives a dry run.
    assert_eq!(op.backup.as_deref(), Some("bak"));
}

#[test]
fn changed_write_logs_a_unified_diff() {
    let mut engine = Engine::new();
    let mut op = TemplateOperation::new(
        TemplateSource::FileSystem("a.tmpl".to_string()),
        TemplateDestination::FileSystem("out".to_string()),
    );
    let out = op
        .apply(
            &mut engine,
            &ctx_x_equals_2(),
            inputs(Some("v={{x}}\n"), Some("v=1\n")),
            false,
            true,
        )
        .unwrap();
    let d = out.diff_text.expect("a changed write with --diff logs a diff");
    assert!(d.contains("--- old"));
    assert!(d.contains("+++ new"));
    assert!(d.contains("-v=1"));
    assert!(d.contains("+v=2"));
}

#[test]
fn colored_diff_keeps_one_line_per_diff_line() {
    let mut engine = Engine::new();
    let mut op = TemplateOperation::new(
        TemplateSource::FileSystem("c.tmpl".to_string()),
        TemplateDestination::FileSystem("out".to_string()),
    );
    let mut inp = inputs(Some("v={{x}}\n"), Some("v=1\n"));
    inp.color = true;
    let out = op.apply(&mut engine, &ctx_x_equals_2(), inp, false, true).unwrap();
    let colored_d = out.diff_text.expect("a changed write with --diff logs a diff");

    // the plain diff of the same change, for the line count
    let mut plain_op = TemplateOperation::new(
        TemplateSource::FileSystem("d.tmpl".to_string()),
        TemplateDestination::FileSystem("out2".to_string()),
    );
    let plain = plain_op
        .apply(
            &mut engine,
            &ctx_x_equals_2(),
            inputs(Some("v={{x}}\n"), Some("v=1\n")),
            false,
            true,
        )
        .unwrap()
        .diff_text
        .unwrap();
    assert_eq!(colored_d.lines().count(), plain.lines().count());
    // whatever the styling, the diff's own line markers survive
    assert!(colored_d.contains("v=1"));
    assert!(colored_d.contains("v=2"));
}

#[test]
fn unchanged_write_logs_no_diff() {
    let mut engine = Engine::new();
    let mut op = TemplateOperation::new(
        TemplateSource::FileSystem("b.tmpl".to_string()),
        TemplateDestination::FileSystem("out".to_string()),
    );
    let out = op
        .apply(
            &mut engine,
            &ctx_x_equals_2(),
            inputs(Some("v={{x}}\n"), Some("v=2\n")),
            false,
            true,
        )
        .unwrap();
    assert!(!out.changed);
    assert!(out.diff_text.is_none());
}

#[test]
fn template_compile_error_is_loud() {
    let mut engine = Engine::new();
    let mut op = TemplateOperation::new(
        TemplateSource::FileSystem("bad.tmpl".to_string()),
        TemplateDestination::StdOut,
    );
    match op.apply(
        &mut engine,
        &ctx_x_equals_2(),
        inputs(Some("{% if %}"), None),
        false,
        false,
    ) {
        Err(Error::TemplateError(_)) => {}
        _ => panic!("a template that does not compile is a template error"),
    }
}

#[test]
fn missing_values_render_leniently() {
    let mut engine = Engine::new();
    let mut op = TemplateOperation::new(
        TemplateSource::FileSystem("t".to_string()),
        TemplateDestination::StdOut,
    );
    let out = op
        .apply(
            &mut engine,
            &ctx_x_equals_2(),
            inputs(Some("[{{missing.value}}]"), None),
            false,
            false,
        )
        .unwrap();
    match out.write {
        WriteAction::WriteStdOut(s) => assert_eq!(s, "[]"),
        _ => panic!("stdout destination must write"),
    }
}

#[test]
fn plan_executes_operations_in_order() {
    let mut engine = Engine::new();
    let mut plan = Plan::from_operations(vec![
        TemplateOperation::new(
            TemplateSource::FileSystem("a.tmpl".to_string()),
            TemplateDestination::FileSystem("a.out".to_string()),
        ),
        TemplateOperation::new(
            TemplateSource::FileSystem("b.tmpl".to_string()),
            TemplateDestination::FileSystem("b.out".to_string()),
        ),
    ]);
    plan.ensure_cached(
        &mut engine,
        &vec![Some("a={{x}}".to_string()), Some("b={{x}}".to_string())],
    )
    .unwrap();
    let ins = vec![inputs(None, Some("a=2")), inputs(None, Some(""))];
    let results = plan.try_execute(&mut engine, &ctx_x_equals_2(), ins, false, false).unwrap();
    assert_eq!(results.len(), 2);
    assert!(!results[0].changed);
    assert!(results[1].changed);

    let wrapped: Vec<Result<ApplyOutcome, Error>> = results.into_iter().map(Ok).collect();
    let changed = plan.changed_paths(&wrapped);
    assert_eq!(changed, vec!["b.out".to_string()]);
}

#[test]
fn execute_keeps_going_past_failures() {
    let mut engine = Engine::new();
    let mut plan = Plan::from_operations(vec![
        TemplateOperation::new(
            TemplateSource::FileSystem("bad.tmpl".to_string()),
            TemplateDestination::FileSystem("a.out".to_string()),
        ),
        TemplateOperation::new(
            TemplateSource::FileSystem("good.tmpl".to_string()),
            TemplateDestination::FileSystem("b.out".to_string()),
        ),
    ]);
    let ins = vec![
        inputs(Some("{% if %}"), Some("")),
        inputs(Some("ok"), Some("")),
    ];
    let results = plan.execute(&mut engine, &ctx_x_equals_2(), ins, false, false);
    assert_eq!(results.len(), 2);
    assert!(results[0].is_err());
    assert!(results[1].as_ref().unwrap().changed);
}

#[test]
fn validate_plan_rules() {
    let unique = Plan::from_operations(vec![
        TemplateOperation::new(
            TemplateSource::FileSystem("a".to_string()),
            TemplateDestination::FileSystem("x".to_string()),
        ),
        TemplateOperation::new(
            TemplateSource::FileSystem("b".to_string()),
            TemplateDestination::FileSystem("y".to_string()),
        ),
    ]);
    assert!(validate_plan(&unique, false).is_ok());
    assert!(validate_plan(&unique, true).is_ok());

    let duplicated = Plan::from_operations(vec![
        TemplateOperation::new(
            TemplateSource::FileSystem("a".to_string()),
            TemplateDestination::FileSystem("x".to_string()),
        ),
        TemplateOperation::new(
            TemplateSource::FileSystem("b".to_string()),
            TemplateDestination::FileSystem("x".to_string()),
        ),
    ]);
    assert!(matches!(validate_plan(&duplicated, false), Err(Error::Validation(_))));

    let to_stdout = Plan::stdio();
    assert!(validate_plan(&to_stdout, false).is_ok());
    assert!(matches!(validate_plan(&to_stdout, true), Err(Error::Validation(_))));
}

#[test]
fn destination_uniqueness() {
    let a = TemplateDestination::FileSystem("x".to_string());
    let b = TemplateDestination::FileSystem("y".to_string());
    let c = TemplateDestination::StdOut;
    assert!(elements_are_unique(&vec![a, b, c]));
    let a = TemplateDestination::FileSystem("x".to_string());
    let b = TemplateDestination::FileSystem("x".to_string());
    assert!(!elements_are_unique(&vec![a, b]));
}

#[test]
fn in_place_suffix() {
    assert_eq!(InPlace::No.extension(), None);
    assert_eq!(InPlace::WithoutSuffix.extension(), None);
    assert_eq!(InPlace::WithSuffix("sfx".to_string()).extension(), Some("sfx"));
    assert!(!InPlace::No.is_active());
    assert!(InPlace::WithSuffix("s".to_string()).is_active());

    let op = TemplateOperation::new_in_place("conf", Some("bak"));
    assert!(matches!(&op.source, TemplateSource::FileSystem(p) if p == "conf"));
    assert!(matches!(&op.dest, TemplateDestination::FileSystem(p) if p == "conf"));
    assert_eq!(op.backup.as_deref(), Some("bak"));
    assert_eq!(backup_path(&"conf".to_string(), &"bak".to_string()), "conf.bak");
}

#[test]
fn reload_directive_carries_changed_paths() {
    let changed = vec!["a.out".to_string(), "b.out".to_string()];
    let reload = OnReload::new(OnReloadAction::ShellCommand("reload".to_string()));
    match reload.execute(&changed) {
        ReloadDirective::SpawnShell { command, env_value } => {
            assert_eq!(command, "reload");
            assert_eq!(env_value, "a.out,b.out");
        }
        _ => panic!("a shell command action must spawn a shell"),
    }

    let none = OnReload::new(OnReloadAction::DoNothing);
    assert!(matches!(none.execute(&changed), ReloadDirective::Nothing));

    let sig = OnReload::new(OnReloadAction::Signal {
        signal: 1,
        target: OnReloadSignalTarget::Parent,
    });
    assert!(matches!(sig.execute(&changed), ReloadDirective::SignalParent { signal: 1 }));
}

#[test]
fn signal_target_parsing() {
    assert!(matches!(OnReloadSignalTarget::parse(":parent"), OnReloadSignalTarget::Parent));
    assert!(matches!(OnReloadSignalTarget::parse("1234"), OnReloadSignalTarget::Pid(1234)));
    assert!(matches!(OnReloadSignalTarget::parse("+7"), OnReloadSignalTarget::Pid(7)));
    assert!(matches!(OnReloadSignalTarget::parse("-7"), OnReloadSignalTarget::Pid(-7)));
    assert!(
        matches!(OnReloadSignalTarget::parse("+-3"), OnReloadSignalTarget::ProcessName(n) if n == "+-3")
    );
    assert!(
        matches!(OnReloadSignalTarget::parse("nginx"), OnReloadSignalTarget::ProcessName(n) if n == "nginx")
    );
    assert!(
        matches!(OnReloadSignalTarget::parse("99999999999"), OnReloadSignalTarget::ProcessName(_))
    );
}

#[test]
fn process_name_matches_are_exact() {
    let table: Vec<(String, i32)> = vec![
        ("nginx".to_string(), 10),
        ("nginx-debug".to_string(), 11),
        ("ginx".to_string(), 12),
        ("nginx".to_string(), 13),
    ];
    let pids = matching_pids(&table, &"nginx".to_string());
    assert_eq!(pids, vec![10, 13]);
    let none = matching_pids(&table, &"gin".to_string());
    assert!(none.is_empty());
}

#[test]
fn file_events_that_trigger_a_wake_up() {
    assert!(event_triggers(&FileEventKind::Create));
    assert!(event_triggers(&FileEventKind::Modify));
    assert!(event_triggers(&FileEventKind::Remove));
    assert!(!event_triggers(&FileEventKind::Access));
    assert!(!event_triggers(&FileEventKind::Other));
}

#[test]
fn debounce_collapses_bursts() {
    let mut channel = NotifyChannel::new();
    // A reconciliation is in flight; three rapid notifications arrive.
    assert!(matches!(channel.offer(), OfferOutcome::Accepted));
    assert!(matches!(channel.offer(), OfferOutcome::WouldWait));
    assert!(matches!(channel.offer(), OfferOutcome::WouldWait));
    // When the in-flight cycle completes, exactly one wake-up is pending.
    assert!(channel.drain());
    assert!(!channel.drain());
}

#[test]
fn filter_value_bytes() {
    let text = FilterValue::Text("ab".to_string());
    assert_eq!(value_as_bytes(&text).unwrap(), b"ab".to_vec());

    let bytes = FilterValue::Bytes(vec![1, 2, 3]);
    assert_eq!(value_as_bytes(&bytes).unwrap(), vec![1, 2, 3]);

    let nums = FilterValue::Sequence(vec![FilterItem::Int(0), FilterItem::Int(255)]);
    assert_eq!(value_as_bytes(&nums).unwrap(), vec![0, 255]);

    let out_of_range = FilterValue::Sequence(vec![FilterItem::Int(256)]);
    assert!(matches!(value_as_bytes(&out_of_range), Err(Error::TemplateError(_))));

    let not_numeric = FilterValue::Sequence(vec![FilterItem::Other]);
    assert!(matches!(value_as_bytes(&not_numeric), Err(Error::TemplateError(_))));

    assert!(matches!(value_as_bytes(&FilterValue::Other), Err(Error::TemplateError(_))));
}

#[test]
fn encoding_filters() {
    let v = FilterValue::Text("hi!".to_string());
    assert_eq!(hexencode(&v).unwrap(), "686921");
    assert_eq!(base64encode(&v).unwrap(), "aGkh");
    let one = FilterValue::Bytes(vec![0xde, 0xad]);
    assert_eq!(hexencode(&one).unwrap(), "dead");
}

#[test]
fn from_json_filter_round_trips() {
    let v = from_json("{\"a\": [1, true, null]}").unwrap();
    assert_eq!(to_json_text(&v), "{\"a\":[1,true,null]}");
    assert!(matches!(from_json("nope"), Err(Error::TemplateError(_))));
}

#[test]
fn text_helpers() {
    assert_eq!(to_lower("AbC-9"), "abc-9");
    assert_eq!(split_char("a,b,,c", ','), vec!["a", "b", "", "c"]);
    assert_eq!(join_char(&vec!["a".to_string(), "b".to_string()], ','), "a,b");
    assert_eq!(join_char(&vec![], ','), "");
    assert_eq!(parse_int("42"), Some(42));
    assert_eq!(parse_int("-7"), Some(-7));
    assert_eq!(parse_int(""), None);
    assert_eq!(parse_int("4x"), None);
    assert_eq!(parse_int("123456789012345678901"), None);
    assert_eq!(int_to_text(0), "0");
    assert_eq!(int_to_text(-310), "-310");
    assert_eq!(int_to_text(i64::MIN), "-9223372036854775808");
}

use cmd_provider::apply::{Apply, Command, Event};
use cmd_provider::connection::{output_text, ExecutionResult};
use cmd_provider::diagnostics::{Diagnostic, PathStep, Severity};
use cmd_provider::resource::CmdResource;
use cmd_provider::schedule::{any_input_changed_exec, input_changed_exec, schedule, Op};
use cmd_provider::state::{State, StateCmd, StateUpdate};
use cmd_provider::value::{get, insert, Value, ValueMap};

fn s(x: &str) -> String {
    x.to_string()
}

fn known(x: &str) -> Value<String> {
    Value::Value(s(x))
}

fn cmd(line: &str) -> StateCmd {
    StateCmd { cmd: known(line), env: Value::Null }
}

fn map(entries: &[(&str, &str)]) -> ValueMap<Value<String>> {
    entries.iter().map(|(k, v)| (s(k), known(v))).collect()
}

fn empty_state() -> State<()> {
    State {
        id: Value::Null,
        inputs: vec![],
        state: vec![],
        read: vec![],
        create: Value::Null,
        destroy: Value::Null,
        update: vec![],
        connection: Value::Null,
    }
}

fn update(line: &str, triggers: &[&str], reloads: &[&str]) -> Value<StateUpdate> {
    Value::Value(StateUpdate {
        cmd: cmd(line),
        triggers: triggers.iter().map(|t| s(t)).collect(),
        reloads: reloads.iter().map(|t| s(t)).collect(),
    })
}

fn ok(stdout: &str) -> Event {
    Event::Executed(ExecutionResult { status: 0, stdout: stdout.as_bytes().to_vec(), stderr: vec![] })
}

/// Runs an apply to its end with `transport` standing for the connection,
/// and returns the commands it was asked to run.
fn drive(apply: &mut Apply<()>, mut transport: impl FnMut(&Command) -> Event) -> Vec<Command> {
    let mut ran = Vec::new();
    while !apply.is_done() {
        match apply.command() {
            Some(c) => {
                let ev = transport(&c);
                ran.push(c);
                apply.record(ev);
            }
            None => apply.record(Event::NotRun),
        }
    }
    ran
}

/// Plays `echo <text>`: prints the text and a line break.
fn echo(c: &Command) -> Event {
    let line = &c.argv[2];
    match line.strip_prefix("echo ") {
        Some(text) => ok(&format!("{}\n", text)),
        None => ok(""),
    }
}

fn output(st: &Value<State<()>>, name: &str) -> Option<Value<String>> {
    match st {
        Value::Value(st) => get(&st.state, &s(name)).cloned(),
        _ => None,
    }
}

#[test]
fn creation_runs_create_then_reads() {
    let mut planned = empty_state();
    planned.inputs = map(&[("a", "1")]);
    planned.create = Value::Value(cmd("echo hi"));
    planned.read = vec![(s("out"), Value::Value(cmd("echo out-val")))];
    let resource = CmdResource::<()>::new();
    let planned = resource.plan(&Value::Null, Value::Value(planned));
    let mut apply = Apply::new(Value::Null, planned, s("generated-id"));
    assert_eq!(apply.ops, vec![Op::Create, Op::Read(0)]);
    let ran = drive(&mut apply, echo);
    assert_eq!(ran.len(), 2);
    assert_eq!(ran[0].argv, vec![s("sh"), s("-c"), s("echo hi")]);
    assert_eq!(ran[1].argv[2], s("echo out-val"));
    let (st, diags, success) = apply.finish();
    assert!(success);
    assert!(diags.is_empty());
    match &st {
        Value::Value(x) => {
            match &x.id {
                Value::Value(id) => assert!(!id.is_empty()),
                other => panic!("id not set: {:?}", other),
            }
            assert_eq!(x.state, map(&[("out", "out-val")]));
        }
        _ => panic!("no state"),
    }
}

#[test]
fn destroy_runs_destroy_once() {
    let mut prior = empty_state();
    prior.id = known("r1");
    prior.destroy = Value::Value(cmd("rm thing"));
    let mut apply = Apply::new(Value::Value(prior), Value::Null, s("unused"));
    let ran = drive(&mut apply, |_| ok(""));
    assert_eq!(ran.len(), 1);
    assert_eq!(ran[0].argv, vec![s("sh"), s("-c"), s("rm thing")]);
    let (st, diags, success) = apply.finish();
    assert!(success);
    assert!(diags.is_empty());
    assert_eq!(st, Value::Null);
}

#[test]
fn destroy_failure_keeps_the_resource() {
    let mut prior = empty_state();
    prior.id = known("r1");
    prior.destroy = Value::Value(cmd("rm thing"));
    let mut apply = Apply::new(Value::Value(prior.clone()), Value::Null, s("unused"));
    drive(&mut apply, |_| Event::Executed(ExecutionResult { status: 1, stdout: vec![], stderr: b"denied".to_vec() }));
    let (st, diags, success) = apply.finish();
    assert!(!success);
    assert_eq!(st, Value::Value(prior));
    assert_eq!(diags.len(), 1);
    assert_eq!(diags[0].severity, Severity::Error);
    assert_eq!(diags[0].path, vec![PathStep::Attribute(s("destroy"))]);
    assert_eq!(diags[0].detail, s("denied"));
}

#[test]
fn no_create_no_destroy_runs_nothing() {
    let mut planned = empty_state();
    planned.inputs = map(&[("a", "1")]);
    let mut apply = Apply::new(Value::Null, Value::Value(planned.clone()), s("id"));
    assert!(apply.is_done());
    let ran = drive(&mut apply, |_| panic!("transport called"));
    assert!(ran.is_empty());

    let mut prior = planned.clone();
    prior.id = known("r1");
    let mut changed = prior.clone();
    changed.inputs = map(&[("a", "2")]);
    let mut apply = Apply::new(Value::Value(prior.clone()), Value::Value(changed), s("id"));
    assert!(drive(&mut apply, |_| panic!("transport called")).is_empty());
    let mut apply = Apply::new(Value::Value(prior), Value::Null, s("id"));
    assert!(drive(&mut apply, |_| panic!("transport called")).is_empty());
}

fn validate_one(c: Value<String>) -> (Option<()>, Vec<Diagnostic>) {
    let mut diags = Vec::new();
    let sc = StateCmd { cmd: c, env: Value::Null };
    let r = sc.validate(&mut diags, vec![PathStep::Attribute(s("create"))]);
    (r, diags)
}

#[test]
fn validate_null_command_is_one_error() {
    let (r, diags) = validate_one(Value::Null);
    assert_eq!(r, None);
    assert_eq!(diags.len(), 1);
    assert_eq!(diags[0].severity, Severity::Error);
    assert_eq!(diags[0].path, vec![PathStep::Attribute(s("create")), PathStep::Attribute(s("cmd"))]);
}

#[test]
fn validate_unknown_command_is_one_warning() {
    let (r, diags) = validate_one(Value::Unknown);
    assert_eq!(r, Some(()));
    assert_eq!(diags.len(), 1);
    assert_eq!(diags[0].severity, Severity::Warning);
    assert_eq!(diags[0].path, vec![PathStep::Attribute(s("create")), PathStep::Attribute(s("cmd"))]);
}

#[test]
fn validate_known_command_is_clean() {
    let (r, diags) = validate_one(known("true"));
    assert_eq!(r, Some(()));
    assert!(diags.is_empty());
}

#[test]
fn validate_whole_state_checks_every_entry() {
    let mut st = empty_state();
    st.create = Value::Value(StateCmd { cmd: Value::Unknown, env: Value::Null });
    st.destroy = Value::Value(cmd("rm"));
    st.read = vec![
        (s("x"), Value::Value(StateCmd { cmd: Value::Null, env: Value::Null })),
        (s("y"), Value::Value(cmd("cat y"))),
    ];
    st.update = vec![
        Value::Value(StateUpdate { cmd: StateCmd { cmd: Value::Null, env: Value::Null }, triggers: vec![], reloads: vec![] }),
    ];
    let resource = CmdResource::<()>::new();
    let mut diags = Vec::new();
    let r = resource.validate(&mut diags, &Value::Value(st));
    assert_eq!(r, None);
    let got: Vec<(Severity, Vec<PathStep>)> = diags.iter().map(|d| (d.severity, d.path.clone())).collect();
    assert_eq!(
        got,
        vec![
            (Severity::Warning, vec![PathStep::Attribute(s("create")), PathStep::Attribute(s("cmd"))]),
            (Severity::Error, vec![PathStep::Attribute(s("read")), PathStep::Key(s("x")), PathStep::Attribute(s("cmd"))]),
            (Severity::Error, vec![PathStep::Attribute(s("update")), PathStep::Index(0), PathStep::Attribute(s("cmd"))]),
        ]
    );
    let mut diags = Vec::new();
    assert_eq!(resource.validate(&mut diags, &Value::Unknown), Some(()));
    assert!(diags.is_empty());
}

fn existing(inputs: &[(&str, &str)]) -> State<()> {
    let mut st = empty_state();
    st.id = known("r1");
    st.inputs = map(inputs);
    st
}

#[test]
fn untargeted_update_runs_on_any_change() {
    let prior = existing(&[("a", "1"), ("b", "1")]);
    let mut planned = existing(&[("a", "1"), ("b", "2")]);
    planned.update = vec![update("u", &[], &[])];
    let ops = schedule(&Value::Value(prior.clone()), &Value::Value(planned.clone()));
    assert_eq!(ops, vec![Op::Update(0)]);
    planned.inputs = prior.inputs.clone();
    let ops = schedule(&Value::Value(prior.clone()), &Value::Value(planned.clone()));
    assert!(ops.is_empty());
    planned.inputs = map(&[("a", "1"), ("b", "1"), ("c", "new")]);
    let ops = schedule(&Value::Value(prior), &Value::Value(planned));
    assert_eq!(ops, vec![Op::Update(0)]);
}

#[test]
fn targeted_update_runs_only_on_its_trigger() {
    let prior = existing(&[("a", "1"), ("b", "1")]);
    let mut planned = existing(&[("a", "1"), ("b", "2")]);
    planned.update = vec![update("u", &["a"], &[])];
    assert!(schedule(&Value::Value(prior.clone()), &Value::Value(planned.clone())).is_empty());
    planned.inputs = map(&[("a", "2"), ("b", "1")]);
    assert_eq!(schedule(&Value::Value(prior.clone()), &Value::Value(planned.clone())), vec![Op::Update(0)]);
    planned.inputs = vec![(s("a"), Value::Unknown), (s("b"), known("1"))];
    assert_eq!(schedule(&Value::Value(prior), &Value::Value(planned)), vec![Op::Update(0)]);
}

#[test]
fn input_change_detection() {
    let a = map(&[("a", "1"), ("b", "1")]);
    let b = map(&[("b", "1"), ("a", "1")]);
    assert!(!any_input_changed_exec(&a, &b));
    let c = map(&[("a", "1")]);
    assert!(any_input_changed_exec(&a, &c));
    assert!(input_changed_exec(&a, &c, &s("b")));
    assert!(!input_changed_exec(&a, &c, &s("a")));
    let d = vec![(s("a"), Value::Null), (s("b"), known("1"))];
    assert!(input_changed_exec(&a, &d, &s("a")));
}

#[test]
fn reload_changes_only_its_output() {
    let mut prior = existing(&[("a", "1")]);
    prior.state = map(&[("x", "old-x"), ("z", "old-z")]);
    prior.read = vec![
        (s("x"), Value::Value(cmd("echo new-x"))),
        (s("z"), Value::Value(cmd("echo new-z"))),
    ];
    let mut proposed = prior.clone();
    proposed.inputs = map(&[("a", "2")]);
    proposed.update = vec![update("echo updating", &[], &["x"])];
    let resource = CmdResource::<()>::new();
    let planned = resource.plan(&Value::Value(prior.clone()), Value::Value(proposed));
    assert_eq!(output(&planned, "x"), Some(Value::Unknown));
    assert_eq!(output(&planned, "z"), Some(known("old-z")));
    let mut apply = Apply::new(Value::Value(prior), planned, s("unused"));
    assert_eq!(apply.ops, vec![Op::Update(0), Op::Read(0)]);
    drive(&mut apply, echo);
    let (st, _, success) = apply.finish();
    assert!(success);
    assert_eq!(output(&st, "x"), Some(known("new-x")));
    assert_eq!(output(&st, "z"), Some(known("old-z")));
    match st {
        Value::Value(x) => assert_eq!(x.id, known("r1")),
        _ => panic!("no state"),
    }
}

#[test]
fn later_reload_wins() {
    let mut prior = existing(&[("a", "1")]);
    prior.state = map(&[("y", "start")]);
    prior.read = vec![(s("y"), Value::Value(cmd("cat y")))];
    let mut planned = prior.clone();
    planned.inputs = map(&[("a", "2")]);
    planned.update = vec![update("update A", &["a"], &["y"]), update("update B", &[], &["y"])];
    let mut apply = Apply::new(Value::Value(prior), Value::Value(planned), s("unused"));
    assert_eq!(apply.ops, vec![Op::Update(0), Op::Read(0), Op::Update(1), Op::Read(0)]);
    let mut last = String::new();
    let ran = drive(&mut apply, |c| {
        let line = c.argv[2].clone();
        if line == "cat y" {
            ok(&format!("after {}\n", last))
        } else {
            last = line;
            ok("")
        }
    });
    let lines: Vec<String> = ran.iter().map(|c| c.argv[2].clone()).collect();
    assert_eq!(lines, vec![s("update A"), s("cat y"), s("update B"), s("cat y")]);
    let (st, _, _) = apply.finish();
    assert_eq!(output(&st, "y"), Some(known("after update B")));
}

#[test]
fn failed_update_stops_the_apply() {
    let prior = existing(&[("a", "1")]);
    let mut planned = existing(&[("a", "2")]);
    planned.update = vec![update("first", &[], &[]), update("second", &[], &[])];
    let mut apply = Apply::new(Value::Value(prior), Value::Value(planned.clone()), s("unused"));
    let ran = drive(&mut apply, |_| Event::TransportFailed(s("connection refused")));
    assert_eq!(ran.len(), 1);
    let (st, diags, success) = apply.finish();
    assert!(!success);
    assert_eq!(st, Value::Value(planned));
    assert_eq!(diags.len(), 1);
    assert_eq!(diags[0].path, vec![PathStep::Attribute(s("update")), PathStep::Index(0)]);
    assert_eq!(diags[0].detail, s("connection refused"));
}

#[test]
fn failed_create_leaves_no_id() {
    let mut planned = empty_state();
    planned.create = Value::Value(cmd("false"));
    planned.read = vec![(s("out"), Value::Value(cmd("echo v")))];
    let resource = CmdResource::<()>::new();
    let planned = resource.plan(&Value::Null, Value::Value(planned));
    let mut apply = Apply::new(Value::Null, planned, s("id-1"));
    let ran = drive(&mut apply, |_| Event::Executed(ExecutionResult { status: 2, stdout: vec![], stderr: vec![] }));
    assert_eq!(ran.len(), 1);
    let (st, diags, success) = apply.finish();
    assert!(!success);
    assert_eq!(diags[0].path, vec![PathStep::Attribute(s("create"))]);
    match st {
        Value::Value(x) => assert_eq!(x.id, Value::Unknown),
        _ => panic!("no state"),
    }
}

#[test]
fn failed_read_without_prior_value_is_fatal() {
    let mut planned = empty_state();
    planned.read = vec![
        (s("bad"), Value::Value(cmd("exit 1"))),
        (s("good"), Value::Value(cmd("echo fine"))),
    ];
    let mut apply = Apply::new(Value::Null, Value::Value(planned), s("id"));
    let ran = drive(&mut apply, |c| {
        if c.argv[2] == "exit 1" {
            Event::Executed(ExecutionResult { status: 1, stdout: vec![], stderr: vec![] })
        } else {
            echo(c)
        }
    });
    assert_eq!(ran.len(), 1);
    let (st, diags, success) = apply.finish();
    assert!(!success);
    assert_eq!(diags.len(), 1);
    assert_eq!(diags[0].path, vec![PathStep::Attribute(s("read")), PathStep::Key(s("bad"))]);
    assert_eq!(output(&st, "bad"), None);
}

#[test]
fn failed_read_with_prior_value_is_not_fatal() {
    let mut st = existing(&[("a", "1")]);
    st.state = map(&[("bad", "old"), ("good", "old")]);
    st.read = vec![
        (s("bad"), Value::Value(cmd("exit 1"))),
        (s("good"), Value::Value(cmd("echo fine"))),
    ];
    let resource = CmdResource::<()>::new();
    let mut apply = resource.read(Value::Value(st), &vec![s("bad"), s("good")]);
    let ran = drive(&mut apply, |c| {
        if c.argv[2] == "exit 1" {
            Event::Executed(ExecutionResult { status: 1, stdout: vec![], stderr: vec![] })
        } else {
            echo(c)
        }
    });
    assert_eq!(ran.len(), 2);
    let (out, diags, success) = apply.finish();
    assert!(success);
    assert_eq!(diags.len(), 1);
    assert_eq!(diags[0].path, vec![PathStep::Attribute(s("read")), PathStep::Key(s("bad"))]);
    assert_eq!(output(&out, "bad"), Some(known("old")));
    assert_eq!(output(&out, "good"), Some(known("fine")));
}

#[test]
fn creation_without_create_gets_an_id() {
    let mut planned = empty_state();
    planned.inputs = map(&[("a", "1")]);
    let resource = CmdResource::<()>::new();
    let planned = resource.plan(&Value::Null, Value::Value(planned));
    let mut apply = Apply::new(Value::Null, planned, s("fresh"));
    assert!(drive(&mut apply, |_| panic!("transport called")).is_empty());
    let (st, _, success) = apply.finish();
    assert!(success);
    match st {
        Value::Value(x) => assert_eq!(x.id, known("fresh")),
        _ => panic!("no state"),
    }
}

#[test]
fn apply_takes_outputs_from_the_prior_state() {
    let mut prior = existing(&[("a", "1")]);
    prior.state = map(&[("x", "prior-x")]);
    let mut planned = prior.clone();
    planned.state = map(&[("x", "planned-x")]);
    let mut apply = Apply::new(Value::Value(prior), Value::Value(planned), s("unused"));
    assert!(drive(&mut apply, |_| panic!("transport called")).is_empty());
    assert_eq!(output(&apply.finish().0, "x"), Some(known("prior-x")));
}

#[test]
fn unknown_command_is_not_run() {
    let mut planned = empty_state();
    planned.create = Value::Value(StateCmd { cmd: Value::Unknown, env: Value::Null });
    let mut apply = Apply::new(Value::Null, Value::Value(planned), s("id"));
    assert_eq!(apply.command(), None);
    apply.record(Event::NotRun);
    assert!(apply.is_done());
    let (_, diags, success) = apply.finish();
    assert!(!success);
    assert_eq!(diags[0].severity, Severity::Error);
}

#[test]
fn command_carries_known_environment() {
    let mut planned = empty_state();
    planned.create = Value::Value(StateCmd {
        cmd: known("env"),
        env: Value::Value(vec![(s("A"), known("1")), (s("B"), Value::Null), (s("C"), known("3"))]),
    });
    let apply = Apply::new(Value::Null, Value::Value(planned.clone()), s("id"));
    let c = apply.command().unwrap();
    assert_eq!(c.env, vec![(s("A"), s("1")), (s("C"), s("3"))]);

    planned.create = Value::Value(StateCmd { cmd: known("env"), env: Value::Unknown });
    let apply = Apply::new(Value::Null, Value::Value(planned.clone()), s("id"));
    assert_eq!(apply.command(), None);

    planned.create = Value::Value(StateCmd { cmd: known("env"), env: Value::Value(vec![(s("B"), Value::Unknown)]) });
    let mut apply = Apply::new(Value::Null, Value::Value(planned), s("id"));
    assert_eq!(apply.command(), None);
    apply.record(Event::NotRun);
    let (_, diags, success) = apply.finish();
    assert!(!success);
    assert_eq!(diags[0].path, vec![PathStep::Attribute(s("create"))]);
}

#[test]
fn transport_failure_during_read_is_fatal() {
    let mut st = existing(&[("a", "1")]);
    st.read = vec![
        (s("x"), Value::Value(cmd("echo x"))),
        (s("y"), Value::Value(cmd("echo y"))),
    ];
    let resource = CmdResource::<()>::new();
    let mut apply = resource.read(Value::Value(st.clone()), &vec![]);
    let ran = drive(&mut apply, |_| Event::TransportFailed(s("no route")));
    assert_eq!(ran.len(), 1);
    let (out, diags, success) = apply.finish();
    assert!(!success);
    assert_eq!(out, Value::Value(st));
    assert_eq!(diags.len(), 1);
    assert_eq!(diags[0].path, vec![PathStep::Attribute(s("read")), PathStep::Key(s("x"))]);
}

#[test]
fn apply_keeps_the_prior_id() {
    let prior = existing(&[("a", "1")]);
    let mut planned = prior.clone();
    planned.id = known("other");
    let mut apply = Apply::new(Value::Value(prior), Value::Value(planned), s("unused"));
    assert!(drive(&mut apply, |_| panic!("transport called")).is_empty());
    match apply.finish().0 {
        Value::Value(x) => assert_eq!(x.id, known("r1")),
        _ => panic!("no state"),
    }
}

#[test]
fn validate_keeps_earlier_diagnostics_and_states_text() {
    let earlier = Diagnostic {
        severity: Severity::Warning,
        summary: s("earlier"),
        detail: s("kept"),
        path: vec![PathStep::Attribute(s("inputs"))],
    };
    let mut diags = vec![earlier.clone()];
    let sc = StateCmd { cmd: Value::Null, env: Value::Null };
    assert_eq!(sc.validate(&mut diags, vec![]), None);
    assert_eq!(diags.len(), 2);
    assert_eq!(diags[0], earlier);
    assert_eq!(diags[1].summary, s("`cmd` cannot be null"));
    assert_eq!(diags[1].path, vec![PathStep::Attribute(s("cmd"))]);

    let up = StateUpdate {
        cmd: StateCmd { cmd: Value::Unknown, env: Value::Null },
        triggers: vec![s("a")],
        reloads: vec![s("b")],
    };
    assert_eq!(up.validate(&mut diags, vec![]), Some(()));
    assert_eq!(diags.len(), 3);
    assert_eq!(diags[2].summary, s("`cmd` is not known during planning"));
    assert_eq!(diags[0], earlier);
}

#[test]
fn plan_for_creation_marks_computed_values_unknown() {
    let mut proposed = empty_state();
    proposed.read = vec![(s("o1"), Value::Value(cmd("a"))), (s("o2"), Value::Null)];
    let resource = CmdResource::<()>::new();
    match resource.plan(&Value::Null, Value::Value(proposed)) {
        Value::Value(p) => {
            assert_eq!(p.id, Value::Unknown);
            assert_eq!(p.state, vec![(s("o1"), Value::Unknown)]);
        }
        _ => panic!("no plan"),
    }
    assert_eq!(resource.plan(&Value::Null, Value::Null), Value::Null);
}

#[test]
fn read_refreshes_only_missing_outputs() {
    let resource = CmdResource::<()>::new();
    let mut st = existing(&[("a", "1")]);
    st.state = vec![(s("x"), known("kept")), (s("y"), Value::Unknown)];
    st.read = vec![
        (s("x"), Value::Value(cmd("echo fresh-x"))),
        (s("y"), Value::Value(cmd("echo fresh-y"))),
        (s("z"), Value::Value(cmd("echo fresh-z"))),
    ];
    let mut apply = resource.read(Value::Value(st.clone()), &vec![]);
    assert_eq!(apply.ops, vec![Op::Read(1), Op::Read(2)]);
    drive(&mut apply, echo);
    let (out, diags, success) = apply.finish();
    assert!(success);
    assert!(diags.is_empty());
    assert_eq!(output(&out, "x"), Some(known("kept")));
    assert_eq!(output(&out, "y"), Some(known("fresh-y")));
    assert_eq!(output(&out, "z"), Some(known("fresh-z")));

    st.state = vec![(s("x"), known("1")), (s("y"), known("2")), (s("z"), known("3"))];
    let apply = resource.read(Value::Value(st.clone()), &vec![]);
    assert!(apply.is_done());
    assert_eq!(apply.finish().0, Value::Value(st.clone()));

    let mut apply = resource.read(Value::Value(st), &vec![s("x")]);
    assert_eq!(apply.ops, vec![Op::Read(0)]);
    drive(&mut apply, echo);
    let out = apply.finish().0;
    assert_eq!(output(&out, "x"), Some(known("fresh-x")));
    assert_eq!(output(&out, "y"), Some(known("2")));
}

#[test]
fn read_output_drops_final_line_break() {
    assert_eq!(output_text(&b"out-val\n".to_vec()), s("out-val"));
    assert_eq!(output_text(&b"two\nlines\n\n".to_vec()), s("two\nlines\n"));
    assert_eq!(output_text(&b"plain".to_vec()), s("plain"));
    assert_eq!(output_text(&vec![0x66, 0xff, 0x0a]), s("f\u{fffd}"));
    assert_eq!(output_text(&vec![]), s(""));
}

#[test]
fn insert_replaces_one_key() {
    let mut m = map(&[("a", "1"), ("b", "2"), ("a", "3")]);
    assert_eq!(get(&m, &s("a")), Some(&known("3")));
    insert(&mut m, s("a"), known("9"));
    assert_eq!(get(&m, &s("a")), Some(&known("9")));
    assert_eq!(get(&m, &s("b")), Some(&known("2")));
    assert_eq!(get(&m, &s("c")), None);
}

#[test]
fn validate_rejects_a_repeated_read_key() {
    let mut st = empty_state();
    st.read = vec![
        (s("x"), Value::Value(cmd("echo 1"))),
        (s("y"), Value::Value(cmd("echo 2"))),
        (s("x"), Value::Value(cmd("echo 3"))),
    ];
    let resource = CmdResource::<()>::new();
    let mut diags = Vec::new();
    assert_eq!(resource.validate(&mut diags, &Value::Value(st)), None);
    assert_eq!(diags.len(), 1);
    assert_eq!(diags[0].severity, Severity::Error);
    assert_eq!(diags[0].summary, s("duplicate key in `read`"));
    assert_eq!(diags[0].path, vec![PathStep::Attribute(s("read")), PathStep::Key(s("x"))]);
}

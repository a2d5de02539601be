//! Applying a plan one command at a time.
//!
//! The engine decides; its caller runs. `Apply::command` names the command
//! to run next, the caller runs it over its transport and hands the outcome
//! to `Apply::record`, until `Apply::is_done`.
use vstd::prelude::*;

use crate::connection::{decode_lossy, output_text, read_value, ExecutionResult};
use crate::diagnostics::{diags_view, push_diag, AttributePath, Diagnostics, PathStep, Severity, StepView};
use crate::schedule::{is_creation, plan_ops, read_plan, read_schedule, schedule, Op};
use crate::state::{State, StateCmd, StateRead};
use crate::value::{get, insert, lookup, Value};

verus! {

/// A command ready for a transport: its argument vector and environment.
#[derive(Debug, Clone, PartialEq, Eq)]
pub struct Command {
    pub argv: Vec<String>,
    pub env: Vec<(String, String)>,
}

/// What came of running one step.
#[derive(Debug)]
pub enum Event {
    /// The command ran to completion.
    Executed(ExecutionResult),
    /// The transport could not run it.
    TransportFailed(String),
    /// There was no command to run.
    NotRun,
}

/// The known entries of an environment, in order.
pub open spec fn known_env(e: Seq<(String, Value<String>)>) -> Seq<(Seq<char>, Seq<char>)>
    decreases e.len(),
{
    if e.len() == 0 {
        seq![]
    } else {
        known_env(e.drop_last()) + match e.last().1 {
            Value::Value(v) => seq![(e.last().0@, v@)],
            _ => seq![],
        }
    }
}

pub open spec fn env_view(e: Seq<(String, String)>) -> Seq<(Seq<char>, Seq<char>)> {
    e.map_values(|p: (String, String)| (p.0@, p.1@))
}

/// The command block that step `op` runs in state `st`, if there is one.
pub open spec fn op_cmd<T>(op: Op, st: Value<State<T>>) -> Option<StateCmd> {
    match st {
        Value::Value(s) => match op {
            Op::Create => match s.create {
                Value::Value(c) => Some(c),
                _ => None,
            },
            Op::Destroy => match s.destroy {
                Value::Value(c) => Some(c),
                _ => None,
            },
            Op::Read(k) => if k < s.read@.len() {
                match s.read@[k as int].1 {
                    Value::Value(c) => Some(c),
                    _ => None,
                }
            } else {
                None
            },
            Op::Update(j) => if j < s.update@.len() {
                match s.update@[j as int] {
                    Value::Value(u) => Some(u.cmd),
                    _ => None,
                }
            } else {
                None
            },
        },
        _ => None,
    }
}

/// No entry of an environment is still unknown.
pub open spec fn env_known(e: Seq<(String, Value<String>)>) -> bool {
    forall|i: int| 0 <= i < e.len() ==> !(#[trigger] e[i].1 is Unknown)
}

/// The entries of an environment; an unset one has none.
pub open spec fn env_entries(env: Value<Vec<(String, Value<String>)>>) -> Seq<(String, Value<String>)> {
    match env {
        Value::Value(m) => m@,
        _ => seq![],
    }
}

/// Step `op` has a known command to run, in an environment that is known
/// (or unset) and has no unknown entry.
pub open spec fn runnable<T>(op: Op, st: Value<State<T>>) -> bool {
    op_cmd(op, st) matches Some(c) && c.cmd is Value && !(c.env is Unknown) && env_known(
        env_entries(c.env),
    )
}

fn env_is_known(e: &Vec<(String, Value<String>)>) -> (r: bool)
    ensures
        r == env_known(e@),
{
    let mut i: usize = 0;
    while i < e.len()
        invariant
            i <= e.len(),
            forall|x: int| 0 <= x < i ==> !(#[trigger] e@[x].1 is Unknown),
        decreases e.len() - i,
    {
        if e[i].1.is_unknown() {
            return false;
        }
        i = i + 1;
    }
    true
}

/// The attribute a step's diagnostics point at.
pub open spec fn op_path<T>(op: Op, st: Value<State<T>>) -> Seq<StepView> {
    match op {
        Op::Create => seq![StepView::Attribute("create"@)],
        Op::Destroy => seq![StepView::Attribute("destroy"@)],
        Op::Update(j) => seq![StepView::Attribute("update"@), StepView::Index(j as u64)],
        Op::Read(k) => match st {
            Value::Value(s) => if k < s.read@.len() {
                seq![StepView::Attribute("read"@), StepView::Key(s.read@[k as int].0@)]
            } else {
                seq![StepView::Attribute("read"@)]
            },
            _ => seq![StepView::Attribute("read"@)],
        },
    }
}

/// The command ran and exited with status zero.
pub open spec fn succeeded(ev: Event) -> bool {
    ev matches Event::Executed(r) && r.status == 0
}

/// An apply in progress: the state reached so far, the steps still to take
/// and the diagnostics recorded on the way.
pub struct Apply<T> {
    pub state: Value<State<T>>,
    pub ops: Vec<Op>,
    pub next: usize,
    pub failed: bool,
    pub diags: Diagnostics,
    pub new_id: String,
}

fn string_of(s: &str) -> (r: String)
    ensures
        r@ == s@,
{
    String::from_str(s)
}

fn copy_env(e: &Vec<(String, Value<String>)>) -> (r: Vec<(String, String)>)
    ensures
        env_view(r@) == known_env(e@),
{
    let mut r: Vec<(String, String)> = Vec::new();
    let mut i: usize = 0;
    while i < e.len()
        invariant
            i <= e.len(),
            env_view(r@) == known_env(e@.subrange(0, i as int)),
        decreases e.len() - i,
    {
        assert(e@.subrange(0, i + 1).drop_last() =~= e@.subrange(0, i as int));
        let ghost before = r@;
        if let Value::Value(v) = &e[i].1 {
            r.push((e[i].0.clone(), v.clone()));
        }
        assert(env_view(r@) =~= env_view(before) + match e@[i as int].1 {
            Value::Value(v) => seq![(e@[i as int].0@, v@)],
            _ => seq![],
        });
        i = i + 1;
    }
    assert(e@.subrange(0, i as int) =~= e@);
    r
}

fn op_attr_path<T>(op: Op, st: &Value<State<T>>) -> (r: AttributePath)
    ensures
        r@.map_values(|s: PathStep| s@) == op_path(op, *st),
{
    let mut p: AttributePath = Vec::new();
    match op {
        Op::Create => {
            p.push(PathStep::Attribute(string_of("create")));
        },
        Op::Destroy => {
            p.push(PathStep::Attribute(string_of("destroy")));
        },
        Op::Update(j) => {
            p.push(PathStep::Attribute(string_of("update")));
            p.push(PathStep::Index(j as u64));
        },
        Op::Read(k) => {
            p.push(PathStep::Attribute(string_of("read")));
            if let Value::Value(s) = st {
                if k < s.read.len() {
                    p.push(PathStep::Key(s.read[k].0.clone()));
                }
            }
        },
    }
    assert(p@.map_values(|s: PathStep| s@) =~= op_path(op, *st));
    p
}

impl<T> Apply<T> {
    /// Starts applying `planned` over `prior`. The run starts from the planned
    /// state, keeping the prior id of an existing resource, or, to destroy,
    /// from the prior state; `new_id` is the id a successful create gives the
    /// resource.
    pub fn new(prior: Value<State<T>>, planned: Value<State<T>>, new_id: String) -> (r: Self)
        requires
            new_id@.len() > 0,
        ensures
            r.ops@ == plan_ops(prior, planned),
            r.state == start_state(prior, planned, new_id),
            r.next == 0,
            !r.failed,
            r.diags@.len() == 0,
            r.new_id == new_id,
    {
        let ops = schedule(&prior, &planned);
        let state = match (prior, planned) {
            (Value::Value(p), Value::Value(mut n)) if p.id.is_value() => {
                n.id = p.id;
                n.state = p.state;
                Value::Value(n)
            },
            (prior, Value::Null) => prior,
            (prior, Value::Unknown) => prior,
            (_, Value::Value(mut n)) => {
                n.id = if n.create.is_value() {
                    Value::Unknown
                } else {
                    Value::Value(new_id.clone())
                };
                Value::Value(n)
            },
        };
        Apply { state, ops, next: 0, failed: false, diags: Vec::new(), new_id }
    }

    /// Starts refreshing the outputs of `state` that have no known value or
    /// are named in `requested`.
    pub fn refresh(state: Value<State<T>>, requested: &Vec<String>) -> (r: Self)
        ensures
            r.ops@ == read_plan(state, requested@),
            r.state == state,
            r.next == 0,
            !r.failed,
            r.diags@.len() == 0,
    {
        let ops = read_schedule(&state, requested);
        Apply { state, ops, next: 0, failed: false, diags: Vec::new(), new_id: String::new() }
    }

    pub open spec fn done(&self) -> bool {
        self.failed || self.next >= self.ops@.len()
    }

    /// Whether nothing is left to run: every step was taken, or one failed.
    pub fn is_done(&self) -> (r: bool)
        ensures
            r == self.done(),
    {
        self.failed || self.next >= self.ops.len()
    }

    /// The command of the next step, or `None` when that step has no known
    /// command, or its environment or one of its entries is not known yet (its
    /// outcome is then `Event::NotRun`). An unset environment has no entries,
    /// and unset entries are left out.
    pub fn command(&self) -> (r: Option<Command>)
        requires
            !self.done(),
        ensures
            r is Some <==> runnable(self.ops@[self.next as int], self.state),
            r matches Some(c) ==> {
                let sc = op_cmd(self.ops@[self.next as int], self.state)->Some_0;
                &&& c.argv@.len() == 3
                &&& c.argv@[0]@ == "sh"@
                &&& c.argv@[1]@ == "-c"@
                &&& c.argv@[2]@ == sc.cmd->Value_0@
                &&& env_view(c.env@) == known_env(env_entries(sc.env))
            },
    {
        let sc: &StateCmd = match (&self.state, self.ops[self.next]) {
            (Value::Value(s), Op::Create) => match &s.create {
                Value::Value(c) => c,
                _ => return None,
            },
            (Value::Value(s), Op::Destroy) => match &s.destroy {
                Value::Value(c) => c,
                _ => return None,
            },
            (Value::Value(s), Op::Read(k)) => {
                if k >= s.read.len() {
                    return None;
                }
                match &s.read[k].1 {
                    Value::Value(c) => c,
                    _ => return None,
                }
            },
            (Value::Value(s), Op::Update(j)) => {
                if j >= s.update.len() {
                    return None;
                }
                match &s.update[j] {
                    Value::Value(u) => &u.cmd,
                    _ => return None,
                }
            },
            _ => return None,
        };
        let line = match &sc.cmd {
            Value::Value(l) => l.clone(),
            _ => return None,
        };
        let env = match &sc.env {
            Value::Value(m) => {
                if !env_is_known(m) {
                    return None;
                }
                copy_env(m)
            },
            Value::Null => Vec::new(),
            Value::Unknown => return None,
        };
        assert(env_view(env@) =~= known_env(env_entries(sc.env)));
        let mut argv: Vec<String> = Vec::new();
        argv.push(string_of("sh"));
        argv.push(string_of("-c"));
        argv.push(line);
        Some(Command { argv, env })
    }

    /// Takes in the outcome of the next step and moves past it, as
    /// `recorded` says.
    pub fn record(&mut self, event: Event)
        requires
            !old(self).done(),
        ensures
            recorded(*old(self), event, *final(self)),
    {
        let op = self.ops[self.next];
        proof {
            assert(self.next < self.ops.len());
        }
        let runs = self.command().is_some();
        let ok = runs && match &event {
            Event::Executed(r) => r.status == 0,
            _ => false,
        };
        self.next = self.next + 1;
        if ok {
            match op {
                Op::Create => {
                    let id = self.new_id.clone();
                    if let Value::Value(s) = &mut self.state {
                        s.id = Value::Value(id);
                    }
                },
                Op::Destroy => {
                    self.state = Value::Null;
                },
                Op::Update(_) => {},
                Op::Read(k) => {
                    if let Event::Executed(r) = &event {
                        let text = output_text(&r.stdout);
                        if let Value::Value(s) = &mut self.state {
                            let name = s.read[k].0.clone();
                            insert(&mut s.state, name, Value::Value(text));
                        }
                    }
                },
            }
        } else {
            let path = op_attr_path(op, &self.state);
            let (summary, detail) = match &event {
                Event::Executed(r) => ("command failed", decode_lossy(&r.stderr)),
                Event::TransportFailed(m) => ("command could not be run", m.clone()),
                Event::NotRun => ("no known command to run", string_of("")),
            };
            push_diag(&mut self.diags, Severity::Error, summary, detail.as_str(), path);
            let transport_failed = match &event {
                Event::TransportFailed(_) => true,
                _ => false,
            };
            match op {
                Op::Read(k) => {
                    if transport_failed || !output_is_known(&self.state, k) {
                        self.failed = true;
                    }
                },
                _ => {
                    self.failed = true;
                },
            }
        }
    }

    /// Ends the apply: the state reached, the diagnostics, and whether every
    /// fatal step succeeded.
    pub fn finish(self) -> (r: (Value<State<T>>, Diagnostics, bool))
        ensures
            r.0 == self.state,
            r.1 == self.diags,
            r.2 == !self.failed,
    {
        (self.state, self.diags, !self.failed)
    }
}

/// The output of the read at position `k` has a known value in `st`.
pub open spec fn output_known<T>(st: Value<State<T>>, k: usize) -> bool {
    &&& st matches Value::Value(s)
    &&& k < s.read@.len()
    &&& lookup(s.state@, s.read@[k as int].0@) matches Some(Value::Value(_))
}

fn output_is_known<T>(st: &Value<State<T>>, k: usize) -> (r: bool)
    ensures
        r == output_known(*st, k),
{
    match st {
        Value::Value(s) => {
            if k >= s.read.len() {
                return false;
            }
            match get(&s.state, &s.read[k].0) {
                Some(v) => v.is_value(),
                None => false,
            }
        },
        _ => false,
    }
}

/// The state an apply starts from.
/// - To destroy: the prior state.
/// - To create: the planned state. Its id is not known until the create
///   step succeeds; without a create step it is `new_id` from the start.
/// - Otherwise: the planned state, with the id and the outputs of the prior
///   resource. Only the reads of the apply change those outputs.
pub open spec fn start_state<T>(
    prior: Value<State<T>>,
    planned: Value<State<T>>,
    new_id: String,
) -> Value<State<T>> {
    match planned {
        Value::Value(n) => if is_creation(prior) {
            Value::Value(
                State {
                    id: if n.create is Value {
                        Value::Unknown
                    } else {
                        Value::Value(new_id)
                    },
                    ..n
                },
            )
        } else {
            Value::Value(State { id: prior->Value_0.id, state: prior->Value_0.state, ..n })
        },
        _ => prior,
    }
}

/// What recording `event` does to an apply in progress `a`, giving `b`.
///
/// A step succeeds when it had a known command that exited with status
/// zero. Then a create gives the resource its new id, a destroy leaves no
/// resource, an update changes nothing in the state, and a read stores what
/// its command printed as its output, touching no other output. A step that
/// fails records an error at its attribute and leaves the state as it was. It
/// ends the apply, unless it was a read whose output keeps a known value
/// from before and whose transport did not fail.
pub open spec fn recorded<T>(a: Apply<T>, event: Event, b: Apply<T>) -> bool {
    &&& b.ops == a.ops
    &&& b.next == a.next + 1
    &&& b.new_id == a.new_id
    &&& {
        let op = a.ops@[a.next as int];
        let st = a.state;
        if runnable(op, st) && succeeded(event) {
            &&& !b.failed
            &&& b.diags == a.diags
            &&& match op {
                Op::Create => b.state == Value::Value(
                    State { id: Value::Value(a.new_id), ..st->Value_0 },
                ),
                Op::Destroy => b.state is Null,
                Op::Update(_) => b.state == st,
                Op::Read(k) => read_stored(st, b.state, k, (event->Executed_0).stdout@),
            }
        } else {
            &&& b.state == st
            &&& diags_view(b.diags@) == diags_view(a.diags@).push(
                (Severity::Error, op_path(op, st)),
            )
            &&& b.failed == match op {
                Op::Read(k) => event is TransportFailed || !output_known(st, k),
                _ => true,
            }
            &&& b.diags@.len() == a.diags@.len() + 1
            &&& b.diags@.drop_last() == a.diags@
        }
    }
}

/// After an update step and then the read of output `x` both succeed, `x`
/// holds what that read printed, and every other output is as it was before
/// the update ran.
pub proof fn lemma_update_then_reload<T>(
    a0: Apply<T>,
    e1: Event,
    a1: Apply<T>,
    e2: Event,
    a2: Apply<T>,
    j: usize,
    k: usize,
)
    requires
        !a0.done(),
        recorded(a0, e1, a1),
        !a1.done(),
        recorded(a1, e2, a2),
        a0.ops@[a0.next as int] == Op::Update(j),
        a1.ops@[a1.next as int] == Op::Read(k),
        runnable(Op::Update(j), a0.state) && succeeded(e1),
        runnable(Op::Read(k), a1.state) && succeeded(e2),
    ensures
        a0.state is Value,
        a2.state is Value,
        ({
            let s0 = a0.state->Value_0;
            let s2 = a2.state->Value_0;
            let x = s0.read@[k as int].0@;
            &&& lookup(s2.state@, x) matches Some(Value::Value(v)) && v@ == read_value(
                (e2->Executed_0).stdout@,
            )
            &&& forall|y: Seq<char>| y != x ==> #[trigger] lookup(s2.state@, y) == lookup(s0.state@, y)
        }),
{
    assert(a1.state == a0.state);
}

/// `trace` is a run of an apply: each apply in it but the last is not done,
/// and the next one comes from it by recording the matching event.
pub open spec fn is_run<T>(trace: Seq<Apply<T>>, events: Seq<Event>) -> bool {
    &&& trace.len() == events.len() + 1
    &&& forall|m: int|
        0 <= m < events.len() ==> !(#[trigger] trace[m]).done() && recorded(
            trace[m],
            events[m],
            trace[m + 1],
        )
}

/// The step an apply in progress takes next.
pub open spec fn step_op<T>(a: Apply<T>) -> Op {
    a.ops@[a.next as int]
}

/// Recording `e` on `a` is a successful read of the output named `x`, where
/// `reads` are the declared reads.
pub open spec fn writes_output<T>(
    a: Apply<T>,
    e: Event,
    reads: Seq<(String, Value<StateRead>)>,
    x: Seq<char>,
) -> bool {
    step_op(a) matches Op::Read(k) && runnable(Op::Read(k), a.state) && succeeded(e) && k
        < reads.len() && reads[k as int].0@ == x
}

proof fn lemma_output_kept<T>(trace: Seq<Apply<T>>, events: Seq<Event>, i: int, k: usize, m: int)
    requires
        is_run(trace, events),
        0 <= i < events.len(),
        i < m <= events.len(),
        step_op(trace[i]) == Op::Read(k),
        runnable(Op::Read(k), trace[i].state),
        succeeded(events[i]),
        forall|n: int|
            i < n < events.len() ==> !(step_op(#[trigger] trace[n]) is Destroy) && !writes_output(
                trace[n],
                events[n],
                trace[i].state->Value_0.read@,
                trace[i].state->Value_0.read@[k as int].0@,
            ),
    ensures
        trace[m].state is Value,
        trace[m].state->Value_0.read == trace[i].state->Value_0.read,
        lookup(trace[m].state->Value_0.state@, trace[i].state->Value_0.read@[k as int].0@) == lookup(
            trace[i + 1].state->Value_0.state@,
            trace[i].state->Value_0.read@[k as int].0@,
        ),
    decreases m - i,
{
    assert(!trace[i].done() && recorded(trace[i], events[i], trace[i + 1]));
    if m > i + 1 {
        let n = m - 1;
        lemma_output_kept(trace, events, i, k, n);
        assert(!trace[n].done() && recorded(trace[n], events[n], trace[n + 1]));
        assert(!(step_op(trace[n]) is Destroy));
        let x = trace[i].state->Value_0.read@[k as int].0@;
        assert(!writes_output(trace[n], events[n], trace[i].state->Value_0.read@, x));
    }
}

/// The last successful read of an output in a run decides its value at the
/// end of the run: when no later step destroys the resource or reads that
/// output again with success, the output holds what that read printed. So
/// the reload of a later update wins over that of an earlier one.
pub proof fn lemma_last_read_wins<T>(trace: Seq<Apply<T>>, events: Seq<Event>, i: int, k: usize)
    requires
        is_run(trace, events),
        0 <= i < events.len(),
        step_op(trace[i]) == Op::Read(k),
        runnable(Op::Read(k), trace[i].state),
        succeeded(events[i]),
        forall|n: int|
            i < n < events.len() ==> !(step_op(#[trigger] trace[n]) is Destroy) && !writes_output(
                trace[n],
                events[n],
                trace[i].state->Value_0.read@,
                trace[i].state->Value_0.read@[k as int].0@,
            ),
    ensures
        trace.last().state matches Value::Value(s) && lookup(
            s.state@,
            trace[i].state->Value_0.read@[k as int].0@,
        ) matches Some(Value::Value(v)) && v@ == read_value((events[i]->Executed_0).stdout@),
{
    lemma_output_kept(trace, events, i, k, events.len() as int);
    assert(!trace[i].done() && recorded(trace[i], events[i], trace[i + 1]));
}

proof fn lemma_unread_kept<T>(trace: Seq<Apply<T>>, events: Seq<Event>, x: Seq<char>, m: int)
    requires
        is_run(trace, events),
        trace[0].state is Value,
        0 <= m <= events.len(),
        forall|n: int|
            0 <= n < events.len() ==> !(step_op(#[trigger] trace[n]) is Destroy) && !writes_output(
                trace[n],
                events[n],
                trace[0].state->Value_0.read@,
                x,
            ),
    ensures
        trace[m].state is Value,
        trace[m].state->Value_0.read == trace[0].state->Value_0.read,
        lookup(trace[m].state->Value_0.state@, x) == lookup(trace[0].state->Value_0.state@, x),
    decreases m,
{
    if m > 0 {
        let n = m - 1;
        lemma_unread_kept(trace, events, x, n);
        assert(!trace[n].done() && recorded(trace[n], events[n], trace[n + 1]));
        assert(!(step_op(trace[n]) is Destroy));
        assert(!writes_output(trace[n], events[n], trace[0].state->Value_0.read@, x));
    }
}

/// An output that no step of a run reads with success keeps, at the end of
/// the run, the value it had at its start, as long as the run destroys
/// nothing. With `Apply::new`, the start is the prior state's outputs.
pub proof fn lemma_unread_output_kept<T>(trace: Seq<Apply<T>>, events: Seq<Event>, x: Seq<char>)
    requires
        is_run(trace, events),
        trace[0].state is Value,
        forall|n: int|
            0 <= n < events.len() ==> !(step_op(#[trigger] trace[n]) is Destroy) && !writes_output(
                trace[n],
                events[n],
                trace[0].state->Value_0.read@,
                x,
            ),
    ensures
        trace.last().state matches Value::Value(s) && lookup(s.state@, x) == lookup(
            trace[0].state->Value_0.state@,
            x,
        ),
{
    lemma_unread_kept(trace, events, x, events.len() as int);
}

/// After a read at position `k` succeeded with output `out`, the state is the
/// same but for the read's output, which holds the decoded output.
pub open spec fn read_stored<T>(st: Value<State<T>>, st2: Value<State<T>>, k: usize, out: Seq<u8>) -> bool {
    &&& st matches Value::Value(s)
    &&& st2 matches Value::Value(s2)
    &&& s2 == State { state: s2.state, ..s }
    &&& lookup(s2.state@, s.read@[k as int].0@) matches Some(Value::Value(x))
    &&& x@ == read_value(out)
    &&& forall|j: Seq<char>| j != s.read@[k as int].0@ ==> #[trigger] lookup(s2.state@, j) == lookup(s.state@, j)
}

} // verus!

//! The lifecycle of a command-defined resource: validation, reading,
//! planning and applying.
use vstd::prelude::*;

use crate::diagnostics::{
    diags_view, no_error, path_view, push_diag, AttributePath, Diagnostics, PathStep, Severity,
    StepView,
};
use crate::state::{
    block_diags, block_diags_keyed, dup_diag_at, dup_diags, key_before, lemma_cmd_diags_error, lemma_no_error_concat, reads_diags,
    state_diags, update_diags_at, updates_diags, Diag, State, StateRead, StateUpdate,
};
use crate::apply::Apply;
use crate::schedule::{is_creation, plan_ops, read_plan, schedule, Op};
use crate::value::{copy_string_value, insert, lookup, Value, ValueMap};

verus! {

/// A resource whose every operation is a user-supplied command, run over a
/// transport configured by `T`.
#[derive(Debug)]
pub struct CmdResource<T> {
    ph: std::marker::PhantomData<T>,
}

fn attr_path(name: &str) -> (r: AttributePath)
    ensures
        r@.len() == 1,
        path_view(r@) == seq![StepView::Attribute(name@)],
{
    let mut p: AttributePath = Vec::new();
    p.push(PathStep::Attribute(String::from_str(name)));
    assert(path_view(p@) =~= seq![StepView::Attribute(name@)]);
    p
}

impl<T> CmdResource<T> {
    pub fn new() -> Self {
        CmdResource { ph: std::marker::PhantomData }
    }

    /// Validates every command of a configuration: create, destroy, each read
    /// (tagged by its key) and each update (tagged by its position). A read
    /// key used by an earlier entry too is an error at that key. A bad
    /// entry does not stop the others from being checked; the result is a
    /// failure when any of them recorded an error. The transport's own
    /// configuration is checked by the transport.
    pub fn validate(&self, diags: &mut Diagnostics, config: &Value<State<T>>) -> (r: Option<()>)
        ensures
            match config {
                Value::Value(s) => {
                    &&& diags_view(final(diags)@) == diags_view(old(diags)@) + state_diags(*s)
                    &&& (r is Some <==> no_error(state_diags(*s)))
                    &&& final(diags)@.subrange(0, old(diags)@.len() as int) == old(diags)@
                },
                _ => final(diags)@ == old(diags)@ && r is Some,
            },
    {
        let s = match config {
            Value::Value(s) => s,
            _ => return Some(()),
        };
        let ghost start = diags_view(diags@);
        let ghost d0 = diags@;
        let ghost n0 = d0.len() as int;
        let mut ok = true;
        if let Value::Value(create) = &s.create {
            let r = create.validate(diags, attr_path("create"));
            assert(diags@.subrange(0, n0) =~= d0);
            proof {
                lemma_cmd_diags_error(create.cmd, seq![StepView::Attribute("create"@)]);
            }
            ok = r.is_some();
        }
        let ghost acc1 = block_diags(s.create, "create"@);
        assert(diags_view(diags@) =~= start + acc1);
        assert(ok == no_error(acc1));
        if let Value::Value(destroy) = &s.destroy {
            let ghost prev = diags@;
            let r = destroy.validate(diags, attr_path("destroy"));
            assert(diags@.subrange(0, n0) =~= prev.subrange(0, n0));
            proof {
                lemma_cmd_diags_error(destroy.cmd, seq![StepView::Attribute("destroy"@)]);
            }
            ok = ok && r.is_some();
        }
        let ghost acc2 = acc1 + block_diags(s.destroy, "destroy"@);
        assert(start + acc1 + block_diags(s.destroy, "destroy"@) =~= start + acc2);
        proof {
            lemma_no_error_concat(acc1, block_diags(s.destroy, "destroy"@));
        }
        assert(diags_view(diags@) =~= start + acc2);
        assert(ok == no_error(acc2));
        let mut i: usize = 0;
        while i < s.read.len()
            invariant
                i <= s.read.len(),
                diags_view(diags@) =~= start + acc2 + reads_diags(s.read@.subrange(0, i as int)),
                ok == no_error(acc2 + reads_diags(s.read@.subrange(0, i as int))),
                n0 == d0.len(),
                n0 <= diags@.len(),
                diags@.subrange(0, n0) == d0,
            decreases s.read.len() - i,
        {
            let ghost pre = acc2 + reads_diags(s.read@.subrange(0, i as int));
            assert(s.read@.subrange(0, i + 1).drop_last() =~= s.read@.subrange(0, i as int));
            let (name, read) = &s.read[i];
            if let Value::Value(read) = read {
                let mut p = attr_path("read");
                let ghost p0 = p@;
                p.push(PathStep::Key(name.clone()));
                proof {
                    reveal_strlit("read");
                    assert(path_view(p0)[0] == p0[0]@);
                    assert(p@[0] == p0[0]);
                }
                assert(path_view(p@) =~= seq![StepView::Attribute("read"@), StepView::Key(name@)]);
                let ghost prev = diags@;
                let r = read.validate(diags, p);
                assert(diags@.subrange(0, n0) =~= prev.subrange(0, n0));
                ok = ok && r.is_some();
            }
            proof {
                reveal_strlit("read");
                lemma_keyed(s.read@[i as int]);
                lemma_no_error_concat(pre, block_diags_keyed(s.read@[i as int]));
            }
            assert(pre + block_diags_keyed(s.read@[i as int]) =~= acc2 + reads_diags(s.read@.subrange(0, i + 1)));
            assert(start + pre + block_diags_keyed(s.read@[i as int]) =~= start + (pre + block_diags_keyed(s.read@[i as int])));
            i = i + 1;
        }
        assert(s.read@.subrange(0, s.read.len() as int) =~= s.read@);
        let ghost acc2b = acc2 + reads_diags(s.read@);
        let mut i: usize = 0;
        while i < s.read.len()
            invariant
                i <= s.read.len(),
                diags_view(diags@) =~= start + acc2b + dup_diags(s.read@, i as nat),
                ok == no_error(acc2b + dup_diags(s.read@, i as nat)),
                n0 == d0.len(),
                n0 <= diags@.len(),
                diags@.subrange(0, n0) == d0,
            decreases s.read.len() - i,
        {
            let ghost pre = acc2b + dup_diags(s.read@, i as nat);
            let ghost prev = diags@;
            if key_seen_before(&s.read, i) {
                let mut p = attr_path("read");
                let ghost p0 = p@;
                p.push(PathStep::Key(s.read[i].0.clone()));
                proof {
                    reveal_strlit("read");
                    assert(path_view(p0)[0] == p0[0]@);
                    assert(p@[0] == p0[0]);
                }
                assert(path_view(p@) =~= seq![StepView::Attribute("read"@), StepView::Key(s.read@[i as int].0@)]);
                push_diag(diags, Severity::Error, "duplicate key in `read`", "", p);
                ok = false;
            }
            assert(diags@.subrange(0, n0) =~= prev.subrange(0, n0));
            proof {
                reveal_strlit("read");
                lemma_no_error_concat(pre, dup_diag_at(s.read@, i as int));
                if key_before(s.read@, i as int) {
                    assert(dup_diag_at(s.read@, i as int)[0].0 == Severity::Error);
                }
            }
            assert(pre + dup_diag_at(s.read@, i as int) =~= acc2b + dup_diags(s.read@, (i + 1) as nat));
            assert(start + pre + dup_diag_at(s.read@, i as int) =~= start + (pre + dup_diag_at(s.read@, i as int)));
            i = i + 1;
        }
        let ghost acc3 = acc2b + dup_diags(s.read@, s.read@.len());
        let mut j: usize = 0;
        while j < s.update.len()
            invariant
                j <= s.update.len(),
                diags_view(diags@) =~= start + acc3 + updates_diags(s.update@.subrange(0, j as int)),
                ok == no_error(acc3 + updates_diags(s.update@.subrange(0, j as int))),
                n0 == d0.len(),
                n0 <= diags@.len(),
                diags@.subrange(0, n0) == d0,
            decreases s.update.len() - j,
        {
            let ghost pre = acc3 + updates_diags(s.update@.subrange(0, j as int));
            assert(s.update@.subrange(0, j + 1).drop_last() =~= s.update@.subrange(0, j as int));
            if let Value::Value(update) = &s.update[j] {
                let mut p = attr_path("update");
                let ghost p0 = p@;
                p.push(PathStep::Index(j as u64));
                proof {
                    reveal_strlit("update");
                    assert(path_view(p0)[0] == p0[0]@);
                    assert(p@[0] == p0[0]);
                }
                assert(path_view(p@) =~= seq![StepView::Attribute("update"@), StepView::Index(j as u64)]);
                let ghost prev = diags@;
                let r = update.validate(diags, p);
                assert(diags@.subrange(0, n0) =~= prev.subrange(0, n0));
                ok = ok && r.is_some();
            }
            proof {
                reveal_strlit("update");
                lemma_indexed(s.update@[j as int], j as int);
                lemma_no_error_concat(pre, update_diags_at(s.update@[j as int], j as int));
            }
            assert(pre + update_diags_at(s.update@[j as int], j as int) =~= acc3 + updates_diags(s.update@.subrange(0, j + 1)));
            assert(start + pre + update_diags_at(s.update@[j as int], j as int) =~= start + (pre + update_diags_at(s.update@[j as int], j as int)));
            j = j + 1;
        }
        assert(s.update@.subrange(0, s.update.len() as int) =~= s.update@);
        assert(acc3 + updates_diags(s.update@) =~= state_diags(*s));
        if ok {
            Some(())
        } else {
            None
        }
    }

    /// Reads a resource: each declared read whose output has no known value,
    /// or whose output is named in `requested`, is run again; the other
    /// outputs stay as they are. A read whose command fails leaves its output
    /// as it was and records an error; that ends the read when the output had
    /// no known value, and otherwise the other reads go on.
    pub fn read(&self, state: Value<State<T>>, requested: &Vec<String>) -> (r: Apply<T>)
        ensures
            r.ops@ == read_plan(state, requested@),
            r.state == state,
            r.next == 0,
            !r.failed,
            r.diags@.len() == 0,
    {
        Apply::refresh(state, requested)
    }

    /// Plans going from `prior` to `proposed`. To destroy, the plan is the
    /// empty proposed state. To create, the id and every read output are not
    /// known until apply. Otherwise the id is kept, and so is each output but
    /// those that a triggered update reloads, which are not known until apply.
    pub fn plan(&self, prior: &Value<State<T>>, proposed: Value<State<T>>) -> (r: Value<State<T>>)
        ensures
            match proposed {
                Value::Value(n) => r matches Value::Value(s) && if is_creation(*prior) {
                    &&& s == State { id: Value::Unknown, state: s.state, ..n }
                    &&& s.state@ == unknown_outputs(n.read@)
                } else {
                    &&& s == State { id: prior->Value_0.id, state: s.state, ..n }
                    &&& forall|k: Seq<char>| #[trigger] lookup(s.state@, k) == if reloaded(
                        plan_ops(*prior, proposed),
                        n.read@,
                        k,
                    ) {
                        Some(Value::<String>::Unknown)
                    } else {
                        lookup(prior->Value_0.state@, k)
                    }
                },
                _ => r == proposed,
            },
    {
        let ops = schedule(prior, &proposed);
        let mut n = match proposed {
            Value::Value(n) => n,
            _ => return proposed,
        };
        let ghost n0 = n;
        match prior {
            Value::Value(p) if p.id.is_value() => {
                let mut outputs = copy_map(&p.state);
                let mut i: usize = 0;
                while i < ops.len()
                    invariant
                        i <= ops.len(),
                        n == n0,
                        forall|k: Seq<char>| #[trigger] lookup(outputs@, k) == if reloaded(
                            ops@.subrange(0, i as int),
                            n0.read@,
                            k,
                        ) {
                            Some(Value::<String>::Unknown)
                        } else {
                            lookup(p.state@, k)
                        },
                    decreases ops.len() - i,
                {
                    let ghost before = outputs@;
                    if let Op::Read(x) = ops[i] {
                        if x < n.read.len() {
                            let name = n.read[x].0.clone();
                            insert(&mut outputs, name, Value::Unknown);
                        }
                    }
                    assert forall|k: Seq<char>| #[trigger] lookup(outputs@, k) == if reloaded(
                        ops@.subrange(0, i + 1),
                        n0.read@,
                        k,
                    ) {
                        Some(Value::<String>::Unknown)
                    } else {
                        lookup(p.state@, k)
                    } by {
                        lemma_reloaded_step(ops@, n0.read@, k, i as int);
                    }
                    i = i + 1;
                }
                assert(ops@.subrange(0, ops.len() as int) =~= ops@);
                n.id = copy_string_value(&p.id);
                n.state = outputs;
                Value::Value(n)
            },
            _ => {
                n.id = Value::Unknown;
                n.state = unknown_outputs_exec(&n.read);
                Value::Value(n)
            },
        }
    }
}

/// Whether the key of entry `i` is used by an earlier entry.
fn key_seen_before(m: &ValueMap<Value<StateRead>>, i: usize) -> (r: bool)
    requires
        i < m.len(),
    ensures
        r == key_before(m@, i as int),
{
    let mut j: usize = 0;
    while j < i
        invariant
            i < m.len(),
            j <= i,
            forall|x: int| 0 <= x < j ==> #[trigger] m@[x].0@ != m@[i as int].0@,
        decreases i - j,
    {
        if m[j].0.eq(&m[i].0) {
            return true;
        }
        j = j + 1;
    }
    false
}

/// Step list `ops` reads again the output named `k`.
pub open spec fn reloaded(ops: Seq<Op>, reads: Seq<(String, Value<StateRead>)>, k: Seq<char>) -> bool {
    exists|i: int| 0 <= i < ops.len() && (#[trigger] ops[i] matches Op::Read(x) && x < reads.len() && reads[x as int].0@ == k)
}

proof fn lemma_reloaded_step(ops: Seq<Op>, reads: Seq<(String, Value<StateRead>)>, k: Seq<char>, i: int)
    requires
        0 <= i < ops.len(),
    ensures
        reloaded(ops.subrange(0, i + 1), reads, k) == (reloaded(ops.subrange(0, i), reads, k) || (ops[i] matches Op::Read(x) && x < reads.len() && reads[x as int].0@ == k)),
{
    let a = ops.subrange(0, i + 1);
    let b = ops.subrange(0, i);
    if reloaded(b, reads, k) {
        let w = choose|w: int| 0 <= w < b.len() && (#[trigger] b[w] matches Op::Read(x) && x < reads.len() && reads[x as int].0@ == k);
        assert(a[w] == b[w]);
    }
    if ops[i] matches Op::Read(x) && x < reads.len() && reads[x as int].0@ == k {
        assert(a[i] == ops[i]);
    }
    if reloaded(a, reads, k) {
        let w = choose|w: int| 0 <= w < a.len() && (#[trigger] a[w] matches Op::Read(x) && x < reads.len() && reads[x as int].0@ == k);
        if w < i {
            assert(b[w] == a[w]);
        }
    }
}

/// Every read output, not known yet.
pub open spec fn unknown_outputs(r: Seq<(String, Value<StateRead>)>) -> Seq<(String, Value<String>)>
    decreases r.len(),
{
    if r.len() == 0 {
        seq![]
    } else {
        unknown_outputs(r.drop_last()) + if r.last().1 is Value {
            seq![(r.last().0, Value::<String>::Unknown)]
        } else {
            seq![]
        }
    }
}

fn unknown_outputs_exec(r: &ValueMap<Value<StateRead>>) -> (o: ValueMap<Value<String>>)
    ensures
        o@ == unknown_outputs(r@),
{
    let mut o: ValueMap<Value<String>> = Vec::new();
    let mut i: usize = 0;
    while i < r.len()
        invariant
            i <= r.len(),
            o@ == unknown_outputs(r@.subrange(0, i as int)),
        decreases r.len() - i,
    {
        assert(r@.subrange(0, i + 1).drop_last() =~= r@.subrange(0, i as int));
        let ghost before = o@;
        if r[i].1.is_value() {
            o.push((r[i].0.clone(), Value::Unknown));
        }
        assert(o@ =~= unknown_outputs(r@.subrange(0, i + 1)));
        i = i + 1;
    }
    assert(r@.subrange(0, i as int) =~= r@);
    o
}

fn copy_map(m: &ValueMap<Value<String>>) -> (o: ValueMap<Value<String>>)
    ensures
        o@ == m@,
{
    let mut o: ValueMap<Value<String>> = Vec::new();
    let mut i: usize = 0;
    while i < m.len()
        invariant
            i <= m.len(),
            o@ == m@.subrange(0, i as int),
        decreases m.len() - i,
    {
        o.push((m[i].0.clone(), copy_string_value(&m[i].1)));
        assert(o@ =~= m@.subrange(0, i + 1));
        i = i + 1;
    }
    assert(m@.subrange(0, i as int) =~= m@);
    o
}

proof fn lemma_keyed(e: (String, Value<StateRead>))
    ensures
        match e.1 {
            Value::Value(c) => no_error(block_diags_keyed(e)) <==> !(c.cmd is Null),
            _ => block_diags_keyed(e) == Seq::<Diag>::empty(),
        },
{
    if let Value::Value(c) = e.1 {
        lemma_cmd_diags_error(c.cmd, seq![StepView::Attribute("read"@), StepView::Key(e.0@)]);
    }
}

proof fn lemma_indexed(u: Value<StateUpdate>, i: int)
    ensures
        match u {
            Value::Value(c) => no_error(update_diags_at(u, i)) <==> !(c.cmd.cmd is Null),
            _ => update_diags_at(u, i) == Seq::<Diag>::empty(),
        },
{
    if let Value::Value(c) = u {
        lemma_cmd_diags_error(c.cmd.cmd, seq![StepView::Attribute("update"@), StepView::Index(i as u64)]);
    }
}

} // verus!

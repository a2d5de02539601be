//! Which commands an apply runs, and in what order.
use vstd::prelude::*;

use crate::state::{State, StateRead, StateUpdate};
use crate::value::{get, lookup, same_entry, string_value_eq, Value, ValueMap};

verus! {

/// One step of an apply.
#[derive(Debug, Clone, Copy, PartialEq, Eq, Structural)]
pub enum Op {
    /// Run the create command.
    Create,
    /// Run the destroy command.
    Destroy,
    /// Run the read command at this position and store its output.
    Read(usize),
    /// Run the update command at this position.
    Update(usize),
}

/// Input `k` has a different value (or presence) in `planned` than in `prior`.
pub open spec fn input_changed(
    prior: Seq<(String, Value<String>)>,
    planned: Seq<(String, Value<String>)>,
    k: Seq<char>,
) -> bool {
    !same_entry(lookup(prior, k), lookup(planned, k))
}

/// Some input differs between `prior` and `planned`.
pub open spec fn any_input_changed(
    prior: Seq<(String, Value<String>)>,
    planned: Seq<(String, Value<String>)>,
) -> bool {
    exists|k: Seq<char>| #[trigger] input_changed(prior, planned, k)
}

/// An update runs when one of its triggers changed, or, without triggers,
/// when any input changed.
pub open spec fn triggered(
    u: StateUpdate,
    prior: Seq<(String, Value<String>)>,
    planned: Seq<(String, Value<String>)>,
) -> bool {
    if u.triggers@.len() == 0 {
        any_input_changed(prior, planned)
    } else {
        exists|i: int| 0 <= i < u.triggers@.len() && #[trigger] input_changed(prior, planned, u.triggers@[i]@)
    }
}

/// The name `k` is one of `names`.
pub open spec fn names_contain(names: Seq<String>, k: Seq<char>) -> bool {
    exists|i: int| 0 <= i < names.len() && #[trigger] names[i]@ == k
}

/// The reads among the first `n` entries, in order.
pub open spec fn read_ops(r: Seq<(String, Value<StateRead>)>, n: nat) -> Seq<Op>
    decreases n,
{
    if n == 0 || n > r.len() {
        seq![]
    } else {
        read_ops(r, (n - 1) as nat) + if r[n - 1].1 is Value {
            seq![Op::Read((n - 1) as usize)]
        } else {
            seq![]
        }
    }
}

/// The reads among the first `n` entries whose output is named in `reloads`.
pub open spec fn reload_ops(r: Seq<(String, Value<StateRead>)>, reloads: Seq<String>, n: nat) -> Seq<Op>
    decreases n,
{
    if n == 0 || n > r.len() {
        seq![]
    } else {
        reload_ops(r, reloads, (n - 1) as nat) + if r[n - 1].1 is Value && names_contain(
            reloads,
            r[n - 1].0@,
        ) {
            seq![Op::Read((n - 1) as usize)]
        } else {
            seq![]
        }
    }
}

/// The steps of one update: the update itself, then the reads it reloads.
pub open spec fn one_update_ops<T>(prior: State<T>, planned: State<T>, j: int) -> Seq<Op> {
    match planned.update@[j] {
        Value::Value(u) => if triggered(u, prior.inputs@, planned.inputs@) {
            seq![Op::Update(j as usize)] + reload_ops(planned.read@, u.reloads@, planned.read@.len())
        } else {
            seq![]
        },
        _ => seq![],
    }
}

/// The steps of the first `n` updates, in their declared order.
pub open spec fn update_ops<T>(prior: State<T>, planned: State<T>, n: nat) -> Seq<Op>
    decreases n,
{
    if n == 0 || n > planned.update@.len() {
        seq![]
    } else {
        update_ops(prior, planned, (n - 1) as nat) + one_update_ops(prior, planned, n - 1)
    }
}

/// A plan creates the resource when the prior state has no known id.
pub open spec fn is_creation<T>(prior: Value<State<T>>) -> bool {
    !(prior matches Value::Value(p) && p.id is Value)
}

/// The steps an apply takes from `prior` to `planned`:
/// to destroy, the destroy command; to create, the create command and then
/// every read; otherwise each triggered update followed by its reloads.
pub open spec fn plan_ops<T>(prior: Value<State<T>>, planned: Value<State<T>>) -> Seq<Op> {
    match planned {
        Value::Value(n) => if is_creation(prior) {
            (if n.create is Value {
                seq![Op::Create]
            } else {
                seq![]
            }) + read_ops(n.read@, n.read@.len())
        } else {
            update_ops(prior->Value_0, n, n.update@.len())
        },
        _ => match prior {
            Value::Value(p) => if p.destroy is Value {
                seq![Op::Destroy]
            } else {
                seq![]
            },
            _ => seq![],
        },
    }
}

proof fn lemma_lookup_has_key<V>(m: Seq<(String, V)>, k: Seq<char>)
    requires
        lookup(m, k) is Some,
    ensures
        exists|i: int| 0 <= i < m.len() && #[trigger] m[i].0@ == k,
    decreases m.len(),
{
    if m.last().0@ == k {
        assert(m[m.len() - 1].0@ == k);
    } else {
        lemma_lookup_has_key(m.drop_last(), k);
        let i = choose|i: int| 0 <= i < m.drop_last().len() && #[trigger] m.drop_last()[i].0@ == k;
        assert(m[i].0@ == k);
    }
}

/// Whether input `k` changed between the two maps.
pub fn input_changed_exec(prior: &ValueMap<Value<String>>, planned: &ValueMap<Value<String>>, k: &String) -> (r: bool)
    ensures
        r == input_changed(prior@, planned@, k@),
{
    match (get(prior, k), get(planned, k)) {
        (None, None) => false,
        (Some(a), Some(b)) => !string_value_eq(a, b),
        _ => true,
    }
}

/// Whether any input changed between the two maps.
pub fn any_input_changed_exec(prior: &ValueMap<Value<String>>, planned: &ValueMap<Value<String>>) -> (r: bool)
    ensures
        r == any_input_changed(prior@, planned@),
{
    let mut i: usize = 0;
    while i < prior.len()
        invariant
            i <= prior.len(),
            forall|x: int| 0 <= x < i ==> !input_changed(prior@, planned@, #[trigger] prior@[x].0@),
        decreases prior.len() - i,
    {
        if input_changed_exec(prior, planned, &prior[i].0) {
            return true;
        }
        i = i + 1;
    }
    let mut j: usize = 0;
    while j < planned.len()
        invariant
            j <= planned.len(),
            forall|x: int| 0 <= x < prior.len() ==> !input_changed(prior@, planned@, #[trigger] prior@[x].0@),
            forall|x: int| 0 <= x < j ==> !input_changed(prior@, planned@, #[trigger] planned@[x].0@),
        decreases planned.len() - j,
    {
        if input_changed_exec(prior, planned, &planned[j].0) {
            return true;
        }
        j = j + 1;
    }
    assert forall|k: Seq<char>| !#[trigger] input_changed(prior@, planned@, k) by {
        if lookup(prior@, k) is Some {
            lemma_lookup_has_key(prior@, k);
        } else if lookup(planned@, k) is Some {
            lemma_lookup_has_key(planned@, k);
        }
    }
    false
}

/// Whether an update must run for this change of inputs.
pub fn update_triggered(u: &StateUpdate, prior: &ValueMap<Value<String>>, planned: &ValueMap<Value<String>>) -> (r: bool)
    ensures
        r == triggered(*u, prior@, planned@),
{
    if u.triggers.len() == 0 {
        return any_input_changed_exec(prior, planned);
    }
    let mut i: usize = 0;
    while i < u.triggers.len()
        invariant
            i <= u.triggers.len(),
            forall|x: int| 0 <= x < i ==> !#[trigger] input_changed(prior@, planned@, u.triggers@[x]@),
        decreases u.triggers.len() - i,
    {
        if input_changed_exec(prior, planned, &u.triggers[i]) {
            return true;
        }
        i = i + 1;
    }
    false
}

fn names_contain_exec(names: &Vec<String>, k: &String) -> (r: bool)
    ensures
        r == names_contain(names@, k@),
{
    let mut i: usize = 0;
    while i < names.len()
        invariant
            i <= names.len(),
            forall|x: int| 0 <= x < i ==> #[trigger] names@[x]@ != k@,
        decreases names.len() - i,
    {
        if names[i].eq(k) {
            return true;
        }
        i = i + 1;
    }
    false
}

/// Appends the reads of `r` (all of them, or those named in `reloads`).
fn push_reads(ops: &mut Vec<Op>, r: &ValueMap<Value<StateRead>>, reloads: Option<&Vec<String>>)
    ensures
        final(ops)@ == old(ops)@ + match reloads {
            None => read_ops(r@, r@.len()),
            Some(names) => reload_ops(r@, names@, r@.len()),
        },
{
    let ghost start = ops@;
    let mut i: usize = 0;
    while i < r.len()
        invariant
            i <= r.len(),
            ops@ == start + match reloads {
                None => read_ops(r@, i as nat),
                Some(names) => reload_ops(r@, names@, i as nat),
            },
        decreases r.len() - i,
    {
        let ghost before = ops@;
        let wanted = match reloads {
            None => true,
            Some(names) => names_contain_exec(names, &r[i].0),
        };
        if r[i].1.is_value() && wanted {
            ops.push(Op::Read(i));
        }
        assert(ops@ =~= start + match reloads {
            None => read_ops(r@, (i + 1) as nat),
            Some(names) => reload_ops(r@, names@, (i + 1) as nat),
        });
        i = i + 1;
    }
}

/// Lists the steps an apply takes to go from `prior` to `planned`.
pub fn schedule<T>(prior: &Value<State<T>>, planned: &Value<State<T>>) -> (r: Vec<Op>)
    ensures
        r@ == plan_ops(*prior, *planned),
{
    let mut ops: Vec<Op> = Vec::new();
    match planned {
        Value::Value(n) => {
            let creation = match prior {
                Value::Value(p) => !p.id.is_value(),
                _ => true,
            };
            if creation {
                if n.create.is_value() {
                    ops.push(Op::Create);
                }
                assert(ops@ =~= if n.create is Value { seq![Op::Create] } else { seq![] });
                push_reads(&mut ops, &n.read, None);
            } else {
                let p = match prior {
                    Value::Value(p) => p,
                    _ => { return ops; },
                };
                let mut j: usize = 0;
                while j < n.update.len()
                    invariant
                        j <= n.update.len(),
                        ops@ == update_ops(*p, *n, j as nat),
                    decreases n.update.len() - j,
                {
                    let ghost before = ops@;
                    if let Value::Value(u) = &n.update[j] {
                        if update_triggered(u, &p.inputs, &n.inputs) {
                            ops.push(Op::Update(j));
                            push_reads(&mut ops, &n.read, Some(&u.reloads));
                        }
                    }
                    assert(ops@ =~= before + one_update_ops(*p, *n, j as int));
                    j = j + 1;
                }
            }
        },
        _ => {
            if let Value::Value(p) = prior {
                if p.destroy.is_value() {
                    ops.push(Op::Destroy);
                }
            }
            assert(ops@ =~= plan_ops(*prior, *planned));
        },
    }
    ops
}

proof fn lemma_reload_ops_no_update(r: Seq<(String, Value<StateRead>)>, reloads: Seq<String>, n: nat, j: usize)
    ensures
        !reload_ops(r, reloads, n).contains(Op::Update(j)),
    decreases n,
{
    if n > 0 && n <= r.len() {
        lemma_reload_ops_no_update(r, reloads, (n - 1) as nat, j);
        let a = reload_ops(r, reloads, (n - 1) as nat);
        let whole = reload_ops(r, reloads, n);
        if whole.contains(Op::Update(j)) {
            let w = choose|w: int| 0 <= w < whole.len() && whole[w] == Op::Update(j);
            if w < a.len() {
                assert(a[w] == whole[w]);
            }
        }
    }
}

proof fn lemma_update_ops_contains<T>(prior: State<T>, planned: State<T>, n: nat, j: usize)
    requires
        n <= planned.update@.len() <= usize::MAX,
    ensures
        update_ops(prior, planned, n).contains(Op::Update(j)) <==> (j < n && (planned.update@[
            j as int] matches Value::Value(u) && triggered(u, prior.inputs@, planned.inputs@))),
    decreases n,
{
    if n > 0 {
        lemma_update_ops_contains(prior, planned, (n - 1) as nat, j);
        let a = update_ops(prior, planned, (n - 1) as nat);
        let b = one_update_ops(prior, planned, n - 1);
        let whole = update_ops(prior, planned, n);
        assert(whole == a + b);
        let runs_last = planned.update@[n - 1] matches Value::Value(u) && triggered(
            u,
            prior.inputs@,
            planned.inputs@,
        );
        if runs_last {
            let u = planned.update@[n - 1]->Value_0;
            lemma_reload_ops_no_update(planned.read@, u.reloads@, planned.read@.len(), j);
        }
        let in_b = b.contains(Op::Update(j));
        assert(in_b <==> (runs_last && j == n - 1)) by {
            if runs_last {
                let u = planned.update@[n - 1]->Value_0;
                let rl = reload_ops(planned.read@, u.reloads@, planned.read@.len());
                assert(b == seq![Op::Update((n - 1) as usize)] + rl);
                if j == n - 1 {
                    assert((n - 1) as usize == j);
                    assert(b[0] == Op::Update(j));
                } else {
                    assert((n - 1) as usize != j);
                }
                if in_b {
                    let w = choose|w: int| 0 <= w < b.len() && b[w] == Op::Update(j);
                    if w > 0 {
                        assert(rl[w - 1] == b[w]);
                        assert(rl.contains(Op::Update(j)));
                    }
                }
            } else {
                assert(b =~= Seq::<Op>::empty());
            }
        }
        if whole.contains(Op::Update(j)) {
            let w = choose|w: int| 0 <= w < whole.len() && whole[w] == Op::Update(j);
            if w < a.len() {
                assert(a[w] == whole[w]);
            } else {
                assert(b[w - a.len()] == whole[w]);
            }
        }
        if a.contains(Op::Update(j)) {
            let w = choose|w: int| 0 <= w < a.len() && a[w] == Op::Update(j);
            assert(whole[w] == a[w]);
        }
        if in_b {
            let w = choose|w: int| 0 <= w < b.len() && b[w] == Op::Update(j);
            assert(whole[w + a.len()] == b[w]);
        }
    }
}

/// Whether update `j` runs is decided by its triggers alone: it is among
/// the steps of an apply over an existing resource exactly when it is
/// triggered by the change of inputs.
pub proof fn lemma_update_runs_iff_triggered<T>(prior: State<T>, planned: State<T>, j: usize)
    requires
        prior.id is Value,
        j < planned.update@.len(),
        planned.update@[j as int] is Value,
    ensures
        plan_ops(Value::Value(prior), Value::Value(planned)).contains(Op::Update(j)) == triggered(
            planned.update@[j as int]->Value_0,
            prior.inputs@,
            planned.inputs@,
        ),
{
    assert(planned.update@.len() == planned.update.len());
    lemma_update_ops_contains(prior, planned, planned.update@.len(), j);
}

/// An update without triggers runs whenever any input differs between the
/// prior and the planned state, and never when every input is the same.
pub proof fn lemma_untargeted_update<T>(prior: State<T>, planned: State<T>, j: usize)
    requires
        prior.id is Value,
        j < planned.update@.len(),
        planned.update@[j as int] matches Value::Value(u) && u.triggers@.len() == 0,
    ensures
        plan_ops(Value::Value(prior), Value::Value(planned)).contains(Op::Update(j))
            == any_input_changed(prior.inputs@, planned.inputs@),
        prior.inputs@ == planned.inputs@ ==> !plan_ops(Value::Value(prior), Value::Value(planned)).contains(
            Op::Update(j),
        ),
{
    lemma_update_runs_iff_triggered(prior, planned, j);
    if prior.inputs@ == planned.inputs@ {
        assert forall|k: Seq<char>| !#[trigger] input_changed(prior.inputs@, planned.inputs@, k) by {
            match lookup(prior.inputs@, k) {
                Some(Value::Value(x)) => {},
                _ => {},
            }
        }
    }
}

/// An update triggered by input `a` alone runs exactly when the value of
/// `a` differs between the prior and the planned state, whatever happens to
/// the other inputs.
pub proof fn lemma_single_trigger_update<T>(prior: State<T>, planned: State<T>, j: usize, a: Seq<char>)
    requires
        prior.id is Value,
        j < planned.update@.len(),
        planned.update@[j as int] matches Value::Value(u) && u.triggers@.len() == 1 && u.triggers@[0]@ == a,
    ensures
        plan_ops(Value::Value(prior), Value::Value(planned)).contains(Op::Update(j))
            == input_changed(prior.inputs@, planned.inputs@, a),
{
    lemma_update_runs_iff_triggered(prior, planned, j);
    let u = planned.update@[j as int]->Value_0;
    if input_changed(prior.inputs@, planned.inputs@, a) {
        assert(input_changed(prior.inputs@, planned.inputs@, u.triggers@[0]@));
    }
}

proof fn lemma_no_reads(r: Seq<(String, Value<StateRead>)>, n: nat)
    requires
        forall|k: int| 0 <= k < r.len() ==> !(#[trigger] r[k].1 is Value),
    ensures
        read_ops(r, n) == Seq::<Op>::empty(),
    decreases n,
{
    if n > 0 && n <= r.len() {
        lemma_no_reads(r, (n - 1) as nat);
        assert(!(r[n - 1].1 is Value));
        assert(read_ops(r, n) =~= Seq::<Op>::empty());
    }
}

proof fn lemma_no_updates<T>(prior: State<T>, planned: State<T>, n: nat)
    requires
        forall|j: int| 0 <= j < planned.update@.len() ==> !(#[trigger] planned.update@[j] matches Value::Value(u)
            && triggered(u, prior.inputs@, planned.inputs@)),
    ensures
        update_ops(prior, planned, n) == Seq::<Op>::empty(),
    decreases n,
{
    if n > 0 && n <= planned.update@.len() {
        lemma_no_updates(prior, planned, (n - 1) as nat);
        assert(!(planned.update@[n - 1] matches Value::Value(u) && triggered(u, prior.inputs@, planned.inputs@)));
        assert(update_ops(prior, planned, n) =~= Seq::<Op>::empty());
    }
}

/// Without a create or a destroy command, an apply runs no command at all,
/// as long as there is nothing to read after creating and no triggered
/// update otherwise.
pub proof fn lemma_nothing_to_run<T>(prior: Value<State<T>>, planned: Value<State<T>>)
    requires
        planned matches Value::Value(n) ==> n.create is Null,
        prior matches Value::Value(p) ==> p.destroy is Null,
        planned is Value && is_creation(prior) ==> forall|k: int|
            0 <= k < planned->Value_0.read@.len() ==> !(#[trigger] planned->Value_0.read@[k].1 is Value),
        planned is Value && !is_creation(prior) ==> forall|j: int|
            0 <= j < planned->Value_0.update@.len() ==> !(#[trigger] planned->Value_0.update@[j] matches Value::Value(u)
                && triggered(u, prior->Value_0.inputs@, planned->Value_0.inputs@)),
    ensures
        plan_ops(prior, planned) == Seq::<Op>::empty(),
{
    if let Value::Value(n) = planned {
        if is_creation(prior) {
            lemma_no_reads(n.read@, n.read@.len());
            assert(plan_ops(prior, planned) =~= Seq::<Op>::empty());
        } else {
            lemma_no_updates(prior->Value_0, n, n.update@.len());
        }
    }
}

proof fn lemma_reload_ops_contains(r: Seq<(String, Value<StateRead>)>, reloads: Seq<String>, n: nat, op: Op)
    requires
        n <= r.len() <= usize::MAX,
    ensures
        reload_ops(r, reloads, n).contains(op) <==> (op matches Op::Read(k) && k < n && r[k as int].1 is Value
            && names_contain(reloads, r[k as int].0@)),
    decreases n,
{
    if n > 0 {
        lemma_reload_ops_contains(r, reloads, (n - 1) as nat, op);
        let a = reload_ops(r, reloads, (n - 1) as nat);
        let last = n - 1;
        let wanted = r[last].1 is Value && names_contain(reloads, r[last].0@);
        let b = if wanted {
            seq![Op::Read(last as usize)]
        } else {
            seq![]
        };
        let whole = reload_ops(r, reloads, n);
        assert(whole == a + b);
        if let Op::Read(k) = op {
            if k == last {
                assert(last as usize == k);
            }
        }
        if whole.contains(op) {
            let w = choose|w: int| 0 <= w < whole.len() && whole[w] == op;
            if w < a.len() {
                assert(a[w] == whole[w]);
            } else {
                assert(b[w - a.len()] == whole[w]);
            }
        }
        if a.contains(op) {
            let w = choose|w: int| 0 <= w < a.len() && a[w] == op;
            assert(whole[w] == a[w]);
        }
        if wanted && op == Op::Read(last as usize) {
            assert(whole[a.len() as int] == op);
        }
    }
}

/// The steps that follow an update are reads, and they are exactly the
/// reads of the outputs that the update names in its reloads.
pub proof fn lemma_reloads_are_named_reads(reads: ValueMap<Value<StateRead>>, reloads: Seq<String>, op: Op)
    ensures
        reload_ops(reads@, reloads, reads@.len()).contains(op) <==> (op matches Op::Read(k) && k
            < reads@.len() && reads@[k as int].1 is Value && names_contain(reloads, reads@[k as int].0@)),
{
    assert(reads@.len() == reads.len());
    lemma_reload_ops_contains(reads@, reloads, reads@.len(), op);
}

/// The reads among the first `n` whose output has no known value in `s`, or
/// is named in `requested`.
pub open spec fn refresh_ops<T>(s: State<T>, requested: Seq<String>, n: nat) -> Seq<Op>
    decreases n,
{
    if n == 0 || n > s.read@.len() {
        seq![]
    } else {
        refresh_ops(s, requested, (n - 1) as nat) + if s.read@[n - 1].1 is Value && (!(lookup(
            s.state@,
            s.read@[n - 1].0@,
        ) matches Some(Value::Value(_))) || names_contain(requested, s.read@[n - 1].0@)) {
            seq![Op::Read((n - 1) as usize)]
        } else {
            seq![]
        }
    }
}

/// The steps of a read: each declared read whose output has no known value
/// or is requested.
pub open spec fn read_plan<T>(st: Value<State<T>>, requested: Seq<String>) -> Seq<Op> {
    match st {
        Value::Value(s) => refresh_ops(s, requested, s.read@.len()),
        _ => seq![],
    }
}

/// Lists the reads that a read of `state` runs.
pub fn read_schedule<T>(state: &Value<State<T>>, requested: &Vec<String>) -> (r: Vec<Op>)
    ensures
        r@ == read_plan(*state, requested@),
{
    let mut ops: Vec<Op> = Vec::new();
    if let Value::Value(s) = state {
        let mut i: usize = 0;
        while i < s.read.len()
            invariant
                i <= s.read.len(),
                ops@ == refresh_ops(*s, requested@, i as nat),
            decreases s.read.len() - i,
        {
            let known = match get(&s.state, &s.read[i].0) {
                Some(v) => v.is_value(),
                None => false,
            };
            let ghost before = ops@;
            let wanted = !known || names_contain_exec(requested, &s.read[i].0);
            if s.read[i].1.is_value() && wanted {
                ops.push(Op::Read(i));
            }
            assert(ops@ =~= refresh_ops(*s, requested@, (i + 1) as nat));
            i = i + 1;
        }
    }
    ops
}

} // verus!

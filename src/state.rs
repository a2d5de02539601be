//! The resource state model and its validation.
use vstd::prelude::*;

use crate::diagnostics::{
    diags_view, no_error, path_view, push_diag, AttributePath, Diagnostic, Diagnostics, PathStep,
    Severity, StepView,
};
use crate::value::{Value, ValueMap};

verus! {

/// One command: a command line and the environment it runs in.
#[derive(Debug, Clone, PartialEq, Eq)]
pub struct StateCmd {
    pub cmd: Value<String>,
    pub env: Value<ValueMap<Value<String>>>,
}

pub type StateRead = StateCmd;

pub type StateCreate = StateCmd;

pub type StateDestroy = StateCmd;

/// A command run when inputs change, with the inputs that trigger it and the
/// outputs that must be read again after it.
#[derive(Debug, Clone, PartialEq, Eq)]
pub struct StateUpdate {
    pub cmd: StateCmd,
    pub triggers: Vec<String>,
    pub reloads: Vec<String>,
}

/// A command-defined resource: identity, inputs, computed outputs, the
/// commands attached to it and the configuration of its transport.
#[derive(Debug, Clone, PartialEq, Eq)]
pub struct State<T> {
    pub id: Value<String>,
    pub inputs: ValueMap<Value<String>>,
    pub state: ValueMap<Value<String>>,
    pub read: ValueMap<Value<StateRead>>,
    pub create: Value<StateCreate>,
    pub destroy: Value<StateDestroy>,
    pub update: Vec<Value<StateUpdate>>,
    pub connection: Value<T>,
}

pub type Diag = (Severity, Seq<StepView>);

/// The diagnostics of one command found at `path`: an error when its command
/// is unset, a warning when it is not known yet, none when it is known.
pub open spec fn cmd_diags(cmd: Value<String>, path: Seq<StepView>) -> Seq<Diag> {
    match cmd {
        Value::Value(_) => seq![],
        Value::Null => seq![(Severity::Error, path.push(StepView::Attribute("cmd"@)))],
        Value::Unknown => seq![(Severity::Warning, path.push(StepView::Attribute("cmd"@)))],
    }
}

/// The summary of the diagnostic a command gets when it is not known.
pub open spec fn cmd_summary(cmd: Value<String>) -> Seq<char> {
    match cmd {
        Value::Null => "`cmd` cannot be null"@,
        _ => "`cmd` is not known during planning"@,
    }
}

/// The detail of the diagnostic a command gets when it is not known.
pub open spec fn cmd_detail(cmd: Value<String>) -> Seq<char> {
    match cmd {
        Value::Null => ""@,
        _ => "It is recommended that the command does not depend on any resource, and use variables instead."@,
    }
}

/// `new` is `old` with at most one diagnostic added at its end, and none when
/// the command is known; an added one has the summary and detail that the
/// state of the command gives.
pub open spec fn cmd_diag_added(old: Seq<Diagnostic>, new: Seq<Diagnostic>, cmd: Value<String>) -> bool {
    if cmd is Value {
        new == old
    } else {
        &&& new.len() == old.len() + 1
        &&& new.drop_last() == old
        &&& new.last().summary@ == cmd_summary(cmd)
        &&& new.last().detail@ == cmd_detail(cmd)
    }
}

/// The diagnostics of an optional block named `name`.
pub open spec fn block_diags(c: Value<StateCmd>, name: Seq<char>) -> Seq<Diag> {
    match c {
        Value::Value(c) => cmd_diags(c.cmd, seq![StepView::Attribute(name)]),
        _ => seq![],
    }
}

/// The diagnostics of the read commands, in the order they are listed.
pub open spec fn reads_diags(r: Seq<(String, Value<StateRead>)>) -> Seq<Diag>
    decreases r.len(),
{
    if r.len() == 0 {
        seq![]
    } else {
        reads_diags(r.drop_last()) + block_diags_keyed(r.last())
    }
}

pub open spec fn block_diags_keyed(e: (String, Value<StateRead>)) -> Seq<Diag> {
    match e.1 {
        Value::Value(c) => cmd_diags(
            c.cmd,
            seq![StepView::Attribute("read"@), StepView::Key(e.0@)],
        ),
        _ => seq![],
    }
}

/// The diagnostics of the update commands, each tagged with its position.
pub open spec fn updates_diags(u: Seq<Value<StateUpdate>>) -> Seq<Diag>
    decreases u.len(),
{
    if u.len() == 0 {
        seq![]
    } else {
        updates_diags(u.drop_last()) + update_diags_at(u.last(), (u.len() - 1) as int)
    }
}

pub open spec fn update_diags_at(u: Value<StateUpdate>, i: int) -> Seq<Diag> {
    match u {
        Value::Value(u) => cmd_diags(
            u.cmd.cmd,
            seq![StepView::Attribute("update"@), StepView::Index(i as u64)],
        ),
        _ => seq![],
    }
}

/// All diagnostics of a state: create, destroy, then each read, then each update.
pub open spec fn state_diags<T>(s: State<T>) -> Seq<Diag> {
    block_diags(s.create, "create"@) + block_diags(s.destroy, "destroy"@) + reads_diags(s.read@)
        + dup_diags(s.read@, s.read@.len()) + updates_diags(s.update@)
}

/// The key of entry `i` is used by an earlier entry too.
pub open spec fn key_before<V>(m: Seq<(String, V)>, i: int) -> bool {
    exists|j: int| 0 <= j < i && #[trigger] m[j].0@ == m[i].0@
}

/// No key is used by two entries.
pub open spec fn keys_unique<V>(m: Seq<(String, V)>) -> bool {
    forall|i: int, j: int| 0 <= i < j < m.len() ==> #[trigger] m[i].0@ != #[trigger] m[j].0@
}

/// An error for each of the first `n` read entries whose key an earlier entry
/// already uses.
pub open spec fn dup_diags(r: Seq<(String, Value<StateRead>)>, n: nat) -> Seq<Diag>
    decreases n,
{
    if n == 0 || n > r.len() {
        seq![]
    } else {
        dup_diags(r, (n - 1) as nat) + dup_diag_at(r, n - 1)
    }
}

pub open spec fn dup_diag_at(r: Seq<(String, Value<StateRead>)>, i: int) -> Seq<Diag> {
    if key_before(r, i) {
        seq![(Severity::Error, seq![StepView::Attribute("read"@), StepView::Key(r[i].0@)])]
    } else {
        seq![]
    }
}

proof fn lemma_dup_diags_unique(r: Seq<(String, Value<StateRead>)>, n: nat)
    requires
        n <= r.len(),
        no_error(dup_diags(r, n)),
    ensures
        forall|i: int, j: int| 0 <= i < j < n ==> #[trigger] r[i].0@ != #[trigger] r[j].0@,
    decreases n,
{
    if n > 0 {
        lemma_no_error_concat(dup_diags(r, (n - 1) as nat), dup_diag_at(r, n - 1));
        lemma_dup_diags_unique(r, (n - 1) as nat);
        if key_before(r, n - 1) {
            assert(dup_diag_at(r, n - 1)[0].0 == Severity::Error);
        }
        assert forall|i: int, j: int| 0 <= i < j < n implies #[trigger] r[i].0@ != #[trigger] r[j].0@ by {
            if j == n - 1 && r[i].0@ == r[j].0@ {
                assert(key_before(r, n - 1));
            }
        }
    }
}

/// A state whose validation records no error has no read key used twice.
pub proof fn lemma_valid_reads_have_unique_keys<T>(s: State<T>)
    requires
        no_error(state_diags(s)),
    ensures
        keys_unique(s.read@),
{
    let a = block_diags(s.create, "create"@) + block_diags(s.destroy, "destroy"@) + reads_diags(s.read@);
    let d = dup_diags(s.read@, s.read@.len());
    lemma_no_error_concat(a + d, updates_diags(s.update@));
    lemma_no_error_concat(a, d);
    lemma_dup_diags_unique(s.read@, s.read@.len());
}

fn attr(name: &str) -> (r: PathStep)
    ensures
        r@ == StepView::Attribute(name@),
{
    PathStep::Attribute(String::from_str(name))
}

impl StateCmd {
    /// Checks that the command can be run: records an error when it is unset
    /// and a warning when it is not known yet, at `attr_path` followed by `cmd`.
    pub fn validate(&self, diags: &mut Diagnostics, attr_path: AttributePath) -> (r: Option<()>)
        ensures
            diags_view(final(diags)@) == diags_view(old(diags)@) + cmd_diags(
                self.cmd,
                path_view(attr_path@),
            ),
            cmd_diag_added(old(diags)@, final(diags)@, self.cmd),
            r is Some <==> !(self.cmd is Null),
    {
        let mut attr_path = attr_path;
        let ghost base = attr_path@;
        attr_path.push(attr("cmd"));
        proof {
            reveal_strlit("cmd");
            assert(path_view(attr_path@) =~= path_view(base).push(StepView::Attribute("cmd"@)));
        }
        let ghost before = diags_view(diags@);
        proof {
            reveal_strlit("`cmd` cannot be null");
            reveal_strlit("");
            reveal_strlit("`cmd` is not known during planning");
            reveal_strlit("It is recommended that the command does not depend on any resource, and use variables instead.");
        }
        match &self.cmd {
            Value::Value(_) => {
                assert(diags_view(diags@) =~= before + seq![]);
                Some(())
            },
            Value::Null => {
                push_diag(diags, Severity::Error, "`cmd` cannot be null", "", attr_path);
                assert(diags_view(diags@) =~= before + cmd_diags(self.cmd, path_view(base)));
                None
            },
            Value::Unknown => {
                push_diag(
                    diags,
                    Severity::Warning,
                    "`cmd` is not known during planning",
                    "It is recommended that the command does not depend on any resource, and use variables instead.",
                    attr_path,
                );
                assert(diags_view(diags@) =~= before + cmd_diags(self.cmd, path_view(base)));
                Some(())
            },
        }
    }
}

impl StateUpdate {
    /// Checks the update's command as `StateCmd::validate` does.
    pub fn validate(&self, diags: &mut Diagnostics, attr_path: AttributePath) -> (r: Option<()>)
        ensures
            diags_view(final(diags)@) == diags_view(old(diags)@) + cmd_diags(
                self.cmd.cmd,
                path_view(attr_path@),
            ),
            cmd_diag_added(old(diags)@, final(diags)@, self.cmd.cmd),
            r is Some <==> !(self.cmd.cmd is Null),
    {
        self.cmd.validate(diags, attr_path)
    }
}

} // verus!

verus! {

/// A list of diagnostics joined to another holds no error exactly when
/// neither part does.
pub proof fn lemma_no_error_concat(a: Seq<Diag>, b: Seq<Diag>)
    ensures
        no_error(a + b) == (no_error(a) && no_error(b)),
{
    if no_error(a) && no_error(b) {
        assert forall|i: int| 0 <= i < (a + b).len() implies (#[trigger] (a + b)[i]).0
            == Severity::Warning by {
            if i < a.len() {
                assert((a + b)[i] == a[i]);
            } else {
                assert((a + b)[i] == b[i - a.len()]);
            }
        }
    }
    if no_error(a + b) {
        assert forall|i: int| 0 <= i < a.len() implies (#[trigger] a[i]).0 == Severity::Warning by {
            assert((a + b)[i] == a[i]);
        }
        assert forall|i: int| 0 <= i < b.len() implies (#[trigger] b[i]).0 == Severity::Warning by {
            assert((a + b)[i + a.len()] == b[i]);
        }
    }
}

/// The diagnostics of one command hold no error exactly when its command is set.
pub proof fn lemma_cmd_diags_error(cmd: Value<String>, path: Seq<StepView>)
    ensures
        no_error(cmd_diags(cmd, path)) <==> !(cmd is Null),
{
    if cmd is Null {
        assert(cmd_diags(cmd, path)[0].0 == Severity::Error);
    }
}

} // verus!

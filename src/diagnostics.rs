//! Diagnostics attached to attribute paths.
use vstd::prelude::*;

verus! {

/// How serious a diagnostic is.
#[derive(Debug, Clone, Copy, PartialEq, Eq, Structural)]
pub enum Severity {
    Error,
    Warning,
}

/// One step of the path to an attribute.
#[derive(Debug, Clone, PartialEq, Eq)]
pub enum PathStep {
    Attribute(String),
    Key(String),
    Index(u64),
}

/// A path step with its strings seen as character sequences.
pub enum StepView {
    Attribute(Seq<char>),
    Key(Seq<char>),
    Index(u64),
}

impl View for PathStep {
    type V = StepView;

    open spec fn view(&self) -> StepView {
        match self {
            PathStep::Attribute(s) => StepView::Attribute(s@),
            PathStep::Key(s) => StepView::Key(s@),
            PathStep::Index(i) => StepView::Index(*i),
        }
    }
}

/// The location of an attribute, from the root of the resource.
pub type AttributePath = Vec<PathStep>;

pub open spec fn path_view(p: Seq<PathStep>) -> Seq<StepView> {
    p.map_values(|s: PathStep| s@)
}

/// A problem found in a configuration, or a hint about it.
#[derive(Debug, Clone, PartialEq, Eq)]
pub struct Diagnostic {
    pub severity: Severity,
    pub summary: String,
    pub detail: String,
    pub path: AttributePath,
}

/// What a diagnostic says, as far as the rules of the engine fix it: its
/// severity and where it points.
pub open spec fn diag_view(d: Diagnostic) -> (Severity, Seq<StepView>) {
    (d.severity, path_view(d.path@))
}

pub open spec fn diags_view(ds: Seq<Diagnostic>) -> Seq<(Severity, Seq<StepView>)> {
    ds.map_values(|d: Diagnostic| diag_view(d))
}

/// A collector of diagnostics, filled in order.
pub type Diagnostics = Vec<Diagnostic>;

/// No diagnostic of the list is an error.
pub open spec fn no_error(ds: Seq<(Severity, Seq<StepView>)>) -> bool {
    forall|i: int| 0 <= i < ds.len() ==> (#[trigger] ds[i]).0 == Severity::Warning
}

/// Records a diagnostic at the end of `diags`.
pub fn push_diag(
    diags: &mut Diagnostics,
    severity: Severity,
    summary: &str,
    detail: &str,
    path: AttributePath,
)
    ensures
        diags_view(final(diags)@) == diags_view(old(diags)@).push((severity, path_view(path@))),
        final(diags)@.len() == old(diags)@.len() + 1,
        final(diags)@.drop_last() == old(diags)@,
        final(diags)@.last().severity == severity,
        final(diags)@.last().summary@ == summary@,
        final(diags)@.last().detail@ == detail@,
        final(diags)@.last().path == path,
{
    let d = Diagnostic {
        severity,
        summary: String::from_str(summary),
        detail: String::from_str(detail),
        path,
    };
    let ghost dv = diag_view(d);
    diags.push(d);
    assert(diags_view(diags@) =~= diags_view(old(diags)@).push(dv));
    assert(diags@.drop_last() =~= old(diags)@);
}

} // verus!

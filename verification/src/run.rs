use vstd::prelude::*;

use crate::model::Project;
use crate::model::ProjectView;
use crate::reconcile::Plan;
use crate::reconcile::name_views;
use crate::reconcile::project_views;

verus! {

/// Maximum time, in seconds, that processing a foundation data file may take.
pub const FOUNDATION_TIMEOUT: u64 = 300;

/// Checks the response status of a manifest fetch: anything but a plain
/// success status fails the whole foundation's pass.
pub fn status_is_ok(status: u16) -> (r: bool)
    ensures
        r <==> status == 200,
{
    status == 200
}

/// Why a whole foundation's pass failed for this run.
pub enum FoundationError {
    /// The manifest could not be fetched or parsed: unreachable endpoint,
    /// non-success status, or a malformed document.
    FetchFailure(String),
    /// The pass did not finish within the configured timeout.
    TimeoutFailure,
}

/// Mathematical image of a `FoundationError`.
pub ghost enum FoundationErrorView {
    FetchFailure(Seq<char>),
    TimeoutFailure,
}

impl View for FoundationError {
    type V = FoundationErrorView;

    open spec fn view(&self) -> FoundationErrorView {
        match self {
            FoundationError::FetchFailure(m) => FoundationErrorView::FetchFailure(m@),
            FoundationError::TimeoutFailure => FoundationErrorView::TimeoutFailure,
        }
    }
}

/// One register or unregister call that failed; the pass records it and
/// carries on with the remaining projects.
pub struct ProjectWriteFailure {
    pub name: String,
    pub message: String,
}

/// Mathematical image of a `ProjectWriteFailure`.
pub ghost struct ProjectWriteFailureView {
    pub name: Seq<char>,
    pub message: Seq<char>,
}

impl View for ProjectWriteFailure {
    type V = ProjectWriteFailureView;

    open spec fn view(&self) -> ProjectWriteFailureView {
        ProjectWriteFailureView { name: self.name@, message: self.message@ }
    }
}

pub open spec fn failure_views(s: Seq<ProjectWriteFailure>) -> Seq<ProjectWriteFailureView> {
    s.map_values(|f: ProjectWriteFailure| f@)
}

/// One datastore write of a reconciliation pass.
pub enum Action {
    Register(Project),
    Unregister(String),
}

/// Drives the writes of one foundation's pass. The caller performs each
/// action (the datastore call) and reports any failure back; the remaining
/// actions are plain data fixed when the plan was made, so one project's
/// failed write can never change what is attempted for the others.
pub struct FoundationPass {
    registrations: Vec<Project>,
    unregistrations: Vec<String>,
    failures: Vec<ProjectWriteFailure>,
}

impl FoundationPass {
    /// The register calls still to issue, in order.
    pub closed spec fn pending_regs(self) -> Seq<ProjectView> {
        project_views(self.registrations@)
    }

    /// The unregister calls still to issue, in order, after the registers.
    pub closed spec fn pending_unregs(self) -> Seq<Seq<char>> {
        name_views(self.unregistrations@)
    }

    /// The write failures recorded so far.
    pub closed spec fn failure_log(self) -> Seq<ProjectWriteFailureView> {
        failure_views(self.failures@)
    }

    /// Starts the pass for a plan: every planned write is pending and no
    /// failure is recorded.
    pub fn new(plan: Plan) -> (pass: Self)
        ensures
            pass.pending_regs() == project_views(plan.registrations@),
            pass.pending_unregs() == name_views(plan.unregistrations@),
            pass.failure_log() == Seq::<ProjectWriteFailureView>::empty(),
    {
        let pass = FoundationPass {
            registrations: plan.registrations,
            unregistrations: plan.unregistrations,
            failures: Vec::new(),
        };
        proof {
            assert(pass.failure_log() =~= Seq::<ProjectWriteFailureView>::empty());
        }
        pass
    }

    /// Hands out the next write to issue: first the registers in order, then
    /// the unregisters. The choice depends only on what is still pending,
    /// never on recorded failures.
    pub fn next_action(&mut self) -> (a: Option<Action>)
        ensures
            final(self).failure_log() == old(self).failure_log(),
            match a {
                Some(Action::Register(p)) => {
                    &&& old(self).pending_regs().len() > 0
                    &&& p@ == old(self).pending_regs()[0]
                    &&& final(self).pending_regs() == old(self).pending_regs().skip(1)
                    &&& final(self).pending_unregs() == old(self).pending_unregs()
                },
                Some(Action::Unregister(n)) => {
                    &&& old(self).pending_regs().len() == 0
                    &&& old(self).pending_unregs().len() > 0
                    &&& n@ == old(self).pending_unregs()[0]
                    &&& final(self).pending_regs() == old(self).pending_regs()
                    &&& final(self).pending_unregs() == old(self).pending_unregs().skip(1)
                },
                None => {
                    &&& old(self).pending_regs().len() == 0
                    &&& old(self).pending_unregs().len() == 0
                    &&& final(self).pending_regs() == old(self).pending_regs()
                    &&& final(self).pending_unregs() == old(self).pending_unregs()
                },
            },
    {
        if self.registrations.len() > 0 {
            let p = self.registrations.remove(0);
            proof {
                assert(final(self).pending_regs() =~= old(self).pending_regs().skip(1));
            }
            Some(Action::Register(p))
        } else if self.unregistrations.len() > 0 {
            let n = self.unregistrations.remove(0);
            proof {
                assert(final(self).pending_unregs() =~= old(self).pending_unregs().skip(1));
            }
            Some(Action::Unregister(n))
        } else {
            None
        }
    }

    /// Records that one write failed. Failure isolation: only the failure log
    /// grows; the pending writes are exactly what they were, so the failed
    /// project's siblings are still attempted.
    pub fn record_failure(&mut self, name: String, message: String)
        ensures
            final(self).pending_regs() == old(self).pending_regs(),
            final(self).pending_unregs() == old(self).pending_unregs(),
            final(self).failure_log() == old(self).failure_log().push(
                ProjectWriteFailureView { name: name@, message: message@ },
            ),
    {
        self.failures.push(ProjectWriteFailure { name, message });
        proof {
            assert(final(self).failure_log() =~= old(self).failure_log().push(
                ProjectWriteFailureView { name: name@, message: message@ },
            ));
        }
    }

    /// The collected write failures, once every action has been attempted.
    /// The pass itself still counts as completed: write failures are reported
    /// beside the result, they do not abort the foundation.
    pub fn into_failures(self) -> (v: Vec<ProjectWriteFailure>)
        ensures
            failure_views(v@) == self.failure_log(),
    {
        self.failures
    }
}

/// One foundation's failure, tagged with the foundation it belongs to.
pub struct FoundationFailure {
    pub foundation_id: String,
    pub error: FoundationError,
}

/// Mathematical image of a `FoundationFailure`.
pub ghost struct FoundationFailureView {
    pub foundation_id: Seq<char>,
    pub error: FoundationErrorView,
}

impl View for FoundationFailure {
    type V = FoundationFailureView;

    open spec fn view(&self) -> FoundationFailureView {
        FoundationFailureView { foundation_id: self.foundation_id@, error: self.error@ }
    }
}

pub open spec fn foundation_failure_views(s: Seq<FoundationFailure>) -> Seq<
    FoundationFailureView,
> {
    s.map_values(|f: FoundationFailure| f@)
}

/// The run's aggregate failure: every foundation that failed, each with its
/// own error, none collapsed away.
pub struct AggregateError {
    pub failures: Vec<FoundationFailure>,
}

/// What recording one foundation's outcome does to the failure list: a
/// success leaves it alone, a failure appends one tagged entry.
pub open spec fn record_spec(
    failures: Seq<FoundationFailureView>,
    foundation_id: Seq<char>,
    outcome: Option<FoundationErrorView>,
) -> Seq<FoundationFailureView> {
    match outcome {
        None => failures,
        Some(e) => failures.push(FoundationFailureView { foundation_id, error: e }),
    }
}

/// Folds every foundation's outcome into one aggregate run result.
pub struct RunAggregator {
    failures: Vec<FoundationFailure>,
}

impl RunAggregator {
    pub closed spec fn recorded(self) -> Seq<FoundationFailureView> {
        foundation_failure_views(self.failures@)
    }

    pub fn new() -> (agg: Self)
        ensures
            agg.recorded() == Seq::<FoundationFailureView>::empty(),
    {
        let agg = RunAggregator { failures: Vec::new() };
        proof {
            assert(agg.recorded() =~= Seq::<FoundationFailureView>::empty());
        }
        agg
    }

    /// Records one foundation's outcome. Isolation: a failure, a timeout
    /// among them, adds exactly one entry for that foundation and leaves
    /// every other foundation's entry untouched.
    pub fn record(&mut self, foundation_id: String, outcome: Result<(), FoundationError>)
        ensures
            final(self).recorded() == record_spec(
                old(self).recorded(),
                foundation_id@,
                match outcome {
                    Ok(()) => None,
                    Err(e) => Some(e@),
                },
            ),
    {
        match outcome {
            Ok(()) => {
            },
            Err(error) => {
                self.failures.push(FoundationFailure { foundation_id, error });
                proof {
                    assert(final(self).recorded() =~= old(self).recorded().push(
                        final(self).recorded().last()));
                }
            },
        }
    }

    /// The run's outcome: success exactly when no foundation failed, and
    /// otherwise an aggregate error carrying every recorded failure.
    pub fn into_result(self) -> (r: Result<(), AggregateError>)
        ensures
            r is Ok <==> self.recorded().len() == 0,
            match r {
                Ok(()) => true,
                Err(e) => foundation_failure_views(e.failures@) == self.recorded(),
            },
    {
        if self.failures.len() == 0 {
            Ok(())
        } else {
            Err(AggregateError { failures: self.failures })
        }
    }
}

/// Aggregate completeness: when two foundations both fail, the final list
/// holds an entry for each of them; no failure shadows another.
pub proof fn lemma_aggregate_completeness(
    base: Seq<FoundationFailureView>,
    x_id: Seq<char>,
    x_err: FoundationErrorView,
    y_id: Seq<char>,
    y_err: FoundationErrorView,
)
    ensures
        ({
            let after = record_spec(record_spec(base, x_id, Some(x_err)), y_id, Some(y_err));
            &&& exists|i: int|
                0 <= i < after.len() && #[trigger] after[i] == (FoundationFailureView {
                    foundation_id: x_id,
                    error: x_err,
                })
            &&& exists|i: int|
                0 <= i < after.len() && #[trigger] after[i] == (FoundationFailureView {
                    foundation_id: y_id,
                    error: y_err,
                })
        }),
{
    let after = record_spec(record_spec(base, x_id, Some(x_err)), y_id, Some(y_err));
    assert(after[after.len() - 2] == (FoundationFailureView { foundation_id: x_id, error: x_err }));
    assert(after[after.len() - 1] == (FoundationFailureView { foundation_id: y_id, error: y_err }));
}

/// Timeout isolation: recording one foundation's timeout appends exactly one
/// entry for that foundation; what was recorded for every other foundation is
/// exactly as it was.
pub proof fn lemma_timeout_isolation(base: Seq<FoundationFailureView>, slow_id: Seq<char>)
    ensures
        ({
            let after = record_spec(base, slow_id, Some(FoundationErrorView::TimeoutFailure));
            &&& after.len() == base.len() + 1
            &&& forall|i: int| 0 <= i < base.len() ==> after[i] == base[i]
            &&& after.last() == (FoundationFailureView {
                foundation_id: slow_id,
                error: FoundationErrorView::TimeoutFailure,
            })
        }),
{
}

} // verus!

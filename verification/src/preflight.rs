//! Validating a whole batch of sidecars before any file is changed.
//!
//! `Preflight` walks through the sidecars of a batch in order.  It names
//! the path to probe next, takes the answer, and keeps the outcome of
//! every sidecar it has finished.  It goes through the whole batch
//! whatever the answers are, so that the report names every sidecar
//! without a media file and not only the first.

use crate::resolver::{
    candidate, candidate_path, next_action, resolution_in, step_after, NamingPattern, Resolution,
    ResolutionOutcome, ResolverAction, Step,
};
use vstd::prelude::*;
use vstd::string::*;

verus! {

/// The sidecars of a batch for which no media file was found, in the
/// order of the batch.  A batch may go on to change files only when this
/// list is empty.
#[derive(Clone, Debug, PartialEq, Eq)]
pub struct PreflightReport {
    pub unresolved: Vec<String>,
}

/// A batch under validation.
pub struct Preflight {
    sidecars: Vec<String>,
    outcomes: Vec<ResolutionOutcome>,
    probing: NamingPattern,
}

/// The mathematical value of a `Preflight`.
pub struct PreflightState {
    /// The sidecar paths of the batch.
    pub sidecars: Seq<Seq<char>>,
    /// The outcomes of the sidecars finished so far, in the order of the
    /// batch.
    pub outcomes: Seq<Resolution>,
    /// The pattern whose candidate is to be probed next for the sidecar in
    /// progress.
    pub probing: NamingPattern,
}

/// The sidecar paths of the outcomes that are unresolved, in order.
pub open spec fn unresolved_paths(outcomes: Seq<Resolution>) -> Seq<Seq<char>>
    decreases outcomes.len(),
{
    if outcomes.len() == 0 {
        Seq::empty()
    } else {
        let earlier = unresolved_paths(outcomes.drop_last());
        match outcomes.last() {
            Resolution::Unresolved { sidecar_path } => earlier.push(sidecar_path),
            Resolution::Resolved { .. } => earlier,
        }
    }
}

impl PreflightState {
    /// A state that `Preflight` can be in: no more outcomes than
    /// sidecars, and a second probe pending only for a sidecar in
    /// progress.
    pub open spec fn well_formed(self) -> bool {
        &&& self.outcomes.len() <= self.sidecars.len()
        &&& self.probing == NamingPattern::TrailingZero ==> self.outcomes.len()
            < self.sidecars.len()
    }

    /// Whether every sidecar of the batch has its outcome.
    pub open spec fn is_finished(self) -> bool {
        self.outcomes.len() >= self.sidecars.len()
    }

    /// The sidecar in progress.
    pub open spec fn current(self) -> Seq<char>
        recommends
            !self.is_finished(),
    {
        self.sidecars[self.outcomes.len() as int]
    }

    /// The path to probe next, if the batch is not finished.
    pub open spec fn pending_probe(self) -> Option<Seq<char>> {
        if self.is_finished() {
            None
        } else {
            Some(candidate(self.current(), self.probing))
        }
    }

    /// The state after the answer `found` to the pending probe.  A
    /// finished batch stays as it is.
    pub open spec fn record(self, found: bool) -> PreflightState {
        if self.is_finished() {
            self
        } else {
            match step_after(self.current(), self.probing, found) {
                Step::Probe { .. } => PreflightState {
                    probing: NamingPattern::TrailingZero,
                    ..self
                },
                Step::Finish { outcome } => PreflightState {
                    outcomes: self.outcomes.push(outcome),
                    probing: NamingPattern::SwapPosition,
                    ..self
                },
            }
        }
    }

    /// The most probes that may still be asked for: two for each sidecar
    /// not yet begun, and one or two for the sidecar in progress.
    pub open spec fn probes_left(self) -> int {
        2 * (self.sidecars.len() - self.outcomes.len()) - if self.probing
            == NamingPattern::TrailingZero {
            1int
        } else {
            0int
        }
    }

    /// The report on the sidecars finished so far.
    pub open spec fn report(self) -> Seq<Seq<char>> {
        unresolved_paths(self.outcomes)
    }

    /// Whether everything recorded so far is what a file system holding
    /// exactly the paths that satisfy `present` would answer.
    pub open spec fn agrees_with(self, present: spec_fn(Seq<char>) -> bool) -> bool {
        &&& self.well_formed()
        &&& forall|i: int|
            0 <= i < self.outcomes.len() ==> #[trigger] self.outcomes[i] == resolution_in(
                self.sidecars[i],
                present,
            )
        &&& self.probing == NamingPattern::TrailingZero ==> !present(
            candidate(self.current(), NamingPattern::SwapPosition),
        )
    }
}

/// The state in which the validation of a batch begins.
pub open spec fn initial_state(sidecars: Seq<Seq<char>>) -> PreflightState {
    PreflightState { sidecars, outcomes: Seq::empty(), probing: NamingPattern::SwapPosition }
}

/// The sidecars of `sidecars` that have no media file in a file system
/// holding exactly the paths that satisfy `present`, in order.
pub open spec fn unresolved_in(sidecars: Seq<Seq<char>>, present: spec_fn(Seq<char>) -> bool)
    -> Seq<Seq<char>> {
    sidecars.filter(|sidecar: Seq<char>| resolution_in(sidecar, present) is Unresolved)
}

/// Before the first probe the state agrees with every file system.
pub proof fn lemma_initial_state_agrees(
    sidecars: Seq<Seq<char>>,
    present: spec_fn(Seq<char>) -> bool,
)
    ensures
        initial_state(sidecars).agrees_with(present),
        initial_state(sidecars).probes_left() == 2 * sidecars.len(),
{
}

/// Recording the answer that the file system gives to the pending probe
/// keeps the state in agreement with that file system, and leaves fewer
/// probes to make.  So a batch is finished after at most two probes for
/// each of its sidecars.
pub proof fn lemma_record_agrees(
    state: PreflightState,
    found: bool,
    present: spec_fn(Seq<char>) -> bool,
)
    requires
        state.agrees_with(present),
        !state.is_finished(),
        found == present(state.pending_probe()->0),
    ensures
        state.record(found).agrees_with(present),
        0 <= state.record(found).probes_left() < state.probes_left(),
{
    let next = state.record(found);
    match step_after(state.current(), state.probing, found) {
        Step::Probe { .. } => {},
        Step::Finish { outcome } => {
            assert(outcome == resolution_in(state.current(), present));
            assert forall|i: int| 0 <= i < next.outcomes.len() implies #[trigger] next.outcomes[i]
                == resolution_in(next.sidecars[i], present) by {
                if i < state.outcomes.len() {
                    assert(next.outcomes[i] == state.outcomes[i]);
                }
            }
        },
    }
}

/// The unresolved paths among the first `count` outcomes are the
/// unresolved sidecars among the first `count` sidecars.
proof fn lemma_unresolved_prefix(
    state: PreflightState,
    present: spec_fn(Seq<char>) -> bool,
    count: int,
)
    requires
        state.agrees_with(present),
        0 <= count <= state.outcomes.len(),
    ensures
        unresolved_paths(state.outcomes.take(count)) == unresolved_in(
            state.sidecars.take(count),
            present,
        ),
    decreases count,
{
    let unresolved = |sidecar: Seq<char>| resolution_in(sidecar, present) is Unresolved;
    if count == 0 {
        assert(state.sidecars.take(0) =~= Seq::empty());
        assert(state.sidecars.take(0).filter(unresolved) =~= Seq::empty()) by {
            state.sidecars.take(0).lemma_filter_len(unresolved);
        }
    } else {
        lemma_unresolved_prefix(state, present, count - 1);
        let sidecar = state.sidecars[count - 1];
        assert(state.outcomes.take(count).drop_last() =~= state.outcomes.take(count - 1));
        assert(state.outcomes.take(count).last() == state.outcomes[count - 1]);
        assert(state.sidecars.take(count) =~= state.sidecars.take(count - 1).push(sidecar));
        state.sidecars.take(count - 1).lemma_filter_push(sidecar, unresolved);
    }
}

/// When a batch is finished and every answer came from one file system,
/// the report holds exactly the sidecars of the batch without a media
/// file in it, each of them and in the order of the batch.  It is empty,
/// and the batch may go on, exactly when every sidecar is resolved.
pub proof fn lemma_finished_report_is_complete(
    state: PreflightState,
    present: spec_fn(Seq<char>) -> bool,
)
    requires
        state.agrees_with(present),
        state.is_finished(),
    ensures
        state.report() == unresolved_in(state.sidecars, present),
        state.report().len() == 0 <==> forall|i: int|
            0 <= i < state.sidecars.len() ==> resolution_in(
                #[trigger] state.sidecars[i],
                present,
            ) is Resolved,
        forall|i: int|
            0 <= i < state.sidecars.len() && resolution_in(
                #[trigger] state.sidecars[i],
                present,
            ) is Unresolved ==> state.report().contains(state.sidecars[i]),
{
    let unresolved = |sidecar: Seq<char>| resolution_in(sidecar, present) is Unresolved;
    let count = state.outcomes.len() as int;
    lemma_unresolved_prefix(state, present, count);
    assert(state.outcomes.take(count) =~= state.outcomes);
    assert(state.sidecars.take(count) =~= state.sidecars);
    let report = state.sidecars.filter(unresolved);
    assert forall|i: int|
        0 <= i < state.sidecars.len() && resolution_in(
            #[trigger] state.sidecars[i],
            present,
        ) is Unresolved implies report.contains(state.sidecars[i]) by {
        state.sidecars.lemma_filter_contains(unresolved, i);
    }
    if report.len() > 0 {
        state.sidecars.lemma_filter_pred(unresolved, 0);
        assert(report.contains(report[0]));
        state.sidecars.lemma_filter_contains_rev(unresolved, report[0]);
        let j = choose|j: int| 0 <= j < state.sidecars.len() && state.sidecars[j] == report[0];
        assert(resolution_in(state.sidecars[j], present) is Unresolved);
    }
}

/// The state in which the validation ends when it goes on from `state`
/// and every probe is answered by a file system holding exactly the paths
/// that satisfy `present`.
pub open spec fn validated(state: PreflightState, present: spec_fn(Seq<char>) -> bool)
    -> PreflightState
    decreases state.probes_left(),
    when state.well_formed()
{
    if state.is_finished() {
        state
    } else {
        validated(state.record(present(state.pending_probe()->0)), present)
    }
}

/// Going on from a state that agrees with a file system ends in a
/// finished state of the same batch that agrees with it too.
proof fn lemma_validated_agrees(state: PreflightState, present: spec_fn(Seq<char>) -> bool)
    requires
        state.agrees_with(present),
    ensures
        validated(state, present).agrees_with(present),
        validated(state, present).is_finished(),
        validated(state, present).sidecars == state.sidecars,
    decreases state.probes_left(),
{
    if !state.is_finished() {
        let found = present(state.pending_probe()->0);
        lemma_record_agrees(state, found, present);
        lemma_validated_agrees(state.record(found), present);
    }
}

/// The validation of a batch against a file system ends, and its report
/// then holds exactly the sidecars of the batch that have no media file
/// in that file system: every one of them, not only the first, and in the
/// order of the batch.  The report is empty, and the batch may go on,
/// exactly when no sidecar is unresolved.
pub proof fn lemma_validation_is_complete(
    sidecars: Seq<Seq<char>>,
    present: spec_fn(Seq<char>) -> bool,
)
    ensures
        validated(initial_state(sidecars), present).is_finished(),
        validated(initial_state(sidecars), present).report() == unresolved_in(sidecars, present),
        validated(initial_state(sidecars), present).report().len() == 0 <==> forall|i: int|
            0 <= i < sidecars.len() ==> resolution_in(#[trigger] sidecars[i], present) is Resolved,
        forall|i: int|
            0 <= i < sidecars.len() && resolution_in(#[trigger] sidecars[i], present)
                is Unresolved ==> validated(initial_state(sidecars), present).report().contains(
                sidecars[i],
            ),
{
    lemma_initial_state_agrees(sidecars, present);
    lemma_validated_agrees(initial_state(sidecars), present);
    lemma_finished_report_is_complete(validated(initial_state(sidecars), present), present);
}

impl View for Preflight {
    type V = PreflightState;

    closed spec fn view(&self) -> PreflightState {
        PreflightState {
            sidecars: self.sidecars.deep_view(),
            outcomes: self.outcomes@.map_values(|outcome: ResolutionOutcome| outcome@),
            probing: self.probing,
        }
    }
}

impl Preflight {
    /// Begins the validation of the batch `sidecars`.
    pub fn new(sidecars: Vec<String>) -> (preflight: Preflight)
        ensures
            preflight@ == initial_state(sidecars.deep_view()),
    {
        let preflight = Preflight {
            sidecars,
            outcomes: Vec::new(),
            probing: NamingPattern::SwapPosition,
        };
        assert(preflight@.outcomes =~= Seq::empty());
        preflight
    }

    /// Whether every sidecar of the batch has its outcome.
    pub fn is_finished(&self) -> (finished: bool)
        ensures
            finished == self@.is_finished(),
    {
        self.outcomes.len() >= self.sidecars.len()
    }

    /// The path whose existence the caller is to find out next, or `None`
    /// when the batch is finished.
    pub fn pending_probe(&self) -> (probe: Option<String>)
        ensures
            match probe {
                Some(path) => self@.pending_probe() == Some(path@),
                None => self@.pending_probe() is None,
            },
    {
        let done = self.outcomes.len();
        if done >= self.sidecars.len() {
            None
        } else {
            Some(candidate_path(self.sidecars[done].as_str(), self.probing))
        }
    }

    /// Takes the answer to the pending probe: `found` says whether the
    /// path exists.  On a finished batch nothing changes.
    pub fn record(&mut self, found: bool)
        ensures
            final(self)@ == old(self)@.record(found),
    {
        let done = self.outcomes.len();
        if done >= self.sidecars.len() {
            return ;
        }
        let action = next_action(self.sidecars[done].as_str(), self.probing, found);
        match action {
            ResolverAction::Probe { path } => {
                self.probing = NamingPattern::TrailingZero;
            },
            ResolverAction::Finish { outcome } => {
                let ghost before = self.outcomes@;
                self.probing = NamingPattern::SwapPosition;
                self.outcomes.push(outcome);
                assert(self.outcomes@.map_values(|outcome: ResolutionOutcome| outcome@)
                    =~= before.map_values(|outcome: ResolutionOutcome| outcome@).push(outcome@));
            },
        }
    }

    /// The outcomes of the sidecars finished so far, in the order of the
    /// batch.
    pub fn outcomes(&self) -> (outcomes: &Vec<ResolutionOutcome>)
        ensures
            outcomes@.map_values(|outcome: ResolutionOutcome| outcome@) == self@.outcomes,
    {
        &self.outcomes
    }

    /// The report on the sidecars finished so far: every one of them that
    /// is unresolved, in the order of the batch.
    pub fn report(&self) -> (report: PreflightReport)
        ensures
            report.unresolved.deep_view() == self@.report(),
    {
        let mut unresolved: Vec<String> = Vec::new();
        let ghost all = self@.outcomes;
        assert(unresolved.deep_view() =~= unresolved_paths(all.take(0)));
        for i in 0..self.outcomes.len()
            invariant
                all == self@.outcomes,
                all.len() == self.outcomes.len(),
                unresolved.deep_view() == unresolved_paths(all.take(i as int)),
        {
            let ghost earlier = unresolved.deep_view();
            assert(all.take(i + 1).drop_last() =~= all.take(i as int));
            assert(all.take(i + 1).last() == self.outcomes@[i as int]@);
            match &self.outcomes[i] {
                ResolutionOutcome::Unresolved { sidecar_path } => {
                    unresolved.push(sidecar_path.clone());
                    assert(unresolved.deep_view() =~= earlier.push(sidecar_path@));
                },
                ResolutionOutcome::Resolved { .. } => {},
            }
        }
        assert(all.take(all.len() as int) =~= all);
        PreflightReport { unresolved }
    }
}

impl PreflightReport {
    /// Whether the batch may go on to change files: no sidecar is
    /// unresolved.
    pub fn permits_mutation(&self) -> (permitted: bool)
        ensures
            permitted == (self.unresolved.deep_view().len() == 0),
    {
        self.unresolved.len() == 0
    }
}

} // verus!

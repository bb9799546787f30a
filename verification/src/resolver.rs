//! Resolving a sidecar to the media file it describes.
//!
//! A sidecar has two candidates, in a fixed order of priority: the one
//! with counter and extension swapped back, then the one with a trailing
//! zero restored.  Whether a candidate exists is for the caller to find
//! out.  This module decides which path to probe next and what follows
//! from the answer, and never touches the file system itself.

use crate::fix_stupid_google_photos_takeout_naming_bug::{
    fix_image_file_path_by_fix_0, get_new_image_file_path_by_swap_position, swap_candidate,
    trailing_zero_candidate,
};
use vstd::prelude::*;
use vstd::string::*;

verus! {

/// The two ways in which a sidecar name is known to differ from the name
/// of its media file, in order of priority.
#[derive(Clone, Copy, Debug, PartialEq, Eq)]
pub enum NamingPattern {
    /// The duplicate counter and the extension have changed places.
    SwapPosition,
    /// The counter has lost a trailing zero, and the media file is a PNG.
    TrailingZero,
}

/// What resolving a sidecar ends in.
#[derive(Clone, Debug, PartialEq, Eq)]
pub enum ResolutionOutcome {
    /// The media file was found under the given pattern.
    Resolved { media_path: String, pattern: NamingPattern },
    /// Neither candidate exists.
    Unresolved { sidecar_path: String },
}

/// What the caller is to do next for a sidecar.
#[derive(Clone, Debug, PartialEq, Eq)]
pub enum ResolverAction {
    /// Find out whether this path exists and report the answer.
    Probe { path: String },
    /// Nothing is left to find out.
    Finish { outcome: ResolutionOutcome },
}

/// The mathematical value of a `ResolutionOutcome`.
pub enum Resolution {
    Resolved { media_path: Seq<char>, pattern: NamingPattern },
    Unresolved { sidecar_path: Seq<char> },
}

/// The mathematical value of a `ResolverAction`.
pub enum Step {
    Probe { path: Seq<char> },
    Finish { outcome: Resolution },
}

impl View for ResolutionOutcome {
    type V = Resolution;

    open spec fn view(&self) -> Resolution {
        match *self {
            ResolutionOutcome::Resolved { media_path, pattern } => Resolution::Resolved {
                media_path: media_path@,
                pattern,
            },
            ResolutionOutcome::Unresolved { sidecar_path } => Resolution::Unresolved {
                sidecar_path: sidecar_path@,
            },
        }
    }
}

impl View for ResolverAction {
    type V = Step;

    open spec fn view(&self) -> Step {
        match *self {
            ResolverAction::Probe { path } => Step::Probe { path: path@ },
            ResolverAction::Finish { outcome } => Step::Finish { outcome: outcome@ },
        }
    }
}

/// The candidate of the sidecar at `sidecar_path` under `pattern`.
pub open spec fn candidate(sidecar_path: Seq<char>, pattern: NamingPattern) -> Seq<char> {
    match pattern {
        NamingPattern::SwapPosition => swap_candidate(sidecar_path),
        NamingPattern::TrailingZero => trailing_zero_candidate(sidecar_path),
    }
}

/// The outcome for the sidecar at `sidecar_path`, given whether each of
/// its two candidates exists.  The first candidate wins whenever it
/// exists; the second counts only when the first is absent.
pub open spec fn resolution(sidecar_path: Seq<char>, swap_exists: bool, zero_exists: bool)
    -> Resolution {
    if swap_exists {
        Resolution::Resolved {
            media_path: swap_candidate(sidecar_path),
            pattern: NamingPattern::SwapPosition,
        }
    } else if zero_exists {
        Resolution::Resolved {
            media_path: trailing_zero_candidate(sidecar_path),
            pattern: NamingPattern::TrailingZero,
        }
    } else {
        Resolution::Unresolved { sidecar_path }
    }
}

/// The outcome for the sidecar at `sidecar_path` in a file system where
/// exactly the paths that satisfy `present` exist.
pub open spec fn resolution_in(sidecar_path: Seq<char>, present: spec_fn(Seq<char>) -> bool)
    -> Resolution {
    resolution(
        sidecar_path,
        present(swap_candidate(sidecar_path)),
        present(trailing_zero_candidate(sidecar_path)),
    )
}

/// What follows when the candidate under `probed` was probed with the
/// answer `found`: a hit finishes with that candidate, a miss on the
/// first candidate asks for the second, a miss on the second finishes
/// without a media file.
pub open spec fn step_after(sidecar_path: Seq<char>, probed: NamingPattern, found: bool) -> Step {
    if found {
        Step::Finish {
            outcome: Resolution::Resolved {
                media_path: candidate(sidecar_path, probed),
                pattern: probed,
            },
        }
    } else {
        match probed {
            NamingPattern::SwapPosition => Step::Probe {
                path: trailing_zero_candidate(sidecar_path),
            },
            NamingPattern::TrailingZero => Step::Finish {
                outcome: Resolution::Unresolved { sidecar_path },
            },
        }
    }
}

/// When both candidates exist the first one is taken: the outcome is the
/// swap-position candidate.  It is so whenever the swap-position candidate
/// exists, whether or not the trailing-zero candidate is there.
pub proof fn lemma_swap_position_preferred(
    sidecar_path: Seq<char>,
    present: spec_fn(Seq<char>) -> bool,
)
    requires
        present(swap_candidate(sidecar_path)),
    ensures
        resolution_in(sidecar_path, present) == (Resolution::Resolved {
            media_path: swap_candidate(sidecar_path),
            pattern: NamingPattern::SwapPosition,
        }),
        forall|zero_exists: bool| #[trigger]
            resolution(sidecar_path, true, zero_exists) == resolution_in(sidecar_path, present),
{
}

/// Probing in the order that `first_action` and `next_action` ask for
/// ends in `resolution`: the answer to the first probe decides alone when
/// it is a hit, and otherwise the answer to the second does.
pub proof fn lemma_steps_reach_resolution(
    sidecar_path: Seq<char>,
    swap_exists: bool,
    zero_exists: bool,
)
    ensures
        swap_exists ==> step_after(sidecar_path, NamingPattern::SwapPosition, swap_exists)
            == (Step::Finish { outcome: resolution(sidecar_path, swap_exists, zero_exists) }),
        !swap_exists ==> step_after(sidecar_path, NamingPattern::SwapPosition, swap_exists)
            == (Step::Probe { path: trailing_zero_candidate(sidecar_path) }),
        !swap_exists ==> step_after(sidecar_path, NamingPattern::TrailingZero, zero_exists)
            == (Step::Finish { outcome: resolution(sidecar_path, swap_exists, zero_exists) }),
{
}

/// The candidate of the sidecar at `sidecar_path` under `pattern`.
pub fn candidate_path(sidecar_path: &str, pattern: NamingPattern) -> (path: String)
    ensures
        path@ == candidate(sidecar_path@, pattern),
{
    match pattern {
        NamingPattern::SwapPosition => get_new_image_file_path_by_swap_position(sidecar_path),
        NamingPattern::TrailingZero => fix_image_file_path_by_fix_0(sidecar_path),
    }
}

/// The outcome for the sidecar at `sidecar_path`, given whether each of
/// its two candidates exists.
pub fn resolve(sidecar_path: &str, swap_exists: bool, zero_exists: bool) -> (outcome:
    ResolutionOutcome)
    ensures
        outcome@ == resolution(sidecar_path@, swap_exists, zero_exists),
{
    if swap_exists {
        ResolutionOutcome::Resolved {
            media_path: get_new_image_file_path_by_swap_position(sidecar_path),
            pattern: NamingPattern::SwapPosition,
        }
    } else if zero_exists {
        ResolutionOutcome::Resolved {
            media_path: fix_image_file_path_by_fix_0(sidecar_path),
            pattern: NamingPattern::TrailingZero,
        }
    } else {
        ResolutionOutcome::Unresolved { sidecar_path: String::from_str(sidecar_path) }
    }
}

/// The first thing to do for a sidecar: probe its swap-position candidate.
pub fn first_action(sidecar_path: &str) -> (action: ResolverAction)
    ensures
        action@ == (Step::Probe { path: swap_candidate(sidecar_path@) }),
{
    ResolverAction::Probe { path: get_new_image_file_path_by_swap_position(sidecar_path) }
}

/// What to do after the candidate under `probed` was probed with the
/// answer `found`.
pub fn next_action(sidecar_path: &str, probed: NamingPattern, found: bool) -> (action:
    ResolverAction)
    ensures
        action@ == step_after(sidecar_path@, probed, found),
{
    if found {
        ResolverAction::Finish {
            outcome: ResolutionOutcome::Resolved {
                media_path: candidate_path(sidecar_path, probed),
                pattern: probed,
            },
        }
    } else {
        match probed {
            NamingPattern::SwapPosition => ResolverAction::Probe {
                path: fix_image_file_path_by_fix_0(sidecar_path),
            },
            NamingPattern::TrailingZero => ResolverAction::Finish {
                outcome: ResolutionOutcome::Unresolved {
                    sidecar_path: String::from_str(sidecar_path),
                },
            },
        }
    }
}

} // verus!

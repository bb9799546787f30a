use google_photos_fix_metadata::preflight::{Preflight, PreflightReport};
use google_photos_fix_metadata::resolver::{
    candidate_path, first_action, next_action, resolve, NamingPattern, ResolutionOutcome,
    ResolverAction,
};
use std::collections::HashSet;

fn resolved(path: &str, pattern: NamingPattern) -> ResolutionOutcome {
    ResolutionOutcome::Resolved { media_path: String::from(path), pattern }
}

fn unresolved(path: &str) -> ResolutionOutcome {
    ResolutionOutcome::Unresolved { sidecar_path: String::from(path) }
}

/// Runs a batch against a fixed set of files and counts the probes.
fn run(sidecars: &[&str], files: &[&str]) -> (Preflight, Vec<String>) {
    let present: HashSet<&str> = files.iter().copied().collect();
    let mut preflight = Preflight::new(sidecars.iter().map(|s| s.to_string()).collect());
    let mut probes = Vec::new();
    while let Some(path) = preflight.pending_probe() {
        preflight.record(present.contains(path.as_str()));
        probes.push(path);
    }
    (preflight, probes)
}

#[test]
fn candidates_of_each_pattern() {
    assert_eq!(candidate_path("d/IMG.HEIC(2).json", NamingPattern::SwapPosition), "d/IMG(2).HEIC");
    assert_eq!(candidate_path("d/IMG.HEIC(2).json", NamingPattern::TrailingZero), "d/IMG0.png");
}

#[test]
fn swap_position_wins_when_both_exist() {
    assert_eq!(
        resolve("d/shot.jpg(1).json", true, true),
        resolved("d/shot(1).jpg", NamingPattern::SwapPosition)
    );
    assert_eq!(resolve("d/shot.jpg(1).json", true, true), resolve("d/shot.jpg(1).json", true, false));
}

#[test]
fn trailing_zero_is_the_fallback() {
    assert_eq!(
        resolve("d/shot-0000.json", false, true),
        resolved("d/shot-00000.png", NamingPattern::TrailingZero)
    );
}

#[test]
fn neither_candidate_leaves_the_sidecar_unresolved() {
    assert_eq!(resolve("d/orphan.jpg(1).json", false, false), unresolved("d/orphan.jpg(1).json"));
}

#[test]
fn first_probe_is_the_swap_position_candidate() {
    assert_eq!(
        first_action("d/shot.jpg(1).json"),
        ResolverAction::Probe { path: String::from("d/shot(1).jpg") }
    );
}

#[test]
fn hit_on_the_first_probe_finishes() {
    assert_eq!(
        next_action("d/shot.jpg(1).json", NamingPattern::SwapPosition, true),
        ResolverAction::Finish { outcome: resolved("d/shot(1).jpg", NamingPattern::SwapPosition) }
    );
}

#[test]
fn miss_on_the_first_probe_asks_for_the_second() {
    assert_eq!(
        next_action("d/shot.jpg(1).json", NamingPattern::SwapPosition, false),
        ResolverAction::Probe { path: String::from("d/shot0.png") }
    );
}

#[test]
fn second_probe_decides() {
    assert_eq!(
        next_action("d/shot.jpg(1).json", NamingPattern::TrailingZero, true),
        ResolverAction::Finish { outcome: resolved("d/shot0.png", NamingPattern::TrailingZero) }
    );
    assert_eq!(
        next_action("d/shot.jpg(1).json", NamingPattern::TrailingZero, false),
        ResolverAction::Finish { outcome: unresolved("d/shot.jpg(1).json") }
    );
}

#[test]
fn batch_without_unresolved_sidecars_is_cleared() {
    let (preflight, probes) = run(
        &["d/a.jpg(1).json", "d/b.png.json", "d/c-000.json"],
        &["d/a(1).jpg", "d/b.png", "d/c-0000.png"],
    );
    assert!(preflight.is_finished());
    let report = preflight.report();
    assert_eq!(report, PreflightReport { unresolved: vec![] });
    assert!(report.permits_mutation());
    assert_eq!(
        preflight.outcomes(),
        &vec![
            resolved("d/a(1).jpg", NamingPattern::SwapPosition),
            resolved("d/b.png", NamingPattern::SwapPosition),
            resolved("d/c-0000.png", NamingPattern::TrailingZero),
        ]
    );
    assert_eq!(probes, vec!["d/a(1).jpg", "d/b.png", "d/c-000", "d/c-0000.png"]);
}

#[test]
fn report_names_every_unresolved_sidecar() {
    let (preflight, _) = run(
        &["d/lost.jpg(1).json", "d/a.jpg(1).json", "d/gone.png.json", "d/alsogone.json"],
        &["d/a(1).jpg"],
    );
    let report = preflight.report();
    assert_eq!(
        report.unresolved,
        vec!["d/lost.jpg(1).json", "d/gone.png.json", "d/alsogone.json"]
    );
    assert!(!report.permits_mutation());
}

#[test]
fn orphan_is_reported() {
    let (preflight, probes) = run(&["orphan.jpg(1).json"], &[]);
    assert_eq!(probes, vec!["orphan(1).jpg", "orphan0.png"]);
    assert_eq!(preflight.report().unresolved, vec!["orphan.jpg(1).json"]);
    assert_eq!(preflight.outcomes(), &vec![unresolved("orphan.jpg(1).json")]);
}

#[test]
fn both_candidates_present_resolve_to_swap_position_in_a_batch() {
    let (preflight, probes) = run(&["d/x.jpg(1).json"], &["d/x(1).jpg", "d/x0.png"]);
    assert_eq!(probes, vec!["d/x(1).jpg"]);
    assert_eq!(preflight.outcomes(), &vec![resolved("d/x(1).jpg", NamingPattern::SwapPosition)]);
}

#[test]
fn at_most_two_probes_for_each_sidecar() {
    let sidecars = ["a.json", "b.jpg(1).json", "c.json", "d.json"];
    let (preflight, probes) = run(&sidecars, &["c"]);
    assert!(preflight.is_finished());
    assert_eq!(probes.len(), 7);
    assert_eq!(preflight.outcomes().len(), sidecars.len());
}

#[test]
fn empty_batch_is_finished_at_once() {
    let preflight = Preflight::new(Vec::new());
    assert!(preflight.is_finished());
    assert_eq!(preflight.pending_probe(), None);
    assert!(preflight.report().permits_mutation());
}

#[test]
fn report_before_the_end_covers_what_is_finished() {
    let mut preflight = Preflight::new(vec![String::from("a.json"), String::from("b.json")]);
    assert!(!preflight.is_finished());
    assert_eq!(preflight.pending_probe(), Some(String::from("a")));
    preflight.record(false);
    assert_eq!(preflight.pending_probe(), Some(String::from("a0.png")));
    assert_eq!(preflight.report().unresolved, Vec::<String>::new());
    preflight.record(false);
    assert_eq!(preflight.report().unresolved, vec!["a.json"]);
    assert_eq!(preflight.pending_probe(), Some(String::from("b")));
    preflight.record(true);
    assert!(preflight.is_finished());
    assert_eq!(preflight.report().unresolved, vec!["a.json"]);
}

#[test]
fn answers_after_the_end_change_nothing() {
    let (mut preflight, _) = run(&["a.json"], &["a"]);
    preflight.record(false);
    preflight.record(true);
    assert!(preflight.is_finished());
    assert_eq!(preflight.outcomes(), &vec![resolved("a", NamingPattern::SwapPosition)]);
    assert!(preflight.report().permits_mutation());
}

use equicord_launcher::gate::{
    check_outputs, contains_str, is_required_output, needs_rebuild, plan_repo_sync, OutputStatus,
    RepoSyncAction,
};
use equicord_launcher::patch::{plan_patch, PatchAction};
use equicord_launcher::records::BuildState;

fn stored(commit: &str, hash: &str) -> Option<BuildState> {
    Some(BuildState {
        git_commit: commit.to_string(),
        userplugins_hash: hash.to_string(),
    })
}

fn outputs(rows: &[(&str, bool)]) -> Vec<OutputStatus> {
    rows.iter()
        .map(|(n, p)| OutputStatus { name: n.to_string(), present: *p })
        .collect()
}

#[test]
fn rebuild_when_no_state_is_stored() {
    let outs = outputs(&[("patcher.js", true)]);
    assert!(needs_rebuild(&None, &"abc123".to_string(), &"h1".to_string(), &outs));
}

#[test]
fn rebuild_skipped_when_key_matches_and_outputs_complete() {
    // Stored (commit, fingerprint) equals the current pair and every
    // required output is present: no rebuild, no external build invocation.
    let outs = outputs(&[("patcher.js", true), ("preload.js", true)]);
    assert!(!needs_rebuild(
        &stored("abc123", "h1"),
        &"abc123".to_string(),
        &"h1".to_string(),
        &outs
    ));
}

#[test]
fn rebuild_when_required_output_is_missing() {
    let outs = outputs(&[("patcher.js", false), ("preload.js", true)]);
    assert!(needs_rebuild(
        &stored("abc123", "h1"),
        &"abc123".to_string(),
        &"h1".to_string(),
        &outs
    ));
}

#[test]
fn rebuild_when_revision_differs() {
    let outs = outputs(&[("patcher.js", true)]);
    assert!(needs_rebuild(
        &stored("abc123", "h1"),
        &"def456".to_string(),
        &"h1".to_string(),
        &outs
    ));
}

#[test]
fn rebuild_when_fingerprint_differs() {
    let outs = outputs(&[("patcher.js", true)]);
    assert!(needs_rebuild(
        &stored("abc123", "h1"),
        &"abc123".to_string(),
        &"h2".to_string(),
        &outs
    ));
}

#[test]
fn legal_text_outputs_are_exempt_from_completeness() {
    assert!(is_required_output("patcher.js"));
    assert!(!is_required_output("patcher.js.LEGAL.txt"));
    let outs = outputs(&[("patcher.js", true), ("patcher.js.LEGAL.txt", false)]);
    assert!(check_outputs(&outs));
    assert!(!needs_rebuild(
        &stored("abc123", "h1"),
        &"abc123".to_string(),
        &"h1".to_string(),
        &outs
    ));
}

#[test]
fn substring_search_exact_behavior() {
    assert!(contains_str("patcher.js.LEGAL.txt", "LEGAL"));
    assert!(!contains_str("patcher.js", "LEGAL"));
    assert!(contains_str("anything", ""));
    assert!(!contains_str("no", "LEGAL"));
}

#[test]
fn repo_sync_clones_only_without_local_metadata() {
    assert_eq!(plan_repo_sync(false), RepoSyncAction::ShallowClone);
    assert_eq!(plan_repo_sync(true), RepoSyncAction::FetchAndReset);
}

#[test]
fn patch_plan_truth_table() {
    assert_eq!(plan_patch(false, true), PatchAction::BackupThenReplace);
    assert_eq!(plan_patch(true, true), PatchAction::ReplaceOnly);
    assert_eq!(plan_patch(true, false), PatchAction::ReplaceOnly);
    assert_eq!(plan_patch(false, false), PatchAction::Nothing);
}

#[test]
fn patch_never_backs_up_twice() {
    // Once a backup exists, a later invocation only replaces the target:
    // the pristine original stays recoverable.
    let second = plan_patch(true, true);
    assert!(!matches!(second, PatchAction::BackupThenReplace));
}

//! Backup-and-replace planning for patching a single file that belongs to
//! another, possibly running application.
//!
//! The patcher preserves the pristine original exactly once: the first run
//! that finds a target but no backup renames the target to the backup
//! location, and only while a backup exists is the replacement ever copied
//! over the target.  Every step is best effort; a failed step leaves the
//! state as it was.  The planner here decides which steps to attempt, and the
//! `patch_step` model states what any attempt, failed or not, does to the
//! three files involved, so that the once-only backup guarantee is a theorem
//! rather than a convention.

use vstd::prelude::*;

verus! {

/// The action a single patch invocation attempts.
#[derive(PartialEq, Eq, Structural, Debug, Clone, Copy)]
pub enum PatchAction {
    /// No backup yet, but the target exists: rename the target to the backup
    /// location, then copy the replacement over the target.
    BackupThenReplace,
    /// A backup already exists: only copy the replacement over the target.
    ReplaceOnly,
    /// Neither a backup nor a target exists: attempt nothing.
    Nothing,
}

/// What a patch invocation decides to attempt, given which of the two files
/// currently exist.
pub open spec fn spec_plan_patch(backup_exists: bool, target_exists: bool) -> PatchAction {
    if !backup_exists && target_exists {
        PatchAction::BackupThenReplace
    } else if backup_exists {
        PatchAction::ReplaceOnly
    } else {
        PatchAction::Nothing
    }
}

/// Decide which patch steps to attempt.  `backup_exists` and `target_exists`
/// say whether the backup file and the target file are currently present.
pub fn plan_patch(backup_exists: bool, target_exists: bool) -> (action: PatchAction)
    ensures
        action == spec_plan_patch(backup_exists, target_exists),
{
    if !backup_exists && target_exists {
        PatchAction::BackupThenReplace
    } else if backup_exists {
        PatchAction::ReplaceOnly
    } else {
        PatchAction::Nothing
    }
}

/// The two file slots a patch invocation may change: the target file of the
/// host application and the backup of its original content.  `None` means
/// the file does not exist.
pub struct PatchFiles {
    pub target: Option<Seq<u8>>,
    pub backup: Option<Seq<u8>>,
}

/// The state after one patch invocation on state `s` with replacement
/// content `repl`.  `rename_ok` and `copy_ok` say whether the rename step
/// and the copy step, where attempted, succeeded; a failed step changes
/// nothing.  A successful rename moves the target to the backup slot, so a
/// rename that succeeds while the following copy fails leaves no target.
pub open spec fn patch_step(
    s: PatchFiles,
    repl: Seq<u8>,
    rename_ok: bool,
    copy_ok: bool,
) -> PatchFiles {
    match spec_plan_patch(s.backup is Some, s.target is Some) {
        PatchAction::BackupThenReplace => {
            if rename_ok {
                if copy_ok {
                    (PatchFiles { target: Some(repl), backup: s.target })
                } else {
                    (PatchFiles { target: None, backup: s.target })
                }
            } else {
                s
            }
        },
        PatchAction::ReplaceOnly => {
            if copy_ok {
                (PatchFiles { target: Some(repl), backup: s.backup })
            } else {
                s
            }
        },
        PatchAction::Nothing => s,
    }
}

/// Once a backup exists it is never overwritten: any later patch invocation,
/// whether its steps succeed or fail, leaves the backup exactly as it was.
pub proof fn lemma_backup_never_overwritten(
    s: PatchFiles,
    repl: Seq<u8>,
    rename_ok: bool,
    copy_ok: bool,
)
    requires
        s.backup is Some,
    ensures
        patch_step(s, repl, rename_ok, copy_ok).backup == s.backup,
{
}

/// Patching twice in succession never changes the backup after the first
/// invocation has produced one, even if the second invocation's copy step
/// fails.
pub proof fn lemma_patch_twice_preserves_backup(
    s: PatchFiles,
    repl: Seq<u8>,
    rename_ok1: bool,
    copy_ok1: bool,
    rename_ok2: bool,
    copy_ok2: bool,
)
    ensures
        ({
            let s1 = patch_step(s, repl, rename_ok1, copy_ok1);
            s1.backup is Some ==> patch_step(s1, repl, rename_ok2, copy_ok2).backup == s1.backup
        }),
{
}

/// A fully successful patch is idempotent: running it again changes neither
/// the target nor the backup.
pub proof fn lemma_patch_idempotent(s: PatchFiles, repl: Seq<u8>)
    ensures
        patch_step(patch_step(s, repl, true, true), repl, true, true)
            == patch_step(s, repl, true, true),
{
}

} // verus!

//! The rebuild gate of the build pipeline, and the repository sync decision.
//!
//! A rebuild is needed exactly when there is no stored build state, when the
//! stored revision or directory fingerprint differs from the current one, or
//! when a required output file is missing from the cache directory — the
//! last clause makes the cache self-healing against a corrupted or partially
//! populated output directory.  Output files whose name marks them as legal
//! text are exempt from the completeness check, since they may legitimately
//! be absent from fresh builds.

use vstd::prelude::*;
use crate::records::{match_lit, BuildState, BuildStateModel};

verus! {

/// Whether `p` occurs as a contiguous part of `s`.
pub open spec fn contains_seq(s: Seq<char>, p: Seq<char>) -> bool {
    exists|i: int| 0 <= i <= s.len() - p.len() && #[trigger] s.subrange(i, i + p.len()) == p
}

/// Whether `p` occurs as a contiguous part of `s`.
pub fn contains_str(s: &str, p: &str) -> (r: bool)
    ensures
        r == contains_seq(s@, p@),
{
    let n = s.unicode_len();
    let m = p.unicode_len();
    if m > n {
        return false;
    }
    if m == 0 {
        proof {
            assert(contains_seq(s@, p@)) by {
                assert(s@.subrange(0, 0 + p@.len() as int) =~= p@);
            }
        }
        return true;
    }
    let mut i: usize = 0;
    while i <= n - m
        invariant
            0 < m <= n,
            n == s@.len(),
            m == p@.len(),
            i <= n - m + 1,
            forall|k: int| 0 <= k < i ==> #[trigger] s@.subrange(k, k + p@.len()) != p@,
        decreases n - i,
    {
        match match_lit(s, i, p) {
            Some(_) => {
                proof {
                    assert(s@.subrange(i as int, i + p@.len()) == p@);
                }
                return true;
            },
            None => {
            },
        }
        i = i + 1;
    }
    false
}

/// A build output file is required unless its name marks it as legal text
/// only.
pub open spec fn spec_is_required_output(name: Seq<char>) -> bool {
    !contains_seq(name, "LEGAL"@)
}

/// Whether a build output of this name takes part in the completeness check.
pub fn is_required_output(name: &str) -> (r: bool)
    ensures
        r == spec_is_required_output(name@),
{
    !contains_str(name, "LEGAL")
}

/// One expected build output file and whether it is present in the cache
/// directory.
pub struct OutputStatus {
    pub name: String,
    pub present: bool,
}

/// The mathematical value of an [`OutputStatus`].
pub struct OutputStatusModel {
    pub name: Seq<char>,
    pub present: bool,
}

impl View for OutputStatus {
    type V = OutputStatusModel;

    open spec fn view(&self) -> OutputStatusModel {
        OutputStatusModel { name: self.name@, present: self.present }
    }
}

impl DeepView for OutputStatus {
    type V = OutputStatusModel;

    open spec fn deep_view(&self) -> OutputStatusModel {
        self.view()
    }
}

/// Whether every required output is present.
pub open spec fn outputs_complete(outs: Seq<OutputStatusModel>) -> bool {
    forall|i: int|
        0 <= i < outs.len() ==> (spec_is_required_output(#[trigger] outs[i].name)
            ==> outs[i].present)
}

/// Check that every required output is present.
pub fn check_outputs(outs: &Vec<OutputStatus>) -> (r: bool)
    ensures
        r == outputs_complete(outs.deep_view()),
{
    let ghost dv = outs.deep_view();
    let mut i: usize = 0;
    while i < outs.len()
        invariant
            i <= outs.len(),
            dv == outs.deep_view(),
            forall|k: int|
                0 <= k < i ==> (spec_is_required_output(#[trigger] dv[k].name) ==> dv[k].present),
        decreases outs.len() - i,
    {
        proof {
            assert(dv[i as int].name == outs@[i as int].name@);
        }
        if is_required_output(outs[i].name.as_str()) && !outs[i].present {
            return false;
        }
        i = i + 1;
    }
    true
}

/// Whether a rebuild is needed, given the stored build state, the current
/// repository revision, the current plugin directory fingerprint, and the
/// presence of each expected output file.
pub open spec fn spec_needs_rebuild(
    stored: Option<BuildStateModel>,
    commit: Seq<char>,
    fp: Seq<char>,
    outs: Seq<OutputStatusModel>,
) -> bool {
    match stored {
        None => true,
        Some(st) => st.git_commit != commit || st.userplugins_hash != fp || !outputs_complete(
            outs,
        ),
    }
}

/// Decide whether the build pipeline must run.  True exactly when no build
/// state is stored, when the stored revision or fingerprint differs from the
/// current one, or when a required output file is missing.
pub fn needs_rebuild(
    stored: &Option<BuildState>,
    commit: &String,
    fp: &String,
    outputs: &Vec<OutputStatus>,
) -> (r: bool)
    ensures
        r == spec_needs_rebuild(
            match stored {
                Some(st) => Some(st@),
                None => None,
            },
            commit@,
            fp@,
            outputs.deep_view(),
        ),
{
    match stored {
        None => true,
        Some(st) => {
            if !(st.git_commit == *commit) {
                true
            } else if !(st.userplugins_hash == *fp) {
                true
            } else {
                !check_outputs(outputs)
            }
        },
    }
}

/// How the pinned branch of the source repository is brought up to date.
#[derive(PartialEq, Eq, Structural, Debug, Clone, Copy)]
pub enum RepoSyncAction {
    /// No local clone yet: clone the pinned branch shallowly into a fresh
    /// parent directory.
    ShallowClone,
    /// A clone exists: fetch the pinned branch and hard-reset the local tip
    /// to the fetched remote tip, discarding local divergence.  A merge is
    /// never attempted, so upstream history rewrites are tolerated.
    FetchAndReset,
}

/// Decide how to sync the repository, from whether local clone metadata is
/// already present.
pub fn plan_repo_sync(clone_present: bool) -> (a: RepoSyncAction)
    ensures
        a == (if clone_present {
            RepoSyncAction::FetchAndReset
        } else {
            RepoSyncAction::ShallowClone
        }),
{
    if clone_present {
        RepoSyncAction::FetchAndReset
    } else {
        RepoSyncAction::ShallowClone
    }
}

} // verus!

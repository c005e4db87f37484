//! The announcer: the enumerated outcomes the engine reports. The
//! orchestration emits these variants; rendering them to text is the
//! caller's job, so wording never reaches the engine.

use vstd::prelude::*;

use crate::stack::StackEndReason;

verus! {

/// Everything the engine can announce: per-commit events, the how-to-squash
/// hint, the empty-index outcomes, the no-destination diagnoses, and the
/// reasons the stack ended where it did.
#[derive(Clone, Copy, PartialEq, Eq, Structural, Debug)]
pub enum Announcement {
    Committed,
    WouldHaveCommitted,
    WouldHaveRebased,
    HowToSquash,
    NothingStaged,
    NothingStagedAfterAutoStaging,
    NoFileModifications,
    NonFileModifications,
    FileModificationsWithoutTarget,
    CannotFixUpPastFirstCommit,
    CannotFixUpPastMerge,
    WillNotFixUpPastAnotherAuthor,
    WillNotFixUpPastStackLimit { limit: usize },
    CommitsHiddenByBase,
    CommitsHiddenByBranches,
    CouldNotFindRepositoryPath,
}

/// The diagnosis that a stack end reason yields when a hunk found no
/// destination.
pub open spec fn spec_stack_end_announcement(
    reason: StackEndReason,
    limit: usize,
) -> Announcement {
    match reason {
        StackEndReason::ReachedRoot => Announcement::CannotFixUpPastFirstCommit,
        StackEndReason::ReachedMergeCommit => Announcement::CannotFixUpPastMerge,
        StackEndReason::ReachedAnotherAuthor => Announcement::WillNotFixUpPastAnotherAuthor,
        StackEndReason::ReachedLimit => Announcement::WillNotFixUpPastStackLimit { limit },
        StackEndReason::CommitsHiddenByBase => Announcement::CommitsHiddenByBase,
        StackEndReason::CommitsHiddenByBranches => Announcement::CommitsHiddenByBranches,
    }
}

/// Maps a stack end reason to the user-facing diagnosis, carrying the
/// configured limit for the limit case.
pub fn stack_end_announcement(reason: StackEndReason, limit: usize) -> (r: Announcement)
    ensures
        r == spec_stack_end_announcement(reason, limit),
{
    match reason {
        StackEndReason::ReachedRoot => Announcement::CannotFixUpPastFirstCommit,
        StackEndReason::ReachedMergeCommit => Announcement::CannotFixUpPastMerge,
        StackEndReason::ReachedAnotherAuthor => Announcement::WillNotFixUpPastAnotherAuthor,
        StackEndReason::ReachedLimit => Announcement::WillNotFixUpPastStackLimit { limit },
        StackEndReason::CommitsHiddenByBase => Announcement::CommitsHiddenByBase,
        StackEndReason::CommitsHiddenByBranches => Announcement::CommitsHiddenByBranches,
    }
}

/// What is announced when the index turns out empty: that nothing is staged,
/// or that nothing is staged even after automatic staging ran.
pub fn empty_index_announcement(auto_staged: bool) -> (r: Announcement)
    ensures
        r == if auto_staged {
            Announcement::NothingStagedAfterAutoStaging
        } else {
            Announcement::NothingStaged
        },
{
    if auto_staged {
        Announcement::NothingStagedAfterAutoStaging
    } else {
        Announcement::NothingStaged
    }
}

/// The announcements a finished run makes, per the accumulated outcome:
/// when no patch was an in-place modification, only that; otherwise a note
/// when some patches were something else and automatic staging did not
/// cover for them; when any hunk found no destination, the fact and the
/// diagnosis derived from where the stack ended; and when fixups were made
/// without a follow-up rebase, the hint on how to squash them.
pub open spec fn spec_outcome_announcements(
    any_modified: bool,
    any_non_modified: bool,
    auto_staged: bool,
    any_hunk_without_target: bool,
    fixups_made: bool,
    and_rebase: bool,
    end_reason: StackEndReason,
    limit: usize,
) -> Seq<Announcement> {
    let base: Seq<Announcement> = if !any_modified {
        seq![Announcement::NoFileModifications]
    } else if any_non_modified && !auto_staged {
        seq![Announcement::NonFileModifications]
    } else {
        Seq::empty()
    };
    let with_target: Seq<Announcement> = if any_hunk_without_target {
        base + seq![
            Announcement::FileModificationsWithoutTarget,
            spec_stack_end_announcement(end_reason, limit),
        ]
    } else {
        base
    };
    if fixups_made && !and_rebase {
        with_target + seq![Announcement::HowToSquash]
    } else {
        with_target
    }
}

/// Announces the outcome of a finished run.
pub fn announce_outcome(
    any_modified: bool,
    any_non_modified: bool,
    auto_staged: bool,
    any_hunk_without_target: bool,
    fixups_made: bool,
    and_rebase: bool,
    end_reason: StackEndReason,
    limit: usize,
) -> (r: Vec<Announcement>)
    ensures
        r@ == spec_outcome_announcements(
            any_modified,
            any_non_modified,
            auto_staged,
            any_hunk_without_target,
            fixups_made,
            and_rebase,
            end_reason,
            limit,
        ),
{
    let mut out: Vec<Announcement> = Vec::new();
    if !any_modified {
        out.push(Announcement::NoFileModifications);
    } else if any_non_modified && !auto_staged {
        out.push(Announcement::NonFileModifications);
    }
    if any_hunk_without_target {
        out.push(Announcement::FileModificationsWithoutTarget);
        out.push(stack_end_announcement(end_reason, limit));
    }
    if fixups_made && !and_rebase {
        out.push(Announcement::HowToSquash);
    }
    proof {
        assert(out@ =~= spec_outcome_announcements(
            any_modified,
            any_non_modified,
            auto_staged,
            any_hunk_without_target,
            fixups_made,
            and_rebase,
            end_reason,
            limit,
        ));
    }
    out
}

} // verus!

use git_absorb::absorb::{build_script, plan_absorption, Action, CommitMeta};
use git_absorb::announce::{announce_outcome, stack_end_announcement, Announcement};
use git_absorb::owned::{Block, Diff, DiffStatus, Hunk, Patch};
use git_absorb::stack::StackEndReason;

fn insertion(added_start: usize, removed_start: usize, line: &[u8]) -> Hunk {
    Hunk {
        added: Block { start: added_start, lines: vec![line.to_vec()], trailing_newline: true },
        removed: Block { start: removed_start, lines: vec![], trailing_newline: true },
    }
}

fn whole_file_hunk(lines: Vec<Vec<u8>>) -> Hunk {
    Hunk {
        added: Block { start: 1, lines, trailing_newline: true },
        removed: Block { start: 0, lines: vec![], trailing_newline: true },
    }
}

fn patch(old_path: &[u8], new_path: &[u8], status: DiffStatus, hunks: Vec<Hunk>) -> Patch {
    Patch { old_path: old_path.to_vec(), new_path: new_path.to_vec(), status, hunks }
}

fn file_added_commit(path: &[u8], lines: Vec<Vec<u8>>) -> Diff {
    Diff::new(vec![patch(path, path, DiffStatus::Added, vec![whole_file_hunk(lines)])]).unwrap()
}

/// An index that adds one line above and one line below the only file of
/// the only commit: both hunks must land in that commit.
#[test]
fn two_insertions_absorb_into_the_creating_commit() {
    let base_lines = vec![
        b"line\n".to_vec(),
        b"line\n".to_vec(),
        b"\n".to_vec(),
        b"more\n".to_vec(),
        b"lines\n".to_vec(),
    ];
    let stack = vec![file_added_commit(b"file.txt", base_lines)];
    let index = Diff::new(vec![patch(
        b"file.txt",
        b"file.txt",
        DiffStatus::Modified,
        vec![insertion(1, 0, b"top\n"), insertion(7, 5, b"bottom\n")],
    )])
    .unwrap();

    let plan = plan_absorption(&index, &stack, false).unwrap();
    assert!(plan.any_modified);
    assert!(!plan.any_non_modified);
    assert!(!plan.any_hunk_without_target);
    assert_eq!(plan.hunks.len(), 2);
    assert_eq!(plan.hunks[0].dest, 0);
    assert_eq!(plan.hunks[1].dest, 0);

    // the first hunk is applied as staged; the second is isolated from the
    // first (one line up) and then shifted back down for the applied one
    assert_eq!(plan.hunks[0].hunk.added.start, 1);
    assert_eq!(plan.hunks[0].hunk.removed.start, 0);
    assert_eq!(plan.hunks[1].hunk.added.start, 7);
    assert_eq!(plan.hunks[1].hunk.removed.start, 6);
}

#[test]
fn hunk_without_destination_is_noted_and_skipped() {
    // the stack's only commit touches a different file
    let stack = vec![file_added_commit(b"other.txt", vec![b"x\n".to_vec()])];
    let index = Diff::new(vec![patch(
        b"file.txt",
        b"file.txt",
        DiffStatus::Modified,
        vec![insertion(1, 0, b"top\n")],
    )])
    .unwrap();

    let plan = plan_absorption(&index, &stack, false).unwrap();
    assert!(plan.any_modified);
    assert!(plan.any_hunk_without_target);
    assert!(plan.hunks.is_empty());
}

#[test]
fn non_modified_patches_are_skipped() {
    let stack = vec![file_added_commit(b"file.txt", vec![b"x\n".to_vec()])];
    let index = Diff::new(vec![patch(
        b"new.txt",
        b"new.txt",
        DiffStatus::Added,
        vec![whole_file_hunk(vec![b"y\n".to_vec()])],
    )])
    .unwrap();

    let plan = plan_absorption(&index, &stack, false).unwrap();
    assert!(!plan.any_modified);
    assert!(plan.any_non_modified);
    assert!(plan.hunks.is_empty());
}

#[test]
fn commutes_past_untouching_commits() {
    // newest commit touches another file; the older one added ours
    let stack = vec![
        file_added_commit(b"other.txt", vec![b"x\n".to_vec()]),
        file_added_commit(b"file.txt", vec![b"a\n".to_vec()]),
    ];
    let index = Diff::new(vec![patch(
        b"file.txt",
        b"file.txt",
        DiffStatus::Modified,
        vec![insertion(2, 1, b"b\n")],
    )])
    .unwrap();

    let plan = plan_absorption(&index, &stack, false).unwrap();
    assert_eq!(plan.hunks.len(), 1);
    assert_eq!(plan.hunks[0].dest, 1);
}

#[test]
fn rename_is_followed_backward() {
    // newest commit renamed old.txt to new.txt without content hunks; the
    // commit before it created old.txt
    let stack = vec![
        Diff::new(vec![patch(b"old.txt", b"new.txt", DiffStatus::Renamed, vec![])]).unwrap(),
        file_added_commit(b"old.txt", vec![b"a\n".to_vec()]),
    ];
    let index = Diff::new(vec![patch(
        b"new.txt",
        b"new.txt",
        DiffStatus::Modified,
        vec![insertion(2, 1, b"b\n")],
    )])
    .unwrap();

    let plan = plan_absorption(&index, &stack, false).unwrap();
    assert_eq!(plan.hunks.len(), 1);
    assert_eq!(plan.hunks[0].dest, 1);
}

#[test]
fn whole_file_matching_takes_the_first_touching_commit() {
    // the newest commit modified the file in a place the hunk would
    // otherwise commute past
    let far_edit = Hunk {
        added: Block { start: 9, lines: vec![b"far\n".to_vec()], trailing_newline: true },
        removed: Block { start: 9, lines: vec![b"was\n".to_vec()], trailing_newline: true },
    };
    let stack = vec![
        Diff::new(vec![patch(b"file.txt", b"file.txt", DiffStatus::Modified, vec![far_edit])])
            .unwrap(),
        file_added_commit(b"file.txt", vec![b"a\n".to_vec()]),
    ];
    let index = Diff::new(vec![patch(
        b"file.txt",
        b"file.txt",
        DiffStatus::Modified,
        vec![insertion(2, 1, b"b\n")],
    )])
    .unwrap();

    let without = plan_absorption(&index, &stack, false).unwrap();
    assert_eq!(without.hunks[0].dest, 1);
    let with = plan_absorption(&index, &stack, true).unwrap();
    assert_eq!(with.hunks[0].dest, 0);
}

fn metas() -> Vec<CommitMeta> {
    vec![CommitMeta { sha: b"1111111".to_vec(), summary: Some(b"first commit".to_vec()) }]
}

fn one_planned_hunk() -> (Diff, Vec<Diff>) {
    let stack = vec![file_added_commit(b"file.txt", vec![b"a\n".to_vec()])];
    let index = Diff::new(vec![patch(
        b"file.txt",
        b"file.txt",
        DiffStatus::Modified,
        vec![insertion(2, 1, b"b\n")],
    )])
    .unwrap();
    (index, stack)
}

#[test]
fn script_applies_and_commits_with_summary_locator() {
    let (index, stack) = one_planned_hunk();
    let plan = plan_absorption(&index, &stack, false).unwrap();
    let acts = build_script(&plan.hunks, &index, &metas(), false, false, false, false, &None);
    assert_eq!(acts.len(), 3);
    assert!(matches!(acts[0], Action::WritePreAbsorbRef));
    assert!(matches!(&acts[1], Action::ApplyHunk { path, .. } if path == &b"file.txt".to_vec()));
    assert!(
        matches!(&acts[2], Action::CommitFixup { message } if message == &b"fixup! first commit\n".to_vec())
    );
}

#[test]
fn script_uses_sha_when_summary_is_ambiguous_or_configured() {
    let (index, stack) = one_planned_hunk();
    let plan = plan_absorption(&index, &stack, false).unwrap();

    let ambiguous = vec![
        CommitMeta { sha: b"1111111".to_vec(), summary: Some(b"same".to_vec()) },
        CommitMeta { sha: b"2222222".to_vec(), summary: Some(b"same".to_vec()) },
    ];
    let acts = build_script(&plan.hunks, &index, &ambiguous, false, false, false, false, &None);
    assert!(
        matches!(&acts[2], Action::CommitFixup { message } if message == &b"fixup! 1111111\n".to_vec())
    );

    let acts = build_script(&plan.hunks, &index, &metas(), false, false, true, false, &None);
    assert!(
        matches!(&acts[2], Action::CommitFixup { message } if message == &b"fixup! 1111111\n".to_vec())
    );
}

#[test]
fn script_can_squash_and_append_a_body() {
    let (index, stack) = one_planned_hunk();
    let plan = plan_absorption(&index, &stack, false).unwrap();
    let body = Some(b"absorbed automatically".to_vec());
    let acts = build_script(&plan.hunks, &index, &metas(), false, false, false, true, &body);
    assert!(
        matches!(&acts[2], Action::CommitFixup { message } if message == &b"squash! first commit\n\nabsorbed automatically".to_vec())
    );
}

#[test]
fn dry_run_script_writes_nothing() {
    let (index, stack) = one_planned_hunk();
    let plan = plan_absorption(&index, &stack, false).unwrap();
    let acts = build_script(&plan.hunks, &index, &metas(), true, false, false, false, &None);
    assert_eq!(acts.len(), 2);
    for act in &acts {
        assert!(!matches!(act, Action::WritePreAbsorbRef));
        assert!(!matches!(act, Action::CommitFixup { .. }));
    }
    assert!(matches!(&acts[1], Action::WouldHaveCommitted { locator } if locator == &b"first commit".to_vec()));
}

#[test]
fn one_fixup_per_commit_seals_once_per_destination() {
    let base_lines = vec![
        b"line\n".to_vec(),
        b"line\n".to_vec(),
        b"\n".to_vec(),
        b"more\n".to_vec(),
        b"lines\n".to_vec(),
    ];
    let stack = vec![file_added_commit(b"file.txt", base_lines)];
    let index = Diff::new(vec![patch(
        b"file.txt",
        b"file.txt",
        DiffStatus::Modified,
        vec![insertion(1, 0, b"top\n"), insertion(7, 5, b"bottom\n")],
    )])
    .unwrap();
    let plan = plan_absorption(&index, &stack, false).unwrap();

    let many = build_script(&plan.hunks, &index, &metas(), false, false, false, false, &None);
    let commits = |acts: &Vec<Action>| {
        acts.iter().filter(|a| matches!(a, Action::CommitFixup { .. })).count()
    };
    assert_eq!(commits(&many), 2);

    let one = build_script(&plan.hunks, &index, &metas(), false, true, false, false, &None);
    assert_eq!(commits(&one), 1);
    // the aggregated run still applies both hunks
    let applies = one.iter().filter(|a| matches!(a, Action::ApplyHunk { .. })).count();
    assert_eq!(applies, 2);
}

#[test]
fn outcome_announcements_follow_the_counts() {
    // nothing was a modification
    let anns = announce_outcome(
        false,
        true,
        false,
        false,
        false,
        false,
        StackEndReason::ReachedRoot,
        10,
    );
    assert_eq!(anns, vec![Announcement::NoFileModifications]);

    // some patches were not modifications and nothing was auto-staged
    let anns = announce_outcome(
        true,
        true,
        false,
        false,
        true,
        false,
        StackEndReason::ReachedRoot,
        10,
    );
    assert_eq!(anns, vec![Announcement::NonFileModifications, Announcement::HowToSquash]);

    // a hunk found no destination after the stack hit its limit
    let anns = announce_outcome(
        true,
        false,
        false,
        true,
        false,
        false,
        StackEndReason::ReachedLimit,
        10,
    );
    assert_eq!(
        anns,
        vec![
            Announcement::FileModificationsWithoutTarget,
            Announcement::WillNotFixUpPastStackLimit { limit: 10 },
        ]
    );

    // fixups made with a follow-up rebase requested: no squash hint
    let anns = announce_outcome(
        true,
        false,
        false,
        false,
        true,
        true,
        StackEndReason::ReachedRoot,
        10,
    );
    assert!(anns.is_empty());
}

#[test]
fn stack_end_reasons_map_to_diagnoses() {
    assert_eq!(
        stack_end_announcement(StackEndReason::ReachedRoot, 10),
        Announcement::CannotFixUpPastFirstCommit
    );
    assert_eq!(
        stack_end_announcement(StackEndReason::ReachedMergeCommit, 10),
        Announcement::CannotFixUpPastMerge
    );
    assert_eq!(
        stack_end_announcement(StackEndReason::ReachedAnotherAuthor, 10),
        Announcement::WillNotFixUpPastAnotherAuthor
    );
    assert_eq!(
        stack_end_announcement(StackEndReason::CommitsHiddenByBase, 10),
        Announcement::CommitsHiddenByBase
    );
}

use git_absorb::config::{
    auto_stage_if_nothing_staged, bool_value, fixup_target_always_sha, max_stack, unify, Config,
    MAX_STACK,
};
use git_absorb::errors::AbsorbError;
use git_absorb::stack::{
    summary_counts, working_stack, CandidateCommit, StackEndReason, WalkExhaustion,
};

fn own_commit() -> CandidateCommit {
    CandidateCommit { parent_count: 1, author_matches: true }
}

#[test]
fn stack_takes_all_commits_to_the_root() {
    let candidates = vec![own_commit(), own_commit(), own_commit()];
    let (len, reason) = working_stack(
        true,
        false,
        &candidates,
        WalkExhaustion::ReachedRoot,
        false,
        false,
        false,
        MAX_STACK,
    )
    .unwrap();
    assert_eq!(len, 3);
    assert_eq!(reason, StackEndReason::ReachedRoot);
}

#[test]
fn stack_stops_at_configured_limit() {
    let candidates: Vec<CandidateCommit> = (0..MAX_STACK + 2).map(|_| own_commit()).collect();
    let (len, reason) = working_stack(
        true,
        false,
        &candidates,
        WalkExhaustion::ReachedRoot,
        false,
        false,
        false,
        MAX_STACK,
    )
    .unwrap();
    assert_eq!(len, MAX_STACK);
    assert_eq!(reason, StackEndReason::ReachedLimit);
}

#[test]
fn stack_ignores_limit_with_base_or_no_limit() {
    let candidates: Vec<CandidateCommit> = (0..MAX_STACK + 2).map(|_| own_commit()).collect();
    let (len, _) = working_stack(
        true,
        false,
        &candidates,
        WalkExhaustion::HiddenByBase,
        false,
        true,
        false,
        MAX_STACK,
    )
    .unwrap();
    assert_eq!(len, MAX_STACK + 2);
    let (len, reason) = working_stack(
        true,
        false,
        &candidates,
        WalkExhaustion::ReachedRoot,
        true,
        false,
        false,
        MAX_STACK,
    )
    .unwrap();
    assert_eq!(len, MAX_STACK + 2);
    assert_eq!(reason, StackEndReason::ReachedRoot);
}

#[test]
fn stack_stops_at_merges() {
    let candidates = vec![
        own_commit(),
        CandidateCommit { parent_count: 2, author_matches: true },
        own_commit(),
    ];
    let (len, reason) = working_stack(
        true,
        false,
        &candidates,
        WalkExhaustion::ReachedRoot,
        false,
        false,
        false,
        MAX_STACK,
    )
    .unwrap();
    assert_eq!(len, 1);
    assert_eq!(reason, StackEndReason::ReachedMergeCommit);
}

#[test]
fn stack_stops_at_foreign_author_unless_forced() {
    let candidates = vec![
        own_commit(),
        CandidateCommit { parent_count: 1, author_matches: false },
        own_commit(),
    ];
    let (len, reason) = working_stack(
        true,
        false,
        &candidates,
        WalkExhaustion::ReachedRoot,
        false,
        false,
        false,
        MAX_STACK,
    )
    .unwrap();
    assert_eq!(len, 1);
    assert_eq!(reason, StackEndReason::ReachedAnotherAuthor);

    let (len, reason) = working_stack(
        true,
        false,
        &candidates,
        WalkExhaustion::ReachedRoot,
        false,
        false,
        true,
        MAX_STACK,
    )
    .unwrap();
    assert_eq!(len, 3);
    assert_eq!(reason, StackEndReason::ReachedRoot);
}

#[test]
fn stack_reports_hidden_commits() {
    let candidates = vec![own_commit()];
    let (_, reason) = working_stack(
        true,
        false,
        &candidates,
        WalkExhaustion::HiddenByBranches,
        false,
        false,
        false,
        MAX_STACK,
    )
    .unwrap();
    assert_eq!(reason, StackEndReason::CommitsHiddenByBranches);
    let (_, reason) = working_stack(
        true,
        false,
        &candidates,
        WalkExhaustion::HiddenByBase,
        false,
        true,
        false,
        MAX_STACK,
    )
    .unwrap();
    assert_eq!(reason, StackEndReason::CommitsHiddenByBase);
}

#[test]
fn detached_head_is_refused_without_override() {
    let candidates = vec![own_commit()];
    let err = working_stack(
        false,
        false,
        &candidates,
        WalkExhaustion::ReachedRoot,
        false,
        false,
        false,
        MAX_STACK,
    )
    .unwrap_err();
    assert_eq!(err, AbsorbError::DetachedHead);

    assert!(working_stack(
        false,
        true,
        &candidates,
        WalkExhaustion::ReachedRoot,
        false,
        false,
        false,
        MAX_STACK,
    )
    .is_ok());
}

#[test]
fn summary_counts_tallies_duplicates() {
    let summaries = vec![
        b"fix tests".to_vec(),
        b"add feature".to_vec(),
        b"fix tests".to_vec(),
    ];
    let (keys, counts) = summary_counts(&summaries);
    assert_eq!(keys.len(), 2);
    assert_eq!(counts.len(), 2);
    assert_eq!(keys[0], b"fix tests".to_vec());
    assert_eq!(counts[0], 2);
    assert_eq!(keys[1], b"add feature".to_vec());
    assert_eq!(counts[1], 1);
}

#[test]
fn summary_counts_of_empty_stack_is_empty() {
    let (keys, counts) = summary_counts(&vec![]);
    assert!(keys.is_empty());
    assert!(counts.is_empty());
}

#[test]
fn max_stack_falls_back_to_default() {
    assert_eq!(max_stack(None), MAX_STACK);
    assert_eq!(max_stack(Some(0)), MAX_STACK);
    assert_eq!(max_stack(Some(-4)), MAX_STACK);
    assert_eq!(max_stack(Some(25)), 25);
}

#[test]
fn boolean_settings_default_off() {
    assert!(!auto_stage_if_nothing_staged(None));
    assert!(auto_stage_if_nothing_staged(Some(true)));
    assert!(!fixup_target_always_sha(None));
    assert!(fixup_target_always_sha(Some(true)));
    assert!(bool_value(None, true));
    assert!(!bool_value(Some(false), true));
}

#[test]
fn unify_prefers_flag_or_configuration() {
    let rebase_options: Vec<&str> = Vec::new();
    let config = Config {
        dry_run: true,
        force_author: false,
        force_detach: false,
        base: Some("abc123"),
        and_rebase: false,
        rebase_options: &rebase_options,
        whole_file: false,
        one_fixup_per_commit: true,
    };
    let unified = unify(&config, false, true, false);
    assert!(unified.one_fixup_per_commit);
    assert!(unified.force_author);
    assert!(!unified.force_detach);
    assert!(unified.dry_run);
    assert_eq!(unified.base, Some("abc123"));
}

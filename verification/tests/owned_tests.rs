use git_absorb::errors::AbsorbError;
use git_absorb::owned::{
    decimal_string, Block, Diff, DiffLine, DiffStatus, Hunk, HunkInput, Patch,
};

fn line(origin: char, old: Option<u32>, new: Option<u32>, content: &[u8]) -> DiffLine {
    DiffLine { origin, old_lineno: old, new_lineno: new, content: content.to_vec(), num_lines: 1 }
}

fn modification_hunk() -> Hunk {
    Hunk {
        added: Block {
            start: 3,
            lines: vec![b"new one\n".to_vec(), b"new two\n".to_vec()],
            trailing_newline: true,
        },
        removed: Block { start: 3, lines: vec![b"old\n".to_vec()], trailing_newline: true },
    }
}

#[test]
fn anchors_of_modification() {
    let h = modification_hunk();
    assert_eq!(h.anchors(), (2, 4, 2, 5));
}

#[test]
fn anchors_of_pure_insertion() {
    let h = Hunk {
        added: Block { start: 2, lines: vec![b"x\n".to_vec()], trailing_newline: true },
        removed: Block { start: 1, lines: vec![], trailing_newline: true },
    };
    assert_eq!(h.anchors(), (1, 2, 1, 3));
}

#[test]
fn anchors_of_pure_deletion() {
    let h = Hunk {
        added: Block { start: 1, lines: vec![], trailing_newline: true },
        removed: Block { start: 2, lines: vec![b"x\n".to_vec()], trailing_newline: true },
    };
    assert_eq!(h.anchors(), (1, 3, 1, 2));
}

#[test]
fn anchors_of_empty_hunk() {
    let h = Hunk {
        added: Block { start: 0, lines: vec![], trailing_newline: true },
        removed: Block { start: 0, lines: vec![], trailing_newline: true },
    };
    assert_eq!(h.anchors(), (0, 1, 0, 1));
}

#[test]
fn changed_offset_signs() {
    let h = modification_hunk();
    assert_eq!(h.changed_offset(), 1);
    let d = Hunk {
        added: Block { start: 1, lines: vec![], trailing_newline: true },
        removed: Block {
            start: 2,
            lines: vec![b"x\n".to_vec(), b"y\n".to_vec()],
            trailing_newline: true,
        },
    };
    assert_eq!(d.changed_offset(), -2);
}

#[test]
fn header_prints_both_sides() {
    let h = modification_hunk();
    assert_eq!(h.header(), "-3,1 +3,2");
}

#[test]
fn decimal_string_digits() {
    assert_eq!(decimal_string(0), "0");
    assert_eq!(decimal_string(7), "7");
    assert_eq!(decimal_string(10), "10");
    assert_eq!(decimal_string(90301), "90301");
}

#[test]
fn shift_added_round_trips() {
    let h = modification_hunk();
    let shifted = h.shift_added_block(4).shift_added_block(-4);
    assert_eq!(shifted.added.start, 3);
    assert_eq!(shifted.removed.start, 3);
}

#[test]
fn shift_both_round_trips() {
    let h = modification_hunk();
    let shifted = h.shift_both_blocks(2).shift_both_blocks(-2);
    assert_eq!(shifted.added.start, 3);
    assert_eq!(shifted.removed.start, 3);
}

#[test]
fn hunk_new_reads_both_sides() {
    let lines = vec![
        line('-', Some(3), None, b"old\n"),
        line('+', None, Some(3), b"new one\n"),
        line('+', None, Some(4), b"new two\n"),
    ];
    let h = Hunk::new(3, 1, 3, 2, &lines).unwrap();
    assert_eq!(h.removed.start, 3);
    assert_eq!(h.removed.lines, vec![b"old\n".to_vec()]);
    assert_eq!(h.added.start, 3);
    assert_eq!(h.added.lines.len(), 2);
    assert!(h.added.trailing_newline);
    assert!(h.removed.trailing_newline);
}

#[test]
fn hunk_new_records_missing_newlines() {
    let lines = vec![
        line('-', Some(1), None, b"old"),
        line('>', None, None, b""),
        line('+', None, Some(1), b"new"),
        line('<', None, None, b""),
    ];
    let h = Hunk::new(1, 1, 1, 1, &lines).unwrap();
    assert!(!h.removed.trailing_newline);
    assert!(!h.added.trailing_newline);
}

#[test]
fn hunk_new_rejects_multiline_record() {
    let mut l = line('+', None, Some(1), b"x\n");
    l.num_lines = 2;
    assert_eq!(Hunk::new(0, 0, 1, 1, &vec![l]).unwrap_err(), AbsorbError::WrongNumberOfLines);
}

#[test]
fn hunk_new_rejects_missing_lineno() {
    let l = line('+', None, None, b"x\n");
    assert_eq!(Hunk::new(0, 0, 1, 1, &vec![l]).unwrap_err(), AbsorbError::AddedLineWithoutLineno);
}

#[test]
fn hunk_new_rejects_unexpected_lineno() {
    let l = line('+', None, Some(5), b"x\n");
    assert_eq!(Hunk::new(0, 0, 1, 1, &vec![l]).unwrap_err(), AbsorbError::AddedLineUnexpectedLineno);
}

#[test]
fn hunk_new_rejects_removed_lineno_gap() {
    let lines = vec![
        line('-', Some(2), None, b"a\n"),
        line('-', Some(4), None, b"b\n"),
    ];
    assert_eq!(Hunk::new(2, 2, 1, 0, &lines).unwrap_err(), AbsorbError::RemovedLineUnexpectedLineno);
}

#[test]
fn hunk_new_rejects_unknown_origin() {
    let l = line('?', None, None, b"x\n");
    assert_eq!(Hunk::new(0, 0, 1, 0, &vec![l]).unwrap_err(), AbsorbError::UnknownLineType('?'));
}

#[test]
fn hunk_new_rejects_double_newline_marker() {
    let lines = vec![line('>', None, None, b""), line('>', None, None, b"")];
    assert_eq!(Hunk::new(1, 0, 1, 0, &lines).unwrap_err(), AbsorbError::RemovedNoNewlineTwice);
}

#[test]
fn hunk_new_rejects_size_mismatch() {
    let l = line('+', None, Some(1), b"x\n");
    assert_eq!(Hunk::new(0, 0, 1, 2, &vec![l]).unwrap_err(), AbsorbError::AddedBlockSizeMismatch);
    let l2 = line('-', Some(1), None, b"x\n");
    assert_eq!(Hunk::new(1, 2, 0, 0, &vec![l2]).unwrap_err(), AbsorbError::RemovedBlockSizeMismatch);
}

fn simple_patch(old_path: &[u8], new_path: &[u8], status: DiffStatus) -> Patch {
    Patch::new(
        Some(old_path.to_vec()),
        Some(new_path.to_vec()),
        status,
        1,
        &vec![HunkInput {
            old_start: 1,
            old_lines: 0,
            new_start: 2,
            new_lines: 1,
            lines: vec![line('+', None, Some(2), b"x\n")],
        }],
    )
    .unwrap()
}

#[test]
fn patch_new_parses_hunks() {
    let p = simple_patch(b"file.txt", b"file.txt", DiffStatus::Modified);
    assert_eq!(p.hunks.len(), 1);
    assert_eq!(p.hunks[0].added.start, 2);
    assert!(matches!(p.status, DiffStatus::Modified));
}

#[test]
fn patch_new_rejects_missing_paths_and_file_counts() {
    assert_eq!(
        Patch::new(None, Some(b"b".to_vec()), DiffStatus::Modified, 1, &vec![]).unwrap_err(),
        AbsorbError::EmptyOldPath
    );
    assert_eq!(
        Patch::new(Some(b"a".to_vec()), None, DiffStatus::Modified, 1, &vec![]).unwrap_err(),
        AbsorbError::EmptyNewPath
    );
    assert_eq!(
        Patch::new(Some(b"a".to_vec()), Some(b"b".to_vec()), DiffStatus::Modified, 3, &vec![])
            .unwrap_err(),
        AbsorbError::MultipleFiles
    );
}

#[test]
fn diff_new_rejects_duplicate_paths() {
    let p1 = simple_patch(b"a", b"a", DiffStatus::Modified);
    let p2 = simple_patch(b"a", b"b", DiffStatus::Modified);
    assert!(matches!(Diff::new(vec![p1, p2]), Err(AbsorbError::OldPathOccupied)));

    let p3 = simple_patch(b"a", b"c", DiffStatus::Modified);
    let p4 = simple_patch(b"b", b"c", DiffStatus::Modified);
    assert!(matches!(Diff::new(vec![p3, p4]), Err(AbsorbError::NewPathOccupied)));
}

#[test]
fn diff_lookups_find_patches() {
    let p1 = simple_patch(b"old_name", b"new_name", DiffStatus::Renamed);
    let p2 = simple_patch(b"other", b"other", DiffStatus::Modified);
    let d = Diff::new(vec![p1, p2]).unwrap();
    assert_eq!(d.by_old(b"old_name").unwrap().new_path, b"new_name".to_vec());
    assert_eq!(d.by_new(b"new_name").unwrap().old_path, b"old_name".to_vec());
    assert!(d.by_old(b"new_name").is_none());
    assert!(d.by_new(b"missing").is_none());
    assert_eq!(d.patches().len(), 2);
}

#[test]
fn error_messages_match_their_kind() {
    assert_eq!(
        AbsorbError::DetachedHead.describe(),
        "HEAD is not a branch, use --force-detach to override"
    );
    assert_eq!(
        AbsorbError::RebaseOptionsWithoutRebase.describe(),
        "REBASE_OPTIONS were specified without --and-rebase flag"
    );
    assert_eq!(AbsorbError::OldPathOccupied.describe(), "old path already occupied");
}

use git_absorb::owned::{Block, Hunk};
use git_absorb::rewrite::{apply_hunk_to_content, split_lines_after};

#[test]
fn split_lines_after_counts_terminators() {
    let content = b"one\ntwo\nthree\n";
    let (pre, post) = split_lines_after(content, 0);
    assert_eq!(pre, b"");
    assert_eq!(post, content.as_slice());

    let (pre, post) = split_lines_after(content, 1);
    assert_eq!(pre, b"one\n");
    assert_eq!(post, b"two\nthree\n");

    let (pre, post) = split_lines_after(content, 3);
    assert_eq!(pre, content.as_slice());
    assert_eq!(post, b"");
}

#[test]
fn split_lines_after_past_end_takes_everything() {
    let content = b"one\ntwo";
    let (pre, post) = split_lines_after(content, 5);
    assert_eq!(pre, content.as_slice());
    assert_eq!(post, b"");
}

#[test]
fn apply_replaces_lines_in_the_middle() {
    // replace line two of three
    let old = b"one\ntwo\nthree\n";
    let hunk = Hunk {
        added: Block { start: 2, lines: vec![b"TWO\n".to_vec()], trailing_newline: true },
        removed: Block { start: 2, lines: vec![b"two\n".to_vec()], trailing_newline: true },
    };
    assert_eq!(apply_hunk_to_content(old, &hunk), b"one\nTWO\nthree\n".to_vec());
}

#[test]
fn apply_insertion_at_top_of_file_keeps_no_prefix() {
    // a pure insertion whose removed side carries the zero sentinel: the
    // rewriter must not try to keep any line above it
    let old = b"foo\n";
    let hunk = Hunk {
        added: Block { start: 1, lines: vec![b"bar\n".to_vec()], trailing_newline: true },
        removed: Block { start: 0, lines: vec![], trailing_newline: true },
    };
    assert_eq!(apply_hunk_to_content(old, &hunk), b"bar\nfoo\n".to_vec());
}

#[test]
fn apply_removal_at_top_of_file() {
    // a removal whose removed block starts at line one
    let old = b"gone\nkept\n";
    let hunk = Hunk {
        added: Block { start: 0, lines: vec![], trailing_newline: true },
        removed: Block { start: 1, lines: vec![b"gone\n".to_vec()], trailing_newline: true },
    };
    assert_eq!(apply_hunk_to_content(old, &hunk), b"kept\n".to_vec());
}

#[test]
fn apply_at_end_of_file_emits_empty_suffix() {
    // the hunk's next unchanged line lies past the end of the file
    let old = b"one\ntwo\n";
    let hunk = Hunk {
        added: Block { start: 3, lines: vec![b"three\n".to_vec()], trailing_newline: true },
        removed: Block { start: 2, lines: vec![], trailing_newline: true },
    };
    assert_eq!(apply_hunk_to_content(old, &hunk), b"one\ntwo\nthree\n".to_vec());
}

#[test]
fn apply_preserves_missing_trailing_newline() {
    // the file does not end in a newline; the tail is kept byte for byte
    let old = b"one\nlast without newline";
    let hunk = Hunk {
        added: Block { start: 1, lines: vec![b"ONE\n".to_vec()], trailing_newline: true },
        removed: Block { start: 1, lines: vec![b"one\n".to_vec()], trailing_newline: true },
    };
    assert_eq!(apply_hunk_to_content(old, &hunk), b"ONE\nlast without newline".to_vec());
}

#[test]
fn apply_can_replace_final_line_without_newline() {
    let old = b"one\nend";
    let hunk = Hunk {
        added: Block { start: 2, lines: vec![b"END".to_vec()], trailing_newline: false },
        removed: Block { start: 2, lines: vec![b"end".to_vec()], trailing_newline: false },
    };
    assert_eq!(apply_hunk_to_content(old, &hunk), b"one\nEND".to_vec());
}

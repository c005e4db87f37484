//! The library's error kinds: usage errors and structural defects found
//! while interpreting a diff. Backend failures stay with the caller.

use vstd::prelude::*;

verus! {

/// Everything the engine can refuse: bad flag combinations, a head that is
/// not a branch, and structural defects in a parsed diff.
#[derive(Clone, Copy, PartialEq, Eq, Structural, Debug)]
pub enum AbsorbError {
    /// Extra rebase arguments were given without requesting a rebase.
    RebaseOptionsWithoutRebase,
    /// The head is not a branch reference and no override was given.
    DetachedHead,
    /// A path on the old side occurs in more than one patch.
    OldPathOccupied,
    /// A path on the new side occurs in more than one patch.
    NewPathOccupied,
    /// A diff line spans more than one line.
    WrongNumberOfLines,
    /// An added line carries no line number.
    AddedLineWithoutLineno,
    /// An added line does not stand at the expected line number.
    AddedLineUnexpectedLineno,
    /// A removed line carries no line number.
    RemovedLineWithoutLineno,
    /// A removed line does not stand at the expected line number.
    RemovedLineUnexpectedLineno,
    /// A second missing-newline marker on the removed side.
    RemovedNoNewlineTwice,
    /// A second missing-newline marker on the added side.
    AddedNoNewlineTwice,
    /// A line whose origin marker the parser does not know.
    UnknownLineType(char),
    /// The added side does not hold as many lines as its header claims.
    AddedBlockSizeMismatch,
    /// The removed side does not hold as many lines as its header claims.
    RemovedBlockSizeMismatch,
    /// A block's line numbers leave the representable range.
    HunkOutOfRange,
    /// A delta without a path on the old side.
    EmptyOldPath,
    /// A delta without a path on the new side.
    EmptyNewPath,
    /// A delta that names more than one file pair.
    MultipleFiles,
    /// A coordinate correction during orchestration left the line-number
    /// range.
    CoordinateOutOfRange,
}


/// The message for each error kind.
pub open spec fn spec_describe(e: AbsorbError) -> Seq<char> {
    match e {
        AbsorbError::RebaseOptionsWithoutRebase => "REBASE_OPTIONS were specified without --and-rebase flag"@,
        AbsorbError::DetachedHead => "HEAD is not a branch, use --force-detach to override"@,
        AbsorbError::OldPathOccupied => "old path already occupied"@,
        AbsorbError::NewPathOccupied => "new path already occupied"@,
        AbsorbError::WrongNumberOfLines => "wrong number of lines in hunk"@,
        AbsorbError::AddedLineWithoutLineno => "added line did not have lineno"@,
        AbsorbError::AddedLineUnexpectedLineno => "added line did not reach expected lineno"@,
        AbsorbError::RemovedLineWithoutLineno => "removed line did not have lineno"@,
        AbsorbError::RemovedLineUnexpectedLineno => "removed line did not reach expected lineno"@,
        AbsorbError::RemovedNoNewlineTwice => "removed nneof was already detected"@,
        AbsorbError::AddedNoNewlineTwice => "added nneof was already detected"@,
        AbsorbError::UnknownLineType(_) => "unknown line type"@,
        AbsorbError::AddedBlockSizeMismatch => "hunk added block size mismatch"@,
        AbsorbError::RemovedBlockSizeMismatch => "hunk removed block size mismatch"@,
        AbsorbError::HunkOutOfRange => "hunk coordinates out of range"@,
        AbsorbError::EmptyOldPath => "delta with empty old path"@,
        AbsorbError::EmptyNewPath => "delta with empty new path"@,
        AbsorbError::MultipleFiles => "delta with multiple files"@,
        AbsorbError::CoordinateOutOfRange => "hunk coordinate shift out of range"@,
    }
}

impl AbsorbError {
    /// The error's message, one fixed line per kind.
    pub fn describe(&self) -> (r: String)
        ensures
            r@ == spec_describe(*self),
    {
        match self {
            AbsorbError::RebaseOptionsWithoutRebase => "REBASE_OPTIONS were specified without --and-rebase flag".to_owned(),
            AbsorbError::DetachedHead => "HEAD is not a branch, use --force-detach to override".to_owned(),
            AbsorbError::OldPathOccupied => "old path already occupied".to_owned(),
            AbsorbError::NewPathOccupied => "new path already occupied".to_owned(),
            AbsorbError::WrongNumberOfLines => "wrong number of lines in hunk".to_owned(),
            AbsorbError::AddedLineWithoutLineno => "added line did not have lineno".to_owned(),
            AbsorbError::AddedLineUnexpectedLineno => "added line did not reach expected lineno".to_owned(),
            AbsorbError::RemovedLineWithoutLineno => "removed line did not have lineno".to_owned(),
            AbsorbError::RemovedLineUnexpectedLineno => "removed line did not reach expected lineno".to_owned(),
            AbsorbError::RemovedNoNewlineTwice => "removed nneof was already detected".to_owned(),
            AbsorbError::AddedNoNewlineTwice => "added nneof was already detected".to_owned(),
            AbsorbError::UnknownLineType(_) => "unknown line type".to_owned(),
            AbsorbError::AddedBlockSizeMismatch => "hunk added block size mismatch".to_owned(),
            AbsorbError::RemovedBlockSizeMismatch => "hunk removed block size mismatch".to_owned(),
            AbsorbError::HunkOutOfRange => "hunk coordinates out of range".to_owned(),
            AbsorbError::EmptyOldPath => "delta with empty old path".to_owned(),
            AbsorbError::EmptyNewPath => "delta with empty new path".to_owned(),
            AbsorbError::MultipleFiles => "delta with multiple files".to_owned(),
            AbsorbError::CoordinateOutOfRange => "hunk coordinate shift out of range".to_owned(),
        }
    }
}

} // verus!

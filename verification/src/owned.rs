//! The hunk data model: one contiguous change as a removed block and an
//! added block, with the derived coordinate operations the commutation
//! engine rests on.

use vstd::prelude::*;

use crate::errors::AbsorbError;

verus! {

/// Mathematical model of one side of a hunk.
#[verifier::ext_equal]
pub struct BlockView {
    pub start: int,
    pub lines: Seq<Seq<u8>>,
    pub trailing_newline: bool,
}

/// Mathematical model of a hunk.
#[verifier::ext_equal]
pub struct HunkView {
    pub removed: BlockView,
    pub added: BlockView,
}

impl BlockView {
    /// A block is well formed when a zero start line (the sentinel for an
    /// empty side at the top of the file) carries no lines, and its line
    /// numbers stay within machine range. The bound on the number of lines
    /// is forced by the machine: every line is at least one byte of a
    /// buffer whose size Rust caps at `isize::MAX`.
    pub open spec fn wf(self) -> bool {
        &&& 0 <= self.start
        &&& self.start == 0 ==> self.lines.len() == 0
        &&& self.start + self.lines.len() <= usize::MAX
        &&& self.lines.len() <= isize::MAX
    }
}

impl HunkView {
    pub open spec fn wf(self) -> bool {
        self.removed.wf() && self.added.wf()
    }
}

/// One side of a hunk: the starting line number (1-indexed in the pre- or
/// post-change file), the line payloads, and whether the file still ends
/// with a newline after this side's contribution.
#[derive(Debug)]
pub struct Block {
    pub start: usize,
    pub lines: Vec<Vec<u8>>,
    pub trailing_newline: bool,
}

/// One contiguous change: the lines of `removed` are replaced by the lines
/// of `added`.
#[derive(Debug)]
pub struct Hunk {
    pub added: Block,
    pub removed: Block,
}

impl View for Block {
    type V = BlockView;

    open spec fn view(&self) -> BlockView {
        BlockView {
            start: self.start as int,
            lines: self.lines.deep_view(),
            trailing_newline: self.trailing_newline,
        }
    }
}

impl DeepView for Block {
    type V = BlockView;

    open spec fn deep_view(&self) -> BlockView {
        self@
    }
}

impl View for Hunk {
    type V = HunkView;

    open spec fn view(&self) -> HunkView {
        HunkView { removed: self.removed@, added: self.added@ }
    }
}

impl DeepView for Hunk {
    type V = HunkView;

    open spec fn deep_view(&self) -> HunkView {
        self@
    }
}

/// Byte-for-byte equality of two byte strings.
pub fn bytes_eq(a: &[u8], b: &[u8]) -> (r: bool)
    ensures
        r == (a@ == b@),
{
    if a.len() != b.len() {
        return false;
    }
    let n = a.len();
    let mut i: usize = 0;
    while i < n
        invariant
            n == a@.len() == b@.len(),
            0 <= i <= n,
            forall|j: int| 0 <= j < i ==> a@[j] == b@[j],
        decreases n - i,
    {
        if a[i] != b[i] {
            return false;
        }
        i = i + 1;
    }
    proof {
        assert(a@ =~= b@);
    }
    true
}

/// A fresh copy of a line payload.
pub fn copy_bytes(v: &Vec<u8>) -> (r: Vec<u8>)
    ensures
        r@ == v@,
{
    let n = v.len();
    let mut r: Vec<u8> = Vec::new();
    let mut i: usize = 0;
    while i < n
        invariant
            n == v@.len(),
            0 <= i <= n,
            r@ =~= v@.subrange(0, i as int),
        decreases n - i,
    {
        r.push(v[i]);
        i = i + 1;
    }
    proof {
        assert(r@ =~= v@);
    }
    r
}

/// A fresh copy of a sequence of line payloads.
pub fn copy_lines(v: &Vec<Vec<u8>>) -> (r: Vec<Vec<u8>>)
    ensures
        r.deep_view() == v.deep_view(),
{
    let n = v.len();
    let mut r: Vec<Vec<u8>> = Vec::new();
    let mut i: usize = 0;
    while i < n
        invariant
            n == v@.len(),
            0 <= i <= n,
            r.deep_view() =~= v.deep_view().subrange(0, i as int),
        decreases n - i,
    {
        let c = copy_bytes(&v[i]);
        proof {
            assert(c.deep_view() =~= v.deep_view()[i as int]);
        }
        let ghost pre = r.deep_view();
        r.push(c);
        proof {
            assert(r.deep_view() =~= pre.push(c.deep_view()));
        }
        i = i + 1;
    }
    proof {
        assert(r.deep_view() =~= v.deep_view());
    }
    r
}

impl Block {
    /// A fresh block with the same start, payloads and newline flag.
    pub fn duplicate(&self) -> (r: Block)
        ensures
            r@ == self@,
    {
        Block {
            start: self.start,
            lines: copy_lines(&self.lines),
            trailing_newline: self.trailing_newline,
        }
    }
}

/// The four anchors of a hunk: the last unchanged line above and the first
/// unchanged line below, on the removed and on the added side, in the order
/// (previous removed, next removed, previous added, next added). Total over
/// every hunk, including the empty-empty degenerate.
pub open spec fn spec_anchors(h: HunkView) -> (int, int, int, int) {
    let r_len = h.removed.lines.len() as int;
    let a_len = h.added.lines.len() as int;
    if r_len == 0 && a_len == 0 {
        (0, 1, 0, 1)
    } else if a_len == 0 {
        (h.removed.start - 1, h.removed.start + r_len, h.removed.start - 1, h.removed.start)
    } else if r_len == 0 {
        (h.added.start - 1, h.added.start, h.added.start - 1, h.added.start + a_len)
    } else {
        (h.removed.start - 1, h.removed.start + r_len, h.added.start - 1, h.added.start + a_len)
    }
}

/// Anchor total-ness: the anchors are defined for every hunk, the
/// empty-empty degenerate included, and for a well formed hunk the four
/// line numbers never precede the top of the file and each lower anchor
/// lies strictly above its upper anchor.
pub proof fn lemma_anchors_total(h: HunkView)
    requires
        h.wf(),
    ensures
        ({
            let a = spec_anchors(h);
            &&& 0 <= a.0 < a.1
            &&& 0 <= a.2 < a.3
        }),
{
}

/// Number of lines the hunk adds minus the number it removes.
pub open spec fn spec_changed_offset(h: HunkView) -> int {
    h.added.lines.len() - h.removed.lines.len()
}

/// `h` with the added side moved down by `by` lines.
pub open spec fn spec_shift_added(h: HunkView, by: int) -> HunkView {
    HunkView {
        removed: h.removed,
        added: BlockView { start: h.added.start + by, ..h.added },
    }
}

/// `h` with both sides moved down by `by` lines.
pub open spec fn spec_shift_both(h: HunkView, by: int) -> HunkView {
    HunkView {
        removed: BlockView { start: h.removed.start + by, ..h.removed },
        added: BlockView { start: h.added.start + by, ..h.added },
    }
}

/// One raw diff line as the version-control backend reports it: the origin
/// marker, the line numbers on each side where present, the payload, and
/// how many lines the record spans.
#[derive(Debug)]
pub struct DiffLine {
    pub origin: char,
    pub old_lineno: Option<u32>,
    pub new_lineno: Option<u32>,
    pub content: Vec<u8>,
    pub num_lines: u32,
}

/// Mathematical model of one raw diff line.
#[verifier::ext_equal]
pub struct DiffLineView {
    pub origin: char,
    pub old_lineno: Option<u32>,
    pub new_lineno: Option<u32>,
    pub content: Seq<u8>,
    pub num_lines: u32,
}

impl View for DiffLine {
    type V = DiffLineView;

    open spec fn view(&self) -> DiffLineView {
        DiffLineView {
            origin: self.origin,
            old_lineno: self.old_lineno,
            new_lineno: self.new_lineno,
            content: self.content@,
            num_lines: self.num_lines,
        }
    }
}

impl DeepView for DiffLine {
    type V = DiffLineView;

    open spec fn deep_view(&self) -> DiffLineView {
        self@
    }
}

/// The running state while reading a hunk's lines: the payloads gathered on
/// each side and whether a missing-newline marker has been seen.
#[verifier::ext_equal]
pub struct HunkParseState {
    pub added: Seq<Seq<u8>>,
    pub removed: Seq<Seq<u8>>,
    pub added_trailing_newline: bool,
    pub removed_trailing_newline: bool,
}

/// Reads raw diff lines in order into the parse state: an added or removed
/// line must span one line, carry its line number, and stand exactly where
/// the count so far expects it; a missing-newline marker may be seen once
/// per side; anything else is a defect.
pub open spec fn spec_parse_hunk_lines(
    lines: Seq<DiffLineView>,
    removed_start: int,
    added_start: int,
    st: HunkParseState,
) -> Result<HunkParseState, AbsorbError>
    decreases lines.len(),
{
    if lines.len() == 0 {
        Ok(st)
    } else {
        let l = lines.first();
        let rest = lines.drop_first();
        if l.origin == '+' {
            if l.num_lines > 1 {
                Err(AbsorbError::WrongNumberOfLines)
            } else if l.new_lineno is None {
                Err(AbsorbError::AddedLineWithoutLineno)
            } else if l.new_lineno->0 != added_start + st.added.len() {
                Err(AbsorbError::AddedLineUnexpectedLineno)
            } else {
                spec_parse_hunk_lines(
                    rest,
                    removed_start,
                    added_start,
                    HunkParseState { added: st.added.push(l.content), ..st },
                )
            }
        } else if l.origin == '-' {
            if l.num_lines > 1 {
                Err(AbsorbError::WrongNumberOfLines)
            } else if l.old_lineno is None {
                Err(AbsorbError::RemovedLineWithoutLineno)
            } else if l.old_lineno->0 != removed_start + st.removed.len() {
                Err(AbsorbError::RemovedLineUnexpectedLineno)
            } else {
                spec_parse_hunk_lines(
                    rest,
                    removed_start,
                    added_start,
                    HunkParseState { removed: st.removed.push(l.content), ..st },
                )
            }
        } else if l.origin == '>' {
            if !st.removed_trailing_newline {
                Err(AbsorbError::RemovedNoNewlineTwice)
            } else {
                spec_parse_hunk_lines(
                    rest,
                    removed_start,
                    added_start,
                    HunkParseState { removed_trailing_newline: false, ..st },
                )
            }
        } else if l.origin == '<' {
            if !st.added_trailing_newline {
                Err(AbsorbError::AddedNoNewlineTwice)
            } else {
                spec_parse_hunk_lines(
                    rest,
                    removed_start,
                    added_start,
                    HunkParseState { added_trailing_newline: false, ..st },
                )
            }
        } else {
            Err(AbsorbError::UnknownLineType(l.origin))
        }
    }
}

/// What a hunk read from raw diff lines must be: the gathered sides must
/// hold as many lines as the hunk header claims, and the resulting blocks
/// must be well formed.
pub open spec fn spec_hunk_new(
    old_start: u32,
    old_lines: u32,
    new_start: u32,
    new_lines: u32,
    lines: Seq<DiffLineView>,
) -> Result<HunkView, AbsorbError> {
    let init = HunkParseState {
        added: Seq::empty(),
        removed: Seq::empty(),
        added_trailing_newline: true,
        removed_trailing_newline: true,
    };
    match spec_parse_hunk_lines(lines, old_start as int, new_start as int, init) {
        Err(e) => Err(e),
        Ok(st) => {
            if st.added.len() != new_lines {
                Err(AbsorbError::AddedBlockSizeMismatch)
            } else if st.removed.len() != old_lines {
                Err(AbsorbError::RemovedBlockSizeMismatch)
            } else {
                let h = HunkView {
                    removed: BlockView {
                        start: old_start as int,
                        lines: st.removed,
                        trailing_newline: st.removed_trailing_newline,
                    },
                    added: BlockView {
                        start: new_start as int,
                        lines: st.added,
                        trailing_newline: st.added_trailing_newline,
                    },
                };
                if h.wf() {
                    Ok(h)
                } else {
                    Err(AbsorbError::HunkOutOfRange)
                }
            }
        },
    }
}

/// The decimal digit character for a value below ten.
pub open spec fn spec_digit(d: nat) -> char {
    if d == 0 {
        '0'
    } else if d == 1 {
        '1'
    } else if d == 2 {
        '2'
    } else if d == 3 {
        '3'
    } else if d == 4 {
        '4'
    } else if d == 5 {
        '5'
    } else if d == 6 {
        '6'
    } else if d == 7 {
        '7'
    } else if d == 8 {
        '8'
    } else {
        '9'
    }
}

/// The decimal representation of `n`, most significant digit first.
pub open spec fn spec_decimal(n: nat) -> Seq<char>
    decreases n,
{
    if n < 10 {
        seq![spec_digit(n)]
    } else {
        spec_decimal(n / 10).push(spec_digit(n % 10))
    }
}

/// The hunk's header in unified-diff form: the removed start and count,
/// then the added start and count.
pub open spec fn spec_header(h: HunkView) -> Seq<char> {
    seq!['-'] + spec_decimal(h.removed.start as nat) + seq![','] + spec_decimal(
        h.removed.lines.len(),
    ) + seq![' ', '+'] + spec_decimal(h.added.start as nat) + seq![','] + spec_decimal(
        h.added.lines.len(),
    )
}

/// The one-character string for a decimal digit.
fn digit_str(d: usize) -> (r: &'static str)
    requires
        d < 10,
    ensures
        r@ == seq![spec_digit(d as nat)],
{
    proof {
        reveal_strlit("0");
        reveal_strlit("1");
        reveal_strlit("2");
        reveal_strlit("3");
        reveal_strlit("4");
        reveal_strlit("5");
        reveal_strlit("6");
        reveal_strlit("7");
        reveal_strlit("8");
        reveal_strlit("9");
    }
    let r = match d {
        0 => "0",
        1 => "1",
        2 => "2",
        3 => "3",
        4 => "4",
        5 => "5",
        6 => "6",
        7 => "7",
        8 => "8",
        _ => "9",
    };
    proof {
        assert(r@ =~= seq![spec_digit(d as nat)]);
    }
    r
}

/// Writes `n` in decimal.
pub fn decimal_string(n: usize) -> (r: String)
    ensures
        r@ == spec_decimal(n as nat),
    decreases n,
{
    if n < 10 {
        let mut s = String::new();
        s.append(digit_str(n));
        proof {
            assert(s@ =~= spec_decimal(n as nat));
        }
        s
    } else {
        let mut s = decimal_string(n / 10);
        s.append(digit_str(n % 10));
        proof {
            assert(s@ =~= spec_decimal(n as nat));
        }
        s
    }
}

/// Shifting the added side by `by` and back by `-by` returns every hunk to
/// itself; the added-side coordinate shift loses nothing.
pub proof fn lemma_shift_added_round_trip(h: HunkView, by: int)
    ensures
        spec_shift_added(spec_shift_added(h, by), -by) == h,
{
}

/// Shifting both sides by `by` and back by `-by` returns every hunk to
/// itself; the two-sided coordinate shift loses nothing.
pub proof fn lemma_shift_both_round_trip(h: HunkView, by: int)
    ensures
        spec_shift_both(spec_shift_both(h, by), -by) == h,
{
}

impl Hunk {
    /// Builds a hunk from its header coordinates and its raw diff lines,
    /// checking that each line stands where the header says it must.
    pub fn new(
        old_start: u32,
        old_lines: u32,
        new_start: u32,
        new_lines: u32,
        lines: &Vec<DiffLine>,
    ) -> (r: Result<Hunk, AbsorbError>)
        ensures
            match r {
                Ok(h) => spec_hunk_new(old_start, old_lines, new_start, new_lines, lines.deep_view())
                    == Ok::<HunkView, AbsorbError>(h@) && h@.wf(),
                Err(e) => spec_hunk_new(
                    old_start,
                    old_lines,
                    new_start,
                    new_lines,
                    lines.deep_view(),
                ) == Err::<HunkView, AbsorbError>(e),
            },
    {
        let ghost full = lines.deep_view();
        let ghost init = HunkParseState {
            added: Seq::empty(),
            removed: Seq::empty(),
            added_trailing_newline: true,
            removed_trailing_newline: true,
        };
        let mut added_acc: Vec<Vec<u8>> = Vec::new();
        let mut removed_acc: Vec<Vec<u8>> = Vec::new();
        let mut added_trailing_newline = true;
        let mut removed_trailing_newline = true;
        let mut idx: usize = 0;
        proof {
            assert(full.skip(0) =~= full);
            assert(added_acc.deep_view() =~= Seq::<Seq<u8>>::empty());
            assert(removed_acc.deep_view() =~= Seq::<Seq<u8>>::empty());
        }
        while idx < lines.len()
            invariant
                full == lines.deep_view(),
                0 <= idx <= lines@.len(),
                spec_parse_hunk_lines(full, old_start as int, new_start as int, init)
                    == spec_parse_hunk_lines(
                    full.skip(idx as int),
                    old_start as int,
                    new_start as int,
                    HunkParseState {
                        added: added_acc.deep_view(),
                        removed: removed_acc.deep_view(),
                        added_trailing_newline: added_trailing_newline,
                        removed_trailing_newline: removed_trailing_newline,
                    },
                ),
                init == (HunkParseState {
                    added: Seq::<Seq<u8>>::empty(),
                    removed: Seq::<Seq<u8>>::empty(),
                    added_trailing_newline: true,
                    removed_trailing_newline: true,
                }),
            decreases lines@.len() - idx,
        {
            let l = &lines[idx];
            proof {
                assert(full.skip(idx as int).first() == l@);
                assert(full.skip(idx as int).drop_first() =~= full.skip(idx + 1));
            }
            if l.origin == '+' {
                if l.num_lines > 1 {
                    return Err(AbsorbError::WrongNumberOfLines);
                }
                let n = match l.new_lineno {
                    Some(n) => n,
                    None => {
                        return Err(AbsorbError::AddedLineWithoutLineno);
                    },
                };
                let at_expected = match (new_start as usize).checked_add(added_acc.len()) {
                    Some(e) => (n as usize) == e,
                    None => false,
                };
                if !at_expected {
                    return Err(AbsorbError::AddedLineUnexpectedLineno);
                }
                let c = copy_bytes(&l.content);
                proof {
                    assert(c.deep_view() =~= l@.content);
                }
                let ghost pre = added_acc.deep_view();
                added_acc.push(c);
                proof {
                    assert(added_acc.deep_view() =~= pre.push(c.deep_view()));
                }
            } else if l.origin == '-' {
                if l.num_lines > 1 {
                    return Err(AbsorbError::WrongNumberOfLines);
                }
                let n = match l.old_lineno {
                    Some(n) => n,
                    None => {
                        return Err(AbsorbError::RemovedLineWithoutLineno);
                    },
                };
                let at_expected = match (old_start as usize).checked_add(removed_acc.len()) {
                    Some(e) => (n as usize) == e,
                    None => false,
                };
                if !at_expected {
                    return Err(AbsorbError::RemovedLineUnexpectedLineno);
                }
                let c = copy_bytes(&l.content);
                proof {
                    assert(c.deep_view() =~= l@.content);
                }
                let ghost pre = removed_acc.deep_view();
                removed_acc.push(c);
                proof {
                    assert(removed_acc.deep_view() =~= pre.push(c.deep_view()));
                }
            } else if l.origin == '>' {
                if !removed_trailing_newline {
                    return Err(AbsorbError::RemovedNoNewlineTwice);
                }
                removed_trailing_newline = false;
            } else if l.origin == '<' {
                if !added_trailing_newline {
                    return Err(AbsorbError::AddedNoNewlineTwice);
                }
                added_trailing_newline = false;
            } else {
                return Err(AbsorbError::UnknownLineType(l.origin));
            }
            idx = idx + 1;
        }
        proof {
            assert(full.skip(idx as int) =~= Seq::<DiffLineView>::empty());
        }
        if added_acc.len() != new_lines as usize {
            return Err(AbsorbError::AddedBlockSizeMismatch);
        }
        if removed_acc.len() != old_lines as usize {
            return Err(AbsorbError::RemovedBlockSizeMismatch);
        }
        let added_wf = !(new_start == 0 && added_acc.len() > 0) && added_acc.len() <= (isize::MAX
            as usize) && usize::MAX - (new_start as usize) >= added_acc.len();
        let removed_wf = !(old_start == 0 && removed_acc.len() > 0) && removed_acc.len() <= (
        isize::MAX as usize) && usize::MAX - (old_start as usize) >= removed_acc.len();
        if !(added_wf && removed_wf) {
            return Err(AbsorbError::HunkOutOfRange);
        }
        Ok(
            Hunk {
                added: Block {
                    start: new_start as usize,
                    lines: added_acc,
                    trailing_newline: added_trailing_newline,
                },
                removed: Block {
                    start: old_start as usize,
                    lines: removed_acc,
                    trailing_newline: removed_trailing_newline,
                },
            },
        )
    }

    /// A fresh hunk with the same sides.
    pub fn duplicate(&self) -> (r: Hunk)
        ensures
            r@ == self@,
    {
        Hunk { added: self.added.duplicate(), removed: self.removed.duplicate() }
    }

    /// The four unchanged lines around this hunk, in the order
    /// (previous removed, next removed, previous added, next added).
    pub fn anchors(&self) -> (r: (usize, usize, usize, usize))
        requires
            self@.wf(),
        ensures
            (r.0 as int, r.1 as int, r.2 as int, r.3 as int) == spec_anchors(self@),
    {
        match (self.removed.lines.len(), self.added.lines.len()) {
            (0, 0) => (0, 1, 0, 1),
            (removed_len, 0) => (
                self.removed.start - 1,
                self.removed.start + removed_len,
                self.removed.start - 1,
                self.removed.start,
            ),
            (0, added_len) => (
                self.added.start - 1,
                self.added.start,
                self.added.start - 1,
                self.added.start + added_len,
            ),
            (removed_len, added_len) => (
                self.removed.start - 1,
                self.removed.start + removed_len,
                self.added.start - 1,
                self.added.start + added_len,
            ),
        }
    }

    /// Lines added minus lines removed.
    pub fn changed_offset(&self) -> (r: isize)
        requires
            self@.wf(),
        ensures
            r as int == spec_changed_offset(self@),
    {
        let a = self.added.lines.len();
        let r = self.removed.lines.len();
        if a >= r {
            (a - r) as isize
        } else {
            let d = r - a;
            -(d as isize)
        }
    }

    /// Whether every coordinate of this hunk is in range: its blocks carry
    /// no lines above the top of the file and their line numbers fit the
    /// machine.
    pub fn is_wf(&self) -> (r: bool)
        ensures
            r == self@.wf(),
    {
        let added_wf = !(self.added.start == 0 && self.added.lines.len() > 0)
            && self.added.lines.len() <= (isize::MAX as usize) && usize::MAX - self.added.start
            >= self.added.lines.len();
        let removed_wf = !(self.removed.start == 0 && self.removed.lines.len() > 0)
            && self.removed.lines.len() <= (isize::MAX as usize) && usize::MAX - self.removed.start
            >= self.removed.lines.len();
        added_wf && removed_wf
    }

    /// The hunk's header in unified-diff form.
    pub fn header(&self) -> (r: String)
        ensures
            r@ == spec_header(self@),
    {
        proof {
            reveal_strlit("-");
            reveal_strlit(",");
            reveal_strlit(" +");
        }
        let mut s = String::new();
        s.append("-");
        s.append(decimal_string(self.removed.start).as_str());
        s.append(",");
        s.append(decimal_string(self.removed.lines.len()).as_str());
        s.append(" +");
        s.append(decimal_string(self.added.start).as_str());
        s.append(",");
        s.append(decimal_string(self.added.lines.len()).as_str());
        proof {
            assert(s@ =~= spec_header(self@));
        }
        s
    }

    /// This hunk with the added block's start moved by `by`; the start must
    /// stay within line-number range.
    pub fn shift_added_block(self, by: isize) -> (r: Self)
        requires
            0 <= self@.added.start + by <= usize::MAX,
        ensures
            r@ == spec_shift_added(self@, by as int),
    {
        let new_start = self.added.start.checked_add_signed(by).unwrap();
        Hunk {
            added: Block { start: new_start, ..self.added },
            removed: self.removed,
        }
    }

    /// This hunk with both blocks' starts moved by `by`; both starts must
    /// stay within line-number range.
    pub fn shift_both_blocks(self, by: isize) -> (r: Self)
        requires
            0 <= self@.added.start + by <= usize::MAX,
            0 <= self@.removed.start + by <= usize::MAX,
        ensures
            r@ == spec_shift_both(self@, by as int),
    {
        let new_added = self.added.start.checked_add_signed(by).unwrap();
        let new_removed = self.removed.start.checked_add_signed(by).unwrap();
        Hunk {
            added: Block { start: new_added, ..self.added },
            removed: Block { start: new_removed, ..self.removed },
        }
    }
}


/// Status of a per-file patch, mirroring the delta kinds the
/// version-control backend distinguishes.
#[derive(Clone, Copy, PartialEq, Eq, Structural, Debug)]
pub enum DiffStatus {
    Unmodified,
    Added,
    Deleted,
    Modified,
    Renamed,
    Copied,
    Ignored,
    Untracked,
    Typechange,
    Unreadable,
    Conflicted,
}

/// The raw material of one hunk: its header coordinates and its lines.
#[derive(Debug)]
pub struct HunkInput {
    pub old_start: u32,
    pub old_lines: u32,
    pub new_start: u32,
    pub new_lines: u32,
    pub lines: Vec<DiffLine>,
}

/// Mathematical model of one hunk's raw material.
#[verifier::ext_equal]
pub struct HunkInputView {
    pub old_start: u32,
    pub old_lines: u32,
    pub new_start: u32,
    pub new_lines: u32,
    pub lines: Seq<DiffLineView>,
}

impl View for HunkInput {
    type V = HunkInputView;

    open spec fn view(&self) -> HunkInputView {
        HunkInputView {
            old_start: self.old_start,
            old_lines: self.old_lines,
            new_start: self.new_start,
            new_lines: self.new_lines,
            lines: self.lines.deep_view(),
        }
    }
}

impl DeepView for HunkInput {
    type V = HunkInputView;

    open spec fn deep_view(&self) -> HunkInputView {
        self@
    }
}

/// All hunks of one file in one diff, with the file's paths on both sides
/// and its status.
#[derive(Debug)]
pub struct Patch {
    pub old_path: Vec<u8>,
    pub new_path: Vec<u8>,
    pub status: DiffStatus,
    pub hunks: Vec<Hunk>,
}

/// Mathematical model of a per-file patch.
#[verifier::ext_equal]
pub struct PatchView {
    pub old_path: Seq<u8>,
    pub new_path: Seq<u8>,
    pub status: DiffStatus,
    pub hunks: Seq<HunkView>,
}

impl PatchView {
    /// A patch is well formed when all its hunks are.
    pub open spec fn wf(self) -> bool {
        forall|i: int| 0 <= i < self.hunks.len() ==> (#[trigger] self.hunks[i]).wf()
    }
}

impl View for Patch {
    type V = PatchView;

    open spec fn view(&self) -> PatchView {
        PatchView {
            old_path: self.old_path@,
            new_path: self.new_path@,
            status: self.status,
            hunks: self.hunks.deep_view(),
        }
    }
}

impl DeepView for Patch {
    type V = PatchView;

    open spec fn deep_view(&self) -> PatchView {
        self@
    }
}

/// Reads the raw hunks of one patch in order; the first defect wins.
pub open spec fn spec_parse_hunks(inputs: Seq<HunkInputView>) -> Result<Seq<HunkView>, AbsorbError>
    decreases inputs.len(),
{
    if inputs.len() == 0 {
        Ok(Seq::empty())
    } else {
        let h = inputs.first();
        match spec_hunk_new(h.old_start, h.old_lines, h.new_start, h.new_lines, h.lines) {
            Err(e) => Err(e),
            Ok(hv) => match spec_parse_hunks(inputs.drop_first()) {
                Err(e) => Err(e),
                Ok(rest) => Ok(seq![hv] + rest),
            },
        }
    }
}

/// A successful read of raw hunks yields one hunk per input.
pub proof fn lemma_parse_hunks_len(inputs: Seq<HunkInputView>)
    ensures
        spec_parse_hunks(inputs) is Ok ==> spec_parse_hunks(inputs)->Ok_0.len() == inputs.len(),
    decreases inputs.len(),
{
    if inputs.len() > 0 {
        lemma_parse_hunks_len(inputs.drop_first());
    }
}

/// What a patch read from a delta must be: both paths present, one file
/// pair, and every hunk well formed.
pub open spec fn spec_patch_new(
    old_path: Option<Seq<u8>>,
    new_path: Option<Seq<u8>>,
    status: DiffStatus,
    nfiles: u16,
    inputs: Seq<HunkInputView>,
) -> Result<PatchView, AbsorbError> {
    if old_path is None {
        Err(AbsorbError::EmptyOldPath)
    } else if new_path is None {
        Err(AbsorbError::EmptyNewPath)
    } else if nfiles < 1 || nfiles > 2 {
        Err(AbsorbError::MultipleFiles)
    } else {
        match spec_parse_hunks(inputs) {
            Err(e) => Err(e),
            Ok(hunks) => Ok(
                PatchView { old_path: old_path->0, new_path: new_path->0, status, hunks },
            ),
        }
    }
}

impl Patch {
    /// Builds a per-file patch from the delta's paths, status, file count
    /// and raw hunks.
    pub fn new(
        old_path: Option<Vec<u8>>,
        new_path: Option<Vec<u8>>,
        status: DiffStatus,
        nfiles: u16,
        inputs: &Vec<HunkInput>,
    ) -> (r: Result<Patch, AbsorbError>)
        ensures
            match r {
                Ok(p) => spec_patch_new(
                    old_path.deep_view(),
                    new_path.deep_view(),
                    status,
                    nfiles,
                    inputs.deep_view(),
                ) == Ok::<PatchView, AbsorbError>(p@) && p@.wf(),
                Err(e) => spec_patch_new(
                    old_path.deep_view(),
                    new_path.deep_view(),
                    status,
                    nfiles,
                    inputs.deep_view(),
                ) == Err::<PatchView, AbsorbError>(e),
            },
    {
        let ghost spec_r = spec_patch_new(
            old_path.deep_view(),
            new_path.deep_view(),
            status,
            nfiles,
            inputs.deep_view(),
        );
        if old_path.is_none() {
            return Err(AbsorbError::EmptyOldPath);
        }
        if new_path.is_none() {
            return Err(AbsorbError::EmptyNewPath);
        }
        if nfiles < 1 || nfiles > 2 {
            return Err(AbsorbError::MultipleFiles);
        }
        let ghost full = inputs.deep_view();
        let mut hunks: Vec<Hunk> = Vec::new();
        let mut idx: usize = 0;
        proof {
            assert(full.skip(0) =~= full);
            assert(hunks.deep_view() =~= Seq::<HunkView>::empty());
            if spec_parse_hunks(full) is Ok {
                assert(spec_parse_hunks(full)->Ok_0.take(0) =~= Seq::<HunkView>::empty());
                assert(spec_parse_hunks(full)->Ok_0.skip(0) =~= spec_parse_hunks(full)->Ok_0);
            }
        }
        while idx < inputs.len()
            invariant
                full == inputs.deep_view(),
                spec_r == spec_patch_new(
                    old_path.deep_view(),
                    new_path.deep_view(),
                    status,
                    nfiles,
                    full,
                ),
                old_path.deep_view() is Some,
                new_path.deep_view() is Some,
                1 <= nfiles <= 2,
                0 <= idx <= inputs@.len(),
                forall|i: int| 0 <= i < hunks@.len() ==> (#[trigger] hunks.deep_view()[i]).wf(),
                spec_parse_hunks(full) is Ok ==> {
                    let all = spec_parse_hunks(full)->Ok_0;
                    hunks.deep_view() == all.take(idx as int) && spec_parse_hunks(
                        full.skip(idx as int),
                    ) == Ok::<Seq<HunkView>, AbsorbError>(all.skip(idx as int))
                },
                spec_parse_hunks(full) is Err ==> spec_parse_hunks(full.skip(idx as int))
                    == spec_parse_hunks(full),
            decreases inputs@.len() - idx,
        {
            let inp = &inputs[idx];
            proof {
                assert(full.skip(idx as int).first() == inp@);
                assert(full.skip(idx as int).drop_first() =~= full.skip(idx + 1));
            }
            let h = match Hunk::new(
                inp.old_start,
                inp.old_lines,
                inp.new_start,
                inp.new_lines,
                &inp.lines,
            ) {
                Ok(h) => h,
                Err(e) => {
                    proof {
                        assert(spec_parse_hunks(full.skip(idx as int)) == Err::<
                            Seq<HunkView>,
                            AbsorbError,
                        >(e));
                        assert(spec_parse_hunks(full) == Err::<Seq<HunkView>, AbsorbError>(e));
                        assert(spec_r == Err::<PatchView, AbsorbError>(e));
                    }
                    return Err(e);
                },
            };
            let ghost pre = hunks.deep_view();
            hunks.push(h);
            proof {
                assert(hunks.deep_view() =~= pre.push(h@));
                if spec_parse_hunks(full) is Ok {
                    let all = spec_parse_hunks(full)->Ok_0;
                    let suffix = spec_parse_hunks(full.skip(idx as int))->Ok_0;
                    lemma_parse_hunks_len(full);
                    assert(suffix == seq![h@] + spec_parse_hunks(full.skip(idx + 1))->Ok_0);
                    assert(suffix.len() >= 1);
                    assert(all.skip(idx as int) == suffix);
                    assert(all[idx as int] == suffix[0]);
                    assert(all.take(idx + 1) =~= all.take(idx as int).push(h@));
                    assert(suffix.skip(1) =~= spec_parse_hunks(full.skip(idx + 1))->Ok_0);
                    assert(all.skip(idx + 1) =~= suffix.skip(1));
                }
            }
            idx = idx + 1;
        }
        proof {
            assert(full.skip(idx as int) =~= Seq::<HunkInputView>::empty());
            assert(spec_parse_hunks(full.skip(idx as int)) == Ok::<Seq<HunkView>, AbsorbError>(
                Seq::empty(),
            ));
            lemma_parse_hunks_len(full);
            if spec_parse_hunks(full) is Ok {
                let all = spec_parse_hunks(full)->Ok_0;
                assert(all.skip(idx as int) == Seq::<HunkView>::empty());
                assert(all.take(idx as int) =~= all);
            }
        }
        let p = Patch { old_path: old_path.unwrap(), new_path: new_path.unwrap(), status, hunks };
        proof {
            assert(spec_r is Ok);
            assert(spec_r->Ok_0 =~= p@);
        }
        Ok(p)
    }
}


/// An ordered list of per-file patches in which every path is unique on
/// both sides.
#[derive(Debug)]
pub struct Diff {
    patches: Vec<Patch>,
}

/// Every path occurs in at most one patch, on the old side and on the new
/// side alike.
pub open spec fn spec_paths_unique(s: Seq<PatchView>) -> bool {
    forall|i: int, j: int|
        0 <= i < j < s.len() ==> (#[trigger] s[i]).old_path != (#[trigger] s[j]).old_path
            && s[i].new_path != s[j].new_path
}

/// Walks the patches in order looking for the first path that is already
/// occupied by an earlier patch; an old-side collision at a patch is
/// reported before a new-side collision at the same patch.
pub open spec fn spec_diff_check(s: Seq<PatchView>, k: int) -> Option<AbsorbError>
    decreases s.len() - k,
    when 0 <= k <= s.len()
{
    if k >= s.len() {
        None
    } else if exists|i: int| 0 <= i < k && (#[trigger] s[i]).old_path == s[k].old_path {
        Some(AbsorbError::OldPathOccupied)
    } else if exists|i: int| 0 <= i < k && (#[trigger] s[i]).new_path == s[k].new_path {
        Some(AbsorbError::NewPathOccupied)
    } else {
        spec_diff_check(s, k + 1)
    }
}

/// The first patch of `s` whose old path is `path`.
pub open spec fn spec_by_old(s: Seq<PatchView>, path: Seq<u8>) -> Option<PatchView>
    decreases s.len(),
{
    if s.len() == 0 {
        None
    } else if s.first().old_path == path {
        Some(s.first())
    } else {
        spec_by_old(s.drop_first(), path)
    }
}

/// The first patch of `s` whose new path is `path`.
pub open spec fn spec_by_new(s: Seq<PatchView>, path: Seq<u8>) -> Option<PatchView>
    decreases s.len(),
{
    if s.len() == 0 {
        None
    } else if s.first().new_path == path {
        Some(s.first())
    } else {
        spec_by_new(s.drop_first(), path)
    }
}

/// A found patch is well formed when every patch of the diff is.
pub proof fn lemma_by_new_wf(s: Seq<PatchView>, path: Seq<u8>)
    requires
        forall|i: int| 0 <= i < s.len() ==> (#[trigger] s[i]).wf(),
    ensures
        spec_by_new(s, path) matches Some(p) ==> p.wf(),
    decreases s.len(),
{
    if s.len() > 0 {
        assert(forall|i: int|
            0 <= i < s.drop_first().len() ==> (#[trigger] s.drop_first()[i]).wf());
        lemma_by_new_wf(s.drop_first(), path);
    }
}

impl View for Diff {
    type V = Seq<PatchView>;

    closed spec fn view(&self) -> Seq<PatchView> {
        self.patches.deep_view()
    }
}

impl DeepView for Diff {
    type V = Seq<PatchView>;

    open spec fn deep_view(&self) -> Seq<PatchView> {
        self@
    }
}

impl Diff {
    /// A diff is well formed when its paths are unique and all its patches
    /// are well formed.
    pub open spec fn wf(self) -> bool {
        &&& spec_paths_unique(self@)
        &&& forall|i: int| 0 <= i < self@.len() ==> (#[trigger] self@[i]).wf()
    }

    /// Builds a diff from per-file patches, refusing a path that occurs
    /// twice on either side.
    pub fn new(patches: Vec<Patch>) -> (r: Result<Diff, AbsorbError>)
        requires
            forall|i: int| 0 <= i < patches@.len() ==> (#[trigger] patches.deep_view()[i]).wf(),
        ensures
            match r {
                Ok(d) => spec_diff_check(patches.deep_view(), 0) is None && d@
                    == patches.deep_view() && d.wf(),
                Err(e) => spec_diff_check(patches.deep_view(), 0) == Some(e),
            },
    {
        let ghost s = patches.deep_view();
        let n = patches.len();
        let mut k: usize = 0;
        while k < n
            invariant
                s == patches.deep_view(),
                n == patches@.len(),
                0 <= k <= n,
                spec_diff_check(s, 0) == spec_diff_check(s, k as int),
                forall|i: int, j: int|
                    0 <= i < j < k ==> (#[trigger] s[i]).old_path != (#[trigger] s[j]).old_path
                        && s[i].new_path != s[j].new_path,
            decreases n - k,
        {
            let mut i: usize = 0;
            while i < k
                invariant
                    s == patches.deep_view(),
                    n == patches@.len(),
                    0 <= i <= k < n,
                    spec_diff_check(s, 0) == spec_diff_check(s, k as int),
                    forall|j: int| 0 <= j < i ==> (#[trigger] s[j]).old_path != s[k as int].old_path,
                decreases k - i,
            {
                if bytes_eq(patches[i].old_path.as_slice(), patches[k].old_path.as_slice()) {
                    proof {
                        assert(s[i as int].old_path == s[k as int].old_path);
                    }
                    return Err(AbsorbError::OldPathOccupied);
                }
                i = i + 1;
            }
            let mut i: usize = 0;
            while i < k
                invariant
                    s == patches.deep_view(),
                    n == patches@.len(),
                    0 <= i <= k < n,
                    spec_diff_check(s, 0) == spec_diff_check(s, k as int),
                    forall|j: int| 0 <= j < k ==> (#[trigger] s[j]).old_path != s[k as int].old_path,
                    forall|j: int| 0 <= j < i ==> (#[trigger] s[j]).new_path != s[k as int].new_path,
                decreases k - i,
            {
                if bytes_eq(patches[i].new_path.as_slice(), patches[k].new_path.as_slice()) {
                    proof {
                        assert(s[i as int].new_path == s[k as int].new_path);
                    }
                    return Err(AbsorbError::NewPathOccupied);
                }
                i = i + 1;
            }
            k = k + 1;
        }
        Ok(Diff { patches })
    }

    /// The patches of this diff, in order.
    pub fn patches(&self) -> (r: &Vec<Patch>)
        ensures
            r.deep_view() == self@,
    {
        &self.patches
    }

    /// The patch whose old path is `path`, when the diff has one.
    pub fn by_old(&self, path: &[u8]) -> (r: Option<&Patch>)
        ensures
            match r {
                Some(p) => spec_by_old(self@, path@) == Some(p@),
                None => spec_by_old(self@, path@) is None,
            },
    {
        let ghost s = self@;
        let n = self.patches.len();
        let mut k: usize = 0;
        proof {
            assert(s.skip(0) =~= s);
        }
        while k < n
            invariant
                s == self@,
                n == self.patches@.len(),
                n == s.len(),
                0 <= k <= n,
                spec_by_old(s, path@) == spec_by_old(s.skip(k as int), path@),
            decreases n - k,
        {
            proof {
                assert(s.skip(k as int).first() == s[k as int]);
                assert(s.skip(k as int).drop_first() =~= s.skip(k + 1));
                assert(s[k as int] == self.patches@[k as int]@);
            }
            if bytes_eq(self.patches[k].old_path.as_slice(), path) {
                return Some(&self.patches[k]);
            }
            k = k + 1;
        }
        proof {
            assert(s.skip(k as int) =~= Seq::<PatchView>::empty());
        }
        None
    }

    /// The patch whose new path is `path`, when the diff has one.
    pub fn by_new(&self, path: &[u8]) -> (r: Option<&Patch>)
        ensures
            match r {
                Some(p) => spec_by_new(self@, path@) == Some(p@),
                None => spec_by_new(self@, path@) is None,
            },
    {
        let ghost s = self@;
        let n = self.patches.len();
        let mut k: usize = 0;
        proof {
            assert(s.skip(0) =~= s);
        }
        while k < n
            invariant
                s == self@,
                n == self.patches@.len(),
                n == s.len(),
                0 <= k <= n,
                spec_by_new(s, path@) == spec_by_new(s.skip(k as int), path@),
            decreases n - k,
        {
            proof {
                assert(s.skip(k as int).first() == s[k as int]);
                assert(s.skip(k as int).drop_first() =~= s.skip(k + 1));
                assert(s[k as int] == self.patches@[k as int]@);
            }
            if bytes_eq(self.patches[k].new_path.as_slice(), path) {
                return Some(&self.patches[k]);
            }
            k = k + 1;
        }
        proof {
            assert(s.skip(k as int) =~= Seq::<PatchView>::empty());
        }
        None
    }
}

} // verus!

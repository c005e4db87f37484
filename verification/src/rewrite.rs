//! Applying one hunk to file content: the byte-level rewrite that keeps
//! everything above the hunk, emits the added lines, skips the removed
//! lines, and keeps the remaining tail verbatim.

use vstd::prelude::*;

use crate::owned::Hunk;
use crate::owned::HunkView;
use crate::owned::spec_anchors;

verus! {

/// The newline byte that terminates a line.
pub const NEWLINE: u8 = 10;

/// Relies on memchr::memchr: returns the index of the first occurrence of
/// `needle` in `haystack`, or nothing when the byte does not occur; a
/// returned index is guaranteed to be less than the haystack's length.
#[verifier::external_body]
fn find_byte(needle: u8, haystack: &[u8]) -> (r: Option<usize>)
    ensures
        match r {
            Some(i) => i < haystack@.len() && haystack@[i as int] == needle && forall|j: int|
                0 <= j < i ==> haystack@[j] != needle,
            None => forall|j: int| 0 <= j < haystack@.len() ==> haystack@[j] != needle,
        },
{
    memchr::memchr(needle, haystack)
}

/// The byte offset just after the newline that ends line `n` of `s`, lines
/// being numbered from one; the length of `s` when `s` has fewer than `n`
/// line terminators; zero when `n` is zero.
pub open spec fn spec_line_split(s: Seq<u8>, n: nat) -> int
    decreases s.len(),
{
    if n == 0 || s.len() == 0 {
        0
    } else if s[0] == NEWLINE {
        1 + spec_line_split(s.subrange(1, s.len() as int), (n - 1) as nat)
    } else {
        1 + spec_line_split(s.subrange(1, s.len() as int), n)
    }
}

/// The split offset never leaves the content.
pub proof fn lemma_line_split_in_range(s: Seq<u8>, n: nat)
    ensures
        0 <= spec_line_split(s, n) <= s.len(),
    decreases s.len(),
{
    if n == 0 || s.len() == 0 {
    } else if s[0] == NEWLINE {
        lemma_line_split_in_range(s.subrange(1, s.len() as int), (n - 1) as nat);
    } else {
        lemma_line_split_in_range(s.subrange(1, s.len() as int), n);
    }
}

/// Unrolls the split over a whole first line: when the first newline of `s`
/// stands at index `i`, splitting after `n >= 1` lines is the first line
/// and a split after `n - 1` lines of the rest.
proof fn lemma_line_split_step(s: Seq<u8>, n: nat, i: int)
    requires
        n >= 1,
        0 <= i < s.len(),
        s[i] == NEWLINE,
        forall|j: int| 0 <= j < i ==> s[j] != NEWLINE,
    ensures
        spec_line_split(s, n) == i + 1 + spec_line_split(
            s.subrange(i + 1, s.len() as int),
            (n - 1) as nat,
        ),
    decreases i,
{
    if i == 0 {
        assert(s.subrange(1, s.len() as int) =~= s.subrange(i + 1, s.len() as int));
    } else {
        let rest = s.subrange(1, s.len() as int);
        lemma_line_split_step(rest, n, i - 1);
        assert(rest.subrange(i, rest.len() as int) =~= s.subrange(i + 1, s.len() as int));
    }
}

/// When `s` holds no newline, a split after one or more lines is the whole
/// of `s`.
proof fn lemma_line_split_no_newline(s: Seq<u8>, n: nat)
    requires
        n >= 1,
        forall|j: int| 0 <= j < s.len() ==> s[j] != NEWLINE,
    ensures
        spec_line_split(s, n) == s.len(),
    decreases s.len(),
{
    if s.len() > 0 {
        lemma_line_split_no_newline(s.subrange(1, s.len() as int), n);
    }
}

/// Splits `content` into the bytes of lines one through `n` (each with its
/// terminator, as far as the content reaches) and the rest.
pub fn split_lines_after<'a>(content: &'a [u8], n: usize) -> (r: (&'a [u8], &'a [u8]))
    ensures
        ({
            let cut = spec_line_split(content@, n as nat);
            r.0@ == content@.subrange(0, cut) && r.1@ == content@.subrange(
                cut,
                content@.len() as int,
            )
        }),
{
    let len = content.len();
    let mut pos: usize = 0;
    let mut remaining: usize = n;
    proof {
        lemma_line_split_in_range(content@, n as nat);
        assert(content@.subrange(0, content@.len() as int) =~= content@);
    }
    while remaining > 0
        invariant
            len == content@.len(),
            0 <= pos <= content@.len(),
            spec_line_split(content@, n as nat) == pos + spec_line_split(
                content@.subrange(pos as int, content@.len() as int),
                remaining as nat,
            ),
        ensures
            pos == spec_line_split(content@, n as nat),
        decreases remaining,
    {
        let rest = vstd::slice::slice_subrange(content, pos, content.len());
        match find_byte(NEWLINE, rest) {
            Some(i) => {
                proof {
                    lemma_line_split_step(rest@, remaining as nat, i as int);
                    assert(rest@.subrange(i + 1, rest@.len() as int) =~= content@.subrange(
                        pos + i + 1,
                        content@.len() as int,
                    ));
                    lemma_line_split_in_range(
                        content@.subrange(pos + i + 1, content@.len() as int),
                        (remaining - 1) as nat,
                    );
                }
                pos = pos + i + 1;
                remaining = remaining - 1;
            },
            None => {
                proof {
                    lemma_line_split_no_newline(rest@, remaining as nat);
                }
                pos = len;
                remaining = 0;
            },
        }
    }
    let pre = vstd::slice::slice_subrange(content, 0, pos);
    let post = vstd::slice::slice_subrange(content, pos, len);
    (pre, post)
}

/// All line payloads joined into one byte sequence.
pub open spec fn spec_concat_lines(lines: Seq<Seq<u8>>) -> Seq<u8>
    decreases lines.len(),
{
    if lines.len() == 0 {
        Seq::empty()
    } else {
        lines.first() + spec_concat_lines(lines.drop_first())
    }
}

/// Joining one more payload onto the end extends the joined bytes.
pub proof fn lemma_concat_lines_snoc(lines: Seq<Seq<u8>>, x: Seq<u8>)
    ensures
        spec_concat_lines(lines.push(x)) == spec_concat_lines(lines) + x,
    decreases lines.len(),
{
    if lines.len() == 0 {
        assert(lines.push(x).drop_first() =~= lines);
        assert(spec_concat_lines(lines.push(x)) =~= spec_concat_lines(lines) + x);
    } else {
        assert(lines.push(x).drop_first() =~= lines.drop_first().push(x));
        lemma_concat_lines_snoc(lines.drop_first(), x);
        assert(spec_concat_lines(lines.push(x)) =~= spec_concat_lines(lines) + x);
    }
}

/// The file content after applying `h` to `old`: everything up to and
/// including the newline that ends the last unchanged line above the hunk,
/// then the added lines, then everything after the removed lines. A hunk at
/// the top of the file keeps an empty prefix; one whose removed side runs
/// past the end of the content leaves an empty tail.
pub open spec fn spec_apply_hunk(old: Seq<u8>, h: HunkView) -> Seq<u8> {
    let cut = spec_line_split(old, spec_anchors(h).0 as nat);
    let rest = old.subrange(cut, old.len() as int);
    let skip = spec_line_split(rest, h.removed.lines.len());
    old.subrange(0, cut) + spec_concat_lines(h.added.lines) + rest.subrange(
        skip,
        rest.len() as int,
    )
}

/// Appends a byte slice onto a buffer.
pub(crate) fn push_bytes(out: &mut Vec<u8>, b: &[u8])
    ensures
        final(out)@ == old(out)@ + b@,
{
    let n = b.len();
    let mut i: usize = 0;
    while i < n
        invariant
            n == b@.len(),
            0 <= i <= n,
            out@ =~= old(out)@ + b@.subrange(0, i as int),
        decreases n - i,
    {
        out.push(b[i]);
        proof {
            assert(out@ =~= old(out)@ + b@.subrange(0, i + 1));
        }
        i = i + 1;
    }
    proof {
        assert(out@ =~= old(out)@ + b@);
    }
}

/// Applies one hunk to file content, producing the new content bytes.
pub fn apply_hunk_to_content(old: &[u8], hunk: &Hunk) -> (r: Vec<u8>)
    requires
        hunk@.wf(),
    ensures
        r@ == spec_apply_hunk(old@, hunk@),
{
    let (old_start, _, _, _) = hunk.anchors();

    // first, keep the lines from the old content that are above the hunk
    let (pre, post) = split_lines_after(old, old_start);
    let mut out: Vec<u8> = Vec::new();
    push_bytes(&mut out, pre);

    // next, emit the added side of the hunk
    let n = hunk.added.lines.len();
    let mut i: usize = 0;
    while i < n
        invariant
            n == hunk@.added.lines.len(),
            hunk@ == hunk@,
            0 <= i <= n,
            out@ == pre@ + spec_concat_lines(hunk@.added.lines.take(i as int)),
        decreases n - i,
    {
        let line: &Vec<u8> = &hunk.added.lines[i];
        push_bytes(&mut out, line.as_slice());
        proof {
            assert(line@ =~= hunk@.added.lines[i as int]);
            assert(hunk@.added.lines.take(i + 1) =~= hunk@.added.lines.take(i as int).push(
                line@,
            ));
            lemma_concat_lines_snoc(hunk@.added.lines.take(i as int), line@);
        }
        i = i + 1;
    }
    proof {
        assert(hunk@.added.lines.take(n as int) =~= hunk@.added.lines);
    }

    // if this hunk removed lines from the old content, those are skipped;
    // the remaining tail is kept verbatim
    let (_, tail) = split_lines_after(post, hunk.removed.lines.len());
    push_bytes(&mut out, tail);
    out
}

} // verus!

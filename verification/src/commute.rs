//! The commutation engine: deciding whether two hunks that were applied in
//! order can be reordered while keeping the final content, and returning the
//! swapped hunks with corrected line numbers.

use vstd::prelude::*;

use crate::owned::Block;
use crate::owned::BlockView;
use crate::owned::Hunk;
use crate::owned::HunkView;
use crate::owned::bytes_eq;
use crate::owned::spec_anchors;
use crate::owned::spec_changed_offset;
use crate::owned::spec_shift_both;

verus! {

/// All payloads of `s` are byte-equal to one another. An empty sequence is
/// uniform.
pub open spec fn all_lines_equal(s: Seq<Seq<u8>>) -> bool {
    forall|i: int, j: int| 0 <= i < s.len() && 0 <= j < s.len() ==> s[i] == s[j]
}

/// The first-applied hunk lies above the second in content order: the first
/// unchanged line below `first` on the added side is no later than the last
/// unchanged line above `second` on the removed side. (The added side of
/// `first` and the removed side of `second` number the same file.)
pub open spec fn spec_first_above(first: HunkView, second: HunkView) -> bool {
    spec_anchors(first).3 <= spec_anchors(second).0
}

/// The second-applied hunk lies above the first in content order.
pub open spec fn spec_second_above(first: HunkView, second: HunkView) -> bool {
    spec_anchors(second).1 <= spec_anchors(first).2
}

/// Two overlapping hunks commute anyway when both are pure deletions, or
/// both pure insertions, of one repeated line: interleaving them in any
/// order gives the same content.
pub open spec fn spec_degenerate_commutable(first: HunkView, second: HunkView) -> bool {
    ||| (first.added.lines.len() == 0 && second.added.lines.len() == 0
        && all_lines_equal(first.removed.lines + second.removed.lines))
    ||| (first.removed.lines.len() == 0 && second.removed.lines.len() == 0
        && all_lines_equal(first.added.lines + second.added.lines))
}

/// Whether `first` and `second` (in application order) can be reordered:
/// either one lies strictly above the other, or the repeated-line
/// degeneracy holds.
pub open spec fn spec_commutable(first: HunkView, second: HunkView) -> bool {
    ||| spec_first_above(first, second)
    ||| spec_second_above(first, second)
    ||| spec_degenerate_commutable(first, second)
}

/// The result of commuting `first` and `second`, when they commute and the
/// corrected coordinates of the lower hunk stay well formed. The hunk that
/// lies below in content order has both starts corrected by the line-count
/// change the upper hunk introduced, with the sign chosen by which hunk
/// moves past the other.
#[verifier::opaque]
pub open spec fn spec_commute(first: HunkView, second: HunkView) -> Option<(HunkView, HunkView)> {
    if spec_first_above(first, second) || spec_second_above(first, second) {
        let first_above = spec_first_above(first, second);
        let above = if first_above { first } else { second };
        let below = if first_above { second } else { first };
        let off = if first_above {
            -spec_changed_offset(above)
        } else {
            spec_changed_offset(above)
        };
        let shifted = spec_shift_both(below, off);
        if shifted.removed.wf() && shifted.added.wf() {
            Some(
                if first_above {
                    (shifted, above)
                } else {
                    (above, shifted)
                },
            )
        } else {
            None
        }
    } else if spec_degenerate_commutable(first, second) {
        Some((second, first))
    } else {
        None
    }
}

/// Tests whether all payloads of two line blocks, taken together, are equal
/// to each other. An empty pair of blocks is uniform.
pub fn uniform(first: &Vec<Vec<u8>>, second: &Vec<Vec<u8>>) -> (r: bool)
    ensures
        r == all_lines_equal(first.deep_view() + second.deep_view()),
{
    let ghost cat = first.deep_view() + second.deep_view();
    if first.len() == 0 && second.len() == 0 {
        return true;
    }
    let pivot: &Vec<u8> = if first.len() > 0 {
        &first[0]
    } else {
        &second[0]
    };
    proof {
        assert(pivot.deep_view() =~= cat[0]);
    }
    let mut i: usize = 0;
    while i < first.len()
        invariant
            cat == first.deep_view() + second.deep_view(),
            cat.len() > 0,
            pivot.deep_view() == cat[0],
            0 <= i <= first@.len(),
            forall|j: int| 0 <= j < i ==> #[trigger] cat[j] == cat[0],
        decreases first@.len() - i,
    {
        let same = bytes_eq(first[i].as_slice(), pivot.as_slice());
        proof {
            let v = first@[i as int];
            assert(v.deep_view() =~= v@);
            assert(pivot.deep_view() =~= pivot@);
            assert(cat[i as int] == v.deep_view());
        }
        if !same {
            proof {
                assert(cat[i as int] != cat[0]);
            }
            return false;
        }
        proof {
            assert(cat[i as int] == cat[0]);
        }
        i = i + 1;
    }
    let mut k: usize = 0;
    while k < second.len()
        invariant
            cat == first.deep_view() + second.deep_view(),
            cat.len() > 0,
            pivot.deep_view() == cat[0],
            0 <= k <= second@.len(),
            forall|j: int| 0 <= j < first@.len() + k ==> #[trigger] cat[j] == cat[0],
        decreases second@.len() - k,
    {
        let same = bytes_eq(second[k].as_slice(), pivot.as_slice());
        proof {
            let v = second@[k as int];
            assert(v.deep_view() =~= v@);
            assert(pivot.deep_view() =~= pivot@);
            assert(cat[first@.len() + k] == v.deep_view());
        }
        if !same {
            proof {
                assert(cat[first@.len() + k] != cat[0]);
            }
            return false;
        }
        proof {
            assert(cat[first@.len() + k] == cat[0]);
        }
        k = k + 1;
    }
    proof {
        assert(forall|i: int, j: int|
            0 <= i < cat.len() && 0 <= j < cat.len() ==> #[trigger] cat[i] == #[trigger] cat[j]);
    }
    true
}

/// Decides whether two hunks that were applied in order (`first`, then
/// `second`, against the same base file) can be reordered, and if so
/// returns the swapped hunks with corrected line numbers. Two hunks whose
/// corrected coordinates would leave the line-number range, or would place
/// lines before the top of the file, do not commute.
pub fn commute(first: &Hunk, second: &Hunk) -> (r: Option<(Hunk, Hunk)>)
    requires
        first@.wf(),
        second@.wf(),
    ensures
        match r {
            Some(p) => {
                &&& spec_commute(first@, second@) == Some((p.0@, p.1@))
                &&& p.0@.wf()
                &&& p.1@.wf()
            },
            None => spec_commute(first@, second@) is None,
        },
{
    proof {
        reveal(spec_commute);
    }
    let (_, _, first_upper, first_lower) = first.anchors();
    let (second_upper, second_lower, _, _) = second.anchors();

    // represent hunks in content order rather than application order
    let first_above = first_lower <= second_upper;
    if !first_above && !(second_lower <= first_upper) {
        // if both hunks are exclusively adding or removing, and both are
        // composed entirely of the same line being repeated, then they
        // commute no matter what their offsets are, because they can be
        // interleaved in any order without changing the final result
        if first.added.lines.len() == 0 && second.added.lines.len() == 0
            && uniform(&first.removed.lines, &second.removed.lines) {
            return Some((second.duplicate(), first.duplicate()));
        }
        if first.removed.lines.len() == 0 && second.removed.lines.len() == 0
            && uniform(&first.added.lines, &second.added.lines) {
            return Some((second.duplicate(), first.duplicate()));
        }
        // these hunks overlap and cannot be interleaved, so they do not
        // commute
        return None;
    }

    let above = if first_above { first } else { second };
    let below = if first_above { second } else { first };
    let above_change_offset: isize = if first_above {
        -above.changed_offset()
    } else {
        above.changed_offset()
    };

    let new_added_start = match below.added.start.checked_add_signed(above_change_offset) {
        Some(s) => s,
        None => {
            return None;
        },
    };
    let new_removed_start = match below.removed.start.checked_add_signed(above_change_offset) {
        Some(s) => s,
        None => {
            return None;
        },
    };
    if new_added_start == 0 && below.added.lines.len() > 0 {
        return None;
    }
    if new_removed_start == 0 && below.removed.lines.len() > 0 {
        return None;
    }
    if usize::MAX - new_added_start < below.added.lines.len() {
        return None;
    }
    if usize::MAX - new_removed_start < below.removed.lines.len() {
        return None;
    }

    let shifted = below.duplicate().shift_both_blocks(above_change_offset);
    Some(
        if first_above {
            (shifted, above.duplicate())
        } else {
            (above.duplicate(), shifted)
        },
    )
}

/// `after` as it would be if none of `before` had been applied: the result
/// of folding `after` backward through `before` in reverse application
/// order, or nothing as soon as one step fails to commute.
pub open spec fn spec_commute_diff_before(after: HunkView, before: Seq<HunkView>) -> Option<
    HunkView,
>
    decreases before.len(),
{
    if before.len() == 0 {
        Some(after)
    } else {
        match spec_commute(before.last(), after) {
            Some(p) => spec_commute_diff_before(p.0, before.drop_last()),
            None => None,
        }
    }
}

/// Commutes `after` backward through all hunks of one earlier patch. The
/// patch's hunks must be walked in reverse application order (last applied
/// to first applied), which also happens to be reverse line order (bottom
/// to top), which also happens to be the reverse of the order they are
/// stored in.
pub fn commute_diff_before(after: &Hunk, before: &Vec<Hunk>) -> (r: Option<Hunk>)
    requires
        after@.wf(),
        forall|i: int| 0 <= i < before@.len() ==> (#[trigger] before@[i])@.wf(),
    ensures
        match r {
            Some(h) => spec_commute_diff_before(after@, before.deep_view()) == Some(h@) && h@.wf(),
            None => spec_commute_diff_before(after@, before.deep_view()) is None,
        },
{
    let ghost full = before.deep_view();
    let mut running = after.duplicate();
    let mut idx = before.len();
    proof {
        assert(full.take(idx as int) =~= full);
    }
    while idx > 0
        invariant
            full == before.deep_view(),
            forall|i: int| 0 <= i < before@.len() ==> (#[trigger] before@[i])@.wf(),
            0 <= idx <= before@.len(),
            running@.wf(),
            spec_commute_diff_before(after@, full) == spec_commute_diff_before(
                running@,
                full.take(idx as int),
            ),
        decreases idx,
    {
        proof {
            assert(full.take(idx as int).last() == before@[idx - 1]@);
            assert(full.take(idx as int).drop_last() =~= full.take(idx - 1));
        }
        match commute(&before[idx - 1], &running) {
            Some(p) => {
                running = p.0;
            },
            None => {
                return None;
            },
        }
        idx = idx - 1;
    }
    proof {
        assert(full.take(0) =~= Seq::<HunkView>::empty());
    }
    Some(running)
}

/// One direction of the symmetry of uniformity under swapping the two
/// halves of a concatenation.
proof fn lemma_all_lines_equal_concat_one_way(s: Seq<Seq<u8>>, t: Seq<Seq<u8>>)
    requires
        all_lines_equal(s + t),
    ensures
        all_lines_equal(t + s),
{
    assert forall|i: int, j: int|
        0 <= i < (t + s).len() && 0 <= j < (t + s).len() implies (t + s)[i] == (t + s)[j] by {
        let i2 = if i < t.len() { s.len() + i } else { i - t.len() };
        let j2 = if j < t.len() { s.len() + j } else { j - t.len() };
        assert((t + s)[i] == (s + t)[i2]);
        assert((t + s)[j] == (s + t)[j2]);
    }
}

/// Uniformity of the concatenated payloads does not depend on the order of
/// the two halves.
pub proof fn lemma_all_lines_equal_concat_symmetric(s: Seq<Seq<u8>>, t: Seq<Seq<u8>>)
    ensures
        all_lines_equal(s + t) == all_lines_equal(t + s),
{
    if all_lines_equal(s + t) {
        lemma_all_lines_equal_concat_one_way(s, t);
    }
    if all_lines_equal(t + s) {
        lemma_all_lines_equal_concat_one_way(t, s);
    }
}

/// Symmetry of commutation: for two hunks whose content orderings agree in
/// both reading directions, commutability in one application order is
/// equivalent to commutability in the other. (Where the orderings disagree
/// the two readings compare different coordinate spaces and the equivalence
/// does not hold.)
pub proof fn lemma_commute_symmetric(a: HunkView, b: HunkView)
    requires
        (spec_first_above(a, b) || spec_second_above(a, b)) == (spec_first_above(b, a)
            || spec_second_above(b, a)),
    ensures
        spec_commutable(a, b) == spec_commutable(b, a),
{
    if !(spec_first_above(a, b) || spec_second_above(a, b)) {
        lemma_all_lines_equal_concat_symmetric(a.removed.lines, b.removed.lines);
        lemma_all_lines_equal_concat_symmetric(a.added.lines, b.added.lines);
    }
}

/// Offset conservation: a successful commutation preserves the total
/// line-count change of the pair of hunks.
pub proof fn lemma_commute_offset_conservation(
    first: HunkView,
    second: HunkView,
    a: HunkView,
    b: HunkView,
)
    requires
        spec_commute(first, second) == Some((a, b)),
    ensures
        spec_changed_offset(a) + spec_changed_offset(b) == spec_changed_offset(first)
            + spec_changed_offset(second),
{
    reveal(spec_commute);
}

} // verus!


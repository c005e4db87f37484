//! The orchestration decisions: which ancestor commit each staged hunk
//! belongs to, with the two-counter line-offset bookkeeping that keeps
//! multi-hunk patches consistent, and the sequence of actions that turns
//! the assignments into fixup commits.

use vstd::prelude::*;

use crate::commute::commute_diff_before;
use crate::commute::spec_commute_diff_before;
use crate::errors::AbsorbError;
use crate::owned::Diff;
use crate::owned::DiffStatus;
use crate::owned::Hunk;
use crate::owned::HunkView;
use crate::owned::PatchView;
use crate::owned::copy_bytes;
use crate::owned::lemma_by_new_wf;
use crate::owned::spec_by_new;
use crate::owned::spec_changed_offset;
use crate::owned::spec_shift_added;
use crate::owned::spec_shift_both;
use crate::rewrite::push_bytes;
use crate::stack::lemma_count_le_len;
use crate::stack::lemma_count_snoc;
use crate::stack::spec_count;
use crate::owned::bytes_eq;

verus! {

/// One hunk with its chosen destination: the hunk already shifted into
/// apply-time coordinates, the index of the destination commit in the
/// stack, and the index of its owning patch in the index diff.
#[derive(Debug)]
pub struct PlannedHunk {
    pub hunk: Hunk,
    pub dest: usize,
    pub patch: usize,
}

/// Mathematical model of a planned hunk.
#[verifier::ext_equal]
pub struct PlannedHunkView {
    pub hunk: HunkView,
    pub dest: int,
    pub patch: int,
}

impl View for PlannedHunk {
    type V = PlannedHunkView;

    open spec fn view(&self) -> PlannedHunkView {
        PlannedHunkView { hunk: self.hunk@, dest: self.dest as int, patch: self.patch as int }
    }
}

impl DeepView for PlannedHunk {
    type V = PlannedHunkView;

    open spec fn deep_view(&self) -> PlannedHunkView {
        self@
    }
}

/// Everything the patch loop decides: the hunks that found a destination,
/// in order, and whether any patch was a modification, any patch was
/// something else, and any hunk found no destination.
#[derive(Debug)]
pub struct AbsorbPlan {
    pub hunks: Vec<PlannedHunk>,
    pub any_modified: bool,
    pub any_non_modified: bool,
    pub any_hunk_without_target: bool,
}

/// Mathematical model of an absorption plan.
#[verifier::ext_equal]
pub struct PlanView {
    pub hunks: Seq<PlannedHunkView>,
    pub any_modified: bool,
    pub any_non_modified: bool,
    pub any_hunk_without_target: bool,
}

impl View for AbsorbPlan {
    type V = PlanView;

    open spec fn view(&self) -> PlanView {
        PlanView {
            hunks: self.hunks.deep_view(),
            any_modified: self.any_modified,
            any_non_modified: self.any_non_modified,
            any_hunk_without_target: self.any_hunk_without_target,
        }
    }
}

/// The plan the loops start from: nothing seen yet.
pub open spec fn spec_empty_plan() -> PlanView {
    PlanView {
        hunks: Seq::empty(),
        any_modified: false,
        any_non_modified: false,
        any_hunk_without_target: false,
    }
}

/// A counter value that executable signed arithmetic can still negate.
pub open spec fn in_isize(x: int) -> bool {
    -(isize::MAX as int) <= x <= isize::MAX as int
}

/// Walks the stack from the newest commit and finds the destination of one
/// hunk: the first commit whose patch for the tracked file the hunk cannot
/// pass. A commit that does not touch the file commutes trivially. When
/// whole-file matching is on, the first commit touching the file is the
/// destination. A commit that added the file is the destination, since the
/// hunk cannot move past the file's creation. A commit that renamed the
/// file changes the tracked path to the older name. Otherwise the hunk is
/// commuted backward through the commit's patch; where that fails, the
/// commit is the destination.
pub open spec fn spec_find_dest(
    stack: Seq<Seq<PatchView>>,
    k: int,
    path: Seq<u8>,
    hunk: HunkView,
    whole_file: bool,
) -> Option<(int, HunkView)>
    decreases stack.len() - k,
    when 0 <= k <= stack.len()
{
    if k >= stack.len() {
        None
    } else {
        match spec_by_new(stack[k], path) {
            None => spec_find_dest(stack, k + 1, path, hunk, whole_file),
            Some(p) => {
                if whole_file {
                    Some((k, hunk))
                } else if p.status == DiffStatus::Added {
                    Some((k, hunk))
                } else {
                    match spec_commute_diff_before(hunk, p.hunks) {
                        Some(h2) => spec_find_dest(stack, k + 1, p.old_path, h2, whole_file),
                        None => Some((k, hunk)),
                    }
                }
            },
        }
    }
}

/// Plans the hunks of one patch from hunk `h` on, carrying the two offset
/// counters: `preceding`, the accumulated line-count change of the hunks
/// already seen in this patch, which takes each hunk back to the
/// coordinates it would have alone in the index; and `applied`, the
/// accumulated change of the hunks that found a destination, which takes a
/// hunk forward into the coordinates of the partially rewritten file. A
/// hunk whose shifted coordinates would leave the representable range is a
/// defect.
pub open spec fn spec_plan_patch(
    stack: Seq<Seq<PatchView>>,
    patch: PatchView,
    pidx: int,
    h: int,
    preceding: int,
    applied: int,
    whole_file: bool,
    acc: PlanView,
) -> Result<(PlanView, int, int), AbsorbError>
    decreases patch.hunks.len() - h,
    when 0 <= h <= patch.hunks.len()
{
    if h >= patch.hunks.len() {
        Ok((acc, preceding, applied))
    } else {
        let hunk = patch.hunks[h];
        let isolated = spec_shift_added(hunk, -preceding);
        let to_apply = spec_shift_both(isolated, applied);
        let off = spec_changed_offset(hunk);
        if !isolated.wf() || !to_apply.wf() || !in_isize(preceding + off) {
            Err(AbsorbError::CoordinateOutOfRange)
        } else {
            match spec_find_dest(stack, 0, patch.new_path, isolated, whole_file) {
                None => spec_plan_patch(
                    stack,
                    patch,
                    pidx,
                    h + 1,
                    preceding + off,
                    applied,
                    whole_file,
                    PlanView { any_hunk_without_target: true, ..acc },
                ),
                Some((dest, _)) => {
                    if !in_isize(applied + off) {
                        Err(AbsorbError::CoordinateOutOfRange)
                    } else {
                        spec_plan_patch(
                            stack,
                            patch,
                            pidx,
                            h + 1,
                            preceding + off,
                            applied + off,
                            whole_file,
                            PlanView {
                                hunks: acc.hunks.push(
                                    PlannedHunkView { hunk: to_apply, dest, patch: pidx },
                                ),
                                ..acc
                            },
                        )
                    }
                },
            }
        }
    }
}

/// Plans a whole index diff from patch `p` on: a patch that is not an
/// in-place modification is skipped and only noted; the hunks of a modified
/// patch are planned with both counters starting at zero.
pub open spec fn spec_plan(
    stack: Seq<Seq<PatchView>>,
    index: Seq<PatchView>,
    p: int,
    whole_file: bool,
    acc: PlanView,
) -> Result<PlanView, AbsorbError>
    decreases index.len() - p,
    when 0 <= p <= index.len()
{
    if p >= index.len() {
        Ok(acc)
    } else if index[p].status != DiffStatus::Modified {
        spec_plan(stack, index, p + 1, whole_file, PlanView { any_non_modified: true, ..acc })
    } else {
        match spec_plan_patch(
            stack,
            index[p],
            p,
            0,
            0,
            0,
            whole_file,
            PlanView { any_modified: true, ..acc },
        ) {
            Err(e) => Err(e),
            Ok((acc2, _, _)) => spec_plan(stack, index, p + 1, whole_file, acc2),
        }
    }
}

/// The line-count change of a whole run of hunks.
pub open spec fn spec_sum_offsets(hunks: Seq<HunkView>) -> int
    decreases hunks.len(),
{
    if hunks.len() == 0 {
        0
    } else {
        spec_changed_offset(hunks.first()) + spec_sum_offsets(hunks.drop_first())
    }
}

/// Patch linearity: when planning a patch succeeds, the final value of the
/// `preceding` counter is its starting value plus the summed line-count
/// change of every hunk it walked, whether or not the hunk found a
/// destination.
pub proof fn lemma_patch_linearity(
    stack: Seq<Seq<PatchView>>,
    patch: PatchView,
    pidx: int,
    h: int,
    preceding: int,
    applied: int,
    whole_file: bool,
    acc: PlanView,
    plan: PlanView,
    final_preceding: int,
    final_applied: int,
)
    requires
        0 <= h <= patch.hunks.len(),
        spec_plan_patch(stack, patch, pidx, h, preceding, applied, whole_file, acc) == Ok::<
            (PlanView, int, int),
            AbsorbError,
        >((plan, final_preceding, final_applied)),
    ensures
        final_preceding == preceding + spec_sum_offsets(patch.hunks.skip(h)),
    decreases patch.hunks.len() - h,
{
    if h >= patch.hunks.len() {
        assert(patch.hunks.skip(h) =~= Seq::<HunkView>::empty());
    } else {
        assert(patch.hunks.skip(h).first() == patch.hunks[h]);
        assert(patch.hunks.skip(h).drop_first() =~= patch.hunks.skip(h + 1));
        let hunk = patch.hunks[h];
        let isolated = spec_shift_added(hunk, -preceding);
        let to_apply = spec_shift_both(isolated, applied);
        let off = spec_changed_offset(hunk);
        match spec_find_dest(stack, 0, patch.new_path, isolated, whole_file) {
            None => {
                lemma_patch_linearity(
                    stack,
                    patch,
                    pidx,
                    h + 1,
                    preceding + off,
                    applied,
                    whole_file,
                    PlanView { any_hunk_without_target: true, ..acc },
                    plan,
                    final_preceding,
                    final_applied,
                );
            },
            Some((dest, _)) => {
                lemma_patch_linearity(
                    stack,
                    patch,
                    pidx,
                    h + 1,
                    preceding + off,
                    applied + off,
                    whole_file,
                    PlanView {
                        hunks: acc.hunks.push(
                            PlannedHunkView { hunk: to_apply, dest, patch: pidx },
                        ),
                        ..acc
                    },
                    plan,
                    final_preceding,
                    final_applied,
                );
            },
        }
    }
}


/// Whether a block that starts at `start`, holds `len` lines and moves by
/// `by` lines still starts inside the file and ends inside the
/// representable line range.
fn shifted_start(start: usize, len: usize, by: isize) -> (r: Option<usize>)
    ensures
        r is Some <==> (0 <= start + by) && (start + by == 0 ==> len == 0) && (start + by + len
            <= usize::MAX),
        r is Some ==> r->0 == start + by,
{
    match start.checked_add_signed(by) {
        None => None,
        Some(ns) => {
            if ns == 0 && len > 0 {
                None
            } else if usize::MAX - ns < len {
                None
            } else {
                Some(ns)
            }
        },
    }
}

/// The plan under construction, as a view.
pub open spec fn spec_acc(
    hunks: Seq<PlannedHunkView>,
    any_modified: bool,
    any_non_modified: bool,
    any_hunk_without_target: bool,
) -> PlanView {
    PlanView { hunks, any_modified, any_non_modified, any_hunk_without_target }
}

/// Walks the stack newest-first and returns the index of the destination
/// commit of one hunk, or nothing when the hunk commutes with every commit
/// in the stack.
#[verifier::rlimit(100)]
fn find_dest(stack: &Vec<Diff>, path0: &Vec<u8>, hunk0: Hunk, whole_file: bool) -> (r: Option<
    usize,
>)
    requires
        hunk0@.wf(),
        forall|k: int| 0 <= k < stack@.len() ==> (#[trigger] stack@[k]).wf(),
    ensures
        match r {
            Some(dk) => dk < stack@.len() && (spec_find_dest(
                stack.deep_view(),
                0,
                path0@,
                hunk0@,
                whole_file,
            ) matches Some(pr) && pr.0 == dk as int),
            None => spec_find_dest(stack.deep_view(), 0, path0@, hunk0@, whole_file) is None,
        },
{
    let ghost sv = stack.deep_view();
    let ns = stack.len();
    let mut commuted_path: Vec<u8> = copy_bytes(path0);
    let mut commuted: Hunk = hunk0;
    let mut k: usize = 0;
    while k < ns
        invariant
            sv == stack.deep_view(),
            ns == stack@.len(),
            ns == sv.len(),
            forall|kk: int| 0 <= kk < stack@.len() ==> (#[trigger] stack@[kk]).wf(),
            0 <= k <= ns,
            commuted@.wf(),
            spec_find_dest(sv, 0, path0@, hunk0@, whole_file) == spec_find_dest(
                sv,
                k as int,
                commuted_path@,
                commuted@,
                whole_file,
            ),
        decreases ns - k,
    {
        let d = &stack[k];
        proof {
            assert(d@ == sv[k as int]);
            assert(stack@[k as int].wf());
        }
        match d.by_new(commuted_path.as_slice()) {
            None => {
                k = k + 1;
            },
            Some(next_patch) => {
                proof {
                    lemma_by_new_wf(sv[k as int], commuted_path@);
                    assert(next_patch@.wf());
                }
                if whole_file {
                    return Some(k);
                }
                if matches!(next_patch.status, DiffStatus::Added) {
                    return Some(k);
                }
                commuted_path = copy_bytes(&next_patch.old_path);
                proof {
                    assert forall|i: int|
                        0 <= i < next_patch.hunks@.len() implies (#[trigger] next_patch.hunks@[
                        i
                    ])@.wf() by {
                        assert(next_patch.hunks@[i]@ == next_patch@.hunks[i]);
                    }
                }
                match commute_diff_before(&commuted, &next_patch.hunks) {
                    Some(h2) => {
                        commuted = h2;
                        k = k + 1;
                    },
                    None => {
                        return Some(k);
                    },
                }
            },
        }
    }
    None
}

/// Assigns each staged hunk of the index diff to the destination commit it
/// belongs to, walking the stack newest-first with the commutation rule,
/// and keeping the two line-offset counters consistent across multi-hunk
/// patches. Fails only on a structural defect: a coordinate that leaves the
/// representable range.
#[verifier::rlimit(100)]
pub fn plan_absorption(index: &Diff, stack: &Vec<Diff>, whole_file: bool) -> (r: Result<
    AbsorbPlan,
    AbsorbError,
>)
    requires
        index.wf(),
        forall|k: int| 0 <= k < stack@.len() ==> (#[trigger] stack@[k]).wf(),
    ensures
        match r {
            Ok(plan) => {
                &&& spec_plan(stack.deep_view(), index@, 0, whole_file, spec_empty_plan()) == Ok::<
                    PlanView,
                    AbsorbError,
                >(plan@)
                &&& forall|i: int|
                    0 <= i < plan.hunks@.len() ==> {
                        let ph = #[trigger] plan.hunks.deep_view()[i];
                        &&& 0 <= ph.dest < stack@.len()
                        &&& 0 <= ph.patch < index@.len()
                        &&& ph.hunk.wf()
                    }
            },
            Err(e) => spec_plan(stack.deep_view(), index@, 0, whole_file, spec_empty_plan())
                == Err::<PlanView, AbsorbError>(e),
        },
{
    let ghost sv = stack.deep_view();
    let ghost iv = index@;
    let patches = index.patches();
    let np = patches.len();
    let ns = stack.len();
    let mut acc_hunks: Vec<PlannedHunk> = Vec::new();
    let mut any_modified = false;
    let mut any_non_modified = false;
    let mut any_without = false;
    let mut p: usize = 0;
    proof {
        assert(acc_hunks.deep_view() =~= Seq::<PlannedHunkView>::empty());
    }
    while p < np
        invariant
            sv == stack.deep_view(),
            iv == index@,
            patches.deep_view() == iv,
            np == iv.len(),
            ns == stack@.len(),
            ns == sv.len(),
            index.wf(),
            forall|k: int| 0 <= k < stack@.len() ==> (#[trigger] stack@[k]).wf(),
            0 <= p <= np,
            spec_plan(sv, iv, 0, whole_file, spec_empty_plan()) == spec_plan(
                sv,
                iv,
                p as int,
                whole_file,
                spec_acc(acc_hunks.deep_view(), any_modified, any_non_modified, any_without),
            ),
            forall|i: int|
                0 <= i < acc_hunks@.len() ==> {
                    let ph = #[trigger] acc_hunks.deep_view()[i];
                    &&& 0 <= ph.dest < sv.len()
                    &&& 0 <= ph.patch < iv.len()
                    &&& ph.hunk.wf()
                },
        decreases np - p,
    {
        let patch = &patches[p];
        proof {
            assert(patch@ == iv[p as int]);
        }
        if !matches!(patch.status, DiffStatus::Modified) {
            any_non_modified = true;
            p = p + 1;
            continue ;
        }
        any_modified = true;

        let mut preceding: isize = 0;
        let mut applied: isize = 0;
        let nh = patch.hunks.len();
        let mut h: usize = 0;
        while h < nh
            invariant
                sv == stack.deep_view(),
                iv == index@,
                np == iv.len(),
                ns == stack@.len(),
                ns == sv.len(),
                index.wf(),
                forall|k: int| 0 <= k < stack@.len() ==> (#[trigger] stack@[k]).wf(),
                0 <= p < np,
                iv[p as int] == patch@,
                iv[p as int].status == DiffStatus::Modified,
                nh == patch@.hunks.len(),
                0 <= h <= nh,
                in_isize(preceding as int),
                in_isize(applied as int),
                spec_plan(sv, iv, 0, whole_file, spec_empty_plan()) == match spec_plan_patch(
                    sv,
                    iv[p as int],
                    p as int,
                    h as int,
                    preceding as int,
                    applied as int,
                    whole_file,
                    spec_acc(acc_hunks.deep_view(), any_modified, any_non_modified, any_without),
                ) {
                    Err(e) => Err::<PlanView, AbsorbError>(e),
                    Ok((acc2, fp, fa)) => spec_plan(sv, iv, p + 1, whole_file, acc2),
                },
                forall|i: int|
                    0 <= i < acc_hunks@.len() ==> {
                        let ph = #[trigger] acc_hunks.deep_view()[i];
                        &&& 0 <= ph.dest < sv.len()
                        &&& 0 <= ph.patch < iv.len()
                        &&& ph.hunk.wf()
                    },
            decreases nh - h,
        {
            let hunk = &patch.hunks[h];
            proof {
                assert(hunk@ == iv[p as int].hunks[h as int]);
                assert(iv[p as int].wf());
                assert(hunk@.wf());
            }
            let ghost hv = hunk@;
            let ghost spec_iso = spec_shift_added(hv, -(preceding as int));
            let ghost spec_ta = spec_shift_both(spec_iso, applied as int);
            let neg_preceding: isize = -preceding;
            let iso_added = shifted_start(
                hunk.added.start,
                hunk.added.lines.len(),
                neg_preceding,
            );
            let ta_added = match iso_added {
                Some(s) => shifted_start(s, hunk.added.lines.len(), applied),
                None => None,
            };
            let ta_removed = shifted_start(
                hunk.removed.start,
                hunk.removed.lines.len(),
                applied,
            );
            let off = hunk.changed_offset();
            let next_preceding = match preceding.checked_add(off) {
                Some(v) if v != isize::MIN => Some(v),
                _ => None,
            };
            proof {
                assert(spec_iso.wf() <==> iso_added is Some);
                assert(spec_iso.wf() && spec_ta.wf() <==> (iso_added is Some && ta_added is Some
                    && ta_removed is Some));
                assert(next_preceding is Some <==> in_isize(
                    preceding + spec_changed_offset(hv),
                ));
            }
            if iso_added.is_none() || ta_added.is_none() || ta_removed.is_none()
                || next_preceding.is_none() {
                return Err(AbsorbError::CoordinateOutOfRange);
            }

            let isolated = hunk.duplicate().shift_added_block(neg_preceding);
            let to_apply = isolated.duplicate().shift_both_blocks(applied);
            proof {
                assert(isolated@ == spec_iso);
                assert(to_apply@ == spec_ta);
                assert(spec_iso.wf());
                assert(spec_ta.wf());
            }

            // find the newest commit that the hunk cannot commute with
            let dest: Option<usize> = find_dest(stack, &patch.new_path, isolated, whole_file);
            proof {
                assert(spec_find_dest(sv, 0, iv[p as int].new_path, spec_iso, whole_file) matches
                    Some(pr) ==> dest matches Some(dk) && pr.0 == dk as int);
            }

            match dest {
                None => {
                    any_without = true;
                    preceding = next_preceding.unwrap();
                },
                Some(dk) => {
                    let next_applied = match applied.checked_add(off) {
                        Some(v) if v != isize::MIN => v,
                        _ => {
                            proof {
                                assert(!in_isize(applied + spec_changed_offset(hv)));
                            }
                            return Err(AbsorbError::CoordinateOutOfRange);
                        },
                    };
                    let ghost pre_acc = acc_hunks.deep_view();
                    acc_hunks.push(PlannedHunk { hunk: to_apply, dest: dk, patch: p });
                    proof {
                        assert(acc_hunks.deep_view() =~= pre_acc.push(
                            PlannedHunkView { hunk: spec_ta, dest: dk as int, patch: p as int },
                        ));
                    }
                    preceding = next_preceding.unwrap();
                    applied = next_applied;
                },
            }
            h = h + 1;
        }
        p = p + 1;
    }
    let plan = AbsorbPlan {
        hunks: acc_hunks,
        any_modified,
        any_non_modified,
        any_hunk_without_target: any_without,
    };
    Ok(plan)
}


/// What the fixup emission needs to know of one stack commit: its full hash
/// in hexadecimal and its one-line summary, where it has one.
#[derive(Debug)]
pub struct CommitMeta {
    pub sha: Vec<u8>,
    pub summary: Option<Vec<u8>>,
}

/// Mathematical model of a commit's addressing data.
#[verifier::ext_equal]
pub struct CommitMetaView {
    pub sha: Seq<u8>,
    pub summary: Option<Seq<u8>>,
}

impl View for CommitMeta {
    type V = CommitMetaView;

    open spec fn view(&self) -> CommitMetaView {
        CommitMetaView { sha: self.sha@, summary: self.summary.deep_view() }
    }
}

impl DeepView for CommitMeta {
    type V = CommitMetaView;

    open spec fn deep_view(&self) -> CommitMetaView {
        self@
    }
}

/// One step of the fixup emission: write the recovery reference, apply a
/// hunk to the tree under construction, seal the applied hunks into a fixup
/// commit, or only report what a commit would have been.
#[derive(Debug)]
pub enum Action {
    WritePreAbsorbRef,
    ApplyHunk { hunk: Hunk, path: Vec<u8> },
    CommitFixup { message: Vec<u8> },
    WouldHaveCommitted { locator: Vec<u8> },
}

/// Mathematical model of an emission step.
#[verifier::ext_equal]
pub enum ActionView {
    WritePreAbsorbRef,
    ApplyHunk { hunk: HunkView, path: Seq<u8> },
    CommitFixup { message: Seq<u8> },
    WouldHaveCommitted { locator: Seq<u8> },
}

impl View for Action {
    type V = ActionView;

    open spec fn view(&self) -> ActionView {
        match self {
            Action::WritePreAbsorbRef => ActionView::WritePreAbsorbRef,
            Action::ApplyHunk { hunk, path } => ActionView::ApplyHunk {
                hunk: hunk@,
                path: path@,
            },
            Action::CommitFixup { message } => ActionView::CommitFixup { message: message@ },
            Action::WouldHaveCommitted { locator } => ActionView::WouldHaveCommitted {
                locator: locator@,
            },
        }
    }
}

impl DeepView for Action {
    type V = ActionView;

    open spec fn deep_view(&self) -> ActionView {
        self@
    }
}

/// The summaries of the stack commits, an empty byte string standing in
/// where a commit has none.
pub open spec fn spec_summaries(metas: Seq<CommitMetaView>) -> Seq<Seq<u8>> {
    Seq::new(
        metas.len(),
        |i: int|
            match metas[i].summary {
                Some(x) => x,
                None => Seq::empty(),
            },
    )
}

/// How a destination commit is addressed in a fixup subject: by its
/// one-line summary when it has one that no other stack commit shares,
/// otherwise by its full hash; always by the hash when so configured.
pub open spec fn spec_locator(metas: Seq<CommitMetaView>, dest: int, always_sha: bool) -> Seq<
    u8,
> {
    let m = metas[dest];
    if always_sha {
        m.sha
    } else {
        match m.summary {
            Some(sum) => if spec_count(spec_summaries(metas), sum) == 1 {
                sum
            } else {
                m.sha
            },
            None => m.sha,
        }
    }
}

/// The marker that opens a fixup subject line.
pub open spec fn spec_fixup_prefix(use_squash: bool) -> Seq<u8> {
    if use_squash {
        seq![115u8, 113u8, 117u8, 97u8, 115u8, 104u8, 33u8, 32u8]
    } else {
        seq![102u8, 105u8, 120u8, 117u8, 112u8, 33u8, 32u8]
    }
}

/// A whole fixup commit message: the marker, the destination locator and a
/// line terminator, with an optional extra body after a blank line.
pub open spec fn spec_fixup_message(
    locator: Seq<u8>,
    use_squash: bool,
    body: Option<Seq<u8>>,
) -> Seq<u8> {
    let subject = spec_fixup_prefix(use_squash) + locator + seq![10u8];
    match body {
        None => subject,
        Some(b) => subject + seq![10u8] + b,
    }
}

/// Whether the hunks applied so far are sealed into a commit after hunk
/// `i`: at the end of the plan always, and otherwise whenever fixups are
/// not being aggregated or the next hunk goes to a different destination.
pub open spec fn spec_commit_boundary(
    planned: Seq<PlannedHunkView>,
    i: int,
    one_fixup: bool,
) -> bool {
    i == planned.len() - 1 || !one_fixup || planned[i + 1].dest != planned[i].dest
}

/// The emission steps for the planned hunks from `i` on: each hunk is
/// applied, and at each commit boundary a fixup commit follows, or in a dry
/// run only the notice of what it would have been.
pub open spec fn spec_step_actions(
    planned: Seq<PlannedHunkView>,
    index: Seq<PatchView>,
    metas: Seq<CommitMetaView>,
    dry_run: bool,
    one_fixup: bool,
    always_sha: bool,
    use_squash: bool,
    body: Option<Seq<u8>>,
    i: int,
) -> Seq<ActionView>
    decreases planned.len() - i,
    when 0 <= i <= planned.len()
{
    if i >= planned.len() {
        Seq::empty()
    } else {
        let ph = planned[i];
        let apply = ActionView::ApplyHunk { hunk: ph.hunk, path: index[ph.patch].old_path };
        let rest = spec_step_actions(
            planned,
            index,
            metas,
            dry_run,
            one_fixup,
            always_sha,
            use_squash,
            body,
            i + 1,
        );
        if spec_commit_boundary(planned, i, one_fixup) {
            let loc = spec_locator(metas, ph.dest, always_sha);
            let sealed = if dry_run {
                ActionView::WouldHaveCommitted { locator: loc }
            } else {
                ActionView::CommitFixup { message: spec_fixup_message(loc, use_squash, body) }
            };
            seq![apply, sealed] + rest
        } else {
            seq![apply] + rest
        }
    }
}

/// The whole emission: outside a dry run, the recovery reference is written
/// before anything else; then the per-hunk steps.
pub open spec fn spec_script(
    planned: Seq<PlannedHunkView>,
    index: Seq<PatchView>,
    metas: Seq<CommitMetaView>,
    dry_run: bool,
    one_fixup: bool,
    always_sha: bool,
    use_squash: bool,
    body: Option<Seq<u8>>,
) -> Seq<ActionView> {
    let steps = spec_step_actions(
        planned,
        index,
        metas,
        dry_run,
        one_fixup,
        always_sha,
        use_squash,
        body,
        0,
    );
    if dry_run {
        steps
    } else {
        seq![ActionView::WritePreAbsorbRef] + steps
    }
}

/// No per-hunk step of a dry run writes anything.
proof fn lemma_dry_run_steps_write_nothing(
    planned: Seq<PlannedHunkView>,
    index: Seq<PatchView>,
    metas: Seq<CommitMetaView>,
    one_fixup: bool,
    always_sha: bool,
    use_squash: bool,
    body: Option<Seq<u8>>,
    i: int,
)
    requires
        0 <= i <= planned.len(),
    ensures
        ({
            let acts = spec_step_actions(
                planned,
                index,
                metas,
                true,
                one_fixup,
                always_sha,
                use_squash,
                body,
                i,
            );
            forall|j: int|
                0 <= j < acts.len() ==> !((#[trigger] acts[j]) is WritePreAbsorbRef) && !(
                acts[j] is CommitFixup)
        }),
    decreases planned.len() - i,
{
    if i < planned.len() {
        lemma_dry_run_steps_write_nothing(
            planned,
            index,
            metas,
            one_fixup,
            always_sha,
            use_squash,
            body,
            i + 1,
        );
    }
}

/// Idempotence of a dry run: the emission of a dry run holds no write at
/// all. It never writes the recovery reference and never creates a commit;
/// it only applies hunks to trees held in memory and reports what each
/// commit would have been, so head, index and references stay as they were.
pub proof fn lemma_dry_run_writes_nothing(
    planned: Seq<PlannedHunkView>,
    index: Seq<PatchView>,
    metas: Seq<CommitMetaView>,
    one_fixup: bool,
    always_sha: bool,
    use_squash: bool,
    body: Option<Seq<u8>>,
)
    ensures
        ({
            let acts = spec_script(
                planned,
                index,
                metas,
                true,
                one_fixup,
                always_sha,
                use_squash,
                body,
            );
            forall|j: int|
                0 <= j < acts.len() ==> !((#[trigger] acts[j]) is WritePreAbsorbRef) && !(
                acts[j] is CommitFixup)
        }),
{
    lemma_dry_run_steps_write_nothing(
        planned,
        index,
        metas,
        one_fixup,
        always_sha,
        use_squash,
        body,
        0,
    );
}

/// How often a summary occurs among the stack commits' summaries.
fn count_summary(metas: &Vec<CommitMeta>, target: &[u8]) -> (r: u64)
    ensures
        r == spec_count(spec_summaries(metas.deep_view()), target@),
{
    let ghost s = spec_summaries(metas.deep_view());
    let n = metas.len();
    let mut count: u64 = 0;
    let mut k: usize = 0;
    proof {
        assert(s.take(0) =~= Seq::<Seq<u8>>::empty());
    }
    while k < n
        invariant
            s == spec_summaries(metas.deep_view()),
            n == metas@.len(),
            n == s.len(),
            0 <= k <= n,
            count == spec_count(s.take(k as int), target@),
        decreases n - k,
    {
        proof {
            lemma_count_le_len(s.take(k as int), target@);
            assert(s.take(k + 1) =~= s.take(k as int).push(s[k as int]));
            lemma_count_snoc(s.take(k as int), s[k as int], target@);
        }
        let matched = match &metas[k].summary {
            Some(sum) => bytes_eq(sum.as_slice(), target),
            None => target.len() == 0,
        };
        proof {
            match metas@[k as int].summary {
                Some(sum) => {
                    assert(s[k as int] =~= sum@);
                },
                None => {
                    assert(s[k as int] =~= Seq::<u8>::empty());
                    if target@.len() == 0 {
                        assert(target@ =~= Seq::<u8>::empty());
                    }
                    assert(matched == (s[k as int] == target@));
                },
            }
        }
        if matched {
            count = count + 1;
        }
        k = k + 1;
    }
    proof {
        assert(s.take(n as int) =~= s);
    }
    count
}

/// The locator for one destination commit.
fn locator(metas: &Vec<CommitMeta>, dest: usize, always_sha: bool) -> (r: Vec<u8>)
    requires
        dest < metas@.len(),
    ensures
        r@ == spec_locator(metas.deep_view(), dest as int, always_sha),
{
    let m = &metas[dest];
    proof {
        assert(m@ == metas.deep_view()[dest as int]);
    }
    if always_sha {
        return copy_bytes(&m.sha);
    }
    match &m.summary {
        Some(sum) => {
            proof {
                assert(sum.deep_view() =~= sum@);
            }
            if count_summary(metas, sum.as_slice()) == 1 {
                copy_bytes(sum)
            } else {
                copy_bytes(&m.sha)
            }
        },
        None => copy_bytes(&m.sha),
    }
}

/// One whole fixup commit message for a locator.
fn fixup_message(loc: &Vec<u8>, use_squash: bool, body: &Option<Vec<u8>>) -> (r: Vec<u8>)
    ensures
        r@ == spec_fixup_message(loc@, use_squash, body.deep_view()),
{
    let mut msg: Vec<u8> = Vec::new();
    if use_squash {
        msg.push(115);
        msg.push(113);
        msg.push(117);
        msg.push(97);
        msg.push(115);
        msg.push(104);
    } else {
        msg.push(102);
        msg.push(105);
        msg.push(120);
        msg.push(117);
        msg.push(112);
    }
    msg.push(33);
    msg.push(32);
    proof {
        assert(msg@ =~= spec_fixup_prefix(use_squash));
    }
    push_bytes(&mut msg, loc.as_slice());
    msg.push(10);
    proof {
        assert(msg@ =~= spec_fixup_prefix(use_squash) + loc@ + seq![10u8]);
    }
    match body {
        None => msg,
        Some(b) => {
            msg.push(10);
            push_bytes(&mut msg, b.as_slice());
            proof {
                assert(msg@ =~= spec_fixup_message(loc@, use_squash, body.deep_view()));
            }
            msg
        },
    }
}

/// Turns the planned hunks into the sequence of emission steps: outside a
/// dry run the recovery reference is written first; every hunk is applied
/// in order; and at each commit boundary a fixup commit seals what was
/// applied, addressed to its destination, or a dry run reports the
/// destination instead.
pub fn build_script(
    planned: &Vec<PlannedHunk>,
    index: &Diff,
    metas: &Vec<CommitMeta>,
    dry_run: bool,
    one_fixup_per_commit: bool,
    target_always_sha: bool,
    use_squash: bool,
    body: &Option<Vec<u8>>,
) -> (r: Vec<Action>)
    requires
        forall|i: int|
            0 <= i < planned@.len() ==> {
                let ph = #[trigger] planned.deep_view()[i];
                0 <= ph.dest < metas@.len() && 0 <= ph.patch < index@.len()
            },
    ensures
        r.deep_view() == spec_script(
            planned.deep_view(),
            index@,
            metas.deep_view(),
            dry_run,
            one_fixup_per_commit,
            target_always_sha,
            use_squash,
            body.deep_view(),
        ),
{
    let ghost pv = planned.deep_view();
    let ghost iv = index@;
    let ghost mv = metas.deep_view();
    let ghost bv = body.deep_view();
    let mut acts: Vec<Action> = Vec::new();
    if !dry_run {
        acts.push(Action::WritePreAbsorbRef);
    }
    let patches = index.patches();
    let n = planned.len();
    let mut i: usize = 0;
    proof {
        assert(acts.deep_view() + spec_step_actions(
            pv,
            iv,
            mv,
            dry_run,
            one_fixup_per_commit,
            target_always_sha,
            use_squash,
            bv,
            0,
        ) =~= spec_script(
            pv,
            iv,
            mv,
            dry_run,
            one_fixup_per_commit,
            target_always_sha,
            use_squash,
            bv,
        ));
    }
    while i < n
        invariant
            pv == planned.deep_view(),
            iv == index@,
            mv == metas.deep_view(),
            bv == body.deep_view(),
            patches.deep_view() == iv,
            n == pv.len(),
            0 <= i <= n,
            forall|j: int|
                0 <= j < planned@.len() ==> {
                    let ph = #[trigger] planned.deep_view()[j];
                    0 <= ph.dest < metas@.len() && 0 <= ph.patch < index@.len()
                },
            acts.deep_view() + spec_step_actions(
                pv,
                iv,
                mv,
                dry_run,
                one_fixup_per_commit,
                target_always_sha,
                use_squash,
                bv,
                i as int,
            ) == spec_script(
                pv,
                iv,
                mv,
                dry_run,
                one_fixup_per_commit,
                target_always_sha,
                use_squash,
                bv,
            ),
        decreases n - i,
    {
        let ph = &planned[i];
        let ghost entry_acts = acts.deep_view();
        proof {
            assert(ph@ == pv[i as int]);
            assert(patches@[ph.patch as int]@ == iv[ph@.patch]);
        }
        let path = copy_bytes(&patches[ph.patch].old_path);
        let hunk = ph.hunk.duplicate();
        let ghost pre = acts.deep_view();
        acts.push(Action::ApplyHunk { hunk, path });
        proof {
            assert(acts.deep_view() =~= pre.push(
                ActionView::ApplyHunk { hunk: pv[i as int].hunk, path: iv[pv[i as int].patch].old_path },
            ));
        }
        let at_boundary = i == n - 1 || !one_fixup_per_commit || planned[i + 1].dest != ph.dest;
        proof {
            if i + 1 < n {
                assert(planned@[i + 1]@ == pv[i + 1]);
            }
            assert(spec_commit_boundary(pv, i as int, one_fixup_per_commit) == at_boundary);
        }
        if at_boundary {
            let loc = locator(metas, ph.dest, target_always_sha);
            let ghost pre2 = acts.deep_view();
            if dry_run {
                acts.push(Action::WouldHaveCommitted { locator: loc });
                proof {
                    assert(acts.deep_view() =~= pre2.push(
                        ActionView::WouldHaveCommitted {
                            locator: spec_locator(mv, pv[i as int].dest, target_always_sha),
                        },
                    ));
                }
            } else {
                let message = fixup_message(&loc, use_squash, body);
                acts.push(Action::CommitFixup { message });
                proof {
                    assert(acts.deep_view() =~= pre2.push(
                        ActionView::CommitFixup {
                            message: spec_fixup_message(
                                spec_locator(mv, pv[i as int].dest, target_always_sha),
                                use_squash,
                                bv,
                            ),
                        },
                    ));
                }
            }
        }
        proof {
            assert(acts.deep_view() + spec_step_actions(
                pv,
                iv,
                mv,
                dry_run,
                one_fixup_per_commit,
                target_always_sha,
                use_squash,
                bv,
                i + 1,
            ) =~= entry_acts + spec_step_actions(
                pv,
                iv,
                mv,
                dry_run,
                one_fixup_per_commit,
                target_always_sha,
                use_squash,
                bv,
                i as int,
            ));
        }
        i = i + 1;
    }
    proof {
        assert(spec_step_actions(
            pv,
            iv,
            mv,
            dry_run,
            one_fixup_per_commit,
            target_always_sha,
            use_squash,
            bv,
            n as int,
        ) =~= Seq::<ActionView>::empty());
        assert(acts.deep_view() =~= acts.deep_view() + Seq::<ActionView>::empty());
    }
    acts
}

} // verus!

//! The stack builder's decisions: which prefix of the candidate ancestor
//! commits may receive fixups, why the stack ended, and how often each
//! commit summary occurs.

use vstd::prelude::*;

use crate::errors::AbsorbError;
use crate::owned::bytes_eq;
use crate::owned::copy_bytes;

verus! {

/// Why stack growth stopped.
#[derive(Clone, Copy, PartialEq, Eq, Structural, Debug)]
pub enum StackEndReason {
    ReachedRoot,
    ReachedMergeCommit,
    ReachedAnotherAuthor,
    ReachedLimit,
    CommitsHiddenByBase,
    CommitsHiddenByBranches,
}

/// How the revision walk itself ran out of candidates: at the root of
/// history, at commits hidden by the user-supplied base, or at commits
/// hidden because they belong to other branches.
#[derive(Clone, Copy, PartialEq, Eq, Structural, Debug)]
pub enum WalkExhaustion {
    ReachedRoot,
    HiddenByBase,
    HiddenByBranches,
}

/// What the stack builder reads of one candidate commit: how many parents
/// it has and whether its author matches the repository's signature.
#[derive(Clone, Copy, PartialEq, Eq, Structural, Debug)]
pub struct CandidateCommit {
    pub parent_count: usize,
    pub author_matches: bool,
}

/// The reason reported when the walk ran out of candidates.
pub open spec fn spec_exhaustion_reason(e: WalkExhaustion) -> StackEndReason {
    match e {
        WalkExhaustion::ReachedRoot => StackEndReason::ReachedRoot,
        WalkExhaustion::HiddenByBase => StackEndReason::CommitsHiddenByBase,
        WalkExhaustion::HiddenByBranches => StackEndReason::CommitsHiddenByBranches,
    }
}

/// Walks the candidates from the newest and decides where the stack ends:
/// at the first merge commit; at the first commit by another author unless
/// that stop is overridden; at the configured size limit unless the limit
/// is lifted or a base was supplied; otherwise where the walk itself ran
/// out. Returns how many candidates enter the stack and the reason growth
/// stopped.
pub open spec fn spec_working_stack(
    candidates: Seq<CandidateCommit>,
    exhaustion: WalkExhaustion,
    no_limit: bool,
    base_given: bool,
    force_author: bool,
    max_stack: int,
    k: int,
) -> (int, StackEndReason)
    decreases candidates.len() - k,
    when 0 <= k <= candidates.len()
{
    if k >= candidates.len() {
        (k, spec_exhaustion_reason(exhaustion))
    } else if candidates[k].parent_count > 1 {
        (k, StackEndReason::ReachedMergeCommit)
    } else if !force_author && !candidates[k].author_matches {
        (k, StackEndReason::ReachedAnotherAuthor)
    } else if !no_limit && !base_given && k == max_stack {
        (k, StackEndReason::ReachedLimit)
    } else {
        spec_working_stack(candidates, exhaustion, no_limit, base_given, force_author, max_stack, k + 1)
    }
}

/// The stack never outgrows the limit while the limit stands.
pub proof fn lemma_stack_within_limit(
    candidates: Seq<CandidateCommit>,
    exhaustion: WalkExhaustion,
    force_author: bool,
    max_stack: int,
    k: int,
)
    requires
        0 <= k <= candidates.len(),
        k <= max_stack,
    ensures
        spec_working_stack(candidates, exhaustion, false, false, force_author, max_stack, k).0
            <= max_stack,
    decreases candidates.len() - k,
{
    if k < candidates.len() && candidates[k].parent_count <= 1 && (force_author
        || candidates[k].author_matches) && k != max_stack {
        lemma_stack_within_limit(candidates, exhaustion, force_author, max_stack, k + 1);
    }
}

/// The prefix the stack takes never outgrows the candidate list.
pub proof fn lemma_stack_within_candidates(
    candidates: Seq<CandidateCommit>,
    exhaustion: WalkExhaustion,
    no_limit: bool,
    base_given: bool,
    force_author: bool,
    max_stack: int,
    k: int,
)
    requires
        0 <= k <= candidates.len(),
    ensures
        k <= spec_working_stack(
            candidates,
            exhaustion,
            no_limit,
            base_given,
            force_author,
            max_stack,
            k,
        ).0 <= candidates.len(),
    decreases candidates.len() - k,
{
    if k < candidates.len() && candidates[k].parent_count <= 1 && (force_author
        || candidates[k].author_matches) && !(!no_limit && !base_given && k == max_stack) {
        lemma_stack_within_candidates(
            candidates,
            exhaustion,
            no_limit,
            base_given,
            force_author,
            max_stack,
            k + 1,
        );
    }
}

/// Decides how much of the candidate list enters the working stack and why
/// it ends there. The head must be a branch reference unless the detached
/// override is given. The candidates come newest first, walked
/// first-parent-only; `exhaustion` says why the walk itself stopped after
/// them. The returned count is a prefix length of the candidate list, and
/// while no base is given and the limit stands, it never exceeds
/// `max_stack`.
pub fn working_stack(
    head_is_branch: bool,
    force_detach: bool,
    candidates: &Vec<CandidateCommit>,
    exhaustion: WalkExhaustion,
    no_limit: bool,
    base_given: bool,
    force_author: bool,
    max_stack: usize,
) -> (r: Result<(usize, StackEndReason), AbsorbError>)
    ensures
        match r {
            Ok(p) => {
                &&& head_is_branch || force_detach
                &&& (p.0 as int, p.1) == spec_working_stack(
                    candidates@,
                    exhaustion,
                    no_limit,
                    base_given,
                    force_author,
                    max_stack as int,
                    0,
                )
                &&& p.0 <= candidates@.len()
                &&& !no_limit && !base_given ==> p.0 <= max_stack
            },
            Err(e) => e == AbsorbError::DetachedHead && !head_is_branch && !force_detach,
        },
{
    if !head_is_branch && !force_detach {
        return Err(AbsorbError::DetachedHead);
    }
    let n = candidates.len();
    let mut k: usize = 0;
    let mut reason: StackEndReason = match exhaustion {
        WalkExhaustion::ReachedRoot => StackEndReason::ReachedRoot,
        WalkExhaustion::HiddenByBase => StackEndReason::CommitsHiddenByBase,
        WalkExhaustion::HiddenByBranches => StackEndReason::CommitsHiddenByBranches,
    };
    let mut stopped = false;
    while k < n && !stopped
        invariant
            n == candidates@.len(),
            0 <= k <= n,
            !stopped ==> spec_working_stack(
                candidates@,
                exhaustion,
                no_limit,
                base_given,
                force_author,
                max_stack as int,
                0,
            ) == spec_working_stack(
                candidates@,
                exhaustion,
                no_limit,
                base_given,
                force_author,
                max_stack as int,
                k as int,
            ),
            !stopped ==> reason == spec_exhaustion_reason(exhaustion),
            stopped ==> (k as int, reason) == spec_working_stack(
                candidates@,
                exhaustion,
                no_limit,
                base_given,
                force_author,
                max_stack as int,
                0,
            ),
        decreases n - k + (if stopped { 0int } else { 1int }),
    {
        let c = &candidates[k];
        if c.parent_count > 1 {
            reason = StackEndReason::ReachedMergeCommit;
            stopped = true;
        } else if !force_author && !c.author_matches {
            reason = StackEndReason::ReachedAnotherAuthor;
            stopped = true;
        } else if !no_limit && !base_given && k == max_stack {
            reason = StackEndReason::ReachedLimit;
            stopped = true;
        } else {
            k = k + 1;
        }
    }
    proof {
        if !stopped {
            assert((k as int, reason) == spec_working_stack(
                candidates@,
                exhaustion,
                no_limit,
                base_given,
                force_author,
                max_stack as int,
                k as int,
            ));
        }
        lemma_stack_within_candidates(
            candidates@,
            exhaustion,
            no_limit,
            base_given,
            force_author,
            max_stack as int,
            0,
        );
        if !no_limit && !base_given {
            lemma_stack_within_limit(candidates@, exhaustion, force_author, max_stack as int, 0);
        }
    }
    Ok((k, reason))
}

/// How many payloads of `s` equal `x`.
pub open spec fn spec_count(s: Seq<Seq<u8>>, x: Seq<u8>) -> nat
    decreases s.len(),
{
    if s.len() == 0 {
        0
    } else {
        (if s.first() == x {
            1nat
        } else {
            0nat
        }) + spec_count(s.drop_first(), x)
    }
}

/// Counting one more payload raises exactly the matching count.
pub proof fn lemma_count_snoc(s: Seq<Seq<u8>>, y: Seq<u8>, x: Seq<u8>)
    ensures
        spec_count(s.push(y), x) == spec_count(s, x) + (if y == x {
            1nat
        } else {
            0nat
        }),
    decreases s.len(),
{
    if s.len() == 0 {
        assert(s.push(y).drop_first() =~= s);
    } else {
        assert(s.push(y).drop_first() =~= s.drop_first().push(y));
        lemma_count_snoc(s.drop_first(), y, x);
    }
}

/// A count never outgrows the list.
pub proof fn lemma_count_le_len(s: Seq<Seq<u8>>, x: Seq<u8>)
    ensures
        spec_count(s, x) <= s.len(),
    decreases s.len(),
{
    if s.len() > 0 {
        lemma_count_le_len(s.drop_first(), x);
    }
}

/// The summary tally is sound and complete: keys and counts run in
/// parallel, every count is the key's occurrence count, no key repeats,
/// every summary stands behind some key, and every key was seen.
pub open spec fn spec_counts_ok(s: Seq<Seq<u8>>, keys: Seq<Seq<u8>>, counts: Seq<u64>) -> bool {
    &&& keys.len() == counts.len()
    &&& forall|k: int| 0 <= k < keys.len() ==> counts[k] == spec_count(s, #[trigger] keys[k])
    &&& forall|k1: int, k2: int| 0 <= k1 < k2 < keys.len() ==> keys[k1] != keys[k2]
    &&& forall|j: int| 0 <= j < s.len() ==> spec_count(keys, #[trigger] s[j]) >= 1
    &&& forall|k: int| 0 <= k < keys.len() ==> counts[k] >= 1
}

/// A payload that stands at some index has a positive count.
pub proof fn lemma_count_at_index(s: Seq<Seq<u8>>, k: int)
    requires
        0 <= k < s.len(),
    ensures
        spec_count(s, s[k]) >= 1,
    decreases k,
{
    if k > 0 {
        lemma_count_at_index(s.drop_first(), k - 1);
    }
}

/// Assembles the tally predicate from its parts.
proof fn lemma_counts_ok_intro(s: Seq<Seq<u8>>, keys: Seq<Seq<u8>>, counts: Seq<u64>)
    requires
        keys.len() == counts.len(),
        forall|k: int| 0 <= k < keys.len() ==> counts[k] == spec_count(s, #[trigger] keys[k]),
        forall|k1: int, k2: int| 0 <= k1 < k2 < keys.len() ==> keys[k1] != keys[k2],
        forall|j: int| 0 <= j < s.len() ==> spec_count(keys, #[trigger] s[j]) >= 1,
        forall|k: int| 0 <= k < keys.len() ==> counts[k] >= 1,
    ensures
        spec_counts_ok(s, keys, counts),
{
}

/// Counts how often each commit summary occurs in the stack: a list of the
/// distinct summaries, in first-seen order, and a parallel list of their
/// occurrence counts. Used to decide whether a commit's one-line summary is
/// a unique enough fixup target or the full hash must stand in for it.
#[verifier::rlimit(50)]
pub fn summary_counts(summaries: &Vec<Vec<u8>>) -> (r: (Vec<Vec<u8>>, Vec<u64>))
    ensures
        spec_counts_ok(summaries.deep_view(), r.0.deep_view(), r.1@),
{
    let ghost s = summaries.deep_view();
    let mut keys: Vec<Vec<u8>> = Vec::new();
    let mut counts: Vec<u64> = Vec::new();
    let n = summaries.len();
    let mut i: usize = 0;
    proof {
        assert(s.take(0) =~= Seq::<Seq<u8>>::empty());
    }
    while i < n
        invariant
            s == summaries.deep_view(),
            n == summaries@.len(),
            0 <= i <= n,
            keys.deep_view().len() == keys@.len(),
            keys@.len() == counts@.len(),
            forall|k: int| 0 <= k < keys@.len() ==> counts@[k] == spec_count(
                s.take(i as int),
                #[trigger] keys.deep_view()[k],
            ),
            forall|k1: int, k2: int|
                0 <= k1 < k2 < keys@.len() ==> keys.deep_view()[k1] != keys.deep_view()[k2],
            forall|j: int| 0 <= j < i ==> spec_count(keys.deep_view(), #[trigger] s[j]) >= 1,
            forall|k: int| 0 <= k < keys@.len() ==> counts@[k] >= 1,
        decreases n - i,
    {
        let item = &summaries[i];
        proof {
            assert(item.deep_view() =~= s[i as int]);
            assert(item@ =~= item.deep_view());
            assert(s.take(i + 1) =~= s.take(i as int).push(s[i as int]));
            lemma_count_le_len(s.take(i as int), s[i as int]);
        }
        let mut found = false;
        let mut k: usize = 0;
        let klen = keys.len();
        while k < klen && !found
            invariant
                s == summaries.deep_view(),
                n == summaries@.len(),
                i < n,
                klen == keys@.len(),
                0 <= k <= klen,
                item@ == s[i as int],
                !found ==> forall|j: int| 0 <= j < k ==> keys.deep_view()[j] != s[i as int],
                found ==> k < klen && keys.deep_view()[k as int] == s[i as int],
            decreases klen - k + (if found { 0int } else { 1int }),
        {
            if bytes_eq(keys[k].as_slice(), item.as_slice()) {
                proof {
                    assert(keys.deep_view()[k as int] =~= keys@[k as int]@);
                    assert(keys@[k as int]@ == item@);
                    assert(keys.deep_view()[k as int] == s[i as int]);
                }
                found = true;
            } else {
                proof {
                    assert(keys.deep_view()[k as int] =~= keys@[k as int]@);
                    assert(keys.deep_view()[k as int] != s[i as int]);
                }
                k = k + 1;
            }
        }
        if found {
            let c = counts[k];
            proof {
                lemma_count_le_len(s.take(i as int), keys.deep_view()[k as int]);
            }
            counts.set(k, c + 1);
            proof {
                assert forall|k2: int| 0 <= k2 < keys@.len() implies counts@[k2] == spec_count(
                    s.take(i + 1),
                    #[trigger] keys.deep_view()[k2],
                ) by {
                    lemma_count_snoc(s.take(i as int), s[i as int], keys.deep_view()[k2]);
                }
                assert forall|j: int| 0 <= j < i + 1 implies spec_count(
                    keys.deep_view(),
                    #[trigger] s[j],
                ) >= 1 by {
                    if j == i {
                        lemma_count_at_index(keys.deep_view(), k as int);
                    }
                }
            }
        } else {
            let fresh = copy_bytes(item);
            proof {
                assert(fresh.deep_view() =~= s[i as int]);
            }
            let ghost prekeys = keys.deep_view();
            keys.push(fresh);
            counts.push(1);
            proof {
                assert(keys.deep_view() =~= prekeys.push(s[i as int]));
                assert forall|j: int| 0 <= j < i implies s[j] != s[i as int] by {
                    if s[j] == s[i as int] {
                        assert(spec_count(prekeys, s[i as int]) >= 1);
                        lemma_count_none(prekeys, s[i as int]);
                    }
                }
                assert forall|j: int| 0 <= j < i + 1 implies spec_count(
                    keys.deep_view(),
                    #[trigger] s[j],
                ) >= 1 by {
                    lemma_count_snoc(prekeys, s[i as int], s[j]);
                    if j == i {
                        assert(spec_count(keys.deep_view(), s[j]) >= 1);
                    }
                }
                assert(forall|j: int|
                    0 <= j < s.take(i as int).len() ==> #[trigger] s.take(i as int)[j] != s[
                        i as int
                    ]);
                lemma_count_none(s.take(i as int), s[i as int]);
                assert forall|k2: int| 0 <= k2 < keys@.len() implies counts@[k2] == spec_count(
                    s.take(i + 1),
                    #[trigger] keys.deep_view()[k2],
                ) by {
                    lemma_count_snoc(s.take(i as int), s[i as int], keys.deep_view()[k2]);
                }
            }
        }
        i = i + 1;
    }
    proof {
        assert(s.take(n as int) =~= s);
        let kd = keys.deep_view();
        assert(kd.len() == counts@.len());
        assert(forall|k: int| 0 <= k < kd.len() ==> counts@[k] == spec_count(s, #[trigger] kd[k]));
        assert(forall|k1: int, k2: int| 0 <= k1 < k2 < kd.len() ==> kd[k1] != kd[k2]);
        assert(forall|j: int| 0 <= j < s.len() ==> spec_count(kd, #[trigger] s[j]) >= 1);
        assert(forall|k: int| 0 <= k < kd.len() ==> counts@[k] >= 1);
        lemma_counts_ok_intro(s, kd, counts@);
    }
    (keys, counts)
}

/// A payload that never occurs has count zero.
pub proof fn lemma_count_none(s: Seq<Seq<u8>>, x: Seq<u8>)
    requires
        forall|j: int| 0 <= j < s.len() ==> s[j] != x,
    ensures
        spec_count(s, x) == 0,
    decreases s.len(),
{
    if s.len() > 0 {
        lemma_count_none(s.drop_first(), x);
    }
}

} // verus!

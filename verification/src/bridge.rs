//! The integer part of the bridge between two fleets: the signs a fleet
//! broadcasts, how a local pattern is compared with foreign ones, the sign
//! each local agent is pulled toward, and the bounded correlation history.

use vstd::prelude::*;
use crate::sign_pattern::{SignPattern, all_signs, is_sign, matches_upto, dot_upto, flipped};
use crate::sign_pattern::{lemma_dot_from_matches, lemma_matches_self, lemma_matches_inverted, lemma_invert_involution, lemma_matches_counts_agreements};

verus! {

/// The most correlation measurements a bridge keeps.
pub const HISTORY_LIMIT: usize = 1000;

/// The sign broadcast for an agent: `+1` when its mean state is not negative.
pub open spec fn sign_of_mean(nonnegative: bool) -> i8 {
    if nonnegative {
        1
    } else {
        -1i8
    }
}

/// Extract the sign pattern of a fleet, given for each agent whether the mean
/// of its state is non-negative (a zero mean counts as non-negative).
/// This is the 1-bit compression: one sign per agent.
pub fn signs_of_means(nonnegative: &[bool]) -> (p: SignPattern)
    ensures
        p.wf(),
        p@ == Seq::new(nonnegative@.len(), |i: int| sign_of_mean(nonnegative@[i])),
        p@.len() == nonnegative@.len(),
        forall|i: int| 0 <= i < nonnegative@.len() ==> (#[trigger] p@[i] == 1 <==> nonnegative@[i]),
        forall|i: int| 0 <= i < nonnegative@.len() ==> (#[trigger] p@[i] == -1 <==> !nonnegative@[i]),
{
    let n = nonnegative.len();
    let mut signs: Vec<i8> = Vec::new();
    let mut i: usize = 0;
    while i < n
        invariant
            n == nonnegative@.len(),
            i <= n,
            signs@ == Seq::new(i as nat, |j: int| sign_of_mean(nonnegative@[j])),
        decreases n - i,
    {
        let s: i8 = if nonnegative[i] {
            1
        } else {
            -1
        };
        signs.push(s);
        i += 1;
    }
    SignPattern::new(signs)
}

/// How a local pattern compares with one foreign pattern over the agents both
/// have: `overlap` agents are compared and `matching` of them agree.
#[derive(Debug, Clone, Copy, PartialEq, Eq)]
pub struct CorrelationTerm {
    /// Number of agents that agree in sign.
    pub matching: usize,
    /// Number of agents compared: the shorter of the two pattern lengths.
    pub overlap: usize,
}

impl CorrelationTerm {
    /// The dot product of the compared signs: agreements minus disagreements.
    pub open spec fn dot(self) -> int {
        2 * self.matching - self.overlap
    }
}

/// The shorter of two lengths.
pub open spec fn min_len(a: nat, b: nat) -> nat {
    if a <= b {
        a
    } else {
        b
    }
}

/// Number of agents compared between `local` and `foreign`: the shorter length.
pub open spec fn overlap_of(local: Seq<i8>, foreign: Seq<i8>) -> nat {
    min_len(local.len(), foreign.len())
}

/// Number of compared agents whose signs agree.
pub open spec fn matching_of(local: Seq<i8>, foreign: Seq<i8>) -> nat {
    matches_upto(local, foreign, overlap_of(local, foreign))
}

/// The dot product of the compared signs.
pub open spec fn dot_of(local: Seq<i8>, foreign: Seq<i8>) -> int {
    dot_upto(local, foreign, overlap_of(local, foreign))
}

/// `t` is the comparison of `local` with `foreign` over their common prefix.
pub open spec fn is_term_of(t: CorrelationTerm, local: Seq<i8>, foreign: Seq<i8>) -> bool {
    &&& t.matching == matching_of(local, foreign)
    &&& t.overlap == overlap_of(local, foreign)
}

/// Compare `local` with one foreign pattern over the agents both have.
pub fn correlation_term(local: &SignPattern, foreign: &SignPattern) -> (t: CorrelationTerm)
    requires
        local.wf(),
        foreign.wf(),
    ensures
        is_term_of(t, local@, foreign@),
        t.matching <= t.overlap,
        t.dot() == dot_of(local@, foreign@),
        t.overlap == (if local@.len() <= foreign@.len() { local@.len() } else { foreign@.len() }),
        t.matching == Seq::new(t.overlap as nat, |i: int| i).filter(|i: int| local@[i] == foreign@[i]).len(),
        t.dot() == 2 * t.matching - t.overlap,
{
    let m = if local.len() <= foreign.len() {
        local.len()
    } else {
        foreign.len()
    };
    let c = local.matching_prefix(foreign, m);
    proof {
        lemma_dot_from_matches(local@, foreign@, m as nat);
        lemma_overlap_covers_common_agents(local@, foreign@);
    }
    CorrelationTerm { matching: c, overlap: m }
}

/// Compare `local` with each foreign pattern in turn. Cross-correlation with
/// one foreign pattern is `dot / overlap`; patterns with no overlap are left
/// out of the sum, which is divided by the number of foreign patterns.
pub fn correlation_terms(local: &SignPattern, foreign: &[SignPattern]) -> (ts: Vec<CorrelationTerm>)
    requires
        local.wf(),
        forall|k: int| 0 <= k < foreign@.len() ==> (#[trigger] foreign@[k]).wf(),
    ensures
        ts@.len() == foreign@.len(),
        forall|k: int| 0 <= k < ts@.len() ==> is_term_of(#[trigger] ts@[k], local@, foreign@[k]@),
{
    let n = foreign.len();
    let mut ts: Vec<CorrelationTerm> = Vec::new();
    let mut k: usize = 0;
    while k < n
        invariant
            n == foreign@.len(),
            k <= n,
            local.wf(),
            forall|j: int| 0 <= j < foreign@.len() ==> (#[trigger] foreign@[j]).wf(),
            ts@.len() == k,
            forall|j: int| 0 <= j < k ==> is_term_of(#[trigger] ts@[j], local@, foreign@[j]@),
        decreases n - k,
    {
        let t = correlation_term(local, &foreign[k]);
        ts.push(t);
        k += 1;
    }
    ts
}

/// The sign local agent `i` of `n_agents` is pulled toward: the foreign sign
/// for agents the foreign pattern covers, `+1` for the rest.
pub open spec fn target_of(foreign: Seq<i8>, n_agents: nat, i: int) -> i8 {
    if i < min_len(foreign.len(), n_agents) {
        foreign[i]
    } else {
        1
    }
}

/// The target sign of each of `n_agents` local agents under a foreign pattern.
pub fn target_signs(foreign: &SignPattern, n_agents: usize) -> (ts: Vec<i8>)
    requires
        foreign.wf(),
    ensures
        ts@ == Seq::new(n_agents as nat, |i: int| target_of(foreign@, n_agents as nat, i)),
        all_signs(ts@),
        ts@.len() == n_agents,
        forall|i: int| 0 <= i < n_agents && i < foreign@.len() ==> #[trigger] ts@[i] == foreign@[i],
        forall|i: int| foreign@.len() <= i < n_agents ==> #[trigger] ts@[i] == 1,
{
    let m = if foreign.len() <= n_agents {
        foreign.len()
    } else {
        n_agents
    };
    let mut ts: Vec<i8> = Vec::new();
    let mut i: usize = 0;
    while i < n_agents
        invariant
            foreign.wf(),
            m == min_len(foreign@.len(), n_agents as nat),
            i <= n_agents,
            ts@ == Seq::new(i as nat, |j: int| target_of(foreign@, n_agents as nat, j)),
        decreases n_agents - i,
    {
        let s: i8 = if i < m {
            foreign.signs[i]
        } else {
            1
        };
        ts.push(s);
        i += 1;
    }
    assert forall|i: int| 0 <= i < n_agents implies #[trigger] ts@[i] == target_of(foreign@, n_agents as nat, i) by {}
    assert forall|i: int| 0 <= i < n_agents implies (i < foreign@.len() ==> #[trigger] ts@[i] == foreign@[i]) && (i >= foreign@.len() ==> ts@[i] == 1) by {
        lemma_target_follows_foreign(foreign@, n_agents as nat, i);
    }
    assert forall|i: int| 0 <= i < ts@.len() implies is_sign(#[trigger] ts@[i]) by {
        if i < m {
            assert(is_sign(foreign@[i]));
        }
    }
    ts
}

/// The last `limit` entries of `s` (all of `s` if it is no longer).
pub open spec fn last_entries<T>(s: Seq<T>, limit: nat) -> Seq<T> {
    if s.len() <= limit {
        s
    } else {
        s.subrange(s.len() - limit, s.len() as int)
    }
}

/// Record one correlation measurement, keeping only the last
/// `HISTORY_LIMIT` entries.
pub fn record_correlation<T>(history: &mut Vec<T>, value: T)
    ensures
        final(history)@ == (if old(history)@.len() + 1 > HISTORY_LIMIT {
            old(history)@.push(value).drop_first()
        } else {
            old(history)@.push(value)
        }),
        old(history)@.len() <= HISTORY_LIMIT ==> final(history)@ == last_entries(
            old(history)@.push(value),
            HISTORY_LIMIT as nat,
        ),
        old(history)@.len() <= HISTORY_LIMIT ==> final(history)@.len() <= HISTORY_LIMIT,
        old(history)@.len() <= HISTORY_LIMIT ==> final(history)@.len() == (if old(history)@.len() + 1 <= HISTORY_LIMIT {
            old(history)@.len() + 1nat
        } else {
            HISTORY_LIMIT as nat
        }),
        final(history)@.len() >= 1,
        final(history)@.last() == value,
        forall|i: int|
            0 <= i < final(history)@.len() - 1 ==> #[trigger] final(history)@[i] == old(history)@[old(history)@.len() + 1 - final(history)@.len() + i],
{
    history.push(value);
    if history.len() > HISTORY_LIMIT {
        history.remove(0);
    }
    proof {
        let s = old(history)@.push(value);
        assert(final(history)@.len() >= 1);
        if old(history)@.len() <= HISTORY_LIMIT && s.len() > HISTORY_LIMIT {
            assert(s.drop_first() =~= s.subrange(s.len() - HISTORY_LIMIT, s.len() as int));
        }
    }
}

/// The shorter of two lengths is no longer than either and is one of them.
pub proof fn lemma_min_len(a: nat, b: nat)
    ensures
        min_len(a, b) <= a,
        min_len(a, b) <= b,
        min_len(a, b) == a || min_len(a, b) == b,
{
}

/// Every agent both patterns have is compared: the overlap is the length of
/// the shorter pattern, and the agreement count is the number of indices below
/// it at which the two patterns hold the same sign.
pub proof fn lemma_overlap_covers_common_agents(local: Seq<i8>, foreign: Seq<i8>)
    ensures
        overlap_of(local, foreign) <= local.len(),
        overlap_of(local, foreign) <= foreign.len(),
        overlap_of(local, foreign) == local.len() || overlap_of(local, foreign) == foreign.len(),
        matching_of(local, foreign) == Seq::new(overlap_of(local, foreign), |i: int| i).filter(
            |i: int| local[i] == foreign[i],
        ).len(),
{
    lemma_min_len(local.len(), foreign.len());
    lemma_matches_counts_agreements(local, foreign, overlap_of(local, foreign));
}

/// Agent `i` of `n_agents` is pulled toward the foreign sign at the same index
/// when the foreign pattern covers it, and toward `+1` otherwise.
pub proof fn lemma_target_follows_foreign(foreign: Seq<i8>, n_agents: nat, i: int)
    requires
        0 <= i < n_agents,
    ensures
        i < foreign.len() ==> target_of(foreign, n_agents, i) == foreign[i],
        i >= foreign.len() ==> target_of(foreign, n_agents, i) == 1,
{
    lemma_min_len(foreign.len(), n_agents);
}

/// The broadcast sign of an agent is `+1` exactly when its mean is not negative.
pub proof fn lemma_sign_of_mean(nonnegative: bool)
    ensures
        sign_of_mean(nonnegative) == 1 <==> nonnegative,
        sign_of_mean(nonnegative) == -1 <==> !nonnegative,
{
}

/// A pattern compared with itself agrees on every agent: perfect correlation,
/// `dot == overlap`.
pub proof fn lemma_self_correlation(p: Seq<i8>)
    ensures
        overlap_of(p, p) == p.len(),
        matching_of(p, p) == p.len(),
{
    lemma_matches_self(p, p.len());
}

/// A pattern compared with its inversion agrees nowhere: correlation `-1`,
/// `dot == -overlap`.
pub proof fn lemma_inverted_correlation(p: Seq<i8>)
    requires
        all_signs(p),
    ensures
        overlap_of(p, flipped(p)) == p.len(),
        matching_of(p, flipped(p)) == 0,
        dot_of(p, flipped(p)) == -p.len(),
{
    lemma_matches_inverted(p, p.len());
    lemma_invert_involution(p);
    lemma_dot_from_matches(p, flipped(p), p.len());
}

/// Correlation with any foreign pattern lies in `[-1, 1]`: the dot product over
/// the overlap is agreements minus disagreements, between `-overlap` and `overlap`.
pub proof fn lemma_correlation_bounded(local: Seq<i8>, foreign: Seq<i8>)
    requires
        all_signs(local),
        all_signs(foreign),
    ensures
        dot_of(local, foreign) == 2 * matching_of(local, foreign) - overlap_of(local, foreign),
        -overlap_of(local, foreign) <= dot_of(local, foreign) <= overlap_of(local, foreign),
{
    lemma_dot_from_matches(local, foreign, overlap_of(local, foreign));
}

} // verus!

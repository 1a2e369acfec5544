//! The canonical map of a sequence of fingerprints: each record is mapped to
//! the earliest representative it is equivalent to, or to itself.

use vstd::prelude::*;
use crate::engine::{DedupStrategy, hamming};

verus! {

/// Whether two fingerprints count as the same record under `strategy`.
pub open spec fn equivalent(strategy: DedupStrategy, a: u64, b: u64) -> bool {
    match strategy {
        DedupStrategy::Exact => a == b,
        DedupStrategy::SimHash { threshold } => hamming(a, b) <= threshold,
    }
}

/// The canonical index of record `i`: the first representative before `i`
/// that `i` is equivalent to, and `i` itself when there is none. A
/// representative is a record that is its own canonical index.
pub open spec fn canonical(fps: Seq<u64>, strategy: DedupStrategy, i: nat) -> nat
    decreases i, i + 1,
{
    first_match(fps, strategy, i, 0)
}

/// The first representative at or after `j`, and before `i`, that record `i`
/// is equivalent to; `i` when there is none.
pub open spec fn first_match(fps: Seq<u64>, strategy: DedupStrategy, i: nat, j: nat) -> nat
    decreases i, i - j,
{
    if j >= i {
        i
    } else if canonical(fps, strategy, j) == j && equivalent(
        strategy,
        fps[i as int],
        fps[j as int],
    ) {
        j
    } else {
        first_match(fps, strategy, i, j + 1)
    }
}

/// Whether record `k` is a representative that record `i` is equivalent to.
pub open spec fn is_match(fps: Seq<u64>, strategy: DedupStrategy, i: nat, k: nat) -> bool {
    canonical(fps, strategy, k) == k && equivalent(strategy, fps[i as int], fps[k as int])
}

/// What the search from `j` returns: a match, with no match before it, or `i`.
pub proof fn lemma_first_match_result(fps: Seq<u64>, strategy: DedupStrategy, i: nat, j: nat)
    requires
        j <= i,
    ensures
        j <= first_match(fps, strategy, i, j) <= i,
        first_match(fps, strategy, i, j) < i ==> is_match(
            fps,
            strategy,
            i,
            first_match(fps, strategy, i, j),
        ),
        forall|k: nat|
            j <= k < first_match(fps, strategy, i, j) ==> !is_match(fps, strategy, i, k),
    decreases i - j,
{
    if j < i && !is_match(fps, strategy, i, j) {
        lemma_first_match_result(fps, strategy, i, j + 1);
    }
}

/// The search may start later when nothing before the later start matches.
pub proof fn lemma_first_match_skip(
    fps: Seq<u64>,
    strategy: DedupStrategy,
    i: nat,
    a: nat,
    b: nat,
)
    requires
        a <= b <= i,
        forall|k: nat| a <= k < b ==> !is_match(fps, strategy, i, k),
    ensures
        first_match(fps, strategy, i, a) == first_match(fps, strategy, i, b),
    decreases b - a,
{
    if a < b {
        assert(!is_match(fps, strategy, i, a));
        lemma_first_match_skip(fps, strategy, i, a + 1, b);
    }
}

/// The canonical index of a record is never after the record, and is a
/// representative: mapping it again changes nothing.
pub proof fn lemma_canonical_map(fps: Seq<u64>, strategy: DedupStrategy, i: nat)
    ensures
        canonical(fps, strategy, i) <= i,
        canonical(fps, strategy, canonical(fps, strategy, i)) == canonical(fps, strategy, i),
{
    lemma_first_match_result(fps, strategy, i, 0);
}

/// The canonical index is the smallest representative that the record is
/// equivalent to.
pub proof fn lemma_canonical_is_first(fps: Seq<u64>, strategy: DedupStrategy, i: nat, k: nat)
    requires
        k < canonical(fps, strategy, i),
    ensures
        !is_match(fps, strategy, i, k),
{
    lemma_first_match_result(fps, strategy, i, 0);
}

/// Under the exact strategy the canonical index of a record is the first
/// record with the same fingerprint.
pub proof fn lemma_exact_canonical(fps: Seq<u64>, i: nat)
    ensures
        fps[canonical(fps, DedupStrategy::Exact, i) as int] == fps[i as int],
        forall|k: nat|
            k < canonical(fps, DedupStrategy::Exact, i) ==> fps[k as int] != fps[i as int],
{
    let s = DedupStrategy::Exact;
    lemma_first_match_result(fps, s, i, 0);
    assert forall|k: nat| k < canonical(fps, s, i) implies fps[k as int] != fps[i as int] by {
        if fps[k as int] == fps[i as int] {
            let c = canonical(fps, s, k);
            lemma_first_match_result(fps, s, k, 0);
            lemma_canonical_map(fps, s, k);
            assert(is_match(fps, s, i, c));
        }
    }
}

/// What a finished index holds for the first `n` records: the canonical
/// index of each, and a flag for each record that is not its own.
pub open spec fn indexed(
    fps: Seq<u64>,
    strategy: DedupStrategy,
    n: nat,
    flags: Seq<bool>,
    canon: Seq<usize>,
) -> bool {
    &&& canon.len() == n
    &&& flags.len() == fps.len()
    &&& forall|j: int| 0 <= j < n ==> (#[trigger] canon[j]) == canonical(fps, strategy, j as nat)
    &&& forall|j: int| 0 <= j < n ==> (#[trigger] flags[j]) == (canon[j] != j)
    &&& forall|j: int| n <= j < flags.len() ==> !(#[trigger] flags[j])
}

/// In a finished index every canonical index is in bounds, is not after its
/// record, is itself canonical, and is not flagged as a duplicate.
pub proof fn lemma_indexed_invariants(
    fps: Seq<u64>,
    strategy: DedupStrategy,
    flags: Seq<bool>,
    canon: Seq<usize>,
    i: int,
)
    requires
        indexed(fps, strategy, fps.len(), flags, canon),
        0 <= i < fps.len(),
    ensures
        canon[i] <= i,
        canon[canon[i] as int] == canon[i],
        !flags[canon[i] as int],
{
    lemma_canonical_map(fps, strategy, i as nat);
}

} // verus!

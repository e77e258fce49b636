//! Runs of marked positions in a sequence of flags.

use vstd::prelude::*;

verus! {

/// Length of the run of marked positions that starts at `from`.
pub open spec fn run_len(have: Seq<bool>, from: nat) -> nat
    decreases have.len() - from,
{
    if from < have.len() && have[from as int] {
        1 + run_len(have, from + 1)
    } else {
        0
    }
}

/// A run that is known to reach from `a` to `b` continues with the run at `b`.
pub proof fn lemma_run_split(have: Seq<bool>, a: nat, b: nat)
    requires
        a <= b <= have.len(),
        forall|i: int| a <= i < b ==> have[i],
    ensures
        run_len(have, a) == (b - a) + run_len(have, b),
    decreases b - a,
{
    if a < b {
        lemma_run_split(have, a + 1, b);
    }
}

/// Every position inside a run is marked, and the run stops at an unmarked
/// position or at the end.
pub proof fn lemma_run_content(have: Seq<bool>, from: nat)
    requires
        from <= have.len(),
    ensures
        from + run_len(have, from) <= have.len(),
        forall|i: int| from <= i < from + run_len(have, from) ==> have[i],
        from + run_len(have, from) < have.len() ==> !have[(from + run_len(have, from)) as int],
    decreases have.len() - from,
{
    if from < have.len() && have[from as int] {
        lemma_run_content(have, from + 1);
    }
}

} // verus!

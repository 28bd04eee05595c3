//! The first place at which something goes wrong.

use vstd::prelude::*;

verus! {

/// The least index in `from..to` at which `bad` holds, if there is one.
pub open spec fn first_index(from: int, to: int, bad: spec_fn(int) -> bool) -> Option<int>
    decreases to - from,
{
    if from >= to {
        None
    } else if bad(from) {
        Some(from)
    } else {
        first_index(from + 1, to, bad)
    }
}

/// What `first_index` finds: the least index at which `bad` holds, and
/// nothing only where `bad` holds nowhere.
pub proof fn lemma_first_index(from: int, to: int, bad: spec_fn(int) -> bool)
    ensures
        match first_index(from, to, bad) {
            Some(i) => from <= i < to && bad(i) && forall|j: int|
                from <= j < i ==> !#[trigger] bad(j),
            None => forall|j: int| from <= j < to ==> !#[trigger] bad(j),
        },
    decreases to - from,
{
    if from < to && !bad(from) {
        lemma_first_index(from + 1, to, bad);
    }
}

/// A search may start after any indices at which `bad` does not hold.
pub proof fn lemma_first_index_skip(from: int, mid: int, to: int, bad: spec_fn(int) -> bool)
    requires
        from <= mid <= to,
        forall|j: int| from <= j < mid ==> !#[trigger] bad(j),
    ensures
        first_index(from, to, bad) == first_index(mid, to, bad),
    decreases mid - from,
{
    if from < mid {
        lemma_first_index_skip(from + 1, mid, to, bad);
    }
}

} // verus!

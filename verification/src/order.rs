//! Subsequences: what it means that a sequence keeps the order of another.

use vstd::prelude::*;

verus! {

/// Whether `part` is found in `whole` at the positions `at`: one position
/// for each element of `part`, each holding that element, in rising order.
pub open spec fn embeds<E>(part: Seq<E>, whole: Seq<E>, at: Seq<int>) -> bool {
    &&& at.len() == part.len()
    &&& forall|i: int| 0 <= i < at.len() ==> 0 <= #[trigger] at[i] < whole.len() && whole[at[i]] == part[i]
    &&& forall|i: int, j: int| 0 <= i < j < at.len() ==> #[trigger] at[i] < #[trigger] at[j]
}

/// Whether `part` is a subsequence of `whole`: the elements of `part` occur
/// in `whole`, in the same order, not necessarily side by side.
pub open spec fn is_subsequence<E>(part: Seq<E>, whole: Seq<E>) -> bool {
    exists|at: Seq<int>| embeds(part, whole, at)
}

} // verus!

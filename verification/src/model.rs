//! What the engine computes, stated over sequences.

use crate::diff::Diff;
use crate::diff::Preference;
use vstd::prelude::*;
use vstd::std_specs::cmp::PartialEqSpec;

verus! {

/// Every element of `a` compares equal to itself.
pub open spec fn equal_to_itself<T: PartialEq>(a: Seq<T>) -> bool {
    forall|i: int| 0 <= i < a.len() ==> (#[trigger] a[i]).eq_spec(&a[i])
}

/// An element of `a` and one of `b` compare equal in one direction whenever
/// they do in the other.
pub open spec fn equal_both_ways<T: PartialEq>(a: Seq<T>, b: Seq<T>) -> bool {
    forall|i: int, j: int|
        0 <= i < a.len() && 0 <= j < b.len() ==> #[trigger] a[i].eq_spec(&b[j]) == b[j].eq_spec(
            &a[i],
        )
}

/// An element of `a` and one of `b` that compare equal are the same value.
pub open spec fn equal_is_same<T: PartialEq>(a: Seq<T>, b: Seq<T>) -> bool {
    forall|i: int, j: int|
        0 <= i < a.len() && 0 <= j < b.len() && #[trigger] a[i].eq_spec(&b[j]) ==> a[i] == b[j]
}

/// `pairs` is a common subsequence of `a` and `b`, given by the positions it
/// takes: each pair holds a position in `a` and one in `b` whose elements
/// compare equal, and the positions grow from pair to pair on both sides.
pub open spec fn is_common_subsequence<T: PartialEq>(
    pairs: Seq<(int, int)>,
    a: Seq<T>,
    b: Seq<T>,
) -> bool {
    &&& forall|k: int|
        0 <= k < pairs.len() ==> {
            &&& 0 <= (#[trigger] pairs[k]).0 < a.len()
            &&& 0 <= pairs[k].1 < b.len()
            &&& a[pairs[k].0].eq_spec(&b[pairs[k].1])
        }
    &&& forall|k: int, l: int|
        0 <= k < l < pairs.len() ==> {
            &&& (#[trigger] pairs[k]).0 < (#[trigger] pairs[l]).0
            &&& pairs[k].1 < pairs[l].1
        }
}

/// `n` is the length of the longest common subsequences of `a` and `b`:
/// one of them has `n` elements, and none has more.
pub open spec fn is_longest_common_len<T: PartialEq>(n: nat, a: Seq<T>, b: Seq<T>) -> bool {
    &&& exists|pairs: Seq<(int, int)>| #[trigger]
        is_common_subsequence(pairs, a, b) && pairs.len() == n
    &&& forall|pairs: Seq<(int, int)>| #[trigger]
        is_common_subsequence(pairs, a, b) ==> pairs.len() <= n
}

/// The length of the longest common subsequences of `a` and `b`, by the last
/// elements of the two: where they compare equal, they extend a longest
/// common subsequence of what stands before them; where they do not, one of
/// them is of no use.
pub open spec fn lcs_len<T: PartialEq>(a: Seq<T>, b: Seq<T>) -> nat
    decreases a.len() + b.len(),
{
    if a.len() == 0 || b.len() == 0 {
        0
    } else if a.last().eq_spec(&b.last()) {
        lcs_len(a.drop_last(), b.drop_last()) + 1
    } else {
        let without_a = lcs_len(a.drop_last(), b);
        let without_b = lcs_len(a, b.drop_last());
        if without_a >= without_b {
            without_a
        } else {
            without_b
        }
    }
}

/// `table` holds, for every pair of prefixes of `a` and `b`, the length of
/// their longest common subsequences: one row for each prefix of `b`, the
/// empty one first, and in each row one cell for each prefix of `a`.
pub open spec fn is_prefix_table<T: PartialEq>(table: Seq<Seq<usize>>, a: Seq<T>, b: Seq<T>) -> bool {
    &&& table.len() == b.len() + 1
    &&& forall|y: int| 0 <= y <= b.len() ==> (#[trigger] table[y]).len() == a.len() + 1
    &&& forall|x: int, y: int|
        0 <= x <= a.len() && 0 <= y <= b.len() ==> #[trigger] table[y][x] == lcs_len(
            a.take(x),
            b.take(y),
        )
}

/// Whether the diff from `a` to `b`, whose last elements do not match, ends
/// with the insertion of the last element of `b`; else it ends with the
/// deletion of the last element of `a`.
///
/// It ends with the step that leaves the longer common subsequence to the
/// steps before it. Where both leave the same, the preferred kind of step
/// comes first, so the diff ends with the other kind.
pub open spec fn ends_with_insert<T: PartialEq>(
    a: Seq<T>,
    b: Seq<T>,
    preference: Preference,
) -> bool {
    b.len() > 0 && (a.len() == 0 || {
        let after_insert = lcs_len(a, b.drop_last());
        let after_delete = lcs_len(a.drop_last(), b);
        after_insert > after_delete || (after_insert == after_delete && preference
            == Preference::DeleteFirst)
    })
}

/// The diff from `a` to `b`, by the last elements of the two: where they
/// compare equal they make the last step, a common one, whatever the
/// preference; where they do not, or one sequence is empty, the last step
/// inserts or deletes one of them, as `ends_with_insert` decides. Before the
/// last step stands the diff of what is left.
pub open spec fn diff_script<'a, T: Eq>(a: Seq<T>, b: Seq<T>, preference: Preference) -> Seq<
    Diff<'a, T>,
>
    decreases a.len() + b.len(),
{
    if a.len() == 0 && b.len() == 0 {
        Seq::empty()
    } else if a.len() > 0 && b.len() > 0 && a.last().eq_spec(&b.last()) {
        diff_script(a.drop_last(), b.drop_last(), preference).push(Diff::Common(&a.last()))
    } else if ends_with_insert(a, b, preference) {
        diff_script(a, b.drop_last(), preference).push(Diff::Insert(&b.last()))
    } else {
        diff_script(a.drop_last(), b, preference).push(Diff::Delete(&a.last()))
    }
}

} // verus!

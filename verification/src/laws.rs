//! What holds of the lengths and of the diffs, whatever the sequences.

use crate::diff::common_count;
use crate::diff::common_places;
use crate::diff::dest_side;
use crate::diff::source_side;
use crate::diff::Diff;
use crate::diff::Preference;
use crate::engine::Lcs;
use crate::model::diff_script;
use crate::model::ends_with_insert;
use crate::model::equal_both_ways;
use crate::model::equal_is_same;
use crate::model::equal_to_itself;
use crate::model::is_common_subsequence;
use crate::model::is_longest_common_len;
use crate::model::is_prefix_table;
use crate::model::lcs_len;
use vstd::prelude::*;
use vstd::std_specs::cmp::PartialEqSpec;

verus! {

/// A longest common subsequence is no longer than either sequence.
pub proof fn lemma_lcs_len_bounded<T: PartialEq>(a: Seq<T>, b: Seq<T>)
    ensures
        lcs_len(a, b) <= a.len(),
        lcs_len(a, b) <= b.len(),
    decreases a.len() + b.len(),
{
    if a.len() > 0 && b.len() > 0 {
        lemma_lcs_len_bounded(a.drop_last(), b.drop_last());
        lemma_lcs_len_bounded(a.drop_last(), b);
        lemma_lcs_len_bounded(a, b.drop_last());
    }
}

/// No common subsequence of `a` and `b` has more than `lcs_len(a, b)`
/// elements.
pub proof fn lemma_lcs_len_is_upper_bound<T: PartialEq>(
    pairs: Seq<(int, int)>,
    a: Seq<T>,
    b: Seq<T>,
)
    requires
        is_common_subsequence(pairs, a, b),
    ensures
        pairs.len() <= lcs_len(a, b),
    decreases a.len() + b.len(),
{
    if pairs.len() > 0 {
        let last = pairs.last();
        let earlier = pairs.drop_last();
        if a.last().eq_spec(&b.last()) {
            lemma_lcs_len_is_upper_bound(earlier, a.drop_last(), b.drop_last());
        } else if last.0 < a.len() - 1 {
            lemma_lcs_len_is_upper_bound(pairs, a.drop_last(), b);
        } else {
            lemma_lcs_len_is_upper_bound(pairs, a, b.drop_last());
        }
    }
}

/// Some common subsequence of `a` and `b` has `lcs_len(a, b)` elements: the
/// one returned.
pub proof fn lemma_lcs_len_is_reached<T: PartialEq>(a: Seq<T>, b: Seq<T>) -> (pairs: Seq<
    (int, int),
>)
    ensures
        is_common_subsequence(pairs, a, b),
        pairs.len() == lcs_len(a, b),
    decreases a.len() + b.len(),
{
    if a.len() == 0 || b.len() == 0 {
        Seq::empty()
    } else if a.last().eq_spec(&b.last()) {
        let earlier = lemma_lcs_len_is_reached(a.drop_last(), b.drop_last());
        earlier.push((a.len() - 1, b.len() - 1))
    } else if lcs_len(a.drop_last(), b) >= lcs_len(a, b.drop_last()) {
        lemma_lcs_len_is_reached(a.drop_last(), b)
    } else {
        lemma_lcs_len_is_reached(a, b.drop_last())
    }
}

/// `lcs_len(a, b)` is the length of the longest common subsequences of `a`
/// and `b`.
pub proof fn lemma_lcs_len_is_longest<T: PartialEq>(a: Seq<T>, b: Seq<T>)
    ensures
        is_longest_common_len(lcs_len(a, b), a, b),
{
    let reached = lemma_lcs_len_is_reached(a, b);
    assert(is_common_subsequence(reached, a, b));
    assert forall|pairs: Seq<(int, int)>| #[trigger]
        is_common_subsequence(pairs, a, b) implies pairs.len() <= lcs_len(a, b) by {
        lemma_lcs_len_is_upper_bound(pairs, a, b);
    }
}

/// The length for the first `x` elements of `a` and the first `y` of `b`
/// follows from the lengths for shorter prefixes: it is one more than the
/// length without the last element of each where the two compare equal, and
/// else the larger of the lengths without one of them.
pub proof fn lemma_lcs_len_of_prefixes<T: PartialEq>(a: Seq<T>, b: Seq<T>, x: int, y: int)
    requires
        0 < x <= a.len(),
        0 < y <= b.len(),
    ensures
        a[x - 1].eq_spec(&b[y - 1]) ==> lcs_len(a.take(x), b.take(y)) == lcs_len(
            a.take(x - 1),
            b.take(y - 1),
        ) + 1,
        !a[x - 1].eq_spec(&b[y - 1]) ==> lcs_len(a.take(x), b.take(y)) == if lcs_len(
            a.take(x - 1),
            b.take(y),
        ) >= lcs_len(a.take(x), b.take(y - 1)) {
            lcs_len(a.take(x - 1), b.take(y))
        } else {
            lcs_len(a.take(x), b.take(y - 1))
        },
{
    assert(a.take(x).drop_last() =~= a.take(x - 1));
    assert(b.take(y).drop_last() =~= b.take(y - 1));
}

/// A cell of a prefix table obeys the rule by which such a table is filled.
/// For an empty prefix it is 0. Else it is one more than its neighbour above
/// to the left where the two elements that it adds compare equal, and the
/// larger of its neighbours to the left and above where they do not.
pub proof fn lemma_prefix_table_rule<T: PartialEq>(
    table: Seq<Seq<usize>>,
    a: Seq<T>,
    b: Seq<T>,
    x: int,
    y: int,
)
    requires
        is_prefix_table(table, a, b),
        0 <= x <= a.len(),
        0 <= y <= b.len(),
    ensures
        x == 0 || y == 0 ==> table[y][x] == 0,
        x > 0 && y > 0 && a[x - 1].eq_spec(&b[y - 1]) ==> table[y][x] == table[y - 1][x - 1] + 1,
        x > 0 && y > 0 && !a[x - 1].eq_spec(&b[y - 1]) ==> {
            &&& table[y][x] >= table[y][x - 1]
            &&& table[y][x] >= table[y - 1][x]
            &&& table[y][x] == table[y][x - 1] || table[y][x] == table[y - 1][x]
        },
{
    if x > 0 && y > 0 {
        lemma_lcs_len_of_prefixes(a, b, x, y);
    }
}

/// On a prefix table the last step of a diff of two prefixes, whose last
/// elements do not match, is read from two cells: it is an insertion where
/// the cell above holds more than the cell to the left, or as much while
/// deletions are to come first, and else a deletion.
pub proof fn lemma_step_by_table<T: PartialEq>(
    table: Seq<Seq<usize>>,
    a: Seq<T>,
    b: Seq<T>,
    x: int,
    y: int,
    preference: Preference,
)
    requires
        is_prefix_table(table, a, b),
        0 < x <= a.len(),
        0 < y <= b.len(),
    ensures
        ends_with_insert(a.take(x), b.take(y), preference) == (table[y - 1][x] > table[y][x - 1]
            || (table[y - 1][x] == table[y][x - 1] && preference == Preference::DeleteFirst)),
{
    assert(a.take(x).drop_last() == a.take(x - 1));
    assert(b.take(y).drop_last() == b.take(y - 1));
}

/// Swapping the two sequences keeps the length, where the elements compare
/// equal in one direction whenever they do in the other.
pub proof fn lemma_lcs_len_symmetric<T: PartialEq>(a: Seq<T>, b: Seq<T>)
    requires
        equal_both_ways(a, b),
    ensures
        lcs_len(a, b) == lcs_len(b, a),
    decreases a.len() + b.len(),
{
    if a.len() > 0 && b.len() > 0 {
        lemma_lcs_len_symmetric(a.drop_last(), b.drop_last());
        lemma_lcs_len_symmetric(a.drop_last(), b);
        lemma_lcs_len_symmetric(a, b.drop_last());
    }
}

/// A sequence whose elements compare equal to themselves is its own longest
/// common subsequence, and its diff to itself holds its elements in order,
/// each as a common step.
pub proof fn lemma_diff_of_itself<'a, T: Eq>(a: Seq<T>, preference: Preference)
    requires
        equal_to_itself(a),
    ensures
        lcs_len(a, a) == a.len(),
        diff_script::<T>(a, a, preference) == Seq::new(a.len(), |i: int| Diff::Common(&a[i])),
    decreases a.len(),
{
    if a.len() > 0 {
        lemma_diff_of_itself(a.drop_last(), preference);
    }
}

/// From an empty source the diff inserts every element of the destination,
/// in order, and nothing is common.
pub proof fn lemma_diff_from_empty<'a, T: Eq>(a: Seq<T>, b: Seq<T>, preference: Preference)
    requires
        a.len() == 0,
    ensures
        lcs_len(a, b) == 0,
        diff_script::<T>(a, b, preference) == Seq::new(b.len(), |i: int| Diff::Insert(&b[i])),
    decreases b.len(),
{
    if b.len() > 0 {
        lemma_diff_from_empty(a, b.drop_last(), preference);
    }
}

/// To an empty destination the diff deletes every element of the source, in
/// order, and nothing is common.
pub proof fn lemma_diff_to_empty<'a, T: Eq>(a: Seq<T>, b: Seq<T>, preference: Preference)
    requires
        b.len() == 0,
    ensures
        lcs_len(a, b) == 0,
        diff_script::<T>(a, b, preference) == Seq::new(a.len(), |i: int| Diff::Delete(&a[i])),
    decreases a.len(),
{
    if a.len() > 0 {
        lemma_diff_to_empty(a.drop_last(), b, preference);
    }
}

/// The common and deleted elements of a diff, in order, are the source.
pub proof fn lemma_diff_restores_source<'a, T: Eq>(a: Seq<T>, b: Seq<T>, preference: Preference)
    ensures
        source_side(diff_script::<T>(a, b, preference)) == a,
    decreases a.len() + b.len(),
{
    let script = diff_script::<T>(a, b, preference);
    if a.len() == 0 && b.len() == 0 {
    } else if a.len() > 0 && b.len() > 0 && a.last().eq_spec(&b.last()) {
        lemma_diff_restores_source(a.drop_last(), b.drop_last(), preference);
        assert(script.drop_last() == diff_script::<T>(a.drop_last(), b.drop_last(), preference));
    } else if ends_with_insert(a, b, preference) {
        lemma_diff_restores_source(a, b.drop_last(), preference);
        assert(script.drop_last() == diff_script::<T>(a, b.drop_last(), preference));
    } else {
        lemma_diff_restores_source(a.drop_last(), b, preference);
        assert(script.drop_last() == diff_script::<T>(a.drop_last(), b, preference));
    }
}

/// The common and inserted elements of a diff, in order, stand for the
/// destination one for one: each is the destination's element at its place,
/// or, for a common step, the source's element that compares equal to it.
pub proof fn lemma_diff_matches_dest<'a, T: Eq>(a: Seq<T>, b: Seq<T>, preference: Preference)
    ensures
        dest_side(diff_script::<T>(a, b, preference)).len() == b.len(),
        forall|i: int|
            0 <= i < b.len() ==> {
                let e = #[trigger] dest_side(diff_script::<T>(a, b, preference))[i];
                e == b[i] || e.eq_spec(&b[i])
            },
    decreases a.len() + b.len(),
{
    let script = diff_script::<T>(a, b, preference);
    if a.len() == 0 && b.len() == 0 {
    } else if a.len() > 0 && b.len() > 0 && a.last().eq_spec(&b.last()) {
        lemma_diff_matches_dest(a.drop_last(), b.drop_last(), preference);
        assert(script.drop_last() == diff_script::<T>(a.drop_last(), b.drop_last(), preference));
    } else if ends_with_insert(a, b, preference) {
        lemma_diff_matches_dest(a, b.drop_last(), preference);
        assert(script.drop_last() == diff_script::<T>(a, b.drop_last(), preference));
    } else {
        lemma_diff_matches_dest(a.drop_last(), b, preference);
        assert(script.drop_last() == diff_script::<T>(a.drop_last(), b, preference));
    }
}

/// The common and inserted elements of a diff, in order, are the
/// destination, where elements that compare equal are the same.
pub proof fn lemma_diff_restores_dest<'a, T: Eq>(a: Seq<T>, b: Seq<T>, preference: Preference)
    requires
        equal_is_same(a, b),
    ensures
        dest_side(diff_script::<T>(a, b, preference)) == b,
    decreases a.len() + b.len(),
{
    let script = diff_script::<T>(a, b, preference);
    if a.len() == 0 && b.len() == 0 {
    } else if a.len() > 0 && b.len() > 0 && a.last().eq_spec(&b.last()) {
        lemma_diff_restores_dest(a.drop_last(), b.drop_last(), preference);
        assert(script.drop_last() == diff_script::<T>(a.drop_last(), b.drop_last(), preference));
    } else if ends_with_insert(a, b, preference) {
        lemma_diff_restores_dest(a, b.drop_last(), preference);
        assert(script.drop_last() == diff_script::<T>(a, b.drop_last(), preference));
    } else {
        lemma_diff_restores_dest(a.drop_last(), b, preference);
        assert(script.drop_last() == diff_script::<T>(a.drop_last(), b, preference));
    }
}

/// Whatever the preference, a diff has as many common steps as a longest
/// common subsequence has elements, and one step more for each other element
/// of the two sequences.
pub proof fn lemma_diff_len<'a, T: Eq>(a: Seq<T>, b: Seq<T>, preference: Preference)
    ensures
        common_count(diff_script::<T>(a, b, preference)) == lcs_len(a, b),
        diff_script::<T>(a, b, preference).len() == a.len() + b.len() - lcs_len(a, b),
    decreases a.len() + b.len(),
{
    let script = diff_script::<T>(a, b, preference);
    if a.len() == 0 && b.len() == 0 {
    } else if a.len() > 0 && b.len() > 0 && a.last().eq_spec(&b.last()) {
        lemma_diff_len(a.drop_last(), b.drop_last(), preference);
        assert(script.drop_last() == diff_script::<T>(a.drop_last(), b.drop_last(), preference));
    } else if ends_with_insert(a, b, preference) {
        lemma_diff_len(a, b.drop_last(), preference);
        assert(script.drop_last() == diff_script::<T>(a, b.drop_last(), preference));
    } else {
        lemma_diff_len(a.drop_last(), b, preference);
        assert(script.drop_last() == diff_script::<T>(a.drop_last(), b, preference));
    }
}

/// The common steps of a diff are a longest common subsequence of the two
/// sequences: they stand at places that grow on both sides and hold elements
/// that compare equal, and there are `lcs_len(a, b)` of them.
pub proof fn lemma_diff_shows_longest<'a, T: Eq>(a: Seq<T>, b: Seq<T>, preference: Preference)
    ensures
        is_common_subsequence(common_places(diff_script::<T>(a, b, preference)), a, b),
        common_places(diff_script::<T>(a, b, preference)).len() == lcs_len(a, b),
    decreases a.len() + b.len(),
{
    let script = diff_script::<T>(a, b, preference);
    let places = common_places(script);
    if a.len() == 0 && b.len() == 0 {
    } else if a.len() > 0 && b.len() > 0 && a.last().eq_spec(&b.last()) {
        let before = diff_script::<T>(a.drop_last(), b.drop_last(), preference);
        assert(script.drop_last() == before);
        lemma_diff_shows_longest(a.drop_last(), b.drop_last(), preference);
        lemma_diff_restores_source(a.drop_last(), b.drop_last(), preference);
        lemma_diff_matches_dest(a.drop_last(), b.drop_last(), preference);
        assert(forall|k: int|
            0 <= k < common_places(before).len() ==> common_places(before)[k] == places[k]);
    } else if ends_with_insert(a, b, preference) {
        let before = diff_script::<T>(a, b.drop_last(), preference);
        assert(script.drop_last() == before);
        lemma_diff_shows_longest(a, b.drop_last(), preference);
    } else {
        let before = diff_script::<T>(a.drop_last(), b, preference);
        assert(script.drop_last() == before);
        lemma_diff_shows_longest(a.drop_last(), b, preference);
    }
}

/// Two calls of `backtrack` on one engine with one preference return the
/// same diff.
pub proof fn lemma_backtrack_repeats<'a, T: Eq>(
    lcs: &Lcs<'a, T>,
    preference: Preference,
    first: Vec<Diff<'a, T>>,
    second: Vec<Diff<'a, T>>,
)
    requires
        T::obeys_eq_spec(),
        call_ensures(Lcs::<'a, T>::backtrack, (lcs, preference), first),
        call_ensures(Lcs::<'a, T>::backtrack, (lcs, preference), second),
    ensures
        first@ == second@,
{
}

} // verus!

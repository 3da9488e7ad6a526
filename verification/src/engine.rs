//! The table of prefix lengths and the two queries on it.

use crate::diff::dest_side;
use crate::diff::source_side;
use crate::diff::Diff;
use crate::diff::Preference;
use crate::laws::lemma_diff_len;
use crate::laws::lemma_diff_restores_dest;
use crate::laws::lemma_diff_restores_source;
use crate::laws::lemma_lcs_len_is_longest;
use crate::laws::lemma_lcs_len_of_prefixes;
use crate::model::diff_script;
use crate::model::equal_is_same;
use crate::model::is_longest_common_len;
use crate::model::is_prefix_table;
use crate::model::lcs_len;
use vstd::prelude::*;
use vstd::std_specs::cmp::PartialEqSpec;

verus! {

/// Two slices and the table of the lengths of the longest common
/// subsequences of their prefixes.
pub struct Lcs<'a, T: 'a + Eq> {
    source: &'a [T],
    dest: &'a [T],
    /// `matrix[y][x]` belongs to the first `x + 1` elements of `source` and
    /// the first `y + 1` elements of `dest`. The cells of the empty prefixes
    /// are all 0 and not stored, so that no slice is too long for a table.
    matrix: Vec<Vec<usize>>,
}

/// The cell of the table for the first `x` elements of the source and the
/// first `y` elements of the destination, out of the rows that are stored.
spec fn cell_of(matrix: Seq<Vec<usize>>, x: int, y: int) -> usize {
    if x == 0 || y == 0 {
        0
    } else {
        matrix[y - 1]@[x - 1]
    }
}

impl<'a, T: 'a + Eq> Lcs<'a, T> {
    /// The sequence that diffs lead away from.
    pub closed spec fn source(&self) -> Seq<T> {
        self.source@
    }

    /// The sequence that diffs lead to.
    pub closed spec fn dest(&self) -> Seq<T> {
        self.dest@
    }

    /// The table, row by row: one row for each prefix of the destination,
    /// and in each row one cell for each prefix of the source.
    pub closed spec fn table(&self) -> Seq<Seq<usize>> {
        Seq::new(
            self.dest@.len() + 1,
            |y: int| Seq::new(self.source@.len() + 1, |x: int| cell_of(self.matrix@, x, y)),
        )
    }

    #[verifier::type_invariant]
    spec fn well_formed(&self) -> bool {
        &&& self.matrix@.len() == self.dest@.len()
        &&& forall|y: int|
            0 <= y < self.dest@.len() ==> (#[trigger] self.matrix@[y])@.len() == self.source@.len()
        &&& forall|x: int, y: int|
            0 <= x <= self.source@.len() && 0 <= y <= self.dest@.len() ==> #[trigger] cell_of(
                self.matrix@,
                x,
                y,
            ) <= x && cell_of(self.matrix@, x, y) <= y
        &&& T::obeys_eq_spec() ==> forall|x: int, y: int|
            0 <= x <= self.source@.len() && 0 <= y <= self.dest@.len() ==> #[trigger] cell_of(
                self.matrix@,
                x,
                y,
            ) == lcs_len(self.source@.take(x), self.dest@.take(y))
    }

    /// Read the cell for the first `x` elements of the source and the first
    /// `y` elements of the destination.
    fn cell(&self, x: usize, y: usize) -> (c: usize)
        requires
            x <= self.source().len(),
            y <= self.dest().len(),
        ensures
            c == self.table()[y as int][x as int],
            c == cell_of(self.matrix@, x as int, y as int),
    {
        proof {
            use_type_invariant(self);
        }
        if x == 0 || y == 0 {
            0
        } else {
            self.matrix[y - 1][x - 1]
        }
    }

    /// Pre-calculate the table for the two slices and return an instance
    /// ready to be used.
    #[verifier::loop_isolation(false)]
    pub fn new(source: &'a [T], dest: &'a [T]) -> (lcs: Self)
        ensures
            lcs.source() == source@,
            lcs.dest() == dest@,
            lcs.table().len() == dest@.len() + 1,
            forall|y: int|
                0 <= y <= dest@.len() ==> (#[trigger] lcs.table()[y]).len() == source@.len() + 1,
            T::obeys_eq_spec() ==> is_prefix_table(lcs.table(), source@, dest@),
    {
        let m: usize = source.len();
        let n: usize = dest.len();
        let mut matrix: Vec<Vec<usize>> = Vec::new();
        let mut y: usize = 0;
        while y < n
            invariant
                y <= n,
                matrix@.len() == y,
                forall|r: int| 0 <= r < y ==> (#[trigger] matrix@[r])@.len() == m,
                forall|c: int, r: int|
                    0 <= c <= m && 0 <= r <= y ==> #[trigger] cell_of(matrix@, c, r) <= c
                        && cell_of(matrix@, c, r) <= r,
                T::obeys_eq_spec() ==> forall|c: int, r: int|
                    0 <= c <= m && 0 <= r <= y ==> #[trigger] cell_of(matrix@, c, r) == lcs_len(
                        source@.take(c),
                        dest@.take(r),
                    ),
            decreases n - y,
        {
            let mut row: Vec<usize> = Vec::new();
            let mut x: usize = 0;
            while x < m
                invariant
                    x <= m,
                    row@.len() == x,
                    forall|c: int| 0 <= c < x ==> #[trigger] row@[c] <= c + 1 && row@[c] <= y + 1,
                    T::obeys_eq_spec() ==> forall|c: int|
                        0 <= c < x ==> #[trigger] row@[c] == lcs_len(
                            source@.take(c + 1),
                            dest@.take(y + 1),
                        ),
                decreases m - x,
            {
                let left: usize = if x == 0 {
                    0
                } else {
                    row[x - 1]
                };
                let above: usize = if y == 0 {
                    0
                } else {
                    matrix[y - 1][x]
                };
                let diagonal: usize = if x == 0 || y == 0 {
                    0
                } else {
                    matrix[y - 1][x - 1]
                };
                proof {
                    assert(above == cell_of(matrix@, x + 1, y as int));
                    assert(diagonal == cell_of(matrix@, x as int, y as int));
                    lemma_lcs_len_of_prefixes(source@, dest@, x + 1, y + 1);
                }
                let cell: usize = if source[x] == dest[y] {
                    diagonal + 1
                } else if left >= above {
                    left
                } else {
                    above
                };
                row.push(cell);
                x += 1;
            }
            proof {
                let rows = matrix@.push(row);
                assert forall|c: int, r: int| 0 <= c <= m && 0 <= r <= y + 1 implies #[trigger] cell_of(
                    rows,
                    c,
                    r,
                ) == if r == y + 1 && c > 0 {
                    row@[c - 1]
                } else {
                    cell_of(matrix@, c, r)
                } by {}
            }
            matrix.push(row);
            y += 1;
        }
        Lcs { source, dest, matrix }
    }

    /// Get the length of the longest common subsequences of the two slices.
    /// For "Hi!" and "Hey!" it is 2: they share 'H' and '!'.
    pub fn length(&self) -> (n: usize)
        ensures
            n == self.table()[self.dest().len() as int][self.source().len() as int],
            n <= self.source().len(),
            n <= self.dest().len(),
            T::obeys_eq_spec() ==> n == lcs_len(self.source(), self.dest()),
            T::obeys_eq_spec() ==> is_longest_common_len(n as nat, self.source(), self.dest()),
    {
        proof {
            use_type_invariant(self);
            assert(self.source@.take(self.source@.len() as int) =~= self.source@);
            assert(self.dest@.take(self.dest@.len() as int) =~= self.dest@);
            lemma_lcs_len_is_longest(self.source@, self.dest@);
        }
        self.cell(self.source.len(), self.dest.len())
    }

    /// Whether the walk back from the cell at `x` and `y`, neither of them
    /// 0, goes to the cell above, with an insertion, rather than to the cell
    /// on the left, with a deletion: it goes to the larger of the two, and
    /// where they are equal, with the kind of step that is to come second in
    /// the diff.
    fn prefers_insert(&self, x: usize, y: usize, preference: Preference) -> (insert: bool)
        requires
            0 < x <= self.source().len(),
            0 < y <= self.dest().len(),
        ensures
            insert == {
                let above = self.table()[y - 1][x as int];
                let left = self.table()[y as int][x - 1];
                above > left || (above == left && preference == Preference::DeleteFirst)
            },
    {
        let above: usize = self.cell(x, y - 1);
        let left: usize = self.cell(x - 1, y);
        above > left || (preference == Preference::DeleteFirst && above == left)
    }

    /// Backtrack a diff out of the table. Where two paths are equally long,
    /// it takes the one that the given preference asks for: "abc" to "acb"
    /// is "a -b c +b" with deletion first and "a +c b -c" with insertion
    /// first.
    pub fn backtrack(&self, preference: Preference) -> (script: Vec<Diff<T>>)
        ensures
            T::obeys_eq_spec() ==> script@ == diff_script(self.source(), self.dest(), preference),
            T::obeys_eq_spec() ==> script@.len() == self.source().len() + self.dest().len()
                - lcs_len(self.source(), self.dest()),
            T::obeys_eq_spec() ==> source_side(script@) == self.source(),
            T::obeys_eq_spec() && equal_is_same(self.source(), self.dest()) ==> dest_side(script@)
                == self.dest(),
    {
        proof {
            use_type_invariant(self);
            lemma_diff_len::<T>(self.source@, self.dest@, preference);
            lemma_diff_restores_source::<T>(self.source@, self.dest@, preference);
            if equal_is_same(self.source@, self.dest@) {
                lemma_diff_restores_dest::<T>(self.source@, self.dest@, preference);
            }
            assert(self.source@.take(self.source@.len() as int) == self.source@);
            assert(self.dest@.take(self.dest@.len() as int) == self.dest@);
        }
        let mut track: Vec<Diff<T>> = Vec::new();
        let mut y: usize = self.dest.len();
        let mut x: usize = self.source.len();
        while y > 0 || x > 0
            invariant
                self.well_formed(),
                x <= self.source@.len(),
                y <= self.dest@.len(),
                T::obeys_eq_spec() ==> diff_script(self.source@, self.dest@, preference)
                    == diff_script(
                    self.source@.take(x as int),
                    self.dest@.take(y as int),
                    preference,
                ) + track@.reverse(),
            decreases x + y,
        {
            proof {
                // The diff of the two prefixes ends with the step taken
                // below, and what stands before it is the diff of the
                // prefixes that are left.
                if x > 0 {
                    assert(self.source@.take(x as int).drop_last() == self.source@.take(x - 1));
                }
                if y > 0 {
                    assert(self.dest@.take(y as int).drop_last() == self.dest@.take(y - 1));
                }
            }
            if x > 0 && y > 0 && self.source[x - 1] == self.dest[y - 1] {
                x -= 1;
                y -= 1;
                track.push(Diff::Common(&self.source[x]));
            } else if x == 0 || (y > 0 && self.prefers_insert(x, y, preference)) {
                y -= 1;
                track.push(Diff::Insert(&self.dest[y]));
            } else {
                x -= 1;
                track.push(Diff::Delete(&self.source[x]));
            }
        }
        reversed(track)
    }
}

impl<'a, T: 'a + Eq> Clone for Lcs<'a, T> {
    /// A second engine on the same two slices, with a table of its own.
    fn clone(&self) -> (copy: Self)
        ensures
            copy.source() == self.source(),
            copy.dest() == self.dest(),
            copy.table() == self.table(),
    {
        proof {
            use_type_invariant(self);
        }
        let matrix: Vec<Vec<usize>> = self.matrix.clone();
        proof {
            // Each row is cloned cell by cell, so each cell is the one it was.
            assert forall|y: int| 0 <= y < matrix@.len() implies #[trigger] matrix@[y]@
                == self.matrix@[y]@ by {}
            assert forall|x: int, y: int|
                0 <= x <= self.source@.len() && 0 <= y <= self.dest@.len() implies #[trigger] cell_of(
                matrix@,
                x,
                y,
            ) == cell_of(self.matrix@, x, y) by {}
        }
        let copy = Lcs { source: self.source, dest: self.dest, matrix };
        assert(copy.table() =~~= self.table());
        copy
    }
}

/// The elements of `track`, last to first.
fn reversed<E>(track: Vec<E>) -> (out: Vec<E>)
    ensures
        out@ == track@.reverse(),
{
    let ghost all = track@;
    let mut track = track;
    let mut out: Vec<E> = Vec::new();
    while track.len() > 0
        invariant
            track@.len() + out@.len() == all.len(),
            track@ == all.take(track@.len() as int),
            forall|i: int| 0 <= i < out@.len() ==> out@[i] == all[all.len() - 1 - i],
        decreases track@.len(),
    {
        let last = track.pop();
        if let Some(e) = last {
            out.push(e);
        }
    }
    out
}

} // verus!

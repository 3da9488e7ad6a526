//! The steps a diff is made of, and the choice between equally good diffs.

use vstd::prelude::*;

verus! {

/// Which of two equally long paths a diff prefers.
///
/// "abc" to "acb" is either "a -b c +b" (deletion first) or "a +c b -c"
/// (insertion first): both keep two elements.
#[derive(Clone, Copy, Debug, PartialEq, Eq, Hash, Structural)]
pub enum Preference {
    /// Show what was deleted before what was inserted.
    DeleteFirst,
    /// Show what was inserted before what was deleted.
    InsertFirst,
}

/// One step of a diff: an element of one of the two sequences, and what
/// became of it.
#[derive(Clone, Copy, Debug, PartialEq, Eq, Hash)]
pub enum Diff<'a, T: 'a + Eq> {
    /// The element stands in both sequences. The reference is to the one in
    /// the source.
    Common(&'a T),
    /// The element stands in the source only.
    Delete(&'a T),
    /// The element stands in the destination only.
    Insert(&'a T),
}

/// The elements that a diff takes from the source: those of its `Common` and
/// `Delete` steps, in order.
pub open spec fn source_side<'a, T: Eq>(script: Seq<Diff<'a, T>>) -> Seq<T>
    decreases script.len(),
{
    if script.len() == 0 {
        Seq::empty()
    } else {
        let before = source_side(script.drop_last());
        match script.last() {
            Diff::Common(e) => before.push(*e),
            Diff::Delete(e) => before.push(*e),
            Diff::Insert(_) => before,
        }
    }
}

/// The elements that a diff gives to the destination: those of its `Common`
/// and `Insert` steps, in order.
pub open spec fn dest_side<'a, T: Eq>(script: Seq<Diff<'a, T>>) -> Seq<T>
    decreases script.len(),
{
    if script.len() == 0 {
        Seq::empty()
    } else {
        let before = dest_side(script.drop_last());
        match script.last() {
            Diff::Common(e) => before.push(*e),
            Diff::Delete(_) => before,
            Diff::Insert(e) => before.push(*e),
        }
    }
}

/// The number of `Common` steps in a diff.
pub open spec fn common_count<'a, T: Eq>(script: Seq<Diff<'a, T>>) -> nat
    decreases script.len(),
{
    if script.len() == 0 {
        0
    } else {
        let before = common_count(script.drop_last());
        match script.last() {
            Diff::Common(_) => before + 1,
            _ => before,
        }
    }
}

/// Where the `Common` steps of a diff stand in the two sequences: for each
/// of them, in order, the number of source elements and the number of
/// destination elements that the diff holds before it.
pub open spec fn common_places<'a, T: Eq>(script: Seq<Diff<'a, T>>) -> Seq<(int, int)>
    decreases script.len(),
{
    if script.len() == 0 {
        Seq::empty()
    } else {
        let before = script.drop_last();
        match script.last() {
            Diff::Common(_) => common_places(before).push(
                (source_side(before).len() as int, dest_side(before).len() as int),
            ),
            _ => common_places(before),
        }
    }
}

} // verus!

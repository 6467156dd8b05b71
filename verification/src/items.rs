//! Lists of values and copies that are equal in view to what they were made from.

use vstd::prelude::*;

verus! {

/// A value of which an equal copy can be made.
pub trait Duplicate: View + Sized {
    /// A copy with the same view.
    fn duplicate(&self) -> (copy: Self)
        ensures
            copy@ == self@,
    ;
}

impl Duplicate for String {
    fn duplicate(&self) -> (copy: Self) {
        self.clone()
    }
}

/// The views of the items of a list.
pub open spec fn views<T: View>(items: Seq<T>) -> Seq<T::V> {
    items.map_values(|item: T| item@)
}

/// A copy of `items`, each item equal in view to its original.
pub fn duplicate_all<T: Duplicate>(items: &Vec<T>) -> (copies: Vec<T>)
    ensures
        views(copies@) == views(items@),
{
    let mut copies: Vec<T> = Vec::with_capacity(items.len());
    let mut i: usize = 0;
    while i < items.len()
        invariant
            i <= items@.len(),
            views(copies@) == views(items@).take(i as int),
        decreases items@.len() - i,
    {
        let ghost before = views(copies@);
        copies.push(items[i].duplicate());
        assert(views(copies@) =~= before.push(items@[i as int]@));
        i = i + 1;
        assert(views(copies@) =~= views(items@).take(i as int));
    }
    assert(views(items@).take(i as int) =~= views(items@));
    copies
}

} // verus!

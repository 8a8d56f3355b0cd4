//! A sequence of one item.

use vstd::prelude::*;

verus! {

/// Yields one item once.
pub struct OneShot<'a, T> {
    pub item: &'a T,
    pub yielded: bool,
}

impl<'a, T> OneShot<'a, T> {
    /// A sequence that has yet to yield its item.
    pub fn new(item: &'a T) -> (r: Self)
        ensures
            r.item == item,
            !r.yielded,
    {
        Self { item, yielded: false }
    }

    /// The item, the first time; nothing after that.
    pub fn next(&mut self) -> (r: Option<&'a T>)
        ensures
            final(self).yielded,
            final(self).item == old(self).item,
            !old(self).yielded ==> r == Some(old(self).item),
            old(self).yielded ==> r is None,
    {
        if !self.yielded {
            self.yielded = true;
            Some(self.item)
        } else {
            None
        }
    }
}

} // verus!

//! Exact copies of values, for rows that are kept in one place and handed
//! out in another.

use vstd::prelude::*;

verus! {

/// A copy that is equal to the original.
pub trait Duplicate: Sized {
    fn duplicate(&self) -> (copy: Self)
        ensures
            copy == *self,
    ;
}

impl Duplicate for String {
    fn duplicate(&self) -> (copy: Self) {
        self.clone()
    }
}

impl<'a> Duplicate for &'a str {
    fn duplicate(&self) -> (copy: Self) {
        *self
    }
}

impl Duplicate for u64 {
    fn duplicate(&self) -> (copy: Self) {
        *self
    }
}

impl<T: Duplicate> Duplicate for Option<T> {
    fn duplicate(&self) -> (copy: Self) {
        match self {
            Some(value) => Some(value.duplicate()),
            None => None,
        }
    }
}

/// A copy of every element of `items`.
pub fn duplicate_vec<T: Duplicate>(items: &Vec<T>) -> (copy: Vec<T>)
    ensures
        copy@ == items@,
{
    let mut copy: Vec<T> = Vec::new();
    let mut index: usize = 0;
    while index < items.len()
        invariant
            index <= items@.len(),
            copy@ == items@.subrange(0, index as int),
        decreases items@.len() - index,
    {
        copy.push(items[index].duplicate());
        assert(items@.subrange(0, index + 1) =~= items@.subrange(0, index as int).push(items@[index as int]));
        index = index + 1;
    }
    assert(items@.subrange(0, items@.len() as int) =~= items@);
    copy
}

} // verus!

//! Walking a slice with one element of context on either side.

use vstd::prelude::*;

verus! {

/// A cursor over a slice that yields each element between its neighbours.
pub struct TripleIter<'a, T> {
    pub inner: &'a [T],
    pub len: usize,
    pub count: usize,
}

/// The element at `count` among the first `len` of `s`, with the element in
/// front of it and the one behind it where they exist.
pub open spec fn triple_at<T>(s: Seq<T>, len: int, count: int) -> (Option<T>, Option<T>, Option<T>) {
    (
        if count == 0 {
            None
        } else {
            Some(s[count - 1])
        },
        Some(s[count]),
        if count + 1 < len {
            Some(s[count + 1])
        } else {
            None
        },
    )
}

/// The values behind three optional references.
pub open spec fn triple_values<T>(t: (Option<&T>, Option<&T>, Option<&T>)) -> (
    Option<T>,
    Option<T>,
    Option<T>,
) {
    (
        match t.0 {
            Some(x) => Some(*x),
            None => None,
        },
        match t.1 {
            Some(x) => Some(*x),
            None => None,
        },
        match t.2 {
            Some(x) => Some(*x),
            None => None,
        },
    )
}

impl<'a, T> TripleIter<'a, T> {
    /// Yields the next element with its neighbours, or nothing once `count`
    /// has reached `len`. The element and, where `len` lets it be looked at,
    /// the one behind it must lie in the slice.
    pub fn next(&mut self) -> (r: Option<(Option<&'a T>, Option<&'a T>, Option<&'a T>)>)
        requires
            old(self).count < old(self).len ==> {
                &&& old(self).count < old(self).inner@.len()
                &&& old(self).count + 1 < old(self).len ==> old(self).count + 1 < old(
                    self,
                ).inner@.len()
            },
        ensures
            final(self).inner == old(self).inner,
            final(self).len == old(self).len,
            old(self).count >= old(self).len ==> r is None && final(self).count == old(
                self,
            ).count,
            old(self).count < old(self).len ==> final(self).count == old(self).count + 1
                && r is Some && triple_values(r->0) == triple_at(
                old(self).inner@,
                old(self).len as int,
                old(self).count as int,
            ),
    {
        if self.count >= self.len {
            return None;
        }
        let inner: &'a [T] = self.inner;
        let prev: Option<&'a T> = if self.count == 0 {
            None
        } else {
            Some(&inner[self.count - 1])
        };
        let current: Option<&'a T> = Some(&inner[self.count]);
        let next: Option<&'a T> = if self.count + 1 < self.len {
            Some(&inner[self.count + 1])
        } else {
            None
        };
        self.count += 1;
        Some((prev, current, next))
    }
}

} // verus!

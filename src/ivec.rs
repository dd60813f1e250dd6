//! A vector with a cursor that cycles through its elements.
use vstd::prelude::*;

verus! {

/// A vector and a cursor; the cursor is read modulo the length.
#[derive(Debug)]
pub struct IVec<T> {
    /// The elements.
    pub vec: Vec<T>,
    /// The cursor.
    pub i: usize,
}

impl<T> IVec<T> {
    /// An empty vector with the cursor at the start.
    pub fn new() -> (r: Self)
        ensures
            r.vec@.len() == 0,
            r.i == 0,
    {
        IVec { vec: Vec::new(), i: 0 }
    }

    /// The position the cursor designates.
    fn get_i(&self) -> (r: usize)
        requires
            self.vec@.len() > 0,
        ensures
            r as int == self.i as int % self.vec@.len() as int,
            r < self.vec@.len(),
    {
        self.i % self.vec.len()
    }

    /// Moves the cursor to `i`, modulo the length.
    fn set_i(&mut self, i: usize)
        requires
            old(self).vec@.len() > 0,
        ensures
            final(self).vec == old(self).vec,
            final(self).i == i % (old(self).vec@.len() as usize),
    {
        self.i = i % self.vec.len();
    }

    /// Moves the cursor `i` places forward, cycling.
    fn plus_i(&mut self, i: usize)
        requires
            old(self).vec@.len() > 0,
        ensures
            final(self).vec == old(self).vec,
            final(self).i as int == (old(self).i as int + i as int) % (old(self).vec@.len() as int),
    {
        let n = self.vec.len();
        let a = self.i % n;
        let b = i % n;
        let s = if a >= n - b {
            a - (n - b)
        } else {
            a + b
        };
        proof {
            let ni = n as int;
            vstd::arithmetic::div_mod::lemma_add_mod_noop(self.i as int, i as int, ni);
            if a >= n - b {
                assert(((a + b) as int) % ni == (a as int + b as int - ni)) by (nonlinear_arith)
                    requires a < ni, b < ni, a as int + b as int >= ni;
            } else {
                assert(((a + b) as int) % ni == a as int + b as int) by (nonlinear_arith)
                    requires a + b < ni, a >= 0, b >= 0;
            }
        }
        self.i = s;
    }

    /// The element under the cursor.
    pub fn get(&self) -> (r: &T)
        requires
            self.vec@.len() > 0,
        ensures
            *r == self.vec@[self.i as int % self.vec@.len() as int],
    {
        &self.vec[self.get_i()]
    }

    /// The element under the cursor, to change in place.
    pub fn get_mut(&mut self) -> (r: &mut T)
        requires
            old(self).vec@.len() > 0,
        ensures
            *r == old(self).vec@[old(self).i as int % old(self).vec@.len() as int],
            final(self).i == old(self).i,
            final(self).vec@ == old(self).vec@.update(
                old(self).i as int % old(self).vec@.len() as int,
                *final(r),
            ),
    {
        let i = self.get_i();
        &mut self.vec[i]
    }

    /// Replaces the element under the cursor.
    pub fn set(&mut self, t: T)
        requires
            old(self).vec@.len() > 0,
        ensures
            final(self).i == old(self).i,
            final(self).vec@ == old(self).vec@.update(
                old(self).i as int % old(self).vec@.len() as int,
                t,
            ),
    {
        let i = self.get_i();
        self.vec.set(i, t);
    }

    /// Moves to the next element, cycling, and returns it.
    pub fn next(&mut self) -> (r: &T)
        requires
            old(self).vec@.len() > 0,
        ensures
            final(self).vec == old(self).vec,
            final(self).i as int == (old(self).i as int + 1) % (old(self).vec@.len() as int),
            *r == final(self).vec@[final(self).i as int],
    {
        self.plus_i(1);
        &self.vec[self.i]
    }

    /// Moves to the previous element, cycling, and returns it.
    pub fn prev(&mut self) -> (r: &T)
        requires
            old(self).vec@.len() > 0,
        ensures
            final(self).vec == old(self).vec,
            final(self).i as int == (old(self).i as int + old(self).vec@.len() - 1) % (old(
                self,
            ).vec@.len() as int),
            *r == final(self).vec@[final(self).i as int],
    {
        let n = self.vec.len();
        self.plus_i(n - 1);
        &self.vec[self.i]
    }

    /// Moves to element `i`, modulo the length, and returns it.
    pub fn to(&mut self, i: usize) -> (r: &T)
        requires
            old(self).vec@.len() > 0,
        ensures
            final(self).vec == old(self).vec,
            final(self).i == i % (old(self).vec@.len() as usize),
            *r == final(self).vec@[final(self).i as int],
    {
        self.set_i(i);
        &self.vec[self.i]
    }
}

impl<T> From<Vec<T>> for IVec<T> {
    fn from(vec: Vec<T>) -> (r: Self)
        ensures
            r.vec == vec,
            r.i == 0,
    {
        IVec { vec, i: 0 }
    }
}

impl<T> vstd::std_specs::convert::FromSpecImpl<Vec<T>> for IVec<T> {
    open spec fn obeys_from_spec() -> bool {
        true
    }

    open spec fn from_spec(v: Vec<T>) -> Self {
        IVec { vec: v, i: 0 }
    }
}

impl<T> From<IVec<T>> for Vec<T> {
    fn from(ivec: IVec<T>) -> (r: Self)
        ensures
            r == ivec.vec,
    {
        ivec.vec
    }
}

impl<T> vstd::std_specs::convert::FromSpecImpl<IVec<T>> for Vec<T> {
    open spec fn obeys_from_spec() -> bool {
        true
    }

    open spec fn from_spec(v: IVec<T>) -> Self {
        v.vec
    }
}

impl Default for IVec<usize> {
    fn default() -> (r: Self)
        ensures
            r.vec@.len() == 0,
            r.i == 0,
    {
        IVec::new()
    }
}

} // verus!

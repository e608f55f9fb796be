use vstd::prelude::*;

verus! {

/// A pair of coordinates over the scalar type `N`.
#[derive(Debug)]
pub struct Vec2<N>(pub N, pub N);

impl<N: Copy> Copy for Vec2<N> {

}

impl<N: Copy> Clone for Vec2<N> {
    fn clone(&self) -> (r: Self)
        ensures
            r == *self,
    {
        *self
    }
}

impl<N: Copy> Vec2<N> {
    /// A vector with the components of `copy`.
    pub fn new_from_copy(copy: &Vec2<N>) -> (r: Vec2<N>)
        ensures
            r == *copy,
    {
        Vec2(copy.0, copy.1)
    }

    /// Sets this vector to another one.
    pub fn set(&mut self, target: &Vec2<N>)
        ensures
            *final(self) == *target,
    {
        self.0 = target.0;
        self.1 = target.1;
    }
}

} // verus!

//! The geometry that has been stored for drawing, and references to it

use vstd::prelude::*;

use std::marker::PhantomData;

verus! {

/// A reference to a model stored in a [`GeometryCache`]. It is bound to the lifetime of the
/// cache it came from.
#[derive(Debug, Clone, Copy, PartialEq, Eq, Hash)]
pub struct ModelRef<'a> {
    index: usize,
    /// Used to avoid an unused lifetime error. Allows the ModelRef to be bound to the
    /// lifetime of the render context.
    _lifetime: PhantomData<&'a ()>,
}

impl<'a> ModelRef<'a> {
    /// The position of the referenced model in its cache
    pub closed spec fn index(self) -> usize {
        self.index
    }

    fn new(index: usize) -> (model: Self)
        ensures
            model.index() == index,
    {
        Self { index, _lifetime: PhantomData }
    }
}

/// This struct manages the geometry stored for drawing, as models `M`
///
/// The goal is to avoid storing more than necessary and, if possible, remove geometry once it
/// is no longer going to be used.
#[derive(Debug)]
pub struct GeometryCache<M> {
    models: Vec<M>,
}

impl<M> GeometryCache<M> {
    /// The models stored so far, in the order they were stored
    pub closed spec fn view(&self) -> Seq<M> {
        self.models@
    }

    /// An empty cache
    pub fn new() -> (cache: Self)
        ensures
            cache.view() == Seq::<M>::empty(),
    {
        GeometryCache { models: Vec::new() }
    }

    /// The model that the reference refers to
    pub fn model(&self, model: ModelRef) -> (m: &M)
        requires
            model.index() < self.view().len(),
        ensures
            *m == self.view()[model.index() as int],
    {
        &self.models[model.index]
    }

    /// Stores a model and returns a reference to it
    pub fn insert_model<'a>(&'a mut self, model: M) -> (r: ModelRef<'a>)
        ensures
            final(self).view() == old(self).view().push(model),
            r.index() == old(self).view().len(),
    {
        self.models.push(model);
        ModelRef::new(self.models.len() - 1)
    }
}

} // verus!

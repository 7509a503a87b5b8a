use vstd::prelude::*;

use crate::error::RenderError;

verus! {

/// Handle of a shape in a world: its position in the order of addition.
/// Shapes are never removed, so a handle stays valid for the world's life.
#[derive(Debug, Clone, Copy, PartialEq, Eq, Structural)]
pub struct ShapeId {
    pub index: usize,
}

/// What a world holds: its shapes in the order they were added, and its
/// light sources.
pub struct WorldView<S, L> {
    pub objects: Seq<S>,
    pub sources: Seq<L>,
}

/// The shapes and light sources of a scene. Intersections refer to a shape
/// by its `ShapeId`.
pub struct World<S, L> {
    objects: Vec<S>,
    sources: Vec<L>,
}

impl<S, L> View for World<S, L> {
    type V = WorldView<S, L>;

    closed spec fn view(&self) -> WorldView<S, L> {
        WorldView { objects: self.objects@, sources: self.sources@ }
    }
}

impl<S, L> World<S, L> {
    /// A world without shapes and lights.
    pub fn new() -> (r: Self)
        ensures
            r@.objects == Seq::<S>::empty(),
            r@.sources == Seq::<L>::empty(),
    {
        World { objects: Vec::new(), sources: Vec::new() }
    }

    /// Adds a shape and returns its handle.
    pub fn add_obj(&mut self, obj: S) -> (id: ShapeId)
        ensures
            final(self)@.objects == old(self)@.objects.push(obj),
            final(self)@.sources == old(self)@.sources,
            id.index == old(self)@.objects.len(),
    {
        let index: usize = self.objects.len();
        self.objects.push(obj);
        ShapeId { index }
    }

    /// Adds shapes in their order and returns their handles, in that order.
    pub fn add_objs(&mut self, objs: Vec<S>) -> (ids: Vec<ShapeId>)
        ensures
            final(self)@.objects == old(self)@.objects + objs@,
            final(self)@.sources == old(self)@.sources,
            ids@.len() == objs@.len(),
            forall|i: int|
                0 <= i < ids@.len() ==> #[trigger] ids@[i].index == old(self)@.objects.len() + i,
    {
        let first: usize = self.objects.len();
        let n: usize = objs.len();
        let mut objs = objs;
        self.objects.append(&mut objs);
        let total: usize = self.objects.len();
        let mut ids: Vec<ShapeId> = Vec::with_capacity(n);
        let mut i: usize = 0;
        while i < n
            invariant
                i <= n,
                first + n == total,
                ids@.len() == i,
                forall|j: int| 0 <= j < i ==> #[trigger] ids@[j].index == first + j,
            decreases n - i,
        {
            ids.push(ShapeId { index: first + i });
            i += 1;
        }
        ids
    }

    /// Adds a light source.
    pub fn add_src(&mut self, src: L)
        ensures
            final(self)@.objects == old(self)@.objects,
            final(self)@.sources == old(self)@.sources.push(src),
    {
        self.sources.push(src);
    }

    /// The shape behind a handle, if the world has it.
    pub fn object(&self, id: ShapeId) -> (r: Option<&S>)
        ensures
            id.index < self@.objects.len() ==> r == Some(&self@.objects[id.index as int]),
            id.index >= self@.objects.len() ==> r is None,
    {
        if id.index < self.objects.len() {
            Some(&self.objects[id.index])
        } else {
            None
        }
    }

    /// The shapes, in the order they were added.
    pub fn objects(&self) -> (r: &Vec<S>)
        ensures
            r@ == self@.objects,
    {
        &self.objects
    }

    /// The light sources, in the order they were added.
    pub fn sources(&self) -> (r: &Vec<L>)
        ensures
            r@ == self@.sources,
    {
        &self.sources
    }

    /// The light that shading uses: a world must have exactly one.
    pub fn light(&self) -> (r: Result<&L, RenderError>)
        ensures
            self@.sources.len() == 1 ==> r == Ok::<&L, RenderError>(&self@.sources[0]),
            self@.sources.len() != 1 ==> r == Err::<&L, RenderError>(
                RenderError::LightCount { found: self@.sources.len() as usize },
            ),
    {
        if self.sources.len() == 1 {
            Ok(&self.sources[0])
        } else {
            Err(RenderError::LightCount { found: self.sources.len() })
        }
    }
}

} // verus!

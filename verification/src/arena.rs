use crate::aabb::AABB;
use crate::hittable::share;
use crate::hittable::HitRecord;
use crate::hittable::Hittable;
use crate::ray::Ray;
use crate::scalar::Scalar;
use generational_arena::Arena;
use generational_arena::Index;
use std::sync::Arc;
use vstd::prelude::*;

verus! {

/// `generational_arena::Arena`, of which nothing is known here but what the
/// functions below say of it.
#[verifier::external_type_specification]
#[verifier::external_body]
#[verifier::reject_recursive_types(T)]
pub struct ExArena<T>(Arena<T>);

/// `generational_arena::Index`, the name that an arena gives to a value: a
/// slot and the generation in which the slot was filled. Nothing is known
/// here of what is inside it.
#[verifier::external_type_specification]
#[verifier::external_body]
pub struct ExIndex(Index);

/// What a `generational_arena::Arena` of numbers holds: the number behind
/// every index that is alive.
pub uninterp spec fn slots(arena: Arena<usize>) -> Map<Index, usize>;

/// The indices that a `generational_arena::Arena` has given out and taken
/// back: those whose value was removed. A slot that is filled again is
/// filled in a later generation, so that none of them is ever given out
/// again.
pub uninterp spec fn spent(arena: Arena<usize>) -> Set<Index>;

/// `Arena::new`: an arena that holds nothing and has given out nothing.
#[verifier::external_body]
fn arena_new() -> (r: Arena<usize>)
    ensures
        slots(r).dom() =~= Set::empty(),
        spent(r) =~= Set::empty(),
{
    Arena::new()
}

/// `Arena::insert`: the value goes into a free slot, under an index that is
/// not alive and was never given out before; nothing else changes.
#[verifier::external_body]
fn arena_insert(arena: &mut Arena<usize>, value: usize) -> (r: Index)
    ensures
        !slots(*old(arena)).dom().contains(r),
        !spent(*old(arena)).contains(r),
        slots(*final(arena)) == slots(*old(arena)).insert(r, value),
        spent(*final(arena)) == spent(*old(arena)),
{
    arena.insert(value)
}

/// `Arena::get`: the value behind an index, if the index is alive.
#[verifier::external_body]
fn arena_get(arena: &Arena<usize>, i: Index) -> (r: Option<usize>)
    ensures
        r == (if slots(*arena).dom().contains(i) {
            Some(slots(*arena)[i])
        } else {
            None
        }),
{
    arena.get(i).copied()
}

/// `Arena::remove`: takes out the value behind an index, if the index is
/// alive, and the index is spent from then on; nothing else changes.
#[verifier::external_body]
fn arena_remove(arena: &mut Arena<usize>, i: Index) -> (r: Option<usize>)
    ensures
        r == (if slots(*old(arena)).dom().contains(i) {
            Some(slots(*old(arena))[i])
        } else {
            None
        }),
        slots(*final(arena)) == slots(*old(arena)).remove(i),
        spent(*final(arena)) == (if slots(*old(arena)).dom().contains(i) {
            spent(*old(arena)).insert(i)
        } else {
            spent(*old(arena))
        }),
{
    arena.remove(i)
}

/// `Arena::iter`: every index that is alive, once, in no order that is
/// promised.
#[verifier::external_body]
fn arena_indices(arena: &Arena<usize>) -> (r: Vec<Index>)
    ensures
        r@.no_duplicates(),
        forall|i: Index| r@.contains(i) <==> slots(*arena).dom().contains(i),
{
    arena.iter().map(|(i, _)| i).collect()
}

/// Values under indices that stay good until the value is removed. The
/// arena gives out the indices and keeps, behind each, the place where the
/// value stands in `items`; places that have been given up are used again.
struct Shelf<T> {
    arena: Arena<usize>,
    items: Vec<Option<T>>,
    free: Vec<usize>,
}

impl<T> Shelf<T> {
    /// The shelf is in order: every index that is alive leads to a value of
    /// its own, and the places to be used again are empty.
    closed spec fn wf(self) -> bool {
        let places = slots(self.arena);
        &&& forall|i: Index|
            places.dom().contains(i) ==> (#[trigger] places[i]) < self.items@.len()
                && self.items@[places[i] as int] is Some
        &&& forall|i: Index, j: Index|
            places.dom().contains(i) && places.dom().contains(j) && i != j ==> (
            #[trigger] places[i]) != (#[trigger] places[j])
        &&& forall|k: int|
            0 <= k < self.free@.len() ==> (#[trigger] self.free@[k]) < self.items@.len()
                && self.items@[self.free@[k] as int] is None
        &&& self.free@.no_duplicates()
        &&& forall|i: Index| !(places.dom().contains(i) && #[trigger] spent(self.arena).contains(i))
    }

    /// The indices whose value was removed.
    closed spec fn retired(self) -> Set<Index> {
        spent(self.arena)
    }

    /// The values on the shelf, each under its index.
    closed spec fn view(self) -> Map<Index, T> {
        Map::new(
            |i: Index| slots(self.arena).dom().contains(i),
            |i: Index| self.items@[slots(self.arena)[i] as int].unwrap(),
        )
    }

    proof fn lemma_retired_stays_away(self)
        requires
            self.wf(),
        ensures
            forall|i: Index| self.retired().contains(i) ==> !self@.dom().contains(i),
    {
    }

    fn new() -> (r: Shelf<T>)
        ensures
            r.wf(),
            r@ == Map::<Index, T>::empty(),
            r.retired() == Set::<Index>::empty(),
    {
        let r = Shelf { arena: arena_new(), items: Vec::new(), free: Vec::new() };
        assert(r@ =~= Map::<Index, T>::empty());
        r
    }

    fn insert(&mut self, item: T) -> (index: Index)
        requires
            old(self).wf(),
        ensures
            final(self).wf(),
            !old(self)@.dom().contains(index),
            !old(self).retired().contains(index),
            final(self)@ == old(self)@.insert(index, item),
            final(self).retired() == old(self).retired(),
    {
        let place = match self.free.pop() {
            Some(place) => {
                self.items.set(place, Some(item));
                place
            },
            None => {
                self.items.push(Some(item));
                self.items.len() - 1
            },
        };
        let index = arena_insert(&mut self.arena, place);
        assert(self@ =~= old(self)@.insert(index, item));
        index
    }

    fn get(&self, index: Index) -> (r: Option<&T>)
        requires
            self.wf(),
        ensures
            match r {
                Some(item) => self@.dom().contains(index) && *item == self@[index],
                None => !self@.dom().contains(index),
            },
    {
        match arena_get(&self.arena, index) {
            Some(place) => self.items[place].as_ref(),
            None => None,
        }
    }

    fn get_mut(&mut self, index: Index) -> (r: Option<&mut T>)
        requires
            old(self).wf(),
        ensures
            match r {
                Some(item) => old(self)@.dom().contains(index) && *item == old(self)@[index]
                    && final(self)@ == old(self)@.insert(index, *final(item)) && final(self).wf(),
                None => !old(self)@.dom().contains(index) && *final(self) == *old(self),
            },
            final(self).retired() == old(self).retired(),
    {
        match arena_get(&self.arena, index) {
            Some(place) => self.items[place].as_mut(),
            None => None,
        }
    }

    fn remove(&mut self, index: Index) -> (r: Option<T>)
        requires
            old(self).wf(),
        ensures
            match r {
                Some(item) => old(self)@.dom().contains(index) && item == old(self)@[index],
                None => !old(self)@.dom().contains(index),
            },
            final(self).wf(),
            final(self)@ == old(self)@.remove(index),
            final(self).retired() == (if old(self)@.dom().contains(index) {
                old(self).retired().insert(index)
            } else {
                old(self).retired()
            }),
    {
        match arena_remove(&mut self.arena, index) {
            Some(place) => {
                let item = self.items[place].take();
                self.free.push(place);
                assert(self@ =~= old(self)@.remove(index));
                item
            },
            None => {
                assert(self@ =~= old(self)@.remove(index));
                None
            },
        }
    }

    fn indices(&self) -> (r: Vec<Index>)
        ensures
            r@.no_duplicates(),
            forall|i: Index| r@.contains(i) <==> self@.dom().contains(i),
    {
        arena_indices(&self.arena)
    }
}

/// The name of a material in a `MaterialArena`.
#[derive(PartialEq, Eq, Clone, Debug, Copy, Hash)]
pub struct MaterialHandle {
    pub handle: Index,
}

/// Shared materials under handles that stay good until the material is
/// removed.
pub struct MaterialArena<M> {
    shelf: Shelf<Arc<M>>,
}

impl<M> MaterialArena<M> {
    /// The arena is in order.
    pub closed spec fn wf(self) -> bool {
        self.shelf.wf()
    }

    /// The handles whose material was removed. None of them names anything
    /// again, whatever is put into the arena later.
    pub closed spec fn retired(self) -> Set<MaterialHandle> {
        Set::new(|h: MaterialHandle| self.shelf.retired().contains(h.handle))
    }

    /// A handle whose material was removed names nothing.
    pub proof fn lemma_retired_stays_away(self)
        requires
            self.wf(),
        ensures
            forall|h: MaterialHandle| self.retired().contains(h) ==> !self@.dom().contains(h),
    {
        self.shelf.lemma_retired_stays_away();
    }

    /// The materials in the arena, each under its handle.
    pub closed spec fn view(self) -> Map<MaterialHandle, Arc<M>> {
        Map::new(
            |h: MaterialHandle| self.shelf@.dom().contains(h.handle),
            |h: MaterialHandle| self.shelf@[h.handle],
        )
    }

    pub fn new() -> (r: MaterialArena<M>)
        ensures
            r.wf(),
            r@ == Map::<MaterialHandle, Arc<M>>::empty(),
            r.retired() == Set::<MaterialHandle>::empty(),
    {
        let r = MaterialArena { shelf: Shelf::new() };
        assert(r@ =~= Map::<MaterialHandle, Arc<M>>::empty());
        assert(r.retired() =~= Set::<MaterialHandle>::empty());
        r
    }

    /// Puts `item` into the arena, under a handle that named nothing before.
    pub fn insert(&mut self, item: Arc<M>) -> (handle: MaterialHandle)
        requires
            old(self).wf(),
        ensures
            final(self).wf(),
            !old(self)@.dom().contains(handle),
            !old(self).retired().contains(handle),
            final(self)@ == old(self)@.insert(handle, item),
            final(self).retired() == old(self).retired(),
    {
        let handle = MaterialHandle { handle: self.shelf.insert(item) };
        assert(self@ =~= old(self)@.insert(handle, item));
        assert(self.retired() =~= old(self).retired());
        handle
    }

    /// The material under `index`, if there is one.
    pub fn get(&self, index: MaterialHandle) -> (r: Option<&Arc<M>>)
        requires
            self.wf(),
        ensures
            match r {
                Some(item) => self@.dom().contains(index) && *item == self@[index],
                None => !self@.dom().contains(index),
            },
    {
        self.shelf.get(index.handle)
    }

    /// The material under `index`, to be changed in its place, if there is one.
    pub fn get_mut(&mut self, index: MaterialHandle) -> (r: Option<&mut Arc<M>>)
        requires
            old(self).wf(),
        ensures
            match r {
                Some(item) => old(self)@.dom().contains(index) && *item == old(self)@[index]
                    && final(self)@ == old(self)@.insert(index, *final(item)) && final(self).wf(),
                None => !old(self)@.dom().contains(index) && *final(self) == *old(self),
            },
            final(self).retired() == old(self).retired(),
    {
        self.shelf.get_mut(index.handle)
    }

    /// All materials in the arena, each once, with their handles.
    pub fn iter(&self) -> (r: Vec<(MaterialHandle, &Arc<M>)>)
        requires
            self.wf(),
        ensures
            forall|k: int| 0 <= k < r@.len() ==> self@.dom().contains((#[trigger] r@[k]).0)
                && *r@[k].1 == self@[r@[k].0],
            forall|j: int, k: int| 0 <= j < k < r@.len() ==> r@[j].0 != r@[k].0,
            forall|h: MaterialHandle|
                self@.dom().contains(h) ==> exists|k: int| 0 <= k < r@.len() && (#[trigger] r@[k]).0 == h,
    {
        let indices = self.shelf.indices();
        let mut out: Vec<(MaterialHandle, &Arc<M>)> = Vec::new();
        let mut k: usize = 0;
        while k < indices.len()
            invariant
                self.wf(),
                k <= indices@.len(),
                out@.len() == k,
                forall|i: Index| indices@.contains(i) <==> self.shelf@.dom().contains(i),
                forall|j: int|
                    0 <= j < k ==> (#[trigger] out@[j]).0.handle == indices@[j] && *out@[j].1
                        == self.shelf@[indices@[j]],
            decreases indices@.len() - k,
        {
            assert(indices@.contains(indices@[k as int]));
            match self.shelf.get(indices[k]) {
                Some(item) => out.push((MaterialHandle { handle: indices[k] }, item)),
                None => {},
            }
            k = k + 1;
        }
        assert forall|h: MaterialHandle| self@.dom().contains(h) implies exists|k: int|
            0 <= k < out@.len() && (#[trigger] out@[k]).0 == h by {
            assert(indices@.contains(h.handle));
            let j = choose|j: int| 0 <= j < indices@.len() && indices@[j] == h.handle;
            assert(out@[j].0 == h);
        }
        assert forall|k: int| 0 <= k < out@.len() implies self@.dom().contains(
            (#[trigger] out@[k]).0,
        ) && *out@[k].1 == self@[out@[k].0] by {
            assert(indices@.contains(indices@[k]));
        }
        out
    }

    /// Takes the material under `index` out of the arena, if there is one.
    pub fn remove(&mut self, index: MaterialHandle) -> (r: Option<Arc<M>>)
        requires
            old(self).wf(),
        ensures
            match r {
                Some(item) => old(self)@.dom().contains(index) && item == old(self)@[index],
                None => !old(self)@.dom().contains(index),
            },
            final(self).wf(),
            final(self)@ == old(self)@.remove(index),
            final(self).retired() == (if old(self)@.dom().contains(index) {
                old(self).retired().insert(index)
            } else {
                old(self).retired()
            }),
    {
        let r = self.shelf.remove(index.handle);
        assert(self@ =~= old(self)@.remove(index));
        assert(self.retired() =~= (if old(self)@.dom().contains(index) {
            old(self).retired().insert(index)
        } else {
            old(self).retired()
        }));
        r
    }
}

/// The name of an object in a `HittableArena`.
#[derive(PartialEq, Eq, Clone, Debug, Copy, Hash)]
pub struct HittableHandle {
    pub handle: Index,
}

/// Shared objects under handles that stay good until the object is removed.
pub struct HittableArena<H> {
    shelf: Shelf<Arc<H>>,
}

impl<H> HittableArena<H> {
    /// The arena is in order.
    pub closed spec fn wf(self) -> bool {
        self.shelf.wf()
    }

    /// The handles whose object was removed. None of them names anything
    /// again, whatever is put into the arena later.
    pub closed spec fn retired(self) -> Set<HittableHandle> {
        Set::new(|h: HittableHandle| self.shelf.retired().contains(h.handle))
    }

    /// A handle whose object was removed names nothing.
    pub proof fn lemma_retired_stays_away(self)
        requires
            self.wf(),
        ensures
            forall|h: HittableHandle| self.retired().contains(h) ==> !self@.dom().contains(h),
    {
        self.shelf.lemma_retired_stays_away();
    }

    /// The objects in the arena, each under its handle.
    pub closed spec fn view(self) -> Map<HittableHandle, Arc<H>> {
        Map::new(
            |h: HittableHandle| self.shelf@.dom().contains(h.handle),
            |h: HittableHandle| self.shelf@[h.handle],
        )
    }

    pub fn new() -> (r: HittableArena<H>)
        ensures
            r.wf(),
            r@ == Map::<HittableHandle, Arc<H>>::empty(),
            r.retired() == Set::<HittableHandle>::empty(),
    {
        let r = HittableArena { shelf: Shelf::new() };
        assert(r@ =~= Map::<HittableHandle, Arc<H>>::empty());
        assert(r.retired() =~= Set::<HittableHandle>::empty());
        r
    }

    /// Puts `item` into the arena, under a handle that named nothing before.
    pub fn insert(&mut self, item: Arc<H>) -> (handle: HittableHandle)
        requires
            old(self).wf(),
        ensures
            final(self).wf(),
            !old(self)@.dom().contains(handle),
            !old(self).retired().contains(handle),
            final(self)@ == old(self)@.insert(handle, item),
            final(self).retired() == old(self).retired(),
    {
        let handle = HittableHandle { handle: self.shelf.insert(item) };
        assert(self@ =~= old(self)@.insert(handle, item));
        assert(self.retired() =~= old(self).retired());
        handle
    }

    /// The object under `index`, if there is one.
    pub fn get(&self, index: HittableHandle) -> (r: Option<&Arc<H>>)
        requires
            self.wf(),
        ensures
            match r {
                Some(item) => self@.dom().contains(index) && *item == self@[index],
                None => !self@.dom().contains(index),
            },
    {
        self.shelf.get(index.handle)
    }

    /// The object under `index`, to be changed in its place, if there is one.
    pub fn get_mut(&mut self, index: HittableHandle) -> (r: Option<&mut Arc<H>>)
        requires
            old(self).wf(),
        ensures
            match r {
                Some(item) => old(self)@.dom().contains(index) && *item == old(self)@[index]
                    && final(self)@ == old(self)@.insert(index, *final(item)) && final(self).wf(),
                None => !old(self)@.dom().contains(index) && *final(self) == *old(self),
            },
            final(self).retired() == old(self).retired(),
    {
        self.shelf.get_mut(index.handle)
    }

    /// All objects in the arena, each once, with their handles.
    pub fn iter(&self) -> (r: Vec<(HittableHandle, &Arc<H>)>)
        requires
            self.wf(),
        ensures
            forall|k: int| 0 <= k < r@.len() ==> self@.dom().contains((#[trigger] r@[k]).0)
                && *r@[k].1 == self@[r@[k].0],
            forall|j: int, k: int| 0 <= j < k < r@.len() ==> r@[j].0 != r@[k].0,
            forall|h: HittableHandle|
                self@.dom().contains(h) ==> exists|k: int| 0 <= k < r@.len() && (#[trigger] r@[k]).0 == h,
    {
        let indices = self.shelf.indices();
        let mut out: Vec<(HittableHandle, &Arc<H>)> = Vec::new();
        let mut k: usize = 0;
        while k < indices.len()
            invariant
                self.wf(),
                k <= indices@.len(),
                out@.len() == k,
                forall|i: Index| indices@.contains(i) <==> self.shelf@.dom().contains(i),
                forall|j: int|
                    0 <= j < k ==> (#[trigger] out@[j]).0.handle == indices@[j] && *out@[j].1
                        == self.shelf@[indices@[j]],
            decreases indices@.len() - k,
        {
            assert(indices@.contains(indices@[k as int]));
            match self.shelf.get(indices[k]) {
                Some(item) => out.push((HittableHandle { handle: indices[k] }, item)),
                None => {},
            }
            k = k + 1;
        }
        assert forall|h: HittableHandle| self@.dom().contains(h) implies exists|k: int|
            0 <= k < out@.len() && (#[trigger] out@[k]).0 == h by {
            assert(indices@.contains(h.handle));
            let j = choose|j: int| 0 <= j < indices@.len() && indices@[j] == h.handle;
            assert(out@[j].0 == h);
        }
        assert forall|k: int| 0 <= k < out@.len() implies self@.dom().contains(
            (#[trigger] out@[k]).0,
        ) && *out@[k].1 == self@[out@[k].0] by {
            assert(indices@.contains(indices@[k]));
        }
        out
    }

    /// Takes the object under `index` out of the arena, if there is one.
    pub fn remove(&mut self, index: HittableHandle) -> (r: Option<Arc<H>>)
        requires
            old(self).wf(),
        ensures
            match r {
                Some(item) => old(self)@.dom().contains(index) && item == old(self)@[index],
                None => !old(self)@.dom().contains(index),
            },
            final(self).wf(),
            final(self)@ == old(self)@.remove(index),
            final(self).retired() == (if old(self)@.dom().contains(index) {
                old(self).retired().insert(index)
            } else {
                old(self).retired()
            }),
    {
        let r = self.shelf.remove(index.handle);
        assert(self@ =~= old(self)@.remove(index));
        assert(self.retired() =~= (if old(self)@.dom().contains(index) {
            old(self).retired().insert(index)
        } else {
            old(self).retired()
        }));
        r
    }

    /// The handles of all objects in the arena, each once. A handle whose
    /// object was removed is not among them, though its place may have been
    /// filled again.
    pub fn all_handles(&self) -> (r: Vec<HittableHandle>)
        requires
            self.wf(),
        ensures
            r@.no_duplicates(),
            forall|h: HittableHandle| r@.contains(h) <==> self@.dom().contains(h),
            forall|h: HittableHandle| self.retired().contains(h) ==> !r@.contains(h),
    {
        proof {
            self.lemma_retired_stays_away();
        }
        let indices = self.shelf.indices();
        let mut out: Vec<HittableHandle> = Vec::new();
        let mut k: usize = 0;
        while k < indices.len()
            invariant
                k <= indices@.len(),
                out@.len() == k,
                forall|j: int| 0 <= j < k ==> (#[trigger] out@[j]).handle == indices@[j],
            decreases indices@.len() - k,
        {
            out.push(HittableHandle { handle: indices[k] });
            k = k + 1;
        }
        assert forall|h: HittableHandle| out@.contains(h) <==> self@.dom().contains(h) by {
            if out@.contains(h) {
                let j = choose|j: int| 0 <= j < out@.len() && out@[j] == h;
                assert(indices@.contains(indices@[j]));
            }
            if self@.dom().contains(h) {
                assert(indices@.contains(h.handle));
                let j = choose|j: int| 0 <= j < indices@.len() && indices@[j] == h.handle;
                assert(out@[j] == h);
            }
        }
        out
    }
}

impl<H: Hittable> HittableArena<H> {
    /// Asks the object under `handle` whether the ray hits it.
    pub fn hit(
        &self,
        handle: HittableHandle,
        ray: &Ray,
        t_min: Scalar,
        t_max: Scalar,
        record: &mut HitRecord<H::Mat>,
    ) -> (b: bool)
        requires
            self.wf(),
            self@.dom().contains(handle),
        ensures
            b == self@[handle].found(*ray, t_min, t_max, *old(record)).is_some(),
            b ==> *final(record) == self@[handle].found(*ray, t_min, t_max, *old(record)).unwrap(),
            !b ==> *final(record) == *old(record),
    {
        match self.get(handle) {
            Some(hittable) => hittable.hit(ray, t_min, t_max, record),
            None => false,
        }
    }

    /// Asks the object under `handle` for its bounding box.
    pub fn bounding_box(
        &self,
        handle: HittableHandle,
        time0: Scalar,
        time1: Scalar,
        output_box: &mut AABB,
    ) -> (b: bool)
        requires
            self.wf(),
            self@.dom().contains(handle),
        ensures
            b == self@[handle].bounds(time0, time1, *old(output_box)).is_some(),
            b ==> *final(output_box) == self@[handle].bounds(
                time0,
                time1,
                *old(output_box),
            ).unwrap(),
    {
        match self.get(handle) {
            Some(hittable) => hittable.bounding_box(time0, time1, output_box),
            None => false,
        }
    }
}

} // verus!

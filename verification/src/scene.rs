//! Scenes of sprites in draw order, stored in generational arenas whose
//! handles never alias a reused slot or another arena.
use core::marker::PhantomData;
use vstd::prelude::*;

verus! {

/// Source of handle generations. Every generation is handed out once; a handle
/// therefore names at most one insertion, across every arena that draws from
/// the same counter.
pub struct GenerationCounter {
    next: u64,
}

impl GenerationCounter {
    /// The generation that the next call of `generation` hands out.
    pub closed spec fn peek(&self) -> u64 {
        self.next
    }

    pub fn new() -> (r: Self)
        ensures
            r.peek() == 1,
    {
        GenerationCounter { next: 1 }
    }

    /// Hands out the next generation, or `None` once `u64` is exhausted
    /// (the value `u64::MAX` is never handed out).
    pub fn generation(&mut self) -> (r: Option<u64>)
        ensures
            old(self).peek() < u64::MAX ==> r == Some(old(self).peek()) && final(self).peek()
                == old(self).peek() + 1,
            old(self).peek() == u64::MAX ==> r.is_none() && final(self).peek() == old(
                self,
            ).peek(),
    {
        if self.next < u64::MAX {
            let g = self.next;
            self.next = g + 1;
            Some(g)
        } else {
            None
        }
    }
}

/// A typed reference to an object stored in an [`Arena`]: a slot index plus the
/// generation of the insertion that produced it.
#[derive(Debug)]
pub struct Handle<T> {
    index: usize,
    generation: u64,
    marker: PhantomData<T>,
}

impl<T> Handle<T> {
    /// The pair (slot index, generation) that identifies the handle.
    pub closed spec fn key(self) -> (usize, u64) {
        (self.index, self.generation)
    }

    pub fn index(&self) -> (r: usize)
        ensures
            r == self.key().0,
    {
        self.index
    }

    pub fn generation(&self) -> (r: u64)
        ensures
            r == self.key().1,
    {
        self.generation
    }

    /// Two handles are the same value exactly when their keys are.
    pub proof fn lemma_key_determines(a: Self, b: Self)
        requires
            a.key() == b.key(),
        ensures
            a == b,
    {
    }
}

impl<T> Clone for Handle<T> {
    fn clone(&self) -> (r: Self)
        ensures
            r == *self,
    {
        Handle { index: self.index, generation: self.generation, marker: PhantomData }
    }
}

impl<T> Copy for Handle<T> {

}

impl<T> PartialEq for Handle<T> {
    fn eq(&self, other: &Self) -> (r: bool) {
        self.index == other.index && self.generation == other.generation
    }
}

impl<T> vstd::std_specs::cmp::PartialEqSpecImpl for Handle<T> {
    open spec fn obeys_eq_spec() -> bool {
        true
    }

    open spec fn eq_spec(&self, other: &Self) -> bool {
        self.key() == other.key()
    }
}

impl<T> Eq for Handle<T> {

}

struct Slot<T> {
    generation: u64,
    value: Option<T>,
    next: Option<usize>,
}

/// Slot storage with a LIFO free list. Removed slots are reused by later
/// insertions, under a fresh generation.
pub struct Arena<T> {
    slots: Vec<Slot<T>>,
    free: Option<usize>,
    /// The free list as a stack: its last element is the head.
    free_list: Ghost<Seq<usize>>,
}

impl<T> Arena<T> {
    /// The free list links exactly the empty slots, newest first.
    pub closed spec fn wf(&self) -> bool {
        let fl = self.free_list@;
        let s = self.slots@;
        &&& forall|k: int| 0 <= k < fl.len() ==> #[trigger] fl[k] < s.len()
        &&& forall|k: int| 0 <= k < fl.len() ==> s[#[trigger] fl[k] as int].value.is_none()
        &&& forall|k1: int, k2: int|
            0 <= k1 < k2 < fl.len() ==> #[trigger] fl[k1] != #[trigger] fl[k2]
        &&& forall|i: usize| i < s.len() && #[trigger] s[i as int].value.is_none() ==> fl.contains(i)
        &&& self.free == (if fl.len() == 0 {
            None
        } else {
            Some(fl.last())
        })
        &&& forall|k: int| 0 < k < fl.len() ==> s[#[trigger] fl[k] as int].next == Some(fl[k - 1])
        &&& fl.len() > 0 ==> s[fl[0] as int].next.is_none()
    }

    /// The objects that handles currently resolve to, by handle key.
    pub closed spec fn live(&self) -> Map<(usize, u64), T> {
        Map::new(
            |k: (usize, u64)|
                k.0 < self.slots@.len() && self.slots@[k.0 as int].generation == k.1
                    && self.slots@[k.0 as int].value.is_some(),
            |k: (usize, u64)| self.slots@[k.0 as int].value.unwrap(),
        )
    }

    /// The free list, as a stack whose last element is reused first.
    pub closed spec fn free_slots(&self) -> Seq<usize> {
        self.free_list@
    }

    /// Number of slots ever allocated.
    pub closed spec fn slot_count(&self) -> nat {
        self.slots@.len()
    }

    /// Every slot's generation lies below `g`, so an insertion under `g` (or
    /// anything larger) cannot recreate an old handle.
    pub closed spec fn fresh(&self, g: u64) -> bool {
        forall|i: int| 0 <= i < self.generations().len() ==> #[trigger] self.generations()[i] < g
    }

    /// The generation stored in each slot.
    pub closed spec fn generations(&self) -> Seq<u64> {
        self.slots@.map_values(|s: Slot<T>| s.generation)
    }

    pub fn new() -> (r: Self)
        ensures
            r.wf(),
            r.live() == Map::<(usize, u64), T>::empty(),
            r.free_slots() == Seq::<usize>::empty(),
            r.slot_count() == 0,
            forall|g: u64| r.fresh(g),
    {
        let r = Arena { slots: Vec::new(), free: None, free_list: Ghost(Seq::empty()) };
        assert(r.live() =~= Map::<(usize, u64), T>::empty());
        r
    }

    /// Stores `value` under a fresh `generation`, reusing the most recently
    /// freed slot when there is one.
    pub fn add(&mut self, value: T, generation: u64) -> (h: Handle<T>)
        requires
            old(self).wf(),
            old(self).fresh(generation),
        ensures
            final(self).wf(),
            h.key().1 == generation,
            !old(self).live().contains_key(h.key()),
            final(self).live() == old(self).live().insert(h.key(), value),
            old(self).free_slots().len() > 0 ==> h.key().0 == old(self).free_slots().last()
                && final(self).free_slots() == old(self).free_slots().drop_last()
                && final(self).slot_count() == old(self).slot_count(),
            old(self).free_slots().len() == 0 ==> h.key().0 == old(self).slot_count()
                && final(self).free_slots() == old(self).free_slots() && final(self).slot_count()
                == old(self).slot_count() + 1,
            forall|g: u64| generation < g ==> final(self).fresh(g),
    {
        let ghost old_live = self.live();
        let ghost fl = self.free_list@;
        let slot = Slot { generation, value: Some(value), next: None };
        match self.free {
            Some(index) => {
                assert(fl[fl.len() - 1] == index);
                let next = self.slots[index].next;
                self.free = next;
                self.slots[index] = slot;
                proof {
                    self.free_list@ = fl.drop_last();
                    let nfl = self.free_list@;
                    assert forall|i: usize|
                        i < self.slots@.len() && #[trigger] self.slots@[i as int].value.is_none()
                        implies nfl.contains(i) by {
                        assert(i != index);
                        assert(old(self).slots@[i as int].value.is_none());
                        assert(fl.contains(i));
                        let k = choose|k: int| 0 <= k < fl.len() && fl[k] == i;
                        assert(fl[fl.len() - 1] == index);
                        assert(k != fl.len() - 1);
                        assert(nfl[k] == i);
                    }
                    assert forall|k: int| 0 <= k < nfl.len() implies self.slots@[#[trigger] nfl[k]
                        as int].value.is_none() by {
                        assert(nfl[k] == fl[k]);
                        assert(fl[k] != fl[fl.len() - 1]);
                    }
                    assert forall|k: int| 0 < k < nfl.len() implies self.slots@[#[trigger] nfl[k]
                        as int].next == Some(nfl[k - 1]) by {
                        assert(fl[k] != fl[fl.len() - 1]);
                    }
                    if nfl.len() > 0 {
                        assert(fl[0] != fl[fl.len() - 1]);
                    }
                    assert(self.live() =~= old_live.insert((index, generation), value));
                    assert(self.generations() =~= old(self).generations().update(
                        index as int,
                        generation,
                    ));
                }
                Handle { index, generation, marker: PhantomData }
            },
            None => {
                let index = self.slots.len();
                self.slots.push(slot);
                proof {
                    assert(self.live() =~= old_live.insert((index, generation), value));
                    assert(self.generations() =~= old(self).generations().push(generation));
                }
                Handle { index, generation, marker: PhantomData }
            },
        }
    }

    /// The object `handle` refers to, if it is still stored.
    pub fn get(&self, handle: Handle<T>) -> (r: Option<&T>)
        ensures
            r.is_some() == self.live().contains_key(handle.key()),
            r matches Some(v) ==> *v == self.live()[handle.key()],
    {
        if handle.index < self.slots.len() {
            let slot = &self.slots[handle.index];
            if slot.generation == handle.generation {
                slot.value.as_ref()
            } else {
                None
            }
        } else {
            None
        }
    }

    /// Mutable access to the object `handle` refers to, if it is still stored.
    /// Whatever is written through the reference becomes that handle's object;
    /// nothing else changes.
    pub fn get_mut(&mut self, handle: Handle<T>) -> (r: Option<&mut T>)
        requires
            old(self).wf(),
        ensures
            r.is_some() == old(self).live().contains_key(handle.key()),
            r matches Some(v) ==> *v == old(self).live()[handle.key()] && final(self).live()
                == old(self).live().insert(handle.key(), *final(v)),
            r.is_none() ==> final(self).live() == old(self).live(),
            final(self).live().dom() == old(self).live().dom(),
            final(self).wf(),
            final(self).free_slots() == old(self).free_slots(),
            final(self).slot_count() == old(self).slot_count(),
            final(self).generations() == old(self).generations(),
    {
        if !self.contains(handle) {
            return None;
        }
        let slot = &mut self.slots[handle.index];
        slot.value.as_mut()
    }

    /// Whether `handle` still refers to a stored object.
    pub fn contains(&self, handle: Handle<T>) -> (r: bool)
        ensures
            r == self.live().contains_key(handle.key()),
    {
        handle.index < self.slots.len() && self.slots[handle.index].generation == handle.generation
            && self.slots[handle.index].value.is_some()
    }

    /// Removes the object `handle` refers to; `false` when it is no longer
    /// stored. The freed slot becomes the head of the free list.
    pub fn remove(&mut self, handle: Handle<T>) -> (removed: bool)
        requires
            old(self).wf(),
        ensures
            final(self).wf(),
            removed == old(self).live().contains_key(handle.key()),
            final(self).live() == old(self).live().remove(handle.key()),
            removed ==> final(self).free_slots() == old(self).free_slots().push(handle.key().0),
            !removed ==> final(self).free_slots() == old(self).free_slots(),
            !removed ==> *final(self) == *old(self),
            final(self).slot_count() == old(self).slot_count(),
            forall|g: u64| #[trigger] final(self).fresh(g) == old(self).fresh(g),
    {
        if !self.contains(handle) {
            assert(self.live().remove(handle.key()) =~= self.live());
            return false;
        }
        let ghost old_live = self.live();
        let ghost fl = self.free_list@;
        let index = handle.index;
        let generation = self.slots[index].generation;
        assert(!fl.contains(index));
        self.slots[index] = Slot { generation, value: None, next: self.free };
        self.free = Some(index);
        proof {
            self.free_list@ = fl.push(index);
            let nfl = self.free_list@;
            assert forall|k: int| 0 <= k < nfl.len() implies self.slots@[#[trigger] nfl[k]
                as int].value.is_none() by {
                if k < fl.len() {
                    assert(nfl[k] == fl[k]);
                }
            }
            assert forall|k1: int, k2: int|
                0 <= k1 < k2 < nfl.len() implies #[trigger] nfl[k1] != #[trigger] nfl[k2] by {
                if k2 == fl.len() {
                    assert(nfl[k1] == fl[k1]);
                }
            }
            assert forall|i: usize|
                i < self.slots@.len() && #[trigger] self.slots@[i as int].value.is_none()
                implies nfl.contains(i) by {
                if i == index {
                    assert(nfl[fl.len() as int] == index);
                } else {
                    assert(old(self).slots@[i as int].value.is_none());
                    let k = choose|k: int| 0 <= k < fl.len() && fl[k] == i;
                    assert(nfl[k] == i);
                }
            }
            assert forall|k: int| 0 < k < nfl.len() implies self.slots@[#[trigger] nfl[k]
                as int].next == Some(nfl[k - 1]) by {
                if k < fl.len() {
                    assert(fl[k] != index);
                }
            }
            if fl.len() > 0 {
                assert(fl[0] != index);
            }
            assert(self.live() =~= old_live.remove(handle.key()));
            assert(self.generations() =~= old(self).generations());
        }
        true
    }
}

/// One entry of a scene's draw order.
#[derive(Debug)]
pub enum DrawHandle<S, A> {
    Sprite(Handle<S>),
    Animated(Handle<A>),
}

impl<S, A> Clone for DrawHandle<S, A> {
    fn clone(&self) -> (r: Self)
        ensures
            r == *self,
    {
        match self {
            DrawHandle::Sprite(h) => DrawHandle::Sprite(*h),
            DrawHandle::Animated(h) => DrawHandle::Animated(*h),
        }
    }
}

impl<S, A> Copy for DrawHandle<S, A> {

}

impl<S, A> PartialEq for DrawHandle<S, A> {
    fn eq(&self, other: &Self) -> (r: bool) {
        same_draw(self, other)
    }
}

impl<S, A> vstd::std_specs::cmp::PartialEqSpecImpl for DrawHandle<S, A> {
    open spec fn obeys_eq_spec() -> bool {
        true
    }

    open spec fn eq_spec(&self, other: &Self) -> bool {
        *self == *other
    }
}

impl<S, A> Eq for DrawHandle<S, A> {

}

fn same_draw<S, A>(a: &DrawHandle<S, A>, b: &DrawHandle<S, A>) -> (r: bool)
    ensures
        r == (*a == *b),
{
    match (a, b) {
        (DrawHandle::Sprite(x), DrawHandle::Sprite(y)) => {
            proof {
                if x.key() == y.key() {
                    Handle::lemma_key_determines(*x, *y);
                }
            }
            x.index() == y.index() && x.generation() == y.generation()
        },
        (DrawHandle::Animated(x), DrawHandle::Animated(y)) => {
            proof {
                if x.key() == y.key() {
                    Handle::lemma_key_determines(*x, *y);
                }
            }
            x.index() == y.index() && x.generation() == y.generation()
        },
        _ => false,
    }
}

/// `d` is the plain sprite with key `k`.
pub open spec fn sprite_key<S, A>(d: DrawHandle<S, A>, k: (usize, u64)) -> bool {
    match d {
        DrawHandle::Sprite(h) => h.key() == k,
        _ => false,
    }
}

/// `d` is the animated sprite with key `k`.
pub open spec fn animated_key<S, A>(d: DrawHandle<S, A>, k: (usize, u64)) -> bool {
    match d {
        DrawHandle::Animated(h) => h.key() == k,
        _ => false,
    }
}

/// `d` refers to a key of the matching set.
pub open spec fn member<S, A>(
    d: DrawHandle<S, A>,
    sprites: Set<(usize, u64)>,
    animated: Set<(usize, u64)>,
) -> bool {
    match d {
        DrawHandle::Sprite(h) => sprites.contains(h.key()),
        DrawHandle::Animated(h) => animated.contains(h.key()),
    }
}

/// `order` lists each key of `sprites` and `animated` exactly once, and
/// nothing else.
pub open spec fn covers<S, A>(
    order: Seq<DrawHandle<S, A>>,
    sprites: Set<(usize, u64)>,
    animated: Set<(usize, u64)>,
) -> bool {
    &&& forall|i: int, j: int| 0 <= i < j < order.len() ==> #[trigger] order[i] != #[trigger] order[j]
    &&& forall|i: int| 0 <= i < order.len() ==> member(#[trigger] order[i], sprites, animated)
    &&& forall|k: (usize, u64)|
        #[trigger] sprites.contains(k) ==> exists|i: int|
            0 <= i < order.len() && sprite_key(#[trigger] order[i], k)
    &&& forall|k: (usize, u64)|
        #[trigger] animated.contains(k) ==> exists|i: int|
            0 <= i < order.len() && animated_key(#[trigger] order[i], k)
}

/// Plain sprites and animated sprites, drawn in insertion order. Removing an
/// object keeps the relative order of the rest.
pub struct Scene<S, A> {
    sprites: Arena<S>,
    animated: Arena<A>,
    order: Vec<DrawHandle<S, A>>,
}

impl<S, A> Scene<S, A> {
    pub closed spec fn sprites(&self) -> Map<(usize, u64), S> {
        self.sprites.live()
    }

    pub closed spec fn animated(&self) -> Map<(usize, u64), A> {
        self.animated.live()
    }

    pub closed spec fn order(&self) -> Seq<DrawHandle<S, A>> {
        self.order@
    }

    /// The freed sprite slots, as a stack whose last element is reused first.
    pub closed spec fn free_sprite_slots(&self) -> Seq<usize> {
        self.sprites.free_slots()
    }

    /// Number of sprite slots ever allocated.
    pub closed spec fn sprite_slot_count(&self) -> nat {
        self.sprites.slot_count()
    }

    /// The freed animated-sprite slots, as a stack whose last element is
    /// reused first.
    pub closed spec fn free_animated_slots(&self) -> Seq<usize> {
        self.animated.free_slots()
    }

    /// Number of animated-sprite slots ever allocated.
    pub closed spec fn animated_slot_count(&self) -> nat {
        self.animated.slot_count()
    }

    /// Whether `d` currently refers to a stored object.
    pub open spec fn resolves(&self, d: DrawHandle<S, A>) -> bool {
        member(d, self.sprites().dom(), self.animated().dom())
    }

    /// The draw order lists every stored object exactly once.
    pub closed spec fn wf(&self) -> bool {
        &&& self.sprites.wf()
        &&& self.animated.wf()
        &&& covers(self.order@, self.sprites().dom(), self.animated().dom())
    }

    /// No stored object has a generation at or above `g`.
    pub closed spec fn fresh(&self, g: u64) -> bool {
        self.sprites.fresh(g) && self.animated.fresh(g)
    }

    pub fn new() -> (r: Self)
        ensures
            r.wf(),
            r.sprites() == Map::<(usize, u64), S>::empty(),
            r.animated() == Map::<(usize, u64), A>::empty(),
            r.order() == Seq::<DrawHandle<S, A>>::empty(),
            forall|g: u64| r.fresh(g),
    {
        Scene { sprites: Arena::new(), animated: Arena::new(), order: Vec::new() }
    }

    /// Adds a sprite at the end of the draw order, under the counter's next
    /// generation; `None` when generations are exhausted.
    pub fn add_sprite(&mut self, generations: &mut GenerationCounter, sprite: S) -> (h: Option<
        Handle<S>,
    >)
        requires
            old(self).wf(),
            old(self).fresh(old(generations).peek()),
        ensures
            final(self).wf(),
            final(self).fresh(final(generations).peek()),
            h is None <==> old(generations).peek() == u64::MAX,
            h is None ==> *final(self) == *old(self) && *final(generations) == *old(generations),
            h is Some ==> final(generations).peek() == old(generations).peek() + 1,
            h matches Some(h) ==> {
                &&& h.key().1 == old(generations).peek()
                &&& !old(self).sprites().contains_key(h.key())
                &&& final(self).sprites() == old(self).sprites().insert(h.key(), sprite)
                &&& final(self).animated() == old(self).animated()
                &&& h.key().0 == if old(self).free_sprite_slots().len() > 0 {
                    old(self).free_sprite_slots().last()
                } else {
                    old(self).sprite_slot_count() as usize
                }
                &&& final(self).free_sprite_slots() == if old(self).free_sprite_slots().len() > 0 {
                    old(self).free_sprite_slots().drop_last()
                } else {
                    old(self).free_sprite_slots()
                }
                &&& final(self).free_animated_slots() == old(self).free_animated_slots()
                &&& final(self).order() == old(self).order().push(DrawHandle::Sprite(h))
            },
    {
        let g = match generations.generation() {
            Some(g) => g,
            None => return None,
        };
        let h = self.sprites.add(sprite, g);
        self.order.push(DrawHandle::Sprite(h));
        proof {
            self.lemma_push_keeps_wf_sprite(*old(self), h);
        }
        Some(h)
    }

    proof fn lemma_push_keeps_wf_sprite(self, prev: Self, h: Handle<S>)
        requires
            prev.wf(),
            self.sprites.wf(),
            self.animated == prev.animated,
            !prev.sprites().contains_key(h.key()),
            self.sprites() == prev.sprites().insert(h.key(), self.sprites()[h.key()]),
            self.order@ == prev.order@.push(DrawHandle::Sprite(h)),
        ensures
            self.wf(),
    {
        let n = prev.order@.len() as int;
        assert forall|i: int, j: int|
            0 <= i < j < self.order@.len() implies #[trigger] self.order@[i] != #[trigger] self.order@[j] by {
            if j == n {
                assert(prev.resolves(prev.order@[i]));
            } else {
                assert(prev.order@[i] != prev.order@[j]);
            }
        }
        assert forall|i: int| 0 <= i < self.order@.len() implies self.resolves(#[trigger] self.order@[i]) by {
            if i < n {
                assert(prev.resolves(prev.order@[i]));
            }
        }
        assert forall|k: (usize, u64)| #[trigger] self.sprites().contains_key(k) implies exists|i: int|
            0 <= i < self.order@.len() && sprite_key(#[trigger] self.order@[i], k) by {
            if k == h.key() {
                assert(sprite_key(self.order@[n], k));
            } else {
                assert(prev.sprites().contains_key(k));
                let i = choose|i: int|
                    0 <= i < prev.order@.len() && sprite_key(#[trigger] prev.order@[i], k);
                assert(self.order@[i] == prev.order@[i]);
            }
        }
        assert forall|k: (usize, u64)| #[trigger] self.animated().contains_key(k) implies exists|i: int|
            0 <= i < self.order@.len() && animated_key(#[trigger] self.order@[i], k) by {
            assert(prev.animated().contains_key(k));
            let i = choose|i: int|
                0 <= i < prev.order@.len() && animated_key(#[trigger] prev.order@[i], k);
            assert(self.order@[i] == prev.order@[i]);
        }
    }

    /// Number of objects in the scene.
    pub fn len(&self) -> (r: usize)
        ensures
            r == self.order().len(),
    {
        self.order.len()
    }

    pub fn is_empty(&self) -> (r: bool)
        ensures
            r == (self.order().len() == 0),
    {
        self.order.len() == 0
    }

    /// The draw order.
    pub fn draw_order(&self) -> (r: &[DrawHandle<S, A>])
        ensures
            r@ == self.order(),
    {
        self.order.as_slice()
    }

    pub fn get_sprite(&self, handle: Handle<S>) -> (r: Option<&S>)
        ensures
            r.is_some() == self.sprites().contains_key(handle.key()),
            r matches Some(v) ==> *v == self.sprites()[handle.key()],
    {
        self.sprites.get(handle)
    }

    pub fn get_animated(&self, handle: Handle<A>) -> (r: Option<&A>)
        ensures
            r.is_some() == self.animated().contains_key(handle.key()),
            r matches Some(v) ==> *v == self.animated()[handle.key()],
    {
        self.animated.get(handle)
    }

    /// Removes everything; handles issued before stay dead.
    pub fn clear(&mut self)
        ensures
            final(self).wf(),
            final(self).sprites() == Map::<(usize, u64), S>::empty(),
            final(self).animated() == Map::<(usize, u64), A>::empty(),
            final(self).order() == Seq::<DrawHandle<S, A>>::empty(),
            forall|g: u64| final(self).fresh(g),
    {
        *self = Scene::new();
    }
}


/// The first position of `target` in `order`.
fn position_of<S, A>(order: &Vec<DrawHandle<S, A>>, target: &DrawHandle<S, A>) -> (i: usize)
    requires
        exists|j: int| 0 <= j < order@.len() && order@[j] == *target,
    ensures
        i < order@.len(),
        order@[i as int] == *target,
        forall|j: int| 0 <= j < i ==> order@[j] != *target,
{
    let mut i: usize = 0;
    while i < order.len()
        invariant
            i <= order@.len(),
            forall|j: int| 0 <= j < i ==> order@[j] != *target,
            exists|j: int| 0 <= j < order@.len() && order@[j] == *target,
        decreases order@.len() - i,
    {
        if same_draw(&order[i], target) {
            return i;
        }
        i = i + 1;
    }
    proof {
        let j = choose|j: int| 0 <= j < order@.len() && order@[j] == *target;
        assert(order@[j] != *target);
    }
    0
}

impl<S, A> Scene<S, A> {
    pub fn add_animated(&mut self, generations: &mut GenerationCounter, sprite: A) -> (h: Option<
        Handle<A>,
    >)
        requires
            old(self).wf(),
            old(self).fresh(old(generations).peek()),
        ensures
            final(self).wf(),
            final(self).fresh(final(generations).peek()),
            h is None <==> old(generations).peek() == u64::MAX,
            h is None ==> *final(self) == *old(self) && *final(generations) == *old(generations),
            h is Some ==> final(generations).peek() == old(generations).peek() + 1,
            h matches Some(h) ==> {
                &&& h.key().1 == old(generations).peek()
                &&& !old(self).animated().contains_key(h.key())
                &&& final(self).animated() == old(self).animated().insert(h.key(), sprite)
                &&& final(self).sprites() == old(self).sprites()
                &&& h.key().0 == if old(self).free_animated_slots().len() > 0 {
                    old(self).free_animated_slots().last()
                } else {
                    old(self).animated_slot_count() as usize
                }
                &&& final(self).free_animated_slots() == if old(self).free_animated_slots().len() > 0 {
                    old(self).free_animated_slots().drop_last()
                } else {
                    old(self).free_animated_slots()
                }
                &&& final(self).free_sprite_slots() == old(self).free_sprite_slots()
                &&& final(self).order() == old(self).order().push(DrawHandle::Animated(h))
            },
    {
        let g = match generations.generation() {
            Some(g) => g,
            None => return None,
        };
        let h = self.animated.add(sprite, g);
        self.order.push(DrawHandle::Animated(h));
        proof {
            let prev = *old(self);
            let n = prev.order@.len() as int;
            assert forall|i: int, j: int|
                0 <= i < j < self.order@.len() implies #[trigger] self.order@[i]
                != #[trigger] self.order@[j] by {
                if j == n {
                    assert(prev.resolves(prev.order@[i]));
                } else {
                    assert(prev.order@[i] != prev.order@[j]);
                }
            }
            assert forall|i: int| 0 <= i < self.order@.len() implies self.resolves(
                #[trigger] self.order@[i],
            ) by {
                if i < n {
                    assert(prev.resolves(prev.order@[i]));
                }
            }
            assert forall|k: (usize, u64)| #[trigger] self.animated().contains_key(k) implies exists|
                i: int,
            | 0 <= i < self.order@.len() && animated_key(#[trigger] self.order@[i], k) by {
                if k == h.key() {
                    assert(animated_key(self.order@[n], k));
                } else {
                    assert(prev.animated().contains_key(k));
                    let i = choose|i: int|
                        0 <= i < prev.order@.len() && animated_key(#[trigger] prev.order@[i], k);
                    assert(self.order@[i] == prev.order@[i]);
                }
            }
            assert forall|k: (usize, u64)| #[trigger] self.sprites().contains_key(k) implies exists|
                i: int,
            | 0 <= i < self.order@.len() && sprite_key(#[trigger] self.order@[i], k) by {
                assert(prev.sprites().contains_key(k));
                let i = choose|i: int|
                    0 <= i < prev.order@.len() && sprite_key(#[trigger] prev.order@[i], k);
                assert(self.order@[i] == prev.order@[i]);
            }
        }
        Some(h)
    }

    pub fn get_sprite_mut(&mut self, handle: Handle<S>) -> (r: Option<&mut S>)
        requires
            old(self).wf(),
        ensures
            r.is_some() == old(self).sprites().contains_key(handle.key()),
            r matches Some(v) ==> *v == old(self).sprites()[handle.key()] && final(self).sprites()
                == old(self).sprites().insert(handle.key(), *final(v)),
            r.is_none() ==> final(self).sprites() == old(self).sprites(),
            final(self).animated() == old(self).animated(),
            final(self).order() == old(self).order(),
            final(self).sprites().dom() == old(self).sprites().dom(),
            final(self).wf(),
            forall|g: u64| #[trigger] final(self).fresh(g) == old(self).fresh(g),
    {
        self.sprites.get_mut(handle)
    }

    pub fn get_animated_mut(&mut self, handle: Handle<A>) -> (r: Option<&mut A>)
        requires
            old(self).wf(),
        ensures
            r.is_some() == old(self).animated().contains_key(handle.key()),
            r matches Some(v) ==> *v == old(self).animated()[handle.key()] && final(self).animated()
                == old(self).animated().insert(handle.key(), *final(v)),
            r.is_none() ==> final(self).animated() == old(self).animated(),
            final(self).sprites() == old(self).sprites(),
            final(self).order() == old(self).order(),
            final(self).animated().dom() == old(self).animated().dom(),
            final(self).wf(),
            forall|g: u64| #[trigger] final(self).fresh(g) == old(self).fresh(g),
    {
        self.animated.get_mut(handle)
    }

    /// Removes a sprite; `false` when `handle` no longer refers to one. The
    /// rest of the draw order keeps its order.
    pub fn remove_sprite(&mut self, handle: Handle<S>) -> (removed: bool)
        requires
            old(self).wf(),
        ensures
            final(self).wf(),
            removed == old(self).sprites().contains_key(handle.key()),
            final(self).sprites() == old(self).sprites().remove(handle.key()),
            final(self).animated() == old(self).animated(),
            removed ==> exists|i: int|
                0 <= i < old(self).order().len() && old(self).order()[i] == DrawHandle::<S, A>::Sprite(
                    handle,
                ) && final(self).order() == old(self).order().remove(i),
            !removed ==> final(self).order() == old(self).order(),
            final(self).free_sprite_slots() == if removed {
                old(self).free_sprite_slots().push(handle.key().0)
            } else {
                old(self).free_sprite_slots()
            },
            final(self).free_animated_slots() == old(self).free_animated_slots(),
            forall|g: u64| #[trigger] final(self).fresh(g) == old(self).fresh(g),
    {
        let ghost prev = *self;
        if !self.sprites.remove(handle) {
            return false;
        }
        let target = DrawHandle::Sprite(handle);
        proof {
            assert(prev.sprites().contains_key(handle.key()));
            let i = choose|i: int|
                0 <= i < prev.order@.len() && sprite_key(#[trigger] prev.order@[i], handle.key());
            if let DrawHandle::Sprite(h2) = prev.order@[i] {
                Handle::lemma_key_determines(h2, handle);
            }
            assert(self.order@[i] == target);
        }
        let i = position_of(&self.order, &target);
        self.order.remove(i);
        proof {
            self.lemma_removal_keeps_wf(prev, i as int);
            assert(0 <= i < prev.order().len() && prev.order()[i as int] == target
                && self.order() == prev.order().remove(i as int));
        }
        true
    }

    /// Removes an animated sprite; `false` when `handle` no longer refers to
    /// one. The rest of the draw order keeps its order.
    pub fn remove_animated(&mut self, handle: Handle<A>) -> (removed: bool)
        requires
            old(self).wf(),
        ensures
            final(self).wf(),
            removed == old(self).animated().contains_key(handle.key()),
            final(self).animated() == old(self).animated().remove(handle.key()),
            final(self).sprites() == old(self).sprites(),
            removed ==> exists|i: int|
                0 <= i < old(self).order().len() && old(self).order()[i]
                    == DrawHandle::<S, A>::Animated(handle) && final(self).order() == old(
                    self,
                ).order().remove(i),
            !removed ==> final(self).order() == old(self).order(),
            final(self).free_animated_slots() == if removed {
                old(self).free_animated_slots().push(handle.key().0)
            } else {
                old(self).free_animated_slots()
            },
            final(self).free_sprite_slots() == old(self).free_sprite_slots(),
            forall|g: u64| #[trigger] final(self).fresh(g) == old(self).fresh(g),
    {
        let ghost prev = *self;
        if !self.animated.remove(handle) {
            return false;
        }
        let target = DrawHandle::Animated(handle);
        proof {
            assert(prev.animated().contains_key(handle.key()));
            let i = choose|i: int|
                0 <= i < prev.order@.len() && animated_key(#[trigger] prev.order@[i], handle.key());
            if let DrawHandle::Animated(h2) = prev.order@[i] {
                Handle::lemma_key_determines(h2, handle);
            }
            assert(self.order@[i] == target);
        }
        let i = position_of(&self.order, &target);
        self.order.remove(i);
        proof {
            self.lemma_removal_keeps_wf(prev, i as int);
            assert(0 <= i < prev.order().len() && prev.order()[i as int] == target
                && self.order() == prev.order().remove(i as int));
        }
        true
    }

    /// After removing the stored object at position `i` of the draw order
    /// (and only it), the scene is well formed again.
    proof fn lemma_removal_keeps_wf(self, prev: Self, i: int)
        requires
            prev.wf(),
            self.sprites.wf(),
            self.animated.wf(),
            0 <= i < prev.order@.len(),
            self.order@ == prev.order@.remove(i),
            match prev.order@[i] {
                DrawHandle::Sprite(h) => self.sprites() == prev.sprites().remove(h.key())
                    && self.animated() == prev.animated(),
                DrawHandle::Animated(h) => self.animated() == prev.animated().remove(h.key())
                    && self.sprites() == prev.sprites(),
            },
        ensures
            self.wf(),
    {
        let t = prev.order@[i];
        assert forall|a: int, b: int|
            0 <= a < b < self.order@.len() implies #[trigger] self.order@[a]
            != #[trigger] self.order@[b] by {
            let pa = if a < i { a } else { a + 1 };
            let pb = if b < i { b } else { b + 1 };
            assert(self.order@[a] == prev.order@[pa]);
            assert(self.order@[b] == prev.order@[pb]);
            assert(prev.order@[pa] != prev.order@[pb]);
        }
        assert forall|a: int| 0 <= a < self.order@.len() implies self.resolves(
            #[trigger] self.order@[a],
        ) by {
            let pa = if a < i { a } else { a + 1 };
            assert(self.order@[a] == prev.order@[pa]);
            assert(prev.order@[pa] != t);
            assert(prev.resolves(prev.order@[pa]));
            match (t, prev.order@[pa]) {
                (DrawHandle::Sprite(h), DrawHandle::Sprite(h2)) => {
                    if h.key() == h2.key() {
                        Handle::lemma_key_determines(h, h2);
                    }
                },
                (DrawHandle::Animated(h), DrawHandle::Animated(h2)) => {
                    if h.key() == h2.key() {
                        Handle::lemma_key_determines(h, h2);
                    }
                },
                _ => {},
            }
        }
        assert forall|k: (usize, u64)| #[trigger] self.sprites().contains_key(k) implies exists|
            a: int,
        | 0 <= a < self.order@.len() && sprite_key(#[trigger] self.order@[a], k) by {
            assert(prev.sprites().contains_key(k));
            let p = choose|p: int| 0 <= p < prev.order@.len() && sprite_key(#[trigger] prev.order@[p], k);
            assert(p != i);
            let a = if p < i { p } else { p - 1 };
            assert(self.order@[a] == prev.order@[p]);
        }
        assert forall|k: (usize, u64)| #[trigger] self.animated().contains_key(k) implies exists|
            a: int,
        | 0 <= a < self.order@.len() && animated_key(#[trigger] self.order@[a], k) by {
            assert(prev.animated().contains_key(k));
            let p = choose|p: int|
                0 <= p < prev.order@.len() && animated_key(#[trigger] prev.order@[p], k);
            assert(p != i);
            let a = if p < i { p } else { p - 1 };
            assert(self.order@[a] == prev.order@[p]);
        }
    }
}

impl<S, A> Scene<S, A> {
    /// Every stored sprite's generation lies below a fresh bound.
    pub proof fn lemma_live_below_fresh(&self, k: (usize, u64), g: u64)
        requires
            self.fresh(g),
            self.sprites().contains_key(k),
        ensures
            k.1 < g,
    {
        assert(self.sprites.generations()[k.0 as int] == k.1);
    }
}

/// A removed sprite's handle never resolves again: whatever is added later
/// draws a generation at or above the counter's, and every handle handed
/// out before lies below it.
pub proof fn law_removed_handle_stays_dead<S, A>(
    before: Scene<S, A>,
    removed: Scene<S, A>,
    added: Scene<S, A>,
    gone: (usize, u64),
    new_key: (usize, u64),
    counter: u64,
    value: S,
)
    requires
        before.fresh(counter),
        before.sprites().contains_key(gone),
        removed.sprites() == before.sprites().remove(gone),
        added.sprites() == removed.sprites().insert(new_key, value),
        counter <= new_key.1,
    ensures
        !added.sprites().contains_key(gone),
        gone != new_key,
{
    before.lemma_live_below_fresh(gone, counter);
}

/// The slot a removed sprite freed is the one the next sprite added takes:
/// removal puts its slot on top of the free list, and adding reuses the top
/// of the free list before growing the arena. Its handle still differs from
/// the removed one (see `law_removed_handle_stays_dead`).
pub proof fn law_freed_slot_is_reused_first<S, A>(
    before: Scene<S, A>,
    removed: Scene<S, A>,
    gone: (usize, u64),
    new_key: (usize, u64),
)
    requires
        removed.free_sprite_slots() == before.free_sprite_slots().push(gone.0),
        new_key.0 == if removed.free_sprite_slots().len() > 0 {
            removed.free_sprite_slots().last()
        } else {
            removed.sprite_slot_count() as usize
        },
    ensures
        new_key.0 == gone.0,
{
}

} // verus!

//! A table that owns values on behalf of a foreign caller, who names them by
//! handles. A handle holds the place of its value and the generation of
//! that place; releasing a value ends the generation, so that a handle
//! cannot be used after release, nor released twice.

use vstd::prelude::*;

verus! {

/// The name of a value in an [`Arena`].
#[derive(Clone, Copy, Debug, PartialEq, Eq, Structural)]
pub struct Handle {
    /// The place in the table.
    pub index: u32,
    /// The generation of that place, at least 1.
    pub generation: u32,
}

struct Slot<T> {
    generation: u32,
    value: Option<T>,
}

/// A table of values of one type. A place is used again after its value was
/// released, under the next generation, until its generations are used up.
pub struct Arena<T> {
    slots: Vec<Slot<T>>,
    free: Vec<u32>,
}

impl Handle {
    /// The handle as one number. Zero is no handle.
    pub open spec fn raw_value(self) -> int {
        self.generation * 0x1_0000_0000 + self.index
    }

    /// The handle as one number, to be given to the foreign caller.
    pub fn to_raw(&self) -> (raw: u64)
        ensures
            raw == self.raw_value(),
            self.generation >= 1 ==> raw != 0,
    {
        let high: u64 = self.generation as u64;
        let low: u64 = self.index as u64;
        high * 0x1_0000_0000 + low
    }

    /// The handle that a number stands for: the inverse of `to_raw`.
    pub fn from_raw(raw: u64) -> (handle: Handle)
        ensures
            handle.raw_value() == raw,
    {
        let high: u64 = raw / 0x1_0000_0000;
        let low: u64 = raw % 0x1_0000_0000;
        Handle { index: low as u32, generation: high as u32 }
    }
}

/// A number and its handle determine each other.
pub proof fn lemma_raw_value_is_injective(a: Handle, b: Handle)
    requires
        a.raw_value() == b.raw_value(),
    ensures
        a == b,
{
}

impl<T> View for Arena<T> {
    type V = Map<Handle, T>;

    /// The values of the table by their handles.
    open spec fn view(&self) -> Map<Handle, T> {
        Map::new(|h: Handle| self.live(h), |h: Handle| self.value(h))
    }
}

impl<T> Arena<T> {
    #[verifier::type_invariant]
    spec fn wf(self) -> bool {
        &&& self.slots@.len() <= u32::MAX
        &&& forall|i: int|
            0 <= i < self.slots@.len() ==> {
                &&& (#[trigger] self.slots@[i]).generation >= 1
                &&& self.slots@[i].value is Some ==> self.slots@[i].generation < u32::MAX
            }
        &&& forall|k: int|
            0 <= k < self.free@.len() ==> {
                &&& (#[trigger] self.free@[k]) < self.slots@.len()
                &&& self.slots@[self.free@[k] as int].value is None
                &&& self.slots@[self.free@[k] as int].generation < u32::MAX
            }
        &&& forall|k: int, l: int|
            0 <= k < l < self.free@.len() ==> #[trigger] self.free@[k] != #[trigger] self.free@[l]
    }

    /// Whether `handle` names a value of the table.
    pub closed spec fn live(self, handle: Handle) -> bool {
        &&& handle.index < self.slots@.len()
        &&& self.slots@[handle.index as int].generation == handle.generation
        &&& self.slots@[handle.index as int].value is Some
    }

    /// The value that a live handle names.
    pub closed spec fn value(self, handle: Handle) -> T {
        self.slots@[handle.index as int].value->Some_0
    }

    /// Whether `handle` has been released. Such a handle names nothing, now
    /// and ever after.
    pub closed spec fn released(self, handle: Handle) -> bool {
        &&& handle.index < self.slots@.len()
        &&& 1 <= handle.generation < self.slots@[handle.index as int].generation
    }

    /// Whether the table has no room for one more value.
    pub closed spec fn full(self) -> bool {
        self.free@.len() == 0 && self.slots@.len() == u32::MAX
    }

    /// `later` is this table after `value` was put into it: `handle` is the
    /// new name of `value`, a name that named nothing and was never released;
    /// or the table was full, and nothing has changed.
    pub open spec fn stored(self, later: Self, handle: Option<Handle>, value: T) -> bool {
        &&& handle.is_none() == self.full()
        &&& self.keeps_released(later)
        &&& match handle {
            Some(h) => {
                &&& h.generation >= 1
                &&& !self@.contains_key(h)
                &&& !self.released(h)
                &&& later@ == self@.insert(h, value)
            },
            None => later@ == self@,
        }
    }

    /// `later` is this table after some calls: what was released stays
    /// released.
    pub open spec fn keeps_released(self, later: Self) -> bool {
        forall|h: Handle| self.released(h) ==> #[trigger] later.released(h)
    }

    /// An empty table.
    pub fn new() -> (arena: Self)
        ensures
            arena@ == Map::<Handle, T>::empty(),
            !arena.full(),
            forall|h: Handle| !arena.released(h),
    {
        let arena = Arena { slots: Vec::new(), free: Vec::new() };
        assert(arena@ =~= Map::<Handle, T>::empty());
        arena
    }

    /// Puts `value` into the table and returns its handle, which names
    /// nothing else and was never released. `None` if the table is full.
    pub fn allocate(&mut self, value: T) -> (handle: Option<Handle>)
        ensures
            old(self).stored(*final(self), handle, value),
    {
        proof {
            use_type_invariant(&*self);
        }
        let mut slots: Vec<Slot<T>> = Vec::new();
        let mut free: Vec<u32> = Vec::new();
        std::mem::swap(&mut free, &mut self.free);
        std::mem::swap(&mut slots, &mut self.slots);
        let ghost before = Arena { slots, free };
        let handle = match free.pop() {
            Some(index) => {
                let generation = slots[index as usize].generation;
                slots.set(index as usize, Slot { generation, value: Some(value) });
                Some(Handle { index, generation })
            },
            None => {
                if slots.len() >= u32::MAX as usize {
                    None
                } else {
                    let index = slots.len() as u32;
                    slots.push(Slot { generation: 1, value: Some(value) });
                    Some(Handle { index, generation: 1 })
                }
            },
        };
        self.slots = slots;
        self.free = free;
        proof {
            match handle {
                Some(h) => {
                    assert(self@ =~= before@.insert(h, value));
                },
                None => {
                    assert(self@ =~= before@);
                },
            }
        }
        handle
    }

    /// The value that `handle` names, if it names one.
    pub fn get(&self, handle: Handle) -> (value: Option<&T>)
        ensures
            match value {
                Some(v) => self@.contains_key(handle) && *v == self@[handle],
                None => !self@.contains_key(handle),
            },
            self.released(handle) ==> value.is_none(),
    {
        proof {
            use_type_invariant(self);
        }
        if (handle.index as usize) < self.slots.len() {
            let slot = &self.slots[handle.index as usize];
            if slot.generation == handle.generation {
                return slot.value.as_ref();
            }
        }
        None
    }

    /// Releases the value that `handle` names. Returns whether it named one;
    /// if not, the table is unchanged.
    pub fn release(&mut self, handle: Handle) -> (done: bool)
        ensures
            done == old(self)@.contains_key(handle),
            done ==> final(self)@ == old(self)@.remove(handle) && final(self).released(handle),
            !done ==> *final(self) == *old(self),
            old(self).keeps_released(*final(self)),
            final(self).full() ==> old(self).full(),
    {
        proof {
            use_type_invariant(&*self);
        }
        let index = handle.index as usize;
        if index >= self.slots.len() {
            return false;
        }
        if self.slots[index].generation != handle.generation || self.slots[index].value.is_none() {
            return false;
        }
        let mut slots: Vec<Slot<T>> = Vec::new();
        let mut free: Vec<u32> = Vec::new();
        std::mem::swap(&mut free, &mut self.free);
        std::mem::swap(&mut slots, &mut self.slots);
        let ghost before = Arena { slots, free };
        slots.set(index, Slot { generation: handle.generation + 1, value: None });
        if handle.generation + 1 < u32::MAX {
            free.push(handle.index);
        }
        proof {
            // the place was taken, so it was not among the free ones
            assert forall|k: int| 0 <= k < before.free@.len() implies before.free@[k]
                != handle.index by {
                assert(before.slots@[before.free@[k] as int].value is None);
            }
            assert forall|k: int| 0 <= k < free@.len() implies {
                &&& (#[trigger] free@[k]) < slots@.len()
                &&& slots@[free@[k] as int].value is None
                &&& slots@[free@[k] as int].generation < u32::MAX
            } by {
                if k < before.free@.len() {
                    assert(before.free@[k] == free@[k]);
                }
            }
        }
        self.slots = slots;
        self.free = free;
        proof {
            assert(self@ =~= before@.remove(handle));
        }
        true
    }
}

/// A released handle names nothing.
pub proof fn lemma_released_is_not_live<T>(arena: Arena<T>, handle: Handle)
    requires
        arena.released(handle),
    ensures
        !arena@.contains_key(handle),
{
}

} // verus!

//! An allocator of numbers that hands a number out again once it was given back.

use vstd::prelude::*;

verus! {

/// Hands out numbers, each to one holder at a time: a number that was given back is handed
/// out again before a new one is made.
pub struct RecycleAllocator {
    current: usize,
    recycled: Vec<usize>,
}

impl RecycleAllocator {
    /// The lowest number that has never been handed out.
    pub closed spec fn current(&self) -> usize {
        self.current
    }

    /// The numbers that were given back and not handed out again, oldest first.
    pub closed spec fn recycled(&self) -> Seq<usize> {
        self.recycled@
    }

    /// The numbers that are held: those below [`Self::current`] that were not given back.
    pub open spec fn held(&self) -> Set<usize> {
        Set::new(|id: usize| id < self.current() && !self.recycled().contains(id))
    }

    /// Every number that was given back is below [`Self::current`], and none was given back
    /// twice.
    pub open spec fn wf(&self) -> bool {
        &&& self.recycled().no_duplicates()
        &&& forall|i: int|
            0 <= i < self.recycled().len() ==> #[trigger] self.recycled()[i] < self.current()
    }

    /// An allocator whose first new number is `init_val`; the numbers below it count as held.
    pub fn new(init_val: usize) -> (r: Self)
        ensures
            r.wf(),
            r.current() == init_val,
            r.recycled() == Seq::<usize>::empty(),
    {
        RecycleAllocator { current: init_val, recycled: Vec::new() }
    }

    /// Hands out a number that is not held: the one given back last, or else a new one.
    pub fn alloc_id(&mut self) -> (id: usize)
        requires
            old(self).wf(),
            old(self).recycled().len() > 0 || old(self).current() < usize::MAX,
        ensures
            final(self).wf(),
            !old(self).held().contains(id),
            final(self).held() == old(self).held().insert(id),
            old(self).recycled().len() > 0 ==> {
                &&& id == old(self).recycled().last()
                &&& final(self).recycled() == old(self).recycled().drop_last()
                &&& final(self).current() == old(self).current()
            },
            old(self).recycled().len() == 0 ==> {
                &&& id == old(self).current()
                &&& final(self).recycled() == old(self).recycled()
                &&& final(self).current() == old(self).current() + 1
            },
    {
        match self.recycled.pop() {
            Some(id) => {
                proof {
                    let before = old(self).recycled();
                    assert(before[before.len() - 1] == id);
                    assert forall|other: usize|
                        self.held().contains(other) <==> old(self).held().insert(id).contains(
                            other,
                        ) by {
                        if other != id && before.contains(other) {
                            let k = choose|k: int| 0 <= k < before.len() && before[k] == other;
                            assert(self.recycled()[k] == other);
                        }
                        if self.recycled().contains(other) {
                            let k = choose|k: int|
                                0 <= k < self.recycled().len() && self.recycled()[k] == other;
                            assert(before[k] == other);
                        }
                    }
                    assert(self.held() =~= old(self).held().insert(id));
                }
                id
            },
            None => {
                self.current = self.current + 1;
                proof {
                    assert(self.held() =~= old(self).held().insert(old(self).current()));
                }
                self.current - 1
            },
        }
    }

    /// Takes back a number that is held.
    pub fn dealloc(&mut self, id: usize)
        requires
            old(self).wf(),
            old(self).held().contains(id),
        ensures
            final(self).wf(),
            final(self).held() == old(self).held().remove(id),
            final(self).recycled() == old(self).recycled().push(id),
            final(self).current() == old(self).current(),
    {
        self.recycled.push(id);
        proof {
            let before = old(self).recycled();
            assert forall|other: usize|
                self.held().contains(other) <==> old(self).held().remove(id).contains(other) by {
                if before.contains(other) {
                    let k = choose|k: int| 0 <= k < before.len() && before[k] == other;
                    assert(self.recycled()[k] == other);
                }
                if other == id {
                    assert(self.recycled()[before.len() as int] == id);
                }
            }
            assert(self.held() =~= old(self).held().remove(id));
        }
    }

    /// Whether `id` is held.
    pub fn is_held(&self, id: usize) -> (r: bool)
        ensures
            r == self.held().contains(id),
    {
        if id >= self.current {
            return false;
        }
        let mut i: usize = 0;
        while i < self.recycled.len()
            invariant
                i <= self.recycled.len(),
                forall|k: int| 0 <= k < i ==> self.recycled()[k] != id,
            decreases self.recycled.len() - i,
        {
            if self.recycled[i] == id {
                return false;
            }
            i = i + 1;
        }
        true
    }
}

} // verus!

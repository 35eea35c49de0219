use vstd::prelude::*;

verus! {

/// A ring of at most `N` items: once full, each write replaces the oldest item.
pub struct RingBuffer<T, const N: usize> {
    storage: Vec<T>,
    pos: usize,
}

impl<T, const N: usize> View for RingBuffer<T, N> {
    type V = Seq<T>;

    /// The items in storage order (not in order of age once the ring has wrapped).
    closed spec fn view(&self) -> Seq<T> {
        self.storage@
    }
}

/// What a write of `elem` makes of the items `s`, with `pos` the slot written when full.
pub open spec fn ring_written<T>(s: Seq<T>, cap: nat, pos: nat, elem: T) -> Seq<T> {
    if s.len() < cap {
        s.push(elem)
    } else {
        s.update(pos as int, elem)
    }
}

impl<T, const N: usize> RingBuffer<T, N> {
    /// The slot that the next write fills once the ring is full (the oldest item).
    pub closed spec fn cursor(&self) -> nat {
        self.pos as nat
    }

    pub closed spec fn wf(&self) -> bool {
        &&& 0 < N
        &&& self.storage@.len() <= N
        &&& self.pos < N
        &&& self.storage@.len() < N ==> self.pos == self.storage@.len()
    }

    pub fn new() -> (r: Self)
        requires
            0 < N,
        ensures
            r.wf(),
            r@ == Seq::<T>::empty(),
            r.cursor() == 0,
    {
        RingBuffer { storage: Vec::with_capacity(N), pos: 0 }
    }

    pub fn len(&self) -> (r: usize)
        ensures
            r == self@.len(),
    {
        self.storage.len()
    }

    /// The items in storage order.
    pub fn as_vec(&self) -> (r: &Vec<T>)
        ensures
            r@ == self@,
            self.wf() ==> r@.len() <= N,
    {
        &self.storage
    }

    pub fn is_empty(&self) -> (r: bool)
        ensures
            r == (self@.len() == 0),
    {
        self.storage.len() == 0
    }

    pub fn read(&self, index: usize) -> (r: Option<&T>)
        ensures
            index < self@.len() ==> r == Some(&self@[index as int]),
            index >= self@.len() ==> r.is_none(),
    {
        if index < self.storage.len() {
            Some(&self.storage[index])
        } else {
            None
        }
    }

    /// Replaces the item at `index`, if there is one, and hands back the item it held.
    pub fn read_mut(&mut self, index: usize, elem: T) -> (r: Option<T>)
        requires
            old(self).wf(),
        ensures
            final(self).wf(),
            final(self).cursor() == old(self).cursor(),
            index < old(self)@.len() ==> r == Some(old(self)@[index as int]) && final(self)@
                == old(self)@.update(index as int, elem),
            index >= old(self)@.len() ==> r.is_none() && final(self)@ == old(self)@,
    {
        if index < self.storage.len() {
            let prev = self.storage.remove(index);
            self.storage.insert(index, elem);
            Some(prev)
        } else {
            None
        }
    }

    pub fn write(&mut self, elem: T)
        requires
            old(self).wf(),
        ensures
            final(self).wf(),
            final(self)@ == ring_written(old(self)@, N as nat, old(self).cursor(), elem),
            final(self).cursor() == (old(self).cursor() + 1) % (N as nat),
    {
        if self.storage.len() < N {
            self.storage.push(elem);
        } else {
            let _ = self.read_mut(self.pos, elem);
        }
        proof {
            if self.pos + 1 == N {
                vstd::arithmetic::div_mod::lemma_mod_self_0(N as int);
            } else {
                vstd::arithmetic::div_mod::lemma_small_mod((self.pos + 1) as nat, N as nat);
            }
        }
        self.pos = if self.pos + 1 == N { 0 } else { self.pos + 1 };
    }

    pub fn clear(&mut self)
        requires
            old(self).wf(),
        ensures
            final(self).wf(),
            final(self)@ == Seq::<T>::empty(),
            final(self).cursor() == 0,
    {
        self.storage.clear();
        self.pos = 0;
    }

    pub fn iter(&self) -> (r: Iter<'_, T>)
        ensures
            r.wf(),
            r.rest() == self@,
    {
        Iter { items: self.storage.as_slice(), index: 0 }
    }

    pub fn into_iter(self) -> (r: IntoIter<T>)
        ensures
            r.wf(),
            r.rest() == self@,
    {
        IntoIter { items: self.storage, index: 0 }
    }
}

/// Walks the items of a ring buffer in storage order, by reference.
pub struct Iter<'a, T> {
    items: &'a [T],
    index: usize,
}

impl<'a, T> Iter<'a, T> {
    pub closed spec fn wf(&self) -> bool {
        self.index <= self.items@.len()
    }

    /// The items not yet handed out.
    pub closed spec fn rest(&self) -> Seq<T> {
        self.items@.skip(self.index as int)
    }

    pub fn next(&mut self) -> (r: Option<&'a T>)
        requires
            old(self).wf(),
        ensures
            final(self).wf(),
            old(self).rest().len() == 0 ==> r.is_none() && final(self).rest() == old(self).rest(),
            old(self).rest().len() > 0 ==> r == Some(&old(self).rest()[0]) && final(self).rest()
                == old(self).rest().skip(1),
    {
        if self.index < self.items.len() {
            let item = &self.items[self.index];
            self.index = self.index + 1;
            assert(self.rest() =~= old(self).rest().skip(1));
            Some(item)
        } else {
            None
        }
    }

    pub fn len(&self) -> (r: usize)
        requires
            self.wf(),
        ensures
            r == self.rest().len(),
    {
        self.items.len() - self.index
    }
}

/// Walks the items of a ring buffer in storage order, by value.
pub struct IntoIter<T> {
    items: Vec<T>,
    index: usize,
}

impl<T: Copy> IntoIter<T> {
    pub fn next(&mut self) -> (r: Option<T>)
        requires
            old(self).wf(),
        ensures
            final(self).wf(),
            old(self).rest().len() == 0 ==> r.is_none() && final(self).rest() == old(self).rest(),
            old(self).rest().len() > 0 ==> r == Some(old(self).rest()[0]) && final(self).rest()
                == old(self).rest().skip(1),
    {
        if self.index < self.items.len() {
            let item = self.items[self.index];
            self.index = self.index + 1;
            assert(self.rest() =~= old(self).rest().skip(1));
            Some(item)
        } else {
            None
        }
    }
}

impl<T> IntoIter<T> {
    pub closed spec fn wf(&self) -> bool {
        self.index <= self.items@.len()
    }

    /// The items not yet handed out.
    pub closed spec fn rest(&self) -> Seq<T> {
        self.items@.skip(self.index as int)
    }

    pub fn len(&self) -> (r: usize)
        requires
            self.wf(),
        ensures
            r == self.rest().len(),
    {
        self.items.len() - self.index
    }
}

} // verus!

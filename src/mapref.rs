use vstd::prelude::*;

verus! {

/// A shared view of one entry. It holds a shared borrow of the map, so no
/// writer can reach the map while the guard is alive.
pub struct MapRef<'a, V> {
    pub key: u64,
    pub value: &'a V,
}

impl<'a, V> MapRef<'a, V> {
    pub fn new(key: u64, value: &'a V) -> (r: MapRef<'a, V>)
        ensures
            r.key == key,
            *r.value == *value,
    {
        MapRef { key, value }
    }

    pub fn key(&self) -> (r: u64)
        ensures
            r == self.key,
    {
        self.key
    }

    pub fn value(&self) -> (r: &V)
        ensures
            *r == *self.value,
    {
        self.value
    }

    pub fn pair(&self) -> (r: (u64, &V))
        ensures
            r.0 == self.key,
            *r.1 == *self.value,
    {
        (self.key, self.value)
    }
}

/// An exclusive view of one entry: the key can be read, the value read and
/// written. It holds the map's exclusive borrow for as long as it lives.
pub struct MapRefMut<'a, V> {
    pub key: u64,
    pub value: &'a mut V,
}

impl<'a, V> MapRefMut<'a, V> {
    pub fn new(key: u64, value: &'a mut V) -> (r: MapRefMut<'a, V>)
        ensures
            r.key == key,
            *r.value == *old(value),
            *final(r.value) == *final(value),
    {
        MapRefMut { key, value }
    }

    pub fn key(&self) -> (r: u64)
        ensures
            r == self.key,
    {
        self.key
    }

    pub fn value(&self) -> (r: &V)
        ensures
            *r == *old(self.value),
    {
        &*self.value
    }

    /// Replaces the value, handing back the one it held.
    pub fn set(&mut self, value: V) -> (r: V)
        ensures
            r == *old(self).value,
            final(self).key == old(self).key,
            *final(self).value == value,
            *final(final(self).value) == *final(old(self).value),
    {
        let mut v = value;
        std::mem::swap(self.value, &mut v);
        v
    }
}

} // verus!

use vstd::prelude::*;
use std::collections::HashMap;

verus! {

/// Cursor definitions registered under numeric ids chosen by the application.
pub struct CursorRegistry<D> {
    cursors: HashMap<u16, D>,
}

impl<D> View for CursorRegistry<D> {
    type V = Map<u16, D>;

    closed spec fn view(&self) -> Map<u16, D> {
        self.cursors@
    }
}

impl<D> CursorRegistry<D> {
    pub fn new() -> (r: CursorRegistry<D>)
        ensures
            r@ == Map::<u16, D>::empty(),
    {
        CursorRegistry { cursors: HashMap::new() }
    }

    /// Registers `def` under `id`, replacing what was registered there before.
    pub fn register(&mut self, id: u16, def: D)
        ensures
            final(self)@ == old(self)@.insert(id, def),
    {
        broadcast use vstd::std_specs::hash::group_hash_axioms;
        self.cursors.insert(id, def);
    }

    /// The definition registered under `id`, if any.
    pub fn get(&self, id: u16) -> (r: Option<&D>)
        ensures
            match r {
                Some(def) => self@.contains_key(id) && *def == self@[id],
                None => !self@.contains_key(id),
            },
    {
        broadcast use vstd::std_specs::hash::group_hash_axioms;
        self.cursors.get(&id)
    }
}

/// Native cursors, each registered under the next number of a counter that starts at 1 (and
/// wraps around after `u32::MAX`).
pub struct NativeCursorRegistry<C> {
    next_id: u32,
    cursors: HashMap<u32, C>,
}

impl<C> View for NativeCursorRegistry<C> {
    type V = Map<u32, C>;

    closed spec fn view(&self) -> Map<u32, C> {
        self.cursors@
    }
}

impl<C> NativeCursorRegistry<C> {
    /// The id that the next registered cursor gets.
    pub closed spec fn next_id(&self) -> u32 {
        self.next_id
    }

    /// Every registered id lies in `1..next_id`, so the next id is free.
    pub open spec fn ids_below_next(&self) -> bool {
        forall|id: u32| #[trigger] self@.contains_key(id) ==> 1 <= id < self.next_id()
    }

    pub fn new() -> (r: NativeCursorRegistry<C>)
        ensures
            r@ == Map::<u32, C>::empty(),
            r.next_id() == 1,
            r.ids_below_next(),
    {
        NativeCursorRegistry { next_id: 1, cursors: HashMap::new() }
    }

    /// Registers `cursor` under the next id and returns that id.
    pub fn register(&mut self, cursor: C) -> (id: u32)
        ensures
            id == old(self).next_id(),
            final(self).next_id() == (if old(self).next_id() == u32::MAX {
                0
            } else {
                (old(self).next_id() + 1) as u32
            }),
            final(self)@ == old(self)@.insert(id, cursor),
            old(self).ids_below_next() && 1 <= old(self).next_id() < u32::MAX ==> {
                &&& !old(self)@.contains_key(id)
                &&& final(self).ids_below_next()
            },
    {
        broadcast use vstd::std_specs::hash::group_hash_axioms;
        let id = self.next_id;
        self.next_id = self.next_id.wrapping_add(1);
        self.cursors.insert(id, cursor);
        id
    }

    /// The cursor registered under `id`, if any.
    pub fn get(&self, id: u32) -> (r: Option<&C>)
        ensures
            match r {
                Some(cursor) => self@.contains_key(id) && *cursor == self@[id],
                None => !self@.contains_key(id),
            },
    {
        broadcast use vstd::std_specs::hash::group_hash_axioms;
        self.cursors.get(&id)
    }
}

} // verus!

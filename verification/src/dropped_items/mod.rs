//! Dropped items: definitions of what a defeated entity can drop, a
//! registry of them by name, and gold drops.

pub mod loader;

use vstd::prelude::*;

use crate::named_map::NamedMap;

verus! {

/// One item that can drop: its name, type, amount range and weight. The
/// weight's number type `W` is a parameter.
pub struct DroppedItemDefinition<W> {
    /// Item identifier, the key in a [`DroppedItemTemplate`].
    pub name: String,
    /// Item type (`"gold"`, `"exp"`, `"material"`, ...).
    pub item_type: String,
    /// Least amount dropped (inclusive).
    pub min_amount: u32,
    /// Greatest amount dropped (inclusive).
    pub max_amount: u32,
    /// Drop weight; a higher weight makes the drop likelier.
    pub weight: W,
}

/// A pickable gold drop.
#[derive(Clone, Copy, Debug, PartialEq, Eq, Structural)]
pub struct GoldDroppedItem {
    /// Gold that the drop holds.
    pub amount: u32,
}

/// Dropped-item definitions by name.
pub struct DroppedItemTemplate<W> {
    /// Definitions by name.
    pub definitions: NamedMap<DroppedItemDefinition<W>>,
}

impl<W> DroppedItemTemplate<W> {
    /// An empty template.
    pub fn new() -> (t: Self)
        ensures
            t.definitions@ == Map::<Seq<char>, DroppedItemDefinition<W>>::empty(),
    {
        DroppedItemTemplate { definitions: NamedMap::new() }
    }

    /// Inserts or replaces a definition, keyed by its name.
    pub fn define(&mut self, def: DroppedItemDefinition<W>)
        ensures
            final(self).definitions@ == old(self).definitions@.insert(def.name@, def),
    {
        let key = def.name.clone();
        self.definitions.insert(key, def);
    }

    /// The definition called `name`, if any.
    pub fn get(&self, name: &str) -> (r: Option<&DroppedItemDefinition<W>>)
        ensures
            r == (if self.definitions@.contains_key(name@) { Some(&self.definitions@[name@]) } else { None }),
    {
        self.definitions.get(name)
    }
}

} // verus!

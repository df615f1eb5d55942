//! Attributes: bounded numbers with modifiers, named sets of them, and
//! templates that describe how to build such sets.
//!
//! The number type `N` is a parameter: the library decides which modifiers
//! apply and which definitions go into a set; the arithmetic on the numbers
//! (sums, products, clamping) is left to the code that picks `N`.

pub mod loader;

use vstd::prelude::*;

use crate::named_map::{lemma_map_of_value, NamedMap};

verus! {

/// The kind of modification an [`AttributeModifier`] applies.
pub enum ModifierKind<N> {
    /// Adds or subtracts a fixed amount.
    Flat(N),
    /// Scales by a ratio of the base (`0.1` is +10%).
    Percent(N),
    /// Replaces the value outright.
    Override(N),
}

/// A modifier applied to an [`Attribute`] (a buff, an item, a skill).
pub struct AttributeModifier<N> {
    /// Identifier used to keep a modifier from being applied twice.
    pub id: String,
    /// Tag that groups modifiers or records their source.
    pub tag_id: String,
    /// What the modifier does.
    pub kind: ModifierKind<N>,
}

/// A bounded numeric attribute: base and current value, bounds, and the
/// modifiers that act on the current value.
pub struct Attribute<N> {
    /// Base value, unaffected by temporary effects.
    pub base: N,
    /// Current value.
    pub value: N,
    /// Upper bound.
    pub max: N,
    /// Lower bound.
    pub min: N,
    /// Modifiers, in the order they were added.
    pub modifiers: Vec<AttributeModifier<N>>,
}

/// Some modifier in `mods` carries `id`.
pub open spec fn has_modifier<N>(mods: Seq<AttributeModifier<N>>, id: Seq<char>) -> bool {
    exists|i: int| 0 <= i < mods.len() && #[trigger] mods[i].id@ == id
}

/// `mods` without the modifiers that carry `id`.
pub open spec fn without_modifier<N>(mods: Seq<AttributeModifier<N>>, id: Seq<char>) -> Seq<AttributeModifier<N>> {
    mods.filter(|m: AttributeModifier<N>| m.id@ != id)
}

/// No two modifiers of `mods` carry the same id.
pub open spec fn distinct_ids<N>(mods: Seq<AttributeModifier<N>>) -> bool {
    forall|i: int, j: int|
        0 <= i < mods.len() && 0 <= j < mods.len() && i != j ==> #[trigger] mods[i].id@ != #[trigger] mods[j].id@
}

/// The amounts of the `Flat` modifiers, in order.
pub open spec fn flat_amounts<N>(mods: Seq<AttributeModifier<N>>) -> Seq<N>
    decreases mods.len(),
{
    if mods.len() == 0 {
        Seq::empty()
    } else {
        let r = flat_amounts(mods.drop_last());
        match mods.last().kind {
            ModifierKind::Flat(a) => r.push(a),
            _ => r,
        }
    }
}

/// The ratios of the `Percent` modifiers, in order.
pub open spec fn percent_ratios<N>(mods: Seq<AttributeModifier<N>>) -> Seq<N>
    decreases mods.len(),
{
    if mods.len() == 0 {
        Seq::empty()
    } else {
        let r = percent_ratios(mods.drop_last());
        match mods.last().kind {
            ModifierKind::Percent(a) => r.push(a),
            _ => r,
        }
    }
}

/// The value of the last `Override` modifier, if there is one.
pub open spec fn last_override<N>(mods: Seq<AttributeModifier<N>>) -> Option<N>
    decreases mods.len(),
{
    if mods.len() == 0 {
        None
    } else {
        match mods.last().kind {
            ModifierKind::Override(v) => Some(v),
            _ => last_override(mods.drop_last()),
        }
    }
}

/// What recalculating an attribute's value needs from its modifiers: the
/// current value is `base` plus the flat amounts, scaled by one plus the sum
/// of the ratios, unless an override exists, whose last one gives the value.
pub struct ModifierSummary<N> {
    /// Amounts of the `Flat` modifiers, in order.
    pub flats: Vec<N>,
    /// Ratios of the `Percent` modifiers, in order.
    pub percents: Vec<N>,
    /// Value of the last `Override` modifier.
    pub last_override: Option<N>,
}

impl<N: Copy> Attribute<N> {
    /// Resets the current value to the base value.
    pub fn reset(&mut self)
        ensures
            final(self).value == old(self).base,
            final(self).base == old(self).base,
            final(self).min == old(self).min,
            final(self).max == old(self).max,
            final(self).modifiers@ == old(self).modifiers@,
    {
        self.value = self.base;
    }

    /// Whether a modifier with `id` is present.
    pub fn has_modifier(&self, id: &str) -> (b: bool)
        ensures
            b == has_modifier(self.modifiers@, id@),
    {
        let key: String = id.to_owned();
        let mut i: usize = 0;
        while i < self.modifiers.len()
            invariant
                i <= self.modifiers@.len(),
                key@ == id@,
                forall|j: int| 0 <= j < i ==> #[trigger] self.modifiers@[j].id@ != id@,
            decreases self.modifiers@.len() - i,
        {
            if self.modifiers[i].id == key {
                return true;
            }
            i = i + 1;
        }
        false
    }

    /// Adds `modifier` unless one with the same id is already present, and
    /// says whether it was added. When it was, the current value is due to be
    /// recalculated from [`Attribute::modifier_summary`].
    pub fn add_modifier(&mut self, modifier: AttributeModifier<N>) -> (added: bool)
        ensures
            added == !has_modifier(old(self).modifiers@, modifier.id@),
            final(self).modifiers@ == (if added { old(self).modifiers@.push(modifier) } else { old(self).modifiers@ }),
            final(self).base == old(self).base,
            final(self).value == old(self).value,
            final(self).min == old(self).min,
            final(self).max == old(self).max,
    {
        if self.has_modifier(modifier.id.as_str()) {
            return false;
        }
        self.modifiers.push(modifier);
        true
    }

    /// Removes every modifier with `id` and says whether any was removed.
    /// When one was, the current value is due to be recalculated.
    pub fn remove_modifier(&mut self, id: &str) -> (removed: bool)
        ensures
            final(self).modifiers@ == without_modifier(old(self).modifiers@, id@),
            removed == has_modifier(old(self).modifiers@, id@),
            final(self).base == old(self).base,
            final(self).value == old(self).value,
            final(self).min == old(self).min,
            final(self).max == old(self).max,
    {
        let ghost orig = self.modifiers@;
        let key: String = id.to_owned();
        let mut rest: Vec<AttributeModifier<N>> = Vec::new();
        std::mem::swap(&mut rest, &mut self.modifiers);
        let mut kept: Vec<AttributeModifier<N>> = Vec::new();
        let mut removed = false;
        let ghost mut k: int = 0;
        proof {
            assert(orig.take(0) =~= Seq::<AttributeModifier<N>>::empty());
            assert(orig.take(0).filter(|m: AttributeModifier<N>| m.id@ != id@) =~= Seq::<AttributeModifier<N>>::empty());
            assert(rest@ =~= orig.skip(0));
        }
        while rest.len() > 0
            invariant
                0 <= k <= orig.len(),
                key@ == id@,
                rest@ == orig.skip(k),
                kept@ == orig.take(k).filter(|m: AttributeModifier<N>| m.id@ != id@),
                removed == has_modifier(orig.take(k), id@),
            decreases rest@.len(),
        {
            let m = rest.remove(0);
            proof {
                assert(m == orig[k]);
                assert(orig.take(k + 1) =~= orig.take(k).push(m));
                orig.take(k).lemma_filter_push(m, |m: AttributeModifier<N>| m.id@ != id@);
                assert(orig.skip(k).drop_first() =~= orig.skip(k + 1));
                if has_modifier(orig.take(k + 1), id@) && m.id@ != id@ {
                    let j = choose|j: int| 0 <= j < k + 1 && #[trigger] orig.take(k + 1)[j].id@ == id@;
                    assert(orig.take(k)[j] == orig.take(k + 1)[j]);
                }
                if has_modifier(orig.take(k), id@) {
                    let j = choose|j: int| 0 <= j < k && #[trigger] orig.take(k)[j].id@ == id@;
                    assert(orig.take(k + 1)[j] == orig.take(k)[j]);
                }
                if m.id@ == id@ {
                    assert(orig.take(k + 1)[k] == m);
                }
                k = k + 1;
            }
            if m.id == key {
                removed = true;
            } else {
                kept.push(m);
            }
        }
        proof {
            assert(orig.take(k) =~= orig);
        }
        self.modifiers = kept;
        removed
    }

    /// The parts of the modifiers that recalculating the current value uses.
    pub fn modifier_summary(&self) -> (s: ModifierSummary<N>)
        ensures
            s.flats@ == flat_amounts(self.modifiers@),
            s.percents@ == percent_ratios(self.modifiers@),
            s.last_override == last_override(self.modifiers@),
    {
        let mut flats: Vec<N> = Vec::new();
        let mut percents: Vec<N> = Vec::new();
        let mut last: Option<N> = None;
        let mut i: usize = 0;
        while i < self.modifiers.len()
            invariant
                i <= self.modifiers@.len(),
                flats@ == flat_amounts(self.modifiers@.take(i as int)),
                percents@ == percent_ratios(self.modifiers@.take(i as int)),
                last == last_override(self.modifiers@.take(i as int)),
            decreases self.modifiers@.len() - i,
        {
            proof {
                assert(self.modifiers@.take(i + 1).drop_last() =~= self.modifiers@.take(i as int));
                assert(self.modifiers@.take(i + 1).last() == self.modifiers@[i as int]);
            }
            match &self.modifiers[i].kind {
                ModifierKind::Flat(a) => flats.push(*a),
                ModifierKind::Percent(a) => percents.push(*a),
                ModifierKind::Override(v) => last = Some(*v),
            }
            i = i + 1;
        }
        proof {
            assert(self.modifiers@.take(i as int) =~= self.modifiers@);
        }
        ModifierSummary { flats, percents, last_override: last }
    }
}


/// Adding a modifier whose id is new and then removing that id leaves the
/// modifiers as they were.
pub proof fn law_add_then_remove_modifier<N>(mods: Seq<AttributeModifier<N>>, m: AttributeModifier<N>)
    requires
        !has_modifier(mods, m.id@),
    ensures
        without_modifier(mods.push(m), m.id@) == mods,
{
    let p = |x: AttributeModifier<N>| x.id@ != m.id@;
    mods.lemma_filter_push(m, p);
    lemma_filter_keeps_all(mods, m.id@);
}

/// When no modifier carries `id`, removing `id` keeps every modifier.
pub proof fn lemma_filter_keeps_all<N>(mods: Seq<AttributeModifier<N>>, id: Seq<char>)
    requires
        !has_modifier(mods, id),
    ensures
        without_modifier(mods, id) == mods,
    decreases mods.len(),
{
    reveal_with_fuel(Seq::filter, 1);
    if mods.len() > 0 {
        let d = mods.drop_last();
        assert(!has_modifier(d, id)) by {
            if has_modifier(d, id) {
                let j = choose|j: int| 0 <= j < d.len() && #[trigger] d[j].id@ == id;
                assert(mods[j] == d[j]);
            }
        }
        lemma_filter_keeps_all(d, id);
        assert(mods.last() == mods[mods.len() - 1]);
        assert(d.push(mods.last()) =~= mods);
        d.lemma_filter_push(mods.last(), |x: AttributeModifier<N>| x.id@ != id);
    }
}

/// Adding modifiers through [`Attribute::add_modifier`] never gives two
/// modifiers the same id.
pub proof fn law_add_keeps_ids_distinct<N>(mods: Seq<AttributeModifier<N>>, m: AttributeModifier<N>)
    requires
        distinct_ids(mods),
    ensures
        distinct_ids(if has_modifier(mods, m.id@) { mods } else { mods.push(m) }),
{
    if !has_modifier(mods, m.id@) {
        let t = mods.push(m);
        assert forall|i: int, j: int|
            0 <= i < t.len() && 0 <= j < t.len() && i != j implies #[trigger] t[i].id@ != #[trigger] t[j].id@ by {
            if i < mods.len() && j < mods.len() {
                assert(t[i] == mods[i] && t[j] == mods[j]);
            } else if i < mods.len() {
                assert(t[i] == mods[i]);
            } else {
                assert(t[j] == mods[j]);
            }
        }
    }
}

/// After removing `id`, no modifier carries it.
pub proof fn law_remove_clears_id<N>(mods: Seq<AttributeModifier<N>>, id: Seq<char>)
    ensures
        !has_modifier(without_modifier(mods, id), id),
{
    let p = |x: AttributeModifier<N>| x.id@ != id;
    let f = mods.filter(p);
    if has_modifier(f, id) {
        let j = choose|j: int| 0 <= j < f.len() && #[trigger] f[j].id@ == id;
        mods.lemma_filter_pred(p, j);
    }
}

/// A named collection of attributes (health, attack, armor, ...).
pub struct AttributeSet<N> {
    /// Attributes by name.
    pub attributes: NamedMap<Attribute<N>>,
}

impl<N> AttributeSet<N> {
    /// An empty set.
    pub fn new() -> (s: Self)
        ensures
            s.attributes@ == Map::<Seq<char>, Attribute<N>>::empty(),
    {
        AttributeSet { attributes: NamedMap::new() }
    }

    /// Inserts or replaces the attribute called `name`.
    pub fn insert(&mut self, name: &str, attribute: Attribute<N>)
        ensures
            final(self).attributes@ == old(self).attributes@.insert(name@, attribute),
    {
        self.attributes.insert(name.to_owned(), attribute);
    }

    /// The attribute called `name`, if any.
    pub fn get(&self, name: &str) -> (r: Option<&Attribute<N>>)
        ensures
            r == (if self.attributes@.contains_key(name@) { Some(&self.attributes@[name@]) } else { None }),
    {
        self.attributes.get(name)
    }

    /// Removes the attribute called `name` and hands it back, if any.
    pub fn remove(&mut self, name: &str) -> (r: Option<Attribute<N>>)
        ensures
            r == (if old(self).attributes@.contains_key(name@) { Some(old(self).attributes@[name@]) } else { None }),
            final(self).attributes@ == old(self).attributes@.remove(name@),
    {
        self.attributes.remove(name)
    }

    /// The names of all attributes, each once.
    pub fn names(&self) -> (r: Vec<String>)
        ensures
            r@.len() == self.attributes@.dom().len(),
            forall|i: int| 0 <= i < r@.len() ==> self.attributes@.contains_key(#[trigger] r@[i]@),
            forall|k: Seq<char>| #[trigger] self.attributes@.contains_key(k) ==> exists|i: int| 0 <= i < r@.len() && r@[i]@ == k,
    {
        self.attributes.keys()
    }

    /// All (name, attribute) pairs, each name once.
    pub fn iter(&self) -> (r: Vec<(&String, &Attribute<N>)>)
        ensures
            r@.len() == self.attributes@.dom().len(),
            forall|i: int, j: int| 0 <= i < r@.len() && 0 <= j < r@.len() && i != j ==> #[trigger] r@[i].0@ != #[trigger] r@[j].0@,
            forall|i: int| 0 <= i < r@.len() ==> self.attributes@.contains_key(#[trigger] r@[i].0@) && self.attributes@[r@[i].0@] == *r@[i].1,
    {
        let count = self.attributes.len();
        let r = self.attributes.iter();
        proof {
            let e = self.attributes.entries();
            assert forall|i: int| 0 <= i < r@.len() implies self.attributes@.contains_key(#[trigger] r@[i].0@) && self.attributes@[r@[i].0@] == *r@[i].1 by {
                lemma_map_of_value(e, i);
            }
            assert forall|i: int, j: int| 0 <= i < r@.len() && 0 <= j < r@.len() && i != j implies #[trigger] r@[i].0@ != #[trigger] r@[j].0@ by {
                assert(e[i].0@ != e[j].0@);
            }
        }
        r
    }

    /// The attribute called `name`, if any, to change in place.
    pub fn get_mut(&mut self, name: &str) -> (r: Option<&mut Attribute<N>>)
        ensures
            match r {
                Some(a) => {
                    &&& old(self).attributes@.contains_key(name@)
                    &&& *a == old(self).attributes@[name@]
                    &&& final(self).attributes@ == old(self).attributes@.insert(name@, *final(a))
                },
                None => !old(self).attributes@.contains_key(name@) && final(self).attributes@ == old(self).attributes@,
            },
    {
        self.attributes.get_mut(name)
    }
}

impl<N> Default for AttributeSet<N> {
    fn default() -> (s: Self)
        ensures
            s.attributes@ == Map::<Seq<char>, Attribute<N>>::empty(),
    {
        Self::new()
    }
}

/// The initial configuration of one named attribute.
pub struct AttributeDefinition<N> {
    /// Attribute name, the key in an [`AttributeSet`].
    pub name: String,
    /// Base value.
    pub base: N,
    /// Lower bound.
    pub min: N,
    /// Upper bound.
    pub max: N,
}

/// Attribute definitions by name, from which attribute sets are built.
pub struct AttributeTemplate<N> {
    /// Definitions by name.
    pub definitions: NamedMap<AttributeDefinition<N>>,
}

/// The attributes that [`AttributeTemplate::build_attribute_set`] makes from
/// the definitions `defs` and the requested `names`, as (base, min, max) by
/// name: each requested name that has a definition adds an attribute under
/// the definition's own name; a later one replaces an earlier one.
pub open spec fn built_attributes<N>(
    defs: Map<Seq<char>, AttributeDefinition<N>>,
    names: Seq<Seq<char>>,
) -> Map<Seq<char>, (N, N, N)>
    decreases names.len(),
{
    if names.len() == 0 {
        Map::empty()
    } else {
        let m = built_attributes(defs, names.drop_last());
        if defs.contains_key(names.last()) {
            let d = defs[names.last()];
            m.insert(d.name@, (d.base, d.min, d.max))
        } else {
            m
        }
    }
}

impl<N> AttributeTemplate<N> {
    /// An empty template.
    pub fn new() -> (t: Self)
        ensures
            t.definitions@ == Map::<Seq<char>, AttributeDefinition<N>>::empty(),
    {
        AttributeTemplate { definitions: NamedMap::new() }
    }

    /// Inserts or replaces a definition, keyed by its name.
    pub fn define(&mut self, def: AttributeDefinition<N>)
        ensures
            final(self).definitions@ == old(self).definitions@.insert(def.name@, def),
    {
        let key = def.name.clone();
        self.definitions.insert(key, def);
    }

    /// The definition called `name`, if any.
    pub fn get(&self, name: &str) -> (r: Option<&AttributeDefinition<N>>)
        ensures
            r == (if self.definitions@.contains_key(name@) { Some(&self.definitions@[name@]) } else { None }),
    {
        self.definitions.get(name)
    }
}

impl<N: Copy> AttributeTemplate<N> {
    /// Builds an attribute set from the definitions of `names`; names without
    /// a definition are skipped. Each attribute starts at its base value,
    /// within the definition's bounds, without modifiers.
    pub fn build_attribute_set(&self, names: &[&str]) -> (set: AttributeSet<N>)
        ensures
            set.attributes@.dom() == built_attributes(self.definitions@, names@.map_values(|s: &str| s@)).dom(),
            forall|k: Seq<char>| #[trigger] set.attributes@.contains_key(k) ==> {
                let a = set.attributes@[k];
                let b = built_attributes(self.definitions@, names@.map_values(|s: &str| s@))[k];
                &&& a.base == b.0
                &&& a.value == b.0
                &&& a.min == b.1
                &&& a.max == b.2
                &&& a.modifiers@.len() == 0
            },
            forall|i: int|
                0 <= i < names@.len() && self.definitions@.contains_key(#[trigger] names@[i]@)
                    ==> set.attributes@.contains_key(self.definitions@[names@[i]@].name@),
            forall|k: Seq<char>| #[trigger] set.attributes@.contains_key(k) ==> exists|i: int|
                {
                    &&& 0 <= i < names@.len()
                    &&& self.definitions@.contains_key(#[trigger] names@[i]@)
                    &&& self.definitions@[names@[i]@].name@ == k
                    &&& set.attributes@[k].base == self.definitions@[names@[i]@].base
                    &&& set.attributes@[k].value == self.definitions@[names@[i]@].base
                    &&& set.attributes@[k].min == self.definitions@[names@[i]@].min
                    &&& set.attributes@[k].max == self.definitions@[names@[i]@].max
                    &&& forall|j: int|
                        i < j < names@.len() ==> !(self.definitions@.contains_key(#[trigger] names@[j]@)
                            && self.definitions@[names@[j]@].name@ == k)
                },
    {
        let ghost all = names@.map_values(|s: &str| s@);
        let mut set: AttributeSet<N> = AttributeSet::new();
        let mut i: usize = 0;
        while i < names.len()
            invariant
                i <= names@.len(),
                all == names@.map_values(|s: &str| s@),
                set.attributes@.dom() == built_attributes(self.definitions@, all.take(i as int)).dom(),
                forall|k: Seq<char>| #[trigger] set.attributes@.contains_key(k) ==> {
                    let a = set.attributes@[k];
                    let b = built_attributes(self.definitions@, all.take(i as int))[k];
                    &&& a.base == b.0
                    &&& a.value == b.0
                    &&& a.min == b.1
                    &&& a.max == b.2
                    &&& a.modifiers@.len() == 0
                },
            decreases names@.len() - i,
        {
            proof {
                assert(all.take(i + 1).drop_last() =~= all.take(i as int));
                assert(all.take(i + 1).last() == names@[i as int]@);
            }
            if let Some(def) = self.definitions.get(names[i]) {
                let attr = Attribute {
                    base: def.base,
                    value: def.base,
                    max: def.max,
                    min: def.min,
                    modifiers: Vec::new(),
                };
                set.insert(def.name.as_str(), attr);
            }
            i = i + 1;
        }
        proof {
            assert(all.take(i as int) =~= all);
            let defs = self.definitions@;
            assert forall|j: int| 0 <= j < names@.len() implies #[trigger] all[j] == names@[j]@ by {}
            assert forall|j: int|
                0 <= j < names@.len() && defs.contains_key(#[trigger] names@[j]@) implies set.attributes@.contains_key(
                defs[names@[j]@].name@,
            ) by {
                law_built_from_definitions(defs, all, defs[names@[j]@].name@);
                assert(defs.contains_key(all[j]) && defs[all[j]].name@ == defs[names@[j]@].name@);
            }
            assert forall|k: Seq<char>| #[trigger] set.attributes@.contains_key(k) implies exists|i: int|
                {
                    &&& 0 <= i < names@.len()
                    &&& defs.contains_key(#[trigger] names@[i]@)
                    &&& defs[names@[i]@].name@ == k
                    &&& set.attributes@[k].base == defs[names@[i]@].base
                    &&& set.attributes@[k].value == defs[names@[i]@].base
                    &&& set.attributes@[k].min == defs[names@[i]@].min
                    &&& set.attributes@[k].max == defs[names@[i]@].max
                    &&& forall|j: int|
                        i < j < names@.len() ==> !(defs.contains_key(#[trigger] names@[j]@) && defs[names@[j]@].name@ == k)
                } by {
                law_built_from_definitions(defs, all, k);
                let i = choose|i: int|
                    {
                        &&& 0 <= i < all.len()
                        &&& defs.contains_key(#[trigger] all[i])
                        &&& defs[all[i]].name@ == k
                        &&& built_attributes(defs, all)[k] == (defs[all[i]].base, defs[all[i]].min, defs[all[i]].max)
                        &&& forall|j: int| i < j < all.len() ==> !(defs.contains_key(#[trigger] all[j]) && defs[all[j]].name@ == k)
                    };
                assert(all[i] == names@[i]@);
                assert forall|j: int| i < j < names@.len() implies !(defs.contains_key(#[trigger] names@[j]@)
                    && defs[names@[j]@].name@ == k) by {
                    assert(all[j] == names@[j]@);
                }
            }
        }
        set
    }
}

impl<N> Default for AttributeTemplate<N> {
    fn default() -> (t: Self)
        ensures
            t.definitions@ == Map::<Seq<char>, AttributeDefinition<N>>::empty(),
    {
        Self::new()
    }
}

/// The summary keeps one amount per `Flat` modifier and one ratio per
/// `Percent` modifier, in order, and the value of the last `Override`: with
/// no modifiers it is empty, and appending a modifier `m` appends its amount
/// to the list of its kind (or makes it the override) and leaves the rest.
pub proof fn law_summary_appends<N>(mods: Seq<AttributeModifier<N>>, m: AttributeModifier<N>)
    ensures
        flat_amounts(Seq::<AttributeModifier<N>>::empty()) == Seq::<N>::empty(),
        percent_ratios(Seq::<AttributeModifier<N>>::empty()) == Seq::<N>::empty(),
        last_override(Seq::<AttributeModifier<N>>::empty()) == None::<N>,
        flat_amounts(mods.push(m)) == (match m.kind {
            ModifierKind::Flat(a) => flat_amounts(mods).push(a),
            _ => flat_amounts(mods),
        }),
        percent_ratios(mods.push(m)) == (match m.kind {
            ModifierKind::Percent(a) => percent_ratios(mods).push(a),
            _ => percent_ratios(mods),
        }),
        last_override(mods.push(m)) == (match m.kind {
            ModifierKind::Override(v) => Some(v),
            _ => last_override(mods),
        }),
{
    assert(mods.push(m).drop_last() =~= mods);
}

/// There are as many flat amounts as `Flat` modifiers and as many ratios as
/// `Percent` modifiers.
pub proof fn law_summary_counts<N>(mods: Seq<AttributeModifier<N>>)
    ensures
        flat_amounts(mods).len() == mods.filter(|x: AttributeModifier<N>| x.kind is Flat).len(),
        percent_ratios(mods).len() == mods.filter(|x: AttributeModifier<N>| x.kind is Percent).len(),
    decreases mods.len(),
{
    reveal_with_fuel(Seq::filter, 1);
    if mods.len() > 0 {
        let d = mods.drop_last();
        law_summary_counts(d);
        assert(d.push(mods.last()) =~= mods);
        d.lemma_filter_push(mods.last(), |x: AttributeModifier<N>| x.kind is Flat);
        d.lemma_filter_push(mods.last(), |x: AttributeModifier<N>| x.kind is Percent);
    }
}

/// Building makes one attribute per requested name that has a definition,
/// under that definition's own name; an attribute's base, min and max are
/// those of the last requested definition with its name.
pub proof fn law_built_from_definitions<N>(
    defs: Map<Seq<char>, AttributeDefinition<N>>,
    names: Seq<Seq<char>>,
    k: Seq<char>,
)
    ensures
        built_attributes(defs, names).contains_key(k) <==> exists|i: int|
            0 <= i < names.len() && defs.contains_key(#[trigger] names[i]) && defs[names[i]].name@ == k,
        built_attributes(defs, names).contains_key(k) ==> exists|i: int|
            {
                &&& 0 <= i < names.len()
                &&& defs.contains_key(#[trigger] names[i])
                &&& defs[names[i]].name@ == k
                &&& built_attributes(defs, names)[k] == (defs[names[i]].base, defs[names[i]].min, defs[names[i]].max)
                &&& forall|j: int| i < j < names.len() ==> !(defs.contains_key(#[trigger] names[j]) && defs[names[j]].name@ == k)
            },
    decreases names.len(),
{
    if names.len() > 0 {
        let d = names.drop_last();
        let last = names.len() - 1;
        law_built_from_definitions(defs, d, k);
        assert(names[last] == names.last());
        assert forall|i: int| 0 <= i < d.len() implies #[trigger] d[i] == names[i] by {}
        if defs.contains_key(names.last()) && defs[names.last()].name@ == k {
            assert(defs.contains_key(names[last]) && defs[names[last]].name@ == k);
        } else {
            if built_attributes(defs, names).contains_key(k) {
                let i = choose|i: int|
                    {
                        &&& 0 <= i < d.len()
                        &&& defs.contains_key(#[trigger] d[i])
                        &&& defs[d[i]].name@ == k
                        &&& built_attributes(defs, d)[k] == (defs[d[i]].base, defs[d[i]].min, defs[d[i]].max)
                        &&& forall|j: int| i < j < d.len() ==> !(defs.contains_key(#[trigger] d[j]) && defs[d[j]].name@ == k)
                    };
                assert(names[i] == d[i]);
                assert forall|j: int| i < j < names.len() implies !(defs.contains_key(#[trigger] names[j]) && defs[names[j]].name@ == k) by {
                    if j < d.len() {
                        assert(names[j] == d[j]);
                    }
                }
            }
            if exists|i: int| 0 <= i < names.len() && defs.contains_key(#[trigger] names[i]) && defs[names[i]].name@ == k {
                let i = choose|i: int| 0 <= i < names.len() && defs.contains_key(#[trigger] names[i]) && defs[names[i]].name@ == k;
                assert(i < d.len());
                assert(d[i] == names[i]);
            }
        }
    }
}

/// In a template whose definitions are filed under their own names (as
/// `define` files them), each requested name with a definition gets an
/// attribute with the definition's base, min and max, and no other name
/// gets one.
pub proof fn law_built_from_keyed_definitions<N>(
    defs: Map<Seq<char>, AttributeDefinition<N>>,
    names: Seq<Seq<char>>,
    k: Seq<char>,
)
    requires
        forall|n: Seq<char>| #[trigger] defs.contains_key(n) ==> defs[n].name@ == n,
    ensures
        built_attributes(defs, names).contains_key(k) <==> defs.contains_key(k) && names.contains(k),
        built_attributes(defs, names).contains_key(k) ==> built_attributes(defs, names)[k] == (
            defs[k].base,
            defs[k].min,
            defs[k].max,
        ),
{
    law_built_from_definitions(defs, names, k);
    if defs.contains_key(k) && names.contains(k) {
        let i = choose|i: int| 0 <= i < names.len() && names[i] == k;
        assert(defs.contains_key(names[i]) && defs[names[i]].name@ == k);
    }
}

} // verus!

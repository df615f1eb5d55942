//! Skills: definitions with numeric features and effects, the run context
//! that records how each feature of a running skill fared, and the
//! registries of builders that turn features and effects into game objects.
//!
//! Numbers are of a type parameter `N`; game objects are named by their
//! entity bits (`u64`).

pub mod loader;

use vstd::prelude::*;

use crate::named_map::{map_of, unique_keys, NamedMap};

verus! {

/// A numeric feature of a skill: an id (`"cooldown"`, `"damage"`, ...) and
/// named parameters.
pub struct SkillFeatureDefinition<N> {
    /// Feature identifier.
    pub id: String,
    /// Parameters by name.
    pub features: NamedMap<N>,
}

impl<N: Copy> SkillFeatureDefinition<N> {
    /// A feature with no parameters.
    pub fn new(id: &str) -> (f: Self)
        ensures
            f.id@ == id@,
            f.features@ == Map::<Seq<char>, N>::empty(),
    {
        SkillFeatureDefinition { id: id.to_owned(), features: NamedMap::new() }
    }

    /// The parameter `key`, if set.
    pub fn get(&self, key: &str) -> (r: Option<N>)
        ensures
            r == (if self.features@.contains_key(key@) { Some(self.features@[key@]) } else { None }),
    {
        match self.features.get(key) {
            Some(v) => Some(*v),
            None => None,
        }
    }

    /// Sets the parameter `key`.
    pub fn set(&mut self, key: &str, value: N)
        ensures
            final(self).id@ == old(self).id@,
            final(self).features@ == old(self).features@.insert(key@, value),
    {
        self.features.insert(key.to_owned(), value);
    }
}

/// An effect of a skill (`"fire_bullet"`, `"heal"`, ...) with named
/// parameters.
pub struct SkillEffectDefinition<N> {
    /// Effect identifier.
    pub id: String,
    /// Parameters by name.
    pub params: NamedMap<N>,
}

impl<N: Copy> SkillEffectDefinition<N> {
    /// An effect with no parameters.
    pub fn new(id: &str) -> (e: Self)
        ensures
            e.id@ == id@,
            e.params@ == Map::<Seq<char>, N>::empty(),
    {
        SkillEffectDefinition { id: id.to_owned(), params: NamedMap::new() }
    }

    /// The parameter `key`, if set.
    pub fn get(&self, key: &str) -> (r: Option<N>)
        ensures
            r == (if self.params@.contains_key(key@) { Some(self.params@[key@]) } else { None }),
    {
        match self.params.get(key) {
            Some(v) => Some(*v),
            None => None,
        }
    }

    /// Sets the parameter `key`.
    pub fn set(&mut self, key: &str, value: N)
        ensures
            final(self).id@ == old(self).id@,
            final(self).params@ == old(self).params@.insert(key@, value),
    {
        self.params.insert(key.to_owned(), value);
    }
}

/// A skill template: id, display name, features and effects.
pub struct SkillDefinition<N> {
    /// Skill identifier.
    pub id: String,
    /// Display name.
    pub name: String,
    /// Numeric features, in order.
    pub features: Vec<SkillFeatureDefinition<N>>,
    /// Effects, in order.
    pub effects: Vec<SkillEffectDefinition<N>>,
}

/// Index of the first feature of `fs` with id `id`, if any.
pub open spec fn first_feature<N>(fs: Seq<SkillFeatureDefinition<N>>, id: Seq<char>) -> Option<int> {
    if exists|i: int| 0 <= i < fs.len() && #[trigger] fs[i].id@ == id {
        Some(choose|i: int| 0 <= i < fs.len() && #[trigger] fs[i].id@ == id && forall|j: int| 0 <= j < i ==> #[trigger] fs[j].id@ != id)
    } else {
        None
    }
}

/// Index of the first effect of `es` with id `id`, if any.
pub open spec fn first_effect<N>(es: Seq<SkillEffectDefinition<N>>, id: Seq<char>) -> Option<int> {
    if exists|i: int| 0 <= i < es.len() && #[trigger] es[i].id@ == id {
        Some(choose|i: int| 0 <= i < es.len() && #[trigger] es[i].id@ == id && forall|j: int| 0 <= j < i ==> #[trigger] es[j].id@ != id)
    } else {
        None
    }
}

impl<N> SkillDefinition<N> {
    /// A skill with no features and no effects.
    pub fn new(id: &str, name: &str) -> (d: Self)
        ensures
            d.id@ == id@,
            d.name@ == name@,
            d.features@.len() == 0,
            d.effects@.len() == 0,
    {
        SkillDefinition { id: id.to_owned(), name: name.to_owned(), features: Vec::new(), effects: Vec::new() }
    }

    /// The first feature with id `feature_id`, if any.
    pub fn get_feature(&self, feature_id: &str) -> (r: Option<&SkillFeatureDefinition<N>>)
        ensures
            r == (match first_feature(self.features@, feature_id@) {
                Some(i) => Some(&self.features@[i]),
                None => None,
            }),
    {
        let key: String = feature_id.to_owned();
        let mut i: usize = 0;
        while i < self.features.len()
            invariant
                i <= self.features@.len(),
                key@ == feature_id@,
                forall|j: int| 0 <= j < i ==> #[trigger] self.features@[j].id@ != feature_id@,
            decreases self.features@.len() - i,
        {
            if self.features[i].id == key {
                proof {
                    let fs = self.features@;
                    let id = feature_id@;
                    let c = choose|c: int| 0 <= c < fs.len() && #[trigger] fs[c].id@ == id && forall|j: int| 0 <= j < c ==> #[trigger] fs[j].id@ != id;
                    assert(0 <= i < fs.len() && fs[i as int].id@ == id && forall|j: int| 0 <= j < i ==> #[trigger] fs[j].id@ != id);
                    if c < i {
                    } else if c > i {
                        assert(fs[i as int].id@ != id);
                    }
                }
                return Some(&self.features[i]);
            }
            i = i + 1;
        }
        None
    }

    /// Appends a feature.
    pub fn add_feature(&mut self, feature: SkillFeatureDefinition<N>)
        ensures
            final(self).features@ == old(self).features@.push(feature),
            final(self).effects@ == old(self).effects@,
            final(self).id == old(self).id,
            final(self).name == old(self).name,
    {
        self.features.push(feature);
    }

    /// The first effect with id `effect_id`, if any.
    pub fn get_effect(&self, effect_id: &str) -> (r: Option<&SkillEffectDefinition<N>>)
        ensures
            r == (match first_effect(self.effects@, effect_id@) {
                Some(i) => Some(&self.effects@[i]),
                None => None,
            }),
    {
        let key: String = effect_id.to_owned();
        let mut i: usize = 0;
        while i < self.effects.len()
            invariant
                i <= self.effects@.len(),
                key@ == effect_id@,
                forall|j: int| 0 <= j < i ==> #[trigger] self.effects@[j].id@ != effect_id@,
            decreases self.effects@.len() - i,
        {
            if self.effects[i].id == key {
                proof {
                    let es = self.effects@;
                    let id = effect_id@;
                    let c = choose|c: int| 0 <= c < es.len() && #[trigger] es[c].id@ == id && forall|j: int| 0 <= j < c ==> #[trigger] es[j].id@ != id;
                    assert(0 <= i < es.len() && es[i as int].id@ == id && forall|j: int| 0 <= j < i ==> #[trigger] es[j].id@ != id);
                    if c < i {
                    } else if c > i {
                        assert(es[i as int].id@ != id);
                    }
                }
                return Some(&self.effects[i]);
            }
            i = i + 1;
        }
        None
    }

    /// Appends an effect.
    pub fn add_effect(&mut self, effect: SkillEffectDefinition<N>)
        ensures
            final(self).effects@ == old(self).effects@.push(effect),
            final(self).features@ == old(self).features@,
            final(self).id == old(self).id,
            final(self).name == old(self).name,
    {
        self.effects.push(effect);
    }
}

/// How a feature of a running skill fared. The data of a success is of a
/// type parameter `D`.
#[derive(Clone, Debug)]
pub enum SkillFeatureResult<D> {
    /// Still in progress.
    Ready,
    /// Succeeded, with data.
    Succeeded(D),
    /// Failed, with a message.
    Error(String),
}

/// The result of every feature is a success.
pub open spec fn all_ok<D>(results: Map<Seq<char>, SkillFeatureResult<D>>) -> bool {
    forall|k: Seq<char>| #[trigger] results.contains_key(k) ==> results[k] is Succeeded
}

/// Every feature of `results` back to `Ready`.
pub open spec fn all_ready<D>(results: Map<Seq<char>, SkillFeatureResult<D>>) -> Map<Seq<char>, SkillFeatureResult<D>> {
    results.map_values(|r: SkillFeatureResult<D>| SkillFeatureResult::Ready)
}

/// The feature ids of `fs`.
pub open spec fn feature_ids<N>(fs: Seq<SkillFeatureDefinition<N>>) -> Set<Seq<char>> {
    Set::new(|k: Seq<char>| exists|i: int| 0 <= i < fs.len() && #[trigger] fs[i].id@ == k)
}

/// Reference from an owner to its skill entity.
#[derive(Clone, Copy, Debug, PartialEq, Eq, Structural)]
pub struct SkillTarget(pub u64);

/// Sent when every feature of a running skill has succeeded.
pub struct SkillEvent<D> {
    /// The skill entity.
    pub skill: u64,
    /// The entity that owns the skill.
    pub owner: u64,
    /// The results of the features, by feature id.
    pub feature_results: NamedMap<SkillFeatureResult<D>>,
}

/// The event of the skill entity `skill` that ends a run: the context's
/// owner and feature results, moved over.
impl<D> From<(u64, SkillRunContext<D>)> for SkillEvent<D> {
    fn from(run: (u64, SkillRunContext<D>)) -> (e: Self) {
        let (skill, ctx) = run;
        SkillEvent { skill, owner: ctx.owner, feature_results: ctx.feature_results }
    }
}

impl<D> vstd::std_specs::convert::FromSpecImpl<(u64, SkillRunContext<D>)> for SkillEvent<D> {
    open spec fn obeys_from_spec() -> bool {
        true
    }

    open spec fn from_spec(run: (u64, SkillRunContext<D>)) -> Self {
        SkillEvent { skill: run.0, owner: run.1.owner, feature_results: run.1.feature_results }
    }
}

/// The state of a running skill: its owner and how each feature fared.
pub struct SkillRunContext<D> {
    /// The entity that owns the skill.
    pub owner: u64,
    /// Result of each feature, by feature id.
    pub feature_results: NamedMap<SkillFeatureResult<D>>,
}

impl<D> SkillRunContext<D> {
    /// A context in which every feature of `definition` is `Ready`.
    pub fn new<N>(owner: u64, definition: &SkillDefinition<N>) -> (c: Self)
        ensures
            c.owner == owner,
            c.feature_results@.dom() == feature_ids(definition.features@),
            forall|k: Seq<char>| #[trigger] c.feature_results@.contains_key(k) ==> c.feature_results@[k] is Ready,
    {
        let mut results: NamedMap<SkillFeatureResult<D>> = NamedMap::new();
        let mut i: usize = 0;
        while i < definition.features.len()
            invariant
                i <= definition.features@.len(),
                results@.dom() == feature_ids(definition.features@.take(i as int)),
                forall|k: Seq<char>| #[trigger] results@.contains_key(k) ==> results@[k] is Ready,
            decreases definition.features@.len() - i,
        {
            results.insert(definition.features[i].id.clone(), SkillFeatureResult::Ready);
            proof {
                let fs = definition.features@;
                assert(results@.dom() =~= feature_ids(fs.take(i + 1))) by {
                    assert forall|k: Seq<char>| #[trigger] feature_ids(fs.take(i + 1)).contains(k) implies results@.dom().contains(k) by {
                        let j = choose|j: int| 0 <= j < fs.take(i + 1).len() && #[trigger] fs.take(i + 1)[j].id@ == k;
                        if j < i {
                            assert(fs.take(i as int)[j] == fs.take(i + 1)[j]);
                        }
                    }
                    assert forall|k: Seq<char>| #[trigger] results@.dom().contains(k) implies feature_ids(fs.take(i + 1)).contains(k) by {
                        if k != fs[i as int].id@ {
                            let j = choose|j: int| 0 <= j < fs.take(i as int).len() && #[trigger] fs.take(i as int)[j].id@ == k;
                            assert(fs.take(i + 1)[j] == fs.take(i as int)[j]);
                        } else {
                            assert(fs.take(i + 1)[i as int] == fs[i as int]);
                        }
                    }
                }
            }
            i = i + 1;
        }
        proof {
            assert(definition.features@.take(i as int) =~= definition.features@);
        }
        SkillRunContext { owner, feature_results: results }
    }

    /// Records the result of one feature.
    pub fn record_feature_result(&mut self, feature_id: &str, result: SkillFeatureResult<D>)
        ensures
            final(self).owner == old(self).owner,
            final(self).feature_results@ == old(self).feature_results@.insert(feature_id@, result),
    {
        self.feature_results.insert(feature_id.to_owned(), result);
    }

    /// Whether every feature has succeeded.
    pub fn all_ok(&self) -> (b: bool)
        ensures
            b == all_ok(self.feature_results@),
    {
        let count = self.feature_results.len();
        let ghost entries = self.feature_results.entries();
        let mut i: usize = 0;
        while i < count
            invariant
                i <= count,
                count == entries.len(),
                entries == self.feature_results.entries(),
                unique_keys(entries),
                map_of(entries) == self.feature_results@,
                forall|j: int| 0 <= j < i ==> (#[trigger] entries[j]).1 is Succeeded,
            decreases count - i,
        {
            if !matches!(*self.feature_results.value_at(i), SkillFeatureResult::Succeeded(_)) {
                proof {
                    crate::named_map::lemma_map_of_value(entries, i as int);
                }
                return false;
            }
            i = i + 1;
        }
        proof {
            assert forall|k: Seq<char>| #[trigger] self.feature_results@.contains_key(k) implies self.feature_results@[k] is Succeeded by {
                crate::named_map::lemma_map_of_dom(entries, k);
                let j = choose|j: int| 0 <= j < entries.len() && #[trigger] entries[j].0@ == k;
                crate::named_map::lemma_map_of_value(entries, j);
            }
        }
        true
    }

    /// When every feature has succeeded, hands the results over in a
    /// [`SkillEvent`] for the skill entity `skill` and sets every feature back
    /// to `Ready`; otherwise changes nothing and gives `None`.
    pub fn take_event(&mut self, skill: u64) -> (e: Option<SkillEvent<D>>)
        ensures
            final(self).owner == old(self).owner,
            e is Some <==> all_ok(old(self).feature_results@),
            e is Some ==> {
                &&& e->Some_0.skill == skill
                &&& e->Some_0.owner == old(self).owner
                &&& e->Some_0.feature_results@ == old(self).feature_results@
                &&& final(self).feature_results@ == all_ready(old(self).feature_results@)
            },
            e is None ==> final(self).feature_results@ == old(self).feature_results@,
    {
        if !self.all_ok() {
            return None;
        }
        let names = self.feature_results.keys();
        let mut fresh: NamedMap<SkillFeatureResult<D>> = NamedMap::new();
        let ghost old_results = self.feature_results@;
        let mut i: usize = 0;
        while i < names.len()
            invariant
                i <= names@.len(),
                forall|a: int, b: int| 0 <= a < names@.len() && 0 <= b < names@.len() && a != b ==> #[trigger] names@[a]@ != #[trigger] names@[b]@,
                forall|a: int| 0 <= a < names@.len() ==> old_results.contains_key(#[trigger] names@[a]@),
                fresh@.dom() == Set::new(|k: Seq<char>| exists|a: int| 0 <= a < i && #[trigger] names@[a]@ == k),
                forall|k: Seq<char>| #[trigger] fresh@.contains_key(k) ==> fresh@[k] is Ready,
            decreases names@.len() - i,
        {
            fresh.insert(names[i].clone(), SkillFeatureResult::Ready);
            proof {
                assert(fresh@.dom() =~= Set::new(|k: Seq<char>| exists|a: int| 0 <= a < i + 1 && #[trigger] names@[a]@ == k)) by {
                    assert forall|k: Seq<char>| #[trigger] fresh@.dom().contains(k) implies exists|a: int| 0 <= a < i + 1 && #[trigger] names@[a]@ == k by {
                        if k == names@[i as int]@ {
                        } else {
                        }
                    }
                }
            }
            i = i + 1;
        }
        proof {
            assert(fresh@ =~= all_ready(old_results)) by {
                assert forall|k: Seq<char>| #[trigger] old_results.contains_key(k) implies fresh@.dom().contains(k) by {
                    let a = choose|a: int| 0 <= a < names@.len() && names@[a]@ == k;
                    assert(names@[a]@ == k);
                }
            }
        }
        std::mem::swap(&mut fresh, &mut self.feature_results);
        Some(SkillEvent { skill, owner: self.owner, feature_results: fresh })
    }
}


/// Once an event has been taken from a context with at least one feature,
/// no further event comes until the features succeed again.
pub proof fn law_event_resets_features<D>(results: Map<Seq<char>, SkillFeatureResult<D>>, k: Seq<char>)
    requires
        results.contains_key(k),
    ensures
        !all_ok(all_ready(results)),
{
    assert(all_ready(results).contains_key(k));
}

/// Why a skill feature or effect could not be built.
#[derive(Debug)]
pub enum BuildError {
    /// No builder is registered for the id.
    MissingBuilder(String),
    /// The builder failed.
    BuildFailed(String),
}

/// `r` is the error for a missing builder of `id`.
pub open spec fn is_missing_builder<T>(r: Result<T, BuildError>, id: Seq<char>) -> bool {
    match r {
        Err(BuildError::MissingBuilder(n)) => n@ == id,
        _ => false,
    }
}

/// Indices of the items whose id has a builder in `builders`, in order.
pub open spec fn with_builder<B>(ids: Seq<Seq<char>>, builders: Map<Seq<char>, B>) -> Seq<int>
    decreases ids.len(),
{
    if ids.len() == 0 {
        Seq::empty()
    } else {
        let r = with_builder(ids.drop_last(), builders);
        if builders.contains_key(ids.last()) {
            r.push(ids.len() - 1)
        } else {
            r
        }
    }
}

/// Builders of skill features by feature id. The builder type `B` is a
/// parameter; the container starts with a builder for `"cooldown"`.
pub struct SkillFeatureBuilderContainer<B> {
    builders: NamedMap<B>,
}

impl<B> View for SkillFeatureBuilderContainer<B> {
    type V = Map<Seq<char>, B>;

    closed spec fn view(&self) -> Map<Seq<char>, B> {
        self.builders@
    }
}

impl<B> SkillFeatureBuilderContainer<B> {
    /// A container holding only the built-in `"cooldown"` builder.
    pub fn new(cooldown: B) -> (c: Self)
        ensures
            c@ == Map::<Seq<char>, B>::empty().insert(seq!['c', 'o', 'o', 'l', 'd', 'o', 'w', 'n'], cooldown),
    {
        let mut builders: NamedMap<B> = NamedMap::new();
        let name = "cooldown";
        proof {
            reveal_strlit("cooldown");
            assert(name@ =~= seq!['c', 'o', 'o', 'l', 'd', 'o', 'w', 'n']);
        }
        builders.insert(name.to_owned(), cooldown);
        SkillFeatureBuilderContainer { builders }
    }

    /// Registers (or replaces) the builder for feature id `id`.
    pub fn register(&mut self, id: &str, builder: B)
        ensures
            final(self)@ == old(self)@.insert(id@, builder),
    {
        self.builders.insert(id.to_owned(), builder);
    }

    /// The builder for feature id `id`, or `MissingBuilder(id)`.
    pub fn builder(&self, id: &str) -> (r: Result<&B, BuildError>)
        ensures
            self@.contains_key(id@) ==> r == Ok::<&B, BuildError>(&self@[id@]),
            !self@.contains_key(id@) ==> is_missing_builder(r, id@),
    {
        match self.builders.get(id) {
            Some(b) => Ok(b),
            None => Err(BuildError::MissingBuilder(id.to_owned())),
        }
    }

    /// Indices of the features of `definition` that have a builder, in the
    /// order in which building them all runs them.
    pub fn features_to_build<N>(&self, definition: &SkillDefinition<N>) -> (r: Vec<usize>)
        ensures
            r@.map_values(|i: usize| i as int) == with_builder(
                definition.features@.map_values(|f: SkillFeatureDefinition<N>| f.id@),
                self@,
            ),
    {
        let ghost ids = definition.features@.map_values(|f: SkillFeatureDefinition<N>| f.id@);
        let mut r: Vec<usize> = Vec::new();
        let mut i: usize = 0;
        while i < definition.features.len()
            invariant
                i <= definition.features@.len(),
                ids == definition.features@.map_values(|f: SkillFeatureDefinition<N>| f.id@),
                r@.map_values(|i: usize| i as int) == with_builder(ids.take(i as int), self@),
            decreases definition.features@.len() - i,
        {
            proof {
                assert(ids.take(i + 1).drop_last() =~= ids.take(i as int));
            }
            let ghost before = r@;
            if self.builders.contains_key(definition.features[i].id.as_str()) {
                r.push(i);
                proof {
                    assert(r@.map_values(|i: usize| i as int) =~= before.map_values(|i: usize| i as int).push(i as int));
                }
            }
            i = i + 1;
        }
        proof {
            assert(ids.take(i as int) =~= ids);
        }
        r
    }
}

/// Builders of skill effects by effect id. The container starts empty.
pub struct SkillEffectBuilderContainer<B> {
    builders: NamedMap<B>,
}

impl<B> View for SkillEffectBuilderContainer<B> {
    type V = Map<Seq<char>, B>;

    closed spec fn view(&self) -> Map<Seq<char>, B> {
        self.builders@
    }
}

impl<B> SkillEffectBuilderContainer<B> {
    /// An empty container.
    pub fn new() -> (c: Self)
        ensures
            c@ == Map::<Seq<char>, B>::empty(),
    {
        SkillEffectBuilderContainer { builders: NamedMap::new() }
    }

    /// Registers (or replaces) the builder for effect id `id`.
    pub fn register(&mut self, id: &str, builder: B)
        ensures
            final(self)@ == old(self)@.insert(id@, builder),
    {
        self.builders.insert(id.to_owned(), builder);
    }

    /// The builder for effect id `id`, or `MissingBuilder(id)`.
    pub fn builder(&self, id: &str) -> (r: Result<&B, BuildError>)
        ensures
            self@.contains_key(id@) ==> r == Ok::<&B, BuildError>(&self@[id@]),
            !self@.contains_key(id@) ==> is_missing_builder(r, id@),
    {
        match self.builders.get(id) {
            Some(b) => Ok(b),
            None => Err(BuildError::MissingBuilder(id.to_owned())),
        }
    }

    /// Indices of the effects of `definition` that have a builder, in the
    /// order in which building them all runs them.
    pub fn effects_to_build<N>(&self, definition: &SkillDefinition<N>) -> (r: Vec<usize>)
        ensures
            r@.map_values(|i: usize| i as int) == with_builder(
                definition.effects@.map_values(|e: SkillEffectDefinition<N>| e.id@),
                self@,
            ),
    {
        let ghost ids = definition.effects@.map_values(|e: SkillEffectDefinition<N>| e.id@);
        let mut r: Vec<usize> = Vec::new();
        let mut i: usize = 0;
        while i < definition.effects.len()
            invariant
                i <= definition.effects@.len(),
                ids == definition.effects@.map_values(|e: SkillEffectDefinition<N>| e.id@),
                r@.map_values(|i: usize| i as int) == with_builder(ids.take(i as int), self@),
            decreases definition.effects@.len() - i,
        {
            proof {
                assert(ids.take(i + 1).drop_last() =~= ids.take(i as int));
            }
            let ghost before = r@;
            if self.builders.contains_key(definition.effects[i].id.as_str()) {
                r.push(i);
                proof {
                    assert(r@.map_values(|i: usize| i as int) =~= before.map_values(|i: usize| i as int).push(i as int));
                }
            }
            i = i + 1;
        }
        proof {
            assert(ids.take(i as int) =~= ids);
        }
        r
    }
}

} // verus!

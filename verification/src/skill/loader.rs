//! Building a [`SkillDefinition`] from the tables of a skill file.
//!
//! A skill file is TOML:
//!
//! ```toml
//! [skill]
//! id = "archer_shot"
//! name = "Archer Shot"
//!
//! [[features]]
//! id = "cooldown"
//! cooldown_duration = 1.0
//! ```
//!
//! Every `[[features]]` and `[[effects]]` table must have a text `id`; its
//! other keys whose values are numbers become the parameters. Reading the
//! TOML syntax itself is the TOML reader's work; this module decides what
//! the tables it yields mean.

use vstd::prelude::*;

use crate::named_map::{map_of, unique_keys, NamedMap};
use crate::skill::{SkillDefinition, SkillEffectDefinition, SkillFeatureDefinition};

verus! {

/// A value in a skill file's table, as far as skills use it.
pub enum TomlScalar<N> {
    /// A string.
    Text(String),
    /// An integer or floating-point number, as a number of type `N`.
    Number(N),
    /// Anything else (a boolean, a date, an array, a table).
    Other,
}

/// Why the tables of a skill file give no skill.
#[derive(Clone, Copy, Debug, PartialEq, Eq, Structural)]
pub enum SkillLoadError {
    /// A `[[features]]` table has no text `id`.
    MissingFeatureId,
    /// An `[[effects]]` table has no text `id`.
    MissingEffectId,
}

impl SkillLoadError {
    /// The text that reports this error.
    pub fn message(&self) -> (m: String)
        ensures
            m@ == (match self {
                SkillLoadError::MissingFeatureId => "each [[features]] entry must have an `id` field"@,
                SkillLoadError::MissingEffectId => "each [[effects]] entry must have an `id` field"@,
            }),
    {
        match self {
            SkillLoadError::MissingFeatureId => "each [[features]] entry must have an `id` field".to_owned(),
            SkillLoadError::MissingEffectId => "each [[effects]] entry must have an `id` field".to_owned(),
        }
    }
}

/// The key of a table's id.
pub open spec fn id_key() -> Seq<char> {
    seq!['i', 'd']
}

/// The text `id` of a table, if it has one.
pub open spec fn table_id<N>(t: Map<Seq<char>, TomlScalar<N>>) -> Option<Seq<char>> {
    if t.contains_key(id_key()) && t[id_key()] is Text {
        Some(t[id_key()]->Text_0@)
    } else {
        None
    }
}

/// The parameters of a table: its number values, except under `id`.
pub open spec fn table_params<N>(t: Map<Seq<char>, TomlScalar<N>>) -> Map<Seq<char>, N> {
    Map::new(
        |k: Seq<char>| t.contains_key(k) && k != id_key() && t[k] is Number,
        |k: Seq<char>| t[k]->Number_0,
    )
}

/// Every table of `ts` has a text `id`.
pub open spec fn all_have_ids<N>(ts: Seq<NamedMap<TomlScalar<N>>>) -> bool {
    forall|i: int| 0 <= i < ts.len() ==> (#[trigger] table_id(ts[i]@)) is Some
}

/// The text `id` of the table `t`, if it has one.
fn id_of<N>(t: &NamedMap<TomlScalar<N>>) -> (r: Option<String>)
    ensures
        match r {
            Some(s) => table_id(t@) == Some(s@),
            None => table_id(t@) is None,
        },
{
    let key = "id";
    proof {
        reveal_strlit("id");
        assert(key@ =~= id_key());
    }
    match t.get(key) {
        Some(TomlScalar::Text(s)) => Some(s.clone()),
        _ => None,
    }
}

/// The parameters of the table `t`, added to `params` by `set`.
fn params_of<N: Copy>(t: &NamedMap<TomlScalar<N>>) -> (r: NamedMap<N>)
    ensures
        r@ == table_params(t@),
{
    let count = t.len();
    let ghost entries = t.entries();
    let id_text: String = "id".to_owned();
    proof {
        reveal_strlit("id");
        assert(id_text@ =~= id_key());
    }
    let mut r: NamedMap<N> = NamedMap::new();
    let mut i: usize = 0;
    while i < count
        invariant
            i <= count,
            count == entries.len(),
            entries == t.entries(),
            unique_keys(entries),
            map_of(entries) == t@,
            id_text@ == id_key(),
            r@ == table_params(map_of(entries.take(i as int))),
        decreases count - i,
    {
        let ghost before = map_of(entries.take(i as int));
        proof {
            assert(entries.take(i + 1).drop_last() =~= entries.take(i as int));
            assert(unique_keys(entries.take(i as int))) by {
                assert forall|a: int, b: int| 0 <= a < i && 0 <= b < i && a != b implies #[trigger] entries.take(i as int)[a].0@ != #[trigger] entries.take(i as int)[b].0@ by {
                    assert(entries.take(i as int)[a] == entries[a] && entries.take(i as int)[b] == entries[b]);
                }
            }
            crate::named_map::lemma_map_of_dom(entries.take(i as int), entries[i as int].0@);
            if before.contains_key(entries[i as int].0@) {
                let j = choose|j: int| 0 <= j < i && #[trigger] entries.take(i as int)[j].0@ == entries[i as int].0@;
                assert(entries.take(i as int)[j] == entries[j]);
            }
        }
        let key = t.name_at(i);
        if *key != id_text {
            if let TomlScalar::Number(n) = t.value_at(i) {
                r.insert(key.clone(), *n);
                proof {
                    assert(r@ =~= table_params(map_of(entries.take(i + 1))));
                }
            } else {
                proof {
                    assert(r@ =~= table_params(map_of(entries.take(i + 1))));
                }
            }
        } else {
            proof {
                assert(r@ =~= table_params(map_of(entries.take(i + 1))));
            }
        }
        i = i + 1;
    }
    proof {
        assert(entries.take(i as int) =~= entries);
    }
    r
}

/// The skill that the header `id` and `name` and the `features` and
/// `effects` tables describe. A feature table without a text `id` refuses
/// the file before an effect table without one does.
pub fn skill_from_tables<N: Copy>(
    id: &str,
    name: &str,
    features: &Vec<NamedMap<TomlScalar<N>>>,
    effects: &Vec<NamedMap<TomlScalar<N>>>,
) -> (r: Result<SkillDefinition<N>, SkillLoadError>)
    ensures
        !all_have_ids(features@) ==> r == Err::<SkillDefinition<N>, SkillLoadError>(SkillLoadError::MissingFeatureId),
        all_have_ids(features@) && !all_have_ids(effects@) ==> r == Err::<SkillDefinition<N>, SkillLoadError>(SkillLoadError::MissingEffectId),
        all_have_ids(features@) && all_have_ids(effects@) ==> r is Ok && {
            let d = r->Ok_0;
            &&& d.id@ == id@
            &&& d.name@ == name@
            &&& d.features@.len() == features@.len()
            &&& d.effects@.len() == effects@.len()
            &&& forall|i: int| 0 <= i < features@.len() ==> {
                &&& (#[trigger] d.features@[i]).id@ == table_id(features@[i]@)->Some_0
                &&& d.features@[i].features@ == table_params(features@[i]@)
            }
            &&& forall|i: int| 0 <= i < effects@.len() ==> {
                &&& (#[trigger] d.effects@[i]).id@ == table_id(effects@[i]@)->Some_0
                &&& d.effects@[i].params@ == table_params(effects@[i]@)
            }
        },
{
    let mut definition: SkillDefinition<N> = SkillDefinition::new(id, name);
    let mut i: usize = 0;
    while i < features.len()
        invariant
            i <= features@.len(),
            definition.id@ == id@,
            definition.name@ == name@,
            definition.features@.len() == i,
            definition.effects@.len() == 0,
            forall|j: int| 0 <= j < i ==> (#[trigger] table_id(features@[j]@)) is Some,
            forall|j: int| 0 <= j < i ==> {
                &&& (#[trigger] definition.features@[j]).id@ == table_id(features@[j]@)->Some_0
                &&& definition.features@[j].features@ == table_params(features@[j]@)
            },
        decreases features@.len() - i,
    {
        let fid = match id_of(&features[i]) {
            Some(s) => s,
            None => {
                return Err(SkillLoadError::MissingFeatureId);
            },
        };
        let feature = SkillFeatureDefinition { id: fid, features: params_of(&features[i]) };
        definition.add_feature(feature);
        i = i + 1;
    }
    let mut i: usize = 0;
    while i < effects.len()
        invariant
            i <= effects@.len(),
            all_have_ids(features@),
            definition.id@ == id@,
            definition.name@ == name@,
            definition.features@.len() == features@.len(),
            definition.effects@.len() == i,
            forall|j: int| 0 <= j < i ==> (#[trigger] table_id(effects@[j]@)) is Some,
            forall|j: int| 0 <= j < features@.len() ==> {
                &&& (#[trigger] definition.features@[j]).id@ == table_id(features@[j]@)->Some_0
                &&& definition.features@[j].features@ == table_params(features@[j]@)
            },
            forall|j: int| 0 <= j < i ==> {
                &&& (#[trigger] definition.effects@[j]).id@ == table_id(effects@[j]@)->Some_0
                &&& definition.effects@[j].params@ == table_params(effects@[j]@)
            },
        decreases effects@.len() - i,
    {
        let eid = match id_of(&effects[i]) {
            Some(s) => s,
            None => {
                proof {
                    assert(table_id(effects@[i as int]@) is None);
                }
                return Err(SkillLoadError::MissingEffectId);
            },
        };
        let effect = SkillEffectDefinition { id: eid, params: params_of(&effects[i]) };
        definition.add_effect(effect);
        i = i + 1;
    }
    Ok(definition)
}

} // verus!

//! Enemies: the registry of enemy builders, what a builder gets, the
//! attribute the basic enemy needs, and when an enemy has reached the base.

pub mod spawner;

use vstd::prelude::*;

use crate::attribute::AttributeSet;
use crate::named_map::NamedMap;
use crate::role::archer::attribute_value;

verus! {

/// Why an enemy could not be built.
#[derive(Debug)]
pub enum EnemyBuildError {
    /// No builder is registered for the name.
    MissingBuilder(String),
    /// The builder failed.
    BuildFailed(String),
}

/// `r` is the error for a missing builder of `name`.
pub open spec fn is_missing_enemy_builder<T>(r: Result<T, EnemyBuildError>, name: Seq<char>) -> bool {
    match r {
        Err(EnemyBuildError::MissingBuilder(n)) => n@ == name,
        _ => false,
    }
}

/// What an enemy builder gets: grid position, cell size (of number type
/// `N`), parent entity and attribute set.
pub struct EnemyBuilderContext<N> {
    /// Grid position as (column, row).
    pub position: (u32, u32),
    /// Side of a grid cell in pixels.
    pub cell_size: N,
    /// Entity that the built enemy is to hang under, if any.
    pub parent: Option<u64>,
    /// The enemy's attributes.
    pub attributes: AttributeSet<N>,
}

/// Enemy builders by name (`"basic"`, ...). The builder type `B` is a
/// parameter.
pub struct EnemyBuilderContainer<B> {
    builders: NamedMap<B>,
}

impl<B> View for EnemyBuilderContainer<B> {
    type V = Map<Seq<char>, B>;

    closed spec fn view(&self) -> Map<Seq<char>, B> {
        self.builders@
    }
}

impl<B> EnemyBuilderContainer<B> {
    /// An empty container.
    pub fn new() -> (c: Self)
        ensures
            c@ == Map::<Seq<char>, B>::empty(),
    {
        EnemyBuilderContainer { builders: NamedMap::new() }
    }

    /// Registers (or replaces) the builder called `name`.
    pub fn register(&mut self, name: &str, builder: B)
        ensures
            final(self)@ == old(self)@.insert(name@, builder),
    {
        self.builders.insert(name.to_owned(), builder);
    }

    /// The builder called `name`, or `MissingBuilder(name)`.
    pub fn builder(&self, name: &str) -> (r: Result<&B, EnemyBuildError>)
        ensures
            self@.contains_key(name@) ==> r == Ok::<&B, EnemyBuildError>(&self@[name@]),
            !self@.contains_key(name@) ==> is_missing_enemy_builder(r, name@),
    {
        match self.builders.get(name) {
            Some(b) => Ok(b),
            None => Err(EnemyBuildError::MissingBuilder(name.to_owned())),
        }
    }
}

impl<B> Default for EnemyBuilderContainer<B> {
    fn default() -> (c: Self)
        ensures
            c@ == Map::<Seq<char>, B>::empty(),
    {
        Self::new()
    }
}

/// The projectile damage of a basic enemy: the current value of its
/// `attack` attribute; without one the build fails.
pub fn basic_enemy_damage<N: Copy>(attrs: &AttributeSet<N>) -> (r: Result<N, EnemyBuildError>)
    ensures
        attribute_value(attrs, "attack"@) is Some ==> r == Ok::<N, EnemyBuildError>(attribute_value(attrs, "attack"@)->Some_0),
        attribute_value(attrs, "attack"@) is None ==> (r matches Err(EnemyBuildError::BuildFailed(m))
            && m@ == "missing attribute 'attack'"@),
{
    match attrs.get("attack") {
        Some(a) => Ok(a.value),
        None => Err(EnemyBuildError::BuildFailed("missing attribute 'attack'".to_owned())),
    }
}

/// Whether a collision between two colliders is an enemy touching the base:
/// one side is a base and the other an enemy.
pub fn enemy_reaches_base(first_is_base: bool, first_is_enemy: bool, second_is_base: bool, second_is_enemy: bool) -> (b: bool)
    ensures
        b == ((first_is_base && second_is_enemy) || (second_is_base && first_is_enemy)),
{
    (first_is_base && second_is_enemy) || (second_is_base && first_is_enemy)
}

} // verus!

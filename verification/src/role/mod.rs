//! Player roles: the registry of role builders, what a builder gets, and
//! how collisions between attack ranges and enemies find the role
//! concerned.

pub mod archer;

use vstd::prelude::*;

use crate::attribute::AttributeSet;
use crate::named_map::NamedMap;

verus! {

/// Why a role could not be built.
#[derive(Debug)]
pub enum BuildError {
    /// No builder is registered for the name.
    MissingBuilder(String),
    /// The builder failed.
    BuildFailed(String),
}

/// `r` is the error for a missing builder of `name`.
pub open spec fn is_missing_builder<T>(r: Result<T, BuildError>, name: Seq<char>) -> bool {
    match r {
        Err(BuildError::MissingBuilder(n)) => n@ == name,
        _ => false,
    }
}

/// What a role builder gets: the grid position, the parent entity, and the
/// attribute set (of number type `N`).
pub struct RoleBuilderContext<N> {
    /// Grid position as (column, row).
    pub position: (u32, u32),
    /// Entity that the built role is to hang under, if any.
    pub parent: Option<u64>,
    /// The role's attributes.
    pub attributes: AttributeSet<N>,
}

/// Role builders by name (`"archer"`, ...). The builder type `B` is a
/// parameter.
pub struct RoleBuilderContainer<B> {
    builders: NamedMap<B>,
}

impl<B> View for RoleBuilderContainer<B> {
    type V = Map<Seq<char>, B>;

    closed spec fn view(&self) -> Map<Seq<char>, B> {
        self.builders@
    }
}

impl<B> RoleBuilderContainer<B> {
    /// An empty container.
    pub fn new() -> (c: Self)
        ensures
            c@ == Map::<Seq<char>, B>::empty(),
    {
        RoleBuilderContainer { builders: NamedMap::new() }
    }

    /// Registers (or replaces) the builder called `name`.
    pub fn register(&mut self, name: &str, builder: B)
        ensures
            final(self)@ == old(self)@.insert(name@, builder),
    {
        self.builders.insert(name.to_owned(), builder);
    }

    /// The builder called `name`, or `MissingBuilder(name)`.
    pub fn builder(&self, name: &str) -> (r: Result<&B, BuildError>)
        ensures
            self@.contains_key(name@) ==> r == Ok::<&B, BuildError>(&self@[name@]),
            !self@.contains_key(name@) ==> is_missing_builder(r, name@),
    {
        match self.builders.get(name) {
            Some(b) => Ok(b),
            None => Err(BuildError::MissingBuilder(name.to_owned())),
        }
    }
}

impl<B> Default for RoleBuilderContainer<B> {
    fn default() -> (c: Self)
        ensures
            c@ == Map::<Seq<char>, B>::empty(),
    {
        Self::new()
    }
}

/// The role that a collider stands for: an attack-range sensor stands for
/// the role it hangs under (`sensor_parent`); anything else for itself.
pub open spec fn role_root(entity: u64, sensor_parent: Option<u64>) -> u64 {
    match sensor_parent {
        Some(p) => p,
        None => entity,
    }
}

/// The role that a collider stands for.
pub fn resolve_role_root(entity: u64, sensor_parent: Option<u64>) -> (r: Option<u64>)
    ensures
        r == Some(role_root(entity, sensor_parent)),
{
    match sensor_parent {
        Some(p) => Some(p),
        None => Some(entity),
    }
}

/// In a collision between `e1` and `e2`, the role concerned: the side that
/// is not the enemy (the first side counts as the enemy when both are); no
/// role when neither side is an enemy. `p1` and `p2` are the parents of the
/// sides that are attack-range sensors.
pub fn find_role(e1: u64, e2: u64, e1_enemy: bool, e2_enemy: bool, p1: Option<u64>, p2: Option<u64>) -> (r: Option<u64>)
    ensures
        r == (if e1_enemy {
            Some(role_root(e2, p2))
        } else if e2_enemy {
            Some(role_root(e1, p1))
        } else {
            None::<u64>
        }),
{
    if e1_enemy {
        resolve_role_root(e2, p2)
    } else if e2_enemy {
        resolve_role_root(e1, p1)
    } else {
        None
    }
}

/// In a collision between `e1` and `e2`, the role concerned and the enemy
/// that came into or left its range.
pub fn collision_target(e1: u64, e2: u64, e1_enemy: bool, e2_enemy: bool, p1: Option<u64>, p2: Option<u64>) -> (r: Option<(u64, u64)>)
    ensures
        r == (if e1_enemy {
            Some((role_root(e2, p2), e1))
        } else if e2_enemy {
            Some((role_root(e1, p1), e2))
        } else {
            None::<(u64, u64)>
        }),
{
    match find_role(e1, e2, e1_enemy, e2_enemy, p1, p2) {
        Some(role) => {
            let enemy = if e1_enemy { e1 } else { e2 };
            Some((role, enemy))
        },
        None => None,
    }
}

} // verus!

//! The archer role: the attributes its builder needs, and its Idle/Combat
//! states.

use vstd::prelude::*;

use crate::attribute::AttributeSet;
use crate::role::BuildError;

verus! {

/// The combat values an archer is built with.
pub struct ArcherValues<N> {
    /// Attack range.
    pub attack_range: N,
    /// Attack interval.
    pub attack_speed: N,
    /// Damage of each projectile.
    pub projectile_damage: N,
}

/// The current value of the attribute `name`, if the set has it.
pub open spec fn attribute_value<N>(attrs: &AttributeSet<N>, name: Seq<char>) -> Option<N> {
    if attrs.attributes@.contains_key(name) {
        Some(attrs.attributes@[name].value)
    } else {
        None
    }
}

/// `r` is a build failure with the message `message`.
pub open spec fn is_build_failure_for<T>(r: Result<T, BuildError>, message: Seq<char>) -> bool {
    r matches Err(BuildError::BuildFailed(m)) && m@ == message
}

/// The archer's combat values from its attributes `attack_range`,
/// `attack_speed` and `attack`, looked up in that order; the first one
/// missing fails the build.
pub fn archer_values<N: Copy>(attrs: &AttributeSet<N>) -> (r: Result<ArcherValues<N>, BuildError>)
    ensures
        ({
            let range = attribute_value(attrs, "attack_range"@);
            let speed = attribute_value(attrs, "attack_speed"@);
            let attack = attribute_value(attrs, "attack"@);
            &&& range is Some && speed is Some && attack is Some ==> r is Ok
                && r->Ok_0.attack_range == range->Some_0
                && r->Ok_0.attack_speed == speed->Some_0
                && r->Ok_0.projectile_damage == attack->Some_0
            &&& range is None ==> is_build_failure_for(r, "missing attribute 'attack_range'"@)
            &&& range is Some && speed is None ==> is_build_failure_for(r, "missing attribute 'attack_speed'"@)
            &&& range is Some && speed is Some && attack is None ==> is_build_failure_for(
                r,
                "missing attribute 'attack'"@,
            )
        }),
{
    let attack_range = match attrs.get("attack_range") {
        Some(a) => a.value,
        None => {
            return Err(BuildError::BuildFailed("missing attribute 'attack_range'".to_owned()));
        },
    };
    let attack_speed = match attrs.get("attack_speed") {
        Some(a) => a.value,
        None => {
            return Err(BuildError::BuildFailed("missing attribute 'attack_speed'".to_owned()));
        },
    };
    let projectile_damage = match attrs.get("attack") {
        Some(a) => a.value,
        None => {
            return Err(BuildError::BuildFailed("missing attribute 'attack'".to_owned()));
        },
    };
    Ok(ArcherValues { attack_range, attack_speed, projectile_damage })
}

/// The state of an archer's state machine.
#[derive(Clone, Copy, Debug, PartialEq, Eq, Structural)]
pub enum ArcherMode {
    /// No enemy locked yet.
    Idle,
    /// Fighting; its skill is active.
    Combat,
}

/// What an archer does when its state changes.
#[derive(Clone, Copy, Debug, PartialEq, Eq, Structural)]
pub enum ArcherAction {
    /// Activate the archer's skill.
    ActivateSkill,
}

/// One step of an archer: an idle archer that has locked an enemy enters
/// combat and activates its skill; otherwise nothing changes.
pub open spec fn archer_next(mode: ArcherMode, target: Option<u64>) -> (ArcherMode, Option<ArcherAction>) {
    if mode == ArcherMode::Idle && target is Some {
        (ArcherMode::Combat, Some(ArcherAction::ActivateSkill))
    } else {
        (mode, None)
    }
}

/// One step of an archer, given the enemy it has locked.
pub fn archer_step(mode: ArcherMode, target: Option<u64>) -> (r: (ArcherMode, Option<ArcherAction>))
    ensures
        r == archer_next(mode, target),
{
    match (mode, target) {
        (ArcherMode::Idle, Some(_)) => (ArcherMode::Combat, Some(ArcherAction::ActivateSkill)),
        _ => (mode, None),
    }
}

/// An archer's skill is activated once: after the step that enters combat,
/// further steps neither leave combat nor act, whatever is targeted.
pub proof fn law_skill_activated_once(first: u64, later: Option<u64>)
    ensures
        archer_next(ArcherMode::Idle, Some(first)) == (ArcherMode::Combat, Some(ArcherAction::ActivateSkill)),
        archer_next(archer_next(ArcherMode::Idle, Some(first)).0, later) == (ArcherMode::Combat, None::<ArcherAction>),
{
}

/// An idle archer with nothing locked stays idle.
pub proof fn law_idle_without_target()
    ensures
        archer_next(ArcherMode::Idle, None) == (ArcherMode::Idle, None::<ArcherAction>),
{
}

} // verus!

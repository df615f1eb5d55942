//! Bullets: which collision is a bullet hitting something.

use vstd::prelude::*;

verus! {

/// A bullet hit: the bullet and what it touched.
#[derive(Clone, Copy, Debug, PartialEq, Eq, Structural)]
pub struct BulletBattleEvent {
    /// The bullet.
    pub bullet: u64,
    /// The entity it collided with.
    pub other: u64,
}

/// The hit that a collision between the bodies `body1` and `body2` makes,
/// if one of them is a bullet (`bullet1`, `bullet2` say which are); the
/// first body counts when both are, and a collision with a missing body
/// makes none.
pub fn bullet_battle_event(body1: Option<u64>, body2: Option<u64>, bullet1: bool, bullet2: bool) -> (e: Option<BulletBattleEvent>)
    ensures
        e == (match (body1, body2) {
            (Some(b1), Some(b2)) => if bullet1 {
                Some(BulletBattleEvent { bullet: b1, other: b2 })
            } else if bullet2 {
                Some(BulletBattleEvent { bullet: b2, other: b1 })
            } else {
                None
            },
            _ => None,
        }),
{
    match (body1, body2) {
        (Some(b1), Some(b2)) => {
            if bullet1 {
                Some(BulletBattleEvent { bullet: b1, other: b2 })
            } else if bullet2 {
                Some(BulletBattleEvent { bullet: b2, other: b1 })
            } else {
                None
            }
        },
        _ => None,
    }
}

} // verus!

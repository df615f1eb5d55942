//! Shared game rules: collision layers, display layers, and the enemy
//! targets of a unit.

use vstd::prelude::*;

verus! {

/// A collision layer.
#[derive(Clone, Copy, Debug, PartialEq, Eq, Structural)]
pub enum GamePhysicsLayer {
    /// Static world: terrain, walls, obstacles.
    World,
    /// Player characters.
    Character,
    /// Enemies.
    Enemy,
}

/// The bit of a layer: one bit per layer, in declaration order.
pub open spec fn layer_bit(l: GamePhysicsLayer) -> u32 {
    match l {
        GamePhysicsLayer::World => 1,
        GamePhysicsLayer::Character => 2,
        GamePhysicsLayer::Enemy => 4,
    }
}

/// Which layers an entity belongs to and which it looks for, as bit masks.
#[derive(Clone, Copy, Debug, PartialEq, Eq, Structural)]
pub struct CollisionLayers {
    /// Layers the entity belongs to.
    pub memberships: u32,
    /// Layers the entity interacts with.
    pub filters: u32,
}

/// Whether the mask `m` holds layer `l`.
pub open spec fn has_layer(m: u32, l: GamePhysicsLayer) -> bool {
    m & layer_bit(l) != 0
}

/// Two entities interact when each belongs to a layer the other looks for.
pub open spec fn interacts(a: CollisionLayers, b: CollisionLayers) -> bool {
    a.memberships & b.filters != 0 && b.memberships & a.filters != 0
}

impl GamePhysicsLayer {
    /// The bit of this layer.
    pub fn bit(self) -> (b: u32)
        ensures
            b == layer_bit(self),
    {
        match self {
            GamePhysicsLayer::World => 1,
            GamePhysicsLayer::Character => 2,
            GamePhysicsLayer::Enemy => 4,
        }
    }

    /// Static world entities: in `World`, meeting characters and enemies.
    pub fn world_layers() -> (c: CollisionLayers)
        ensures
            c == (CollisionLayers { memberships: 1, filters: 2u32 | 4u32 }),
    {
        CollisionLayers { memberships: 1, filters: 2u32 | 4u32 }
    }

    /// Player characters: in `Character`, meeting the world and enemies.
    pub fn character_layers() -> (c: CollisionLayers)
        ensures
            c == (CollisionLayers { memberships: 2, filters: 1u32 | 4u32 }),
    {
        CollisionLayers { memberships: 2, filters: 1u32 | 4u32 }
    }

    /// Enemies: in `Enemy`, meeting the world and characters.
    pub fn enemy_layers() -> (c: CollisionLayers)
        ensures
            c == (CollisionLayers { memberships: 4, filters: 1u32 | 2u32 }),
    {
        CollisionLayers { memberships: 4, filters: 1u32 | 2u32 }
    }

    /// Sensors that only look for enemies: in `Character`, meeting enemies.
    pub fn detect_enemy_layers() -> (c: CollisionLayers)
        ensures
            c == (CollisionLayers { memberships: 2, filters: 4 }),
    {
        CollisionLayers { memberships: 2, filters: 4 }
    }
}

/// Which layer presets meet which: characters and enemies meet each other
/// and the world; an enemy-detecting sensor meets enemies and nothing else
/// among the presets; and meeting is symmetric.
pub proof fn law_layer_presets()
    ensures
        ({
            let w = CollisionLayers { memberships: 1, filters: 2u32 | 4u32 };
            let c = CollisionLayers { memberships: 2, filters: 1u32 | 4u32 };
            let e = CollisionLayers { memberships: 4, filters: 1u32 | 2u32 };
            let d = CollisionLayers { memberships: 2, filters: 4 };
            &&& interacts(c, e) && interacts(w, c) && interacts(w, e)
            &&& interacts(d, e)
            &&& !interacts(d, w) && !interacts(d, c) && !interacts(d, d)
            &&& !interacts(c, c) && !interacts(e, e) && !interacts(w, w)
        }),
{
    assert((2u32 & (1u32 | 4u32)) == 0) by (bit_vector);
    assert((4u32 & (1u32 | 2u32)) == 0) by (bit_vector);
    assert((1u32 & (2u32 | 4u32)) == 0) by (bit_vector);
    assert((2u32 & (1u32 | 2u32)) != 0) by (bit_vector);
    assert((4u32 & (1u32 | 4u32)) != 0) by (bit_vector);
    assert((1u32 & (1u32 | 4u32)) != 0) by (bit_vector);
    assert((2u32 & (2u32 | 4u32)) != 0) by (bit_vector);
    assert((1u32 & (1u32 | 2u32)) != 0) by (bit_vector);
    assert((4u32 & (2u32 | 4u32)) != 0) by (bit_vector);
    assert((4u32 & 4u32) != 0) by (bit_vector);
    assert((2u32 & 4u32) == 0) by (bit_vector);
    assert((1u32 & 4u32) == 0) by (bit_vector);
}

/// Meeting does not depend on the order of the two entities.
pub proof fn law_interacts_symmetric(a: CollisionLayers, b: CollisionLayers)
    ensures
        interacts(a, b) == interacts(b, a),
{
}

/// A layer for the drawing order of visual elements.
#[derive(Clone, Copy, Debug, PartialEq, Eq, Structural)]
pub enum VisualDisplayLayer {
    /// Map cells and terrain.
    Terrain,
    /// Roles, enemies and other units.
    Character,
    /// Projectiles.
    Bullet,
}

/// The drawing rank of a layer; a higher rank is drawn on top.
pub open spec fn z_rank_of(l: VisualDisplayLayer) -> u8 {
    match l {
        VisualDisplayLayer::Terrain => 0,
        VisualDisplayLayer::Character => 1,
        VisualDisplayLayer::Bullet => 2,
    }
}

impl VisualDisplayLayer {
    /// The drawing rank of this layer (the z value is this rank as a
    /// number): terrain 0, characters 1, bullets 2.
    pub fn z_rank(&self) -> (r: u8)
        ensures
            r == z_rank_of(*self),
    {
        match self {
            VisualDisplayLayer::Terrain => 0,
            VisualDisplayLayer::Character => 1,
            VisualDisplayLayer::Bullet => 2,
        }
    }
}

/// Bullets are drawn over units, and units over terrain.
pub proof fn law_draw_order()
    ensures
        z_rank_of(VisualDisplayLayer::Terrain) < z_rank_of(VisualDisplayLayer::Character) < z_rank_of(
            VisualDisplayLayer::Bullet,
        ),
{
}

/// The enemy that a unit has locked on, if any.
#[derive(Clone, Copy, Debug, PartialEq, Eq, Structural)]
pub struct EnemyTarget(pub Option<u64>);

/// Whether `x` occurs in `v`.
fn vec_contains(v: &Vec<u64>, x: u64) -> (b: bool)
    ensures
        b == v@.contains(x),
{
    let mut i: usize = 0;
    while i < v.len()
        invariant
            i <= v@.len(),
            forall|j: int| 0 <= j < i ==> v@[j] != x,
        decreases v@.len() - i,
    {
        if v[i] == x {
            return true;
        }
        i = i + 1;
    }
    false
}

/// No entity occurs twice in `s`.
pub open spec fn no_repeats(s: Seq<u64>) -> bool {
    s.no_duplicates()
}

/// The test that keeps every entity other than `x`.
pub open spec fn other_than(x: u64) -> spec_fn(u64) -> bool {
    |e: u64| e != x
}

/// The list `s` after the enemies `came` entered range, one after another.
pub open spec fn after_arrivals(s: Seq<u64>, came: Seq<u64>) -> Seq<u64>
    decreases came.len(),
{
    if came.len() == 0 {
        s
    } else {
        let t = after_arrivals(s, came.drop_last());
        if t.contains(came.last()) {
            t
        } else {
            t.push(came.last())
        }
    }
}

/// The list `s` after the enemies `left` left range, one after another.
pub open spec fn after_departures(s: Seq<u64>, left: Seq<u64>) -> Seq<u64>
    decreases left.len(),
{
    if left.len() == 0 {
        s
    } else {
        after_departures(s, left.drop_last()).filter(other_than(left.last()))
    }
}

/// An entity is kept by a filter exactly when it was there and passes it.
pub proof fn lemma_filter_member(s: Seq<u64>, pred: spec_fn(u64) -> bool, x: u64)
    ensures
        s.filter(pred).contains(x) <==> s.contains(x) && pred(x),
    decreases s.len(),
{
    if s.len() == 0 {
        reveal_with_fuel(Seq::filter, 1);
    } else {
        let d = s.drop_last();
        lemma_filter_member(d, pred, x);
        assert(d.push(s.last()) =~= s);
        d.lemma_filter_push(s.last(), pred);
        if s.contains(x) && x != s.last() {
            let k = choose|k: int| 0 <= k < s.len() && s[k] == x;
            assert(d[k] == x);
        }
        if d.contains(x) {
            let k = choose|k: int| 0 <= k < d.len() && d[k] == x;
            assert(s[k] == x);
        }
    }
}

/// After arrivals, an entity is listed when it was listed or arrived.
pub proof fn lemma_arrivals_member(s: Seq<u64>, came: Seq<u64>, x: u64)
    ensures
        after_arrivals(s, came).contains(x) <==> s.contains(x) || came.contains(x),
    decreases came.len(),
{
    if came.len() > 0 {
        let d = came.drop_last();
        lemma_arrivals_member(s, d, x);
        if came.contains(x) && x != came.last() {
            let k = choose|k: int| 0 <= k < came.len() && came[k] == x;
            assert(d[k] == x);
        }
        if d.contains(x) {
            let k = choose|k: int| 0 <= k < d.len() && d[k] == x;
            assert(came[k] == x);
        }
        let t = after_arrivals(s, d);
        if !t.contains(came.last()) {
            assert(t.push(came.last())[t.len() as int] == came.last());
            if t.contains(x) {
                let k = choose|k: int| 0 <= k < t.len() && t[k] == x;
                assert(t.push(came.last())[k] == x);
            }
            if t.push(came.last()).contains(x) && x != came.last() {
                let k = choose|k: int| 0 <= k < t.len() + 1 && t.push(came.last())[k] == x;
                assert(t[k] == x);
            }
        }
        assert(came[came.len() - 1] == came.last());
    }
}

/// After departures, an entity is listed when it was listed and did not leave.
pub proof fn lemma_departures_member(s: Seq<u64>, left: Seq<u64>, x: u64)
    ensures
        after_departures(s, left).contains(x) <==> s.contains(x) && !left.contains(x),
    decreases left.len(),
{
    if left.len() > 0 {
        let d = left.drop_last();
        lemma_departures_member(s, d, x);
        lemma_filter_member(after_departures(s, d), other_than(left.last()), x);
        if left.contains(x) && x != left.last() {
            let k = choose|k: int| 0 <= k < left.len() && left[k] == x;
            assert(d[k] == x);
        }
        if d.contains(x) {
            let k = choose|k: int| 0 <= k < d.len() && d[k] == x;
            assert(left[k] == x);
        }
        assert(left[left.len() - 1] == left.last());
    }
}

/// The enemies within a unit's attack range, in the order they came in.
pub struct EnemyTargetList(pub Vec<u64>);

impl EnemyTargetList {
    /// An empty list.
    pub fn new() -> (l: Self)
        ensures
            l.0@ == Seq::<u64>::empty(),
    {
        EnemyTargetList(Vec::new())
    }

    /// Whether `enemy` is on the list.
    pub fn contains(&self, enemy: u64) -> (b: bool)
        ensures
            b == self.0@.contains(enemy),
    {
        vec_contains(&self.0, enemy)
    }

    /// Adds an enemy that came into range, unless it is already listed.
    pub fn add(&mut self, enemy: u64)
        ensures
            final(self).0@ == (if old(self).0@.contains(enemy) { old(self).0@ } else { old(self).0@.push(enemy) }),
    {
        if !self.contains(enemy) {
            self.0.push(enemy);
        }
    }

    /// Removes an enemy that left the range.
    pub fn remove(&mut self, enemy: u64)
        ensures
            final(self).0@ == old(self).0@.filter(other_than(enemy)),
    {
        let none: Vec<u64> = Vec::new();
        self.retain_where(Ghost(other_than(enemy)), enemy, &none, false);
    }

    /// Keeps only the entities that are still enemies.
    pub fn retain_enemies(&mut self, enemies: &Vec<u64>)
        ensures
            final(self).0@ == old(self).0@.filter(|e: u64| enemies@.contains(e)),
    {
        self.retain_where(Ghost(|e: u64| enemies@.contains(e)), 0, enemies, true);
    }

    /// Keeps the entries that pass `keep`: when `by_set` holds, those in
    /// `set`; otherwise those other than `drop`.
    fn retain_where(&mut self, Ghost(keep): Ghost<spec_fn(u64) -> bool>, drop: u64, set: &Vec<u64>, by_set: bool)
        requires
            by_set ==> forall|e: u64| #[trigger] keep(e) == set@.contains(e),
            !by_set ==> forall|e: u64| #[trigger] keep(e) == (e != drop),
        ensures
            final(self).0@ == old(self).0@.filter(keep),
    {
        let ghost orig = self.0@;
        let mut kept: Vec<u64> = Vec::new();
        let mut i: usize = 0;
        while i < self.0.len()
            invariant
                i <= self.0@.len(),
                self.0@ == orig,
                by_set ==> forall|e: u64| #[trigger] keep(e) == set@.contains(e),
                !by_set ==> forall|e: u64| #[trigger] keep(e) == (e != drop),
                kept@ == orig.take(i as int).filter(keep),
            decreases self.0@.len() - i,
        {
            let e = self.0[i];
            proof {
                assert(orig.take(i + 1) =~= orig.take(i as int).push(e));
                orig.take(i as int).lemma_filter_push(e, keep);
            }
            let pass = if by_set { vec_contains(set, e) } else { e != drop };
            if pass {
                kept.push(e);
            }
            i = i + 1;
        }
        proof {
            assert(orig.take(i as int) =~= orig);
        }
        self.0 = kept;
    }

    /// Applies one frame's collisions: the enemies `came` entered range,
    /// in order, and then the enemies `left` left it, in order.
    pub fn apply_collisions(&mut self, came: &Vec<u64>, left: &Vec<u64>)
        ensures
            final(self).0@ == after_departures(after_arrivals(old(self).0@, came@), left@),
    {
        let mut i: usize = 0;
        while i < came.len()
            invariant
                i <= came@.len(),
                self.0@ == after_arrivals(old(self).0@, came@.take(i as int)),
            decreases came@.len() - i,
        {
            proof {
                assert(came@.take(i + 1).drop_last() =~= came@.take(i as int));
            }
            self.add(came[i]);
            i = i + 1;
        }
        proof {
            assert(came@.take(came@.len() as int) =~= came@);
        }
        let ghost arrived = self.0@;
        let mut j: usize = 0;
        while j < left.len()
            invariant
                j <= left@.len(),
                self.0@ == after_departures(arrived, left@.take(j as int)),
            decreases left@.len() - j,
        {
            proof {
                assert(left@.take(j + 1).drop_last() =~= left@.take(j as int));
            }
            self.remove(left[j]);
            j = j + 1;
        }
        proof {
            assert(left@.take(left@.len() as int) =~= left@);
        }
    }

    /// The enemy to aim at: the first on the list.
    pub fn primary(&self) -> (t: EnemyTarget)
        ensures
            t.0 == (if self.0@.len() > 0 { Some(self.0@[0]) } else { None::<u64> }),
    {
        if self.0.len() > 0 {
            EnemyTarget(Some(self.0[0]))
        } else {
            EnemyTarget(None)
        }
    }
}

/// Adding keeps the list free of repeats.
pub proof fn law_add_keeps_no_repeats(s: Seq<u64>, enemy: u64)
    requires
        no_repeats(s),
    ensures
        no_repeats(if s.contains(enemy) { s } else { s.push(enemy) }),
{
    if !s.contains(enemy) {
        let t = s.push(enemy);
        assert forall|i: int, j: int| 0 <= i < t.len() && 0 <= j < t.len() && i != j implies t[i] != t[j] by {
            if i < s.len() && j < s.len() {
            } else if i < s.len() {
                assert(s[i] == t[i]);
            } else {
                assert(s[j] == t[j]);
            }
        }
    }
}

/// An enemy that came into range and then left is no longer listed.
pub proof fn law_add_then_remove(s: Seq<u64>, enemy: u64)
    ensures
        !(if s.contains(enemy) { s } else { s.push(enemy) }).filter(other_than(enemy)).contains(enemy),
{
    let t = if s.contains(enemy) { s } else { s.push(enemy) };
    let f = t.filter(other_than(enemy));
    if f.contains(enemy) {
        let k = choose|k: int| 0 <= k < f.len() && f[k] == enemy;
        t.lemma_filter_pred(other_than(enemy), k);
    }
}

/// Removing keeps the list free of repeats.
pub proof fn law_remove_keeps_no_repeats(s: Seq<u64>, enemy: u64)
    requires
        no_repeats(s),
    ensures
        no_repeats(s.filter(other_than(enemy))),
    decreases s.len(),
{
    reveal_with_fuel(Seq::filter, 1);
    if s.len() > 0 {
        let d = s.drop_last();
        assert(no_repeats(d)) by {
            assert forall|i: int, j: int| 0 <= i < d.len() && 0 <= j < d.len() && i != j implies d[i] != d[j] by {
                assert(d[i] == s[i] && d[j] == s[j]);
            }
        }
        law_remove_keeps_no_repeats(d, enemy);
        assert(d.push(s.last()) =~= s);
        d.lemma_filter_push(s.last(), other_than(enemy));
        let fd = d.filter(other_than(enemy));
        if s.last() != enemy {
            let t = fd.push(s.last());
            assert forall|i: int, j: int| 0 <= i < t.len() && 0 <= j < t.len() && i != j implies t[i] != t[j] by {
                if i < fd.len() && j < fd.len() {
                } else {
                    let k = if i < fd.len() { i } else { j };
                    if k < fd.len() && fd[k] == s.last() {
                        d.lemma_filter_contains_rev(other_than(enemy), s.last());
                        assert(fd.contains(s.last()));
                        let m = choose|m: int| 0 <= m < d.len() && d[m] == s.last();
                        assert(s[m] == s[s.len() - 1]);
                    }
                }
            }
        }
    }
}

/// One frame's collisions: after the arrivals `came` and then the departures
/// `left`, an enemy is listed exactly when it did not leave and was listed or
/// arrived, and a list free of repeats stays so.
pub proof fn law_collision_batch(s: Seq<u64>, came: Seq<u64>, left: Seq<u64>, x: u64)
    ensures
        after_departures(after_arrivals(s, came), left).contains(x) <==> !left.contains(x) && (s.contains(x)
            || came.contains(x)),
        no_repeats(s) ==> no_repeats(after_departures(after_arrivals(s, came), left)),
{
    lemma_arrivals_member(s, came, x);
    lemma_departures_member(after_arrivals(s, came), left, x);
    if no_repeats(s) {
        lemma_arrivals_no_repeats(s, came);
        lemma_departures_no_repeats(after_arrivals(s, came), left);
    }
}

/// Arrivals keep a list free of repeats.
proof fn lemma_arrivals_no_repeats(s: Seq<u64>, came: Seq<u64>)
    requires
        no_repeats(s),
    ensures
        no_repeats(after_arrivals(s, came)),
    decreases came.len(),
{
    if came.len() > 0 {
        lemma_arrivals_no_repeats(s, came.drop_last());
        law_add_keeps_no_repeats(after_arrivals(s, came.drop_last()), came.last());
    }
}

/// Departures keep a list free of repeats.
proof fn lemma_departures_no_repeats(s: Seq<u64>, left: Seq<u64>)
    requires
        no_repeats(s),
    ensures
        no_repeats(after_departures(s, left)),
    decreases left.len(),
{
    if left.len() > 0 {
        lemma_departures_no_repeats(s, left.drop_last());
        law_remove_keeps_no_repeats(after_departures(s, left.drop_last()), left.last());
    }
}

} // verus!

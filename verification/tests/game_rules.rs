use chaos_fortress::attribute::{
    Attribute, AttributeDefinition, AttributeModifier, AttributeSet, AttributeTemplate, ModifierKind,
};
use chaos_fortress::bullet::{bullet_battle_event, BulletBattleEvent};
use chaos_fortress::common::{CollisionLayers, EnemyTargetList, GamePhysicsLayer, VisualDisplayLayer};
use chaos_fortress::dropped_items::{DroppedItemDefinition, DroppedItemTemplate};
use chaos_fortress::enemy::spawner::{EnemySpawner, SpawnArea, SpawnEntry};
use chaos_fortress::enemy::{basic_enemy_damage, enemy_reaches_base, EnemyBuildError, EnemyBuilderContainer};
use chaos_fortress::level::LevelState;
use chaos_fortress::map::{grid_cells, MapCell, MapCellData, MapState};
use chaos_fortress::named_map::NamedMap;
use chaos_fortress::role::archer::{archer_step, archer_values, ArcherAction, ArcherMode};
use chaos_fortress::role::{collision_target, find_role, BuildError, RoleBuilderContainer};
use chaos_fortress::shop::{Shop, ShopItems};

fn attr(base: f32) -> Attribute<f32> {
    Attribute { base, value: base, max: f32::MAX, min: f32::MIN, modifiers: Vec::new() }
}

fn modifier(id: &str, kind: ModifierKind<f32>) -> AttributeModifier<f32> {
    AttributeModifier { id: id.to_string(), tag_id: "tag".to_string(), kind }
}

#[test]
fn modifiers_add_remove_and_summary() {
    let mut a = attr(100.0);
    assert!(a.add_modifier(modifier("sword", ModifierKind::Flat(10.0))));
    assert!(!a.add_modifier(modifier("sword", ModifierKind::Flat(99.0))));
    assert!(a.add_modifier(modifier("buff", ModifierKind::Percent(0.5))));
    assert!(a.add_modifier(modifier("o1", ModifierKind::Override(1.0))));
    assert!(a.add_modifier(modifier("o2", ModifierKind::Override(2.0))));
    assert_eq!(a.modifiers.len(), 4);
    let s = a.modifier_summary();
    assert_eq!(s.flats, vec![10.0]);
    assert_eq!(s.percents, vec![0.5]);
    assert_eq!(s.last_override, Some(2.0));
    assert!(a.remove_modifier("o2"));
    assert!(!a.remove_modifier("o2"));
    assert_eq!(a.modifier_summary().last_override, Some(1.0));
    a.value = 5.0;
    a.reset();
    assert_eq!(a.value, 100.0);
}

#[test]
fn attribute_set_and_template() {
    let mut set: AttributeSet<f32> = AttributeSet::new();
    set.insert("hp", attr(10.0));
    set.insert("hp", attr(20.0));
    set.insert("armor", attr(3.0));
    assert_eq!(set.attributes.len(), 2);
    assert_eq!(set.get("hp").unwrap().base, 20.0);
    let mut names = set.names();
    names.sort();
    assert_eq!(names, vec!["armor".to_string(), "hp".to_string()]);
    let pairs = set.iter();
    assert_eq!(pairs.len(), 2);
    assert_eq!((pairs[0].0.as_str(), pairs[0].1.base), ("hp", 20.0));
    assert_eq!((pairs[1].0.as_str(), pairs[1].1.base), ("armor", 3.0));
    if let Some(hp) = set.get_mut("hp") {
        hp.value = 7.0;
    }
    assert!(set.get_mut("mana").is_none());
    assert_eq!(set.get("hp").unwrap().value, 7.0);
    assert_eq!(set.get("armor").unwrap().value, 3.0);
    assert_eq!(set.remove("hp").unwrap().base, 20.0);
    assert!(set.get("hp").is_none());

    let mut template: AttributeTemplate<f32> = AttributeTemplate::new();
    template.define(AttributeDefinition { name: "hp".into(), base: 100.0, min: 0.0, max: 100.0 });
    template.define(AttributeDefinition { name: "armor".into(), base: 30.0, min: 0.0, max: f32::MAX });
    let built = template.build_attribute_set(&["hp", "attack", "armor"]);
    assert_eq!(built.attributes.len(), 2);
    let hp = built.get("hp").unwrap();
    assert_eq!((hp.base, hp.value, hp.min, hp.max), (100.0, 100.0, 0.0, 100.0));
    assert!(hp.modifiers.is_empty());
    assert!(built.get("attack").is_none());
    assert_eq!(template.get("armor").unwrap().max, f32::MAX);
}

#[test]
fn dropped_template_define_replaces() {
    let mut t: DroppedItemTemplate<f32> = DroppedItemTemplate::new();
    t.define(DroppedItemDefinition { name: "gold".into(), item_type: "gold".into(), min_amount: 1, max_amount: 10, weight: 100.0 });
    t.define(DroppedItemDefinition { name: "gold".into(), item_type: "gold".into(), min_amount: 2, max_amount: 3, weight: 1.0 });
    assert_eq!(t.definitions.len(), 1);
    assert_eq!(t.get("gold").unwrap().min_amount, 2);
    assert!(t.get("wood").is_none());
}

#[test]
fn named_map_basics() {
    let mut m: NamedMap<u8> = NamedMap::new();
    assert!(m.is_empty());
    m.insert("a".to_string(), 1);
    m.insert("b".to_string(), 2);
    m.insert("a".to_string(), 3);
    assert_eq!(m.len(), 2);
    assert_eq!(m.get("a"), Some(&3));
    assert!(m.contains_key("b"));
    assert_eq!(m.keys(), vec!["a".to_string(), "b".to_string()]);
    assert_eq!((m.name_at(1).as_str(), *m.value_at(1)), ("b", 2));
    *m.get_mut("b").unwrap() = 9;
    assert_eq!(m.get("b"), Some(&9));
    assert_eq!(m.iter(), vec![(&"a".to_string(), &3), (&"b".to_string(), &9)]);
    assert_eq!(m.remove("a"), Some(3));
    assert_eq!(m.remove("a"), None);
    assert_eq!(m.len(), 1);
}

#[test]
fn level_gold_and_shop() {
    let mut level = LevelState::default();
    assert_eq!(level.money, 100);
    let items = ShopItems::new();
    assert_eq!(items.role.price, 50);
    assert_eq!(items.role.id, "recruit_archer");
    assert_eq!(items.role.value, "archer");
    assert!(level.purchase(items.role.price));
    assert_eq!(level.money, 50);
    assert!(level.purchase(items.role.price));
    assert_eq!(level.money, 0);
    assert!(!level.purchase(items.role.price));
    assert_eq!(level.money, 0);
    level.collect_gold(5);
    assert_eq!(level.money, 5);
    assert_eq!(Shop(false).toggled(), Shop(true));
    assert_eq!(Shop(true).toggled(), Shop(false));
}

#[test]
fn layers_and_draw_order() {
    let w = GamePhysicsLayer::world_layers();
    let c = GamePhysicsLayer::character_layers();
    let e = GamePhysicsLayer::enemy_layers();
    let d = GamePhysicsLayer::detect_enemy_layers();
    let meets = |a: CollisionLayers, b: CollisionLayers| a.memberships & b.filters != 0 && b.memberships & a.filters != 0;
    assert!(meets(c, e) && meets(w, c) && meets(w, e) && meets(d, e));
    assert!(!meets(d, w) && !meets(d, c) && !meets(c, c));
    assert_eq!(w, CollisionLayers { memberships: 1, filters: 6 });
    assert_eq!(GamePhysicsLayer::Enemy.bit(), 4);
    assert_eq!(VisualDisplayLayer::Terrain.z_rank(), 0);
    assert_eq!(VisualDisplayLayer::Character.z_rank(), 1);
    assert_eq!(VisualDisplayLayer::Bullet.z_rank(), 2);
}

#[test]
fn enemy_target_list() {
    let mut list = EnemyTargetList::new();
    assert_eq!(list.primary().0, None);
    list.add(5);
    list.add(7);
    list.add(5);
    assert_eq!(list.0, vec![5, 7]);
    assert_eq!(list.primary().0, Some(5));
    list.remove(5);
    assert_eq!(list.0, vec![7]);
    assert!(!list.contains(5));
    list.add(9);
    list.retain_enemies(&vec![9, 11]);
    assert_eq!(list.0, vec![9]);
}

#[test]
fn target_list_collision_batch() {
    let mut list = EnemyTargetList(vec![3, 4]);
    // 5 enters and leaves in the same frame; 6 enters twice; 4 leaves.
    list.apply_collisions(&vec![5, 6, 6, 3], &vec![5, 4]);
    assert_eq!(list.0, vec![3, 6]);
    list.apply_collisions(&vec![], &vec![]);
    assert_eq!(list.0, vec![3, 6]);
}

#[test]
fn collision_roles() {
    // e1 is an enemy, e2 an attack-range sensor under role 100.
    assert_eq!(find_role(1, 2, true, false, None, Some(100)), Some(100));
    assert_eq!(find_role(1, 2, false, true, None, None), Some(1));
    assert_eq!(find_role(1, 2, false, false, None, None), None);
    assert_eq!(collision_target(1, 2, false, true, Some(50), None), Some((50, 2)));
    assert!(enemy_reaches_base(true, false, false, true));
    assert!(enemy_reaches_base(false, true, true, false));
    assert!(!enemy_reaches_base(true, false, true, false));
}

#[test]
fn bullet_events() {
    assert_eq!(bullet_battle_event(Some(1), Some(2), false, true), Some(BulletBattleEvent { bullet: 2, other: 1 }));
    assert_eq!(bullet_battle_event(Some(1), Some(2), true, true), Some(BulletBattleEvent { bullet: 1, other: 2 }));
    assert_eq!(bullet_battle_event(None, Some(2), false, true), None);
    assert_eq!(bullet_battle_event(Some(1), Some(2), false, false), None);
}

#[test]
fn map_grid_and_state() {
    let cells = grid_cells(12, 5);
    assert_eq!(cells.len(), 60);
    assert_eq!(cells[0], (MapCell { x: 0, y: 0 }, true));
    assert_eq!(cells[1], (MapCell { x: 1, y: 0 }, true));
    assert_eq!(cells[2], (MapCell { x: 2, y: 0 }, false));
    assert_eq!(cells[13], (MapCell { x: 1, y: 1 }, true));
    assert_eq!(cells[59], (MapCell { x: 11, y: 4 }, false));
    let mut state = MapState::new();
    let cell = MapCell { x: 3, y: 2 };
    assert_eq!(state.get(cell), None);
    state.register_cell(cell);
    assert_eq!(state.get(cell), Some(MapCellData { role: None }));
    state.set_role(cell, Some(8));
    state.register_cell(cell);
    assert_eq!(state.get(cell), Some(MapCellData { role: Some(8) }));
}

#[test]
fn archer_values_and_states() {
    let mut set: AttributeSet<f32> = AttributeSet::new();
    set.insert("attack_range", attr(2.0));
    set.insert("attack_speed", attr(1.0));
    assert!(matches!(archer_values(&set), Err(BuildError::BuildFailed(ref m)) if m == "missing attribute 'attack'"));
    set.insert("attack", attr(10.0));
    let v = archer_values(&set).ok().unwrap();
    assert_eq!((v.attack_range, v.attack_speed, v.projectile_damage), (2.0, 1.0, 10.0));
    assert_eq!(archer_step(ArcherMode::Idle, None), (ArcherMode::Idle, None));
    assert_eq!(archer_step(ArcherMode::Idle, Some(3)), (ArcherMode::Combat, Some(ArcherAction::ActivateSkill)));
    assert_eq!(archer_step(ArcherMode::Combat, Some(3)), (ArcherMode::Combat, None));
    assert_eq!(basic_enemy_damage(&set).ok(), Some(10.0));
    let empty: AttributeSet<f32> = AttributeSet::new();
    assert!(matches!(basic_enemy_damage(&empty), Err(EnemyBuildError::BuildFailed(ref m)) if m == "missing attribute 'attack'"));
    // The first missing attribute, in the order range, speed, attack, is reported.
    assert!(matches!(archer_values(&empty), Err(BuildError::BuildFailed(ref m)) if m == "missing attribute 'attack_range'"));
    let mut only_range: AttributeSet<f32> = AttributeSet::new();
    only_range.insert("attack_range", attr(2.0));
    assert!(matches!(archer_values(&only_range), Err(BuildError::BuildFailed(ref m)) if m == "missing attribute 'attack_speed'"));
}

#[test]
fn registries() {
    let mut roles: RoleBuilderContainer<u8> = RoleBuilderContainer::new();
    assert!(matches!(roles.builder("archer"), Err(BuildError::MissingBuilder(ref n)) if n == "archer"));
    roles.register("archer", 1);
    assert_eq!(roles.builder("archer").ok(), Some(&1));
    let mut enemies: EnemyBuilderContainer<u8> = EnemyBuilderContainer::new();
    assert!(matches!(enemies.builder("basic"), Err(EnemyBuildError::MissingBuilder(ref n)) if n == "basic"));
    enemies.register("basic", 2);
    assert_eq!(enemies.builder("basic").ok(), Some(&2));
}

#[test]
fn spawner_picks_within_bounds() {
    let spawner = EnemySpawner {
        spawn_area: SpawnArea { col_min: 13, col_max: 15, row_min: 0, row_max: 4 },
        entries: vec![
            SpawnEntry { builder_name: "basic".to_string(), count: 10, interval: 0.6f32 },
            SpawnEntry { builder_name: "fast".to_string(), count: 5, interval: 0.3f32 },
        ],
        spawn_timer: 1.0f32,
    };
    let mut seen = [false; 2];
    for _ in 0..200 {
        let c = spawner.pick_spawn();
        assert!((13..=15).contains(&c.col));
        assert!(c.row <= 4);
        assert!(c.entry < 2);
        seen[c.entry] = true;
    }
    assert!(seen[0] && seen[1]);
}

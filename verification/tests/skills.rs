use chaos_fortress::named_map::NamedMap;
use chaos_fortress::skill::loader::{skill_from_tables, SkillLoadError, TomlScalar};
use chaos_fortress::skill::{
    SkillDefinition, SkillEffectBuilderContainer, SkillEffectDefinition, SkillFeatureBuilderContainer,
    SkillEvent, SkillFeatureDefinition, SkillFeatureResult, SkillRunContext,
};

fn scalar(v: &toml::Value) -> TomlScalar<f32> {
    match v {
        toml::Value::String(s) => TomlScalar::Text(s.clone()),
        toml::Value::Float(f) => TomlScalar::Number(*f as f32),
        toml::Value::Integer(i) => TomlScalar::Number(*i as f64 as f32),
        _ => TomlScalar::Other,
    }
}

fn tables(root: &toml::Table, key: &str) -> Vec<NamedMap<TomlScalar<f32>>> {
    let mut out = Vec::new();
    if let Some(toml::Value::Array(items)) = root.get(key) {
        for item in items {
            let mut t = NamedMap::new();
            if let toml::Value::Table(entries) = item {
                for (k, v) in entries {
                    t.insert(k.clone(), scalar(v));
                }
            }
            out.push(t);
        }
    }
    out
}

fn parse_toml(content: &str) -> Result<SkillDefinition<f32>, SkillLoadError> {
    let root: toml::Table = toml::from_str(content).unwrap();
    let header = root.get("skill").unwrap().as_table().unwrap();
    let id = header.get("id").unwrap().as_str().unwrap();
    let name = header.get("name").unwrap().as_str().unwrap();
    skill_from_tables(id, name, &tables(&root, "features"), &tables(&root, "effects"))
}

#[test]
fn parse_valid_toml() {
    let toml_str = r#"
[skill]
id = "archer_shot"
name = "Archer Shot"

[[features]]
id = "cooldown"
cooldown_duration = 1.0

[[features]]
id = "damage"
base_damage = 50.0
ratio = 1.5
"#;
    let skill = parse_toml(toml_str).unwrap();
    assert_eq!(skill.id, "archer_shot");
    assert_eq!(skill.name, "Archer Shot");
    assert_eq!(skill.features.len(), 2);

    let cooldown = skill.get_feature("cooldown").unwrap();
    assert!((cooldown.get("cooldown_duration").unwrap() - 1.0).abs() < f32::EPSILON);

    let damage = skill.get_feature("damage").unwrap();
    assert!((damage.get("base_damage").unwrap() - 50.0).abs() < f32::EPSILON);
    assert!((damage.get("ratio").unwrap() - 1.5).abs() < f32::EPSILON);
}

#[test]
fn parse_minimal_toml() {
    let toml_str = r#"
[skill]
id = "empty_skill"
name = "Empty"
"#;
    let skill = parse_toml(toml_str).unwrap();
    assert_eq!(skill.id, "empty_skill");
    assert!(skill.features.is_empty());
}

#[test]
fn parse_missing_id_field() {
    let toml_str = r#"
[skill]
id = "test"
name = "Test"

[[features]]
cooldown_duration = 1.0
"#;
    let result = parse_toml(toml_str);
    assert!(result.is_err());
    let err = result.err().unwrap();
    assert!(err.message().contains("must have an `id` field"));
    assert_eq!(err.message(), "each [[features]] entry must have an `id` field");
    assert_eq!(err, SkillLoadError::MissingFeatureId);
}

#[test]
fn parse_integer_as_float() {
    let toml_str = r#"
[skill]
id = "test"
name = "Test"

[[features]]
id = "cooldown"
cooldown_duration = 2
"#;
    let skill = parse_toml(toml_str).unwrap();
    let cooldown = skill.get_feature("cooldown").unwrap();
    assert!((cooldown.get("cooldown_duration").unwrap() - 2.0).abs() < f32::EPSILON);
}

#[test]
fn toml_effects_and_non_numbers() {
    let toml_str = r#"
[skill]
id = "s"
name = "S"

[[features]]
id = "damage"
label = "not a number"
flag = true
amount = 3

[[effects]]
id = "fire_bullet"
speed = 250.0
count = 2
"#;
    let skill = parse_toml(toml_str).unwrap();
    let damage = skill.get_feature("damage").unwrap();
    assert_eq!(damage.features.len(), 1);
    assert_eq!(damage.get("amount"), Some(3.0));
    assert_eq!(damage.get("label"), None);
    assert_eq!(damage.get("id"), None);
    let fire = skill.get_effect("fire_bullet").unwrap();
    assert_eq!(fire.get("speed"), Some(250.0));
    assert_eq!(fire.get("count"), Some(2.0));
    assert!(skill.get_effect("heal").is_none());
}

#[test]
fn toml_feature_error_before_effect_error() {
    let toml_str = r#"
[skill]
id = "s"
name = "S"

[[features]]
id = 5

[[effects]]
speed = 1.0
"#;
    assert_eq!(parse_toml(toml_str).err().unwrap(), SkillLoadError::MissingFeatureId);
    let only_effect = r#"
[skill]
id = "s"
name = "S"

[[effects]]
speed = 1.0
"#;
    assert_eq!(parse_toml(only_effect).err().unwrap(), SkillLoadError::MissingEffectId);
}

#[test]
fn skill_get_feature_returns_first() {
    let mut skill: SkillDefinition<f32> = SkillDefinition::new("s", "S");
    let mut a = SkillFeatureDefinition::new("damage");
    a.set("base_damage", 1.0);
    let mut b = SkillFeatureDefinition::new("damage");
    b.set("base_damage", 2.0);
    skill.add_feature(a);
    skill.add_feature(b);
    assert_eq!(skill.get_feature("damage").unwrap().get("base_damage"), Some(1.0));
    let mut e = SkillEffectDefinition::new("heal");
    e.set("amount", 4.0);
    e.set("amount", 5.0);
    skill.add_effect(e);
    assert_eq!(skill.get_effect("heal").unwrap().get("amount"), Some(5.0));
}

#[test]
fn run_context_emits_once_all_succeed() {
    let mut skill: SkillDefinition<f32> = SkillDefinition::new("s", "S");
    skill.add_feature(SkillFeatureDefinition::new("cooldown"));
    skill.add_feature(SkillFeatureDefinition::new("damage"));
    let mut ctx: SkillRunContext<u32> = SkillRunContext::new(7, &skill);
    assert_eq!(ctx.feature_results.len(), 2);
    assert!(ctx.take_event(9).is_none());
    ctx.record_feature_result("cooldown", SkillFeatureResult::Succeeded(1));
    assert!(ctx.take_event(9).is_none());
    ctx.record_feature_result("damage", SkillFeatureResult::Succeeded(2));
    let event = ctx.take_event(9).unwrap();
    assert_eq!(event.skill, 9);
    assert_eq!(event.owner, 7);
    assert!(matches!(event.feature_results.get("damage"), Some(SkillFeatureResult::Succeeded(2))));
    // Everything is back to Ready: no second event.
    assert!(matches!(ctx.feature_results.get("cooldown"), Some(SkillFeatureResult::Ready)));
    assert!(ctx.take_event(9).is_none());
    ctx.record_feature_result("cooldown", SkillFeatureResult::Error("boom".to_string()));
    assert!(!ctx.all_ok());
}

#[test]
fn skill_event_from_run_context() {
    let mut skill: SkillDefinition<f32> = SkillDefinition::new("s", "S");
    skill.add_feature(SkillFeatureDefinition::new("cooldown"));
    let mut ctx: SkillRunContext<u32> = SkillRunContext::new(4, &skill);
    ctx.record_feature_result("cooldown", SkillFeatureResult::Error("late".to_string()));
    let event = SkillEvent::from((12, ctx));
    assert_eq!((event.skill, event.owner), (12, 4));
    assert!(matches!(event.feature_results.get("cooldown"), Some(SkillFeatureResult::Error(m)) if m == "late"));
    let copy = event.feature_results.get("cooldown").unwrap().clone();
    assert!(matches!(copy, SkillFeatureResult::Error(m) if m == "late"));
}

#[test]
fn skill_load_error_messages() {
    assert_eq!(SkillLoadError::MissingEffectId.message(), "each [[effects]] entry must have an `id` field");
}

#[test]
fn builder_containers() {
    let mut features: SkillFeatureBuilderContainer<&str> = SkillFeatureBuilderContainer::new("cooldown builder");
    assert_eq!(*features.builder("cooldown").unwrap(), "cooldown builder");
    assert!(matches!(
        features.builder("damage"),
        Err(chaos_fortress::skill::BuildError::MissingBuilder(ref id)) if id == "damage"
    ));
    features.register("damage", "damage builder");
    let mut skill: SkillDefinition<f32> = SkillDefinition::new("s", "S");
    skill.add_feature(SkillFeatureDefinition::new("range"));
    skill.add_feature(SkillFeatureDefinition::new("damage"));
    skill.add_feature(SkillFeatureDefinition::new("cooldown"));
    assert_eq!(features.features_to_build(&skill), vec![1, 2]);

    let mut effects: SkillEffectBuilderContainer<u8> = SkillEffectBuilderContainer::new();
    skill.add_effect(SkillEffectDefinition::new("fire_bullet"));
    assert!(effects.effects_to_build(&skill).is_empty());
    effects.register("fire_bullet", 1);
    assert_eq!(effects.effects_to_build(&skill), vec![0]);
}

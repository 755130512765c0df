use bsp_schema::aggregate::{aggregate_entities, Entity};
use bsp_schema::pipeline::schemas_for_entities;
use bsp_schema::schema::normalize_name;
use bsp_schema::types::EntityPropertyType;

fn ent(pairs: &[(&str, &str)]) -> Entity {
    Entity { props: pairs.iter().map(|p| (p.0.to_string(), p.1.to_string())).collect() }
}

#[test]
fn rename_of_reserved_word() {
    let (name, from) = normalize_name("type");
    assert_eq!(name, "r#type");
    assert_eq!(from, Some("type".to_string()));
}

#[test]
fn rename_of_dotted_name() {
    let (name, from) = normalize_name("on.fire");
    assert_eq!(name, "on_fire");
    assert_eq!(from, Some("on.fire".to_string()));
}

#[test]
fn valid_name_kept_without_rename() {
    let (name, from) = normalize_name("health");
    assert_eq!(name, "health");
    assert_eq!(from, None);
}

#[test]
fn digit_start_gets_prefix() {
    let (name, from) = normalize_name("9lives");
    assert_eq!(name, "_9lives");
    assert_eq!(from, Some("9lives".to_string()));
}

#[test]
fn lone_underscore_gets_prefix() {
    let (name, from) = normalize_name("_");
    assert_eq!(name, "__");
    assert_eq!(from, Some("_".to_string()));
}

#[test]
fn aggregation_counts_occurrences_and_values() {
    let entities = vec![
        ent(&[("classname", "item_health"), ("amount", "10")]),
        ent(&[("classname", "item_health")]),
        ent(&[("classname", "item_health"), ("amount", "25"), ("amount", "50")]),
    ];
    let classes = aggregate_entities(&entities);
    assert_eq!(classes.len(), 1);
    assert_eq!(classes[0].name, "item_health");
    assert_eq!(classes[0].occurrences, 3);
    assert_eq!(classes[0].properties.len(), 1);
    assert_eq!(classes[0].properties[0].name, "amount");
    assert_eq!(classes[0].properties[0].values, vec!["10", "25", "50"]);
}

#[test]
fn aggregation_skips_malformed_entities_and_keys() {
    let entities = vec![
        ent(&[("origin", "0 0 0")]),                        // no classname
        ent(&[("classname", ""), ("origin", "0 0 0")]),     // empty classname
        ent(&[("classname", "info_node"), ("hammerid", "77"), ("", "x"), ("origin", "1 2 3")]),
    ];
    let classes = aggregate_entities(&entities);
    assert_eq!(classes.len(), 1);
    assert_eq!(classes[0].name, "info_node");
    assert_eq!(classes[0].occurrences, 1);
    assert_eq!(classes[0].properties.len(), 1);
    assert_eq!(classes[0].properties[0].name, "origin");
}

#[test]
fn end_to_end_optional_angles() {
    // Two instances of one class, one of them missing `angles`: the
    // synthesized property is Angles and optional.
    let entities = vec![
        ent(&[("classname", "info_player_start"), ("angles", "0 90 0")]),
        ent(&[("classname", "info_player_start")]),
    ];
    let schemas = schemas_for_entities(&entities);
    assert_eq!(schemas.len(), 1);
    assert_eq!(schemas[0].identifier, "InfoPlayerStart");
    assert!(!schemas[0].reference_bearing);
    assert_eq!(schemas[0].properties.len(), 1);
    let p = &schemas[0].properties[0];
    assert_eq!(p.name, "angles");
    assert_eq!(p.ty, EntityPropertyType::Angles);
    assert!(p.optional);
    assert_eq!(p.rename_from, None);
}

#[test]
fn schemas_sorted_and_reference_bearing() {
    let entities = vec![
        ent(&[("classname", "weapon_shotgun"), ("model", "models/w.mdl"), ("clip", "8")]),
        ent(&[("classname", "ambient_generic"), ("message", "sound.wav")]),
    ];
    let schemas = schemas_for_entities(&entities);
    assert_eq!(schemas.len(), 2);
    assert_eq!(schemas[0].identifier, "AmbientGeneric");
    assert_eq!(schemas[1].identifier, "WeaponShotgun");
    // Both classes carry a Str property, so both borrow.
    assert!(schemas[0].reference_bearing);
    assert!(schemas[1].reference_bearing);
    // Properties are sorted by normalized name.
    assert_eq!(schemas[1].properties[0].name, "clip");
    assert_eq!(schemas[1].properties[1].name, "model");
    assert_eq!(schemas[1].properties[0].ty, EntityPropertyType::U8);
    assert_eq!(schemas[1].properties[1].ty, EntityPropertyType::Str);
}

#[test]
fn pipeline_is_idempotent_over_a_corpus() {
    let make = || {
        vec![
            ent(&[("classname", "b_thing"), ("b", "2"), ("a", "1")]),
            ent(&[("classname", "a_thing"), ("x", "0.5")]),
            ent(&[("classname", "b_thing"), ("a", "3")]),
        ]
    };
    let s1 = schemas_for_entities(&make());
    let s2 = schemas_for_entities(&make());
    assert_eq!(s1.len(), s2.len());
    for (c1, c2) in s1.iter().zip(s2.iter()) {
        assert_eq!(c1.identifier, c2.identifier);
        assert_eq!(c1.reference_bearing, c2.reference_bearing);
        assert_eq!(c1.properties.len(), c2.properties.len());
        for (p1, p2) in c1.properties.iter().zip(c2.properties.iter()) {
            assert_eq!(p1.name, p2.name);
            assert_eq!(p1.ty, p2.ty);
            assert_eq!(p1.optional, p2.optional);
            assert_eq!(p1.rename_from, p2.rename_from);
        }
    }
}

#[test]
fn decode_rejects_garbage() {
    assert!(bsp_schema::pipeline::decode_map(&[]).is_err());
    let (schemas, failed) = bsp_schema::pipeline::schemas_for_maps(&vec![vec![1u8, 2, 3]]);
    assert_eq!(schemas.len(), 0);
    assert_eq!(failed, vec![0]);
}

use bsp_schema::sdk_data::{EntityClass, FoundType, Inherit, SdkData};
use bsp_schema::sdk_parser::{conversion_hints, find_data_desc_fields, map_type, merge_inherit_pairs};
use bsp_schema::types::EntityPropertyType;

fn hint(class: &str, name: &str, ty: &str) -> FoundType {
    FoundType { class: class.to_string(), name: name.to_string(), ty: ty.to_string() }
}

#[test]
fn map_type_table() {
    assert_eq!(map_type("FIELD_FLOAT"), Some("f32".to_string()));
    assert_eq!(map_type("FIELD_STRING"), Some("string".to_string()));
    assert_eq!(map_type("FIELD_BOOLEAN"), Some("bool".to_string()));
    assert_eq!(map_type("FIELD_INTEGER"), Some("bool".to_string()));
    assert_eq!(map_type("FIELD_COLOR32"), Some("color".to_string()));
    assert_eq!(map_type("FIELD_VECTOR"), Some("vector".to_string()));
    assert_eq!(map_type("FIELD_MODELNAME"), None);
}

#[test]
fn datadesc_fields_extracted() {
    let code = "class CWeapon : public CBase {};\n\
        BEGIN_DATADESC( CWeapon )\n\
        \tDEFINE_KEYFIELD( m_flDamage, FIELD_FLOAT, \"damage\" ),\n\
        \tDEFINE_KEYFIELD( m_iClips, FIELD_INTEGER, \"clips\" ),\n\
        \tDEFINE_KEYFIELD( m_hOwner, FIELD_EHANDLE, \"owner\" ),\n\
        END_DATADESC()\n";
    let found = find_data_desc_fields(code);
    assert_eq!(found.len(), 2);
    assert_eq!(found[0].class, "CWeapon");
    assert_eq!(found[0].name, "damage");
    assert_eq!(found[0].ty, "f32");
    assert_eq!(found[1].name, "clips");
    assert_eq!(found[1].ty, "bool");
}

#[test]
fn datadesc_without_end_marker_yields_nothing() {
    let code = "BEGIN_DATADESC( CItem )\n DEFINE_KEYFIELD( m_x, FIELD_FLOAT, \"x\" ),\n";
    assert_eq!(find_data_desc_fields(code).len(), 0);
}

#[test]
fn datadesc_two_blocks() {
    let code = "BEGIN_DATADESC( CA )\nDEFINE_KEYFIELD( a, FIELD_FLOAT, \"a\" )\nEND_DATADESC\n\
        BEGIN_DATADESC( CB )\nDEFINE_KEYFIELD( b, FIELD_VECTOR, \"b\" )\nEND_DATADESC\n";
    let found = find_data_desc_fields(code);
    assert_eq!(found.len(), 2);
    assert_eq!(found[0].class, "CA");
    assert_eq!(found[1].class, "CB");
    assert_eq!(found[1].ty, "vector");
}

#[test]
fn conversion_patterns_emit_hints_in_order() {
    let body = "{ m_iHealth = atoi(szValue); m_name = AllocPooledString(szValue); }";
    let hints = conversion_hints("CItem", "\"health\"", body);
    assert_eq!(hints.len(), 2);
    assert_eq!(hints[0].class, "CItem");
    assert_eq!(hints[0].name, "health");
    assert_eq!(hints[0].ty, "i32");
    assert_eq!(hints[1].ty, "string");
}

#[test]
fn conversion_no_match_is_empty() {
    let hints = conversion_hints("CItem", "\"health\"", "{ m_x = 1; }");
    assert_eq!(hints.len(), 0);
}

#[test]
fn inherit_pairs_merge_in_encounter_order() {
    let pairs = vec![
        ("CWeapon".to_string(), "CBase".to_string()),
        ("CWeapon".to_string(), "IUsable".to_string()),
        ("CItem".to_string(), "CBase".to_string()),
    ];
    let merged = merge_inherit_pairs(&pairs);
    assert_eq!(merged.len(), 2);
    assert_eq!(merged[0].name, "CWeapon");
    assert_eq!(merged[0].inherits, vec!["CBase", "IUsable"]);
    assert_eq!(merged[1].name, "CItem");
    assert_eq!(merged[1].inherits, vec!["CBase"]);
}

#[test]
fn empty_sdk_data_knows_nothing() {
    let sdk = SdkData::new();
    assert!(sdk.class_for_entity("info_player_start").is_none());
    assert_eq!(sdk.types_for_entity("info_player_start").len(), 0);
}

#[test]
fn types_for_entity_follows_inheritance_with_override() {
    let sdk = SdkData::load(
        vec![EntityClass {
            entity: "item_medkit".to_string(),
            class: "CMedkit".to_string(),
        }],
        vec![Inherit {
            name: "CMedkit".to_string(),
            inherits: vec!["CItem".to_string()],
        }],
        vec![
            hint("CMedkit", "amount", "i32"),
            hint("CItem", "amount", "f32"),
            hint("CItem", "model", "string"),
        ],
    );
    assert_eq!(sdk.class_for_entity("item_medkit"), Some("CMedkit".to_string()));
    assert_eq!(sdk.inherits_for_class("CMedkit"), vec!["CItem"]);
    assert_eq!(sdk.types_for_class("CItem").len(), 2);
    let types = sdk.types_for_entity("item_medkit");
    // The class's own hint comes first, then the base's hints; a later hint
    // for the same name overrides the earlier one.
    assert_eq!(types.len(), 2);
    assert_eq!(types[0].0, "amount");
    assert_eq!(types[0].1, EntityPropertyType::F32);
    assert_eq!(types[1].0, "model");
    assert_eq!(types[1].1, EntityPropertyType::Str);
}

#[test]
fn unknown_entity_has_no_types() {
    let sdk = SdkData::load(vec![], vec![], vec![hint("CItem", "amount", "i32")]);
    assert_eq!(sdk.types_for_entity("item_medkit").len(), 0);
}

#[test]
fn sdk_type_tags() {
    assert!(bsp_schema::sdk_data::tag_is_known("f32"));
    assert!(bsp_schema::sdk_data::tag_is_known("angles"));
    assert!(!bsp_schema::sdk_data::tag_is_known("ehandle"));
    assert_eq!(bsp_schema::sdk_data::map_sdk_type("color"), EntityPropertyType::Color);
    assert_eq!(bsp_schema::sdk_data::map_sdk_type("vector"), EntityPropertyType::Vector);
    assert_eq!(bsp_schema::sdk_data::map_sdk_type("string"), EntityPropertyType::Str);
    assert_eq!(bsp_schema::sdk_data::map_sdk_type("f32"), EntityPropertyType::F32);
    assert_eq!(bsp_schema::sdk_data::map_sdk_type("i32"), EntityPropertyType::I32);
    assert_eq!(bsp_schema::sdk_data::map_sdk_type("bool"), EntityPropertyType::Bool);
    assert_eq!(bsp_schema::sdk_data::map_sdk_type("angles"), EntityPropertyType::Angles);
}

#[test]
fn entity_prop_lookup_takes_first_match() {
    let e = bsp_schema::aggregate::Entity {
        props: vec![
            ("classname".to_string(), "first".to_string()),
            ("classname".to_string(), "second".to_string()),
        ],
    };
    assert_eq!(e.prop("classname"), Some("first".to_string()));
    assert_eq!(e.prop("origin"), None);
}

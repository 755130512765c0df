use bsp_schema::types::EntityPropertyType;
use bsp_schema::cascade::get_minimal_type;

fn vals(xs: &[&str]) -> Vec<String> {
    xs.iter().map(|s| s.to_string()).collect()
}

#[test]
fn bool_when_all_values_are_tokens() {
    let v = vals(&["0", "1", "yes", "no"]);
    assert_eq!(get_minimal_type("enabled", &v), EntityPropertyType::Bool);
}

#[test]
fn negated_beats_wider_types() {
    let v = vals(&["allow entities that match criteria", "1", "0"]);
    assert_eq!(get_minimal_type("filter", &v), EntityPropertyType::Negated);
}

#[test]
fn u8_for_small_numbers() {
    let v = vals(&["255", "0", "12"]);
    assert_eq!(get_minimal_type("health", &v), EntityPropertyType::U8);
}

#[test]
fn u16_for_ammo_despite_denylist() {
    let v = vals(&["0", "1", "2", "4"]);
    assert_eq!(get_minimal_type("ammo", &v), EntityPropertyType::U16);
}

#[test]
fn spawnflags_skips_every_narrow_candidate() {
    let v = vals(&["0", "1", "2", "4"]);
    assert_eq!(get_minimal_type("spawnflags", &v), EntityPropertyType::U32);
}

#[test]
fn i32_for_signed_values() {
    let v = vals(&["-5", "3"]);
    assert_eq!(get_minimal_type("offset", &v), EntityPropertyType::I32);
}

#[test]
fn f32_for_fractional_values() {
    let v = vals(&["0.5", "1.25"]);
    assert_eq!(get_minimal_type("speed", &v), EntityPropertyType::F32);
}

#[test]
fn outlier_tolerated_at_ninety_nine_percent() {
    let mut v: Vec<String> = Vec::new();
    for _ in 0..99 {
        v.push("0.5".to_string());
    }
    v.push("NaNstring".to_string());
    assert_eq!(get_minimal_type("speed", &v), EntityPropertyType::F32);
}

#[test]
fn outlier_rejected_below_threshold() {
    // 9 of 10 parse: 90% is under the tolerance, so the type degrades.
    let mut v: Vec<String> = Vec::new();
    for _ in 0..9 {
        v.push("0.5".to_string());
    }
    v.push("NaNstring".to_string());
    assert_eq!(get_minimal_type("speed", &v), EntityPropertyType::Str);
}

#[test]
fn empty_values_give_first_attempted_candidate() {
    let v: Vec<String> = Vec::new();
    assert_eq!(get_minimal_type("anything", &v), EntityPropertyType::Bool);
    assert_eq!(get_minimal_type("spawnflags", &v), EntityPropertyType::U32);
    assert_eq!(get_minimal_type("ammo", &v), EntityPropertyType::U16);
}

#[test]
fn color_only_for_guarded_names() {
    let v = vals(&["255 128 0"]);
    assert_eq!(get_minimal_type("rendercolor", &v), EntityPropertyType::Color);
    // Without the name guard the same value falls through to LightColor,
    // which wants four components, and then to Vector.
    assert_eq!(get_minimal_type("origin", &v), EntityPropertyType::Vector);
}

#[test]
fn light_color_for_four_components() {
    let v = vals(&["255 255 255 200"]);
    assert_eq!(get_minimal_type("unrelated", &v), EntityPropertyType::LightColor);
}

#[test]
fn angles_for_guarded_names() {
    let v = vals(&["0 90 0"]);
    assert_eq!(get_minimal_type("angles", &v), EntityPropertyType::Angles);
    assert_eq!(get_minimal_type("movedir", &v), EntityPropertyType::Angles);
}

#[test]
fn string_as_fallback() {
    let v = vals(&["models/props/barrel.mdl"]);
    assert_eq!(get_minimal_type("model", &v), EntityPropertyType::Str);
}

#[test]
fn get_bool_tokens() {
    assert_eq!(bsp_schema::parse::get_bool("0"), Some(false));
    assert_eq!(bsp_schema::parse::get_bool("no"), Some(false));
    assert_eq!(bsp_schema::parse::get_bool("1"), Some(true));
    assert_eq!(bsp_schema::parse::get_bool("yes"), Some(true));
    assert_eq!(bsp_schema::parse::get_bool("maybe"), None);
}

#[test]
fn plus_sign_and_overflow_in_integer_parses() {
    // std's FromStr accepts a leading plus and rejects overflow; the
    // cascade inherits both.
    let v = vals(&["+200"]);
    assert_eq!(get_minimal_type("count", &v), EntityPropertyType::U8);
    let v = vals(&["256"]);
    assert_eq!(get_minimal_type("count", &v), EntityPropertyType::U16);
    let v = vals(&["65536"]);
    assert_eq!(get_minimal_type("count", &v), EntityPropertyType::U32);
    let v = vals(&["4294967296"]);
    // Too big for u32 and i32: reaches F32, which accepts it.
    assert_eq!(get_minimal_type("count", &v), EntityPropertyType::F32);
}

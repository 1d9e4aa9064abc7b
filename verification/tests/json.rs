use harbor_light::json::{
    empty_object, find_field, get_field, get_str_member, json_number, json_str,
    put_field, set_field_exec, take_field, JsonValue,
};

fn fields() -> Vec<(String, JsonValue)> {
    vec![
        ("a".to_string(), json_str("x")),
        ("b".to_string(), json_number("2")),
        ("a".to_string(), json_str("later")),
    ]
}

#[test]
fn lookups_find_the_first_field() {
    let f = fields();
    assert_eq!(find_field(&f, "a"), Some(0));
    assert_eq!(find_field(&f, "b"), Some(1));
    assert_eq!(find_field(&f, "c"), None);
    assert!(matches!(get_field(&f, "a"), Some(JsonValue::Str(s)) if s == "x"));
    let obj = JsonValue::Object(fields());
    assert_eq!(get_str_member(&obj, "a").map(String::as_str), Some("x"));
    assert_eq!(get_str_member(&obj, "b"), None);
    assert_eq!(get_str_member(&json_str("a"), "a"), None);
}

#[test]
fn setting_replaces_in_place_or_appends() {
    let mut f = fields();
    set_field_exec(&mut f, "a", json_str("y"));
    assert_eq!(f.len(), 3);
    assert!(matches!(&f[0].1, JsonValue::Str(s) if s == "y"));
    assert!(matches!(&f[2].1, JsonValue::Str(s) if s == "later"));
    set_field_exec(&mut f, "c", JsonValue::Bool(true));
    assert_eq!(f.len(), 4);
    assert_eq!(f[3].0, "c");
}

#[test]
fn taking_and_putting_back_keeps_the_order() {
    let mut f = fields();
    let (i, v) = take_field(&mut f, "b").unwrap();
    assert_eq!(i, 1);
    assert!(matches!(&v, JsonValue::Number(n) if n == "2"));
    assert_eq!(f.len(), 2);
    put_field(&mut f, i, "b", v);
    assert_eq!(f.iter().map(|(k, _)| k.as_str()).collect::<Vec<_>>(), vec!["a", "b", "a"]);
    assert!(take_field(&mut f, "zzz").is_none());
    assert!(matches!(empty_object(), JsonValue::Object(f) if f.is_empty()));
}

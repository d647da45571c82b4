use goal_digger::json::{add_field, Json};

fn sample() -> Json<f64> {
    Json::Object(vec![
        ("n".to_string(), Json::Null),
        ("b".to_string(), Json::Bool(true)),
        ("u".to_string(), Json::Unsigned(7)),
        ("i".to_string(), Json::Signed(-7)),
        ("f".to_string(), Json::Float(0.5)),
        ("t".to_string(), Json::Text("é".to_string())),
        ("a".to_string(), Json::Array(vec![Json::Unsigned(1), Json::Array(vec![])])),
        ("o".to_string(), Json::Object(vec![("x".to_string(), Json::Null)])),
    ])
}

#[test]
fn values_are_read_by_kind() {
    let j = sample();
    assert_eq!(j.get("b").unwrap().as_bool(), Some(true));
    assert_eq!(j.get("u").unwrap().as_u64(), Some(7));
    assert_eq!(j.get("i").unwrap().as_u64(), None);
    assert_eq!(j.get("f").unwrap().as_u64(), None);
    assert_eq!(j.get("t").unwrap().as_str(), Some("é"));
    assert_eq!(j.get("n").unwrap().as_str(), None);
    assert_eq!(j.get("a").unwrap().as_array().unwrap().len(), 2);
    assert!(j.as_array().is_none());
    assert!(j.get("missing").is_none());
    assert!(j.get("a").unwrap().get("x").is_none());
    assert_eq!(j.get("u").unwrap().as_bool(), None);
}

#[test]
fn first_field_of_a_name_counts() {
    let j: Json<f64> = Json::Object(vec![
        ("k".to_string(), Json::Unsigned(1)),
        ("k".to_string(), Json::Unsigned(2)),
    ]);
    assert_eq!(j.get("k"), Some(&Json::Unsigned(1)));
}

#[test]
fn copies_are_equal() {
    assert_eq!(sample().copy(), sample());
}

#[test]
fn values_are_built() {
    let mut fields: Vec<(String, Json<f64>)> = vec![];
    add_field(&mut fields, "a", Json::of_str("x"));
    add_field(&mut fields, "b", Json::array(vec![Json::Null]));
    assert_eq!(
        Json::object(fields),
        Json::Object(vec![
            ("a".to_string(), Json::Text("x".to_string())),
            ("b".to_string(), Json::Array(vec![Json::Null])),
        ])
    );
}

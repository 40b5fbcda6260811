use metoks::json::{parse_json, Json};
use metoks::number::Real;

#[test]
fn documents_are_read() {
    let j = parse_json(r#"{"a": 1, "b": -2.5, "c": "x\n", "d": [true, null], "e": {"f": 18446744073709551615}}"#).unwrap();
    assert_eq!(j.integer_at("a"), Some(1));
    assert_eq!(j.number_at("a"), Some(Real { bits: 1.0f64.to_bits() }));
    assert_eq!(j.integer_at("b"), None);
    assert_eq!(j.number_at("b"), Some(Real { bits: (-2.5f64).to_bits() }));
    assert_eq!(j.text_at("c").as_deref(), Some("x\n"));
    assert!(matches!(j.get("d"), Some(Json::Array(v)) if v.len() == 2 && matches!(v[0], Json::Bool(true)) && matches!(v[1], Json::Null)));
    let e = j.get("e").unwrap();
    assert_eq!(e.integer_at("f"), None);
    assert_eq!(e.number_at("f"), Some(Real { bits: 18446744073709551615.0f64.to_bits() }));
    assert_eq!(j.get("d").and_then(|d| d.get("x")).map(|_| ()), None);
    assert_eq!(j.text_at("a"), None);
    assert_eq!(j.text_at("zz"), None);
}

#[test]
fn last_of_two_members_counts() {
    assert_eq!(parse_json(r#"{"a":1,"a":2}"#).unwrap().integer_at("a"), Some(2));
}

#[test]
fn other_texts_are_no_documents() {
    for s in ["", "{", "nul", "1 2", "{'a':1}"] {
        assert!(parse_json(s).is_none(), "{s}");
    }
    assert_eq!(parse_json(r#" "t" "#).unwrap().as_text().map(|s| s.as_str()), Some("t"));
}

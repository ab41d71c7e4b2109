use xiaokui_alive::json::{Json, JsonNumber};

fn to_json(v: &serde_json::Value) -> Json {
    match v {
        serde_json::Value::Null => Json::Null,
        serde_json::Value::Bool(b) => Json::Bool(*b),
        serde_json::Value::Number(n) => {
            if let Some(u) = n.as_u64() {
                Json::Number(JsonNumber::PosInt(u))
            } else if let Some(i) = n.as_i64() {
                Json::Number(JsonNumber::NegInt(i))
            } else {
                Json::Number(JsonNumber::Float(n.to_string()))
            }
        }
        serde_json::Value::String(s) => Json::Str(s.clone()),
        serde_json::Value::Array(a) => Json::Array(a.iter().map(to_json).collect()),
        serde_json::Value::Object(m) => {
            Json::Object(m.iter().map(|(k, v)| (k.clone(), to_json(v))).collect())
        }
    }
}

fn from_json(j: &Json) -> serde_json::Value {
    match j {
        Json::Null => serde_json::Value::Null,
        Json::Bool(b) => serde_json::Value::Bool(*b),
        Json::Number(JsonNumber::PosInt(u)) => serde_json::Value::from(*u),
        Json::Number(JsonNumber::NegInt(i)) => serde_json::Value::from(*i),
        Json::Number(JsonNumber::Float(s)) => serde_json::from_str(s).unwrap(),
        Json::Str(s) => serde_json::Value::String(s.clone()),
        Json::Array(a) => serde_json::Value::Array(a.iter().map(from_json).collect()),
        Json::Object(e) => {
            let mut m = serde_json::Map::new();
            for (k, v) in e {
                m.insert(k.clone(), from_json(v));
            }
            serde_json::Value::Object(m)
        }
    }
}

fn j(text: &str) -> Json {
    to_json(&serde_json::from_str::<serde_json::Value>(text).unwrap())
}

fn v(text: &str) -> serde_json::Value {
    serde_json::from_str(text).unwrap()
}

#[test]
fn members_are_looked_up_by_key() {
    let x = j(r#"{"a":{"b":"c"},"n":7,"neg":-3,"f":1.5,"s":"t","arr":[1,2]}"#);
    assert_eq!(x.get("a").unwrap().get_str("b").unwrap(), "c");
    assert_eq!(x.get("n").unwrap().as_u64(), Some(7));
    assert_eq!(x.get("neg").unwrap().as_u64(), None);
    assert_eq!(x.get("f").unwrap().as_u64(), None);
    assert!(x.get("missing").is_none());
    assert!(x.get("s").unwrap().get("anything").is_none());
    assert_eq!(x.get_str_or("missing", "dflt"), "dflt");
    assert_eq!(x.get_str_or("n", "dflt"), "dflt");
    assert_eq!(x.get("arr").unwrap().as_array().unwrap().len(), 2);
    assert!(x.get("s").unwrap().as_array().is_none());
    assert!(matches!(x.get_or_null("missing"), Json::Null));
}

#[test]
fn insert_replaces_or_adds() {
    let mut x = j(r#"{"a":1}"#);
    x.insert("a".to_string(), Json::Str("z".to_string()));
    x.insert("b".to_string(), Json::Bool(true));
    assert_eq!(from_json(&x), v(r#"{"a":"z","b":true}"#));
    let mut not_object = Json::Null;
    not_object.insert("a".to_string(), Json::Null);
    assert!(matches!(not_object, Json::Null));
}

#[test]
fn copies_are_equal() {
    let x = j(r#"{"a":[1,-2,2.5,"s",null,true,{"k":{}}]}"#);
    assert_eq!(from_json(&x.deep_clone()), from_json(&x));
    assert_eq!(from_json(&Json::text("q")), v(r#""q""#));
}

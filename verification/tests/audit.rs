use spruce_grove::audit::{csp_directives, csp_of, required_hardening, self_audit, string_list};
use spruce_grove::json::{Json, JsonNumber, Member};

/// The compact JSON text of a value, members in the order they were built.
fn to_json_text(j: &Json) -> String {
    match j {
        Json::Null => "null".to_string(),
        Json::Bool(b) => b.to_string(),
        Json::Number(JsonNumber::PosInt(u)) => u.to_string(),
        Json::Number(JsonNumber::NegInt(i)) => i.to_string(),
        Json::Number(JsonNumber::Float(t)) => t.clone(),
        Json::Str(s) => serde_json::Value::String(s.clone()).to_string(),
        Json::Array(a) => format!("[{}]", a.iter().map(to_json_text).collect::<Vec<_>>().join(",")),
        Json::Object(m) => {
            let members: Vec<String> = m
                .iter()
                .map(|x| format!("{}:{}", serde_json::Value::String(x.key.clone()), to_json_text(&x.value)))
                .collect();
            format!("{{{}}}", members.join(","))
        }
    }
}

fn obj(pairs: Vec<(&str, Json)>) -> Json {
    Json::Object(
        pairs
            .into_iter()
            .map(|(k, v)| Member { key: k.to_string(), value: v })
            .collect(),
    )
}

const HARD_CSP: &str = "default-src 'self'; object-src 'none'; base-uri 'none'; form-action 'none'; frame-ancestors 'none';";

#[test]
fn an_intact_floor_is_reported() {
    let v = self_audit(HARD_CSP, &vec!["main".to_string()], &vec!["core:default".to_string()]);
    assert_eq!(v.get("floor_intact").and_then(|b| b.as_bool()), Some(true));
    let text = to_json_text(&v);
    assert!(text.contains("\"missing_hardening\":[]"));
    assert!(text.contains("\"csp_directives\":[\"default-src 'self'\",\"object-src 'none'\",\"base-uri 'none'\",\"form-action 'none'\",\"frame-ancestors 'none'\"]"));
    assert!(text.starts_with("{\"capability\":{\"permissions\":[\"core:default\"],\"wildcards\":[],\"windows\":[\"main\"]}"));
}

#[test]
fn a_lowered_floor_names_the_cause() {
    let v = self_audit("default-src 'self'", &vec!["main".to_string()], &vec![]);
    assert_eq!(v.get("floor_intact").and_then(|b| b.as_bool()), Some(false));
    assert_eq!(
        v.get("verdict").and_then(|s| s.as_str()),
        Some("FLOOR LOWERED — CSP hardening directives missing")
    );
    let v = self_audit(HARD_CSP, &vec!["main".to_string()], &vec!["fs:*".to_string()]);
    assert_eq!(
        v.get("verdict").and_then(|s| s.as_str()),
        Some("FLOOR LOWERED — capability permission uses a wildcard")
    );
    let v = self_audit(HARD_CSP, &vec!["main".to_string(), "extra".to_string()], &vec![]);
    assert_eq!(
        v.get("verdict").and_then(|s| s.as_str()),
        Some("FLOOR LOWERED — capability windows widened beyond 'main'")
    );
}

#[test]
fn config_fields_are_read_leniently() {
    let conf = obj(vec![("app", obj(vec![("security", obj(vec![("csp", Json::from_str("a; ;b "))]))]))]);
    assert_eq!(csp_of(&conf), "a; ;b ");
    assert_eq!(csp_directives("a; ;b "), vec!["a", "b"]);
    assert_eq!(csp_of(&Json::Null), "");
    let cap = obj(vec![("windows", Json::Array(vec![Json::from_str("main"), Json::uint(3)]))]);
    assert_eq!(string_list(&cap, "windows"), vec!["main"]);
    assert!(string_list(&cap, "permissions").is_empty());
    assert_eq!(required_hardening().len(), 4);
}

use zotron::cli::RpcCaller;
use zotron::json::{Json, JsonNumber};
use zotron::web::load_web_config;

fn to_json(v: &serde_json::Value) -> Json {
    match v {
        serde_json::Value::Null => Json::Null,
        serde_json::Value::Bool(b) => Json::Bool(*b),
        serde_json::Value::Number(n) => match (n.as_u64(), n.as_i64()) {
            (Some(u), _) => Json::Number(JsonNumber::PosInt(u)),
            (None, Some(i)) => Json::Number(JsonNumber::NegInt(i)),
            _ => Json::Number(JsonNumber::Float(n.to_string())),
        },
        serde_json::Value::String(s) => Json::Str(s.clone()),
        serde_json::Value::Array(a) => Json::Array(a.iter().map(to_json).collect()),
        serde_json::Value::Object(m) => {
            Json::Object(m.iter().map(|(k, x)| (k.clone(), to_json(x))).collect())
        }
    }
}

fn j(text: &str) -> Json {
    to_json(&serde_json::from_str::<serde_json::Value>(text).expect("valid JSON"))
}

fn to_value(j: &Json) -> serde_json::Value {
    match j {
        Json::Null => serde_json::Value::Null,
        Json::Bool(b) => serde_json::Value::Bool(*b),
        Json::Number(JsonNumber::PosInt(n)) => serde_json::Value::from(*n),
        Json::Number(JsonNumber::NegInt(n)) => serde_json::Value::from(*n),
        Json::Number(JsonNumber::Float(t)) => serde_json::from_str(t).expect("number"),
        Json::Str(s) => serde_json::Value::String(s.clone()),
        Json::Array(a) => serde_json::Value::Array(a.iter().map(to_value).collect()),
        Json::Object(m) => serde_json::Value::Object(
            m.iter().map(|(k, x)| (k.clone(), to_value(x))).collect(),
        ),
    }
}

fn v(text: &str) -> serde_json::Value {
    serde_json::from_str(text).expect("valid JSON")
}

struct FakeRpc {
    responses: Vec<Result<Json, String>>,
    calls: Vec<(String, Option<serde_json::Value>)>,
}

impl RpcCaller for FakeRpc {
    fn call(&mut self, method: &str, params: Option<Json>) -> Result<Json, String> {
        self.calls.push((method.to_string(), params.as_ref().map(to_value)));
        if self.responses.is_empty() {
            Err("rpc unreachable".to_string())
        } else {
            self.responses.remove(0)
        }
    }
}

#[test]
fn load_web_config_reads_settings() {
    let mut rpc = FakeRpc {
        responses: vec![
            Ok(j(r#"{"source.mailto": "me@example.org"}"#)),
            Ok(j(r#"{"source.core.apiKey": "core-secret"}"#)),
        ],
        calls: Vec::new(),
    };
    let config = load_web_config(&mut rpc);
    assert_eq!(config.mailto.as_deref(), Some("me@example.org"));
    assert_eq!(config.core_api_key.as_deref(), Some("core-secret"));
    assert_eq!(rpc.calls.len(), 2);
    assert_eq!(rpc.calls[0].0, "settings.getRaw");
    assert_eq!(rpc.calls[0].1, Some(v(r#"{"key": "source.mailto"}"#)));
    assert_eq!(rpc.calls[1].1, Some(v(r#"{"key": "source.core.apiKey"}"#)));
}

#[test]
fn load_web_config_degrades_when_zotero_is_down() {
    let mut rpc = FakeRpc { responses: Vec::new(), calls: Vec::new() };
    let config = load_web_config(&mut rpc);
    assert!(config.mailto.is_none());
    assert!(config.core_api_key.is_none());
}

#[test]
fn load_web_config_treats_blank_values_as_unset() {
    let mut rpc = FakeRpc {
        responses: vec![
            Ok(j(r#"{"source.mailto": "  "}"#)),
            Ok(j(r#"{"source.core.apiKey": ""}"#)),
        ],
        calls: Vec::new(),
    };
    let config = load_web_config(&mut rpc);
    assert!(config.mailto.is_none());
    assert!(config.core_api_key.is_none());
}

use zotron::json::{Json, JsonNumber};
use zotron::rpc::{
    read_reply, request_payload, ProviderHttpInvocation, RpcError, StdProviderCommandRunner,
    Transport, UreqProviderHttpTransport, ZoteroRpc,
};

fn to_json(v: &serde_json::Value) -> Json {
    match v {
        serde_json::Value::Null => Json::Null,
        serde_json::Value::Bool(b) => Json::Bool(*b),
        serde_json::Value::Number(n) => match (n.as_u64(), n.as_i64()) {
            (Some(u), _) => Json::Number(JsonNumber::PosInt(u)),
            (None, Some(i)) => Json::Number(JsonNumber::NegInt(i)),
            _ => Json::Number(JsonNumber::Float(n.to_string())),
        },
        serde_json::Value::String(s) => Json::Str(s.clone()),
        serde_json::Value::Array(a) => Json::Array(a.iter().map(to_json).collect()),
        serde_json::Value::Object(m) => {
            Json::Object(m.iter().map(|(k, x)| (k.clone(), to_json(x))).collect())
        }
    }
}

fn j(text: &str) -> Json {
    to_json(&serde_json::from_str::<serde_json::Value>(text).expect("valid JSON"))
}

fn to_value(j: &Json) -> serde_json::Value {
    match j {
        Json::Null => serde_json::Value::Null,
        Json::Bool(b) => serde_json::Value::Bool(*b),
        Json::Number(JsonNumber::PosInt(n)) => serde_json::Value::from(*n),
        Json::Number(JsonNumber::NegInt(n)) => serde_json::Value::from(*n),
        Json::Number(JsonNumber::Float(t)) => serde_json::from_str(t).expect("number"),
        Json::Str(s) => serde_json::Value::String(s.clone()),
        Json::Array(a) => serde_json::Value::Array(a.iter().map(to_value).collect()),
        Json::Object(m) => serde_json::Value::Object(
            m.iter().map(|(k, x)| (k.clone(), to_value(x))).collect(),
        ),
    }
}

fn v(text: &str) -> serde_json::Value {
    serde_json::from_str(text).expect("valid JSON")
}

#[derive(Default)]
struct MockTransport {
    seen: Vec<Json>,
    replies: Vec<Result<Json, RpcError>>,
}

impl Transport for MockTransport {
    fn post_json(&mut self, _url: &str, payload: &Json) -> Result<Json, RpcError> {
        self.seen.push(payload.clone());
        self.replies.remove(0)
    }
}

#[test]
fn call_posts_python_compatible_json_rpc_payload() {
    let transport = MockTransport {
        replies: vec![Ok(j(r#"{"jsonrpc":"2.0","result":{"status":"ok"},"id":1}"#))],
        ..Default::default()
    };
    let mut rpc = ZoteroRpc::with_transport("http://127.0.0.1:23119/zotron/rpc", transport);

    let result = rpc.call("system.ping", None).expect("rpc succeeds");

    assert_eq!(to_value(&result), v(r#"{"status":"ok"}"#));
    assert_eq!(
        to_value(&rpc.transport().seen[0]),
        v(r#"{
            "jsonrpc": "2.0",
            "method": "system.ping",
            "params": {},
            "id": 1
        }"#)
    );
}

#[test]
fn json_rpc_error_matches_python_error_text() {
    let transport = MockTransport {
        replies: vec![Ok(j(r#"{
            "jsonrpc":"2.0",
            "error":{"code":-32601,"message":"Method not found"},
            "id":1
        }"#))],
        ..Default::default()
    };
    let mut rpc = ZoteroRpc::with_transport("http://test/zotron/rpc", transport);

    let err = rpc.call("missing.method", None).unwrap_err();

    assert_eq!(err.to_string(), "[-32601] Method not found");
}

#[test]
fn provider_http_transport_requires_credential_when_auth_header_is_declared() {
    let mut transport = UreqProviderHttpTransport::new();

    let err = transport
        .post_json(&ProviderHttpInvocation {
            provider: "volcengine".to_string(),
            style: "openai-compatible".to_string(),
            method: "POST".to_string(),
            url: Some("http://127.0.0.1:1/embeddings".to_string()),
            auth_header_name: Some("Authorization".to_string()),
            auth_header_value: None,
            body: j(r#"{"input":["hello"]}"#),
        })
        .expect_err("missing credential is rejected before network IO");

    assert!(err.contains("requires Authorization"));
}

#[test]
fn rpc_ids_count_up_and_params_are_sent_as_given() {
    let transport = MockTransport {
        replies: vec![Ok(j(r#"{"result": null}"#)), Ok(j(r#"{"result": [1]}"#))],
        ..Default::default()
    };
    let mut rpc = ZoteroRpc::with_transport("http://x", transport);
    let first = rpc.call("a", None).expect("ok");
    assert_eq!(to_value(&first), v("{}"));
    let second = rpc.call("b", Some(j(r#"{"key": "k"}"#))).expect("ok");
    assert_eq!(to_value(&second), v("[1]"));
    let seen = &rpc.transport().seen;
    assert_eq!(
        to_value(&seen[1]),
        v(r#"{"jsonrpc":"2.0","method":"b","params":{"key":"k"},"id":2}"#)
    );
}

#[test]
fn rpc_transport_errors_pass_through_and_bad_replies_are_protocol_errors() {
    let transport = MockTransport {
        replies: vec![Err(RpcError::Connection("Cannot connect to Zotero: x".to_string()))],
        ..Default::default()
    };
    let mut rpc = ZoteroRpc::with_transport("http://x", transport);
    match rpc.call("a", None) {
        Err(RpcError::Connection(m)) => assert_eq!(m, "Cannot connect to Zotero: x"),
        _ => panic!("the transport's error is returned"),
    }
    assert!(matches!(read_reply(j("[]")), Err(RpcError::Protocol(_))));
    assert!(matches!(
        read_reply(j(r#"{"error": {"code": "x", "message": "m"}}"#)),
        Err(RpcError::Protocol(_))
    ));
    let p = request_payload(7, "m", None);
    assert_eq!(to_value(&p), v(r#"{"jsonrpc":"2.0","method":"m","params":{},"id":7}"#));
}

#[test]
fn provider_transport_credentials_and_plan() {
    let t = UreqProviderHttpTransport::with_bearer_token("tok");
    assert_eq!(t.api_key(), Some("Bearer tok"));
    assert_eq!(UreqProviderHttpTransport::with_api_key("k".to_string()).api_key(), Some("k"));
    assert_eq!(UreqProviderHttpTransport::new().api_key(), None);
    let inv = ProviderHttpInvocation {
        provider: "p".to_string(),
        style: "s".to_string(),
        method: "post".to_string(),
        url: Some("http://u".to_string()),
        auth_header_name: Some("X-Key".to_string()),
        auth_header_value: None,
        body: j("{}"),
    };
    let plan = t.plan(&inv).expect("injected key is used");
    assert_eq!(plan, ("http://u".to_string(), Some(("X-Key".to_string(), "Bearer tok".to_string()))));
    let get = ProviderHttpInvocation { method: "GET".to_string(), ..inv };
    assert_eq!(
        t.plan(&get).unwrap_err(),
        "provider p uses unsupported HTTP method GET"
    );
    let no_url = ProviderHttpInvocation { url: None, method: "POST".to_string(), ..get };
    assert_eq!(t.plan(&no_url).unwrap_err(), "provider p missing request URL");
}

#[test]
fn command_runner_messages() {
    assert_eq!(
        StdProviderCommandRunner::program(&vec![]).unwrap_err(),
        "provider command is empty"
    );
    assert_eq!(
        StdProviderCommandRunner::program(&vec!["sh".to_string(), "-c".to_string()]).unwrap(),
        "sh"
    );
    assert_eq!(
        StdProviderCommandRunner::exit_failure("sh", "exit status: 7", " failure \n"),
        "provider command sh exited with exit status: 7: failure"
    );
    assert_eq!(
        StdProviderCommandRunner::exit_failure("sh", "exit status: 7", "  "),
        "provider command sh exited with exit status: 7"
    );
}

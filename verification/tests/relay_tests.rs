use foundryvtt_streamdeck::config::Config;
use foundryvtt_streamdeck::json::{object, Json};
use foundryvtt_streamdeck::relay::{
    actors_from_reply, auth_message, auth_reply, auth_reply_of_text, backoff_secs, frame_of_text, call_params, call_result,
    classify_frame, next_attempt, reply_outcome, request_id, request_message, search_params,
    subscribe_message, text_lt, ActorRef, AuthReply, Frame, RelayError, MAX_ATTEMPT,
};

fn s(v: &str) -> Json {
    Json::Str(v.to_string())
}

fn obj(members: Vec<(&str, Json)>) -> Json {
    object(members.into_iter().map(|(k, v)| (k.to_string(), v)).collect())
}

fn actor(uuid: &str, name: &str) -> ActorRef {
    ActorRef { uuid: uuid.to_string(), name: name.to_string() }
}

#[test]
fn relay_error_messages() {
    assert_eq!(RelayError::Disconnected.message(), "relay disconnected");
    assert_eq!(RelayError::Timeout.message(), "relay request timed out");
    assert_eq!(RelayError::Remote("no such world".to_string()).message(), "no such world");
}

#[test]
fn actor_rows() {
    assert_eq!(ActorRef::from_json(&obj(vec![("uuid", s("Actor.1")), ("name", s("Ann")), ("img", s("x"))])), Some(actor("Actor.1", "Ann")));
    assert_eq!(ActorRef::from_json(&Json::Array(vec![s("Actor.2"), s("Bo")])), Some(actor("Actor.2", "Bo")));
    assert_eq!(ActorRef::from_json(&Json::Array(vec![s("Actor.2"), s("Bo"), s("x")])), None);
    assert_eq!(ActorRef::from_json(&obj(vec![("uuid", s("Actor.1"))])), None);
    assert_eq!(ActorRef::from_json(&obj(vec![("uuid", Json::UInt(1)), ("name", s("Ann"))])), None);
    assert_eq!(ActorRef::from_json(&s("Actor.1")), None);
}

#[test]
fn actors_sorted_by_lowercase_name_stably() {
    let reply = obj(vec![(
        "results",
        Json::Array(vec![
            obj(vec![("uuid", s("1")), ("name", s("bob"))]),
            obj(vec![("uuid", s("2")), ("name", s("Alice"))]),
            Json::UInt(7),
            obj(vec![("uuid", s("3")), ("name", s("alice"))]),
            obj(vec![("uuid", s("4")), ("name", s("Émile"))]),
            obj(vec![("uuid", s("5")), ("name", s("Zed"))]),
        ]),
    )]);
    let sorted = actors_from_reply(&reply);
    assert_eq!(sorted, vec![actor("2", "Alice"), actor("3", "alice"), actor("1", "bob"), actor("5", "Zed"), actor("4", "Émile")]);
    let mut expected = vec![actor("1", "bob"), actor("2", "Alice"), actor("3", "alice"), actor("4", "Émile"), actor("5", "Zed")];
    expected.sort_by_key(|a| a.name.to_lowercase());
    assert_eq!(sorted, expected);
    assert_eq!(actors_from_reply(&obj(vec![])), vec![]);
}

#[test]
fn text_order_is_byte_order() {
    assert!(text_lt("a", "b"));
    assert!(text_lt("a", "ab"));
    assert!(!text_lt("ab", "a"));
    assert!(!text_lt("a", "a"));
    assert!(text_lt("z", "é"));
}

#[test]
fn authentication_frames() {
    let mut config = Config::new();
    config.api_key = " key ".to_string();
    assert_eq!(auth_message(&config), obj(vec![("type", s("auth")), ("token", s("key"))]));
    config.client_id = " cid ".to_string();
    assert_eq!(auth_message(&config), obj(vec![("type", s("auth")), ("token", s("key")), ("clientId", s("cid"))]));
}

#[test]
fn authentication_replies() {
    let connected = obj(vec![
        ("type", s("connected")),
        ("clientId", s("fvtt_1")),
        ("supportedTypes", Json::Array(vec![s("search"), s("execute-js")])),
        ("eventChannels", Json::Array(vec![s("hooks")])),
    ]);
    assert_eq!(
        auth_reply(&connected, "execute-js"),
        AuthReply::Connected { client_id: Some("fvtt_1".to_string()), lacks_search: false, lacks_request_type: false, lacks_hooks: false }
    );
    assert_eq!(
        auth_reply(&connected, "other"),
        AuthReply::Connected { client_id: Some("fvtt_1".to_string()), lacks_search: false, lacks_request_type: true, lacks_hooks: false }
    );
    assert_eq!(
        auth_reply(&obj(vec![("type", s("connected"))]), "x"),
        AuthReply::Connected { client_id: None, lacks_search: false, lacks_request_type: false, lacks_hooks: true }
    );
    assert_eq!(auth_reply(&obj(vec![("type", s("error")), ("error", s("bad key"))]), "x"), AuthReply::Rejected("bad key".to_string()));
    assert_eq!(auth_reply(&obj(vec![("type", s("error"))]), "x"), AuthReply::Rejected("unknown".to_string()));
    assert_eq!(auth_reply(&obj(vec![("type", s("ping"))]), "x"), AuthReply::Pending);
    assert_eq!(auth_reply(&Json::Null, "x"), AuthReply::Pending);
}

#[test]
fn subscribe_and_request_frames() {
    assert_eq!(subscribe_message("sd-1-0"), obj(vec![("type", s("subscribe")), ("channel", s("hooks")), ("requestId", s("sd-1-0"))]));
    assert_eq!(request_id(255, 12), "sd-ff-12");
    assert_eq!(request_id(0x1a2b, 0), "sd-1a2b-0");
    assert_eq!(
        request_message("search", obj(vec![("query", s("")), ("type", s("old"))]), "sd-1-2"),
        obj(vec![("query", s("")), ("type", s("search")), ("requestId", s("sd-1-2"))])
    );
    assert_eq!(request_message("x", Json::Null, "id"), obj(vec![("type", s("x")), ("requestId", s("id"))]));
}

#[test]
fn reply_outcomes() {
    assert_eq!(reply_outcome(obj(vec![("error", s("nope"))])), Err(RelayError::Remote("nope".to_string())));
    let ok = obj(vec![("result", Json::UInt(1))]);
    assert_eq!(reply_outcome(ok.duplicate()), Ok(ok));
    assert_eq!(reply_outcome(obj(vec![("error", Json::UInt(5))])), Ok(obj(vec![("error", Json::UInt(5))])));
}

#[test]
fn calls_and_search() {
    assert_eq!(call_params("executeJs", obj(vec![("script", s("1"))])), obj(vec![("action", s("executeJs")), ("args", obj(vec![("script", s("1"))]))]));
    assert_eq!(call_result(&obj(vec![("result", s("done"))])), s("done"));
    assert_eq!(call_result(&obj(vec![])), Json::Null);
    assert_eq!(
        search_params(),
        obj(vec![
            ("query", s("")),
            ("filter", s("documentType:Actor")),
            ("excludeCompendiums", Json::Bool(true)),
            ("minified", Json::Bool(true)),
            ("limit", Json::UInt(500)),
        ])
    );
}

fn hook(payload: Option<Json>) -> Json {
    let args = match payload {
        Some(p) => Json::Array(vec![p]),
        None => Json::Array(vec![]),
    };
    obj(vec![
        ("type", s("hook-event")),
        ("hook", s("foundryvtt-streamdeck.event")),
        ("data", obj(vec![("data", obj(vec![("args", args)]))])),
    ])
}

#[test]
fn frames_during_a_session() {
    let payload = obj(vec![("event", s("sheet"))]);
    assert_eq!(classify_frame(&hook(Some(payload.duplicate()))), Frame::Event(payload));
    assert_eq!(classify_frame(&hook(None)), Frame::EventWithoutPayload);
    assert_eq!(classify_frame(&obj(vec![("type", s("hook-event")), ("hook", s("other")), ("requestId", s("r"))])), Frame::Ignored);
    assert_eq!(classify_frame(&obj(vec![("type", s("subscribed")), ("channel", s("hooks"))])), Frame::Subscribed("hooks".to_string()));
    assert_eq!(classify_frame(&obj(vec![("type", s("subscribed"))])), Frame::Subscribed("?".to_string()));
    assert_eq!(classify_frame(&obj(vec![("type", s("search-result")), ("requestId", s("sd-1-3"))])), Frame::Reply("sd-1-3".to_string()));
    assert_eq!(classify_frame(&obj(vec![("type", s("error")), ("requestId", s("sd-1-4"))])), Frame::Reply("sd-1-4".to_string()));
    assert_eq!(classify_frame(&obj(vec![("type", s("error")), ("error", s("boom"))])), Frame::RelayError("boom".to_string()));
    assert_eq!(classify_frame(&obj(vec![("type", s("error"))])), Frame::RelayError("unknown".to_string()));
    assert_eq!(classify_frame(&obj(vec![("type", s("pong"))])), Frame::Ignored);
}

#[test]
fn backoff_schedule() {
    let delays: Vec<u64> = (0..=MAX_ATTEMPT).map(backoff_secs).collect();
    assert_eq!(delays, vec![1, 2, 4, 8, 15, 30]);
    let mut attempt = 0;
    for expected in [1, 2, 3, 4, 5, 5, 5] {
        attempt = next_attempt(attempt, false);
        assert_eq!(attempt, expected);
    }
    assert_eq!(next_attempt(attempt, true), 0);
    assert_eq!(next_attempt(usize::MAX, false), 5);
}

#[test]
fn frames_read_from_text() {
    assert_eq!(frame_of_text("not json"), None);
    assert_eq!(frame_of_text("{\"type\": "), None);
    let text = r#"{"type":"hook-event","hook":"foundryvtt-streamdeck.event","data":{"data":{"args":[{"event":"sheet","uuid":"Actor.1","open":true,"n":-3,"x":1.5}]}}}"#;
    // serde_json keeps object members ordered by key
    let payload = obj(vec![
        ("event", s("sheet")),
        ("n", Json::Int(-3)),
        ("open", Json::Bool(true)),
        ("uuid", s("Actor.1")),
        ("x", Json::Float("1.5".to_string())),
    ]);
    let (frame, kind) = frame_of_text(text).expect("json");
    assert_eq!(kind, Frame::Event(payload.duplicate()));
    assert_eq!(classify_frame(&frame), Frame::Event(payload));
    assert_eq!(
        frame_of_text(r#"{"requestId":"sd-1-2","result":[1,null]}"#).map(|p| p.1),
        Some(Frame::Reply("sd-1-2".to_string()))
    );
    assert_eq!(frame_of_text(r#"{"type":"error","error":"bad key"}"#).map(|p| p.1), Some(Frame::RelayError("bad key".to_string())));
}

#[test]
fn auth_replies_read_from_text() {
    assert_eq!(auth_reply_of_text("<html>", "streamdeck"), None);
    assert_eq!(
        auth_reply_of_text(r#"{"type":"error","error":"invalid token"}"#, "streamdeck"),
        Some(AuthReply::Rejected("invalid token".to_string()))
    );
    assert_eq!(
        auth_reply_of_text(r#"{"type":"connected","clientId":"c1","supportedTypes":["search","streamdeck"],"eventChannels":["hooks"]}"#, "streamdeck"),
        Some(AuthReply::Connected { client_id: Some("c1".to_string()), lacks_search: false, lacks_request_type: false, lacks_hooks: false })
    );
}

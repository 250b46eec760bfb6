use foundryvtt_streamdeck::config::{
    apply_env_fallback, parse_u64, redact, strip_prefix, trim_end_slashes, urlencode, Config,
    EnvFallback, Indicator, DEFAULT_BORDER_COLOR, DEFAULT_POLL_MS, OFFLINE_COLOR,
};

fn config(relay_url: &str, api_key: &str, client_id: &str) -> Config {
    let mut c = Config::new();
    c.relay_url = relay_url.to_string();
    c.api_key = api_key.to_string();
    c.client_id = client_id.to_string();
    c
}

#[test]
fn default_settings() {
    let c = Config::new();
    assert_eq!(c.relay_url, "");
    assert_eq!(c.api_key, "");
    assert_eq!(c.client_id, "");
    assert_eq!(c.poll_ms, 5000);
    assert_eq!(DEFAULT_POLL_MS, 5000);
    assert_eq!(c.indicator, Indicator::Border);
    assert_eq!(c.border_color, "#ff6400");
    assert_eq!(DEFAULT_BORDER_COLOR, "#ff6400");
    assert_eq!(OFFLINE_COLOR, "#6b6b6b");
}

#[test]
fn complete_needs_url_and_key_but_not_client_id() {
    assert!(config("https://relay.example", "key", "").is_complete());
    assert!(!config("  ", "key", "client").is_complete());
    assert!(!config("https://relay.example", " \t", "client").is_complete());
    assert!(!Config::new().is_complete());
}

#[test]
fn connection_and_appearance_differences() {
    let a = config("u", "k", "c");
    let mut b = config("u", "k", "c");
    assert!(!a.connection_differs(&b));
    assert!(!a.appearance_differs(&b));
    b.client_id = "d".to_string();
    assert!(a.connection_differs(&b));
    assert!(!a.appearance_differs(&b));
    let mut c = config("u", "k", "c");
    c.indicator = Indicator::Svg;
    assert!(!a.connection_differs(&c));
    assert!(a.appearance_differs(&c));
    let mut d = config("u", "k", "c");
    d.border_color = "#000000".to_string();
    assert!(a.appearance_differs(&d));
    let mut e = config("u", "k", "c");
    e.poll_ms = 1;
    assert!(!a.connection_differs(&e) && !a.appearance_differs(&e));
}

#[test]
fn socket_url_turns_http_into_websocket() {
    assert_eq!(config("https://relay.example.com/", "k", "").socket_url(), "wss://relay.example.com/ws/api");
    assert_eq!(config(" http://localhost:3010// ", "k", "").socket_url(), "ws://localhost:3010/ws/api");
    assert_eq!(config("wss://relay.example.com", "k", "").socket_url(), "wss://relay.example.com/ws/api");
    assert_eq!(config("relay.example.com", "k", "").socket_url(), "relay.example.com/ws/api");
}

#[test]
fn socket_url_carries_encoded_client_id() {
    assert_eq!(
        config("https://r.example", "k", " my client ").socket_url(),
        "wss://r.example/ws/api?clientId=my%20client"
    );
    assert_eq!(
        config("https://r.example", "k", "a/b?é~").socket_url(),
        "wss://r.example/ws/api?clientId=a%2Fb%3F%C3%A9~"
    );
}

#[test]
fn urlencode_keeps_unreserved_bytes() {
    assert_eq!(urlencode("AZaz09-_.~"), "AZaz09-_.~");
    assert_eq!(urlencode(" +&="), "%20%2B%26%3D");
    assert_eq!(urlencode("ß"), "%C3%9F");
    assert_eq!(urlencode(""), "");
}

#[test]
fn redact_shows_only_the_last_four_bytes() {
    assert_eq!(redact(""), "<unset>");
    assert_eq!(redact("abcd"), "<redacted>");
    assert_eq!(redact("ééé"), "<redacted>");
    assert_eq!(redact("abcdefgh"), "<redacted:efgh>");
    assert_eq!(redact("abcdé"), "<redacted:cdé>");
}

#[test]
fn parse_u64_matches_std() {
    for s in ["0", "42", "+7", "", "+", "-1", "18446744073709551615", "18446744073709551616", "1a", " 1", "00012", "++1", "99999999999999999999999"] {
        assert_eq!(parse_u64(s), s.parse::<u64>().ok(), "input {s:?}");
    }
}

#[test]
fn trim_end_slashes_and_strip_prefix() {
    assert_eq!(trim_end_slashes("a//"), "a");
    assert_eq!(trim_end_slashes("///"), "");
    assert_eq!(trim_end_slashes("a/b"), "a/b");
    assert_eq!(strip_prefix("https://x", "https://"), Some("x"));
    assert_eq!(strip_prefix("http", "https://"), None);
}

#[test]
fn env_fills_only_blank_settings() {
    let env = EnvFallback {
        relay_url: Some("https://env.example".to_string()),
        relay_key: Some("env-key".to_string()),
        client_id: Some("   ".to_string()),
        poll_ms: Some(" 750 ".to_string()),
    };
    let merged = apply_env_fallback(config(" ", "own-key", ""), &env);
    assert_eq!(merged.relay_url, "https://env.example");
    assert_eq!(merged.api_key, "own-key");
    assert_eq!(merged.client_id, "");
    assert_eq!(merged.poll_ms, 750);

    let bad_poll = EnvFallback { relay_url: None, relay_key: None, client_id: Some("env-client".to_string()), poll_ms: Some("soon".to_string()) };
    let merged = apply_env_fallback(config("u", "k", ""), &bad_poll);
    assert_eq!(merged.client_id, "env-client");
    assert_eq!(merged.poll_ms, 5000);
    assert_eq!(merged.border_color, "#ff6400");
}

#[test]
fn indicator_names() {
    assert_eq!(Indicator::Border.as_str(), "border");
    assert_eq!(Indicator::Svg.as_str(), "svg");
    assert_eq!(Indicator::Title.as_str(), "title");
}

fn percent_decode(s: &str) -> Vec<u8> {
    let b = s.as_bytes();
    let mut out = Vec::new();
    let mut i = 0;
    while i < b.len() {
        if b[i] == b'%' && i + 2 < b.len() {
            out.push(u8::from_str_radix(&s[i + 1..i + 3], 16).unwrap());
            i += 3;
        } else {
            out.push(b[i]);
            i += 1;
        }
    }
    out
}

#[test]
fn urlencode_decodes_back() {
    for raw in ["client id/ß?&=%", "", "AZaz09-_.~", "日本%25"] {
        assert_eq!(percent_decode(&urlencode(raw)), raw.as_bytes());
    }
}

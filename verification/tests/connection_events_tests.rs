use foundryvtt_streamdeck::condition::Selection;
use foundryvtt_streamdeck::config::{Config, Indicator};
use foundryvtt_streamdeck::connection::{apply_set_connection, connection_message, plugin_event, status_message, PluginEvent};
use foundryvtt_streamdeck::events::{companion_event, settings_update, sync_outcome, sync_report, sync_selection, CompanionEvent, SyncReport};
use foundryvtt_streamdeck::initiative::{apply_combat_event, CombatInfo, Combatant};
use foundryvtt_streamdeck::json::{object, Json};

fn s(v: &str) -> Json {
    Json::Str(v.to_string())
}

fn obj(members: Vec<(&str, Json)>) -> Json {
    object(members.into_iter().map(|(k, v)| (k.to_string(), v)).collect())
}

#[test]
fn plugin_events() {
    assert_eq!(plugin_event(&obj(vec![("event", s("getConditions"))])), PluginEvent::GetConditions);
    assert_eq!(plugin_event(&obj(vec![("event", s("getActors"))])), PluginEvent::GetActors);
    assert_eq!(plugin_event(&obj(vec![("event", s("refreshArt"))])), PluginEvent::RefreshArt);
    assert_eq!(plugin_event(&obj(vec![("event", s("getConnection"))])), PluginEvent::GetConnection);
    assert_eq!(plugin_event(&obj(vec![("event", s("setConnection"))])), PluginEvent::SetConnection);
    assert_eq!(plugin_event(&obj(vec![("event", s("dance"))])), PluginEvent::Unknown(Some("dance".to_string())));
    assert_eq!(plugin_event(&obj(vec![])), PluginEvent::Unknown(None));
}

#[test]
fn connection_state_message() {
    let mut config = Config::new();
    config.relay_url = "https://r".to_string();
    config.api_key = "secret".to_string();
    config.client_id = "cid".to_string();
    let msg = connection_message(&config, Some("fvtt_1"), true, None);
    assert_eq!(
        msg,
        obj(vec![
            ("event", s("connection")),
            ("relayUrl", s("https://r")),
            ("clientId", s("cid")),
            ("resolvedClientId", s("fvtt_1")),
            ("hasApiKey", Json::Bool(true)),
            ("indicator", s("border")),
            ("borderColor", s("#ff6400")),
            ("connected", Json::Bool(true)),
            ("companion", Json::Null),
        ])
    );
    config.api_key = "  ".to_string();
    assert_eq!(connection_message(&config, None, false, Some("1.2.0")).get("hasApiKey"), Some(&Json::Bool(false)));
}

#[test]
fn set_connection_updates_the_sent_members() {
    let mut current = Config::new();
    current.api_key = "old-key".to_string();
    let payload = obj(vec![
        ("event", s("setConnection")),
        ("relayUrl", s(" https://relay ")),
        ("clientId", s(" c1 ")),
        ("apiKey", s("")),
        ("indicator", s("svg")),
        ("borderColor", s(" #123456 ")),
    ]);
    let next = apply_set_connection(&current, &payload);
    assert_eq!(next.relay_url, "https://relay");
    assert_eq!(next.client_id, "c1");
    assert_eq!(next.api_key, "old-key");
    assert_eq!(next.indicator, Indicator::Svg);
    assert_eq!(next.border_color, "#123456");
    assert_eq!(next.poll_ms, 5000);
    let keyed = apply_set_connection(&next, &obj(vec![("apiKey", s(" new ")), ("indicator", s("nonsense"))]));
    assert_eq!(keyed.api_key, " new ");
    assert_eq!(keyed.indicator, Indicator::Border);
    assert_eq!(keyed.relay_url, "https://relay");
    let titled = apply_set_connection(&next, &obj(vec![("indicator", s("title"))]));
    assert_eq!(titled.indicator, Indicator::Title);
    let untouched = apply_set_connection(&next, &obj(vec![]));
    assert!(!untouched.connection_differs(&next) && !untouched.appearance_differs(&next));
}

#[test]
fn status_messages() {
    assert_eq!(status_message("a", "ok", "k", Json::UInt(1)), obj(vec![("event", s("a")), ("status", s("ok")), ("k", Json::UInt(1))]));
}

#[test]
fn companion_events() {
    assert_eq!(companion_event(&obj(vec![("event", s("sheet"))])), CompanionEvent::Sheets);
    assert_eq!(companion_event(&obj(vec![("event", s("snapshot"))])), CompanionEvent::Sheets);
    assert_eq!(companion_event(&obj(vec![("event", s("selection"))])), CompanionEvent::Selection);
    assert_eq!(companion_event(&obj(vec![("event", s("combat"))])), CompanionEvent::Combat);
    assert_eq!(companion_event(&obj(vec![("event", s("round"))])), CompanionEvent::Other(Some("round".to_string())));
    assert_eq!(companion_event(&Json::Null), CompanionEvent::Other(None));
}

#[test]
fn sync_reports() {
    let reply = obj(vec![
        ("module", s("1.4.0")),
        ("notify", Json::Bool(true)),
        ("open", Json::Array(vec![s("A")])),
        ("selection", obj(vec![("count", Json::UInt(0)), ("statuses", obj(vec![]))])),
    ]);
    assert_eq!(
        sync_report(&reply),
        SyncReport {
            notify_enabled: true,
            companion: Some("1.4.0".to_string()),
            open: Some(Json::Array(vec![s("A")])),
            selection: Some(obj(vec![("count", Json::UInt(0)), ("statuses", obj(vec![]))])),
        }
    );
    let missing = obj(vec![("module", Json::Null), ("notify", Json::Null), ("open", Json::Null), ("selection", Json::Null)]);
    assert_eq!(sync_report(&missing), SyncReport { notify_enabled: false, companion: None, open: None, selection: None });
}

#[test]
fn sync_selection_takes_or_clears() {
    let mut sel = Selection::new();
    let reported = obj(vec![("count", Json::UInt(2)), ("statuses", obj(vec![("prone", Json::UInt(1))]))]);
    assert!(sync_selection(&mut sel, Some(&reported)));
    assert!(!sync_selection(&mut sel, Some(&reported)));
    assert!(sync_selection(&mut sel, None));
    assert!(!sync_selection(&mut sel, None));
}

#[test]
fn settings_updates() {
    let a = Config::new();
    let mut b = Config::new();
    assert_eq!(settings_update(&a, &b), (false, false));
    b.relay_url = "x".to_string();
    b.border_color = "y".to_string();
    assert_eq!(settings_update(&a, &b), (true, true));
}

#[test]
fn combat_events() {
    let event = obj(vec![
        ("event", s("combat")),
        ("combat", obj(vec![("round", Json::UInt(2)), ("started", Json::Bool(true)), ("combatant", obj(vec![("name", s("Orc")), ("actorUuid", s("Actor.9"))]))])),
    ]);
    assert_eq!(companion_event(&event), CompanionEvent::Combat);
    let mut combat: Option<CombatInfo> = None;
    assert!(apply_combat_event(&mut combat, &event));
    assert_eq!(
        combat,
        Some(CombatInfo { round: 2, started: true, combatant: Some(Combatant { name: "Orc".to_string(), actor_uuid: Some("Actor.9".to_string()) }) })
    );
    assert!(!apply_combat_event(&mut combat, &event));
    assert!(apply_combat_event(&mut combat, &obj(vec![("event", s("combat")), ("combat", Json::Null)])));
    assert_eq!(combat, None);
}

#[test]
fn failed_sync_clears_companion_and_selection() {
    let report = sync_outcome(None);
    assert_eq!(report, SyncReport { notify_enabled: false, companion: None, open: None, selection: None });
    let mut selection = Selection::new();
    assert!(selection.apply_value(&obj(vec![("count", Json::UInt(2)), ("statuses", obj(vec![]))])));
    assert!(sync_selection(&mut selection, report.selection.as_ref()));
    assert_eq!(selection.count, 0);
    let reply = obj(vec![("module", s("1.2.0")), ("notify", Json::Bool(true))]);
    assert_eq!(sync_outcome(Some(&reply)), sync_report(&reply));
}

use base64::Engine;
use foundryvtt_streamdeck::condition::{ArtFetch, Face};
use foundryvtt_streamdeck::config::Indicator;
use foundryvtt_streamdeck::foundry::{toggle_script, ArtSource};
use foundryvtt_streamdeck::image::{wrap_svg, ArtEntry};
use foundryvtt_streamdeck::json::{object, Json};
use foundryvtt_streamdeck::relay::{ActorRef, RelayError};
use foundryvtt_streamdeck::sheet::{
    actors_reply, register_sheet, sheet_art_from_reply, sheet_face, sheet_press, styled_face,
    toggle_outcome, OpenSheets, SheetSettings,
};
use foundryvtt_streamdeck::textmap::TextMap;

fn s(v: &str) -> Json {
    Json::Str(v.to_string())
}

fn obj(members: Vec<(&str, Json)>) -> Json {
    object(members.into_iter().map(|(k, v)| (k.to_string(), v)).collect())
}

fn entry() -> ArtEntry {
    ArtEntry { closed: "c".to_string(), open: "o".to_string(), offline: "x".to_string(), name: "Hero".to_string() }
}

fn settings(uuid: &str, name: &str, show_title: bool) -> SheetSettings {
    SheetSettings { actor_uuid: uuid.to_string(), actor_name: name.to_string(), art_source: ArtSource::Token, show_title }
}

#[test]
fn sheet_default_settings() {
    assert_eq!(SheetSettings::new(), settings("", "", true));
    let k = settings("Actor.1", "", true).art_key("#abc");
    assert_eq!((k.uuid.as_str(), k.source, k.open_color.as_str()), ("Actor.1", ArtSource::Token, "#abc"));
}

#[test]
fn snapshot_reports_changes_of_the_open_set() {
    let mut open = OpenSheets::new();
    let snap = vec![s("A"), s("B"), Json::UInt(3)];
    assert!(open.apply_snapshot(&snap));
    assert!(open.is_open("A") && open.is_open("B"));
    assert!(!open.is_open("C"));
    assert!(!open.apply_snapshot(&snap), "the same snapshot twice changes nothing");
    assert!(open.set_open("A", false));
    assert!(!open.set_open("A", false));
    assert!(open.apply_snapshot(&snap), "A was closed and the snapshot opens it");
    assert!(open.apply_snapshot(&vec![s("A")]));
    assert!(!open.is_open("B"));
}

#[test]
fn a_closed_record_missing_from_the_snapshot_is_no_change() {
    let mut open = OpenSheets::new();
    assert!(open.set_open("Z", false));
    assert!(!open.apply_snapshot(&vec![]));
    assert!(!open.is_open("Z"));
}

#[test]
fn sheet_and_snapshot_events() {
    let mut open = OpenSheets::new();
    let ev = obj(vec![("event", s("sheet")), ("uuid", s("A")), ("open", Json::Bool(true))]);
    assert!(open.apply_payload(&ev));
    assert!(!open.apply_payload(&ev));
    assert!(open.is_open("A"));
    assert!(!open.apply_payload(&obj(vec![("event", s("sheet")), ("uuid", s("A"))])));
    assert!(!open.apply_payload(&obj(vec![("event", s("snapshot"))])));
    assert!(!open.apply_payload(&obj(vec![("event", s("selection"))])));
    assert!(open.apply_payload(&obj(vec![("event", s("snapshot")), ("open", Json::Array(vec![]))])));
    assert!(!open.is_open("A"));
}

#[test]
fn faces_by_indicator() {
    let e = entry();
    let st = settings("Actor.1", "Fallback", true);
    assert_eq!(sheet_face(&st, Some(&e), true, true, Indicator::Border, "#f00"), Face { image: Some("o".to_string()), title: Some("Hero".to_string()) });
    assert_eq!(sheet_face(&st, Some(&e), true, false, Indicator::Border, "#f00").image, Some("x".to_string()));
    assert_eq!(sheet_face(&st, Some(&e), true, true, Indicator::Svg, "#f00"), Face { image: Some(wrap_svg("c", Some("#f00"))), title: Some("Hero".to_string()) });
    assert_eq!(sheet_face(&st, Some(&e), false, true, Indicator::Svg, "#f00").image, Some(wrap_svg("c", None)));
    assert_eq!(sheet_face(&st, Some(&e), false, false, Indicator::Svg, "#f00").image, Some(wrap_svg("c", Some("#6b6b6b"))));
    assert_eq!(sheet_face(&st, Some(&e), true, true, Indicator::Title, "#f00"), Face { image: Some("c".to_string()), title: Some("● Hero".to_string()) });
    assert_eq!(sheet_face(&st, Some(&e), false, true, Indicator::Title, "#f00").title, Some("Hero".to_string()));
    let untitled = settings("Actor.1", "", false);
    assert_eq!(sheet_face(&untitled, Some(&e), true, true, Indicator::Title, "#f00").title, Some("●".to_string()));
    assert_eq!(sheet_face(&untitled, Some(&e), false, true, Indicator::Title, "#f00").title, None);
    let svg = sheet_face(&st, Some(&e), true, true, Indicator::Svg, "#f00").image.unwrap();
    let decoded = String::from_utf8(base64::engine::general_purpose::STANDARD.decode(svg.trim_start_matches("data:image/svg+xml;base64,")).unwrap()).unwrap();
    assert!(decoded.contains("stroke=\"#f00\""));
}

#[test]
fn faces_without_art() {
    assert_eq!(sheet_face(&settings(" ", "", true), None, false, true, Indicator::Border, "#f00"), Face { image: None, title: Some("Pick actor".to_string()) });
    assert_eq!(sheet_face(&settings("A", "Named", true), None, false, true, Indicator::Border, "#f00"), Face { image: None, title: Some("Named".to_string()) });
    assert_eq!(sheet_face(&settings("A", "", false), None, false, true, Indicator::Border, "#f00"), Face { image: None, title: Some("?".to_string()) });
    let mut nameless = entry();
    nameless.name = String::new();
    assert_eq!(sheet_face(&settings("A", "", true), Some(&nameless), false, true, Indicator::Border, "#f00").title, Some("?".to_string()));
}

#[test]
fn styled_face_keeps_title_for_border() {
    assert_eq!(styled_face(&entry(), false, true, Some("T".to_string()), Indicator::Border, "#f00"), Face { image: Some("c".to_string()), title: Some("T".to_string()) });
}

#[test]
fn sheet_art_replies() {
    let failed = sheet_art_from_reply(&obj(vec![("error", s("fetch 404")), ("src", s("a.png")), ("isOpen", Json::Bool(true))]));
    assert_eq!(failed.art, ArtFetch::Failed("fetch 404".to_string()));
    assert_eq!(failed.is_open, None);
    let empty = sheet_art_from_reply(&obj(vec![("isOpen", Json::Bool(false))]));
    assert_eq!(empty.art, ArtFetch::Empty);
    assert_eq!(empty.is_open, Some(false));
    let ready = sheet_art_from_reply(&obj(vec![("closed", s("c")), ("open", s("o")), ("offline", s("x")), ("name", s("Hero")), ("isOpen", Json::Bool(true))]));
    assert_eq!(ready.art, ArtFetch::Ready(entry()));
    assert_eq!(ready.is_open, Some(true));
}

#[test]
fn press_and_toggle_replies() {
    assert_eq!(sheet_press(&settings("  ", "", true)), None);
    assert_eq!(sheet_press(&settings("Actor.1", "", true)), Some(toggle_script("Actor.1")));
    assert_eq!(toggle_outcome(&obj(vec![("error", s("actor not found"))])), Err("actor not found".to_string()));
    assert_eq!(toggle_outcome(&obj(vec![("open", Json::Bool(true)), ("name", s("Hero"))])), Ok(true));
    assert_eq!(toggle_outcome(&obj(vec![])), Ok(false));
}

#[test]
fn actors_replies() {
    let actors = vec![ActorRef { uuid: "Actor.1".to_string(), name: "Ann".to_string() }];
    assert_eq!(
        actors_reply(&Ok(actors)),
        obj(vec![("event", s("actors")), ("status", s("ok")), ("actors", Json::Array(vec![obj(vec![("uuid", s("Actor.1")), ("name", s("Ann"))])]))])
    );
    assert_eq!(
        actors_reply(&Err(RelayError::Disconnected)),
        obj(vec![("event", s("actors")), ("status", s("error")), ("message", s("relay disconnected"))])
    );
}

#[test]
fn registering_sheet_settings_reports_changes() {
    let mut instances: TextMap<SheetSettings> = TextMap::new();
    assert!(register_sheet(&mut instances, "ctx", &settings("A", "", true)));
    assert!(!register_sheet(&mut instances, "ctx", &settings("A", "", true)));
    assert!(register_sheet(&mut instances, "ctx", &settings("B", "", true)));
}

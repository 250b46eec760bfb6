use foundryvtt_streamdeck::condition::{
    call_outcome, condition_art_received, condition_art_request, ArtFetch, ConditionSettings,
};
use foundryvtt_streamdeck::config::OFFLINE_COLOR;
use foundryvtt_streamdeck::foundry::{art_script, condition_art_script, ArtSource};
use foundryvtt_streamdeck::image::{ArtEntry, ArtKey, ConditionArt, ConditionKey, KeySet, TtlCache};
use foundryvtt_streamdeck::json::{object, Json};
use foundryvtt_streamdeck::sheet::{sheet_art_received, sheet_art_request, OpenSheets, SheetSettings};

fn s(v: &str) -> Json {
    Json::Str(v.to_string())
}

fn obj(members: Vec<(&str, Json)>) -> Json {
    object(members.into_iter().map(|(k, v)| (k.to_string(), v)).collect())
}

fn sheet(uuid: &str) -> SheetSettings {
    SheetSettings { actor_uuid: uuid.to_string(), actor_name: String::new(), art_source: ArtSource::Portrait, show_title: true }
}

fn art_key(uuid: &str) -> ArtKey {
    ArtKey { uuid: uuid.to_string(), source: ArtSource::Portrait, open_color: "#f00".to_string() }
}

#[test]
fn sheet_art_is_fetched_once_and_cached() {
    let mut art: TtlCache<ArtKey, ArtEntry> = TtlCache::new();
    let mut inflight: KeySet<ArtKey> = KeySet::new();
    let mut open = OpenSheets::new();
    assert_eq!(sheet_art_request(&sheet("  "), "#f00", &mut art, &mut inflight, 0), None);
    let script = sheet_art_request(&sheet("Actor.1"), "#f00", &mut art, &mut inflight, 0);
    assert_eq!(script, Some(art_script("Actor.1", ArtSource::Portrait, "#f00", OFFLINE_COLOR)));
    assert!(inflight.contains(&art_key("Actor.1")));
    // a second request while the first runs does nothing
    assert_eq!(sheet_art_request(&sheet("Actor.1"), "#f00", &mut art, &mut inflight, 1), None);

    let reply = obj(vec![("closed", s("c")), ("open", s("o")), ("offline", s("x")), ("name", s("Hero")), ("isOpen", Json::Bool(true))]);
    let outcome = sheet_art_received(art_key("Actor.1"), "Actor.1", Some(&reply), &mut art, &mut open, &mut inflight, 2);
    assert_eq!(outcome, Some(ArtFetch::Ready(())));
    assert!(!inflight.contains(&art_key("Actor.1")));
    assert!(open.is_open("Actor.1"));
    let expected = ArtEntry { closed: "c".to_string(), open: "o".to_string(), offline: "x".to_string(), name: "Hero".to_string() };
    assert_eq!(art.get(&art_key("Actor.1"), 3), Some(expected));
    // cached artwork is not fetched again
    assert_eq!(sheet_art_request(&sheet("Actor.1"), "#f00", &mut art, &mut inflight, 3), None);
}

#[test]
fn sheet_art_failures_cache_nothing() {
    let mut art: TtlCache<ArtKey, ArtEntry> = TtlCache::new();
    let mut inflight: KeySet<ArtKey> = KeySet::new();
    let mut open = OpenSheets::new();
    assert!(sheet_art_request(&sheet("Actor.1"), "#f00", &mut art, &mut inflight, 0).is_some());
    let failed = obj(vec![("error", s("no artwork")), ("isOpen", Json::Bool(true))]);
    let outcome = sheet_art_received(art_key("Actor.1"), "Actor.1", Some(&failed), &mut art, &mut open, &mut inflight, 1);
    assert_eq!(outcome, Some(ArtFetch::Failed("no artwork".to_string())));
    assert!(!open.is_open("Actor.1"));
    assert_eq!(art.len(), 0);
    assert!(!inflight.contains(&art_key("Actor.1")));

    let empty = obj(vec![("isOpen", Json::Bool(true))]);
    assert!(sheet_art_request(&sheet("Actor.1"), "#f00", &mut art, &mut inflight, 2).is_some());
    let outcome = sheet_art_received(art_key("Actor.1"), "Actor.1", Some(&empty), &mut art, &mut open, &mut inflight, 3);
    assert_eq!(outcome, Some(ArtFetch::Empty));
    assert!(open.is_open("Actor.1"));
    assert_eq!(art.len(), 0);

    assert!(sheet_art_request(&sheet("Actor.1"), "#f00", &mut art, &mut inflight, 4).is_some());
    assert_eq!(sheet_art_received(art_key("Actor.1"), "Actor.1", None, &mut art, &mut open, &mut inflight, 5), None);
    assert!(!inflight.contains(&art_key("Actor.1")));
}

#[test]
fn condition_art_is_fetched_once_and_cached() {
    let mut art: TtlCache<ConditionKey, ConditionArt> = TtlCache::new();
    let mut inflight: KeySet<ConditionKey> = KeySet::new();
    let settings = ConditionSettings { status_id: "prone".to_string(), status_name: String::new(), show_title: true };
    let blank = ConditionSettings { status_id: " ".to_string(), status_name: String::new(), show_title: true };
    let key = ConditionKey { id: "prone".to_string(), accent: "#0f0".to_string() };
    assert_eq!(condition_art_request(&blank, "#0f0", &mut art, &mut inflight, 0), None);
    assert_eq!(
        condition_art_request(&settings, "#0f0", &mut art, &mut inflight, 0),
        Some(condition_art_script("prone", "#0f0", OFFLINE_COLOR))
    );
    assert_eq!(condition_art_request(&settings, "#0f0", &mut art, &mut inflight, 0), None);

    let no_on = obj(vec![("name", s("Prone"))]);
    assert_eq!(condition_art_received(ConditionKey { id: "prone".to_string(), accent: "#0f0".to_string() }, Some(&no_on), &mut art, &mut inflight, 1), Some(ArtFetch::Empty));
    assert!(!inflight.contains(&key));
    assert_eq!(art.len(), 0);

    assert!(condition_art_request(&settings, "#0f0", &mut art, &mut inflight, 2).is_some());
    let reply = obj(vec![("name", s("Prone")), ("on", s("ON")), ("off", s("OFF"))]);
    assert_eq!(condition_art_received(ConditionKey { id: "prone".to_string(), accent: "#0f0".to_string() }, Some(&reply), &mut art, &mut inflight, 3), Some(ArtFetch::Ready(())));
    let cached = art.get(&key, 4).expect("cached");
    assert_eq!(cached.on, "ON");
    assert_eq!(cached.off, "OFF");
    assert_eq!(cached.mixed, "");
    assert_eq!(condition_art_request(&settings, "#0f0", &mut art, &mut inflight, 4), None);
}

#[test]
fn call_outcomes() {
    assert_eq!(call_outcome(&obj(vec![("error", s("no tokens"))])), Err("no tokens".to_string()));
    assert_eq!(call_outcome(&obj(vec![("ok", Json::Bool(true))])), Ok(()));
    assert_eq!(call_outcome(&Json::Null), Ok(()));
}

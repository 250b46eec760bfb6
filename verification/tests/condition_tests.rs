use foundryvtt_streamdeck::condition::{
    condition_art_from_reply, condition_face, condition_press, conditions_reply, register_condition,
    ArtFetch, ConditionSettings, Face, Selection, Variant,
};
use foundryvtt_streamdeck::foundry::toggle_condition_script;
use foundryvtt_streamdeck::image::ConditionArt;
use foundryvtt_streamdeck::json::{object, Json};
use foundryvtt_streamdeck::relay::RelayError;
use foundryvtt_streamdeck::textmap::TextMap;

fn s(v: &str) -> Json {
    Json::Str(v.to_string())
}

fn obj(members: Vec<(&str, Json)>) -> Json {
    object(members.into_iter().map(|(k, v)| (k.to_string(), v)).collect())
}

fn selection_event(count: u64, statuses: Vec<(&str, Json)>) -> Json {
    obj(vec![("event", s("selection")), ("count", Json::UInt(count)), ("statuses", obj(statuses))])
}

fn art() -> ConditionArt {
    ConditionArt {
        name: "Prone".to_string(),
        off: "img-off".to_string(),
        on: "img-on".to_string(),
        mixed: "img-mixed".to_string(),
        none: "img-none".to_string(),
        offline: "img-offline".to_string(),
    }
}

fn settings(id: &str, name: &str, show_title: bool) -> ConditionSettings {
    ConditionSettings { status_id: id.to_string(), status_name: name.to_string(), show_title }
}

fn selection(count: u64, statuses: Vec<(&str, Json)>) -> Selection {
    Selection::from_value(&selection_event(count, statuses)).unwrap()
}

#[test]
fn default_settings_show_the_title() {
    let d = ConditionSettings::new();
    assert_eq!(d, settings("", "", true));
}

#[test]
fn selection_parses_counts_that_fit() {
    let sel = selection(3, vec![("prone", Json::UInt(2)), ("bad", s("x")), ("huge", Json::UInt(1 << 40)), ("neg", Json::Int(-1))]);
    assert_eq!(sel.count, 3);
    assert_eq!(sel.status("prone"), 2);
    assert_eq!(sel.status("bad"), 0);
    assert_eq!(sel.status("huge"), 0);
    assert_eq!(sel.status("neg"), 0);
    assert_eq!(sel.status("missing"), 0);
}

#[test]
fn malformed_selections_are_refused() {
    assert!(Selection::from_value(&obj(vec![("statuses", obj(vec![]))])).is_none());
    assert!(Selection::from_value(&obj(vec![("count", Json::UInt(1 << 33)), ("statuses", obj(vec![]))])).is_none());
    assert!(Selection::from_value(&obj(vec![("count", Json::UInt(1)), ("statuses", Json::Array(vec![]))])).is_none());
    assert!(Selection::from_value(&obj(vec![("count", s("1")), ("statuses", obj(vec![]))])).is_none());
    assert!(Selection::from_value(&Json::Null).is_none());
}

#[test]
fn applying_a_selection_reports_changes_once() {
    let mut sel = Selection::new();
    let event = selection_event(2, vec![("prone", Json::UInt(1))]);
    assert!(sel.apply_value(&event));
    assert!(!sel.apply_value(&event), "the same selection twice changes nothing");
    assert!(!sel.apply_value(&Json::Null), "a malformed event changes nothing");
    assert_eq!(sel.status("prone"), 1);
    let reordered = selection_event(2, vec![("prone", Json::UInt(1))]);
    assert!(!sel.apply_value(&reordered));
    assert!(sel.apply_value(&selection_event(2, vec![("prone", Json::UInt(2))])));
    assert!(sel.reset());
    assert!(!sel.reset(), "clearing twice changes nothing the second time");
    assert_eq!(sel.count, 0);
}

#[test]
fn selection_equality_ignores_member_order() {
    let a = selection(2, vec![("x", Json::UInt(1)), ("y", Json::UInt(2))]);
    let b = selection(2, vec![("y", Json::UInt(2)), ("x", Json::UInt(1))]);
    let c = selection(2, vec![("y", Json::UInt(2))]);
    assert!(a.same_as(&b));
    assert!(!a.same_as(&c));
    assert!(!c.same_as(&a));
}

#[test]
fn variant_table() {
    let sel = selection(3, vec![("all", Json::UInt(3)), ("some", Json::UInt(1)), ("zero", Json::UInt(0))]);
    assert_eq!(Variant::pick(false, &sel, "all"), Variant::Offline);
    assert_eq!(Variant::pick(true, &sel, "all"), Variant::On);
    assert_eq!(Variant::pick(true, &sel, "some"), Variant::Mixed);
    assert_eq!(Variant::pick(true, &sel, "zero"), Variant::Off);
    assert_eq!(Variant::pick(true, &sel, "none"), Variant::Off);
    assert_eq!(Variant::pick(true, &Selection::new(), "all"), Variant::Unselected);
    let a = art();
    assert_eq!(Variant::Unselected.image(&a), "img-none");
    assert_eq!(Variant::Off.image(&a), "img-off");
    assert_eq!(Variant::On.image(&a), "img-on");
    assert_eq!(Variant::Mixed.image(&a), "img-mixed");
    assert_eq!(Variant::Offline.image(&a), "img-offline");
}

#[test]
fn face_of_an_unconfigured_key() {
    let face = condition_face(&settings("  ", "x", true), Some(&art()), true, &Selection::new());
    assert_eq!(face, Face { image: None, title: Some("Pick condition".to_string()) });
}

#[test]
fn face_without_art_shows_the_name() {
    let face = condition_face(&settings("prone", "Prone!", true), None, true, &Selection::new());
    assert_eq!(face, Face { image: None, title: Some("Prone!".to_string()) });
    let face = condition_face(&settings("prone", "", false), None, true, &Selection::new());
    assert_eq!(face, Face { image: None, title: Some("prone".to_string()) });
}

#[test]
fn face_with_art() {
    let sel = selection(2, vec![("prone", Json::UInt(2))]);
    let face = condition_face(&settings("prone", "Other", true), Some(&art()), true, &sel);
    assert_eq!(face, Face { image: Some("img-on".to_string()), title: Some("Prone".to_string()) });
    let face = condition_face(&settings("prone", "Other", false), Some(&art()), false, &sel);
    assert_eq!(face, Face { image: Some("img-offline".to_string()), title: None });
    let mut unnamed = art();
    unnamed.name = String::new();
    let face = condition_face(&settings("prone", "Other", true), Some(&unnamed), true, &sel);
    assert_eq!(face.title, Some("Other".to_string()));
}

#[test]
fn art_replies() {
    assert_eq!(
        condition_art_from_reply(&obj(vec![("error", s("companion module missing"))])),
        ArtFetch::Failed("companion module missing".to_string())
    );
    assert_eq!(condition_art_from_reply(&obj(vec![("name", s("Prone"))])), ArtFetch::Empty);
    let reply = obj(vec![
        ("name", s("Prone")),
        ("off", s("img-off")),
        ("on", s("img-on")),
        ("mixed", s("img-mixed")),
        ("none", s("img-none")),
        ("offline", s("img-offline")),
        ("extra", Json::UInt(1)),
    ]);
    assert_eq!(condition_art_from_reply(&reply), ArtFetch::Ready(art()));
}

#[test]
fn press_needs_a_condition_and_a_selection() {
    assert_eq!(condition_press(&settings(" ", "", true), 3), None);
    assert_eq!(condition_press(&settings("prone", "", true), 0), None);
    assert_eq!(condition_press(&settings(" prone ", "", true), 1), Some(toggle_condition_script("prone")));
}

#[test]
fn conditions_replies() {
    let list = Json::Array(vec![obj(vec![("id", s("prone"))])]);
    assert_eq!(
        conditions_reply(&Ok(list.duplicate())),
        obj(vec![("event", s("conditions")), ("status", s("ok")), ("conditions", list)])
    );
    assert_eq!(
        conditions_reply(&Ok(obj(vec![("error", s("boom"))]))),
        obj(vec![("event", s("conditions")), ("status", s("error")), ("message", s("boom"))])
    );
    assert_eq!(
        conditions_reply(&Ok(obj(vec![]))),
        obj(vec![("event", s("conditions")), ("status", s("error")), ("message", s("malformed reply"))])
    );
    assert_eq!(
        conditions_reply(&Err(RelayError::Timeout)),
        obj(vec![("event", s("conditions")), ("status", s("error")), ("message", s("relay request timed out"))])
    );
}

#[test]
fn registering_settings_reports_changes() {
    let mut instances: TextMap<ConditionSettings> = TextMap::new();
    assert!(register_condition(&mut instances, "ctx1", &settings("prone", "", true)));
    assert!(!register_condition(&mut instances, "ctx1", &settings("prone", "", true)));
    assert!(register_condition(&mut instances, "ctx1", &settings("prone", "", false)));
    assert!(register_condition(&mut instances, "ctx2", &settings("prone", "", false)));
    assert_eq!(instances.len(), 2);
    assert_eq!(instances.remove("ctx1"), Some(settings("prone", "", false)));
    assert_eq!(instances.get("ctx1"), None);
}

use foundryvtt_streamdeck::foundry::{
    art_script, companion_call, condition_art_script, conditions_script, js, sync_script,
    toggle_condition_script, toggle_script, ArtSource, COMPANION_ID, EVENT_HOOK,
};

fn expected_call(call: &str) -> String {
    format!(
        r#"
const m = game.modules.get({id});
if (!m || !m.active || !m.api) return {{ error: "companion module missing" }};
try {{
  return await m.api.{call};
}} catch (e) {{
  return {{ error: String((e && e.message) || e) }};
}}
"#,
        id = serde_json::to_string(COMPANION_ID).unwrap()
    )
}

#[test]
fn js_quotes_like_serde_json() {
    for s in ["plain", "a\"b", "back\\slash", "line\nbreak\ttab\r", "\u{1}\u{8}\u{c}\u{1f}", "ünï ☃", "</script>", ""] {
        assert_eq!(js(s), serde_json::to_string(s).unwrap());
    }
    assert_eq!(js("a\"b"), "\"a\\\"b\"");
    assert_eq!(js("\u{1}"), "\"\\u0001\"");
    assert_eq!(js("\u{1f}"), "\"\\u001f\"");
}

#[test]
fn companion_ids() {
    assert_eq!(COMPANION_ID, "foundryvtt-streamdeck");
    assert_eq!(EVENT_HOOK, "foundryvtt-streamdeck.event");
}

#[test]
fn art_source_names() {
    assert_eq!(ArtSource::Token.as_str(), "token");
    assert_eq!(ArtSource::Portrait.as_str(), "portrait");
    assert_eq!(ArtSource::Preferred.as_str(), "preferred");
}

#[test]
fn toggle_script_quotes_the_uuid() {
    let script = toggle_script("Actor.abc\"1");
    let expected = format!(
        r#"
try {{
  const a = await fromUuid({uuid});
  if (!a) return {{ error: "actor not found" }};
  const s = a.sheet;
  if (!s) return {{ error: "no sheet class for this actor" }};
  if (s.rendered) {{
    await s.close({{ animate: false }});
    return {{ open: !!s.rendered, name: a.name }};
  }}
  await s.render({{ force: true }});
  return {{ open: !!s.rendered, name: a.name }};
}} catch (e) {{
  return {{ error: String((e && e.message) || e) }};
}}
"#,
        uuid = "\"Actor.abc\\\"1\""
    );
    assert_eq!(script, expected);
}

#[test]
fn sync_script_reads_the_companion_snapshot() {
    let expected = format!(
        r#"
let notify = null;
try {{
  notify = !!game.settings.get("foundry-rest-api", "notifyOnExecuteJs");
}} catch (e) {{}}
const m = game.modules.get({id});
if (!m || !m.active || !m.api) return {{ module: null, notify, open: null, selection: null }};
const snap = m.api.snapshot();
return {{ module: snap.version, notify, open: snap.open, selection: snap.selection }};
"#,
        id = "\"foundryvtt-streamdeck\""
    );
    assert_eq!(sync_script(), expected);
}

#[test]
fn companion_calls() {
    assert_eq!(companion_call("ping()"), expected_call("ping()"));
    assert_eq!(conditions_script(), expected_call("conditions()"));
    assert_eq!(toggle_condition_script("prone"), expected_call("toggleCondition(\"prone\")"));
    assert_eq!(
        condition_art_script("blinded", "#ff6400", "#6b6b6b"),
        expected_call("conditionArt(\"blinded\", { accent: \"#ff6400\", offline: \"#6b6b6b\" })")
    );
}

#[test]
fn art_script_substitutions() {
    let script = art_script("Actor.x", ArtSource::Preferred, "#ff6400", "#6b6b6b");
    assert!(script.starts_with("\ntry {\n  const A = await fromUuid(\"Actor.x\");\n  if (!A) return { error: \"actor not found\" };\n  const MODE = \"preferred\";\n  const OPEN_COLOR = \"#ff6400\";\n  const OFFLINE_COLOR = \"#6b6b6b\";\n  const VID = "));
    assert!(script.ends_with("  return { src, name: A.name, closed, open, offline, isOpen: !!(A._sheet && A._sheet.rendered) };\n} catch (e) {\n  return { error: String((e && e.message) || e) };\n}\n"));
    assert!(script.contains("x.fillStyle = \"#1b1d24\";"));
    let portrait = art_script("Actor.x", ArtSource::Portrait, "red", "grey");
    assert!(portrait.contains("const MODE = \"portrait\";"));
    assert!(portrait.contains("const OPEN_COLOR = \"red\";"));
}

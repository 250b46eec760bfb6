//! The JavaScript that the plugin runs in the GM's browser through the relay.
use vstd::prelude::*;
use vstd::string::*;
use crate::text::{hex_lower_char, owned};

verus! {

/// Which picture of an actor a key shows.
#[derive(Clone, Copy, PartialEq, Eq, Hash, Debug, Structural)]
pub enum ArtSource {
    Token,
    Portrait,
    Preferred,
}

/// The name an artwork source goes by in scripts and settings.
pub open spec fn art_source_name(source: ArtSource) -> Seq<char> {
    match source {
        ArtSource::Token => "token"@,
        ArtSource::Portrait => "portrait"@,
        ArtSource::Preferred => "preferred"@,
    }
}

impl ArtSource {
    pub fn as_str(self) -> (r: &'static str)
        ensures
            r@ == art_source_name(self),
    {
        match self {
            ArtSource::Token => "token",
            ArtSource::Portrait => "portrait",
            ArtSource::Preferred => "preferred",
        }
    }
}

/// The id of the companion module in Foundry.
pub const COMPANION_ID: &'static str = "foundryvtt-streamdeck";

/// The hook under which the companion module publishes its events.
pub const EVENT_HOOK: &'static str = "foundryvtt-streamdeck.event";

/// How one character is written inside a JSON string literal.
pub open spec fn json_escape_char(c: char) -> Seq<char> {
    let u = c as u32;
    if c == '"' {
        seq!['\\', '"']
    } else if c == '\\' {
        seq!['\\', '\\']
    } else if u == 0x08 {
        seq!['\\', 'b']
    } else if u == 0x09 {
        seq!['\\', 't']
    } else if u == 0x0A {
        seq!['\\', 'n']
    } else if u == 0x0C {
        seq!['\\', 'f']
    } else if u == 0x0D {
        seq!['\\', 'r']
    } else if u < 0x20 {
        seq!['\\', 'u', '0', '0', hex_lower_char((u / 16) as int), hex_lower_char((u % 16) as int)]
    } else {
        seq![c]
    }
}

/// The characters of `s` as written inside a JSON string literal.
pub open spec fn json_escape(s: Seq<char>) -> Seq<char>
    decreases s.len(),
{
    if s.len() == 0 {
        Seq::empty()
    } else {
        json_escape_char(s[0]) + json_escape(s.drop_first())
    }
}

/// `s` as a JSON string literal, quotes included.
pub open spec fn json_quote(s: Seq<char>) -> Seq<char> {
    seq!['"'] + json_escape(s) + seq!['"']
}

/// The value of a lowercase hexadecimal digit character.
pub open spec fn hex_digit_value(c: char) -> int {
    if (c as int) < 58 {
        c as int - 48
    } else {
        c as int - 87
    }
}

/// The character that the escape `\c` stands for inside a JSON string literal, for the
/// one-character escapes.
pub open spec fn short_escape(c: char) -> Option<char> {
    if c == '"' {
        Some('"')
    } else if c == '\\' {
        Some('\\')
    } else if c == 'b' {
        Some(8u8 as char)
    } else if c == 't' {
        Some(9u8 as char)
    } else if c == 'n' {
        Some(10u8 as char)
    } else if c == 'f' {
        Some(12u8 as char)
    } else if c == 'r' {
        Some(13u8 as char)
    } else {
        None
    }
}

/// Reads the body of a JSON string literal whose opening quote has been read: the text
/// it stands for and what follows its closing quote, or none when it does not close.
pub open spec fn read_string_body(s: Seq<char>) -> Option<(Seq<char>, Seq<char>)>
    decreases s.len(),
{
    if s.len() == 0 {
        None
    } else if s[0] == '"' {
        Some((Seq::empty(), s.drop_first()))
    } else if s[0] == '\\' {
        if s.len() < 2 {
            None
        } else {
            match short_escape(s[1]) {
                Some(d) => match read_string_body(s.skip(2)) {
                    Some((b, r)) => Some((seq![d] + b, r)),
                    None => None,
                },
                None => if s[1] == 'u' && s.len() >= 6 {
                    let v = hex_digit_value(s[2]) * 4096 + hex_digit_value(s[3]) * 256
                        + hex_digit_value(s[4]) * 16 + hex_digit_value(s[5]);
                    match read_string_body(s.skip(6)) {
                        Some((b, r)) => Some((seq![(v as u32) as char] + b, r)),
                        None => None,
                    }
                } else {
                    None
                },
            }
        }
    } else {
        match read_string_body(s.drop_first()) {
            Some((b, r)) => Some((seq![s[0]] + b, r)),
            None => None,
        }
    }
}

proof fn lemma_read_escaped(u: Seq<char>, rest: Seq<char>)
    ensures
        read_string_body(json_escape(u) + seq!['"'] + rest) == Some((u, rest)),
    decreases u.len(),
{
    if u.len() == 0 {
        assert(json_escape(u) + seq!['"'] + rest =~= seq!['"'] + rest);
        assert((seq!['"'] + rest).drop_first() =~= rest);
    } else {
        let c = u[0];
        let e = json_escape_char(c);
        let t = json_escape(u.drop_first()) + seq!['"'] + rest;
        lemma_read_escaped(u.drop_first(), rest);
        let s = json_escape(u) + seq!['"'] + rest;
        assert(s =~= e + t);
        let x = c as u32;
        vstd::utf8::char_u32_cast(c, x);
        if c == '"' || c == '\\' || x == 0x08 || x == 0x09 || x == 0x0A || x == 0x0C || x == 0x0D {
            assert(e.len() == 2 && e[0] == '\\');
            assert(s[0] == e[0] && s[1] == e[1]);
            assert(s.skip(2) =~= t);
            if c == '"' {
                assert(e[1] == '"');
            } else if c == '\\' {
                assert(e[1] == '\\');
            } else if x == 0x08 {
                assert(e[1] == 'b');
                assert(c == 8u8 as char);
            } else if x == 0x09 {
                assert(e[1] == 't');
                assert(c == 9u8 as char);
            } else if x == 0x0A {
                assert(e[1] == 'n');
                assert(c == 10u8 as char);
            } else if x == 0x0C {
                assert(e[1] == 'f');
                assert(c == 12u8 as char);
            } else {
                assert(e[1] == 'r');
                assert(c == 13u8 as char);
            }
            assert(short_escape(s[1]) == Some(c));
        } else if x < 0x20 {
            assert(s[0] == '\\');
            assert(s[1] == 'u');
            assert(short_escape(s[1]) is None);
            assert(s.skip(6) =~= t);
            let hi = (x / 16) as int;
            let lo = (x % 16) as int;
            assert(hex_digit_value(hex_lower_char(hi)) == hi);
            assert(hex_digit_value(hex_lower_char(lo)) == lo);
            assert(hex_digit_value(s[2]) == 0);
            assert(hex_digit_value(s[3]) == 0);
            assert(hi * 16 + lo == x as int);
            let n: int = x as int;
            assert((n as u32) == x);
            assert(((n as u32) as char) == c);
            assert(hex_digit_value(s[2]) * 4096 + hex_digit_value(s[3]) * 256 + hex_digit_value(s[4]) * 16
                + hex_digit_value(s[5]) == n);
        } else {
            assert(s[0] == c);
            assert(s.drop_first() =~= t);
        }
        assert(seq![c] + u.drop_first() =~= u);
    }
}

/// The sheet toggle script holds the actor's uuid as one JSON string literal right after
/// its fixed head: read from its opening quote, the literal gives back exactly the uuid,
/// whatever characters it holds, and the fixed tail follows its closing quote.
pub proof fn law_toggle_script_quotes_uuid(uuid: Seq<char>)
    ensures
        toggle_script_text(uuid).take(TOGGLE_HEAD@.len() + 1 as int) == TOGGLE_HEAD@ + seq!['"'],
        read_string_body(toggle_script_text(uuid).skip(TOGGLE_HEAD@.len() + 1 as int)) == Some(
            (uuid, TOGGLE_TAIL@),
        ),
{
    lemma_read_escaped(uuid, TOGGLE_TAIL@);
    let t = toggle_script_text(uuid);
    assert(t =~= TOGGLE_HEAD@ + seq!['"'] + (json_escape(uuid) + seq!['"'] + TOGGLE_TAIL@));
    assert(t.take(TOGGLE_HEAD@.len() + 1 as int) =~= TOGGLE_HEAD@ + seq!['"']);
    assert(t.skip(TOGGLE_HEAD@.len() + 1 as int) =~= json_escape(uuid) + seq!['"'] + TOGGLE_TAIL@);
}

#[verifier::external_type_specification]
#[verifier::external_body]
pub struct ExJsonError(serde_json::Error);

/// `serde_json::to_string` on a string slice: the JSON string literal of `value`, quoted,
/// with `"` and `\` escaped by a backslash, the control characters U+0008, U+0009, U+000A,
/// U+000C and U+000D written `\b \t \n \f \r`, the other characters below U+0020 written
/// `\u00XX` in lowercase hexadecimal, and every other character as itself. Serialising a
/// string into memory does not fail.
#[verifier::external_body]
fn json_string_literal(value: &str) -> (r: Result<String, serde_json::Error>)
    ensures
        r is Ok,
        r matches Ok(s) ==> s@ == json_quote(value@),
{
    serde_json::to_string(value)
}

/// `value` as a JavaScript string literal.
pub fn js(value: &str) -> (r: String)
    ensures
        r@ == json_quote(value@),
{
    match json_string_literal(value) {
        Ok(s) => s,
        Err(_) => String::from_str("\"\""),
    }
}

/// The sheet toggle script up to the actor's uuid.
pub const TOGGLE_HEAD: &'static str = r#"
try {
  const a = await fromUuid("#;

/// The sheet toggle script after the actor's uuid.
pub const TOGGLE_TAIL: &'static str = r#");
  if (!a) return { error: "actor not found" };
  const s = a.sheet;
  if (!s) return { error: "no sheet class for this actor" };
  if (s.rendered) {
    await s.close({ animate: false });
    return { open: !!s.rendered, name: a.name };
  }
  await s.render({ force: true });
  return { open: !!s.rendered, name: a.name };
} catch (e) {
  return { error: String((e && e.message) || e) };
}
"#;

/// The state sync script up to the companion module's id.
pub const SYNC_HEAD: &'static str = r#"
let notify = null;
try {
  notify = !!game.settings.get("foundry-rest-api", "notifyOnExecuteJs");
} catch (e) {}
const m = game.modules.get("#;

/// The state sync script after the companion module's id.
pub const SYNC_TAIL: &'static str = r#");
if (!m || !m.active || !m.api) return { module: null, notify, open: null, selection: null };
const snap = m.api.snapshot();
return { module: snap.version, notify, open: snap.open, selection: snap.selection };
"#;

/// A companion API call up to the companion module's id.
pub const CALL_HEAD: &'static str = r#"
const m = game.modules.get("#;

/// A companion API call between the module's id and the call itself.
pub const CALL_MIDDLE: &'static str = r#");
if (!m || !m.active || !m.api) return { error: "companion module missing" };
try {
  return await m.api."#;

/// A companion API call after the call itself.
pub const CALL_TAIL: &'static str = r#";
} catch (e) {
  return { error: String((e && e.message) || e) };
}
"#;

/// The artwork script up to the actor's uuid.
pub const ART_HEAD: &'static str = r#"
try {
  const A = await fromUuid("#;

/// The artwork script between the uuid and the artwork source.
pub const ART_MODE: &'static str = r#");
  if (!A) return { error: "actor not found" };
  const MODE = "#;

/// The artwork script between the artwork source and the open colour.
pub const ART_OPEN_COLOR: &'static str = r#";
  const OPEN_COLOR = "#;

/// The artwork script between the open colour and the offline colour.
pub const ART_OFFLINE_COLOR: &'static str = r#";
  const OFFLINE_COLOR = "#;

/// The artwork script after the offline colour.
pub const ART_TAIL: &'static str = r##";
  const VID = /\.(mp4|m4v|webm|ogv)(\?|$)/i;

  let src = null;
  if (MODE === "portrait") {
    src = A.img;
  } else {
    if (MODE === "preferred" && A.getPreferredArtwork) {
      try { const p = await A.getPreferredArtwork(); if (p && p.src) src = p.src; } catch (e) {}
    }
    if (!src) {
      const tok = A.isToken ? A.token : A.prototypeToken;
      let s = (tok && tok.texture) ? tok.texture.src : null;
      if (s && s.includes("*")) {
        try {
          const imgs = await A.getTokenImages();
          s = (imgs && imgs.length) ? imgs.slice().sort()[0] : null;
        } catch (e) { s = null; }
      }
      if (s && VID.test(s)) s = null;
      src = s;
    }
    if (!src) src = A.img;
  }
  if (!src) return { error: "no artwork" };

  const url = /^(https?:)?\/\//.test(src) ? src : foundry.utils.getRoute(src);
  let res;
  try {
    res = await fetch(url);
  } catch (e) {
    return { error: "fetch blocked (CORS?): " + String((e && e.message) || e), src };
  }
  if (!res.ok) return { error: "fetch " + res.status, src };

  const obj = URL.createObjectURL(await res.blob());
  const img = new Image();
  img.src = obj;
  try {
    await img.decode();
  } catch (e) {
    URL.revokeObjectURL(obj);
    return { error: "decode failed", src };
  }

  const draw = (color) => {
    const c = document.createElement("canvas");
    c.width = 144; c.height = 144;
    const x = c.getContext("2d");
    x.fillStyle = "#1b1d24";
    x.fillRect(0, 0, 144, 144);
    const iw = img.naturalWidth || 144;
    const ih = img.naturalHeight || 144;
    const k = Math.min(144 / iw, 144 / ih);
    const w = iw * k, h = ih * k;
    x.drawImage(img, (144 - w) / 2, (144 - h) / 2, w, h);
    if (color) {
      x.lineWidth = 10;
      x.strokeStyle = color;
      x.beginPath();
      if (x.roundRect) x.roundRect(5, 5, 134, 134, 12); else x.rect(5, 5, 134, 134);
      x.stroke();
    }
    return c.toDataURL("image/webp", 0.9);
  };

  const closed = draw(null);
  const open = draw(OPEN_COLOR);
  const offline = draw(OFFLINE_COLOR);
  URL.revokeObjectURL(obj);

  return { src, name: A.name, closed, open, offline, isOpen: !!(A._sheet && A._sheet.rendered) };
} catch (e) {
  return { error: String((e && e.message) || e) };
}
"##;

/// The script that opens an actor's sheet if it is closed and closes it if it is open.
pub open spec fn toggle_script_text(uuid: Seq<char>) -> Seq<char> {
    TOGGLE_HEAD@ + json_quote(uuid) + TOGGLE_TAIL@
}

/// The script that reports the companion module's version and snapshot.
pub open spec fn sync_script_text() -> Seq<char> {
    SYNC_HEAD@ + json_quote(COMPANION_ID@) + SYNC_TAIL@
}

/// The script that runs `call` on the companion module's API.
pub open spec fn companion_call_text(call: Seq<char>) -> Seq<char> {
    CALL_HEAD@ + json_quote(COMPANION_ID@) + CALL_MIDDLE@ + call + CALL_TAIL@
}

/// The API call that toggles a condition on the selected tokens.
pub open spec fn toggle_condition_call(id: Seq<char>) -> Seq<char> {
    "toggleCondition("@ + json_quote(id) + ")"@
}

/// The API call that renders a condition's icons.
pub open spec fn condition_art_call(id: Seq<char>, accent: Seq<char>, offline: Seq<char>) -> Seq<
    char,
> {
    "conditionArt("@ + json_quote(id) + ", { accent: "@ + json_quote(accent) + ", offline: "@
        + json_quote(offline) + " })"@
}

/// The script that renders an actor's artwork in its three variants.
pub open spec fn art_script_text(
    uuid: Seq<char>,
    source: ArtSource,
    open_color: Seq<char>,
    offline_color: Seq<char>,
) -> Seq<char> {
    ART_HEAD@ + json_quote(uuid) + ART_MODE@ + json_quote(art_source_name(source))
        + ART_OPEN_COLOR@ + json_quote(open_color) + ART_OFFLINE_COLOR@ + json_quote(
        offline_color,
    ) + ART_TAIL@
}

pub fn toggle_script(uuid: &str) -> (r: String)
    ensures
        r@ == toggle_script_text(uuid@),
{
    let mut r = owned(TOGGLE_HEAD);
    r.append(js(uuid).as_str());
    r.append(TOGGLE_TAIL);
    r
}

pub fn sync_script() -> (r: String)
    ensures
        r@ == sync_script_text(),
{
    let mut r = owned(SYNC_HEAD);
    r.append(js(COMPANION_ID).as_str());
    r.append(SYNC_TAIL);
    r
}

pub fn companion_call(call: &str) -> (r: String)
    ensures
        r@ == companion_call_text(call@),
{
    let mut r = owned(CALL_HEAD);
    r.append(js(COMPANION_ID).as_str());
    r.append(CALL_MIDDLE);
    r.append(call);
    r.append(CALL_TAIL);
    r
}

pub fn conditions_script() -> (r: String)
    ensures
        r@ == companion_call_text("conditions()"@),
{
    companion_call("conditions()")
}

pub fn toggle_condition_script(id: &str) -> (r: String)
    ensures
        r@ == companion_call_text(toggle_condition_call(id@)),
{
    let mut call = owned("toggleCondition(");
    call.append(js(id).as_str());
    call.append(")");
    companion_call(call.as_str())
}

pub fn condition_art_script(id: &str, accent: &str, offline: &str) -> (r: String)
    ensures
        r@ == companion_call_text(condition_art_call(id@, accent@, offline@)),
{
    let mut call = owned("conditionArt(");
    call.append(js(id).as_str());
    call.append(", { accent: ");
    call.append(js(accent).as_str());
    call.append(", offline: ");
    call.append(js(offline).as_str());
    call.append(" })");
    companion_call(call.as_str())
}

pub fn art_script(uuid: &str, source: ArtSource, open_color: &str, offline_color: &str) -> (r:
    String)
    ensures
        r@ == art_script_text(uuid@, source, open_color@, offline_color@),
{
    let mut r = owned(ART_HEAD);
    r.append(js(uuid).as_str());
    r.append(ART_MODE);
    r.append(js(source.as_str()).as_str());
    r.append(ART_OPEN_COLOR);
    r.append(js(open_color).as_str());
    r.append(ART_OFFLINE_COLOR);
    r.append(js(offline_color).as_str());
    r.append(ART_TAIL);
    r
}

} // verus!

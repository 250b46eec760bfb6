//! The relay connection as the property inspector shows and edits it, and the events
//! the inspector sends to the plugin.
use vstd::prelude::*;
use vstd::string::*;
use crate::config::{indicator_name, Config, Indicator};
use crate::json::{jv_entries, opt_str, push_member, Json, JsonValue};
use crate::text::{is_blank, owned, str_eq, trim, trimmed};

verus! {

/// What the property inspector asks of the plugin.
#[derive(Debug, PartialEq)]
pub enum PluginEvent {
    GetConditions,
    GetActors,
    RefreshArt,
    GetConnection,
    SetConnection,
    /// Any other event, with its name if it has one.
    Unknown(Option<String>),
}

/// Reads the event of a message from the property inspector.
pub fn plugin_event(payload: &Json) -> (r: PluginEvent)
    ensures
        match r {
            PluginEvent::GetConditions => payload@.field_str("event"@) == Some("getConditions"@),
            PluginEvent::GetActors => payload@.field_str("event"@) == Some("getActors"@),
            PluginEvent::RefreshArt => payload@.field_str("event"@) == Some("refreshArt"@),
            PluginEvent::GetConnection => payload@.field_str("event"@) == Some("getConnection"@),
            PluginEvent::SetConnection => payload@.field_str("event"@) == Some("setConnection"@),
            PluginEvent::Unknown(e) => crate::json::opt_string(e) == payload@.field_str("event"@)
                && payload@.field_str("event"@) != Some("getConditions"@)
                && payload@.field_str("event"@) != Some("getActors"@)
                && payload@.field_str("event"@) != Some("refreshArt"@)
                && payload@.field_str("event"@) != Some("getConnection"@)
                && payload@.field_str("event"@) != Some("setConnection"@),
        },
{
    match payload.get_str("event") {
        Some(e) => if str_eq(e, "getConditions") {
            PluginEvent::GetConditions
        } else if str_eq(e, "getActors") {
            PluginEvent::GetActors
        } else if str_eq(e, "refreshArt") {
            PluginEvent::RefreshArt
        } else if str_eq(e, "getConnection") {
            PluginEvent::GetConnection
        } else if str_eq(e, "setConnection") {
            PluginEvent::SetConnection
        } else {
            PluginEvent::Unknown(Some(owned(e)))
        },
        None => PluginEvent::Unknown(None),
    }
}

/// A reply to the property inspector: the event, the status and one more member.
pub open spec fn status_reply(event: Seq<char>, status: Seq<char>, key: Seq<char>, value: JsonValue) -> JsonValue {
    JsonValue::Object(
        seq![
            ("event"@, JsonValue::Str(event)),
            ("status"@, JsonValue::Str(status)),
            (key, value),
        ],
    )
}

pub fn status_message(event: &str, status: &str, key: &str, value: Json) -> (r: Json)
    ensures
        r@ == status_reply(event@, status@, key@, value@),
{
    let ghost x = value@;
    let mut entries: Vec<(String, Json)> = Vec::new();
    push_member(&mut entries, "event", Json::string(event));
    push_member(&mut entries, "status", Json::string(status));
    push_member(&mut entries, key, value);
    assert(jv_entries(entries@) =~= seq![
            ("event"@, JsonValue::Str(event@)),
            ("status"@, JsonValue::Str(status@)),
            (key@, x),
        ]);
    Json::Object(entries)
}

/// A JSON string, or null for none.
pub open spec fn opt_text_value(s: Option<Seq<char>>) -> JsonValue {
    match s {
        Some(t) => JsonValue::Str(t),
        None => JsonValue::Null,
    }
}

fn opt_text_json(s: Option<&str>) -> (r: Json)
    ensures
        r@ == opt_text_value(opt_str(s)),
{
    match s {
        Some(t) => Json::string(t),
        None => Json::Null,
    }
}

/// The connection state that the property inspector shows.
pub open spec fn connection_state(
    config: &Config,
    resolved_client_id: Option<Seq<char>>,
    connected: bool,
    companion: Option<Seq<char>>,
) -> JsonValue {
    JsonValue::Object(
        seq![
            ("event"@, JsonValue::Str("connection"@)),
            ("relayUrl"@, JsonValue::Str(config.relay_url@)),
            ("clientId"@, JsonValue::Str(config.client_id@)),
            ("resolvedClientId"@, opt_text_value(resolved_client_id)),
            ("hasApiKey"@, JsonValue::Bool(trimmed(config.api_key@).len() > 0)),
            ("indicator"@, JsonValue::Str(indicator_name(config.indicator))),
            ("borderColor"@, JsonValue::Str(config.border_color@)),
            ("connected"@, JsonValue::Bool(connected)),
            ("companion"@, opt_text_value(companion)),
        ],
    )
}

/// The connection state shows whether an API key is set but never the key itself (it has
/// no `apiKey` member), whether the relay is connected, the companion module's version or
/// null when the module is missing, and the relay URL and client id as set.
pub proof fn law_connection_state(
    config: &Config,
    resolved_client_id: Option<Seq<char>>,
    connected: bool,
    companion: Option<Seq<char>>,
)
    ensures
        connection_state(config, resolved_client_id, connected, companion).field("apiKey"@) is None,
        connection_state(config, resolved_client_id, connected, companion).field_bool("hasApiKey"@)
            == Some(trimmed(config.api_key@).len() > 0),
        connection_state(config, resolved_client_id, connected, companion).field_bool("connected"@)
            == Some(connected),
        connection_state(config, resolved_client_id, connected, companion).field("companion"@)
            == Some(
            match companion {
                Some(v) => JsonValue::Str(v),
                None => JsonValue::Null,
            },
        ),
        connection_state(config, resolved_client_id, connected, companion).field_str("relayUrl"@)
            == Some(config.relay_url@),
        connection_state(config, resolved_client_id, connected, companion).field_str("clientId"@)
            == Some(config.client_id@),
{
    reveal_strlit("event");
    reveal_strlit("relayUrl");
    reveal_strlit("clientId");
    reveal_strlit("resolvedClientId");
    reveal_strlit("hasApiKey");
    reveal_strlit("indicator");
    reveal_strlit("borderColor");
    reveal_strlit("connected");
    reveal_strlit("companion");
    reveal_strlit("apiKey");
    assert("event"@.len() == 5 && "relayUrl"@.len() == 8 && "clientId"@.len() == 8
        && "resolvedClientId"@.len() == 16 && "hasApiKey"@.len() == 9 && "indicator"@.len() == 9
        && "borderColor"@.len() == 11 && "connected"@.len() == 9 && "companion"@.len() == 9
        && "apiKey"@.len() == 6);
    assert("relayUrl"@[0] == 'r' && "clientId"@[0] == 'c' && "hasApiKey"@[0] == 'h'
        && "indicator"@[0] == 'i' && "connected"@[2] == 'n' && "companion"@[2] == 'm'
        && "connected"@[0] == 'c' && "companion"@[0] == 'c');
    assert("relayUrl"@ != "clientId"@);
    assert("hasApiKey"@ != "indicator"@ && "hasApiKey"@ != "connected"@ && "hasApiKey"@ != "companion"@);
    assert("indicator"@ != "connected"@ && "indicator"@ != "companion"@ && "connected"@ != "companion"@);
    reveal_with_fuel(crate::json::entries_get, 10);
}

/// The message that tells the property inspector the connection state. The API key
/// itself is never sent, only whether one is set.
pub fn connection_message(
    config: &Config,
    resolved_client_id: Option<&str>,
    connected: bool,
    companion: Option<&str>,
) -> (r: Json)
    ensures
        r@ == connection_state(config, opt_str(resolved_client_id), connected, opt_str(companion)),
{
    let mut entries: Vec<(String, Json)> = Vec::new();
    push_member(&mut entries, "event", Json::string("connection"));
    push_member(&mut entries, "relayUrl", Json::string(config.relay_url.as_str()));
    push_member(&mut entries, "clientId", Json::string(config.client_id.as_str()));
    push_member(&mut entries, "resolvedClientId", opt_text_json(resolved_client_id));
    push_member(&mut entries, "hasApiKey", Json::Bool(!is_blank(config.api_key.as_str())));
    push_member(&mut entries, "indicator", Json::string(config.indicator.as_str()));
    push_member(&mut entries, "borderColor", Json::string(config.border_color.as_str()));
    push_member(&mut entries, "connected", Json::Bool(connected));
    push_member(&mut entries, "companion", opt_text_json(companion));
    assert(jv_entries(entries@) =~= seq![
            ("event"@, JsonValue::Str("connection"@)),
            ("relayUrl"@, JsonValue::Str(config.relay_url@)),
            ("clientId"@, JsonValue::Str(config.client_id@)),
            ("resolvedClientId"@, opt_text_value(opt_str(resolved_client_id))),
            ("hasApiKey"@, JsonValue::Bool(trimmed(config.api_key@).len() > 0)),
            ("indicator"@, JsonValue::Str(indicator_name(config.indicator))),
            ("borderColor"@, JsonValue::Str(config.border_color@)),
            ("connected"@, JsonValue::Bool(connected)),
            ("companion"@, opt_text_value(opt_str(companion))),
        ]);
    Json::Object(entries)
}

/// The indicator that a setting's text names: `svg`, `title`, or else the border.
pub open spec fn indicator_named(name: Seq<char>) -> Indicator {
    if name == "svg"@ {
        Indicator::Svg
    } else if name == "title"@ {
        Indicator::Title
    } else {
        Indicator::Border
    }
}

/// The settings after the property inspector's `setConnection`: each member it sends
/// replaces the setting (trimmed, except the API key), an empty API key leaves the key
/// as it was, and members it leaves out change nothing.
pub open spec fn set_connection_view(current: &Config, payload: JsonValue) -> (
    Seq<char>,
    Seq<char>,
    Seq<char>,
    u64,
    Indicator,
    Seq<char>,
) {
    (
        match payload.field_str("relayUrl"@) {
            Some(v) => trimmed(v),
            None => current.relay_url@,
        },
        match payload.field_str("apiKey"@) {
            Some(v) => if v.len() > 0 {
                v
            } else {
                current.api_key@
            },
            None => current.api_key@,
        },
        match payload.field_str("clientId"@) {
            Some(v) => trimmed(v),
            None => current.client_id@,
        },
        current.poll_ms,
        match payload.field_str("indicator"@) {
            Some(v) => indicator_named(v),
            None => current.indicator,
        },
        match payload.field_str("borderColor"@) {
            Some(v) => trimmed(v),
            None => current.border_color@,
        },
    )
}

/// The settings as a tuple of their views.
pub open spec fn config_view(c: &Config) -> (Seq<char>, Seq<char>, Seq<char>, u64, Indicator, Seq<char>) {
    (c.relay_url@, c.api_key@, c.client_id@, c.poll_ms, c.indicator, c.border_color@)
}

/// The settings that the property inspector's `setConnection` message asks for.
pub fn apply_set_connection(current: &Config, payload: &Json) -> (r: Config)
    ensures
        config_view(&r) == set_connection_view(current, payload@),
{
    let mut next = current.duplicate();
    if let Some(v) = payload.get_str("relayUrl") {
        next.relay_url = owned(trim(v));
    }
    if let Some(v) = payload.get_str("clientId") {
        next.client_id = owned(trim(v));
    }
    if let Some(v) = payload.get_str("apiKey") {
        if v.unicode_len() > 0 {
            next.api_key = owned(v);
        }
    }
    if let Some(v) = payload.get_str("indicator") {
        next.indicator = if str_eq(v, "svg") {
            Indicator::Svg
        } else if str_eq(v, "title") {
            Indicator::Title
        } else {
            Indicator::Border
        };
    }
    if let Some(v) = payload.get_str("borderColor") {
        next.border_color = owned(trim(v));
    }
    next
}

/// Each connection setting that a `setConnection` message carries as a string replaces
/// the current one. The relay URL, client id and border colour are trimmed, and a blank
/// client id clears it (the relay then resolves it from a scoped key). A non-empty API key
/// replaces the key as sent; an empty one keeps the current key. The indicator is `svg`,
/// `title` or, for any other name, `border`. Members left out, and the poll interval, stay
/// as they were.
pub proof fn law_set_connection_fields(current: &Config, payload: JsonValue)
    ensures
        ({
            let next = set_connection_view(current, payload);
            &&& match payload.field_str("relayUrl"@) {
                Some(v) => next.0 == trimmed(v),
                None => next.0 == current.relay_url@,
            }
            &&& match payload.field_str("apiKey"@) {
                Some(v) => next.1 == if v.len() == 0 {
                    current.api_key@
                } else {
                    v
                },
                None => next.1 == current.api_key@,
            }
            &&& match payload.field_str("clientId"@) {
                Some(v) => next.2 == trimmed(v) && (trimmed(v).len() == 0 ==> next.2.len() == 0),
                None => next.2 == current.client_id@,
            }
            &&& next.3 == current.poll_ms
            &&& match payload.field_str("indicator"@) {
                Some(v) => next.4 == if v == "svg"@ {
                    Indicator::Svg
                } else if v == "title"@ {
                    Indicator::Title
                } else {
                    Indicator::Border
                },
                None => next.4 == current.indicator,
            }
            &&& match payload.field_str("borderColor"@) {
                Some(v) => next.5 == trimmed(v),
                None => next.5 == current.border_color@,
            }
        }),
{
}

/// A `setConnection` message without members changes nothing, and sending the same
/// message twice gives what sending it once gives.
pub proof fn law_set_connection(current: &Config, payload: JsonValue, next: &Config)
    requires
        config_view(next) == set_connection_view(current, payload),
    ensures
        set_connection_view(next, payload) == set_connection_view(current, payload),
        payload == JsonValue::Object(Seq::empty()) ==> set_connection_view(current, payload)
            == config_view(current),
{

}

} // verus!

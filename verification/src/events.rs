//! How the plugin reads the companion module's events and its state snapshot, and
//! what a change of the global settings calls for.
use vstd::prelude::*;
use vstd::string::*;
use crate::condition::{reset_step, selection_step, Selection};
use crate::config::Config;
use crate::json::{opt_json, Json, JsonValue};
use crate::text::{owned, str_eq};

verus! {

/// Which state a companion event is about.
#[derive(Debug, PartialEq)]
pub enum CompanionEvent {
    /// Open and closed sheets (`sheet` and `snapshot` events).
    Sheets,
    /// The selected tokens (`selection` events).
    Selection,
    /// The combat in progress (`combat` events).
    Combat,
    /// Anything else, with its name if it has one.
    Other(Option<String>),
}

/// Reads which state a companion event is about.
pub fn companion_event(payload: &Json) -> (r: CompanionEvent)
    ensures
        match r {
            CompanionEvent::Sheets => payload@.field_str("event"@) == Some("sheet"@)
                || payload@.field_str("event"@) == Some("snapshot"@),
            CompanionEvent::Selection => payload@.field_str("event"@) == Some("selection"@),
            CompanionEvent::Combat => payload@.field_str("event"@) == Some("combat"@),
            CompanionEvent::Other(e) => crate::json::opt_string(e) == payload@.field_str("event"@)
                && payload@.field_str("event"@) != Some("sheet"@) && payload@.field_str("event"@)
                != Some("snapshot"@) && payload@.field_str("event"@) != Some("selection"@)
                && payload@.field_str("event"@) != Some("combat"@),
        },
{
    match payload.get_str("event") {
        Some(e) => if str_eq(e, "sheet") || str_eq(e, "snapshot") {
            CompanionEvent::Sheets
        } else if str_eq(e, "selection") {
            CompanionEvent::Selection
        } else if str_eq(e, "combat") {
            CompanionEvent::Combat
        } else {
            CompanionEvent::Other(Some(owned(e)))
        },
        None => CompanionEvent::Other(None),
    }
}

/// What the state sync script reports.
#[derive(Debug, PartialEq)]
pub struct SyncReport {
    /// The REST API module whispers the GM on every script.
    pub notify_enabled: bool,
    /// The companion module's version, when it is active.
    pub companion: Option<String>,
    /// The list of open sheets, when the report has one.
    pub open: Option<Json>,
    /// The selection, when the report has one that is not null.
    pub selection: Option<Json>,
}

/// `r` is what the state sync reply `reply` reports.
pub open spec fn sync_reads_as(reply: JsonValue, r: SyncReport) -> bool {
    &&& r.notify_enabled == (reply.field_bool("notify"@) == Some(true))
    &&& crate::json::opt_string(r.companion) == reply.field_str("module"@)
    &&& match r.open {
            Some(o) => reply.field_array("open"@) is Some && reply.field("open"@) == Some(o@),
            None => reply.field_array("open"@) is None,
        }
    &&& match r.selection {
            Some(s) => reply.field("selection"@) == Some(s@) && !s@.is_null(),
            None => match reply.field("selection"@) {
                Some(v) => v.is_null(),
                None => true,
            },
        }
}

/// Reads the reply of the state sync script.
pub fn sync_report(reply: &Json) -> (r: SyncReport)
    ensures
        sync_reads_as(reply@, r),
{
    let notify_enabled = match reply.get_bool("notify") {
        Some(b) => b,
        None => false,
    };
    let companion = match reply.get_str("module") {
        Some(m) => Some(owned(m)),
        None => None,
    };
    let open = match reply.get("open") {
        Some(o) => if o.as_array().is_some() {
            Some(o.duplicate())
        } else {
            None
        },
        None => None,
    };
    let selection = match reply.get("selection") {
        Some(s) => if s.is_null() {
            None
        } else {
            Some(s.duplicate())
        },
        None => None,
    };
    SyncReport { notify_enabled, companion, open, selection }
}

/// What a state sync reports: the reply's report, or, when the sync failed, a report of
/// no companion module, no open-sheet list and no selection, so that the companion is
/// cleared and the selection reset while the open sheets stay as they are.
pub fn sync_outcome(reply: Option<&Json>) -> (r: SyncReport)
    ensures
        match opt_json(reply) {
            Some(v) => sync_reads_as(v, r),
            None => !r.notify_enabled && r.companion is None && r.open is None && r.selection is None,
        },
{
    match reply {
        Some(v) => sync_report(v),
        None => SyncReport { notify_enabled: false, companion: None, open: None, selection: None },
    }
}

/// Brings the selection in line with a sync report: takes the reported selection, or
/// clears it when the report has none. Says whether that changed it.
pub fn sync_selection(selection: &mut Selection, reported: Option<&Json>) -> (r: bool)
    requires
        old(selection).wf(),
    ensures
        final(selection).wf(),
        (r, final(selection)@) == match opt_json(reported) {
            Some(v) => selection_step(old(selection)@, v),
            None => reset_step(old(selection)@),
        },
{
    match reported {
        Some(v) => selection.apply_value(v),
        None => selection.reset(),
    }
}

/// What new global settings call for: a reconnect when the connection settings differ,
/// a repaint when the appearance settings differ.
pub fn settings_update(current: &Config, merged: &Config) -> (r: (bool, bool))
    ensures
        r.0 == (current.relay_url@ != merged.relay_url@ || current.api_key@ != merged.api_key@
            || current.client_id@ != merged.client_id@),
        r.1 == (current.indicator != merged.indicator || current.border_color@
            != merged.border_color@),
{
    (current.connection_differs(merged), current.appearance_differs(merged))
}

} // verus!

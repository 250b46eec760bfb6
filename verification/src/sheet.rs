//! The Actor Sheet action: a key that toggles an actor's sheet and shows the actor's art,
//! marked while the sheet is open.
use vstd::prelude::*;
use vstd::string::*;
use crate::condition::{ArtFetch, Face};
use crate::config::{Indicator, OFFLINE_COLOR};
use crate::foundry::{art_script, art_script_text, toggle_script, toggle_script_text, ArtSource};
use crate::image::{
    base64_standard, cache_after_lookup, cache_inserted, cache_lookup, svg_data_prefix, svg_frame,
    wrap_svg, ArtEntry, ArtKey, KeySet, TtlCache,
};
use crate::json::{jv_entries, jv_items, lemma_jv_items, opt_json, opt_string, push_member, Json, JsonValue};
use crate::connection::{status_message, status_reply};
use crate::relay::{relay_error_text, ActorRef, RelayError};
use crate::text::{is_blank, owned, str_eq, trimmed};
use crate::textmap::TextMap;

verus! {

/// The settings of one Actor Sheet key.
#[derive(Debug, PartialEq)]
pub struct SheetSettings {
    pub actor_uuid: String,
    pub actor_name: String,
    pub art_source: ArtSource,
    pub show_title: bool,
}

impl View for SheetSettings {
    type V = (Seq<char>, Seq<char>, ArtSource, bool);

    open spec fn view(&self) -> (Seq<char>, Seq<char>, ArtSource, bool) {
        (self.actor_uuid@, self.actor_name@, self.art_source, self.show_title)
    }
}

impl SheetSettings {
    /// The settings of a key that has not been configured.
    pub fn new() -> (r: Self)
        ensures
            r@ == (Seq::<char>::empty(), Seq::<char>::empty(), ArtSource::Token, true),
    {
        SheetSettings {
            actor_uuid: String::new(),
            actor_name: String::new(),
            art_source: ArtSource::Token,
            show_title: true,
        }
    }

    pub fn duplicate(&self) -> (r: Self)
        ensures
            r == *self,
    {
        SheetSettings {
            actor_uuid: self.actor_uuid.clone(),
            actor_name: self.actor_name.clone(),
            art_source: self.art_source,
            show_title: self.show_title,
        }
    }

    pub fn same_as(&self, other: &Self) -> (r: bool)
        ensures
            r == (self@ == other@),
    {
        str_eq(self.actor_uuid.as_str(), other.actor_uuid.as_str()) && str_eq(
            self.actor_name.as_str(),
            other.actor_name.as_str(),
        ) && self.art_source == other.art_source && self.show_title == other.show_title
    }

    /// The cache key of this key's artwork, drawn with the open colour `open_color`.
    pub fn art_key(&self, open_color: &str) -> (r: ArtKey)
        ensures
            r@ == (self.actor_uuid@, self.art_source, open_color@),
    {
        ArtKey { uuid: self.actor_uuid.clone(), source: self.art_source, open_color: owned(open_color) }
    }
}

/// The actors whose sheets are open.
pub open spec fn open_set(m: Map<Seq<char>, bool>) -> Set<Seq<char>> {
    Set::new(|u: Seq<char>| m.contains_key(u) && m[u])
}

/// The uuids that a snapshot lists: its string items.
pub open spec fn snapshot_set(items: Seq<JsonValue>) -> Set<Seq<char>> {
    Set::new(|u: Seq<char>| exists|i: int| 0 <= i < items.len() && items[i].as_str() == Some(u))
}

/// The open-sheet record that a snapshot leaves: each listed uuid open, nothing else known.
pub open spec fn snapshot_map(items: Seq<JsonValue>) -> Map<Seq<char>, bool> {
    Map::new(|u: Seq<char>| snapshot_set(items).contains(u), |u: Seq<char>| true)
}

/// A snapshot: whether it changes which sheets are open, and the record after it.
pub open spec fn snapshot_step(m: Map<Seq<char>, bool>, items: Seq<JsonValue>) -> (bool, Map<
    Seq<char>,
    bool,
>) {
    (open_set(m) != snapshot_set(items), snapshot_map(items))
}

/// One sheet opening or closing: whether it changes the record, and the record after it.
pub open spec fn sheet_step(m: Map<Seq<char>, bool>, uuid: Seq<char>, open: bool) -> (bool, Map<
    Seq<char>,
    bool,
>) {
    (!(m.contains_key(uuid) && m[uuid] == open), m.insert(uuid, open))
}

/// A companion event about sheets: a `sheet` event with a `uuid` and an `open` flag, or a
/// `snapshot` event with an `open` list. Any other event, or one that lacks its members,
/// changes nothing.
pub open spec fn sheet_event_step(m: Map<Seq<char>, bool>, payload: JsonValue) -> (bool, Map<
    Seq<char>,
    bool,
>) {
    match payload.field_str("event"@) {
        Some(e) => if e == "sheet"@ {
            match (payload.field_str("uuid"@), payload.field_bool("open"@)) {
                (Some(u), Some(o)) => sheet_step(m, u, o),
                _ => (false, m),
            }
        } else if e == "snapshot"@ {
            match payload.field_array("open"@) {
                Some(items) => snapshot_step(m, items),
                None => (false, m),
            }
        } else {
            (false, m)
        },
        None => (false, m),
    }
}

/// Which actors' sheets are open in the GM's browser, as far as the plugin knows.
pub struct OpenSheets {
    pub sheets: TextMap<bool>,
}

impl View for OpenSheets {
    type V = Map<Seq<char>, bool>;

    open spec fn view(&self) -> Map<Seq<char>, bool> {
        self.sheets.view()
    }
}

impl OpenSheets {
    pub open spec fn wf(&self) -> bool {
        self.sheets.wf()
    }

    pub fn new() -> (r: Self)
        ensures
            r.wf(),
            r@ == Map::<Seq<char>, bool>::empty(),
    {
        OpenSheets { sheets: TextMap::new() }
    }

    /// Whether the sheet of `uuid` is known to be open.
    pub fn is_open(&self, uuid: &str) -> (r: bool)
        requires
            self.wf(),
        ensures
            r == open_set(self@).contains(uuid@),
    {
        match self.sheets.get(uuid) {
            Some(open) => *open,
            None => false,
        }
    }

    /// Records that the sheet of `uuid` is open or closed, saying whether that changed
    /// the record.
    pub fn set_open(&mut self, uuid: &str, open: bool) -> (r: bool)
        requires
            old(self).wf(),
        ensures
            final(self).wf(),
            (r, final(self)@) == sheet_step(old(self)@, uuid@, open),
    {
        match self.sheets.insert(owned(uuid), open) {
            Some(previous) => previous != open,
            None => true,
        }
    }

    /// Replaces the record by a snapshot of the open sheets, saying whether that changes
    /// which sheets are open.
    pub fn apply_snapshot(&mut self, uuids: &Vec<Json>) -> (r: bool)
        requires
            old(self).wf(),
        ensures
            final(self).wf(),
            (r, final(self)@) == snapshot_step(old(self)@, jv_items(uuids@)),
    {
        proof {
            lemma_jv_items(uuids@);
        }
        let ghost items = jv_items(uuids@);
        let mut next: TextMap<bool> = TextMap::new();
        let mut i: usize = 0;
        while i < uuids.len()
            invariant
                items == jv_items(uuids@),
                items.len() == uuids@.len(),
                forall|k: int| 0 <= k < uuids@.len() ==> #[trigger] items[k] == uuids@[k]@,
                i <= uuids@.len(),
                next.wf(),
                next.view() == snapshot_map(items.take(i as int)),
            decreases uuids@.len() - i,
        {
            let ghost before = items.take(i as int);
            let ghost after = items.take(i + 1);
            match uuids[i].as_str() {
                Some(u) => {
                    let _ = next.insert(owned(u), true);
                    assert(next.view() =~= snapshot_map(after)) by {
                        assert forall|q: Seq<char>| #[trigger] snapshot_set(after).contains(q) == (
                        snapshot_set(before).contains(q) || q == u@) by {
                            if snapshot_set(after).contains(q) {
                                let j = choose|j: int|
                                    0 <= j < after.len() && after[j].as_str() == Some(q);
                                if j < i {
                                    assert(before[j] == after[j]);
                                }
                            }
                            if snapshot_set(before).contains(q) {
                                let j = choose|j: int|
                                    0 <= j < before.len() && before[j].as_str() == Some(q);
                                assert(after[j] == before[j]);
                            }
                            if q == u@ {
                                assert(after[i as int].as_str() == Some(q));
                            }
                        }
                    }
                },
                None => {
                    assert(next.view() =~= snapshot_map(after)) by {
                        assert forall|q: Seq<char>| #[trigger] snapshot_set(after).contains(q)
                            == snapshot_set(before).contains(q) by {
                            if snapshot_set(after).contains(q) {
                                let j = choose|j: int|
                                    0 <= j < after.len() && after[j].as_str() == Some(q);
                                assert(j != i);
                                assert(before[j] == after[j]);
                            }
                            if snapshot_set(before).contains(q) {
                                let j = choose|j: int|
                                    0 <= j < before.len() && before[j].as_str() == Some(q);
                                assert(after[j] == before[j]);
                            }
                        }
                    }
                },
            }
            i = i + 1;
        }
        assert(items.take(uuids@.len() as int) =~= items);
        let ghost target = snapshot_set(items);
        // Does some sheet recorded open or closed disagree with the snapshot?
        let n = self.sheets.len();
        let mut changed = false;
        let mut j: usize = 0;
        while j < n && !changed
            invariant
                self.wf(),
                next.wf(),
                next.view() == snapshot_map(items),
                target == snapshot_set(items),
                n == self.sheets.entry_seq().len(),
                j <= n,
                !changed ==> forall|k: int|
                    0 <= k < j ==> (#[trigger] self.sheets.entry_seq()[k]).1 == target.contains(
                        self.sheets.entry_seq()[k].0@,
                    ),
                changed ==> open_set(self@) != target,
            decreases n - j,
        {
            let (u, open) = self.sheets.entry(j);
            let listed = next.get(u).is_some();
            if *open != listed {
                proof {
                    if *open {
                        assert(open_set(self@).contains(u@));
                        assert(!target.contains(u@));
                    } else {
                        assert(!open_set(self@).contains(u@));
                        assert(target.contains(u@));
                    }
                }
                changed = true;
            }
            j = j + 1;
        }
        // Is some listed sheet not recorded open?
        let m = next.len();
        let mut k: usize = 0;
        while k < m && !changed
            invariant
                self.wf(),
                next.wf(),
                next.view() == snapshot_map(items),
                target == snapshot_set(items),
                m == next.entry_seq().len(),
                k <= m,
                n == self.sheets.entry_seq().len(),
                !changed ==> forall|a: int|
                    0 <= a < n ==> (#[trigger] self.sheets.entry_seq()[a]).1 == target.contains(
                        self.sheets.entry_seq()[a].0@,
                    ),
                !changed ==> forall|q: int|
                    0 <= q < k ==> open_set(self@).contains(
                        (#[trigger] next.entry_seq()[q]).0@,
                    ),
                changed ==> open_set(self@) != target,
            decreases m - k,
        {
            let (u, _) = next.entry(k);
            if !self.is_open(u) {
                assert(target.contains(u@));
                changed = true;
            }
            k = k + 1;
        }
        proof {
            if !changed {
                assert forall|q: Seq<char>| #[trigger] open_set(self@).contains(q) == target.contains(q) by {
                    if open_set(self@).contains(q) {
                        self.sheets.lemma_entries_cover(q);
                        let a = choose|a: int|
                            0 <= a < self.sheets.entry_seq().len() && #[trigger] self.sheets.entry_seq()[a].0@ == q;
                        self.sheets.lemma_entry_value(a);
                        assert(self.sheets.entry_seq()[a].1 == target.contains(q));
                    }
                    if target.contains(q) {
                        next.lemma_entries_cover(q);
                        let a = choose|a: int|
                            0 <= a < next.entry_seq().len() && #[trigger] next.entry_seq()[a].0@ == q;
                        assert(open_set(self@).contains(next.entry_seq()[a].0@));
                    }
                }
                assert(open_set(self@) =~= target);
            }
        }
        self.sheets = next;
        changed
    }

    /// Applies a companion event about sheets, saying whether it changed the record.
    pub fn apply_payload(&mut self, payload: &Json) -> (r: bool)
        requires
            old(self).wf(),
        ensures
            final(self).wf(),
            (r, final(self)@) == sheet_event_step(old(self)@, payload@),
    {
        let event = match payload.get_str("event") {
            Some(e) => e,
            None => return false,
        };
        if str_eq(event, "sheet") {
            match (payload.get_str("uuid"), payload.get_bool("open")) {
                (Some(uuid), Some(open)) => self.set_open(uuid, open),
                _ => false,
            }
        } else if str_eq(event, "snapshot") {
            match payload.get_array("open") {
                Some(uuids) => self.apply_snapshot(uuids),
                None => false,
            }
        } else {
            false
        }
    }
}

/// After a snapshot, exactly the listed sheets count as open.
pub proof fn law_snapshot_sets_open(m: Map<Seq<char>, bool>, items: Seq<JsonValue>, uuid: Seq<char>)
    ensures
        open_set(snapshot_step(m, items).1).contains(uuid) == snapshot_set(items).contains(uuid),
{
}

/// The same snapshot twice changes nothing the second time.
pub proof fn law_snapshot_idempotent(m: Map<Seq<char>, bool>, items: Seq<JsonValue>)
    ensures
        !snapshot_step(snapshot_step(m, items).1, items).0,
{
    assert(open_set(snapshot_map(items)) =~= snapshot_set(items));
}

/// After a sheet event, the sheet counts as open exactly when the event says so, and the
/// same event again changes nothing.
pub proof fn law_sheet_event(m: Map<Seq<char>, bool>, uuid: Seq<char>, open: bool)
    ensures
        open_set(sheet_step(m, uuid, open).1).contains(uuid) == open,
        !sheet_step(sheet_step(m, uuid, open).1, uuid, open).0,
{
}

/// The name an Actor Sheet key shows: the artwork's name, else the name in the settings,
/// else a question mark.
pub open spec fn sheet_name(settings: &SheetSettings, art: Option<&ArtEntry>) -> Seq<char> {
    if art is Some && art->0.name@.len() > 0 {
        art->0.name@
    } else if settings.actor_name@.len() > 0 {
        settings.actor_name@
    } else {
        "?"@
    }
}

/// The colour of the SVG border: grey offline, the open colour while open, none while closed.
pub open spec fn svg_color(open: bool, online: bool, open_color: Seq<char>) -> Option<Seq<char>> {
    if !online {
        Some(OFFLINE_COLOR@)
    } else if open {
        Some(open_color)
    } else {
        None
    }
}

/// A title marked as belonging to an open sheet.
pub open spec fn marked_title(title: Option<Seq<char>>, open: bool) -> Option<Seq<char>> {
    match title {
        Some(t) => Some(if open {
            "● "@ + t
        } else {
            t
        }),
        None => if open {
            Some("●"@)
        } else {
            None
        },
    }
}

/// How a key shows artwork with a title, marking an open sheet by the indicator.
pub open spec fn styled_view(
    art: &ArtEntry,
    open: bool,
    online: bool,
    title: Option<Seq<char>>,
    indicator: Indicator,
    open_color: Seq<char>,
) -> (Option<Seq<char>>, Option<Seq<char>>) {
    match indicator {
        Indicator::Border => (Some(art.variant_spec(open, online)), title),
        Indicator::Svg => (
            Some(svg_data_prefix() + base64_standard(
                svg_frame(art.closed@, svg_color(open, online, open_color)),
            )),
            title,
        ),
        Indicator::Title => (Some(art.closed@), marked_title(title, open)),
    }
}

/// Shows artwork with a title, marking an open sheet by the indicator.
pub fn styled_face(
    art: &ArtEntry,
    open: bool,
    online: bool,
    title: Option<String>,
    indicator: Indicator,
    open_color: &str,
) -> (r: Face)
    requires
        art.closed@.len() <= usize::MAX / 64,
        open_color@.len() <= usize::MAX / 64,
    ensures
        r@ == styled_view(art, open, online, opt_string(title), indicator, open_color@),
{
    match indicator {
        Indicator::Border => Face { image: Some(owned(art.variant(open, online))), title },
        Indicator::Svg => {
            let colour = if !online {
                Some(OFFLINE_COLOR)
            } else if open {
                Some(open_color)
            } else {
                None
            };
            proof {
                reveal_strlit("#6b6b6b");
            }
            Face { image: Some(wrap_svg(art.closed.as_str(), colour)), title }
        },
        Indicator::Title => {
            let title = match title {
                Some(t) => if open {
                    let mut marked = owned("● ");
                    marked.append(t.as_str());
                    Some(marked)
                } else {
                    Some(t)
                },
                None => if open {
                    Some(owned("●"))
                } else {
                    None
                },
            };
            Face { image: Some(art.closed.clone()), title }
        },
    }
}

/// What an Actor Sheet key shows.
pub open spec fn sheet_face_view(
    settings: &SheetSettings,
    art: Option<&ArtEntry>,
    open: bool,
    online: bool,
    indicator: Indicator,
    open_color: Seq<char>,
) -> (Option<Seq<char>>, Option<Seq<char>>) {
    if trimmed(settings.actor_uuid@).len() == 0 {
        (None, Some("Pick actor"@))
    } else {
        let name = sheet_name(settings, art);
        match art {
            None => (None, Some(name)),
            Some(a) => styled_view(
                a,
                open,
                online,
                if settings.show_title {
                    Some(name)
                } else {
                    None
                },
                indicator,
                open_color,
            ),
        }
    }
}

/// What an Actor Sheet key shows, given its cached artwork, whether the sheet is open,
/// whether Foundry can be reached, and the indicator settings.
pub fn sheet_face(
    settings: &SheetSettings,
    art: Option<&ArtEntry>,
    open: bool,
    online: bool,
    indicator: Indicator,
    open_color: &str,
) -> (r: Face)
    requires
        art matches Some(a) ==> a.closed@.len() <= usize::MAX / 64,
        open_color@.len() <= usize::MAX / 64,
    ensures
        r@ == sheet_face_view(settings, art, open, online, indicator, open_color@),
{
    if is_blank(settings.actor_uuid.as_str()) {
        return Face { image: None, title: Some(owned("Pick actor")) };
    }
    let name = match art {
        Some(a) if a.name.unicode_len() > 0 => a.name.clone(),
        _ => if settings.actor_name.unicode_len() > 0 {
            settings.actor_name.clone()
        } else {
            owned("?")
        },
    };
    match art {
        None => Face { image: None, title: Some(name) },
        Some(a) => {
            let title = if settings.show_title {
                Some(name)
            } else {
                None
            };
            styled_face(a, open, online, title, indicator, open_color)
        },
    }
}

/// How each indicator marks the sheet's state. Border: the grey rendering when Foundry
/// cannot be reached, else the open rendering while the sheet is open, else the closed
/// one. SVG: the closed rendering framed in grey when Foundry cannot be reached, whether
/// or not the sheet is open, else in the open colour while the sheet is open, else
/// unframed. Title: the closed rendering, with the title marked by a dot while the sheet
/// is open. Border and SVG leave the title as it is.
pub proof fn law_indicators(
    art: &ArtEntry,
    open: bool,
    online: bool,
    title: Option<Seq<char>>,
    open_color: Seq<char>,
)
    ensures
        !online ==> styled_view(art, open, online, title, Indicator::Border, open_color) == (
            Some(art.offline@),
            title,
        ),
        online && open ==> styled_view(art, open, online, title, Indicator::Border, open_color) == (
            Some(art.open@),
            title,
        ),
        online && !open ==> styled_view(art, open, online, title, Indicator::Border, open_color)
            == (Some(art.closed@), title),
        !online ==> styled_view(art, open, online, title, Indicator::Svg, open_color) == (
            Some(svg_data_prefix() + base64_standard(svg_frame(art.closed@, Some(OFFLINE_COLOR@)))),
            title,
        ),
        online && open ==> styled_view(art, open, online, title, Indicator::Svg, open_color) == (
            Some(svg_data_prefix() + base64_standard(svg_frame(art.closed@, Some(open_color)))),
            title,
        ),
        online && !open ==> styled_view(art, open, online, title, Indicator::Svg, open_color) == (
            Some(svg_data_prefix() + base64_standard(svg_frame(art.closed@, None))),
            title,
        ),
        styled_view(art, open, online, title, Indicator::Title, open_color).0 == Some(art.closed@),
        !open ==> styled_view(art, open, online, title, Indicator::Title, open_color).1 == title,
        open ==> styled_view(art, open, online, title, Indicator::Title, open_color).1 == Some(
            match title {
                Some(t) => "● "@ + t,
                None => "●"@,
            },
        ),
{
}

/// An Actor Sheet key with no actor asks for one; with an actor but no artwork yet it
/// shows the name alone; with artwork it shows the artwork as the indicator marks it, titled
/// with the name when titles are shown. The name is the artwork's, else the one in the
/// settings, else a question mark.
pub proof fn law_sheet_face(
    settings: &SheetSettings,
    art: Option<&ArtEntry>,
    open: bool,
    online: bool,
    indicator: Indicator,
    open_color: Seq<char>,
)
    ensures
        ({
            let face = sheet_face_view(settings, art, open, online, indicator, open_color);
            let name = if art is Some && art->0.name@.len() > 0 {
                art->0.name@
            } else if settings.actor_name@.len() > 0 {
                settings.actor_name@
            } else {
                "?"@
            };
            let title = if settings.show_title {
                Some(name)
            } else {
                None
            };
            &&& trimmed(settings.actor_uuid@).len() == 0 ==> face == (None::<Seq<char>>, Some("Pick actor"@))
            &&& trimmed(settings.actor_uuid@).len() > 0 && art is None ==> face == (None::<Seq<char>>, Some(name))
            &&& trimmed(settings.actor_uuid@).len() > 0 && art is Some ==> face == styled_view(
                art->0,
                open,
                online,
                title,
                indicator,
                open_color,
            )
        }),
{
}

/// An artwork reply without an error that says whether the sheet is open records exactly
/// that, for a closed sheet as for an open one, and nothing about other sheets; a reply
/// with an error or without the flag, or no reply, leaves the record as it was.
pub proof fn law_art_reply_records_open(m: Map<Seq<char>, bool>, uuid: Seq<char>, reply: JsonValue, other: Seq<char>)
    requires
        other != uuid,
    ensures
        reply.field_str("error"@) is None && reply.field_bool("isOpen"@) is Some ==> {
            let after = sheet_open_after_art(m, uuid, Some(reply));
            let b = reply.field_bool("isOpen"@)->0;
            &&& after.contains_key(uuid) && after[uuid] == b
            &&& open_set(after).contains(uuid) == b
            &&& open_set(after).contains(other) == open_set(m).contains(other)
        },
        reply.field_str("error"@) is Some ==> sheet_open_after_art(m, uuid, Some(reply)) == m,
        reply.field_bool("isOpen"@) is None ==> sheet_open_after_art(m, uuid, Some(reply)) == m,
        sheet_open_after_art(m, uuid, None) == m,
{
}

/// What the artwork script's reply says: the artwork and, when it reports it, whether
/// the sheet is open.
#[derive(Debug, PartialEq)]
pub struct SheetArtReply {
    pub art: ArtFetch<ArtEntry>,
    pub is_open: Option<bool>,
}

/// Reads the reply of the artwork script: its `error` if it has one; else the renderings,
/// unless the closed rendering is missing, and the `isOpen` flag.
pub fn sheet_art_from_reply(reply: &Json) -> (r: SheetArtReply)
    ensures
        match r.art {
            ArtFetch::Failed(e) => reply@.field_str("error"@) == Some(e@) && r.is_open is None,
            ArtFetch::Empty => reply@.field_str("error"@) is None && reply@.str_or_empty(
                "closed"@,
            ).len() == 0 && r.is_open == reply@.field_bool("isOpen"@),
            ArtFetch::Ready(art) => reply@.field_str("error"@) is None && art.closed@
                == reply@.str_or_empty("closed"@) && art.open@ == reply@.str_or_empty("open"@)
                && art.offline@ == reply@.str_or_empty("offline"@) && art.name@
                == reply@.str_or_empty("name"@) && art.closed@.len() > 0 && r.is_open
                == reply@.field_bool("isOpen"@),
        },
{
    if let Some(error) = reply.get_str("error") {
        return SheetArtReply { art: ArtFetch::Failed(owned(error)), is_open: None };
    }
    let entry = ArtEntry {
        closed: reply.get_string_or_empty("closed"),
        open: reply.get_string_or_empty("open"),
        offline: reply.get_string_or_empty("offline"),
        name: reply.get_string_or_empty("name"),
    };
    let art = if entry.closed.unicode_len() == 0 {
        ArtFetch::Empty
    } else {
        ArtFetch::Ready(entry)
    };
    SheetArtReply { art, is_open: reply.get_bool("isOpen") }
}

/// The artwork key of a key's settings with the open colour `open_color`.
pub open spec fn sheet_art_key(settings: &SheetSettings, open_color: Seq<char>) -> (
    Seq<char>,
    ArtSource,
    Seq<char>,
) {
    (settings.actor_uuid@, settings.art_source, open_color)
}

/// Decides whether a key's artwork is to be fetched: not when the key has no actor, when
/// fresh artwork is cached (the lookup refreshes it, or drops it when stale) or when a
/// fetch of it is already running. Otherwise it marks the fetch as running and gives the
/// script to run.
pub fn sheet_art_request(
    settings: &SheetSettings,
    open_color: &str,
    art: &mut TtlCache<ArtKey, ArtEntry>,
    inflight: &mut KeySet<ArtKey>,
    now: u64,
) -> (r: Option<String>)
    requires
        old(art).wf(),
        old(inflight).wf(),
    ensures
        final(art).wf(),
        final(inflight).wf(),
        r is None <==> (trimmed(settings.actor_uuid@).len() == 0 || cache_lookup(
            old(art).entries(),
            sheet_art_key(settings, open_color@),
            now,
        ) is Some || old(inflight)@.contains(sheet_art_key(settings, open_color@))),
        final(art).entries() == if trimmed(settings.actor_uuid@).len() == 0 {
            old(art).entries()
        } else {
            cache_after_lookup(old(art).entries(), sheet_art_key(settings, open_color@), now)
        },
        r matches Some(s) ==> s@ == art_script_text(
            settings.actor_uuid@,
            settings.art_source,
            open_color@,
            OFFLINE_COLOR@,
        ) && final(inflight)@ == old(inflight)@.insert(sheet_art_key(settings, open_color@)),
        r is None ==> final(inflight)@ == old(inflight)@,
{
    if is_blank(settings.actor_uuid.as_str()) {
        return None;
    }
    let key = settings.art_key(open_color);
    if art.get(&key, now).is_some() {
        return None;
    }
    if !inflight.insert(key) {
        assert(inflight@ =~= old(inflight)@);
        return None;
    }
    Some(art_script(settings.actor_uuid.as_str(), settings.art_source, open_color, OFFLINE_COLOR))
}

/// The reply holds artwork to cache: no error, and a closed rendering.
pub open spec fn sheet_art_ready(reply: JsonValue) -> bool {
    reply.field_str("error"@) is None && reply.str_or_empty("closed"@).len() > 0
}

/// `e` holds the renderings and the name that `reply` gives.
pub open spec fn sheet_entry_of(e: ArtEntry, reply: JsonValue) -> bool {
    &&& e.closed@ == reply.str_or_empty("closed"@)
    &&& e.open@ == reply.str_or_empty("open"@)
    &&& e.offline@ == reply.str_or_empty("offline"@)
    &&& e.name@ == reply.str_or_empty("name"@)
}

/// The open-sheet record after an artwork reply: set from its `isOpen` flag when it has
/// one and no error.
pub open spec fn sheet_open_after_art(m: Map<Seq<char>, bool>, uuid: Seq<char>, reply: Option<JsonValue>) -> Map<Seq<char>, bool> {
    match reply {
        Some(v) => if v.field_str("error"@) is None {
            match v.field_bool("isOpen"@) {
                Some(b) => sheet_step(m, uuid, b).1,
                None => m,
            }
        } else {
            m
        },
        None => m,
    }
}

/// Takes in the outcome of an artwork fetch for `key` (the reply, or none when the
/// request failed): the fetch stops running, ready artwork is cached at `now`, and the
/// sheet of `uuid` is recorded open or closed as the reply says. Says how the reply read.
pub fn sheet_art_received(
    key: ArtKey,
    uuid: &str,
    reply: Option<&Json>,
    art: &mut TtlCache<ArtKey, ArtEntry>,
    open: &mut OpenSheets,
    inflight: &mut KeySet<ArtKey>,
    now: u64,
) -> (r: Option<ArtFetch<()>>)
    requires
        old(art).wf(),
        old(open).wf(),
        old(inflight).wf(),
    ensures
        final(art).wf(),
        final(open).wf(),
        final(inflight).wf(),
        final(inflight)@ == old(inflight)@.remove(key@),
        match opt_json(reply) {
            Some(v) => if sheet_art_ready(v) {
                exists|e: ArtEntry|
                    #[trigger] sheet_entry_of(e, v) && final(art).entries() == cache_inserted(
                        old(art).entries(),
                        key@,
                        e,
                        now,
                    )
            } else {
                final(art).entries() == old(art).entries()
            },
            None => final(art).entries() == old(art).entries(),
        },
        final(open)@ == sheet_open_after_art(old(open)@, uuid@, opt_json(reply)),
        match r {
            None => reply is None,
            Some(ArtFetch::Failed(e)) => opt_json(reply) matches Some(v) && v.field_str("error"@)
                == Some(e@),
            Some(ArtFetch::Empty) => opt_json(reply) matches Some(v) && v.field_str("error"@) is None
                && !sheet_art_ready(v),
            Some(ArtFetch::Ready(_)) => opt_json(reply) matches Some(v) && sheet_art_ready(v),
        },
{
    inflight.remove(&key);
    match reply {
        None => None,
        Some(v) => {
            let parsed = sheet_art_from_reply(v);
            match parsed.is_open {
                Some(o) => {
                    let _ = open.set_open(uuid, o);
                },
                None => {},
            }
            match parsed.art {
                ArtFetch::Failed(e) => Some(ArtFetch::Failed(e)),
                ArtFetch::Empty => Some(ArtFetch::Empty),
                ArtFetch::Ready(entry) => {
                    let ghost g = entry;
                    assert(sheet_entry_of(g, v@));
                    art.insert(key, entry, now);
                    Some(ArtFetch::Ready(()))
                },
            }
        },
    }
}

/// The script a press runs: none, and an alert instead, when the key has no actor.
pub fn sheet_press(settings: &SheetSettings) -> (r: Option<String>)
    ensures
        trimmed(settings.actor_uuid@).len() == 0 ==> r is None,
        trimmed(settings.actor_uuid@).len() > 0 ==> (r matches Some(s) && s@ == toggle_script_text(
            settings.actor_uuid@,
        )),
{
    if is_blank(settings.actor_uuid.as_str()) {
        None
    } else {
        Some(toggle_script(settings.actor_uuid.as_str()))
    }
}

/// What a toggle reply says: its `error`, or whether the sheet is now open (closed when
/// the reply does not say).
pub fn toggle_outcome(reply: &Json) -> (r: Result<bool, String>)
    ensures
        match reply@.field_str("error"@) {
            Some(e) => r matches Err(m) && m@ == e,
            None => r == Ok::<bool, String>(
                match reply@.field_bool("open"@) {
                    Some(b) => b,
                    None => false,
                },
            ),
        },
{
    if let Some(error) = reply.get_str("error") {
        return Err(owned(error));
    }
    match reply.get_bool("open") {
        Some(open) => Ok(open),
        None => Ok(false),
    }
}

/// An actor as the property inspector lists it.
pub open spec fn actor_value(a: (Seq<char>, Seq<char>)) -> JsonValue {
    JsonValue::Object(seq![("uuid"@, JsonValue::Str(a.0)), ("name"@, JsonValue::Str(a.1))])
}

/// The reply to the property inspector's request for the list of actors.
pub open spec fn actors_reply_view(result: Result<Seq<(Seq<char>, Seq<char>)>, Seq<char>>) -> JsonValue {
    match result {
        Ok(actors) => status_reply("actors"@, "ok"@, "actors"@, JsonValue::Array(actors.map_values(|a: (Seq<char>, Seq<char>)| actor_value(a)))),
        Err(m) => status_reply("actors"@, "error"@, "message"@, JsonValue::Str(m)),
    }
}

/// The actor list reply keeps the search's order: its `actors` member has one item per
/// actor, the i-th giving the i-th actor's uuid and name. A failed search is answered with
/// an error status and its message.
pub proof fn law_actors_reply(actors: Seq<(Seq<char>, Seq<char>)>, message: Seq<char>)
    ensures
        actors_reply_view(Ok(actors)).field_str("event"@) == Some("actors"@),
        actors_reply_view(Ok(actors)).field_str("status"@) == Some("ok"@),
        actors_reply_view(Ok(actors)).field_array("actors"@) matches Some(items) && items.len()
            == actors.len() && forall|i: int|
            0 <= i < actors.len() ==> (#[trigger] items[i]).field_str("uuid"@) == Some(actors[i].0)
                && items[i].field_str("name"@) == Some(actors[i].1),
        actors_reply_view(Err(message)).field_str("event"@) == Some("actors"@),
        actors_reply_view(Err(message)).field_str("status"@) == Some("error"@),
        actors_reply_view(Err(message)).field_str("message"@) == Some(message),
{
    reveal_strlit("event");
    reveal_strlit("status");
    reveal_strlit("actors");
    reveal_strlit("message");
    reveal_strlit("uuid");
    reveal_strlit("name");
    reveal_with_fuel(crate::json::entries_get, 4);
    let items = actors.map_values(|a: (Seq<char>, Seq<char>)| actor_value(a));
    assert forall|i: int| 0 <= i < actors.len() implies (#[trigger] items[i]).field_str("uuid"@)
        == Some(actors[i].0) && items[i].field_str("name"@) == Some(actors[i].1) by {
        assert(items[i] == actor_value(actors[i]));
        let es = seq![("uuid"@, JsonValue::Str(actors[i].0)), ("name"@, JsonValue::Str(actors[i].1))];
        assert(actor_value(actors[i]) == JsonValue::Object(es));
        assert(es[0].0 == "uuid"@);
        assert(es.drop_first()[0].0 == "name"@);
        reveal_strlit("uuid");
        reveal_strlit("name");
        assert("uuid"@[0] == 'u' && "name"@[0] == 'n');
        assert("uuid"@ != "name"@);
        assert(crate::json::entries_get(es, "uuid"@) == Some(JsonValue::Str(actors[i].0)));
        assert(crate::json::entries_get(es.drop_first(), "name"@) == Some(JsonValue::Str(actors[i].1)));
        assert(crate::json::entries_get(es, "name"@) == Some(JsonValue::Str(actors[i].1)));
    }
    let v = actors_reply_view(Ok(actors));
    assert(v == status_reply("actors"@, "ok"@, "actors"@, JsonValue::Array(items)));
    let es = seq![
        ("event"@, JsonValue::Str("actors"@)),
        ("status"@, JsonValue::Str("ok"@)),
        ("actors"@, JsonValue::Array(items)),
    ];
    assert(v == JsonValue::Object(es));
    assert("event"@.len() == 5 && "actors"@.len() == 6 && "status"@.len() == 6);
    assert("status"@[0] == 's' && "actors"@[0] == 'a');
    assert("event"@ != "actors"@);
    assert("status"@ != "actors"@);
    assert(es.drop_first().drop_first()[0] == ("actors"@, JsonValue::Array(items)));
    assert(crate::json::entries_get(es.drop_first().drop_first(), "actors"@) == Some(JsonValue::Array(items)));
    assert(crate::json::entries_get(es.drop_first(), "actors"@) == Some(JsonValue::Array(items)));
    assert(v.field("actors"@) == Some(JsonValue::Array(items)));
}

/// The reply to the property inspector's request for the list of actors, from the
/// outcome of the actor search.
pub fn actors_reply(result: &Result<Vec<ActorRef>, RelayError>) -> (r: Json)
    ensures
        r@ == actors_reply_view(
            match result {
                Ok(actors) => Ok(actors@.map_values(|a: ActorRef| a@)),
                Err(e) => Err(relay_error_text(e)),
            },
        ),
{
    match result {
        Ok(actors) => {
            let mut items: Vec<Json> = Vec::new();
            let mut i: usize = 0;
            while i < actors.len()
                invariant
                    i <= actors@.len(),
                    items@.len() == i,
                    forall|k: int| 0 <= k < i ==> (#[trigger] items@[k])@ == actor_value(actors@[k]@),
                decreases actors@.len() - i,
            {
                let mut entries: Vec<(String, Json)> = Vec::new();
                push_member(&mut entries, "uuid", Json::string(actors[i].uuid.as_str()));
                push_member(&mut entries, "name", Json::string(actors[i].name.as_str()));
                assert(jv_entries(entries@) =~= seq![("uuid"@, JsonValue::Str(actors@[i as int].uuid@)), ("name"@, JsonValue::Str(actors@[i as int].name@))]);
                items.push(Json::Object(entries));
                i = i + 1;
            }
            proof {
                lemma_jv_items(items@);
                assert(jv_items(items@) =~= actors@.map_values(|a: ActorRef| a@).map_values(|a: (Seq<char>, Seq<char>)| actor_value(a)));
            }
            status_message("actors", "ok", "actors", Json::Array(items))
        },
        Err(e) => status_message("actors", "error", "message", Json::Str(e.message())),
    }
}

/// Records the settings of a key, saying whether they are new or differ from those recorded.
pub fn register_sheet(instances: &mut TextMap<SheetSettings>, id: &str, settings: &SheetSettings) -> (r: bool)
    requires
        old(instances).wf(),
    ensures
        final(instances).wf(),
        final(instances).view() == old(instances).view().insert(id@, *settings),
        r == !(old(instances).view().contains_key(id@) && old(instances).view()[id@]@ == settings@),
{
    match instances.insert(owned(id), settings.duplicate()) {
        Some(previous) => !previous.same_as(settings),
        None => true,
    }
}

} // verus!

//! The Condition action: a key bound to one condition, showing whether it is on the
//! tokens selected in the GM's browser, and toggling it there.
use vstd::prelude::*;
use vstd::string::*;
use crate::config::OFFLINE_COLOR;
use crate::foundry::{
    companion_call_text, condition_art_call, condition_art_script, toggle_condition_call,
    toggle_condition_script,
};
use crate::image::{
    cache_after_lookup, cache_inserted, cache_lookup, ConditionArt, ConditionKey, KeySet, TtlCache,
};
use crate::json::{jv_entries, lemma_jv_entries, opt_json, opt_string, Json, JsonValue};
use crate::connection::{status_message, status_reply};
use crate::relay::{relay_error_text, RelayError};
use crate::text::{is_blank, owned, str_eq, trim, trimmed};
use crate::textmap::TextMap;

verus! {

/// The settings of one Condition key.
#[derive(Debug, PartialEq)]
pub struct ConditionSettings {
    pub status_id: String,
    pub status_name: String,
    pub show_title: bool,
}

impl View for ConditionSettings {
    type V = (Seq<char>, Seq<char>, bool);

    open spec fn view(&self) -> (Seq<char>, Seq<char>, bool) {
        (self.status_id@, self.status_name@, self.show_title)
    }
}

impl ConditionSettings {
    /// The settings of a key that has not been configured.
    pub fn new() -> (r: Self)
        ensures
            r@ == (Seq::<char>::empty(), Seq::<char>::empty(), true),
    {
        ConditionSettings { status_id: String::new(), status_name: String::new(), show_title: true }
    }

    pub fn duplicate(&self) -> (r: Self)
        ensures
            r == *self,
    {
        ConditionSettings {
            status_id: self.status_id.clone(),
            status_name: self.status_name.clone(),
            show_title: self.show_title,
        }
    }

    pub fn same_as(&self, other: &Self) -> (r: bool)
        ensures
            r == (self@ == other@),
    {
        str_eq(self.status_id.as_str(), other.status_id.as_str()) && str_eq(
            self.status_name.as_str(),
            other.status_name.as_str(),
        ) && self.show_title == other.show_title
    }

    /// The cache key of this key's artwork, drawn with the accent colour `accent`.
    pub fn art_key(&self, accent: &str) -> (r: ConditionKey)
        ensures
            r@ == (self.status_id@, accent@),
    {
        ConditionKey { id: self.status_id.clone(), accent: owned(accent) }
    }
}

/// The tokens selected in the GM's browser: how many, and on how many of them each
/// condition is.
pub struct Selection {
    pub count: u32,
    pub statuses: TextMap<u32>,
}

impl View for Selection {
    type V = (u32, Map<Seq<char>, u32>);

    open spec fn view(&self) -> (u32, Map<Seq<char>, u32>) {
        (self.count, self.statuses.view())
    }
}

/// No tokens selected.
pub open spec fn empty_selection() -> (u32, Map<Seq<char>, u32>) {
    (0, Map::empty())
}

/// The per-condition counts of an event's `statuses` object: each member whose value is a
/// count that fits in 32 bits, a later member replacing an earlier one of the same name.
pub open spec fn status_counts(es: Seq<(Seq<char>, JsonValue)>) -> Map<Seq<char>, u32>
    decreases es.len(),
{
    if es.len() == 0 {
        Map::empty()
    } else {
        let m = status_counts(es.drop_last());
        match es.last().1.as_u64() {
            Some(n) => if n <= u32::MAX {
                m.insert(es.last().0, n as u32)
            } else {
                m
            },
            None => m,
        }
    }
}

/// The selection that an event describes: a `count` that fits in 32 bits and a
/// `statuses` object.
pub open spec fn selection_of(v: JsonValue) -> Option<(u32, Map<Seq<char>, u32>)> {
    match v.field("count"@) {
        Some(c) => match c.as_u64() {
            Some(n) => if n <= u32::MAX {
                match v.field("statuses"@) {
                    Some(JsonValue::Object(es)) => Some((n as u32, status_counts(es))),
                    _ => None,
                }
            } else {
                None
            },
            None => None,
        },
        None => None,
    }
}

/// Whether a selection event changes the selection, and the selection after it.
/// An event that does not describe a selection changes nothing.
pub open spec fn selection_step(
    current: (u32, Map<Seq<char>, u32>),
    event: JsonValue,
) -> (bool, (u32, Map<Seq<char>, u32>)) {
    match selection_of(event) {
        Some(next) => (current != next, next),
        None => (false, current),
    }
}

impl Selection {
    pub open spec fn wf(&self) -> bool {
        self.statuses.wf()
    }

    /// No tokens selected.
    pub fn new() -> (r: Self)
        ensures
            r.wf(),
            r@ == empty_selection(),
    {
        Selection { count: 0, statuses: TextMap::new() }
    }

    /// On how many selected tokens condition `id` is.
    pub fn status(&self, id: &str) -> (r: u32)
        requires
            self.wf(),
        ensures
            r == if self@.1.contains_key(id@) {
                self@.1[id@]
            } else {
                0
            },
    {
        match self.statuses.get(id) {
            Some(n) => *n,
            None => 0,
        }
    }

    /// Sets on how many selected tokens condition `id` is.
    pub fn set_status(&mut self, id: &str, n: u32)
        requires
            old(self).wf(),
        ensures
            final(self).wf(),
            final(self)@ == (old(self)@.0, old(self)@.1.insert(id@, n)),
    {
        let _ = self.statuses.insert(owned(id), n);
    }

    /// The selection that `value` describes, if it describes one.
    pub fn from_value(value: &Json) -> (r: Option<Selection>)
        ensures
            r is Some == selection_of(value@) is Some,
            r matches Some(s) ==> s.wf() && Some(s@) == selection_of(value@),
    {
        let count = match value.get("count") {
            Some(c) => match c.as_u64() {
                Some(n) => n,
                None => return None,
            },
            None => return None,
        };
        if count > u32::MAX as u64 {
            return None;
        }
        let entries = match value.get("statuses") {
            Some(s) => match s.as_object() {
                Some(entries) => entries,
                None => return None,
            },
            None => return None,
        };
        proof {
            lemma_jv_entries(entries@);
        }
        let ghost es = jv_entries(entries@);
        let mut statuses: TextMap<u32> = TextMap::new();
        let mut i: usize = 0;
        while i < entries.len()
            invariant
                es == jv_entries(entries@),
                es.len() == entries@.len(),
                forall|k: int|
                    0 <= k < entries@.len() ==> #[trigger] es[k] == (
                    entries@[k].0@,
                    entries@[k].1@,
                    ),
                i <= entries@.len(),
                statuses.wf(),
                statuses.view() == status_counts(es.take(i as int)),
            decreases entries@.len() - i,
        {
            let ghost before = es.take(i as int);
            assert(es.take(i + 1).drop_last() =~= before);
            assert(es.take(i + 1).last() == es[i as int]);
            match entries[i].1.as_u64() {
                Some(n) => if n <= u32::MAX as u64 {
                    let _ = statuses.insert(entries[i].0.clone(), n as u32);
                },
                None => {},
            }
            i = i + 1;
        }
        assert(es.take(entries@.len() as int) =~= es);
        Some(Selection { count: count as u32, statuses })
    }

    /// The two selections are the same.
    pub fn same_as(&self, other: &Self) -> (r: bool)
        requires
            self.wf(),
            other.wf(),
        ensures
            r == (self@ == other@),
    {
        if self.count != other.count {
            return false;
        }
        let n = self.statuses.len();
        let mut i: usize = 0;
        while i < n
            invariant
                self.wf(),
                other.wf(),
                n == self.statuses.entry_seq().len(),
                i <= n,
                forall|k: int|
                    0 <= k < i ==> other@.1.contains_key(
                        #[trigger] self.statuses.entry_seq()[k].0@,
                    ) && other@.1[self.statuses.entry_seq()[k].0@] == self@.1[self.statuses.entry_seq()[k].0@],
            decreases n - i,
        {
            let (id, count) = self.statuses.entry(i);
            match other.statuses.get(id) {
                Some(c) => if *c != *count {
                    return false;
                },
                None => {
                    return false;
                },
            }
            i = i + 1;
        }
        let m = other.statuses.len();
        let mut j: usize = 0;
        while j < m
            invariant
                self.wf(),
                other.wf(),
                m == other.statuses.entry_seq().len(),
                j <= m,
                forall|k: int|
                    0 <= k < j ==> self@.1.contains_key(
                        #[trigger] other.statuses.entry_seq()[k].0@,
                    ),
            decreases m - j,
        {
            let (id, _) = other.statuses.entry(j);
            if self.statuses.get(id).is_none() {
                return false;
            }
            j = j + 1;
        }
        proof {
            assert forall|q: Seq<char>| #[trigger] self@.1.contains_key(q) implies other@.1.contains_key(q)
                && other@.1[q] == self@.1[q] by {
                self.statuses.lemma_entries_cover(q);
                let k = choose|k: int|
                    0 <= k < self.statuses.entry_seq().len() && #[trigger] self.statuses.entry_seq()[k].0@ == q;
                assert(other@.1.contains_key(self.statuses.entry_seq()[k].0@));
            }
            assert forall|q: Seq<char>| #[trigger] other@.1.contains_key(q) implies self@.1.contains_key(q) by {
                other.statuses.lemma_entries_cover(q);
                let k = choose|k: int|
                    0 <= k < other.statuses.entry_seq().len() && #[trigger] other.statuses.entry_seq()[k].0@ == q;
                assert(self@.1.contains_key(other.statuses.entry_seq()[k].0@));
            }
            assert(self@.1 =~= other@.1);
        }
        true
    }

    /// Clears the selection, saying whether that changed it.
    pub fn reset(&mut self) -> (r: bool)
        requires
            old(self).wf(),
        ensures
            final(self).wf(),
            (r, final(self)@) == reset_step(old(self)@),
    {
        let empty = Selection::new();
        let changed = !self.same_as(&empty);
        *self = empty;
        changed
    }

    /// Takes the selection that `value` describes, saying whether that changed it.
    /// A value that describes no selection changes nothing.
    pub fn apply_value(&mut self, value: &Json) -> (r: bool)
        requires
            old(self).wf(),
        ensures
            final(self).wf(),
            (r, final(self)@) == selection_step(old(self)@, value@),
    {
        match Selection::from_value(value) {
            None => false,
            Some(next) => {
                if self.same_as(&next) {
                    false
                } else {
                    *self = next;
                    true
                }
            },
        }
    }
}

proof fn lemma_status_count_at(es: Seq<(Seq<char>, JsonValue)>, i: int, c: u64)
    requires
        0 <= i < es.len(),
        es[i].1.as_u64() == Some(c),
        c <= u32::MAX,
        forall|j: int| i < j < es.len() ==> es[j].0 != es[i].0,
    ensures
        status_counts(es).contains_key(es[i].0),
        status_counts(es)[es[i].0] == c,
    decreases es.len(),
{
    if i < es.len() - 1 {
        lemma_status_count_at(es.drop_last(), i, c);
        assert(es.last().0 != es[i].0);
    }
}

proof fn lemma_status_count_absent(es: Seq<(Seq<char>, JsonValue)>, k: Seq<char>)
    requires
        forall|j: int| 0 <= j < es.len() ==> es[j].0 != k,
    ensures
        !status_counts(es).contains_key(k),
    decreases es.len(),
{
    if es.len() > 0 {
        lemma_status_count_absent(es.drop_last(), k);
    }
}

/// A selection event that gives a `count` and a `statuses` object sets the selection to
/// that count and, for each condition the object names with a count that fits in 32 bits,
/// to that count (the last one when a name repeats); a condition the object does not name
/// is on none of the selected tokens. It reports a change exactly when the selection
/// differs. An event without a `count` leaves the selection as it was.
pub proof fn law_selection_event(
    current: (u32, Map<Seq<char>, u32>),
    event: JsonValue,
    es: Seq<(Seq<char>, JsonValue)>,
    i: int,
    c: u64,
    missing: Seq<char>,
)
    ensures
        match event.field("count"@) {
            None => selection_step(current, event) == (false, current),
            Some(n) => match n.as_u64() {
                Some(k) => k <= u32::MAX && event.field("statuses"@) == Some(JsonValue::Object(es))
                    ==> {
                    let after = selection_step(current, event);
                    &&& after.1.0 == k
                    &&& after.0 == (current != after.1)
                    &&& (0 <= i < es.len() && es[i].1.as_u64() == Some(c) && c <= u32::MAX && (forall|
                        j: int,
                    | i < j < es.len() ==> es[j].0 != es[i].0)) ==> after.1.1.contains_key(es[i].0)
                        && after.1.1[es[i].0] == c
                    &&& (forall|j: int| 0 <= j < es.len() ==> es[j].0 != missing)
                        ==> !after.1.1.contains_key(missing)
                },
                None => selection_step(current, event) == (false, current),
            },
        },
{
    if 0 <= i < es.len() && es[i].1.as_u64() == Some(c) && c <= u32::MAX && (forall|j: int|
        i < j < es.len() ==> es[j].0 != es[i].0) {
        lemma_status_count_at(es, i, c);
    }
    if forall|j: int| 0 <= j < es.len() ==> es[j].0 != missing {
        lemma_status_count_absent(es, missing);
    }
}

/// Applying the same selection event twice changes nothing the second time.
pub proof fn law_selection_event_idempotent(current: (u32, Map<Seq<char>, u32>), event: JsonValue)
    ensures
        !selection_step(selection_step(current, event).1, event).0,
        selection_step(selection_step(current, event).1, event).1 == selection_step(
            current,
            event,
        ).1,
{
}

/// Clearing the selection: whether it changes, and the selection after it.
pub open spec fn reset_step(current: (u32, Map<Seq<char>, u32>)) -> (bool, (u32, Map<Seq<char>, u32>)) {
    (current != empty_selection(), empty_selection())
}

/// Clearing twice reports no change the second time.
pub proof fn law_reset_idempotent(current: (u32, Map<Seq<char>, u32>))
    ensures
        !reset_step(reset_step(current).1).0,
{
}

/// What a Condition key shows.
#[derive(Clone, Copy, PartialEq, Eq, Debug, Structural)]
pub enum Variant {
    /// Nothing is selected.
    Unselected,
    /// The condition is on none of the selected tokens.
    Off,
    /// The condition is on every selected token.
    On,
    /// The condition is on some of the selected tokens.
    Mixed,
    /// Foundry cannot be reached.
    Offline,
}

/// What a key bound to condition `id` shows for a selection.
pub open spec fn pick_variant(online: bool, selection: (u32, Map<Seq<char>, u32>), id: Seq<char>) -> Variant {
    let n = if selection.1.contains_key(id) {
        selection.1[id]
    } else {
        0
    };
    if !online {
        Variant::Offline
    } else if selection.0 == 0 {
        Variant::Unselected
    } else if n == 0 {
        Variant::Off
    } else if n >= selection.0 {
        Variant::On
    } else {
        Variant::Mixed
    }
}

/// The icon that a variant shows.
pub open spec fn variant_image(variant: Variant, art: &ConditionArt) -> Seq<char> {
    match variant {
        Variant::Unselected => art.none@,
        Variant::Off => art.off@,
        Variant::On => art.on@,
        Variant::Mixed => art.mixed@,
        Variant::Offline => art.offline@,
    }
}

impl Variant {
    pub fn pick(online: bool, selection: &Selection, id: &str) -> (r: Variant)
        requires
            selection.wf(),
        ensures
            r == pick_variant(online, selection@, id@),
    {
        if !online {
            return Variant::Offline;
        }
        if selection.count == 0 {
            return Variant::Unselected;
        }
        let n = selection.status(id);
        if n == 0 {
            Variant::Off
        } else if n >= selection.count {
            Variant::On
        } else {
            Variant::Mixed
        }
    }

    pub fn image(self, art: &ConditionArt) -> (r: &str)
        ensures
            r@ == variant_image(self, art),
    {
        match self {
            Variant::Unselected => art.none.as_str(),
            Variant::Off => art.off.as_str(),
            Variant::On => art.on.as_str(),
            Variant::Mixed => art.mixed.as_str(),
            Variant::Offline => art.offline.as_str(),
        }
    }
}

/// What a Condition key shows for a selection of `count` tokens, of which `statuses`
/// counts those carrying each condition: grey when Foundry cannot be reached; faint when
/// nothing is selected; dimmed when the condition is on none of the selected tokens;
/// bright with a solid border when it is on every one; dashed when it is on some of them
/// but not all.
pub proof fn law_variant_follows_selection(
    online: bool,
    count: u32,
    statuses: Map<Seq<char>, u32>,
    id: Seq<char>,
)
    ensures
        !online ==> pick_variant(online, (count, statuses), id) == Variant::Offline,
        online && count == 0 ==> pick_variant(online, (count, statuses), id) == Variant::Unselected,
        online && count > 0 && !statuses.contains_key(id) ==> pick_variant(online, (count, statuses), id)
            == Variant::Off,
        online && count > 0 && statuses.contains_key(id) && statuses[id] == 0 ==> pick_variant(
            online,
            (count, statuses),
            id,
        ) == Variant::Off,
        online && count > 0 && statuses.contains_key(id) && 0 < statuses[id] && statuses[id] < count
            ==> pick_variant(online, (count, statuses), id) == Variant::Mixed,
        online && count > 0 && statuses.contains_key(id) && statuses[id] >= count ==> pick_variant(
            online,
            (count, statuses),
            id,
        ) == Variant::On,
        pick_variant(online, (count, statuses), id) == Variant::On ==> online && count > 0
            && statuses.contains_key(id) && statuses[id] >= count,
        pick_variant(online, (count, statuses), id) == Variant::Mixed ==> online && count > 0
            && statuses.contains_key(id) && 0 < statuses[id] && statuses[id] < count,
{
}

/// Each variant shows its own rendering of the condition icon.
pub proof fn law_variant_images(art: &ConditionArt)
    ensures
        variant_image(Variant::Unselected, art) == art.none@,
        variant_image(Variant::Off, art) == art.off@,
        variant_image(Variant::On, art) == art.on@,
        variant_image(Variant::Mixed, art) == art.mixed@,
        variant_image(Variant::Offline, art) == art.offline@,
{
}

/// What a key shows: its image (none for a blank key) and its title (none for no title).
#[derive(Debug, PartialEq)]
pub struct Face {
    pub image: Option<String>,
    pub title: Option<String>,
}

impl View for Face {
    type V = (Option<Seq<char>>, Option<Seq<char>>);

    open spec fn view(&self) -> (Option<Seq<char>>, Option<Seq<char>>) {
        (opt_string(self.image), opt_string(self.title))
    }
}

/// The name a Condition key shows: the artwork's name, else the name in the settings,
/// else the condition's id.
pub open spec fn condition_name(settings: &ConditionSettings, art: Option<&ConditionArt>) -> Seq<
    char,
> {
    if art is Some && art->0.name@.len() > 0 {
        art->0.name@
    } else if settings.status_name@.len() > 0 {
        settings.status_name@
    } else {
        settings.status_id@
    }
}

/// What a Condition key shows.
pub open spec fn condition_face_view(
    settings: &ConditionSettings,
    art: Option<&ConditionArt>,
    online: bool,
    selection: (u32, Map<Seq<char>, u32>),
) -> (Option<Seq<char>>, Option<Seq<char>>) {
    if trimmed(settings.status_id@).len() == 0 {
        (None, Some("Pick condition"@))
    } else {
        let name = condition_name(settings, art);
        match art {
            None => (None, Some(name)),
            Some(a) => (
                Some(variant_image(pick_variant(online, selection, settings.status_id@), a)),
                if settings.show_title {
                    Some(name)
                } else {
                    None
                },
            ),
        }
    }
}

/// The count of selected tokens that carry condition `id`.
pub open spec fn carrying(statuses: Map<Seq<char>, u32>, id: Seq<char>) -> int {
    if statuses.contains_key(id) {
        statuses[id] as int
    } else {
        0
    }
}

/// A Condition key with no condition asks for one. With a condition but no artwork yet it
/// shows its name alone. With artwork it shows the grey rendering when Foundry cannot be
/// reached, the faint one when nothing is selected, and otherwise the dimmed, bright or
/// dashed rendering as the condition is on none, all or some of the selected tokens; the
/// title is the name when titles are shown. The name is the artwork's, else the one in
/// the settings, else the condition's id.
pub proof fn law_condition_face(
    settings: &ConditionSettings,
    art: Option<&ConditionArt>,
    online: bool,
    count: u32,
    statuses: Map<Seq<char>, u32>,
)
    ensures
        ({
            let face = condition_face_view(settings, art, online, (count, statuses));
            let id = settings.status_id@;
            let n = carrying(statuses, id);
            let name = if art is Some && art->0.name@.len() > 0 {
                art->0.name@
            } else if settings.status_name@.len() > 0 {
                settings.status_name@
            } else {
                id
            };
            &&& trimmed(id).len() == 0 ==> face == (None::<Seq<char>>, Some("Pick condition"@))
            &&& trimmed(id).len() > 0 && art is None ==> face == (None::<Seq<char>>, Some(name))
            &&& trimmed(id).len() > 0 && art is Some ==> {
                &&& face.1 == if settings.show_title {
                    Some(name)
                } else {
                    None
                }
                &&& !online ==> face.0 == Some(art->0.offline@)
                &&& online && count == 0 ==> face.0 == Some(art->0.none@)
                &&& online && count > 0 && n == 0 ==> face.0 == Some(art->0.off@)
                &&& online && count > 0 && 0 < n < count ==> face.0 == Some(art->0.mixed@)
                &&& online && count > 0 && n >= count ==> face.0 == Some(art->0.on@)
            }
        }),
{
    law_variant_follows_selection(online, count, statuses, settings.status_id@);
}

/// What a Condition key shows, given its cached artwork, whether Foundry can be
/// reached, and the current selection.
pub fn condition_face(
    settings: &ConditionSettings,
    art: Option<&ConditionArt>,
    online: bool,
    selection: &Selection,
) -> (r: Face)
    requires
        selection.wf(),
    ensures
        r@ == condition_face_view(settings, art, online, selection@),
{
    if is_blank(settings.status_id.as_str()) {
        return Face { image: None, title: Some(owned("Pick condition")) };
    }
    let name = match art {
        Some(a) if a.name.unicode_len() > 0 => a.name.clone(),
        _ => if settings.status_name.unicode_len() > 0 {
            settings.status_name.clone()
        } else {
            settings.status_id.clone()
        },
    };
    match art {
        None => Face { image: None, title: Some(name) },
        Some(a) => {
            let variant = Variant::pick(online, selection, settings.status_id.as_str());
            let title = if settings.show_title {
                Some(name)
            } else {
                None
            };
            Face { image: Some(owned(variant.image(a))), title }
        },
    }
}

/// The outcome of an artwork request.
#[derive(Debug, PartialEq)]
pub enum ArtFetch<T> {
    /// The script reported an error.
    Failed(String),
    /// The script returned no image.
    Empty,
    /// The artwork to cache.
    Ready(T),
}

/// The condition artwork that a reply holds: the reply's `error` if it has one,
/// else its renderings, unless the `on` rendering is missing.
pub open spec fn condition_art_outcome(reply: JsonValue) -> Option<Option<Seq<char>>> {
    match reply.field_str("error"@) {
        Some(e) => Some(Some(e)),
        None => if reply.str_or_empty("on"@).len() == 0 {
            Some(None)
        } else {
            None
        },
    }
}

/// Reads the reply of the condition artwork script.
pub fn condition_art_from_reply(reply: &Json) -> (r: ArtFetch<ConditionArt>)
    ensures
        match r {
            ArtFetch::Failed(e) => reply@.field_str("error"@) == Some(e@),
            ArtFetch::Empty => reply@.field_str("error"@) is None && reply@.str_or_empty(
                "on"@,
            ).len() == 0,
            ArtFetch::Ready(art) => reply@.field_str("error"@) is None && art.name@
                == reply@.str_or_empty("name"@) && art.off@ == reply@.str_or_empty("off"@)
                && art.on@ == reply@.str_or_empty("on"@) && art.mixed@ == reply@.str_or_empty(
                "mixed"@,
            ) && art.none@ == reply@.str_or_empty("none"@) && art.offline@
                == reply@.str_or_empty("offline"@) && art.on@.len() > 0,
        },
{
    if let Some(error) = reply.get_str("error") {
        return ArtFetch::Failed(owned(error));
    }
    let art = ConditionArt {
        name: reply.get_string_or_empty("name"),
        off: reply.get_string_or_empty("off"),
        on: reply.get_string_or_empty("on"),
        mixed: reply.get_string_or_empty("mixed"),
        none: reply.get_string_or_empty("none"),
        offline: reply.get_string_or_empty("offline"),
    };
    if art.on.unicode_len() == 0 {
        ArtFetch::Empty
    } else {
        ArtFetch::Ready(art)
    }
}

/// Decides whether a key's condition artwork is to be fetched: not when the key has no
/// condition, when fresh artwork is cached (the lookup refreshes it, or drops it when
/// stale) or when a fetch of it is already running. Otherwise it marks the fetch as running
/// and gives the script to run.
pub fn condition_art_request(
    settings: &ConditionSettings,
    accent: &str,
    art: &mut TtlCache<ConditionKey, ConditionArt>,
    inflight: &mut KeySet<ConditionKey>,
    now: u64,
) -> (r: Option<String>)
    requires
        old(art).wf(),
        old(inflight).wf(),
    ensures
        final(art).wf(),
        final(inflight).wf(),
        r is None <==> (trimmed(settings.status_id@).len() == 0 || cache_lookup(
            old(art).entries(),
            (settings.status_id@, accent@),
            now,
        ) is Some || old(inflight)@.contains((settings.status_id@, accent@))),
        final(art).entries() == if trimmed(settings.status_id@).len() == 0 {
            old(art).entries()
        } else {
            cache_after_lookup(old(art).entries(), (settings.status_id@, accent@), now)
        },
        r matches Some(s) ==> s@ == companion_call_text(
            condition_art_call(settings.status_id@, accent@, OFFLINE_COLOR@),
        ) && final(inflight)@ == old(inflight)@.insert((settings.status_id@, accent@)),
        r is None ==> final(inflight)@ == old(inflight)@,
{
    if is_blank(settings.status_id.as_str()) {
        return None;
    }
    let key = settings.art_key(accent);
    if art.get(&key, now).is_some() {
        return None;
    }
    let script = condition_art_script(key.id.as_str(), key.accent.as_str(), OFFLINE_COLOR);
    if !inflight.insert(key) {
        assert(inflight@ =~= old(inflight)@);
        return None;
    }
    Some(script)
}

/// The reply holds condition artwork to cache: no error, and an `on` rendering.
pub open spec fn condition_art_ready(reply: JsonValue) -> bool {
    reply.field_str("error"@) is None && reply.str_or_empty("on"@).len() > 0
}

/// `a` holds the renderings and the name that `reply` gives.
pub open spec fn condition_art_of(a: ConditionArt, reply: JsonValue) -> bool {
    &&& a.name@ == reply.str_or_empty("name"@)
    &&& a.off@ == reply.str_or_empty("off"@)
    &&& a.on@ == reply.str_or_empty("on"@)
    &&& a.mixed@ == reply.str_or_empty("mixed"@)
    &&& a.none@ == reply.str_or_empty("none"@)
    &&& a.offline@ == reply.str_or_empty("offline"@)
}

/// Takes in the outcome of a condition artwork fetch for `key` (the reply, or none when
/// the request failed): the fetch stops running and ready artwork is cached at `now`.
/// Says how the reply read.
pub fn condition_art_received(
    key: ConditionKey,
    reply: Option<&Json>,
    art: &mut TtlCache<ConditionKey, ConditionArt>,
    inflight: &mut KeySet<ConditionKey>,
    now: u64,
) -> (r: Option<ArtFetch<()>>)
    requires
        old(art).wf(),
        old(inflight).wf(),
    ensures
        final(art).wf(),
        final(inflight).wf(),
        final(inflight)@ == old(inflight)@.remove(key@),
        match opt_json(reply) {
            Some(v) => if condition_art_ready(v) {
                exists|a: ConditionArt|
                    #[trigger] condition_art_of(a, v) && final(art).entries() == cache_inserted(
                        old(art).entries(),
                        key@,
                        a,
                        now,
                    )
            } else {
                final(art).entries() == old(art).entries()
            },
            None => final(art).entries() == old(art).entries(),
        },
        match r {
            None => reply is None,
            Some(ArtFetch::Failed(e)) => opt_json(reply) matches Some(v) && v.field_str("error"@)
                == Some(e@),
            Some(ArtFetch::Empty) => opt_json(reply) matches Some(v) && v.field_str("error"@) is None
                && !condition_art_ready(v),
            Some(ArtFetch::Ready(_)) => opt_json(reply) matches Some(v) && condition_art_ready(v),
        },
{
    inflight.remove(&key);
    match reply {
        None => None,
        Some(v) => match condition_art_from_reply(v) {
            ArtFetch::Failed(e) => Some(ArtFetch::Failed(e)),
            ArtFetch::Empty => Some(ArtFetch::Empty),
            ArtFetch::Ready(a) => {
                let ghost g = a;
                assert(condition_art_of(g, v@));
                art.insert(key, a, now);
                Some(ArtFetch::Ready(()))
            },
        },
    }
}

/// What a reply to a script that acts in Foundry says: its `error`, if it has one.
pub fn call_outcome(reply: &Json) -> (r: Result<(), String>)
    ensures
        match reply@.field_str("error"@) {
            Some(e) => r matches Err(m) && m@ == e,
            None => r is Ok,
        },
{
    match reply.get_str("error") {
        Some(e) => Err(owned(e)),
        None => Ok(()),
    }
}

/// The script a press runs: none, and an alert instead, when the key has no condition or
/// nothing is selected; else the toggle of the (trimmed) condition.
pub fn condition_press(settings: &ConditionSettings, selected: u32) -> (r: Option<String>)
    ensures
        (trimmed(settings.status_id@).len() == 0 || selected == 0) ==> r is None,
        !(trimmed(settings.status_id@).len() == 0 || selected == 0) ==> (r matches Some(s)
            && s@ == companion_call_text(toggle_condition_call(trimmed(settings.status_id@)))),
{
    let id = trim(settings.status_id.as_str());
    if id.unicode_len() == 0 || selected == 0 {
        None
    } else {
        Some(toggle_condition_script(id))
    }
}

/// The reply to the property inspector's request for the list of conditions.
pub open spec fn conditions_reply_view(result: Result<JsonValue, Seq<char>>) -> JsonValue {
    match result {
        Ok(v) => match v.field_str("error"@) {
            Some(e) => status_reply("conditions"@, "error"@, "message"@, JsonValue::Str(e)),
            None => match v.as_array() {
                Some(list) => status_reply("conditions"@, "ok"@, "conditions"@, JsonValue::Array(list)),
                None => status_reply("conditions"@, "error"@, "message"@, JsonValue::Str("malformed reply"@)),
            },
        },
        Err(m) => status_reply("conditions"@, "error"@, "message"@, JsonValue::Str(m)),
    }
}

/// The reply to the request for conditions: the list the companion module returned, with
/// status `ok`, when its reply is a list; else status `error`, with the reply's error, a
/// "malformed reply" message for anything else, or the relay's error when the call failed.
pub proof fn law_conditions_reply(reply: JsonValue, message: Seq<char>)
    ensures
        conditions_reply_view(Ok(reply)).field_str("event"@) == Some("conditions"@),
        conditions_reply_view(Err(message)).field_str("event"@) == Some("conditions"@),
        reply.field_str("error"@) matches Some(e) ==> conditions_reply_view(Ok(reply)).field_str(
            "status"@,
        ) == Some("error"@) && conditions_reply_view(Ok(reply)).field_str("message"@) == Some(e),
        reply.field_str("error"@) is None && reply.as_array() is Some ==> conditions_reply_view(
            Ok(reply),
        ).field_str("status"@) == Some("ok"@) && conditions_reply_view(Ok(reply)).field(
            "conditions"@,
        ) == Some(reply),
        reply.field_str("error"@) is None && reply.as_array() is None ==> conditions_reply_view(
            Ok(reply),
        ).field_str("status"@) == Some("error"@) && conditions_reply_view(Ok(reply)).field_str(
            "message"@,
        ) == Some("malformed reply"@),
        conditions_reply_view(Err(message)).field_str("status"@) == Some("error"@),
        conditions_reply_view(Err(message)).field_str("message"@) == Some(message),
{
    reveal_strlit("event");
    reveal_strlit("status");
    reveal_strlit("message");
    reveal_strlit("conditions");
    assert("event"@.len() == 5 && "status"@.len() == 6 && "message"@.len() == 7
        && "conditions"@.len() == 10);
    assert("event"@ != "status"@);
    assert("event"@ != "message"@ && "status"@ != "message"@);
    assert("event"@ != "conditions"@ && "status"@ != "conditions"@);
    reveal_with_fuel(crate::json::entries_get, 4);
    if reply.field_str("error"@) is None {
        if let Some(list) = reply.as_array() {
            assert(JsonValue::Array(list) == reply);
        }
    }
}

/// The reply to the property inspector's request for the list of conditions, from the
/// outcome of the conditions script.
pub fn conditions_reply(result: &Result<Json, RelayError>) -> (r: Json)
    ensures
        r@ == conditions_reply_view(
            match result {
                Ok(v) => Ok(v@),
                Err(e) => Err(relay_error_text(e)),
            },
        ),
{
    match result {
        Ok(value) => match value.get_str("error") {
            Some(e) => status_message("conditions", "error", "message", Json::string(e)),
            None => match value.as_array() {
                Some(_) => status_message("conditions", "ok", "conditions", value.duplicate()),
                None => status_message("conditions", "error", "message", Json::string("malformed reply")),
            },
        },
        Err(e) => status_message("conditions", "error", "message", Json::Str(e.message())),
    }
}

/// Records the settings of a key, saying whether they are new or differ from those recorded.
pub fn register_condition(
    instances: &mut TextMap<ConditionSettings>,
    id: &str,
    settings: &ConditionSettings,
) -> (r: bool)
    requires
        old(instances).wf(),
    ensures
        final(instances).wf(),
        final(instances).view() == old(instances).view().insert(id@, *settings),
        r == !(old(instances).view().contains_key(id@) && old(instances).view()[id@]@ == settings@),
{
    match instances.insert(owned(id), settings.duplicate()) {
        Some(previous) => !previous.same_as(settings),
        None => true,
    }
}

} // verus!

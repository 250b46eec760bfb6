//! The Initiative action: a key that starts combat for the selected tokens, then follows
//! the combatant whose turn it is.
use vstd::prelude::*;
use vstd::string::*;
use crate::condition::Face;
use crate::foundry::ArtSource;
use crate::image::{base64_encode, base64_standard, svg_data_prefix};
use crate::json::{opt_string, Json, JsonValue};
use crate::config::Indicator;
use crate::image::ArtEntry;
use crate::sheet::{styled_face, styled_view, SheetSettings};
use crate::text::{decimal, format_decimal, owned, str_eq};

verus! {

/// The swords icon up to its opacity.
pub const SWORDS_HEAD: &'static str = r##"<svg xmlns="http://www.w3.org/2000/svg" viewBox="0 0 72 72" width="144" height="144"><rect width="72" height="72" rx="14" fill="#1b1d24"/><g opacity=""##;

/// The swords icon after its opacity.
pub const SWORDS_TAIL: &'static str = r##"" fill="none" stroke="#ff6400" stroke-width="4" stroke-linecap="round"><path d="M17 17 L45 45"/><path d="M55 17 L27 45"/><path d="M38 52 L52 38"/><path d="M20 38 L34 52"/><path d="M47 47 L56 56"/><path d="M25 47 L16 56"/></g></svg>"##;

/// The swords icon, bright or dimmed.
pub open spec fn swords_svg(bright: bool) -> Seq<char> {
    SWORDS_HEAD@ + (if bright {
        "1"@
    } else {
        "0.35"@
    }) + SWORDS_TAIL@
}

/// The swords icon as an inline base64 image, bright or dimmed.
pub fn swords(bright: bool) -> (r: String)
    ensures
        r@ == svg_data_prefix() + base64_standard(swords_svg(bright)),
{
    let mut svg = owned(SWORDS_HEAD);
    svg.append(if bright {
        "1"
    } else {
        "0.35"
    });
    svg.append(SWORDS_TAIL);
    proof {
        reveal_strlit(r##"<svg xmlns="http://www.w3.org/2000/svg" viewBox="0 0 72 72" width="144" height="144"><rect width="72" height="72" rx="14" fill="#1b1d24"/><g opacity=""##);
        reveal_strlit(r##"" fill="none" stroke="#ff6400" stroke-width="4" stroke-linecap="round"><path d="M17 17 L45 45"/><path d="M55 17 L27 45"/><path d="M38 52 L52 38"/><path d="M20 38 L34 52"/><path d="M47 47 L56 56"/><path d="M25 47 L16 56"/></g></svg>"##);
        reveal_strlit("0.35");
        reveal_strlit("1");
    }
    let encoded = base64_encode(svg.as_str());
    let mut r = owned("data:image/svg+xml;base64,");
    r.append(encoded.as_str());
    r
}

/// The settings of one Initiative key.
#[derive(Debug, PartialEq)]
pub struct InitiativeSettings {
    pub show_title: bool,
}

impl InitiativeSettings {
    pub fn new() -> (r: Self)
        ensures
            r.show_title,
    {
        InitiativeSettings { show_title: true }
    }
}

/// The combatant whose turn it is.
#[derive(Debug, PartialEq)]
pub struct Combatant {
    pub name: String,
    pub actor_uuid: Option<String>,
}

impl View for Combatant {
    type V = (Seq<char>, Option<Seq<char>>);

    open spec fn view(&self) -> (Seq<char>, Option<Seq<char>>) {
        (self.name@, opt_string(self.actor_uuid))
    }
}

/// The state of the combat in Foundry.
#[derive(Debug, PartialEq)]
pub struct CombatInfo {
    pub round: u64,
    pub started: bool,
    pub combatant: Option<Combatant>,
}

/// The state of a combat: round, whether it started, and the current combatant.
pub type CombatView = (u64, bool, Option<(Seq<char>, Option<Seq<char>>)>);

impl View for CombatInfo {
    type V = CombatView;

    open spec fn view(&self) -> CombatView {
        (
            self.round,
            self.started,
            match self.combatant {
                Some(c) => Some(c@),
                None => None,
            },
        )
    }
}

/// The combatant that a combat event describes: its `name` (a question mark when missing)
/// and its non-empty `actorUuid`.
pub open spec fn combatant_of(c: JsonValue) -> (Seq<char>, Option<Seq<char>>) {
    (
        match c.field_str("name"@) {
            Some(n) => n,
            None => "?"@,
        },
        match c.field_str("actorUuid"@) {
            Some(u) => if u.len() > 0 {
                Some(u)
            } else {
                None
            },
            None => None,
        },
    )
}

/// The combat that an event describes, if it is an object: its `round` (0 when missing),
/// whether it `started` (not when missing), and its `combatant` object, if any.
pub open spec fn combat_of(v: JsonValue) -> Option<CombatView> {
    match v {
        JsonValue::Object(_) => Some(
            (
                match v.field("round"@) {
                    Some(r) => match r.as_u64() {
                        Some(n) => n,
                        None => 0,
                    },
                    None => 0,
                },
                match v.field_bool("started"@) {
                    Some(b) => b,
                    None => false,
                },
                match v.field("combatant"@) {
                    Some(c) => if c is Object {
                        Some(combatant_of(c))
                    } else {
                        None
                    },
                    None => None,
                },
            ),
        ),
        _ => None,
    }
}

impl CombatInfo {
    /// The combat that `value` describes, if it is an object.
    pub fn from_value(value: &Json) -> (r: Option<CombatInfo>)
        ensures
            match r {
                Some(c) => combat_of(value@) == Some(c@),
                None => combat_of(value@) is None,
            },
    {
        if value.as_object().is_none() {
            return None;
        }
        let combatant = match value.get("combatant") {
            Some(c) => if c.as_object().is_some() {
                let name = match c.get_str("name") {
                    Some(n) => owned(n),
                    None => owned("?"),
                };
                let actor_uuid = match c.get_str("actorUuid") {
                    Some(u) => if u.unicode_len() > 0 {
                        Some(owned(u))
                    } else {
                        None
                    },
                    None => None,
                };
                Some(Combatant { name, actor_uuid })
            } else {
                None
            },
            None => None,
        };
        let round = match value.get("round") {
            Some(r) => match r.as_u64() {
                Some(n) => n,
                None => 0,
            },
            None => 0,
        };
        let started = match value.get_bool("started") {
            Some(b) => b,
            None => false,
        };
        Some(CombatInfo { round, started, combatant })
    }

    pub fn same_as(&self, other: &Self) -> (r: bool)
        ensures
            r == (self@ == other@),
    {
        if self.round != other.round || self.started != other.started {
            return false;
        }
        match (&self.combatant, &other.combatant) {
            (None, None) => true,
            (Some(a), Some(b)) => {
                if !str_eq(a.name.as_str(), b.name.as_str()) {
                    return false;
                }
                match (&a.actor_uuid, &b.actor_uuid) {
                    (None, None) => true,
                    (Some(x), Some(y)) => str_eq(x.as_str(), y.as_str()),
                    _ => false,
                }
            },
            _ => false,
        }
    }
}

/// The combat as the plugin knows it.
pub open spec fn opt_combat(c: Option<CombatInfo>) -> Option<CombatView> {
    match c {
        Some(x) => Some(x@),
        None => None,
    }
}

/// A combat event (or its absence): whether it changes the combat, and the combat after it.
pub open spec fn combat_step(current: Option<CombatView>, event: Option<JsonValue>) -> (bool, Option<
    CombatView,
>) {
    let next = match event {
        Some(v) => combat_of(v),
        None => None,
    };
    (current != next, next)
}

/// Takes the combat that `value` describes (none when there is no value or it describes
/// no combat), saying whether that changed it.
pub fn apply_combat(current: &mut Option<CombatInfo>, value: Option<&Json>) -> (r: bool)
    ensures
        (r, opt_combat(*final(current))) == combat_step(
            opt_combat(*old(current)),
            match value {
                Some(v) => Some(v@),
                None => None,
            },
        ),
{
    let next = match value {
        Some(v) => CombatInfo::from_value(v),
        None => None,
    };
    let same = match (&*current, &next) {
        (None, None) => true,
        (Some(a), Some(b)) => a.same_as(b),
        _ => false,
    };
    if same {
        false
    } else {
        *current = next;
        true
    }
}

/// Applies a companion `combat` event, whose `combat` member describes the combat in
/// progress (a null or missing member: none), saying whether it changed the combat.
pub fn apply_combat_event(current: &mut Option<CombatInfo>, payload: &Json) -> (r: bool)
    ensures
        (r, opt_combat(*final(current))) == combat_step(opt_combat(*old(current)), payload@.field("combat"@)),
{
    apply_combat(current, payload.get("combat"))
}

/// A combat event that describes an object takes its round (0 when missing), whether it
/// started (not when missing) and its combatant: the combatant's name (a question mark when
/// missing) and its actor when the `actorUuid` is a non-empty string. An event without a
/// combat object means no combat. The step reports a change exactly when the combat differs.
pub proof fn law_combat_event(current: Option<CombatView>, v: JsonValue, c: JsonValue)
    ensures
        !(v is Object) ==> combat_step(current, Some(v)).1 is None,
        combat_step(current, None).1 is None,
        combat_step(current, Some(v)).0 == (current != combat_step(current, Some(v)).1),
        v is Object ==> ({
            let x = combat_step(current, Some(v)).1;
            let round: u64 = match v.field("round"@) {
                Some(JsonValue::UInt(n)) => n,
                Some(JsonValue::Int(n)) => if n >= 0 {
                    n as u64
                } else {
                    0
                },
                _ => 0,
            };
            let xv = x->0;
            let who = xv.2;
            let wv = who->0;
            let actor = c.field_str("actorUuid"@);
            &&& x is Some
            &&& xv.0 == round
            &&& xv.1 == (v.field_bool("started"@) == Some(true))
            &&& (v.field("combatant"@) == Some(c) && c is Object) ==> {
                &&& who is Some
                &&& wv.0 == match c.field_str("name"@) {
                    Some(n) => n,
                    None => "?"@,
                }
                &&& (actor is Some && actor->0.len() > 0) ==> wv.1 == actor
                &&& !(actor is Some && actor->0.len() > 0) ==> wv.1 is None
            }
            &&& !(v.field("combatant"@) is Some && v.field("combatant"@)->0 is Object) ==> who is None
        }),
{
}

/// The same combat event twice changes nothing the second time.
pub proof fn law_combat_event_idempotent(current: Option<CombatView>, event: Option<JsonValue>)
    ensures
        !combat_step(combat_step(current, event).1, event).0,
{
}

/// The Actor Sheet settings under which a combatant's art is fetched and cached.
pub fn art_settings(uuid: &str) -> (r: SheetSettings)
    ensures
        r@ == (uuid@, Seq::<char>::empty(), ArtSource::Token, true),
{
    SheetSettings {
        actor_uuid: owned(uuid),
        actor_name: String::new(),
        art_source: ArtSource::Token,
        show_title: true,
    }
}

/// What an Initiative key is to show.
#[derive(Debug, PartialEq)]
pub enum InitiativePlan {
    /// A face that needs no artwork.
    Show(Face),
    /// The art of the combatant's actor, with this title.
    Combatant { uuid: String, title: Option<String> },
}

/// The title for the current combatant: the name and, once combat has started, the round.
pub open spec fn combatant_title(name: Seq<char>, round: u64, started: bool, show_title: bool) -> Option<
    Seq<char>,
> {
    let r = "R"@ + decimal(round as nat);
    if show_title {
        if started {
            Some(name + "\n"@ + r)
        } else {
            Some(name)
        }
    } else {
        if started {
            Some(r)
        } else {
            None
        }
    }
}

/// What an Initiative key shows. Without a combat: bright swords titled with the
/// selection count when Foundry can be reached and tokens are selected, else dim swords.
/// With a combat whose combatant has no actor: swords, bright when Foundry can be reached,
/// titled "Empty". Else the combatant's art.
pub fn initiative_plan(
    combat: &Option<CombatInfo>,
    settings: &InitiativeSettings,
    online: bool,
    selected: u32,
) -> (r: InitiativePlan)
    ensures
        match combat {
            None => r matches InitiativePlan::Show(face) && face@ == (
                Some(svg_data_prefix() + base64_standard(swords_svg(online && selected > 0))),
                if online && selected > 0 {
                    Some("Start ("@ + decimal(selected as nat) + ")"@)
                } else {
                    None
                },
            ),
            Some(c) => match c.combatant {
                Some(Combatant { name, actor_uuid: Some(uuid) }) => r matches InitiativePlan::Combatant {
                    uuid: u,
                    title: t,
                } && u@ == uuid@ && opt_string(t) == combatant_title(
                    name@,
                    c.round,
                    c.started,
                    settings.show_title,
                ),
                _ => r matches InitiativePlan::Show(face) && face@ == (
                    Some(svg_data_prefix() + base64_standard(swords_svg(online))),
                    Some("Empty"@),
                ),
            },
        },
{
    match combat {
        None => {
            let ready = online && selected > 0;
            let title = if ready {
                let mut t = owned("Start (");
                t.append(format_decimal(selected as u64).as_str());
                t.append(")");
                Some(t)
            } else {
                None
            };
            InitiativePlan::Show(Face { image: Some(swords(ready)), title })
        },
        Some(c) => match &c.combatant {
            Some(Combatant { name, actor_uuid: Some(uuid) }) => {
                let round = if c.started {
                    let mut r = owned("R");
                    r.append(format_decimal(c.round).as_str());
                    Some(r)
                } else {
                    None
                };
                let title = if settings.show_title {
                    match round {
                        Some(r) => {
                            let mut t = name.clone();
                            t.append("\n");
                            t.append(r.as_str());
                            Some(t)
                        },
                        None => Some(name.clone()),
                    }
                } else {
                    round
                };
                InitiativePlan::Combatant { uuid: uuid.clone(), title }
            },
            _ => InitiativePlan::Show(Face { image: Some(swords(online)), title: Some(owned("Empty")) }),
        },
    }
}

/// What an Initiative key shows for the current combatant: the combatant's cached art in
/// the current indicator style, or no image until the art is cached.
pub fn combatant_face(
    art: Option<&ArtEntry>,
    open: bool,
    online: bool,
    title: Option<String>,
    indicator: Indicator,
    open_color: &str,
) -> (r: Face)
    requires
        art matches Some(a) ==> a.closed@.len() <= usize::MAX / 64,
        open_color@.len() <= usize::MAX / 64,
    ensures
        r@ == match art {
            Some(a) => styled_view(a, open, online, opt_string(title), indicator, open_color@),
            None => (None, opt_string(title)),
        },
{
    match art {
        Some(a) => styled_face(a, open, online, title, indicator, open_color),
        None => Face { image: None, title },
    }
}

/// What a press of an Initiative key does.
#[derive(PartialEq, Eq, Debug)]
pub enum InitiativePress {
    /// Flash the alert.
    Alert,
    /// Toggle the sheet of the combatant's actor.
    ToggleSheet(String),
    /// Start combat for the selected tokens.
    StartCombat,
}

/// What a press does. During a combat: toggle the current combatant's sheet, or alert when
/// the companion module is not ready or the combatant has no actor. Without one: start
/// combat, or alert when nothing is selected.
pub fn initiative_press(combat: &Option<CombatInfo>, companion_ready: bool, selected: u32) -> (r:
    InitiativePress)
    ensures
        match combat {
            Some(c) => if !companion_ready {
                r == InitiativePress::Alert
            } else {
                match c.combatant {
                    Some(Combatant { name: _, actor_uuid: Some(uuid) }) => r matches InitiativePress::ToggleSheet(u)
                        && u@ == uuid@,
                    _ => r == InitiativePress::Alert,
                }
            },
            None => r == if selected == 0 {
                InitiativePress::Alert
            } else {
                InitiativePress::StartCombat
            },
        },
{
    match combat {
        Some(c) => {
            if !companion_ready {
                return InitiativePress::Alert;
            }
            match &c.combatant {
                Some(Combatant { name: _, actor_uuid: Some(uuid) }) => InitiativePress::ToggleSheet(
                    uuid.clone(),
                ),
                _ => InitiativePress::Alert,
            }
        },
        None => if selected == 0 {
            InitiativePress::Alert
        } else {
            InitiativePress::StartCombat
        },
    }
}

} // verus!

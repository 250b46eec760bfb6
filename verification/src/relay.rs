//! The relay protocol: the frames the plugin sends, how it reads the frames it receives,
//! and how it backs off between sessions.
use vstd::prelude::*;
use vstd::string::*;
use vstd::utf8::*;
use crate::config::Config;
use crate::foundry::EVENT_HOOK;
use crate::json::{
    jv_entries, jv_items, lemma_jv_items, opt_str, parse_json, parsed_json, pointer_first, push_member,
    with_member, Json, JsonValue,
};
use crate::text::{decimal, format_decimal, format_hex_lower, hex_lower, owned, str_eq, trim, trimmed};

verus! {

/// Why a relay request failed.
#[derive(Debug, PartialEq)]
pub enum RelayError {
    /// There is no session, or it ended before the reply.
    Disconnected,
    /// No reply came in time.
    Timeout,
    /// The relay answered with an error.
    Remote(String),
}

/// How a relay error reads.
pub open spec fn relay_error_text(e: &RelayError) -> Seq<char> {
    match e {
        RelayError::Disconnected => "relay disconnected"@,
        RelayError::Timeout => "relay request timed out"@,
        RelayError::Remote(m) => m@,
    }
}

impl RelayError {
    pub fn message(&self) -> (r: String)
        ensures
            r@ == relay_error_text(self),
    {
        match self {
            RelayError::Disconnected => owned("relay disconnected"),
            RelayError::Timeout => owned("relay request timed out"),
            RelayError::Remote(m) => m.clone(),
        }
    }
}

/// An actor as the relay's search lists it.
#[derive(Debug, PartialEq)]
pub struct ActorRef {
    pub uuid: String,
    pub name: String,
}

impl View for ActorRef {
    type V = (Seq<char>, Seq<char>);

    open spec fn view(&self) -> (Seq<char>, Seq<char>) {
        (self.uuid@, self.name@)
    }
}

/// The actor that a search row describes: an object with string members `uuid` and
/// `name`, or an array of exactly those two strings.
pub open spec fn actor_of(row: JsonValue) -> Option<(Seq<char>, Seq<char>)> {
    match row {
        JsonValue::Object(_) => match (row.field_str("uuid"@), row.field_str("name"@)) {
            (Some(u), Some(n)) => Some((u, n)),
            _ => None,
        },
        JsonValue::Array(items) => if items.len() == 2 {
            match (items[0].as_str(), items[1].as_str()) {
                (Some(u), Some(n)) => Some((u, n)),
                _ => None,
            }
        } else {
            None
        },
        _ => None,
    }
}

impl ActorRef {
    /// The actor that a search row describes.
    pub fn from_json(row: &Json) -> (r: Option<ActorRef>)
        ensures
            match r {
                Some(a) => actor_of(row@) == Some(a@),
                None => actor_of(row@) is None,
            },
    {
        match row {
            Json::Object(_) => match (row.get_str("uuid"), row.get_str("name")) {
                (Some(u), Some(n)) => Some(ActorRef { uuid: owned(u), name: owned(n) }),
                _ => None,
            },
            Json::Array(items) => {
                proof {
                    lemma_jv_items(items@);
                }
                if items.len() == 2 {
                    match (items[0].as_str(), items[1].as_str()) {
                        (Some(u), Some(n)) => Some(ActorRef { uuid: owned(u), name: owned(n) }),
                        _ => None,
                    }
                } else {
                    None
                }
            },
            _ => None,
        }
    }
}

/// The Unicode lowercase mapping of `s`, as `str::to_lowercase` computes it (a capital
/// sigma at the end of a word becomes a final sigma, so the mapping depends on context).
pub uninterp spec fn lowercase_text(s: Seq<char>) -> Seq<char>;

/// `str::to_lowercase`: the Unicode lowercase mapping of `s`, named by `lowercase_text`.
#[verifier::external_body]
fn to_lowercase(s: &str) -> (r: String)
    ensures
        r@ == lowercase_text(s@),
{
    s.to_lowercase()
}

/// Byte strings in lexicographic order, as strings compare.
pub open spec fn bytes_lt(a: Seq<u8>, b: Seq<u8>) -> bool
    decreases a.len(),
{
    if a.len() == 0 {
        b.len() > 0
    } else if b.len() == 0 {
        false
    } else if a[0] != b[0] {
        a[0] < b[0]
    } else {
        bytes_lt(a.drop_first(), b.drop_first())
    }
}

/// The text `a` sorts before `b`.
pub fn text_lt(a: &str, b: &str) -> (r: bool)
    ensures
        r == bytes_lt(a.spec_bytes(), b.spec_bytes()),
{
    let ab = a.as_bytes();
    let bb = b.as_bytes();
    let mut i: usize = 0;
    assert(ab@.skip(0) =~= ab@);
    assert(bb@.skip(0) =~= bb@);
    while i < ab.len() && i < bb.len()
        invariant
            ab@ == a.spec_bytes(),
            bb@ == b.spec_bytes(),
            i <= ab@.len(),
            i <= bb@.len(),
            bytes_lt(ab@, bb@) == bytes_lt(ab@.skip(i as int), bb@.skip(i as int)),
        decreases ab@.len() - i,
    {
        let x = ab[i];
        let y = bb[i];
        assert(ab@.skip(i as int)[0] == x);
        assert(bb@.skip(i as int)[0] == y);
        if x != y {
            return x < y;
        }
        assert(ab@.skip(i as int).drop_first() =~= ab@.skip(i + 1));
        assert(bb@.skip(i as int).drop_first() =~= bb@.skip(i + 1));
        i = i + 1;
    }
    i < bb.len()
}

/// The key actors sort by: the UTF-8 bytes of the lowercased name.
pub open spec fn actor_key(a: (Seq<char>, Seq<char>)) -> Seq<u8> {
    encode_utf8(lowercase_text(a.1))
}

/// Where an actor with key `k` goes among sorted actors: after every actor whose key
/// is not greater.
pub open spec fn insert_position(s: Seq<(Seq<char>, Seq<char>)>, k: Seq<u8>) -> nat
    decreases s.len(),
{
    if s.len() == 0 {
        0
    } else if bytes_lt(k, actor_key(s[0])) {
        0
    } else {
        1 + insert_position(s.drop_first(), k)
    }
}

/// The actors sorted by lowercased name, actors with the same key in their original order.
pub open spec fn sorted_by_name(s: Seq<(Seq<char>, Seq<char>)>) -> Seq<(Seq<char>, Seq<char>)>
    decreases s.len(),
{
    if s.len() == 0 {
        s
    } else {
        let rest = sorted_by_name(s.drop_last());
        rest.insert(insert_position(rest, actor_key(s.last())) as int, s.last())
    }
}

pub proof fn lemma_insert_position_bound(s: Seq<(Seq<char>, Seq<char>)>, k: Seq<u8>)
    ensures
        insert_position(s, k) <= s.len(),
    decreases s.len(),
{
    if s.len() > 0 {
        lemma_insert_position_bound(s.drop_first(), k);
    }
}

pub proof fn lemma_sorted_by_name_len(s: Seq<(Seq<char>, Seq<char>)>)
    ensures
        sorted_by_name(s).len() == s.len(),
    decreases s.len(),
{
    if s.len() > 0 {
        lemma_sorted_by_name_len(s.drop_last());
        lemma_insert_position_bound(sorted_by_name(s.drop_last()), actor_key(s.last()));
    }
}


/// Byte strings compare by a strict total order.
pub proof fn lemma_bytes_lt_order(a: Seq<u8>, b: Seq<u8>)
    ensures
        !bytes_lt(a, a),
        !(bytes_lt(a, b) && bytes_lt(b, a)),
        a == b || bytes_lt(a, b) || bytes_lt(b, a),
    decreases a.len(),
{
    if a.len() > 0 && b.len() > 0 {
        lemma_bytes_lt_order(a.drop_first(), b.drop_first());
        if a[0] == b[0] && a.drop_first() == b.drop_first() {
            assert(a.len() == b.len());
            assert forall|i: int| 0 <= i < a.len() implies a[i] == b[i] by {
                if i > 0 {
                    assert(a[i] == a.drop_first()[i - 1]);
                    assert(b[i] == b.drop_first()[i - 1]);
                }
            }
            assert(a =~= b);
        }
    } else if a.len() == 0 && b.len() == 0 {
        assert(a =~= b);
    }
    if a.len() > 0 {
        lemma_bytes_lt_order(a.drop_first(), a.drop_first());
    }
}

pub proof fn lemma_bytes_lt_trans(a: Seq<u8>, b: Seq<u8>, c: Seq<u8>)
    requires
        bytes_lt(a, b),
        bytes_lt(b, c),
    ensures
        bytes_lt(a, c),
    decreases a.len(),
{
    if a.len() > 0 && b.len() > 0 && c.len() > 0 && a[0] == b[0] && b[0] == c[0] {
        lemma_bytes_lt_trans(a.drop_first(), b.drop_first(), c.drop_first());
    }
}

/// The actors are in order of their keys.
pub open spec fn key_sorted(s: Seq<(Seq<char>, Seq<char>)>) -> bool {
    forall|i: int, j: int| 0 <= i < j < s.len() ==> !bytes_lt(actor_key(s[j]), actor_key(s[i]))
}

proof fn lemma_insert_position(s: Seq<(Seq<char>, Seq<char>)>, k: Seq<u8>)
    ensures
        insert_position(s, k) <= s.len(),
        forall|i: int| 0 <= i < insert_position(s, k) ==> !bytes_lt(k, actor_key(#[trigger] s[i])),
        insert_position(s, k) < s.len() ==> bytes_lt(k, actor_key(s[insert_position(s, k) as int])),
    decreases s.len(),
{
    if s.len() > 0 && !bytes_lt(k, actor_key(s[0])) {
        let t = s.drop_first();
        lemma_insert_position(t, k);
        assert forall|i: int| 0 <= i < insert_position(s, k) implies !bytes_lt(k, actor_key(#[trigger] s[i])) by {
            if i > 0 {
                assert(s[i] == t[i - 1]);
            }
        }
        if insert_position(s, k) < s.len() {
            assert(s[insert_position(s, k) as int] == t[insert_position(t, k) as int]);
        }
    }
}

proof fn lemma_insert_sorted(s: Seq<(Seq<char>, Seq<char>)>, x: (Seq<char>, Seq<char>))
    requires
        key_sorted(s),
    ensures
        key_sorted(s.insert(insert_position(s, actor_key(x)) as int, x)),
{
    let k = actor_key(x);
    lemma_insert_position(s, k);
    let p = insert_position(s, k) as int;
    let t = s.insert(p, x);
    assert forall|i: int, j: int| 0 <= i < j < t.len() implies !bytes_lt(actor_key(t[j]), actor_key(t[i])) by {
        if j < p {
            assert(t[i] == s[i] && t[j] == s[j]);
        } else if j == p {
            assert(t[i] == s[i]);
            assert(t[j] == x);
        } else if i > p {
            assert(t[i] == s[i - 1] && t[j] == s[j - 1]);
        } else if i == p {
            assert(t[j] == s[j - 1]);
            // k < key(s[p]) <= key(s[j - 1])
            let kp = actor_key(s[p]);
            let kj = actor_key(s[j - 1]);
            lemma_bytes_lt_order(kp, kj);
            if kp != kj {
                if bytes_lt(kp, kj) {
                    lemma_bytes_lt_trans(k, kp, kj);
                }
            }
            lemma_bytes_lt_order(k, kj);
        } else {
            assert(t[i] == s[i] && t[j] == s[j - 1]);
        }
    }
}

/// The actor list is sorted by lowercased name and holds exactly the listed actors.
pub proof fn law_sorted_by_name(s: Seq<(Seq<char>, Seq<char>)>)
    ensures
        key_sorted(sorted_by_name(s)),
        sorted_by_name(s).to_multiset() == s.to_multiset(),
    decreases s.len(),
{
    broadcast use vstd::seq_lib::to_multiset_insert, vstd::seq_lib::to_multiset_build;

    if s.len() == 0 {
    } else {
        let rest = sorted_by_name(s.drop_last());
        law_sorted_by_name(s.drop_last());
        lemma_insert_sorted(rest, s.last());
        lemma_insert_position_bound(rest, actor_key(s.last()));
        assert(s.drop_last().push(s.last()) =~= s);
    }
}

/// Whether an actor's sort key is `k`.
pub open spec fn has_key(k: Seq<u8>) -> spec_fn((Seq<char>, Seq<char>)) -> bool {
    |a: (Seq<char>, Seq<char>)| actor_key(a) == k
}

/// A sequence none of whose elements passes `pred` filters to nothing.
proof fn lemma_filter_none(s: Seq<(Seq<char>, Seq<char>)>, pred: spec_fn((Seq<char>, Seq<char>)) -> bool)
    requires
        forall|j: int| 0 <= j < s.len() ==> !pred(#[trigger] s[j]),
    ensures
        s.filter(pred) == Seq::<(Seq<char>, Seq<char>)>::empty(),
{
    let f = s.filter(pred);
    if f.len() > 0 {
        s.lemma_filter_pred(pred, 0);
        assert(f.contains(f[0]));
        s.lemma_filter_contains_rev(pred, f[0]);
        let j = choose|j: int| 0 <= j < s.len() && s[j] == f[0];
        assert(!pred(s[j]));
    }
    assert(f =~= Seq::<(Seq<char>, Seq<char>)>::empty());
}

/// Sorting is stable: the actors that share a sort key come out in the order in which
/// they went in.
pub proof fn law_sorted_by_name_stable(s: Seq<(Seq<char>, Seq<char>)>, k: Seq<u8>)
    ensures
        sorted_by_name(s).filter(has_key(k)) == s.filter(has_key(k)),
    decreases s.len(),
{
    if s.len() > 0 {
        let pred = has_key(k);
        let rest = sorted_by_name(s.drop_last());
        let x = s.last();
        let kx = actor_key(x);
        law_sorted_by_name_stable(s.drop_last(), k);
        law_sorted_by_name(s.drop_last());
        lemma_insert_position(rest, kx);
        let p = insert_position(rest, kx) as int;
        let front = rest.take(p);
        let back = rest.skip(p);
        assert(rest.insert(p, x) =~= front + seq![x] + back);
        assert(rest =~= front + back);
        Seq::filter_distributes_over_add(front + seq![x], back, pred);
        Seq::filter_distributes_over_add(front, seq![x], pred);
        Seq::filter_distributes_over_add(front, back, pred);
        assert(seq![x] =~= Seq::<(Seq<char>, Seq<char>)>::empty().push(x));
        Seq::<(Seq<char>, Seq<char>)>::empty().lemma_filter_push(x, pred);
        lemma_filter_none(Seq::<(Seq<char>, Seq<char>)>::empty(), pred);
        assert(s.drop_last().push(x) =~= s);
        s.drop_last().lemma_filter_push(x, pred);
        if kx == k {
            // every actor after the insertion point sorts strictly after `k`
            assert forall|j: int| 0 <= j < back.len() implies !pred(#[trigger] back[j]) by {
                let kp = actor_key(rest[p]);
                let kj = actor_key(back[j]);
                assert(back[j] == rest[p + j]);
                lemma_bytes_lt_order(kp, kj);
                if kp != kj {
                    lemma_bytes_lt_trans(k, kp, kj);
                }
                lemma_bytes_lt_order(k, kj);
            }
            lemma_filter_none(back, pred);
            assert(front.filter(pred) + seq![x] + Seq::<(Seq<char>, Seq<char>)>::empty() =~= front.filter(pred).push(x));
        } else {
            assert(front.filter(pred) + Seq::<(Seq<char>, Seq<char>)>::empty() =~= front.filter(pred));
        }
    }
}

/// The actors that search rows describe, in row order.
pub open spec fn actors_of(rows: Seq<JsonValue>) -> Seq<(Seq<char>, Seq<char>)>
    decreases rows.len(),
{
    if rows.len() == 0 {
        Seq::empty()
    } else {
        let rest = actors_of(rows.drop_last());
        match actor_of(rows.last()) {
            Some(a) => rest.push(a),
            None => rest,
        }
    }
}

/// The actors that a search reply lists, sorted by name: none when it has no `results` list.
pub open spec fn reply_actors(reply: JsonValue) -> Seq<(Seq<char>, Seq<char>)> {
    match reply.field_array("results"@) {
        Some(rows) => sorted_by_name(actors_of(rows)),
        None => Seq::empty(),
    }
}

/// The actors in a search reply, sorted by name.
pub fn actors_from_reply(reply: &Json) -> (r: Vec<ActorRef>)
    ensures
        r@.map_values(|a: ActorRef| a@) == reply_actors(reply@),
{
    let mut actors: Vec<ActorRef> = Vec::new();
    let mut keys: Vec<String> = Vec::new();
    let rows = match reply.get_array("results") {
        Some(rows) => rows,
        None => {
            assert(actors@.map_values(|a: ActorRef| a@) =~= Seq::<(Seq<char>, Seq<char>)>::empty());
            return actors;
        },
    };
    proof {
        lemma_jv_items(rows@);
    }
    let ghost items = jv_items(rows@);
    let mut i: usize = 0;
    while i < rows.len()
        invariant
            items == jv_items(rows@),
            items.len() == rows@.len(),
            forall|k: int| 0 <= k < rows@.len() ==> #[trigger] items[k] == rows@[k]@,
            i <= rows@.len(),
            actors@.len() == keys@.len(),
            forall|k: int| 0 <= k < keys@.len() ==> #[trigger] keys@[k]@ == lowercase_text(actors@[k].name@),
            actors@.map_values(|a: ActorRef| a@) == sorted_by_name(actors_of(items.take(i as int))),
        decreases rows@.len() - i,
    {
        let ghost before = items.take(i as int);
        assert(items.take(i + 1).drop_last() =~= before);
        assert(items.take(i + 1).last() == items[i as int]);
        match ActorRef::from_json(&rows[i]) {
            Some(actor) => {
                let ghost s = actors@.map_values(|a: ActorRef| a@);
                let ghost t = actors_of(before);
                assert(actors_of(items.take(i + 1)) == t.push(actor@));
                assert(t.push(actor@).drop_last() =~= t);
                assert(s == sorted_by_name(t));
                let key = to_lowercase(actor.name.as_str());
                let ghost k = actor_key(actor@);
                let mut p: usize = 0;
                assert(s.skip(0) =~= s);
                while p < actors.len() && !text_lt(key.as_str(), keys[p].as_str())
                    invariant
                        actors@.len() == keys@.len(),
                        s == actors@.map_values(|a: ActorRef| a@),
                        forall|q: int| 0 <= q < keys@.len() ==> #[trigger] keys@[q]@ == lowercase_text(actors@[q].name@),
                        k == encode_utf8(key@),
                        p <= actors@.len(),
                        insert_position(s, k) == p + insert_position(s.skip(p as int), k),
                    decreases actors@.len() - p,
                {
                    assert(s.skip(p as int)[0] == s[p as int]);
                    assert(s.skip(p as int).drop_first() =~= s.skip(p + 1));
                    p = p + 1;
                }
                proof {
                    if p < actors@.len() {
                        assert(s.skip(p as int)[0] == s[p as int]);
                    }
                    assert(insert_position(s, k) == p);
                }
                let ghost a = actor@;
                actors.insert(p, actor);
                keys.insert(p, key);
                proof {
                    assert(actors@.map_values(|a: ActorRef| a@) =~= s.insert(p as int, a));
                    assert forall|q: int| 0 <= q < keys@.len() implies #[trigger] keys@[q]@ == lowercase_text(actors@[q].name@) by {
                        if q < p {
                        } else if q > p {
                        }
                    }
                }
            },
            None => {
                assert(actors_of(items.take(i + 1)) == actors_of(before));
            },
        }
        i = i + 1;
    }
    assert(items.take(rows@.len() as int) =~= items);
    actors
}

/// The relay's answer to the plugin's authentication.
#[derive(Debug, PartialEq)]
pub enum AuthReply {
    /// Authenticated; with the client id the relay resolved, and which of the request
    /// types and event channels the plugin relies on the relay does not advertise.
    Connected {
        client_id: Option<String>,
        lacks_search: bool,
        lacks_request_type: bool,
        lacks_hooks: bool,
    },
    /// Refused, with the relay's reason.
    Rejected(String),
    /// Some other frame; keep waiting.
    Pending,
}

/// Some item of `items` is the string `s`.
pub open spec fn has_str_item(items: Seq<JsonValue>, s: Seq<char>) -> bool {
    exists|i: int| 0 <= i < items.len() && items[i].as_str() == Some(s)
}

fn contains_str_item(items: &Vec<Json>, s: &str) -> (r: bool)
    ensures
        r == has_str_item(jv_items(items@), s@),
{
    proof {
        lemma_jv_items(items@);
    }
    let mut i: usize = 0;
    while i < items.len()
        invariant
            jv_items(items@).len() == items@.len(),
            forall|k: int| 0 <= k < items@.len() ==> #[trigger] jv_items(items@)[k] == items@[k]@,
            i <= items@.len(),
            forall|k: int| 0 <= k < i ==> jv_items(items@)[k].as_str() != Some(s@),
        decreases items@.len() - i,
    {
        match items[i].as_str() {
            Some(t) => if str_eq(t, s) {
                assert(jv_items(items@)[i as int].as_str() == Some(s@));
                return true;
            },
            None => {},
        }
        i = i + 1;
    }
    false
}

/// The string member `key`, or `fallback`.
pub open spec fn str_or(v: JsonValue, key: Seq<char>, fallback: Seq<char>) -> Seq<char> {
    match v.field_str(key) {
        Some(s) => s,
        None => fallback,
    }
}

/// `r` is how the frame `frame` reads while authenticating, for a relay that must support
/// `request_type`.
pub open spec fn auth_reads_as(frame: JsonValue, request_type: Seq<char>, r: AuthReply) -> bool {
    match r {
        AuthReply::Connected { client_id, lacks_search, lacks_request_type, lacks_hooks } => {
            &&& frame.field_str("type"@) == Some("connected"@)
            &&& crate::json::opt_string(client_id) == frame.field_str("clientId"@)
            &&& lacks_search == match frame.field_array("supportedTypes"@) {
                Some(types) => !has_str_item(types, "search"@),
                None => false,
            }
            &&& lacks_request_type == match frame.field_array("supportedTypes"@) {
                Some(types) => !has_str_item(types, request_type),
                None => false,
            }
            &&& lacks_hooks == !match frame.field_array("eventChannels"@) {
                Some(channels) => has_str_item(channels, "hooks"@),
                None => false,
            }
        },
        AuthReply::Rejected(m) => frame.field_str("type"@) == Some("error"@) && m@ == str_or(
            frame,
            "error"@,
            "unknown"@,
        ),
        AuthReply::Pending => frame.field_str("type"@) != Some("connected"@)
            && frame.field_str("type"@) != Some("error"@),
    }
}

/// Reads a frame received while authenticating, for a relay that must support
/// `request_type`.
pub fn auth_reply(frame: &Json, request_type: &str) -> (r: AuthReply)
    ensures
        auth_reads_as(frame@, request_type@, r),
{
    let kind = match frame.get_str("type") {
        Some(t) => t,
        None => return AuthReply::Pending,
    };
    if str_eq(kind, "connected") {
        let client_id = match frame.get_str("clientId") {
            Some(c) => Some(owned(c)),
            None => None,
        };
        let (lacks_search, lacks_request_type) = match frame.get_array("supportedTypes") {
            Some(types) => (!contains_str_item(types, "search"), !contains_str_item(types, request_type)),
            None => (false, false),
        };
        let lacks_hooks = match frame.get_array("eventChannels") {
            Some(channels) => !contains_str_item(channels, "hooks"),
            None => true,
        };
        AuthReply::Connected { client_id, lacks_search, lacks_request_type, lacks_hooks }
    } else if str_eq(kind, "error") {
        let message = match frame.get_str("error") {
            Some(e) => owned(e),
            None => owned("unknown"),
        };
        AuthReply::Rejected(message)
    } else {
        AuthReply::Pending
    }
}

/// The authentication frame: the trimmed key as `token`, and the trimmed client id when
/// one is set.
pub open spec fn auth_frame(api_key: Seq<char>, client_id: Seq<char>) -> JsonValue {
    let base = seq![("type"@, JsonValue::Str("auth"@)), ("token"@, JsonValue::Str(trimmed(api_key)))];
    if trimmed(client_id).len() == 0 {
        JsonValue::Object(base)
    } else {
        JsonValue::Object(base.push(("clientId"@, JsonValue::Str(trimmed(client_id)))))
    }
}

/// The frame that authenticates the plugin with the relay.
pub fn auth_message(config: &Config) -> (r: Json)
    ensures
        r@ == auth_frame(config.api_key@, config.client_id@),
{
    let mut entries: Vec<(String, Json)> = Vec::new();
    push_member(&mut entries, "type", Json::string("auth"));
    push_member(&mut entries, "token", Json::string(trim(config.api_key.as_str())));
    let client_id = trim(config.client_id.as_str());
    if client_id.unicode_len() > 0 {
        push_member(&mut entries, "clientId", Json::string(client_id));
    }
    proof {
        let base = seq![("type"@, JsonValue::Str("auth"@)), ("token"@, JsonValue::Str(trimmed(config.api_key@)))];
        if client_id@.len() > 0 {
            assert(jv_entries(entries@) =~= base.push(("clientId"@, JsonValue::Str(trimmed(config.client_id@)))));
        } else {
            assert(jv_entries(entries@) =~= base);
        }
    }
    let r = Json::Object(entries);
    r
}

/// The frame that subscribes to the relay's hook events.
pub fn subscribe_message(request_id: &str) -> (r: Json)
    ensures
        r@ == JsonValue::Object(
            seq![
                ("type"@, JsonValue::Str("subscribe"@)),
                ("channel"@, JsonValue::Str("hooks"@)),
                ("requestId"@, JsonValue::Str(request_id@)),
            ],
        ),
{
    let mut entries: Vec<(String, Json)> = Vec::new();
    push_member(&mut entries, "type", Json::string("subscribe"));
    push_member(&mut entries, "channel", Json::string("hooks"));
    push_member(&mut entries, "requestId", Json::string(request_id));
    assert(jv_entries(entries@) =~= seq![
            ("type"@, JsonValue::Str("subscribe"@)),
            ("channel"@, JsonValue::Str("hooks"@)),
            ("requestId"@, JsonValue::Str(request_id@)),
        ]);
    Json::Object(entries)
}

/// The id of a request: the process id in hexadecimal and a sequence number.
pub open spec fn request_id_text(pid: u32, seq: u64) -> Seq<char> {
    "sd-"@ + hex_lower(pid as nat) + "-"@ + decimal(seq as nat)
}

pub fn request_id(pid: u32, seq: u64) -> (r: String)
    ensures
        r@ == request_id_text(pid, seq),
{
    let mut r = owned("sd-");
    r.append(format_hex_lower(pid as u64).as_str());
    r.append("-");
    r.append(format_decimal(seq).as_str());
    r
}

/// A request frame: the parameters with the request's `type` and `requestId` set.
/// The parameters are an object or null.
pub fn request_message(kind: &str, params: Json, id: &str) -> (r: Json)
    requires
        params@ is Object || params@ is Null,
    ensures
        r@ == with_member(
            with_member(params@, "type"@, JsonValue::Str(kind@)),
            "requestId"@,
            JsonValue::Str(id@),
        ),
{
    let typed = params.with_member("type", Json::string(kind));
    typed.with_member("requestId", Json::string(id))
}

/// The outcome of a reply: the relay's `error`, or the reply itself.
pub fn reply_outcome(reply: Json) -> (r: Result<Json, RelayError>)
    ensures
        match reply@.field_str("error"@) {
            Some(e) => r matches Err(RelayError::Remote(m)) && m@ == e,
            None => r matches Ok(v) && v@ == reply@,
        },
{
    match reply.get_str("error") {
        Some(e) => Err(RelayError::Remote(owned(e))),
        None => Ok(reply),
    }
}

/// The parameters of a call of a companion action.
pub fn call_params(action: &str, args: Json) -> (r: Json)
    ensures
        r@ == JsonValue::Object(seq![("action"@, JsonValue::Str(action@)), ("args"@, args@)]),
{
    let mut entries: Vec<(String, Json)> = Vec::new();
    push_member(&mut entries, "action", Json::string(action));
    push_member(&mut entries, "args", args);
    assert(jv_entries(entries@) =~= seq![("action"@, JsonValue::Str(action@)), ("args"@, args@)]);
    Json::Object(entries)
}

/// The result of a call: the reply's `result`, or null.
pub fn call_result(reply: &Json) -> (r: Json)
    ensures
        r@ == match reply@.field("result"@) {
            Some(v) => v,
            None => JsonValue::Null,
        },
{
    match reply.get("result") {
        Some(v) => v.duplicate(),
        None => Json::Null,
    }
}

/// The parameters of the search for the world's actors.
pub fn search_params() -> (r: Json)
    ensures
        r@ == JsonValue::Object(
            seq![
                ("query"@, JsonValue::Str(""@)),
                ("filter"@, JsonValue::Str("documentType:Actor"@)),
                ("excludeCompendiums"@, JsonValue::Bool(true)),
                ("minified"@, JsonValue::Bool(true)),
                ("limit"@, JsonValue::UInt(500)),
            ],
        ),
{
    let mut entries: Vec<(String, Json)> = Vec::new();
    push_member(&mut entries, "query", Json::string(""));
    push_member(&mut entries, "filter", Json::string("documentType:Actor"));
    push_member(&mut entries, "excludeCompendiums", Json::Bool(true));
    push_member(&mut entries, "minified", Json::Bool(true));
    push_member(&mut entries, "limit", Json::UInt(500));
    assert(jv_entries(entries@) =~= seq![
            ("query"@, JsonValue::Str(""@)),
            ("filter"@, JsonValue::Str("documentType:Actor"@)),
            ("excludeCompendiums"@, JsonValue::Bool(true)),
            ("minified"@, JsonValue::Bool(true)),
            ("limit"@, JsonValue::UInt(500)),
        ]);
    Json::Object(entries)
}

/// What a frame received during a session is.
#[derive(Debug, PartialEq)]
pub enum Frame {
    /// A companion event, with its payload.
    Event(Json),
    /// A companion event without a payload.
    EventWithoutPayload,
    /// The confirmation of a subscription to a channel.
    Subscribed(String),
    /// The reply to the request with this id.
    Reply(String),
    /// An error not tied to a request.
    RelayError(String),
    /// Anything else.
    Ignored,
}

/// The payload of a companion event: the value at `/data/data/args/0`.
pub open spec fn hook_payload(frame: JsonValue) -> Option<JsonValue> {
    match frame.field("data"@) {
        Some(d1) => match d1.field("data"@) {
            Some(d2) => match d2.field("args"@) {
                Some(args) => pointer_first(args),
                None => None,
            },
            None => None,
        },
        None => None,
    }
}

/// How a frame is read: companion hook events and subscription confirmations first, then
/// replies by request id, then errors.
pub open spec fn frame_kind(frame: JsonValue) -> Option<Seq<char>> {
    frame.field_str("type"@)
}

/// `r` is how the frame `frame` reads during a session.
pub open spec fn frame_reads_as(frame: JsonValue, r: Frame) -> bool {
    match r {
        Frame::Event(p) => frame_kind(frame) == Some("hook-event"@) && frame.field_str("hook"@)
            == Some(EVENT_HOOK@) && hook_payload(frame) == Some(p@),
        Frame::EventWithoutPayload => frame_kind(frame) == Some("hook-event"@)
            && frame.field_str("hook"@) == Some(EVENT_HOOK@) && hook_payload(frame) is None,
        Frame::Subscribed(c) => frame_kind(frame) == Some("subscribed"@) && c@ == str_or(
            frame,
            "channel"@,
            "?"@,
        ),
        Frame::Reply(id) => frame_kind(frame) != Some("hook-event"@) && frame_kind(frame)
            != Some("subscribed"@) && frame.field_str("requestId"@) == Some(id@),
        Frame::RelayError(m) => frame_kind(frame) == Some("error"@) && frame.field_str(
            "requestId"@,
        ) is None && m@ == str_or(frame, "error"@, "unknown"@),
        Frame::Ignored => (frame_kind(frame) == Some("hook-event"@) && frame.field_str(
            "hook"@,
        ) != Some(EVENT_HOOK@)) || (frame_kind(frame) != Some("hook-event"@)
            && frame_kind(frame) != Some("subscribed"@) && frame_kind(frame) != Some(
            "error"@,
        ) && frame.field_str("requestId"@) is None),
    }
}

/// Reads a frame received during a session.
pub fn classify_frame(frame: &Json) -> (r: Frame)
    ensures
        frame_reads_as(frame@, r),
{
    let kind = frame.get_str("type");
    let is_kind = |k: &str| -> (b: bool)
        ensures
            b == (opt_str(kind) == Some(k@)),
        {
            match kind {
                Some(t) => str_eq(t, k),
                None => false,
            }
        };
    if is_kind("hook-event") {
        let hook_matches = match frame.get_str("hook") {
            Some(h) => str_eq(h, EVENT_HOOK),
            None => false,
        };
        if !hook_matches {
            return Frame::Ignored;
        }
        let payload = match frame.get("data") {
            Some(d1) => match d1.get("data") {
                Some(d2) => match d2.get("args") {
                    Some(args) => args.pointer_first(),
                    None => None,
                },
                None => None,
            },
            None => None,
        };
        return match payload {
            Some(p) => Frame::Event(p.duplicate()),
            None => Frame::EventWithoutPayload,
        };
    }
    if is_kind("subscribed") {
        return Frame::Subscribed(
            match frame.get_str("channel") {
                Some(c) => owned(c),
                None => owned("?"),
            },
        );
    }
    match frame.get_str("requestId") {
        Some(id) => Frame::Reply(owned(id)),
        None => if is_kind("error") {
            Frame::RelayError(
                match frame.get_str("error") {
                    Some(e) => owned(e),
                    None => owned("unknown"),
                },
            )
        } else {
            Frame::Ignored
        },
    }
}

/// The reconnect delay for each number of failed sessions in a row, in seconds.
pub open spec fn backoff_delay(attempt: int) -> u64 {
    if attempt == 0 {
        1
    } else if attempt == 1 {
        2
    } else if attempt == 2 {
        4
    } else if attempt == 3 {
        8
    } else if attempt == 4 {
        15
    } else {
        30
    }
}

/// Reads the text of a frame received during a session: none when it is not JSON, else
/// the document and how it reads.
pub fn frame_of_text(text: &str) -> (r: Option<(Json, Frame)>)
    ensures
        (r is None) == (parsed_json(text@) is None),
        r matches Some(p) ==> parsed_json(text@) == Some(p.0@) && frame_reads_as(p.0@, p.1),
{
    match parse_json(text) {
        Some(frame) => {
            let kind = classify_frame(&frame);
            Some((frame, kind))
        },
        None => None,
    }
}

/// Reads the text of a frame received while authenticating: none when it is not JSON.
pub fn auth_reply_of_text(text: &str, request_type: &str) -> (r: Option<AuthReply>)
    ensures
        (r is None) == (parsed_json(text@) is None),
        r matches Some(a) ==> parsed_json(text@) matches Some(f) && auth_reads_as(f, request_type@, a),
{
    match parse_json(text) {
        Some(frame) => Some(auth_reply(&frame, request_type)),
        None => None,
    }
}


/// The highest attempt number the back-off counts to.
pub const MAX_ATTEMPT: usize = 5;

/// How many failed sessions in a row count after a session: none after one that ended
/// cleanly, one more (at most five) after one that failed.
pub open spec fn next_attempt_count(attempt: int, succeeded: bool) -> int {
    if succeeded {
        0
    } else if attempt + 1 < 5 {
        attempt + 1
    } else {
        5
    }
}

pub fn next_attempt(attempt: usize, succeeded: bool) -> (r: usize)
    ensures
        r == next_attempt_count(attempt as int, succeeded),
{
    if succeeded {
        0
    } else if attempt < MAX_ATTEMPT - 1 {
        attempt + 1
    } else {
        MAX_ATTEMPT
    }
}

/// The delay before reconnecting after `attempt` failed sessions in a row, in seconds.
pub fn backoff_secs(attempt: usize) -> (r: u64)
    requires
        attempt <= MAX_ATTEMPT,
    ensures
        r == backoff_delay(attempt as int),
{
    if attempt == 0 {
        1
    } else if attempt == 1 {
        2
    } else if attempt == 2 {
        4
    } else if attempt == 3 {
        8
    } else if attempt == 4 {
        15
    } else {
        30
    }
}

/// The attempt count stays within the back-off table, the delay never exceeds thirty
/// seconds and never shrinks while sessions keep failing, and a clean session resets it.
pub proof fn law_backoff(attempt: int, succeeded: bool)
    requires
        0 <= attempt <= 5,
    ensures
        0 <= next_attempt_count(attempt, succeeded) <= 5,
        backoff_delay(next_attempt_count(attempt, succeeded)) <= 30,
        !succeeded ==> backoff_delay(attempt) <= backoff_delay(next_attempt_count(attempt, false)),
        succeeded ==> backoff_delay(next_attempt_count(attempt, succeeded)) == 1,
{
}

/// The delay starts at one second after a clean session, then grows with every further
/// failure, at most doubling each time, until it reaches its ceiling of thirty seconds,
/// where it stays.
pub proof fn law_backoff_growth(attempt: int)
    requires
        0 <= attempt <= 5,
    ensures
        backoff_delay(next_attempt_count(attempt, true)) == 1,
        attempt < 5 ==> backoff_delay(attempt) < backoff_delay(next_attempt_count(attempt, false))
            <= 2 * backoff_delay(attempt),
        attempt == 5 ==> backoff_delay(next_attempt_count(attempt, false)) == 30,
        backoff_delay(attempt) == 30 <==> attempt == 5,
{
}

} // verus!

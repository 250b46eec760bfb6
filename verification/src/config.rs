//! The plugin's global settings: the relay connection and how keys show an open sheet.
use vstd::prelude::*;
use vstd::string::*;
use vstd::utf8::*;
use crate::text::{
    is_blank, lemma_utf8_len_bounds, owned, push_char, str_eq, trim, trimmed,
};

verus! {

/// The border colour of a key whose Foundry cannot be reached.
pub const OFFLINE_COLOR: &'static str = "#6b6b6b";

/// The border colour that the default settings give an open sheet.
pub const DEFAULT_BORDER_COLOR: &'static str = "#ff6400";

/// How long the default settings wait between polls, in milliseconds.
pub const DEFAULT_POLL_MS: u64 = 5000;

/// How a key shows that its sheet is open.
#[derive(Clone, Copy, PartialEq, Eq, Debug, Structural)]
pub enum Indicator {
    Border,
    Svg,
    Title,
}

/// The name an indicator goes by in the settings.
pub open spec fn indicator_name(indicator: Indicator) -> Seq<char> {
    match indicator {
        Indicator::Border => "border"@,
        Indicator::Svg => "svg"@,
        Indicator::Title => "title"@,
    }
}

impl Indicator {
    pub fn as_str(self) -> (r: &'static str)
        ensures
            r@ == indicator_name(self),
    {
        match self {
            Indicator::Border => "border",
            Indicator::Svg => "svg",
            Indicator::Title => "title",
        }
    }
}

/// The global settings.
pub struct Config {
    pub relay_url: String,
    pub api_key: String,
    pub client_id: String,
    pub poll_ms: u64,
    pub indicator: Indicator,
    pub border_color: String,
}

impl Config {
    /// The settings before the host has sent any.
    pub fn new() -> (r: Config)
        ensures
            r.relay_url@ == Seq::<char>::empty(),
            r.api_key@ == Seq::<char>::empty(),
            r.client_id@ == Seq::<char>::empty(),
            r.poll_ms == DEFAULT_POLL_MS,
            r.indicator == Indicator::Border,
            r.border_color@ == DEFAULT_BORDER_COLOR@,
    {
        Config {
            relay_url: String::new(),
            api_key: String::new(),
            client_id: String::new(),
            poll_ms: DEFAULT_POLL_MS,
            indicator: Indicator::Border,
            border_color: owned(DEFAULT_BORDER_COLOR),
        }
    }

    /// A copy of these settings.
    pub fn duplicate(&self) -> (r: Config)
        ensures
            r == *self,
    {
        Config {
            relay_url: self.relay_url.clone(),
            api_key: self.api_key.clone(),
            client_id: self.client_id.clone(),
            poll_ms: self.poll_ms,
            indicator: self.indicator,
            border_color: self.border_color.clone(),
        }
    }

    /// Enough is set to connect: a relay URL and an API key. A scoped relay key can
    /// carry its own client id, in which case the relay resolves it and the setting
    /// may be left blank.
    pub fn is_complete(&self) -> (r: bool)
        ensures
            r == (trimmed(self.relay_url@).len() > 0 && trimmed(self.api_key@).len() > 0),
    {
        !is_blank(self.relay_url.as_str()) && !is_blank(self.api_key.as_str())
    }

    /// The two settings would connect differently.
    pub fn connection_differs(&self, other: &Self) -> (r: bool)
        ensures
            r == (self.relay_url@ != other.relay_url@ || self.api_key@ != other.api_key@
                || self.client_id@ != other.client_id@),
    {
        !str_eq(self.relay_url.as_str(), other.relay_url.as_str()) || !str_eq(
            self.api_key.as_str(),
            other.api_key.as_str(),
        ) || !str_eq(self.client_id.as_str(), other.client_id.as_str())
    }

    /// The two settings would draw keys differently.
    pub fn appearance_differs(&self, other: &Self) -> (r: bool)
        ensures
            r == (self.indicator != other.indicator || self.border_color@
                != other.border_color@),
    {
        self.indicator != other.indicator || !str_eq(
            self.border_color.as_str(),
            other.border_color.as_str(),
        )
    }

    /// The websocket address of the relay's API.
    pub fn socket_url(&self) -> (r: String)
        ensures
            r@ == socket_url_text(self.relay_url@, self.client_id@),
    {
        let base = trim_end_slashes(trim(self.relay_url.as_str()));
        let mut url = match strip_prefix(base, "https://") {
            Some(rest) => {
                let mut u = owned("wss://");
                u.append(rest);
                u
            },
            None => match strip_prefix(base, "http://") {
                Some(rest) => {
                    let mut u = owned("ws://");
                    u.append(rest);
                    u
                },
                None => owned(base),
            },
        };
        let client_id = trim(self.client_id.as_str());
        if client_id.unicode_len() == 0 {
            url.append("/ws/api");
        } else {
            url.append("/ws/api?clientId=");
            url.append(urlencode(client_id).as_str());
        }
        proof {
            reveal_strlit("https://");
            reveal_strlit("http://");
        }
        url
    }
}

/// `s` without its trailing slashes.
pub open spec fn trim_end_slashes_text(s: Seq<char>) -> Seq<char>
    decreases s.len(),
{
    if s.len() > 0 && s.last() == '/' {
        trim_end_slashes_text(s.drop_last())
    } else {
        s
    }
}

/// `s` begins with `p`.
pub open spec fn starts_with(s: Seq<char>, p: Seq<char>) -> bool {
    s.len() >= p.len() && s.take(p.len() as int) == p
}

/// The relay's base address with an `http(s)` scheme turned into `ws(s)`.
pub open spec fn websocket_base(base: Seq<char>) -> Seq<char> {
    if starts_with(base, "https://"@) {
        "wss://"@ + base.skip(8)
    } else if starts_with(base, "http://"@) {
        "ws://"@ + base.skip(7)
    } else {
        base
    }
}

/// The websocket address of the relay's API for these settings.
pub open spec fn socket_url_text(relay_url: Seq<char>, client_id: Seq<char>) -> Seq<char> {
    let base = websocket_base(trim_end_slashes_text(trimmed(relay_url)));
    let id = trimmed(client_id);
    if id.len() == 0 {
        base + "/ws/api"@
    } else {
        base + "/ws/api?clientId="@ + urlencoded(id)
    }
}

/// `s` without its trailing slashes.
pub fn trim_end_slashes(s: &str) -> (r: &str)
    ensures
        r@ == trim_end_slashes_text(s@),
{
    let n = s.unicode_len();
    let mut j: usize = n;
    assert(s@.subrange(0, n as int) =~= s@);
    while j > 0 && s.get_char(j - 1) == '/'
        invariant
            n == s@.len(),
            j <= n,
            trim_end_slashes_text(s@) == trim_end_slashes_text(s@.subrange(0, j as int)),
        decreases j,
    {
        assert(s@.subrange(0, j as int).drop_last() =~= s@.subrange(0, j - 1));
        j = j - 1;
    }
    s.substring_char(0, j)
}

/// The rest of `s` after the prefix `p`, if `s` begins with it.
pub fn strip_prefix<'a>(s: &'a str, p: &str) -> (r: Option<&'a str>)
    ensures
        starts_with(s@, p@) ==> (r matches Some(rest) && rest@ == s@.skip(p@.len() as int)),
        !starts_with(s@, p@) ==> r is None,
{
    let n = s.unicode_len();
    let m = p.unicode_len();
    if m > n {
        return None;
    }
    let head = s.substring_char(0, m);
    if str_eq(head, p) {
        Some(s.substring_char(m, n))
    } else {
        None
    }
}

proof fn lemma_no_trailing_slash(s: Seq<char>)
    ensures
        trim_end_slashes_text(s).len() == 0 || trim_end_slashes_text(s).last() != '/',
    decreases s.len(),
{
    if s.len() > 0 && s.last() == '/' {
        lemma_no_trailing_slash(s.drop_last());
    }
}

/// The websocket address: an `https://` relay is reached over `wss://` and an `http://`
/// one over `ws://`, at the API path `/ws/api`, with the trimmed client id as a
/// percent-encoded `clientId` query when one is set. Surrounding whitespace and trailing
/// slashes of the relay URL are dropped, so the path never follows a slash.
pub proof fn law_socket_url(relay_url: Seq<char>, client_id: Seq<char>)
    ensures
        ({
            let b = trim_end_slashes_text(trimmed(relay_url));
            let id = trimmed(client_id);
            let tail = if id.len() == 0 {
                "/ws/api"@
            } else {
                "/ws/api?clientId="@ + urlencoded(id)
            };
            &&& starts_with(b, "https://"@) ==> socket_url_text(relay_url, client_id) == "wss://"@
                + b.skip(8) + tail
            &&& !starts_with(b, "https://"@) && starts_with(b, "http://"@) ==> socket_url_text(
                relay_url,
                client_id,
            ) == "ws://"@ + b.skip(7) + tail
            &&& !starts_with(b, "https://"@) && !starts_with(b, "http://"@) ==> socket_url_text(
                relay_url,
                client_id,
            ) == b + tail
            &&& b.len() == 0 || b.last() != '/'
        }),
{
    lemma_no_trailing_slash(trimmed(relay_url));
}

/// A byte that a URL query carries as itself.
pub open spec fn is_unreserved(b: u8) -> bool {
    ||| 0x41 <= b <= 0x5A
    ||| 0x61 <= b <= 0x7A
    ||| 0x30 <= b <= 0x39
    ||| b == 0x2D
    ||| b == 0x5F
    ||| b == 0x2E
    ||| b == 0x7E
}

/// The uppercase hexadecimal digit character for `d`.
pub open spec fn hex_upper_char(d: int) -> char {
    if d < 10 {
        ((d + 48) as u8) as char
    } else {
        ((d + 55) as u8) as char
    }
}

/// How one byte is written in a URL query.
pub open spec fn url_escape_byte(b: u8) -> Seq<char> {
    if is_unreserved(b) {
        seq![b as char]
    } else {
        seq!['%', hex_upper_char((b / 16) as int), hex_upper_char((b % 16) as int)]
    }
}

/// The bytes written in a URL query, one after the other.
pub open spec fn url_escape(bytes: Seq<u8>) -> Seq<char>
    decreases bytes.len(),
{
    if bytes.len() == 0 {
        Seq::empty()
    } else {
        url_escape(bytes.drop_last()) + url_escape_byte(bytes.last())
    }
}

/// `raw` percent-encoded byte by byte, keeping only the unreserved bytes.
pub open spec fn urlencoded(raw: Seq<char>) -> Seq<char> {
    url_escape(encode_utf8(raw))
}

/// The value of a hexadecimal digit character.
pub open spec fn hex_value(c: char) -> int {
    if (c as int) < 58 {
        c as int - 48
    } else {
        c as int - 55
    }
}

/// Percent-decoding: `%` followed by two hexadecimal digits gives the byte they spell,
/// any other character gives its own code.
pub open spec fn url_decode(s: Seq<char>) -> Seq<u8>
    decreases s.len(),
{
    if s.len() == 0 {
        Seq::empty()
    } else if s[0] == '%' && s.len() >= 3 {
        seq![(hex_value(s[1]) * 16 + hex_value(s[2])) as u8] + url_decode(s.skip(3))
    } else {
        seq![s[0] as u8] + url_decode(s.skip(1))
    }
}

proof fn lemma_url_decode_escaped(b: Seq<u8>, t: Seq<char>)
    ensures
        url_decode(url_escape(b) + t) == b + url_decode(t),
    decreases b.len(),
{
    if b.len() == 0 {
        assert(url_escape(b) + t =~= t);
        assert(b + url_decode(t) =~= url_decode(t));
    } else {
        let init = b.drop_last();
        let x = b.last();
        let e = url_escape_byte(x);
        assert(url_escape(b) + t =~= url_escape(init) + (e + t));
        lemma_url_decode_escaped(init, e + t);
        let et = e + t;
        if is_unreserved(x) {
            assert(et[0] == x as char);
            assert((x as char) as u8 == x);
            assert(et.skip(1) =~= t);
            assert(url_decode(et) == seq![x] + url_decode(t));
        } else {
            let hi = (x / 16) as int;
            let lo = (x % 16) as int;
            assert(hex_value(hex_upper_char(hi)) == hi);
            assert(hex_value(hex_upper_char(lo)) == lo);
            assert(et[0] == '%');
            assert(et[1] == hex_upper_char(hi));
            assert(et[2] == hex_upper_char(lo));
            assert(et.skip(3) =~= t);
            assert((hi * 16 + lo) as u8 == x);
            assert(url_decode(et) == seq![x] + url_decode(t));
        }
        assert(init + (seq![x] + url_decode(t)) =~= b + url_decode(t));
    }
}

/// Percent-decoding what `urlencode` writes gives back the UTF-8 bytes of the input.
pub proof fn law_urlencode_decodes(raw: Seq<char>)
    ensures
        url_decode(urlencoded(raw)) == encode_utf8(raw),
{
    lemma_url_decode_escaped(encode_utf8(raw), Seq::empty());
    assert(urlencoded(raw) + Seq::<char>::empty() =~= urlencoded(raw));
    assert(encode_utf8(raw) + url_decode(Seq::<char>::empty()) =~= encode_utf8(raw));
}

fn hex_upper_digit(d: u8) -> (c: char)
    requires
        d < 16,
    ensures
        c == hex_upper_char(d as int),
{
    if d < 10 {
        (d + 48) as char
    } else {
        (d + 55) as char
    }
}

/// `raw` percent-encoded for a URL query.
pub fn urlencode(raw: &str) -> (r: String)
    ensures
        r@ == urlencoded(raw@),
{
    let bytes = raw.as_bytes();
    let mut out = String::new();
    let mut i: usize = 0;
    while i < bytes.len()
        invariant
            bytes@ == raw.spec_bytes(),
            i <= bytes@.len(),
            out@ == url_escape(bytes@.take(i as int)),
        decreases bytes@.len() - i,
    {
        let b = bytes[i];
        assert(bytes@.take(i + 1).drop_last() =~= bytes@.take(i as int));
        if (0x41 <= b && b <= 0x5A) || (0x61 <= b && b <= 0x7A) || (0x30 <= b && b <= 0x39) || b
            == 0x2D || b == 0x5F || b == 0x2E || b == 0x7E {
            push_char(&mut out, b as char);
        } else {
            push_char(&mut out, '%');
            push_char(&mut out, hex_upper_digit(b / 16));
            push_char(&mut out, hex_upper_digit(b % 16));
        }
        assert(out@ =~= url_escape(bytes@.take(i + 1)));
        i = i + 1;
    }
    assert(bytes@.take(bytes@.len() as int) =~= bytes@);
    out
}

/// How a secret shows in logs: whether it is set, and for a long one its last four bytes.
pub open spec fn redacted(secret: Seq<char>) -> Seq<char> {
    let bytes = encode_utf8(secret);
    if secret.len() == 0 {
        "<unset>"@
    } else if secret.len() <= 4 {
        "<redacted>"@
    } else {
        "<redacted:"@ + decode_utf8(bytes.subrange(bytes.len() - 4, bytes.len() as int))
            + ">"@
    }
}

/// `secret` as it may show in logs. A secret longer than four characters must end in
/// whole characters over its last four bytes.
pub fn redact(secret: &str) -> (r: String)
    requires
        secret@.len() > 4 ==> is_char_boundary(
            secret.spec_bytes(),
            secret.spec_bytes().len() - 4,
        ),
    ensures
        r@ == redacted(secret@),
{
    let n = secret.unicode_len();
    if n == 0 {
        owned("<unset>")
    } else if n <= 4 {
        owned("<redacted>")
    } else {
        proof {
            lemma_utf8_len_bounds(secret@);
            assert(secret.spec_bytes() == encode_utf8(secret@));
        }
        let len = secret.as_bytes().len();
        let (_, tail) = secret.split_at(len - 4);
        proof {
            vstd::utf8::encode_utf8_decode_utf8(tail@);
        }
        let mut r = owned("<redacted:");
        r.append(tail);
        r.append(">");
        r
    }
}

/// The decimal value of a run of digits.
pub open spec fn digits_value(s: Seq<char>) -> nat
    decreases s.len(),
{
    if s.len() == 0 {
        0
    } else {
        digits_value(s.drop_last()) * 10 + ((s.last() as u32) - 48) as nat
    }
}

pub open spec fn is_digit(c: char) -> bool {
    '0' <= c <= '9'
}

/// The digits of a number text: the text without an optional leading `+`.
pub open spec fn unsigned_digits(s: Seq<char>) -> Seq<char> {
    if s.len() > 0 && s[0] == '+' {
        s.drop_first()
    } else {
        s
    }
}

/// Every character is a decimal digit.
pub open spec fn all_digits(d: Seq<char>) -> bool {
    forall|i: int| 0 <= i < d.len() ==> is_digit(#[trigger] d[i])
}

/// What `str::parse::<u64>` gives: an optional `+` and at least one decimal digit,
/// whose value fits in 64 bits.
pub open spec fn parsed_u64(s: Seq<char>) -> Option<u64> {
    let d = unsigned_digits(s);
    if d.len() > 0 && all_digits(d) && digits_value(d) <= u64::MAX {
        Some(digits_value(d) as u64)
    } else {
        None
    }
}

proof fn lemma_digits_value_grows(d: Seq<char>, i: int)
    requires
        0 <= i <= d.len(),
        forall|k: int| 0 <= k < d.len() ==> is_digit(#[trigger] d[k]),
    ensures
        digits_value(d.take(i)) <= digits_value(d),
    decreases d.len() - i,
{
    if i < d.len() {
        lemma_digits_value_grows(d, i + 1);
        assert(d.take(i + 1).drop_last() =~= d.take(i));
    } else {
        assert(d.take(i) =~= d);
    }
}

/// `s` read as an unsigned decimal number.
pub fn parse_u64(s: &str) -> (r: Option<u64>)
    ensures
        r == parsed_u64(s@),
{
    let n = s.unicode_len();
    let start: usize = if n > 0 && s.get_char(0) == '+' {
        1
    } else {
        0
    };
    let ghost d = s@.skip(start as int);
    assert(d == unsigned_digits(s@));
    if start == n {
        return None;
    }
    let mut value: u64 = 0;
    let mut i: usize = start;
    while i < n
        invariant
            n == s@.len(),
            start <= i <= n,
            d == s@.skip(start as int),
            d == unsigned_digits(s@),
            d.len() == n - start,
            forall|k: int| 0 <= k < i - start ==> is_digit(#[trigger] d[k]),
            value == digits_value(d.take(i - start)),
        decreases n - i,
    {
        let c = s.get_char(i);
        assert(d[i - start] == c);
        if !('0' <= c && c <= '9') {
            assert(!is_digit(d[i - start]));
            assert(!all_digits(d));
            return None;
        }
        let digit = (c as u32 - 48) as u64;
        let ghost t = d.take(i - start + 1);
        assert(t.drop_last() =~= d.take(i - start));
        assert(t.last() == c);
        assert(digits_value(t) == value * 10 + digit);
        if value > (u64::MAX - digit) / 10 {
            proof {
                assert(digits_value(d.take(i - start + 1)) > u64::MAX) by (nonlinear_arith)
                    requires
                        value > (u64::MAX - digit) / 10,
                        digits_value(d.take(i - start + 1)) == value * 10 + digit,
                        digit <= 9,
                ;
                if all_digits(d) {
                    lemma_digits_value_grows(d, i - start + 1);
                    assert(digits_value(d) > u64::MAX);
                }
            }
            return None;
        }
        assert(value * 10 + digit <= u64::MAX) by (nonlinear_arith)
            requires
                value <= (u64::MAX - digit) / 10,
                digit <= 9,
        ;
        value = value * 10 + digit;
        i = i + 1;
    }
    assert(d.take(n - start) =~= d);
    assert(all_digits(d));
    Some(value)
}

/// The relay settings that the environment may supply, as read from it.
pub struct EnvFallback {
    pub relay_url: Option<String>,
    pub relay_key: Option<String>,
    pub client_id: Option<String>,
    pub poll_ms: Option<String>,
}

/// An environment value counts when it is set and not blank.
pub open spec fn env_value(v: Option<String>) -> Option<Seq<char>> {
    match v {
        Some(s) => if trimmed(s@).len() > 0 {
            Some(s@)
        } else {
            None
        },
        None => None,
    }
}

/// The poll interval that the environment sets, if it sets a valid one.
pub open spec fn env_poll_ms(v: Option<String>) -> Option<u64> {
    match env_value(v) {
        Some(s) => parsed_u64(trimmed(s)),
        None => None,
    }
}

/// A setting left blank takes the environment's value, if the environment has one.
pub open spec fn fallback_text(current: Seq<char>, env: Option<String>) -> Seq<char> {
    if trimmed(current).len() == 0 && env_value(env) is Some {
        env_value(env)->0
    } else {
        current
    }
}

/// The environment only fills a blank setting: a setting with text keeps it, a blank one
/// takes the environment's value as it is when that value is not blank, and stays as it
/// was otherwise.
pub proof fn law_env_fallback(current: Seq<char>, env: Option<String>)
    ensures
        trimmed(current).len() > 0 ==> fallback_text(current, env) == current,
        trimmed(current).len() == 0 && env is Some && trimmed(env->0@).len() > 0 ==> fallback_text(
            current,
            env,
        ) == env->0@,
        (env is None || trimmed(env->0@).len() == 0) ==> fallback_text(current, env) == current,
{
}

fn fallback(current: String, env: &Option<String>) -> (r: String)
    ensures
        r@ == fallback_text(current@, *env),
{
    if is_blank(current.as_str()) {
        match env {
            Some(v) => if !is_blank(v.as_str()) {
                return v.clone();
            },
            None => {},
        }
    }
    current
}

/// Fills the relay settings left blank from the environment, and takes the poll interval
/// from the environment when it holds a valid one.
pub fn apply_env_fallback(config: Config, env: &EnvFallback) -> (r: Config)
    ensures
        r.relay_url@ == fallback_text(config.relay_url@, env.relay_url),
        r.api_key@ == fallback_text(config.api_key@, env.relay_key),
        r.client_id@ == fallback_text(config.client_id@, env.client_id),
        r.poll_ms == match env_poll_ms(env.poll_ms) {
            Some(ms) => ms,
            None => config.poll_ms,
        },
        r.indicator == config.indicator,
        r.border_color == config.border_color,
{
    let Config { relay_url, api_key, client_id, poll_ms, indicator, border_color } = config;
    let relay_url = fallback(relay_url, &env.relay_url);
    let api_key = fallback(api_key, &env.relay_key);
    let client_id = fallback(client_id, &env.client_id);
    let mut poll_ms = poll_ms;
    match &env.poll_ms {
        Some(v) => if !is_blank(v.as_str()) {
            match parse_u64(trim(v.as_str())) {
                Some(ms) => {
                    poll_ms = ms;
                },
                None => {},
            }
        },
        None => {},
    }
    Config { relay_url, api_key, client_id, poll_ms, indicator, border_color }
}

} // verus!

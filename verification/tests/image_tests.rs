use base64::Engine;
use foundryvtt_streamdeck::foundry::ArtSource;
use foundryvtt_streamdeck::image::{
    wrap_svg, ArtEntry, ArtKey, ConditionArt, ConditionKey, KeySet, TtlCache, CAPACITY, TTL_NANOS,
};

fn entry(tag: &str) -> ArtEntry {
    ArtEntry {
        closed: format!("{tag}-closed"),
        open: format!("{tag}-open"),
        offline: format!("{tag}-offline"),
        name: tag.to_string(),
    }
}

fn key(uuid: &str) -> ArtKey {
    ArtKey { uuid: uuid.to_string(), source: ArtSource::Token, open_color: "#ff6400".to_string() }
}

fn decode(data_url: &str) -> String {
    let b64 = data_url.strip_prefix("data:image/svg+xml;base64,").expect("prefix");
    String::from_utf8(base64::engine::general_purpose::STANDARD.decode(b64).unwrap()).unwrap()
}

#[test]
fn variant_follows_open_and_online() {
    let e = entry("a");
    assert_eq!(e.variant(true, true), "a-open");
    assert_eq!(e.variant(false, true), "a-closed");
    assert_eq!(e.variant(true, false), "a-offline");
    assert_eq!(e.variant(false, false), "a-offline");
}

#[test]
fn cache_read_after_write_until_stale() {
    let mut cache: TtlCache<ArtKey, ArtEntry> = TtlCache::new();
    cache.insert(key("A"), entry("a"), 1_000);
    assert_eq!(cache.get(&key("A"), 1_000), Some(entry("a")));
    assert_eq!(cache.get(&key("A"), 1_000 + TTL_NANOS), Some(entry("a")));
    assert_eq!(cache.get(&key("A"), 0), Some(entry("a")));
    assert_eq!(cache.len(), 1);
    assert_eq!(cache.get(&key("A"), 1_001 + TTL_NANOS), None);
    assert_eq!(cache.len(), 0, "a stale entry is dropped");
    assert_eq!(cache.get(&key("B"), 0), None);
}

#[test]
fn cache_ttl_is_ten_minutes() {
    assert_eq!(TTL_NANOS, 600 * 1_000_000_000);
    assert_eq!(CAPACITY, 32);
}

#[test]
fn cache_keys_include_source_and_colour() {
    let mut cache: TtlCache<ArtKey, ArtEntry> = TtlCache::new();
    cache.insert(key("A"), entry("a"), 0);
    let portrait = ArtKey { uuid: "A".to_string(), source: ArtSource::Portrait, open_color: "#ff6400".to_string() };
    let other_colour = ArtKey { uuid: "A".to_string(), source: ArtSource::Token, open_color: "#00ff00".to_string() };
    assert_eq!(cache.get(&portrait, 0), None);
    assert_eq!(cache.get(&other_colour, 0), None);
    assert_eq!(cache.get(&key("A"), 0), Some(entry("a")));
}

#[test]
fn cache_evicts_beyond_capacity_after_a_store_refresh() {
    let mut cache: TtlCache<ArtKey, ArtEntry> = TtlCache::new();
    for i in 0..CAPACITY {
        cache.insert(key(&format!("k{i}")), entry(&format!("e{i}")), 5);
    }
    assert_eq!(cache.len(), CAPACITY);
    // storing k0 again makes k1 the least recently used
    cache.insert(key("k0"), entry("again"), 6);
    assert_eq!(cache.len(), CAPACITY);
    cache.insert(key("new"), entry("new"), 7);
    assert_eq!(cache.len(), CAPACITY);
    assert_eq!(cache.get(&key("k1"), 7), None);
    assert_eq!(cache.get(&key("k0"), 7), Some(entry("again")));
    assert_eq!(cache.get(&key("k2"), 7), Some(entry("e2")));
    assert_eq!(cache.get(&key("new"), 7), Some(entry("new")));
}

#[test]
fn cache_remove_and_clear() {
    let mut cache: TtlCache<ConditionKey, ConditionArt> = TtlCache::new();
    let k = ConditionKey { id: "prone".to_string(), accent: "#fff".to_string() };
    let art = ConditionArt {
        name: "Prone".to_string(),
        off: "off".to_string(),
        on: "on".to_string(),
        mixed: "mixed".to_string(),
        none: "none".to_string(),
        offline: "offline".to_string(),
    };
    cache.insert(ConditionKey { id: "prone".to_string(), accent: "#fff".to_string() }, art, 0);
    assert!(cache.get(&k, 0).is_some());
    cache.remove(&k);
    assert_eq!(cache.get(&k, 0), None);
    cache.insert(ConditionKey { id: "x".to_string(), accent: "#fff".to_string() }, ConditionArt {
        name: String::new(), off: String::new(), on: "on".to_string(), mixed: String::new(), none: String::new(), offline: String::new(),
    }, 0);
    cache.clear();
    assert_eq!(cache.len(), 0);
}

#[test]
fn keyset_runs_one_fetch_per_key() {
    let mut inflight: KeySet<ArtKey> = KeySet::new();
    assert!(inflight.insert(key("A")));
    assert!(!inflight.insert(key("A")));
    assert!(inflight.contains(&key("A")));
    assert!(inflight.insert(key("B")));
    inflight.remove(&key("A"));
    assert!(!inflight.contains(&key("A")));
    assert!(inflight.insert(key("A")));
}

#[test]
fn wrap_svg_without_border() {
    let wrapped = wrap_svg("data:image/webp;base64,AAAA", None);
    assert_eq!(
        decode(&wrapped),
        r#"<svg xmlns="http://www.w3.org/2000/svg" viewBox="0 0 144 144" width="144" height="144"><image href="data:image/webp;base64,AAAA" x="0" y="0" width="144" height="144" preserveAspectRatio="xMidYMid meet"/></svg>"#
    );
}

#[test]
fn wrap_svg_with_border() {
    let wrapped = wrap_svg("art", Some("#6b6b6b"));
    assert_eq!(
        decode(&wrapped),
        r##"<svg xmlns="http://www.w3.org/2000/svg" viewBox="0 0 144 144" width="144" height="144"><image href="art" x="0" y="0" width="144" height="144" preserveAspectRatio="xMidYMid meet"/><rect x="5" y="5" width="134" height="134" rx="12" fill="none" stroke="#6b6b6b" stroke-width="10"/></svg>"##
    );
    assert_eq!(
        wrapped,
        format!(
            "data:image/svg+xml;base64,{}",
            base64::engine::general_purpose::STANDARD.encode(decode(&wrapped))
        )
    );
}

#[test]
fn cache_evicts_the_least_recently_used() {
    let mut cache: TtlCache<ArtKey, ArtEntry> = TtlCache::new();
    for i in 1..=CAPACITY {
        cache.insert(key(&format!("k{i}")), entry(&format!("e{i}")), 5);
    }
    // reading the least recently used key makes it the most recently used
    assert_eq!(cache.get(&key("k1"), 6), Some(entry("e1")));
    cache.insert(key("k33"), entry("e33"), 7);
    assert_eq!(cache.len(), CAPACITY);
    assert_eq!(cache.get(&key("k1"), 7), Some(entry("e1")));
    assert_eq!(cache.get(&key("k2"), 7), None);
    assert_eq!(cache.get(&key("k33"), 7), Some(entry("e33")));
}

#[test]
fn cache_refresh_keeps_the_stored_time() {
    let mut cache: TtlCache<ArtKey, ArtEntry> = TtlCache::new();
    cache.insert(key("A"), entry("a"), 0);
    assert_eq!(cache.get(&key("A"), TTL_NANOS), Some(entry("a")));
    assert_eq!(cache.get(&key("A"), TTL_NANOS + 1), None);
}

use cache_server::commands::{format_u64, handle_set, parse_u64_ascii, resolve_ttl};
use cache_server::protocol::{respond, tokenize};
use cache_server::store::SharedCache;

#[test]
fn get_unset_key_yields_nil() {
    let mut cache = SharedCache::new();
    let r = respond(b"GET missing", &mut cache, 0);
    assert_eq!(r, Some(b"NIL\n".to_vec()));
}

#[test]
fn set_then_get_yields_value() {
    let mut cache = SharedCache::new();
    let r = respond(b"SET k v 10", &mut cache, 0);
    assert_eq!(r, Some(b"OK\n".to_vec()));
    let r = respond(b"GET k", &mut cache, 0);
    assert_eq!(r, Some(b"VALUE: v\n".to_vec()));
    // still live at the expiry instant itself
    let r = respond(b"GET k", &mut cache, 10_000);
    assert_eq!(r, Some(b"VALUE: v\n".to_vec()));
    // stale one millisecond later
    let r = respond(b"GET k", &mut cache, 10_001);
    assert_eq!(r, Some(b"NIL\n".to_vec()));
}

#[test]
fn zero_ttl_expires_at_once() {
    let mut cache = SharedCache::new();
    let r = respond(b"SET k v 0", &mut cache, 0);
    assert_eq!(r, Some(b"OK\n".to_vec()));
    let r = respond(b"GET k", &mut cache, 1);
    assert_eq!(r, Some(b"NIL\n".to_vec()));
}

#[test]
fn large_ttl_resets_to_sixty_seconds() {
    let mut cache = SharedCache::new();
    let r = respond(b"SET k v 150", &mut cache, 0);
    assert_eq!(r, Some(b"OK\n".to_vec()));
    // live through the 60-second default window
    let r = respond(b"GET k", &mut cache, 60_000);
    assert_eq!(r, Some(b"VALUE: v\n".to_vec()));
    // gone right after 60 seconds, long before 150 would have elapsed
    let r = respond(b"GET k", &mut cache, 60_001);
    assert_eq!(r, Some(b"NIL\n".to_vec()));
}

#[test]
fn non_numeric_ttl_behaves_like_sixty() {
    let mut cache = SharedCache::new();
    let r = respond(b"SET k v abc", &mut cache, 0);
    assert_eq!(r, Some(b"OK\n".to_vec()));
    let r = respond(b"GET k", &mut cache, 60_000);
    assert_eq!(r, Some(b"VALUE: v\n".to_vec()));
    let r = respond(b"GET k", &mut cache, 60_001);
    assert_eq!(r, Some(b"NIL\n".to_vec()));
}

#[test]
fn sweep_removes_expired_entries() {
    let mut cache = SharedCache::new();
    respond(b"SET a xx 1", &mut cache, 0);
    respond(b"SET b yyy 50", &mut cache, 0);
    let r = respond(b"STATS", &mut cache, 0);
    assert_eq!(r, Some(b"ITEMS: 2\nBYTES: 5\n".to_vec()));
    // one sweep after `a` expired: only `b` is left, without any read of `a`
    cache.sweep(1_000);
    let r = respond(b"STATS", &mut cache, 1_000);
    assert_eq!(r, Some(b"ITEMS: 1\nBYTES: 3\n".to_vec()));
    let r = respond(b"GET a", &mut cache, 1_000);
    assert_eq!(r, Some(b"NIL\n".to_vec()));
    let r = respond(b"HAS a", &mut cache, 1_000);
    assert_eq!(r, Some(b"FALSE\n".to_vec()));
    let r = respond(b"GET b", &mut cache, 1_000);
    assert_eq!(r, Some(b"VALUE: yyy\n".to_vec()));
}

#[test]
fn stats_counts_entries_and_bytes() {
    let mut cache = SharedCache::new();
    respond(b"SET one aaaa 10", &mut cache, 0);
    respond(b"SET two bb 10", &mut cache, 0);
    respond(b"SET one cc 10", &mut cache, 0); // overwrite: still 2 entries
    let r = respond(b"STATS", &mut cache, 0);
    assert_eq!(r, Some(b"ITEMS: 2\nBYTES: 4\n".to_vec()));
}

#[test]
fn last_writer_wins_and_disjoint_keys_are_independent() {
    let mut cache = SharedCache::new();
    respond(b"SET k first 100", &mut cache, 0);
    respond(b"SET other untouched 100", &mut cache, 0);
    respond(b"SET k second 100", &mut cache, 0);
    let r = respond(b"GET k", &mut cache, 0);
    assert_eq!(r, Some(b"VALUE: second\n".to_vec()));
    let r = respond(b"GET other", &mut cache, 0);
    assert_eq!(r, Some(b"VALUE: untouched\n".to_vec()));
}

#[test]
fn quit_answers_nothing_and_changes_nothing() {
    let mut cache = SharedCache::new();
    respond(b"SET k v 100", &mut cache, 0);
    let r = respond(b"QUIT", &mut cache, 0);
    assert_eq!(r, None);
    let r = respond(b"STATS", &mut cache, 0);
    assert_eq!(r, Some(b"ITEMS: 1\nBYTES: 1\n".to_vec()));
}

#[test]
fn unknown_command_reports_error_and_connection_goes_on() {
    let mut cache = SharedCache::new();
    let r = respond(b"FOO bar", &mut cache, 0);
    assert_eq!(r, Some(b"ERROR: Unknown Command\n".to_vec()));
    // a SET line without its ttl token is unknown, not a default-ttl SET
    let r = respond(b"SET k v", &mut cache, 0);
    assert_eq!(r, Some(b"ERROR: Unknown Command\n".to_vec()));
    let r = respond(b"", &mut cache, 0);
    assert_eq!(r, Some(b"ERROR: Unknown Command\n".to_vec()));
    // the same connection keeps working afterwards
    let r = respond(b"SET k v 10", &mut cache, 0);
    assert_eq!(r, Some(b"OK\n".to_vec()));
}

#[test]
fn end_to_end_scenario() {
    let mut cache = SharedCache::new();
    assert_eq!(respond(b"SET a hello 10", &mut cache, 0), Some(b"OK\n".to_vec()));
    assert_eq!(respond(b"GET a", &mut cache, 1), Some(b"VALUE: hello\n".to_vec()));
    assert_eq!(respond(b"STATS", &mut cache, 2), Some(b"ITEMS: 1\nBYTES: 5\n".to_vec()));
    assert_eq!(respond(b"HAS a", &mut cache, 3), Some(b"TRUE\n".to_vec()));
    assert_eq!(respond(b"QUIT", &mut cache, 4), None);
}

#[test]
fn store_set_without_ttl_never_expires() {
    let mut cache = SharedCache::new();
    cache.set(b"k".to_vec(), b"forever".to_vec(), None, 0);
    assert_eq!(cache.get(b"k", u64::MAX), Some(b"forever".to_vec()));
    assert!(cache.has(b"k", u64::MAX));
    cache.sweep(u64::MAX);
    assert_eq!(cache.get(b"k", u64::MAX), Some(b"forever".to_vec()));
}

#[test]
fn store_get_removes_expired_entry_lazily() {
    let mut cache = SharedCache::new();
    cache.set(b"k".to_vec(), b"v".to_vec(), Some(5), 0);
    let stats = cache.stats();
    assert_eq!(stats.item_count, 1);
    assert_eq!(stats.total_bytes, 1);
    // the read finds the entry stale, answers absent and removes it
    assert_eq!(cache.get(b"k", 6), None);
    let stats = cache.stats();
    assert_eq!(stats.item_count, 0);
    assert_eq!(stats.total_bytes, 0);
}

#[test]
fn tokenizer_ignores_extra_whitespace() {
    let toks = tokenize(b"  GET \t key1  \r\n");
    assert_eq!(toks, vec![b"GET".to_vec(), b"key1".to_vec()]);
    let mut cache = SharedCache::new();
    let r = respond(b"   SET   k   v   10  \r\n", &mut cache, 0);
    assert_eq!(r, Some(b"OK\n".to_vec()));
    let r = respond(b"\tGET\tk\r\n", &mut cache, 0);
    assert_eq!(r, Some(b"VALUE: v\n".to_vec()));
    assert_eq!(tokenize(b"   \t \r\n"), Vec::<Vec<u8>>::new());
}

#[test]
fn parse_accepts_plain_and_plus_prefixed_decimals() {
    assert_eq!(parse_u64_ascii(b"0"), Some(0));
    assert_eq!(parse_u64_ascii(b"150"), Some(150));
    assert_eq!(parse_u64_ascii(b"+50"), Some(50));
    assert_eq!(parse_u64_ascii(b"00042"), Some(42));
    assert_eq!(parse_u64_ascii(b"18446744073709551615"), Some(u64::MAX));
}

#[test]
fn parse_rejects_malformed_and_overflowing_tokens() {
    assert_eq!(parse_u64_ascii(b""), None);
    assert_eq!(parse_u64_ascii(b"+"), None);
    assert_eq!(parse_u64_ascii(b"abc"), None);
    assert_eq!(parse_u64_ascii(b"12a"), None);
    assert_eq!(parse_u64_ascii(b"-1"), None);
    assert_eq!(parse_u64_ascii(b"18446744073709551616"), None);
    assert_eq!(parse_u64_ascii(b"99999999999999999999999"), None);
}

#[test]
fn ttl_resolution_rules() {
    assert_eq!(resolve_ttl(None), 60);
    assert_eq!(resolve_ttl(Some(b"30")), 30);
    assert_eq!(resolve_ttl(Some(b"100")), 100);
    assert_eq!(resolve_ttl(Some(b"101")), 60);
    assert_eq!(resolve_ttl(Some(b"150")), 60);
    assert_eq!(resolve_ttl(Some(b"0")), 0);
    assert_eq!(resolve_ttl(Some(b"abc")), 60);
    assert_eq!(resolve_ttl(Some(b"18446744073709551616")), 60);
}

#[test]
fn formats_decimals_exactly() {
    assert_eq!(format_u64(0), b"0".to_vec());
    assert_eq!(format_u64(7), b"7".to_vec());
    assert_eq!(format_u64(60), b"60".to_vec());
    assert_eq!(format_u64(1234567890), b"1234567890".to_vec());
    assert_eq!(format_u64(u64::MAX), b"18446744073709551615".to_vec());
}

#[test]
fn handle_set_with_missing_ttl_defaults_to_sixty() {
    // the internal default: no ttl token at all still stores for 60 seconds
    let mut cache = SharedCache::new();
    let r = handle_set(b"k", b"v", None, &mut cache, 0);
    assert_eq!(r, b"OK\n".to_vec());
    assert_eq!(cache.get(b"k", 60_000), Some(b"v".to_vec()));
    assert_eq!(cache.get(b"k", 60_001), None);
}

//! The laws of the cache, stated over the store model and proved once and
//! for all: what reads see, what the time-to-live rules resolve to, what the
//! sweep removes, and how writes to different keys stay independent.

use vstd::prelude::*;
use crate::store::{
    EntryModel, add_entry_bytes, kept_by_sweep, spec_read, spec_total_bytes, swept_keys,
};
use crate::commands::{
    digits_value, resp_error, resp_nil, resp_value, spec_get_response, spec_parse_u64,
    spec_resolve_ttl,
};
use crate::protocol::{known_command, kw_quit, spec_respond, spec_tokens};

verus! {

/// A key that was never stored answers `NIL` to a `GET`, at any time.
pub proof fn lemma_get_unset_key(m: Map<Seq<u8>, EntryModel>, key: Seq<u8>, now: u64)
    requires
        !m.dom().contains(key),
    ensures
        spec_read(m, key, now) is None,
        spec_get_response(m, key, now) == resp_nil(),
{
}

/// Storing a value whose ttl token parses to `t` with `0 < t <= 100` keeps
/// `t` as the time-to-live, and any read at or before the expiry time sees
/// exactly the stored value.
pub proof fn lemma_set_then_get(
    m: Map<Seq<u8>, EntryModel>,
    key: Seq<u8>,
    val: Seq<u8>,
    tok: Seq<u8>,
    t: u64,
    now1: u64,
    now2: u64,
)
    requires
        spec_parse_u64(tok) == Option::Some(t),
        0 < t <= 100,
        now1 + t * 1000 <= u64::MAX,
        now2 <= now1 + t * 1000,
    ensures
        spec_resolve_ttl(Option::Some(tok)) == t,
        spec_read(
            m.insert(key, (val, Option::Some((now1 + t * 1000) as u64))),
            key,
            now2,
        ) == Option::Some(val),
        spec_get_response(
            m.insert(key, (val, Option::Some((now1 + t * 1000) as u64))),
            key,
            now2,
        ) == resp_value(val),
{
}

/// A ttl token of `0` stores an entry that expires at once: any strictly
/// later read answers `NIL`.
pub proof fn lemma_zero_ttl_expires_at_once(
    m: Map<Seq<u8>, EntryModel>,
    key: Seq<u8>,
    val: Seq<u8>,
    now1: u64,
    now2: u64,
)
    requires
        now1 < now2,
    ensures
        spec_resolve_ttl(Option::Some(seq![48u8])) == 0,
        spec_read(m.insert(key, (val, Option::Some(now1))), key, now2) is None,
        spec_get_response(m.insert(key, (val, Option::Some(now1))), key, now2) == resp_nil(),
{
    let d = seq![48u8];
    assert(d.drop_last() =~= Seq::<u8>::empty());
    assert(digits_value(d.drop_last()) == 0);
    assert(digits_value(d) == digits_value(d.drop_last()) * 10 + (d.last() - 48));
    assert(d.last() == 48);
    assert(spec_parse_u64(d) == Option::Some(0u64));
}

/// A ttl token that parses to any value above 100 is reset to exactly 60
/// seconds, not capped at 100.
pub proof fn lemma_large_ttl_resets_to_default(tok: Seq<u8>, v: u64)
    requires
        spec_parse_u64(tok) == Option::Some(v),
        v > 100,
    ensures
        spec_resolve_ttl(Option::Some(tok)) == 60,
{
}

/// A ttl token that does not parse as a number behaves exactly like 60.
pub proof fn lemma_malformed_ttl_defaults(tok: Seq<u8>)
    requires
        spec_parse_u64(tok) is None,
    ensures
        spec_resolve_ttl(Option::Some(tok)) == 60,
{
}

/// Folding the byte total over a key set only reads the entries under those
/// keys: two stores that agree there fold to the same total.
proof fn lemma_sum_agrees(
    s: Set<Seq<u8>>,
    ma: Map<Seq<u8>, EntryModel>,
    mb: Map<Seq<u8>, EntryModel>,
)
    requires
        s.finite(),
        forall|k: Seq<u8>| #[trigger] s.contains(k) ==> ma[k] == mb[k],
    ensures
        s.fold(0, add_entry_bytes(ma)) == s.fold(0, add_entry_bytes(mb)),
    decreases s.len(),
{
    if s.len() == 0 {
        s.lemma_len0_is_empty();
        vstd::set::fold::lemma_fold_empty(0int, add_entry_bytes(ma));
        vstd::set::fold::lemma_fold_empty(0int, add_entry_bytes(mb));
    } else {
        assert(!(s =~= Set::empty()));
        let k = s.choose();
        assert(s.contains(k));
        lemma_sum_agrees(s.remove(k), ma, mb);
        vstd::set::fold::lemma_fold_insert(s.remove(k), 0int, add_entry_bytes(ma), k);
        vstd::set::fold::lemma_fold_insert(s.remove(k), 0int, add_entry_bytes(mb), k);
        assert(s.remove(k).insert(k) =~= s);
    }
}

/// Dropping keys can only shrink the byte total.
proof fn lemma_sum_subset(s1: Set<Seq<u8>>, s2: Set<Seq<u8>>, m: Map<Seq<u8>, EntryModel>)
    requires
        s2.finite(),
        s1.subset_of(s2),
    ensures
        s1.fold(0, add_entry_bytes(m)) <= s2.fold(0, add_entry_bytes(m)),
    decreases s2.len(),
{
    vstd::set_lib::lemma_len_subset(s1, s2);
    if s1 =~= s2 {
    } else {
        let k = choose|k: Seq<u8>| s2.contains(k) && !s1.contains(k);
        lemma_sum_subset(s1, s2.remove(k), m);
        vstd::set::fold::lemma_fold_insert(s2.remove(k), 0int, add_entry_bytes(m), k);
        assert(s2.remove(k).insert(k) =~= s2);
    }
}

/// A sweep at `now` removes every entry whose expiry time is at or before
/// `now`: afterwards the key reads as absent, the entry count is strictly
/// smaller and the byte total no larger.
pub proof fn lemma_sweep_removes_expired(m: Map<Seq<u8>, EntryModel>, key: Seq<u8>, now: u64)
    requires
        m.dom().finite(),
        m.dom().contains(key),
        !kept_by_sweep(m[key], now),
    ensures
        !m.restrict(swept_keys(m, now)).dom().contains(key),
        spec_read(m.restrict(swept_keys(m, now)), key, now) is None,
        m.restrict(swept_keys(m, now)).dom().len() < m.dom().len(),
        spec_total_bytes(m.restrict(swept_keys(m, now))) <= spec_total_bytes(m),
{
    let m2 = m.restrict(swept_keys(m, now));
    assert(m2.dom().subset_of(m.dom().remove(key)));
    vstd::set_lib::lemma_len_subset(m2.dom(), m.dom().remove(key));
    assert(m.dom().remove(key).len() < m.dom().len());
    lemma_sum_agrees(m2.dom(), m2, m);
    lemma_sum_subset(m2.dom(), m.dom(), m);
}

/// A sweep leaves exactly the entries that are still within their
/// time-to-live; every surviving entry is readable unchanged.
pub proof fn lemma_sweep_keeps_live(m: Map<Seq<u8>, EntryModel>, key: Seq<u8>, now: u64)
    requires
        m.dom().contains(key),
        kept_by_sweep(m[key], now),
    ensures
        m.restrict(swept_keys(m, now)).dom().contains(key),
        m.restrict(swept_keys(m, now))[key] == m[key],
        spec_read(m.restrict(swept_keys(m, now)), key, now) == Option::Some(m[key].0),
{
}

/// Writing one key never disturbs what a read of any other key sees.
pub proof fn lemma_disjoint_keys_independent(
    m: Map<Seq<u8>, EntryModel>,
    k1: Seq<u8>,
    e1: EntryModel,
    k2: Seq<u8>,
    now: u64,
)
    requires
        k1 != k2,
    ensures
        spec_read(m.insert(k1, e1), k2, now) == spec_read(m, k2, now),
{
}

/// For a single key the last completed write wins: two writes in a row leave
/// exactly the store the second one makes.
pub proof fn lemma_last_writer_wins(
    m: Map<Seq<u8>, EntryModel>,
    key: Seq<u8>,
    e1: EntryModel,
    e2: EntryModel,
)
    ensures
        m.insert(key, e1).insert(key, e2) == m.insert(key, e2),
{
    assert(m.insert(key, e1).insert(key, e2) =~= m.insert(key, e2));
}

/// `QUIT` answers nothing at all and leaves the store untouched; the
/// connection loop then closes without writing a byte.
pub proof fn lemma_quit_writes_nothing(line: Seq<u8>, m: Map<Seq<u8>, EntryModel>, now: u64)
    requires
        spec_tokens(line) == seq![kw_quit()],
    ensures
        spec_respond(line, m, now).0 is None,
        spec_respond(line, m, now).1 == m,
{
    assert(spec_tokens(line)[0] == kw_quit());
}

/// Every line that resolves to no known command gets the unknown-command
/// error and changes nothing, so the connection accepts further commands
/// against an unchanged store.
pub proof fn lemma_unknown_command(line: Seq<u8>, m: Map<Seq<u8>, EntryModel>, now: u64)
    requires
        !known_command(spec_tokens(line)),
    ensures
        spec_respond(line, m, now).0 == Option::Some(resp_error()),
        spec_respond(line, m, now).1 == m,
{
}

} // verus!

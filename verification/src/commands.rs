//! Command execution: each handler runs one protocol command against the
//! store and produces the exact response bytes the wire protocol prescribes.

use vstd::prelude::*;
use crate::store::{
    SharedCache, clip_to_usize, spec_read, spec_read_map, spec_total_bytes,
};

verus! {

/// An ASCII decimal digit.
pub open spec fn is_ascii_digit(b: u8) -> bool {
    48 <= b <= 57
}

pub open spec fn all_digits(s: Seq<u8>) -> bool {
    forall|i: int| 0 <= i < s.len() ==> is_ascii_digit(#[trigger] s[i])
}

/// The number a sequence of ASCII digits denotes.
pub open spec fn digits_value(s: Seq<u8>) -> int
    decreases s.len(),
{
    if s.len() == 0 {
        0
    } else {
        digits_value(s.drop_last()) * 10 + (s.last() - 48)
    }
}

/// The digit part of a numeric token: one leading plus sign is allowed.
pub open spec fn strip_plus(s: Seq<u8>) -> Seq<u8> {
    if s.len() > 0 && s[0] == 43 {
        s.subrange(1, s.len() as int)
    } else {
        s
    }
}

/// What parsing a token as an unsigned 64-bit decimal gives: the token must
/// be one optional plus sign, then one or more digits, and the value must fit.
pub open spec fn spec_parse_u64(s: Seq<u8>) -> Option<u64> {
    let d = strip_plus(s);
    if d.len() > 0 && all_digits(d) && digits_value(d) <= u64::MAX as int {
        Option::Some(digits_value(d) as u64)
    } else {
        Option::None
    }
}

/// A digit string denotes a non-negative number.
proof fn lemma_digits_value_nonneg(s: Seq<u8>)
    requires
        all_digits(s),
    ensures
        0 <= digits_value(s),
    decreases s.len(),
{
    if s.len() > 0 {
        assert(all_digits(s.drop_last()));
        lemma_digits_value_nonneg(s.drop_last());
    }
}

/// Extending a digit string never shrinks the number it denotes.
proof fn lemma_digits_value_prefix(s: Seq<u8>, n: int)
    requires
        all_digits(s),
        0 <= n <= s.len(),
    ensures
        digits_value(s.subrange(0, n)) <= digits_value(s),
    decreases s.len(),
{
    if n == s.len() {
        assert(s.subrange(0, n) =~= s);
    } else {
        assert(all_digits(s.drop_last()));
        assert(s.drop_last().subrange(0, n) =~= s.subrange(0, n));
        lemma_digits_value_prefix(s.drop_last(), n);
        lemma_digits_value_nonneg(s.drop_last());
    }
}

/// Parses an ASCII decimal token exactly as `spec_parse_u64` describes:
/// `None` on an empty or malformed token and on a value above `u64::MAX`.
pub fn parse_u64_ascii(s: &[u8]) -> (r: Option<u64>)
    ensures
        r == spec_parse_u64(s@),
{
    let mut i: usize = 0;
    if s.len() > 0 && s[0] == 43 {
        i = 1;
    }
    let start = i;
    let ghost d = strip_plus(s@);
    assert(d =~= s@.subrange(start as int, s@.len() as int));
    if i == s.len() {
        return Option::None;
    }
    let mut acc: u64 = 0;
    while i < s.len()
        invariant
            start <= i <= s@.len(),
            d == strip_plus(s@),
            d == s@.subrange(start as int, s@.len() as int),
            d.len() > 0,
            all_digits(d.subrange(0, i - start)),
            acc == digits_value(d.subrange(0, i - start)),
        decreases s@.len() - i,
    {
        let b = s[i];
        let ghost done = d.subrange(0, i - start);
        let ghost next = d.subrange(0, i + 1 - start);
        assert(next.drop_last() =~= done);
        assert(next.last() == b);
        if b < 48 || b > 57 {
            assert(!all_digits(d));
            return Option::None;
        }
        let g = b - 48;
        if acc > u64::MAX / 10 || (acc == u64::MAX / 10 && g > (u64::MAX % 10) as u8) {
            proof {
                assert(digits_value(next) == acc * 10 + (b - 48));
                assert(digits_value(next) > u64::MAX as int);
                if all_digits(d) {
                    lemma_digits_value_prefix(d, i + 1 - start);
                }
            }
            return Option::None;
        }
        acc = acc * 10 + g as u64;
        i += 1;
    }
    proof {
        assert(d.subrange(0, i - start) =~= d);
    }
    Option::Some(acc)
}

/// The view of an optional byte-string argument.
pub open spec fn opt_bytes_view(t: Option<&[u8]>) -> Option<Seq<u8>> {
    match t {
        Option::None => Option::None,
        Option::Some(s) => Option::Some(s@),
    }
}

/// The time-to-live, in seconds, that a `SET` ends up using: a missing or
/// unparseable token means 60, and any parsed value above 100 is reset to
/// exactly 60 (not capped at 100).
pub open spec fn spec_resolve_ttl(t: Option<Seq<u8>>) -> u64 {
    let raw: u64 = match t {
        Option::None => 60u64,
        Option::Some(s) => match spec_parse_u64(s) {
            Option::None => 60u64,
            Option::Some(v) => v,
        },
    };
    if raw > 100 {
        60u64
    } else {
        raw
    }
}

pub fn resolve_ttl(t: Option<&[u8]>) -> (r: u64)
    ensures
        r == spec_resolve_ttl(opt_bytes_view(t)),
        r <= 100,
{
    let raw = match t {
        Option::None => 60u64,
        Option::Some(s) => match parse_u64_ascii(s) {
            Option::None => 60u64,
            Option::Some(v) => v,
        },
    };
    if raw > 100 {
        60
    } else {
        raw
    }
}

/// The ASCII decimal rendering of a number, most significant digit first,
/// with no sign, no padding, and a single `0` for zero.
pub open spec fn spec_decimal(n: nat) -> Seq<u8>
    decreases n,
{
    if n < 10 {
        seq![(48 + n) as u8]
    } else {
        spec_decimal(n / 10).push((48 + n % 10) as u8)
    }
}

/// Renders `n` in ASCII decimal, exactly as `spec_decimal` describes.
pub fn format_u64(n: u64) -> (r: Vec<u8>)
    ensures
        r@ == spec_decimal(n as nat),
{
    let mut digits: Vec<u8> = Vec::new();
    let mut m = n;
    digits.insert(0, 48 + (m % 10) as u8);
    m = m / 10;
    while m > 0
        invariant
            spec_decimal(n as nat) == if m == 0 {
                digits@
            } else {
                spec_decimal(m as nat) + digits@
            },
        decreases m,
    {
        let ghost before = digits@;
        digits.insert(0, 48 + (m % 10) as u8);
        assert(digits@ =~= seq![(48 + (m as nat) % 10) as u8] + before);
        proof {
            if m >= 10 {
                assert(spec_decimal(m as nat) == spec_decimal((m as nat) / 10).push(
                    (48 + (m as nat) % 10) as u8,
                ));
                assert(spec_decimal((m as nat) / 10) + digits@ =~= spec_decimal(m as nat)
                    + before);
            } else {
                assert(spec_decimal(m as nat) =~= seq![(48 + (m as nat) % 10) as u8]);
            }
        }
        m = m / 10;
    }
    digits
}

/// The bytes of `OK\n`.
pub open spec fn resp_ok() -> Seq<u8> {
    seq![79u8, 75u8, 10u8]
}

/// The bytes of `NIL\n`.
pub open spec fn resp_nil() -> Seq<u8> {
    seq![78u8, 73u8, 76u8, 10u8]
}

/// The bytes of `TRUE\n`.
pub open spec fn resp_true() -> Seq<u8> {
    seq![84u8, 82u8, 85u8, 69u8, 10u8]
}

/// The bytes of `FALSE\n`.
pub open spec fn resp_false() -> Seq<u8> {
    seq![70u8, 65u8, 76u8, 83u8, 69u8, 10u8]
}

/// The bytes of `ERROR: Unknown Command\n`.
pub open spec fn resp_error() -> Seq<u8> {
    seq![
        69u8, 82u8, 82u8, 79u8, 82u8, 58u8, 32u8, 85u8, 110u8, 107u8, 110u8, 111u8, 119u8, 110u8,
        32u8, 67u8, 111u8, 109u8, 109u8, 97u8, 110u8, 100u8, 10u8,
    ]
}

/// The bytes of `VALUE: ` followed by the value and a newline.
pub open spec fn resp_value(v: Seq<u8>) -> Seq<u8> {
    seq![86u8, 65u8, 76u8, 85u8, 69u8, 58u8, 32u8] + v + seq![10u8]
}

/// The bytes of `ITEMS: <items>\nBYTES: <bytes>\n`.
pub open spec fn resp_stats(items: nat, bytes: nat) -> Seq<u8> {
    seq![73u8, 84u8, 69u8, 77u8, 83u8, 58u8, 32u8] + spec_decimal(items) + seq![10u8]
        + seq![66u8, 89u8, 84u8, 69u8, 83u8, 58u8, 32u8] + spec_decimal(bytes) + seq![10u8]
}

/// What a `GET` answers: the value line for a live entry, `NIL` otherwise.
pub open spec fn spec_get_response(
    m: Map<Seq<u8>, crate::store::EntryModel>,
    key: Seq<u8>,
    now: u64,
) -> Seq<u8> {
    match spec_read(m, key, now) {
        Option::Some(v) => resp_value(v),
        Option::None => resp_nil(),
    }
}

/// Answers `GET key`: the stored value when the key holds a live entry,
/// `NIL` otherwise, removing an expired entry it finds.
pub fn handle_get(key: &[u8], cache: &mut SharedCache, now: u64) -> (r: Vec<u8>)
    requires
        old(cache).wf(),
    ensures
        final(cache).wf(),
        final(cache)@ == spec_read_map(old(cache)@, key@, now),
        r@ == spec_get_response(old(cache)@, key@, now),
{
    match cache.get(key, now) {
        Option::Some(val) => {
            let mut out: Vec<u8> = Vec::new();
            out.push(86);
            out.push(65);
            out.push(76);
            out.push(85);
            out.push(69);
            out.push(58);
            out.push(32);
            out.extend_from_slice(val.as_slice());
            out.push(10);
            proof {
                assert(out@ =~= resp_value(val@));
            }
            out
        },
        Option::None => {
            let mut out: Vec<u8> = Vec::new();
            out.push(78);
            out.push(73);
            out.push(76);
            out.push(10);
            proof {
                assert(out@ =~= resp_nil());
            }
            out
        },
    }
}

/// Answers `SET key value ttl`: stores the value under the key with the
/// resolved time-to-live and always reports `OK`. A malformed or missing ttl
/// token is resolved silently, never reported to the client.
pub fn handle_set(
    key: &[u8],
    val: &[u8],
    ttl: Option<&[u8]>,
    cache: &mut SharedCache,
    now: u64,
) -> (r: Vec<u8>)
    requires
        old(cache).wf(),
        now + 100_000 <= u64::MAX,
    ensures
        final(cache).wf(),
        final(cache)@ == old(cache)@.insert(
            key@,
            (val@, Option::Some((now + spec_resolve_ttl(opt_bytes_view(ttl)) * 1000) as u64)),
        ),
        r@ == resp_ok(),
{
    let secs = resolve_ttl(ttl);
    let ms = secs * 1000;
    cache.set(
        vstd::slice::slice_to_vec(key),
        vstd::slice::slice_to_vec(val),
        Option::Some(ms),
        now,
    );
    let mut out: Vec<u8> = Vec::new();
    out.push(79);
    out.push(75);
    out.push(10);
    proof {
        assert(out@ =~= resp_ok());
    }
    out
}

/// Answers `HAS key`: `TRUE` exactly when a `GET` would find a value, with
/// the same lazy removal of an expired entry.
pub fn handle_has(key: &[u8], cache: &mut SharedCache, now: u64) -> (r: Vec<u8>)
    requires
        old(cache).wf(),
    ensures
        final(cache).wf(),
        final(cache)@ == spec_read_map(old(cache)@, key@, now),
        r@ == if spec_read(old(cache)@, key@, now) is Some {
            resp_true()
        } else {
            resp_false()
        },
{
    if cache.has(key, now) {
        let mut out: Vec<u8> = Vec::new();
        out.push(84);
        out.push(82);
        out.push(85);
        out.push(69);
        out.push(10);
        proof {
            assert(out@ =~= resp_true());
        }
        out
    } else {
        let mut out: Vec<u8> = Vec::new();
        out.push(70);
        out.push(65);
        out.push(76);
        out.push(83);
        out.push(69);
        out.push(10);
        proof {
            assert(out@ =~= resp_false());
        }
        out
    }
}

/// What `STATS` answers for a store modelled by `m`.
pub open spec fn spec_stats_response(m: Map<Seq<u8>, crate::store::EntryModel>) -> Seq<u8> {
    resp_stats(m.dom().len(), clip_to_usize(spec_total_bytes(m)) as nat)
}

/// Answers `STATS`: the entry count and byte total of the current snapshot,
/// counting entries that have expired but are not yet removed.
pub fn handle_stats(cache: &SharedCache) -> (r: Vec<u8>)
    requires
        cache.wf(),
    ensures
        r@ == spec_stats_response(cache@),
{
    let st = cache.stats();
    let items = format_u64(st.item_count as u64);
    let bytes = format_u64(st.total_bytes as u64);
    let mut out: Vec<u8> = Vec::new();
    out.push(73);
    out.push(84);
    out.push(69);
    out.push(77);
    out.push(83);
    out.push(58);
    out.push(32);
    out.extend_from_slice(items.as_slice());
    out.push(10);
    out.push(66);
    out.push(89);
    out.push(84);
    out.push(69);
    out.push(83);
    out.push(58);
    out.push(32);
    out.extend_from_slice(bytes.as_slice());
    out.push(10);
    proof {
        assert(out@ =~= spec_stats_response(cache@));
    }
    out
}

} // verus!

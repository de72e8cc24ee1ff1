//! The line protocol: tokenizing one newline-terminated command line and
//! dispatching it to the command handlers.

use vstd::prelude::*;
use crate::store::{EntryModel, SharedCache, spec_read, spec_read_map};
use crate::commands::{
    handle_get, handle_has, handle_set, handle_stats, resp_error, resp_false, resp_ok, resp_true,
    spec_get_response, spec_resolve_ttl, spec_stats_response,
};

verus! {

/// ASCII whitespace: space, tab, line feed, vertical tab, form feed and
/// carriage return. Tokens are the maximal runs of everything else.
pub open spec fn is_ws(b: u8) -> bool {
    b == 32 || b == 9 || b == 10 || b == 11 || b == 12 || b == 13
}

/// One step of tokenizing: the state is the finished tokens and the current
/// unfinished run of non-whitespace bytes.
pub open spec fn tok_step(st: (Seq<Seq<u8>>, Seq<u8>), b: u8) -> (Seq<Seq<u8>>, Seq<u8>) {
    if is_ws(b) {
        if st.1.len() > 0 {
            (st.0.push(st.1), Seq::empty())
        } else {
            st
        }
    } else {
        (st.0, st.1.push(b))
    }
}

/// The tokenizing state after reading all of `s`.
pub open spec fn tok_state(s: Seq<u8>) -> (Seq<Seq<u8>>, Seq<u8>)
    decreases s.len(),
{
    if s.len() == 0 {
        (Seq::empty(), Seq::empty())
    } else {
        tok_step(tok_state(s.drop_last()), s.last())
    }
}

/// The whitespace-separated tokens of a line, in order.
pub open spec fn spec_tokens(s: Seq<u8>) -> Seq<Seq<u8>> {
    let st = tok_state(s);
    if st.1.len() > 0 {
        st.0.push(st.1)
    } else {
        st.0
    }
}

/// Executable twin of `is_ws`.
fn byte_is_ws(b: u8) -> (r: bool)
    ensures
        r == is_ws(b),
{
    b == 32 || b == 9 || b == 10 || b == 11 || b == 12 || b == 13
}

/// Splits a line into its whitespace-separated tokens, exactly as
/// `spec_tokens` describes.
pub fn tokenize(line: &[u8]) -> (r: Vec<Vec<u8>>)
    ensures
        r@.map_values(|t: Vec<u8>| t@) == spec_tokens(line@),
{
    let mut tokens: Vec<Vec<u8>> = Vec::new();
    let mut cur: Vec<u8> = Vec::new();
    let mut i: usize = 0;
    while i < line.len()
        invariant
            i <= line@.len(),
            tokens@.map_values(|t: Vec<u8>| t@) == tok_state(line@.subrange(0, i as int)).0,
            cur@ == tok_state(line@.subrange(0, i as int)).1,
        decreases line@.len() - i,
    {
        let ghost prev_tokens = tokens@.map_values(|t: Vec<u8>| t@);
        let ghost prev_cur = cur@;
        let b = line[i];
        proof {
            assert(line@.subrange(0, i + 1).drop_last() =~= line@.subrange(0, i as int));
            assert(line@.subrange(0, i + 1).last() == b);
        }
        if byte_is_ws(b) {
            if cur.len() > 0 {
                tokens.push(cur);
                cur = Vec::new();
                proof {
                    assert(tokens@.map_values(|t: Vec<u8>| t@) =~= prev_tokens.push(prev_cur));
                }
            }
        } else {
            cur.push(b);
            proof {
                assert(tokens@.map_values(|t: Vec<u8>| t@) =~= prev_tokens);
            }
        }
        i += 1;
    }
    proof {
        assert(line@.subrange(0, i as int) =~= line@);
    }
    if cur.len() > 0 {
        let ghost prev_tokens = tokens@.map_values(|t: Vec<u8>| t@);
        tokens.push(cur);
        proof {
            assert(tokens@.map_values(|t: Vec<u8>| t@) =~= prev_tokens.push(
                tok_state(line@).1,
            ));
        }
    }
    tokens
}

/// The bytes of the `GET` keyword.
pub open spec fn kw_get() -> Seq<u8> {
    seq![71u8, 69u8, 84u8]
}

/// The bytes of the `SET` keyword.
pub open spec fn kw_set() -> Seq<u8> {
    seq![83u8, 69u8, 84u8]
}

/// The bytes of the `HAS` keyword.
pub open spec fn kw_has() -> Seq<u8> {
    seq![72u8, 65u8, 83u8]
}

/// The bytes of the `STATS` keyword.
pub open spec fn kw_stats() -> Seq<u8> {
    seq![83u8, 84u8, 65u8, 84u8, 83u8]
}

/// The bytes of the `QUIT` keyword.
pub open spec fn kw_quit() -> Seq<u8> {
    seq![81u8, 85u8, 73u8, 84u8]
}

fn is_kw_get(t: &Vec<u8>) -> (r: bool)
    ensures
        r == (t@ == kw_get()),
{
    let r = t.len() == 3 && t[0] == 71 && t[1] == 69 && t[2] == 84;
    proof {
        if t@ == kw_get() {
            assert(t@.len() == 3 && t@[0] == 71 && t@[1] == 69 && t@[2] == 84);
        }
        if r {
            assert(t@ =~= kw_get());
        }
    }
    r
}

fn is_kw_set(t: &Vec<u8>) -> (r: bool)
    ensures
        r == (t@ == kw_set()),
{
    let r = t.len() == 3 && t[0] == 83 && t[1] == 69 && t[2] == 84;
    proof {
        if t@ == kw_set() {
            assert(t@.len() == 3 && t@[0] == 83 && t@[1] == 69 && t@[2] == 84);
        }
        if r {
            assert(t@ =~= kw_set());
        }
    }
    r
}

fn is_kw_has(t: &Vec<u8>) -> (r: bool)
    ensures
        r == (t@ == kw_has()),
{
    let r = t.len() == 3 && t[0] == 72 && t[1] == 65 && t[2] == 83;
    proof {
        if t@ == kw_has() {
            assert(t@.len() == 3 && t@[0] == 72 && t@[1] == 65 && t@[2] == 83);
        }
        if r {
            assert(t@ =~= kw_has());
        }
    }
    r
}

fn is_kw_stats(t: &Vec<u8>) -> (r: bool)
    ensures
        r == (t@ == kw_stats()),
{
    let r = t.len() == 5 && t[0] == 83 && t[1] == 84 && t[2] == 65 && t[3] == 84 && t[4] == 83;
    proof {
        if t@ == kw_stats() {
            assert(t@.len() == 5 && t@[0] == 83 && t@[1] == 84 && t@[2] == 65 && t@[3] == 84
                && t@[4] == 83);
        }
        if r {
            assert(t@ =~= kw_stats());
        }
    }
    r
}

fn is_kw_quit(t: &Vec<u8>) -> (r: bool)
    ensures
        r == (t@ == kw_quit()),
{
    let r = t.len() == 4 && t[0] == 81 && t[1] == 85 && t[2] == 73 && t[3] == 84;
    proof {
        if t@ == kw_quit() {
            assert(t@.len() == 4 && t@[0] == 81 && t@[1] == 85 && t@[2] == 73 && t@[3] == 84);
        }
        if r {
            assert(t@ =~= kw_quit());
        }
    }
    r
}

/// The token shapes the protocol recognizes as commands.
pub open spec fn known_command(toks: Seq<Seq<u8>>) -> bool {
    ||| (toks.len() == 2 && (toks[0] == kw_get() || toks[0] == kw_has()))
    ||| (toks.len() == 4 && toks[0] == kw_set())
    ||| (toks.len() == 1 && (toks[0] == kw_stats() || toks[0] == kw_quit()))
}

/// What one command line does to a store modelled by `m` at time `now`:
/// the response bytes (`None` means close without responding) and the store
/// the command leaves behind.
pub open spec fn spec_respond(line: Seq<u8>, m: Map<Seq<u8>, EntryModel>, now: u64) -> (
    Option<Seq<u8>>,
    Map<Seq<u8>, EntryModel>,
) {
    let toks = spec_tokens(line);
    if toks.len() == 2 && toks[0] == kw_get() {
        (Option::Some(spec_get_response(m, toks[1], now)), spec_read_map(m, toks[1], now))
    } else if toks.len() == 4 && toks[0] == kw_set() {
        (
            Option::Some(resp_ok()),
            m.insert(
                toks[1],
                (
                    toks[2],
                    Option::Some(
                        (now + spec_resolve_ttl(Option::Some(toks[3])) * 1000) as u64,
                    ),
                ),
            ),
        )
    } else if toks.len() == 2 && toks[0] == kw_has() {
        (
            Option::Some(
                if spec_read(m, toks[1], now) is Some {
                    resp_true()
                } else {
                    resp_false()
                },
            ),
            spec_read_map(m, toks[1], now),
        )
    } else if toks.len() == 1 && toks[0] == kw_stats() {
        (Option::Some(spec_stats_response(m)), m)
    } else if toks.len() == 1 && toks[0] == kw_quit() {
        (Option::None, m)
    } else {
        (Option::Some(resp_error()), m)
    }
}

/// Runs one command line against the cache: tokenizes it, resolves it to
/// exactly one command, executes that command and returns the response bytes.
/// `None` means `QUIT`: the connection is to close without a response. Every
/// unrecognized line gets the unknown-command error and changes nothing.
pub fn respond(line: &[u8], cache: &mut SharedCache, now: u64) -> (r: Option<Vec<u8>>)
    requires
        old(cache).wf(),
        now + 100_000 <= u64::MAX,
    ensures
        final(cache).wf(),
        final(cache)@ == spec_respond(line@, old(cache)@, now).1,
        (r is Some) == (spec_respond(line@, old(cache)@, now).0 is Some),
        r is Some ==> r.unwrap()@ == spec_respond(line@, old(cache)@, now).0.unwrap(),
{
    let tokens = tokenize(line);
    let ghost toks = spec_tokens(line@);
    proof {
        assert(toks.len() == tokens@.len());
        assert(forall|j: int| 0 <= j < tokens@.len() ==> toks[j] == (#[trigger] tokens@[j])@);
    }
    let n = tokens.len();
    if n == 2 && is_kw_get(&tokens[0]) {
        Option::Some(handle_get(tokens[1].as_slice(), cache, now))
    } else if n == 4 && is_kw_set(&tokens[0]) {
        Option::Some(
            handle_set(
                tokens[1].as_slice(),
                tokens[2].as_slice(),
                Option::Some(tokens[3].as_slice()),
                cache,
                now,
            ),
        )
    } else if n == 2 && is_kw_has(&tokens[0]) {
        Option::Some(handle_has(tokens[1].as_slice(), cache, now))
    } else if n == 1 && is_kw_stats(&tokens[0]) {
        Option::Some(handle_stats(cache))
    } else if n == 1 && is_kw_quit(&tokens[0]) {
        Option::None
    } else {
        let mut out: Vec<u8> = Vec::new();
        out.push(69);
        out.push(82);
        out.push(82);
        out.push(79);
        out.push(82);
        out.push(58);
        out.push(32);
        out.push(85);
        out.push(110);
        out.push(107);
        out.push(110);
        out.push(111);
        out.push(119);
        out.push(110);
        out.push(32);
        out.push(67);
        out.push(111);
        out.push(109);
        out.push(109);
        out.push(97);
        out.push(110);
        out.push(100);
        out.push(10);
        proof {
            assert(out@ =~= resp_error());
        }
        Option::Some(out)
    }
}

} // verus!

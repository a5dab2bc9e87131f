//! Port discovery: reading the child's port announcement out of a stdout line.
//!
//! A line announces the port either with the dedicated
//! `PRYX_CORE_LISTEN_ADDR=<host>:<port>` prefix, or informally when the line
//! mentions "listening" or "port" (case-insensitively) and carries a run of
//! decimal digits after its final colon.

use vstd::prelude::*;
use vstd::string::StringSliceAdditionalSpecFns;

use crate::text::{
    after_last_byte, all_digits, contains_seq, contains_sub, dec_val, has_sub_at, is_digit,
    lower_seq, match_at, parse_u16_dec, parse_u64_digits, seq_starts_with, slice_starts_with,
    spec_parse_u16, strip_nondigits_end, to_lower_vec, trailing_digits, trim_ascii, trim_spec,
};

verus! {

/// The bytes of `PRYX_CORE_LISTEN_ADDR=`.
pub open spec fn pryx_prefix() -> Seq<u8> {
    seq![
        80u8, 82, 89, 88, 95, 67, 79, 82, 69, 95, 76, 73, 83, 84, 69, 78, 95, 65, 68, 68, 82, 61,
    ]
}

/// The bytes of `listening`.
pub open spec fn listening_pat() -> Seq<u8> {
    seq![108u8, 105, 115, 116, 101, 110, 105, 110, 103]
}

/// The bytes of `port`.
pub open spec fn port_pat() -> Seq<u8> {
    seq![112u8, 111, 114, 116]
}

pub(crate) fn pryx_prefix_bytes() -> (r: Vec<u8>)
    ensures
        r@ == pryx_prefix(),
{
    let v: Vec<u8> = vec![
        80u8, 82, 89, 88, 95, 67, 79, 82, 69, 95, 76, 73, 83, 84, 69, 78, 95, 65, 68, 68, 82, 61,
    ];
    proof {
        assert(v@ =~= pryx_prefix());
    }
    v
}

pub(crate) fn listening_bytes() -> (r: Vec<u8>)
    ensures
        r@ == listening_pat(),
{
    let v: Vec<u8> = vec![108u8, 105, 115, 116, 101, 110, 105, 110, 103];
    proof {
        assert(v@ =~= listening_pat());
    }
    v
}

pub(crate) fn port_bytes() -> (r: Vec<u8>)
    ensures
        r@ == port_pat(),
{
    let v: Vec<u8> = vec![112u8, 111, 114, 116];
    proof {
        assert(v@ =~= port_pat());
    }
    v
}

/// The suffix of `s` after the last occurrence of `b`; all of `s` when `b`
/// does not occur.
pub open spec fn suffix_after_last(s: Seq<u8>, b: u8) -> Seq<u8>
    decreases s.len(),
{
    if s.len() == 0 {
        s
    } else if s.last() == b {
        Seq::empty()
    } else {
        suffix_after_last(s.drop_last(), b).push(s.last())
    }
}

/// The last run of decimal digits in `s`.
pub open spec fn last_digit_run(s: Seq<u8>) -> Seq<u8> {
    trailing_digits(strip_nondigits_end(s))
}

/// Whether a line can announce a port at all: the dedicated prefix, or a
/// lowercased mention of "listening" or "port".
pub open spec fn spec_port_check(s: Seq<u8>) -> bool {
    seq_starts_with(s, pryx_prefix()) || contains_seq(lower_seq(s), listening_pat())
        || contains_seq(lower_seq(s), port_pat())
}

/// The port announced by the dedicated prefix: the part after the last colon
/// of the trimmed remainder, read as a decimal `u16`.
pub open spec fn spec_prefix_port(s: Seq<u8>) -> Option<u16> {
    if seq_starts_with(s, pryx_prefix()) {
        spec_parse_u16(suffix_after_last(trim_spec(s.skip(22)), 58))
    } else {
        None
    }
}

/// The port found by the loose rule: the last run of decimal digits after
/// the final colon (the whole line when it has no colon), when the run
/// fits in a `u16`.
pub open spec fn spec_loose_port(s: Seq<u8>) -> Option<u16> {
    let run = last_digit_run(suffix_after_last(s, 58));
    if run.len() > 0 && dec_val(run) <= 65535 {
        Some(dec_val(run) as u16)
    } else {
        None
    }
}

/// The port a line announces: the dedicated prefix wins; otherwise the
/// loose colon-and-digits rule applies.
pub open spec fn spec_extract_port(s: Seq<u8>) -> Option<u16> {
    if spec_prefix_port(s) is Some {
        spec_prefix_port(s)
    } else {
        spec_loose_port(s)
    }
}

/// Quick test whether a stdout line may announce the child's port: it starts
/// with the dedicated prefix, or mentions "listening" or "port" in any case.
pub fn extract_port_check(line: &str) -> (r: bool)
    ensures
        r == spec_port_check(line.spec_bytes()),
{
    let s: &[u8] = line.as_bytes();
    let pfx = pryx_prefix_bytes();
    if slice_starts_with(s, pfx.as_slice()) {
        return true;
    }
    let low = to_lower_vec(s);
    let pat1 = listening_bytes();
    if contains_sub(low.as_slice(), pat1.as_slice()) {
        return true;
    }
    let pat2 = port_bytes();
    contains_sub(low.as_slice(), pat2.as_slice())
}

/// Connects the scan position returned by `after_last_byte` to the
/// recursive `suffix_after_last`.
pub(crate) proof fn lemma_suffix_after_last(s: Seq<u8>, b: u8, r: int)
    requires
        0 <= r <= s.len(),
        r > 0 ==> s[r - 1] == b,
        forall|j: int| r <= j < s.len() ==> s[j] != b,
    ensures
        suffix_after_last(s, b) =~= s.subrange(r, s.len() as int),
    decreases s.len(),
{
    if s.len() == 0 {
    } else if r == s.len() {
        if r > 0 {
            assert(s.last() == b);
        }
    } else {
        assert(s.last() != b);
        lemma_suffix_after_last(s.drop_last(), b, r);
        assert(s.subrange(r, s.len() as int) =~= s.drop_last().subrange(
            r,
            s.len() - 1,
        ).push(s.last()));
    }
}

/// Extracts the announced port from one stdout line, or `None` when the
/// line announces none.
pub fn extract_port_from_line(line: &str) -> (r: Option<u16>)
    ensures
        r == spec_extract_port(line.spec_bytes()),
{
    let s: &[u8] = line.as_bytes();
    if let Some(p) = prefix_port(s) {
        return Some(p);
    }
    loose_port(s)
}

/// The dedicated-prefix rule on its own.
pub(crate) fn prefix_port(s: &[u8]) -> (r: Option<u16>)
    ensures
        r == spec_prefix_port(s@),
{
    let pfx = pryx_prefix_bytes();
    if slice_starts_with(s, pfx.as_slice()) {
        let rest: &[u8] = &s[22..s.len()];
        proof {
            assert(rest@ =~= s@.skip(22));
        }
        let v = trim_ascii(rest);
        let c = after_last_byte(v, 58);
        let port_str: &[u8] = &v[c..v.len()];
        proof {
            lemma_suffix_after_last(v@, 58, c as int);
        }
        parse_u16_dec(port_str)
    } else {
        None
    }
}

/// The loose rule on its own: last digit run after the final colon.
pub(crate) fn loose_port(s: &[u8]) -> (r: Option<u16>)
    ensures
        r == spec_loose_port(s@),
{
    let c = after_last_byte(s, 58);
    let t: &[u8] = &s[c..s.len()];
    proof {
        lemma_suffix_after_last(s@, 58, c as int);
    }
    // Strip trailing non-digits of `t`.
    let mut e: usize = t.len();
    proof {
        assert(t@.subrange(0, t@.len() as int) =~= t@);
    }
    while e > 0 && !digit_byte(t[e - 1])
        invariant
            e <= t@.len(),
            strip_nondigits_end(t@) == strip_nondigits_end(t@.subrange(0, e as int)),
        decreases e,
    {
        proof {
            assert(t@.subrange(0, e as int).drop_last() =~= t@.subrange(0, e - 1));
        }
        e = e - 1;
    }
    proof {
        assert(strip_nondigits_end(t@) == t@.subrange(0, e as int));
    }
    // Take the maximal digit suffix of what is left.
    let mut st: usize = e;
    proof {
        assert(trailing_digits(t@.subrange(0, e as int)) =~= trailing_digits(
            t@.subrange(0, st as int),
        ) + t@.subrange(st as int, e as int));
    }
    while st > 0 && digit_byte(t[st - 1])
        invariant
            st <= e <= t@.len(),
            forall|j: int| st <= j < e ==> is_digit(#[trigger] t@[j]),
            trailing_digits(t@.subrange(0, e as int)) == trailing_digits(
                t@.subrange(0, st as int),
            ) + t@.subrange(st as int, e as int),
        decreases st,
    {
        proof {
            assert(t@.subrange(0, st as int).drop_last() =~= t@.subrange(0, st - 1));
            assert(trailing_digits(t@.subrange(0, st as int)) =~= trailing_digits(
                t@.subrange(0, st - 1),
            ).push(t@[st - 1]));
            assert(trailing_digits(t@.subrange(0, st - 1)).push(t@[st - 1]) + t@.subrange(
                st as int,
                e as int,
            ) =~= trailing_digits(t@.subrange(0, st - 1)) + t@.subrange(st - 1, e as int));
        }
        st = st - 1;
    }
    proof {
        assert(trailing_digits(t@.subrange(0, st as int)) =~= Seq::<u8>::empty());
        assert(last_digit_run(t@) == Seq::<u8>::empty() + t@.subrange(st as int, e as int));
        assert(last_digit_run(t@) =~= t@.subrange(st as int, e as int));
    }
    if st == e {
        return None;
    }
    let run: &[u8] = &t[st..e];
    proof {
        assert(forall|k: int| 0 <= k < run@.len() ==> is_digit(#[trigger] run@[k])) by {
            assert(forall|k: int|
                0 <= k < run@.len() ==> run@[k] == t@.subrange(st as int, e as int)[k]);
        }
        assert(all_digits(run@));
    }
    match parse_u64_digits(run) {
        Some(v) if v <= 65535 => Some(v as u16),
        _ => None,
    }
}

fn digit_byte(b: u8) -> (r: bool)
    ensures
        r == is_digit(b),
{
    48 <= b && b <= 57
}

/// The bytes of `Listening on `.
pub open spec fn listening_on_pat() -> Seq<u8> {
    seq![76u8, 105, 115, 116, 101, 110, 105, 110, 103, 32, 111, 110, 32]
}

fn listening_on_bytes() -> (r: Vec<u8>)
    ensures
        r@ == listening_on_pat(),
{
    let v: Vec<u8> = vec![76u8, 105, 115, 116, 101, 110, 105, 110, 103, 32, 111, 110, 32];
    proof {
        assert(v@ =~= listening_on_pat());
    }
    v
}

/// Position of the first occurrence of `pat` at or after `i`.
pub open spec fn find_from(s: Seq<u8>, pat: Seq<u8>, i: int) -> Option<int>
    decreases s.len() - i,
{
    if i < 0 || i >= s.len() || i + pat.len() > s.len() {
        None
    } else if has_sub_at(s, pat, i) {
        Some(i)
    } else {
        find_from(s, pat, i + 1)
    }
}

/// The listen address a line announces: the remainder after the dedicated
/// prefix, or the rest of the line after `Listening on `, trimmed; `None`
/// when neither yields anything.
pub open spec fn spec_parse_listen_addr(s: Seq<u8>) -> Option<Seq<u8>> {
    let v1 = trim_spec(s.skip(22));
    if seq_starts_with(s, pryx_prefix()) && v1.len() > 0 {
        Some(v1)
    } else {
        match find_from(s, listening_on_pat(), 0) {
            None => None,
            Some(i) => {
                let v = trim_spec(s.skip(i + 13));
                if v.len() > 0 {
                    Some(v)
                } else {
                    None
                }
            },
        }
    }
}

/// Reads the announced `host:port` listen address out of one stdout line.
pub fn parse_listen_addr(line: &str) -> (r: Option<Vec<u8>>)
    ensures
        match r {
            Some(v) => spec_parse_listen_addr(line.spec_bytes()) == Some(v@),
            None => spec_parse_listen_addr(line.spec_bytes()) is None,
        },
{
    let s: &[u8] = line.as_bytes();
    let pfx = pryx_prefix_bytes();
    if slice_starts_with(s, pfx.as_slice()) {
        let rest: &[u8] = &s[22..s.len()];
        proof {
            assert(rest@ =~= s@.skip(22));
        }
        let v = trim_ascii(rest);
        if v.len() > 0 {
            let mut out: Vec<u8> = Vec::new();
            out.extend_from_slice(v);
            proof {
                assert(out@ =~= trim_spec(s@.skip(22)));
            }
            return Some(out);
        }
    }
    let pat = listening_on_bytes();
    let mut i: usize = 0;
    while s.len() >= pat.len() && i <= s.len() - pat.len()
        invariant
            s@ == line.spec_bytes(),
            pat@ == listening_on_pat(),
            i <= s@.len(),
            find_from(s@, pat@, 0) == find_from(s@, pat@, i as int),
            !(seq_starts_with(s@, pryx_prefix()) && trim_spec(s@.skip(22)).len() > 0),
        decreases s@.len() - i,
    {
        if match_at(s, pat.as_slice(), i) {
            let rest: &[u8] = &s[i + 13..s.len()];
            proof {
                assert(rest@ =~= s@.skip(i + 13));
            }
            let v = trim_ascii(rest);
            if v.len() > 0 {
                let mut out: Vec<u8> = Vec::new();
                out.extend_from_slice(v);
                proof {
                    assert(out@ =~= trim_spec(s@.skip(i + 13)));
                }
                return Some(out);
            } else {
                return None;
            }
        }
        i = i + 1;
    }
    None
}

} // verus!

//! Byte-level text helpers.
//!
//! All parsing in this crate works on byte slices; a `&str` is handed in at
//! the boundary and read through `as_bytes`. The helpers here give exact
//! contracts for the few primitives the parsers need: prefix and substring
//! tests, ASCII lowercasing and trimming, and decimal reading and writing.

use vstd::prelude::*;
use vstd::string::StringSliceAdditionalSpecFns;

verus! {

/// ASCII decimal digit.
pub open spec fn is_digit(b: u8) -> bool {
    48 <= b <= 57
}

/// ASCII whitespace: space, tab, line feed, carriage return.
pub open spec fn is_space(b: u8) -> bool {
    b == 32 || b == 9 || b == 10 || b == 13
}

/// ASCII lowercasing of one byte.
pub open spec fn lower_byte(b: u8) -> u8 {
    if 65 <= b <= 90 {
        (b + 32) as u8
    } else {
        b
    }
}

/// ASCII lowercasing of a byte sequence.
pub open spec fn lower_seq(s: Seq<u8>) -> Seq<u8> {
    s.map_values(|b: u8| lower_byte(b))
}

/// `p` is a prefix of `s`.
pub open spec fn seq_starts_with(s: Seq<u8>, p: Seq<u8>) -> bool {
    p.len() <= s.len() && s.subrange(0, p.len() as int) == p
}

/// `p` is a suffix of `s`.
pub open spec fn seq_ends_with(s: Seq<u8>, p: Seq<u8>) -> bool {
    p.len() <= s.len() && s.subrange(s.len() - p.len(), s.len() as int) == p
}

/// `pat` occurs in `s` at position `i`.
pub open spec fn has_sub_at(s: Seq<u8>, pat: Seq<u8>, i: int) -> bool {
    0 <= i && i + pat.len() <= s.len() && s.subrange(i, i + pat.len()) == pat
}

/// `pat` occurs somewhere in `s`.
pub open spec fn contains_seq(s: Seq<u8>, pat: Seq<u8>) -> bool {
    exists|i: int| has_sub_at(s, pat, i)
}

/// Leading whitespace removed.
pub open spec fn trim_start_spec(s: Seq<u8>) -> Seq<u8>
    decreases s.len(),
{
    if s.len() > 0 && is_space(s[0]) {
        trim_start_spec(s.drop_first())
    } else {
        s
    }
}

/// Trailing whitespace removed.
pub open spec fn trim_end_spec(s: Seq<u8>) -> Seq<u8>
    decreases s.len(),
{
    if s.len() > 0 && is_space(s.last()) {
        trim_end_spec(s.drop_last())
    } else {
        s
    }
}

/// Leading and trailing whitespace removed.
pub open spec fn trim_spec(s: Seq<u8>) -> Seq<u8> {
    trim_end_spec(trim_start_spec(s))
}

/// Value of a sequence of decimal digits, most significant first.
pub open spec fn dec_val(s: Seq<u8>) -> nat
    decreases s.len(),
{
    if s.len() == 0 {
        0
    } else {
        (dec_val(s.drop_last()) * 10 + (s.last() - 48)) as nat
    }
}

/// All bytes are decimal digits.
pub open spec fn all_digits(s: Seq<u8>) -> bool {
    forall|i: int| 0 <= i < s.len() ==> is_digit(#[trigger] s[i])
}

/// Canonical decimal digits of `n`, without sign or leading zeros.
pub open spec fn dec_digits(n: nat) -> Seq<u8>
    decreases n,
{
    if n < 10 {
        seq![(48 + n) as u8]
    } else {
        dec_digits(n / 10).push((48 + n % 10) as u8)
    }
}

pub fn bytes_eq(a: &[u8], b: &[u8]) -> (r: bool)
    ensures
        r == (a@ == b@),
{
    if a.len() != b.len() {
        return false;
    }
    let mut i: usize = 0;
    while i < a.len()
        invariant
            i <= a.len(),
            a.len() == b.len(),
            forall|j: int| 0 <= j < i ==> a@[j] == b@[j],
        decreases a.len() - i,
    {
        if a[i] != b[i] {
            return false;
        }
        i = i + 1;
    }
    proof {
        assert(a@ =~= b@);
    }
    true
}

pub fn slice_starts_with(s: &[u8], p: &[u8]) -> (r: bool)
    ensures
        r == seq_starts_with(s@, p@),
{
    if p.len() > s.len() {
        return false;
    }
    let mut i: usize = 0;
    while i < p.len()
        invariant
            i <= p.len() <= s.len(),
            forall|j: int| 0 <= j < i ==> s@[j] == p@[j],
        decreases p.len() - i,
    {
        if s[i] != p[i] {
            proof {
                assert(s@.subrange(0, p@.len() as int)[i as int] == s@[i as int]);
            }
            return false;
        }
        i = i + 1;
    }
    proof {
        assert(s@.subrange(0, p@.len() as int) =~= p@);
    }
    true
}

pub fn slice_ends_with(s: &[u8], p: &[u8]) -> (r: bool)
    ensures
        r == seq_ends_with(s@, p@),
{
    if p.len() > s.len() {
        return false;
    }
    let off: usize = s.len() - p.len();
    let mut i: usize = 0;
    while i < p.len()
        invariant
            i <= p.len() <= s.len(),
            off == s.len() - p.len(),
            forall|j: int| 0 <= j < i ==> s@[off + j] == p@[j],
        decreases p.len() - i,
    {
        if s[off + i] != p[i] {
            proof {
                assert(s@.subrange(s@.len() - p@.len(), s@.len() as int)[i as int] == s@[off + i]);
            }
            return false;
        }
        i = i + 1;
    }
    proof {
        assert(s@.subrange(s@.len() - p@.len(), s@.len() as int) =~= p@);
    }
    true
}

/// `pat` occurs in `s` starting at `i`.
pub fn match_at(s: &[u8], pat: &[u8], i: usize) -> (r: bool)
    requires
        i + pat.len() <= s.len(),
    ensures
        r == has_sub_at(s@, pat@, i as int),
{
    let mut k: usize = 0;
    while k < pat.len()
        invariant
            k <= pat.len(),
            i + pat.len() <= s.len(),
            forall|j: int| 0 <= j < k ==> s@[i + j] == pat@[j],
        decreases pat.len() - k,
    {
        if s[i + k] != pat[k] {
            proof {
                assert(s@.subrange(i as int, i + pat@.len())[k as int] == s@[i + k]);
            }
            return false;
        }
        k = k + 1;
    }
    proof {
        assert(s@.subrange(i as int, i + pat@.len()) =~= pat@);
    }
    true
}

pub fn contains_sub(s: &[u8], pat: &[u8]) -> (r: bool)
    ensures
        r == contains_seq(s@, pat@),
{
    if pat.len() > s.len() {
        return false;
    }
    if pat.len() == 0 {
        proof {
            assert(s@.subrange(0, 0) =~= pat@);
            assert(has_sub_at(s@, pat@, 0));
        }
        return true;
    }
    let last: usize = s.len() - pat.len();
    let mut i: usize = 0;
    while i <= last
        invariant
            i <= last + 1,
            last == s.len() - pat.len(),
            1 <= pat.len() <= s.len(),
            forall|j: int| 0 <= j < i ==> !has_sub_at(s@, pat@, j),
        decreases last - i + 1,
    {
        if match_at(s, pat, i) {
            return true;
        }
        i = i + 1;
    }
    false
}

pub fn to_lower_vec(s: &[u8]) -> (r: Vec<u8>)
    ensures
        r@ == lower_seq(s@),
{
    let mut out: Vec<u8> = Vec::new();
    let mut i: usize = 0;
    while i < s.len()
        invariant
            i <= s.len(),
            out@ == lower_seq(s@.subrange(0, i as int)),
        decreases s.len() - i,
    {
        let b = s[i];
        let lb: u8 = if 65 <= b && b <= 90 {
            b + 32
        } else {
            b
        };
        out.push(lb);
        i = i + 1;
        proof {
            assert(s@.subrange(0, i as int) =~= s@.subrange(0, i - 1).push(s@[i - 1]));
            assert(lower_seq(s@.subrange(0, i as int)) =~= lower_seq(s@.subrange(0, i - 1)).push(
                lower_byte(s@[i - 1]),
            ));
        }
    }
    proof {
        assert(s@.subrange(0, s@.len() as int) =~= s@);
    }
    out
}

/// Index just past the last occurrence of `b`, or 0 when `b` does not occur.
pub fn after_last_byte(s: &[u8], b: u8) -> (r: usize)
    ensures
        r <= s.len(),
        r > 0 ==> s@[r - 1] == b,
        forall|j: int| r <= j < s.len() ==> s@[j] != b,
{
    let mut i: usize = s.len();
    while i > 0
        invariant
            i <= s.len(),
            forall|j: int| i <= j < s.len() ==> s@[j] != b,
        decreases i,
    {
        if s[i - 1] == b {
            return i;
        }
        i = i - 1;
    }
    0
}

fn space_byte(c: u8) -> (r: bool)
    ensures
        r == is_space(c),
{
    c == 32 || c == 9 || c == 10 || c == 13
}

pub fn trim_ascii(s: &[u8]) -> (r: &[u8])
    ensures
        r@ == trim_spec(s@),
{
    proof {
        assert(s@.subrange(0, s@.len() as int) =~= s@);
    }
    let mut a: usize = 0;
    while a < s.len() && space_byte(s[a])
        invariant
            a <= s.len(),
            trim_start_spec(s@) == trim_start_spec(s@.subrange(a as int, s@.len() as int)),
        decreases s.len() - a,
    {
        proof {
            assert(s@.subrange(a as int, s@.len() as int).drop_first() =~= s@.subrange(
                a + 1,
                s@.len() as int,
            ));
        }
        a = a + 1;
    }
    proof {
        assert(trim_start_spec(s@) == s@.subrange(a as int, s@.len() as int));
    }
    let mut b: usize = s.len();
    while b > a && space_byte(s[b - 1])
        invariant
            a <= b <= s.len(),
            trim_start_spec(s@) == s@.subrange(a as int, s@.len() as int),
            trim_end_spec(s@.subrange(a as int, s@.len() as int)) == trim_end_spec(
                s@.subrange(a as int, b as int),
            ),
        decreases b,
    {
        proof {
            assert(s@.subrange(a as int, b as int).drop_last() =~= s@.subrange(a as int, b - 1));
        }
        b = b - 1;
    }
    proof {
        assert(trim_end_spec(s@.subrange(a as int, b as int)) == s@.subrange(a as int, b as int));
    }
    &s[a..b]
}

/// Parses an unsigned decimal number that must fit in `u16`, as the port
/// parser needs it: an optional leading `+`, then one or more digits.
pub fn parse_u16_dec(s: &[u8]) -> (r: Option<u16>)
    ensures
        r == spec_parse_u16(s@),
{
    let digits: &[u8] = if s.len() > 0 && s[0] == 43 {
        &s[1..s.len()]
    } else {
        s
    };
    proof {
        if s@.len() > 0 && s@[0] == 43 {
            assert(digits@ =~= s@.drop_first());
        }
    }
    match parse_u64_digits(digits) {
        Some(v) if v <= 65535 => Some(v as u16),
        _ => None,
    }
}

/// The value `parse_u16_dec` returns.
pub open spec fn spec_parse_u16(s: Seq<u8>) -> Option<u16> {
    let digits = if s.len() > 0 && s[0] == 43 {
        s.drop_first()
    } else {
        s
    };
    if digits.len() > 0 && all_digits(digits) && dec_val(digits) <= 65535 {
        Some(dec_val(digits) as u16)
    } else {
        None
    }
}

/// Parses a run of decimal digits into a `u64`; `None` when the slice is
/// empty, holds a non-digit, or the value does not fit.
pub fn parse_u64_digits(s: &[u8]) -> (r: Option<u64>)
    ensures
        (s@.len() > 0 && all_digits(s@) && dec_val(s@) <= u64::MAX) ==> r == Some(
            dec_val(s@) as u64,
        ),
        (s@.len() == 0 || !all_digits(s@) || dec_val(s@) > u64::MAX) ==> r is None,
{
    if s.len() == 0 {
        return None;
    }
    let mut v: u64 = 0;
    let mut i: usize = 0;
    while i < s.len()
        invariant
            i <= s.len(),
            all_digits(s@.subrange(0, i as int)),
            v == dec_val(s@.subrange(0, i as int)),
        decreases s.len() - i,
    {
        let b = s[i];
        if b < 48 || b > 57 {
            return None;
        }
        let d: u64 = (b - 48) as u64;
        if v > (u64::MAX - d) / 10 {
            proof {
                if all_digits(s@) {
                    lemma_dec_val_grows(s@, i as int);
                }
            }
            return None;
        }
        v = v * 10 + d;
        i = i + 1;
        proof {
            assert(s@.subrange(0, i as int).drop_last() =~= s@.subrange(0, i - 1));
            assert(s@.subrange(0, i as int).last() == s@[i - 1]);
        }
    }
    proof {
        assert(s@.subrange(0, s@.len() as int) =~= s@);
    }
    Some(v)
}

/// Once a prefix overflows, the value of the whole digit run overflows too.
proof fn lemma_dec_val_grows(s: Seq<u8>, i: int)
    requires
        0 <= i < s.len(),
        all_digits(s),
        dec_val(s.subrange(0, i)) * 10 + (s[i] - 48) > u64::MAX,
    ensures
        dec_val(s) > u64::MAX,
    decreases s.len() - i,
{
    if i == s.len() - 1 {
        assert(s.subrange(0, s.len() as int) =~= s);
        assert(s.drop_last() =~= s.subrange(0, i));
    } else {
        assert(dec_val(s.subrange(0, i + 1)) == dec_val(s.subrange(0, i)) * 10 + (s[i] - 48)) by {
            assert(s.subrange(0, i + 1).drop_last() =~= s.subrange(0, i));
        }
        assert(dec_val(s.subrange(0, i + 1)) * 10 + (s[i + 1] - 48) > u64::MAX);
        lemma_dec_val_grows(s, i + 1);
    }
}

/// Writes `n` in decimal, most significant digit first.
pub fn u64_to_dec(n: u64) -> (r: Vec<u8>)
    ensures
        r@ == dec_digits(n as nat),
{
    let mut out: Vec<u8> = Vec::new();
    let mut m: u64 = n;
    loop
        invariant
            out@.len() == 0 ==> m == n,
            out@.len() > 0 ==> (m > 0 && dec_digits(n as nat) == dec_digits(m as nat) + out@),
        decreases m,
    {
        let ghost out_old = out@;
        let ghost m_old = m as nat;
        let d: u8 = (m % 10) as u8;
        out.insert(0, 48 + d);
        let m2: u64 = m / 10;
        proof {
            assert(out@ =~= seq![(48 + d) as u8] + out_old);
            if m_old < 10 {
                assert(dec_digits(m_old) =~= seq![(48 + d) as u8]);
            } else {
                assert(dec_digits(m_old) =~= dec_digits(m_old / 10) + seq![(48 + d) as u8]);
                assert(dec_digits(m_old) + out_old =~= dec_digits(m_old / 10) + out@);
            }
        }
        if m2 == 0 {
            proof {
                assert(dec_digits(n as nat) =~= out@);
            }
            return out;
        }
        m = m2;
    }
}

/// The trailing non-digits of `s` removed.
pub open spec fn strip_nondigits_end(s: Seq<u8>) -> Seq<u8>
    decreases s.len(),
{
    if s.len() > 0 && !is_digit(s.last()) {
        strip_nondigits_end(s.drop_last())
    } else {
        s
    }
}

/// The maximal digit suffix of `s`.
pub open spec fn trailing_digits(s: Seq<u8>) -> Seq<u8>
    decreases s.len(),
{
    if s.len() > 0 && is_digit(s.last()) {
        trailing_digits(s.drop_last()).push(s.last())
    } else {
        Seq::empty()
    }
}

/// The maximal digit prefix of `s`.
pub open spec fn leading_digits(s: Seq<u8>) -> Seq<u8>
    decreases s.len(),
{
    if s.len() > 0 && is_digit(s.first()) {
        seq![s.first()] + leading_digits(s.drop_first())
    } else {
        Seq::empty()
    }
}

/// Start of the maximal digit run that ends just before `end`: afterwards
/// `s[st..end]` is that run.
pub fn digit_run_start(s: &[u8], end: usize) -> (st: usize)
    requires
        end <= s.len(),
    ensures
        st <= end,
        trailing_digits(s@.subrange(0, end as int)) =~= s@.subrange(st as int, end as int),
        forall|j: int| st <= j < end ==> is_digit(#[trigger] s@[j]),
{
    let mut st: usize = end;
    proof {
        assert(trailing_digits(s@.subrange(0, end as int)) =~= trailing_digits(
            s@.subrange(0, st as int),
        ) + s@.subrange(st as int, end as int));
    }
    while st > 0 && digit_at(s, st - 1)
        invariant
            st <= end <= s@.len(),
            forall|j: int| st <= j < end ==> is_digit(#[trigger] s@[j]),
            trailing_digits(s@.subrange(0, end as int)) == trailing_digits(
                s@.subrange(0, st as int),
            ) + s@.subrange(st as int, end as int),
        decreases st,
    {
        proof {
            assert(s@.subrange(0, st as int).drop_last() =~= s@.subrange(0, st - 1));
            assert(trailing_digits(s@.subrange(0, st as int)) =~= trailing_digits(
                s@.subrange(0, st - 1),
            ).push(s@[st - 1]));
            assert(trailing_digits(s@.subrange(0, st - 1)).push(s@[st - 1]) + s@.subrange(
                st as int,
                end as int,
            ) =~= trailing_digits(s@.subrange(0, st - 1)) + s@.subrange(st - 1, end as int));
        }
        st = st - 1;
    }
    proof {
        assert(trailing_digits(s@.subrange(0, st as int)) =~= Seq::<u8>::empty());
        assert(Seq::<u8>::empty() + s@.subrange(st as int, end as int) =~= s@.subrange(
            st as int,
            end as int,
        ));
    }
    st
}

fn digit_at(s: &[u8], i: usize) -> (r: bool)
    requires
        i < s.len(),
    ensures
        r == is_digit(s@[i as int]),
{
    48 <= s[i] && s[i] <= 57
}

/// String equality at the character level.
pub fn str_eq(a: &str, b: &str) -> (r: bool)
    ensures
        r == (a@ == b@),
{
    let r = bytes_eq(a.as_bytes(), b.as_bytes());
    proof {
        vstd::utf8::encode_utf8_decode_utf8(a@);
        vstd::utf8::encode_utf8_decode_utf8(b@);
    }
    r
}

} // verus!

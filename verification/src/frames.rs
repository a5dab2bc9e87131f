//! JSON-RPC frame codec.
//!
//! A frame is one newline-terminated JSON object on the child's stdio
//! stream. The host writes requests, notifications and responses in a fixed
//! canonical layout (`jsonrpc` first, `id` last, no whitespace), the layout
//! the standard serializers produce, and reads the child's frames in the
//! same layout. A frame's payload (`params`, `result`) is carried as raw
//! JSON text: the codec frames and recovers it byte for byte without
//! interpreting it. The method and the error message are real strings and
//! go through JSON string escaping.

use vstd::prelude::*;

use crate::text::{
    all_digits, dec_digits, dec_val, is_digit, leading_digits, match_at, parse_u64_digits,
    seq_starts_with, slice_starts_with, trailing_digits, u64_to_dec, digit_run_start,
};

verus! {

/// The bytes of `{"jsonrpc":"2.0","method":"`.
pub open spec fn req_prefix() -> Seq<u8> {
    seq![
        123u8, 34, 106, 115, 111, 110, 114, 112, 99, 34, 58, 34, 50, 46, 48, 34, 44, 34, 109, 101,
        116, 104, 111, 100, 34, 58, 34,
    ]
}

/// The bytes of `,"params":`.
pub open spec fn params_sep() -> Seq<u8> {
    seq![44u8, 34, 112, 97, 114, 97, 109, 115, 34, 58]
}

/// The bytes of `{"jsonrpc":"2.0","result":`.
pub open spec fn resp_prefix() -> Seq<u8> {
    seq![
        123u8, 34, 106, 115, 111, 110, 114, 112, 99, 34, 58, 34, 50, 46, 48, 34, 44, 34, 114, 101,
        115, 117, 108, 116, 34, 58,
    ]
}

/// The bytes of `{"jsonrpc":"2.0","error":`.
pub open spec fn err_prefix() -> Seq<u8> {
    seq![
        123u8, 34, 106, 115, 111, 110, 114, 112, 99, 34, 58, 34, 50, 46, 48, 34, 44, 34, 101, 114,
        114, 111, 114, 34, 58,
    ]
}

/// The bytes of `{"code":`.
pub open spec fn err_code_prefix() -> Seq<u8> {
    seq![123u8, 34, 99, 111, 100, 101, 34, 58]
}

/// The bytes of `,"message":"`.
pub open spec fn msg_sep() -> Seq<u8> {
    seq![44u8, 34, 109, 101, 115, 115, 97, 103, 101, 34, 58, 34]
}

/// The bytes of `,"id":`.
pub open spec fn id_sep() -> Seq<u8> {
    seq![44u8, 34, 105, 100, 34, 58]
}

/// Lowercase hex digit for a value below 16.
pub open spec fn hex_digit(n: u8) -> u8 {
    if n < 10 {
        (48 + n) as u8
    } else {
        (87 + n) as u8
    }
}

/// JSON escaping of one byte inside a string literal: quote, backslash and
/// the named controls get two-byte escapes, other controls get `\u00XX`,
/// everything else stands for itself.
pub open spec fn esc_byte(b: u8) -> Seq<u8> {
    if b == 34 {
        seq![92u8, 34]
    } else if b == 92 {
        seq![92u8, 92]
    } else if b == 8 {
        seq![92u8, 98]
    } else if b == 12 {
        seq![92u8, 102]
    } else if b == 10 {
        seq![92u8, 110]
    } else if b == 13 {
        seq![92u8, 114]
    } else if b == 9 {
        seq![92u8, 116]
    } else if b < 32 {
        seq![92u8, 117, 48, 48, hex_digit(b / 16), hex_digit(b % 16)]
    } else {
        seq![b]
    }
}

/// JSON escaping of a whole byte string.
pub open spec fn esc_seq(s: Seq<u8>) -> Seq<u8>
    decreases s.len(),
{
    if s.len() == 0 {
        Seq::empty()
    } else {
        esc_byte(s.first()) + esc_seq(s.drop_first())
    }
}

/// A frame, at the specification level. Payloads are raw JSON text.
pub enum GFrame {
    Request { method: Seq<u8>, params: Seq<u8>, id: u64 },
    Notification { method: Seq<u8>, params: Seq<u8> },
    Response { result: Seq<u8>, id: u64 },
    ErrorResponse { code: i64, message: Seq<u8>, id: u64 },
}

/// A frame as the broker handles it: one JSON-RPC object of the stream.
/// `method` and `message` are string contents; `params` and `result` carry
/// the raw JSON text of the payload.
pub enum RpcFrame {
    Request { method: Vec<u8>, params: Vec<u8>, id: u64 },
    Notification { method: Vec<u8>, params: Vec<u8> },
    Response { result: Vec<u8>, id: u64 },
    ErrorResponse { code: i64, message: Vec<u8>, id: u64 },
}

impl View for RpcFrame {
    type V = GFrame;

    open spec fn view(&self) -> GFrame {
        match self {
            RpcFrame::Request { method, params, id } => GFrame::Request {
                method: method@,
                params: params@,
                id: *id,
            },
            RpcFrame::Notification { method, params } => GFrame::Notification {
                method: method@,
                params: params@,
            },
            RpcFrame::Response { result, id } => GFrame::Response { result: result@, id: *id },
            RpcFrame::ErrorResponse { code, message, id } => GFrame::ErrorResponse {
                code: *code,
                message: message@,
                id: *id,
            },
        }
    }
}

/// The canonical text of a request frame, without the trailing newline.
pub open spec fn req_text(method: Seq<u8>, params: Seq<u8>, id: u64) -> Seq<u8> {
    req_prefix() + esc_seq(method) + seq![34u8] + params_sep() + params + id_sep() + dec_digits(
        id as nat,
    ) + seq![125u8]
}

/// The canonical text of a notification frame, without the trailing newline.
pub open spec fn noti_text(method: Seq<u8>, params: Seq<u8>) -> Seq<u8> {
    req_prefix() + esc_seq(method) + seq![34u8] + params_sep() + params + seq![125u8]
}

/// The canonical text of a response frame, without the trailing newline.
pub open spec fn resp_text(result: Seq<u8>, id: u64) -> Seq<u8> {
    resp_prefix() + result + id_sep() + dec_digits(id as nat) + seq![125u8]
}

/// Scanning a JSON string literal from position `i` (just inside the
/// opening quote): the decoded content and the position after the closing
/// quote. Handles the simple escapes and `\u00XX` for ASCII code points.
pub open spec fn spec_scan_str(t: Seq<u8>, i: int) -> Option<(Seq<u8>, int)>
    decreases t.len() - i,
{
    if i < 0 || i >= t.len() {
        None
    } else if t[i] == 34 {
        Some((Seq::empty(), i + 1))
    } else if t[i] == 92 {
        if i + 1 < t.len() {
            let e = t[i + 1];
            if e == 34 || e == 92 || e == 47 {
                scan_cons(e, spec_scan_str(t, i + 2))
            } else if e == 98 {
                scan_cons(8, spec_scan_str(t, i + 2))
            } else if e == 102 {
                scan_cons(12, spec_scan_str(t, i + 2))
            } else if e == 110 {
                scan_cons(10, spec_scan_str(t, i + 2))
            } else if e == 114 {
                scan_cons(13, spec_scan_str(t, i + 2))
            } else if e == 116 {
                scan_cons(9, spec_scan_str(t, i + 2))
            } else if e == 117 {
                if i + 5 < t.len() && t[i + 2] == 48 && t[i + 3] == 48 && is_hex(t[i + 4]) && is_hex(
                    t[i + 5],
                ) && hex_val(t[i + 4]) * 16 + hex_val(t[i + 5]) < 128 {
                    scan_cons(
                        (hex_val(t[i + 4]) * 16 + hex_val(t[i + 5])) as u8,
                        spec_scan_str(t, i + 6),
                    )
                } else {
                    None
                }
            } else {
                None
            }
        } else {
            None
        }
    } else {
        scan_cons(t[i], spec_scan_str(t, i + 1))
    }
}

/// Prepends one decoded byte to a scan result.
pub open spec fn scan_cons(b: u8, r: Option<(Seq<u8>, int)>) -> Option<(Seq<u8>, int)> {
    match r {
        Some((s, j)) => Some((seq![b] + s, j)),
        None => None,
    }
}

/// Lowercase-hex digit test (as the scanner accepts it).
pub open spec fn is_hex(b: u8) -> bool {
    (48 <= b <= 57) || (97 <= b <= 102)
}

/// Value of a lowercase-hex digit.
pub open spec fn hex_val(b: u8) -> u8 {
    if 48 <= b <= 57 {
        (b - 48) as u8
    } else if 97 <= b <= 102 {
        (b - 87) as u8
    } else {
        0
    }
}

/// Peeling the trailing `,"id":<digits>}` off a frame text: the start of
/// that tail and the id value, or `None` when the text does not end that
/// way.
pub open spec fn spec_peel_id(t: Seq<u8>) -> Option<(int, u64)> {
    if t.len() < 8 || t.last() != 125 {
        None
    } else {
        let run = trailing_digits(t.drop_last());
        if run.len() == 0 || dec_val(run) > u64::MAX {
            None
        } else if t.len() - 1 - run.len() < 6 {
            None
        } else {
            let b = t.len() - 1 - run.len() - 6;
            if t.subrange(b, b + 6) == id_sep() {
                Some((b, dec_val(run) as u64))
            } else {
                None
            }
        }
    }
}

/// Parsing a whole (already trimmed) frame line.
pub open spec fn spec_parse_frame(t: Seq<u8>) -> Option<GFrame> {
    if seq_starts_with(t, req_prefix()) {
        spec_parse_request(t)
    } else if seq_starts_with(t, resp_prefix()) {
        spec_parse_response(t)
    } else if seq_starts_with(t, err_prefix()) {
        spec_parse_error(t)
    } else {
        None
    }
}

/// Request or notification: method string, params text, optional id tail.
pub open spec fn spec_parse_request(t: Seq<u8>) -> Option<GFrame> {
    match spec_scan_str(t, 27) {
        None => None,
        Some((m, j)) => {
            if j + 10 <= t.len() && t.subrange(j, j + 10) == params_sep() {
                let pstart = j + 10;
                match spec_peel_id(t) {
                    Some((b, id)) => if b >= pstart {
                        Some(GFrame::Request { method: m, params: t.subrange(pstart, b), id })
                    } else {
                        None
                    },
                    None => if t.len() > pstart && t.last() == 125 {
                        Some(
                            GFrame::Notification {
                                method: m,
                                params: t.subrange(pstart, t.len() - 1),
                            },
                        )
                    } else {
                        None
                    },
                }
            } else {
                None
            }
        },
    }
}

/// Response: raw result text between the prefix and the id tail.
pub open spec fn spec_parse_response(t: Seq<u8>) -> Option<GFrame> {
    match spec_peel_id(t) {
        None => None,
        Some((b, id)) => if b >= 26 {
            Some(GFrame::Response { result: t.subrange(26, b), id })
        } else {
            None
        },
    }
}

/// Error response: `{"code":<int>,"message":"<string>"...}` with the id
/// tail; whatever stands between the message and the id (such as a `data`
/// member) is ignored.
pub open spec fn spec_parse_error(t: Seq<u8>) -> Option<GFrame> {
    if t.len() < 33 || t.subrange(25, 33) != err_code_prefix() {
        None
    } else {
        let neg = 33 < t.len() && t[33] == 45;
        let ds: int = if neg {
            34
        } else {
            33
        };
        let run = leading_digits(t.skip(ds));
        if run.len() == 0 {
            None
        } else if (neg && dec_val(run) > 0x8000_0000_0000_0000) || (!neg && dec_val(run)
            > i64::MAX) {
            None
        } else {
            let code: i64 = if neg {
                (-(dec_val(run) as int)) as i64
            } else {
                dec_val(run) as i64
            };
            let j = ds + run.len();
            if j + 12 <= t.len() && t.subrange(j, j + 12) == msg_sep() {
                match spec_scan_str(t, j + 12) {
                    None => None,
                    Some((msg, k)) => match spec_peel_id(t) {
                        Some((b, id)) => if b >= k {
                            Some(GFrame::ErrorResponse { code, message: msg, id })
                        } else {
                            None
                        },
                        None => None,
                    },
                }
            } else {
                None
            }
        }
    }
}

fn req_prefix_bytes() -> (r: Vec<u8>)
    ensures
        r@ == req_prefix(),
{
    let v: Vec<u8> = vec![
        123u8, 34, 106, 115, 111, 110, 114, 112, 99, 34, 58, 34, 50, 46, 48, 34, 44, 34, 109, 101,
        116, 104, 111, 100, 34, 58, 34,
    ];
    proof {
        assert(v@ =~= req_prefix());
    }
    v
}

fn params_sep_bytes() -> (r: Vec<u8>)
    ensures
        r@ == params_sep(),
{
    let v: Vec<u8> = vec![44u8, 34, 112, 97, 114, 97, 109, 115, 34, 58];
    proof {
        assert(v@ =~= params_sep());
    }
    v
}

fn resp_prefix_bytes() -> (r: Vec<u8>)
    ensures
        r@ == resp_prefix(),
{
    let v: Vec<u8> = vec![
        123u8, 34, 106, 115, 111, 110, 114, 112, 99, 34, 58, 34, 50, 46, 48, 34, 44, 34, 114, 101,
        115, 117, 108, 116, 34, 58,
    ];
    proof {
        assert(v@ =~= resp_prefix());
    }
    v
}

fn err_prefix_bytes() -> (r: Vec<u8>)
    ensures
        r@ == err_prefix(),
{
    let v: Vec<u8> = vec![
        123u8, 34, 106, 115, 111, 110, 114, 112, 99, 34, 58, 34, 50, 46, 48, 34, 44, 34, 101, 114,
        114, 111, 114, 34, 58,
    ];
    proof {
        assert(v@ =~= err_prefix());
    }
    v
}

fn err_code_prefix_bytes() -> (r: Vec<u8>)
    ensures
        r@ == err_code_prefix(),
{
    let v: Vec<u8> = vec![123u8, 34, 99, 111, 100, 101, 34, 58];
    proof {
        assert(v@ =~= err_code_prefix());
    }
    v
}

fn msg_sep_bytes() -> (r: Vec<u8>)
    ensures
        r@ == msg_sep(),
{
    let v: Vec<u8> = vec![44u8, 34, 109, 101, 115, 115, 97, 103, 101, 34, 58, 34];
    proof {
        assert(v@ =~= msg_sep());
    }
    v
}

fn id_sep_bytes() -> (r: Vec<u8>)
    ensures
        r@ == id_sep(),
{
    let v: Vec<u8> = vec![44u8, 34, 105, 100, 34, 58];
    proof {
        assert(v@ =~= id_sep());
    }
    v
}

/// JSON-escapes a byte string for embedding in a string literal.
pub fn escape_json(s: &[u8]) -> (r: Vec<u8>)
    ensures
        r@ == esc_seq(s@),
{
    let mut out: Vec<u8> = Vec::new();
    let mut i: usize = 0;
    proof {
        assert(s@.subrange(0, 0) =~= Seq::<u8>::empty());
        lemma_esc_seq_take(s@, 0);
    }
    while i < s.len()
        invariant
            i <= s.len(),
            out@ == esc_seq(s@.subrange(0, i as int)),
        decreases s.len() - i,
    {
        let b = s[i];
        if b == 34 {
            out.push(92);
            out.push(34);
        } else if b == 92 {
            out.push(92);
            out.push(92);
        } else if b == 8 {
            out.push(92);
            out.push(98);
        } else if b == 12 {
            out.push(92);
            out.push(102);
        } else if b == 10 {
            out.push(92);
            out.push(110);
        } else if b == 13 {
            out.push(92);
            out.push(114);
        } else if b == 9 {
            out.push(92);
            out.push(116);
        } else if b < 32 {
            out.push(92);
            out.push(117);
            out.push(48);
            out.push(48);
            out.push(hex_digit_byte(b / 16));
            out.push(hex_digit_byte(b % 16));
        } else {
            out.push(b);
        }
        i = i + 1;
        proof {
            lemma_esc_seq_take(s@, i as int);
            assert(out@ =~= esc_seq(s@.subrange(0, i - 1)) + esc_byte(s@[i - 1]));
        }
    }
    proof {
        assert(s@.subrange(0, s@.len() as int) =~= s@);
    }
    out
}

fn hex_digit_byte(n: u8) -> (r: u8)
    requires
        n < 16,
    ensures
        r == hex_digit(n),
{
    if n < 10 {
        48 + n
    } else {
        87 + n
    }
}

/// Escaping a prefix one byte longer appends the escape of that byte.
proof fn lemma_esc_seq_take(s: Seq<u8>, i: int)
    requires
        0 <= i <= s.len(),
    ensures
        i > 0 ==> esc_seq(s.subrange(0, i)) =~= esc_seq(s.subrange(0, i - 1)) + esc_byte(s[i - 1]),
    decreases i,
{
    if i > 0 {
        lemma_esc_append(s.subrange(0, i - 1), s[i - 1]);
        assert(s.subrange(0, i) =~= s.subrange(0, i - 1).push(s[i - 1]));
    }
}

proof fn lemma_esc_append(s: Seq<u8>, b: u8)
    ensures
        esc_seq(s.push(b)) =~= esc_seq(s) + esc_byte(b),
    decreases s.len(),
{
    if s.len() == 0 {
        assert(s.push(b).first() == b);
        assert(s.push(b).drop_first() =~= Seq::<u8>::empty());
        assert(esc_seq(s.push(b)) == esc_byte(b) + esc_seq(Seq::<u8>::empty()));
        assert(esc_byte(b) + Seq::<u8>::empty() =~= esc_byte(b));
        assert(esc_seq(s) + esc_byte(b) =~= esc_byte(b));
    } else {
        assert(s.push(b).first() == s.first());
        assert(s.push(b).drop_first() =~= s.drop_first().push(b));
        lemma_esc_append(s.drop_first(), b);
        assert((esc_byte(s.first()) + esc_seq(s.drop_first())) + esc_byte(b) =~= esc_byte(
            s.first(),
        ) + (esc_seq(s.drop_first()) + esc_byte(b)));
    }
}

/// Scans a JSON string literal starting at `i` (just inside the opening
/// quote); returns the decoded content and the position after the closing
/// quote.
pub fn scan_string(t: &[u8], start: usize) -> (r: Option<(Vec<u8>, usize)>)
    requires
        start <= t.len(),
    ensures
        match r {
            Some((v, j)) => spec_scan_str(t@, start as int) == Some((v@, j as int)) && j <= t.len(),
            None => spec_scan_str(t@, start as int) is None,
        },
{
    let mut acc: Vec<u8> = Vec::new();
    let mut i: usize = start;
    proof {
        assert(Seq::<u8>::empty() + acc@ =~= acc@);
    }
    while i < t.len()
        invariant
            start <= i <= t.len(),
            spec_scan_str(t@, start as int) == scan_prepend(acc@, spec_scan_str(t@, i as int)),
        decreases t.len() - i,
    {
        let b = t[i];
        if b == 34 {
            proof {
                assert(spec_scan_str(t@, i as int) == Some((Seq::<u8>::empty(), i + 1)));
                assert(acc@ + Seq::<u8>::empty() =~= acc@);
            }
            return Some((acc, i + 1));
        } else if b == 92 {
            if i + 1 >= t.len() {
                return None;
            }
            let e = t[i + 1];
            let decoded: u8;
            if e == 34 || e == 92 || e == 47 {
                decoded = e;
            } else if e == 98 {
                decoded = 8;
            } else if e == 102 {
                decoded = 12;
            } else if e == 110 {
                decoded = 10;
            } else if e == 114 {
                decoded = 13;
            } else if e == 116 {
                decoded = 9;
            } else if e == 117 {
                if t.len() - i > 5 && t[i + 2] == 48 && t[i + 3] == 48 && hex_at(t, i + 4)
                    && hex_at(t, i + 5) {
                    let v: u8 = hex_val_byte(t[i + 4]) * 16 + hex_val_byte(t[i + 5]);
                    if v < 128 {
                        proof {
                            lemma_scan_prepend_push(acc@, v, spec_scan_str(t@, i + 6));
                        }
                        acc.push(v);
                        i = i + 6;
                        continue ;
                    } else {
                        return None;
                    }
                } else {
                    return None;
                }
            } else {
                return None;
            }
            proof {
                lemma_scan_prepend_push(acc@, decoded, spec_scan_str(t@, i + 2));
            }
            acc.push(decoded);
            i = i + 2;
        } else {
            proof {
                lemma_scan_prepend_push(acc@, b, spec_scan_str(t@, i + 1));
            }
            acc.push(b);
            i = i + 1;
        }
    }
    None
}

/// Prepends already-decoded content to a scan result.
pub open spec fn scan_prepend(pre: Seq<u8>, r: Option<(Seq<u8>, int)>) -> Option<(Seq<u8>, int)> {
    match r {
        Some((s, j)) => Some((pre + s, j)),
        None => None,
    }
}

proof fn lemma_scan_prepend_push(pre: Seq<u8>, b: u8, r: Option<(Seq<u8>, int)>)
    ensures
        scan_prepend(pre, scan_cons(b, r)) == scan_prepend(pre.push(b), r),
{
    match r {
        Some((s, j)) => {
            assert(pre + (seq![b] + s) =~= pre.push(b) + s);
        },
        None => {},
    }
}

fn hex_at(t: &[u8], i: usize) -> (r: bool)
    requires
        i < t.len(),
    ensures
        r == is_hex(t@[i as int]),
{
    let b = t[i];
    (48 <= b && b <= 57) || (97 <= b && b <= 102)
}

fn hex_val_byte(b: u8) -> (r: u8)
    requires
        is_hex(b),
    ensures
        r == hex_val(b),
        r < 16,
{
    if 48 <= b && b <= 57 {
        b - 48
    } else {
        b - 87
    }
}

/// Peels the trailing `,"id":<digits>}` off a frame text.
pub fn peel_id(t: &[u8]) -> (r: Option<(usize, u64)>)
    ensures
        match r {
            Some((b, id)) => spec_peel_id(t@) == Some((b as int, id)) && b + 7 <= t.len(),
            None => spec_peel_id(t@) is None,
        },
{
    if t.len() < 8 || t[t.len() - 1] != 125 {
        return None;
    }
    let dl = t.len() - 1;
    let st = digit_run_start(t, dl);
    proof {
        assert(t@.subrange(0, dl as int) =~= t@.drop_last());
    }
    if st == dl {
        proof {
            assert(trailing_digits(t@.drop_last()) =~= t@.subrange(st as int, dl as int));
        }
        return None;
    }
    let run: &[u8] = &t[st..dl];
    proof {
        assert(run@ =~= t@.subrange(st as int, dl as int));
        assert(all_digits(run@));
    }
    match parse_u64_digits(run) {
        None => {
            proof {
                assert(dec_val(trailing_digits(t@.drop_last())) > u64::MAX);
            }
            None
        },
        Some(id) => {
            if st < 6 {
                return None;
            }
            let b = st - 6;
            let sep = id_sep_bytes();
            if match_at(t, sep.as_slice(), b) {
                proof {
                    assert(t@.subrange(b as int, b + 6) =~= id_sep());
                }
                Some((b, id))
            } else {
                proof {
                    assert(t@.subrange(b as int, b + 6) != id_sep());
                }
                None
            }
        },
    }
}

/// Parses one (already trimmed) line as a frame in the canonical layout.
pub fn parse_frame(t: &[u8]) -> (r: Option<RpcFrame>)
    ensures
        match r {
            Some(f) => spec_parse_frame(t@) == Some(f@),
            None => spec_parse_frame(t@) is None,
        },
{
    let reqp = req_prefix_bytes();
    if slice_starts_with(t, reqp.as_slice()) {
        return parse_request(t);
    }
    let respp = resp_prefix_bytes();
    if slice_starts_with(t, respp.as_slice()) {
        return parse_response(t);
    }
    let errp = err_prefix_bytes();
    if slice_starts_with(t, errp.as_slice()) {
        return parse_error(t);
    }
    None
}

fn parse_request(t: &[u8]) -> (r: Option<RpcFrame>)
    requires
        seq_starts_with(t@, req_prefix()),
    ensures
        match r {
            Some(f) => spec_parse_request(t@) == Some(f@),
            None => spec_parse_request(t@) is None,
        },
{
    let scanned = scan_string(t, 27);
    match scanned {
        None => None,
        Some((m, j)) => {
            if j > t.len() - 10 {
                proof {
                    assert(j + 10 > t@.len());
                }
                return None;
            }
            let sep = params_sep_bytes();
            if !match_at(t, sep.as_slice(), j) {
                return None;
            }
            let pstart = j + 10;
            match peel_id(t) {
                Some((b, id)) => {
                    if b >= pstart {
                        let params = slice_to_vec(t, pstart, b);
                        Some(RpcFrame::Request { method: m, params, id })
                    } else {
                        None
                    }
                },
                None => {
                    if t.len() > pstart && t[t.len() - 1] == 125 {
                        let params = slice_to_vec(t, pstart, t.len() - 1);
                        Some(RpcFrame::Notification { method: m, params })
                    } else {
                        None
                    }
                },
            }
        },
    }
}

fn parse_response(t: &[u8]) -> (r: Option<RpcFrame>)
    ensures
        match r {
            Some(f) => spec_parse_response(t@) == Some(f@),
            None => spec_parse_response(t@) is None,
        },
{
    match peel_id(t) {
        None => None,
        Some((b, id)) => {
            if b >= 26 {
                let result = slice_to_vec(t, 26, b);
                Some(RpcFrame::Response { result, id })
            } else {
                None
            }
        },
    }
}

fn parse_error(t: &[u8]) -> (r: Option<RpcFrame>)
    ensures
        match r {
            Some(f) => spec_parse_error(t@) == Some(f@),
            None => spec_parse_error(t@) is None,
        },
{
    if t.len() < 33 {
        return None;
    }
    let codep = err_code_prefix_bytes();
    if !match_at(t, codep.as_slice(), 25) {
        proof {
            assert(t@.subrange(25, 33) != err_code_prefix());
        }
        return None;
    }
    proof {
        assert(t@.subrange(25, 33) =~= err_code_prefix());
    }
    let neg = 33 < t.len() && t[33] == 45;
    let ds: usize = if neg {
        34
    } else {
        33
    };
    // Maximal digit run from `ds`.
    let mut e: usize = ds;
    while e < t.len() && digit_at_fr(t, e)
        invariant
            ds <= e <= t.len(),
            forall|j: int| ds <= j < e ==> is_digit(#[trigger] t@[j]),
        decreases t.len() - e,
    {
        e = e + 1;
    }
    proof {
        lemma_leading_digits(t@.skip(ds as int), (e - ds) as int);
        assert(t@.skip(ds as int).subrange(0, (e - ds) as int) =~= t@.subrange(
            ds as int,
            e as int,
        ));
    }
    if e == ds {
        return None;
    }
    let run: &[u8] = &t[ds..e];
    proof {
        assert(run@ =~= t@.subrange(ds as int, e as int));
        assert(all_digits(run@));
    }
    let mag = match parse_u64_digits(run) {
        None => {
            proof {
                assert(dec_val(leading_digits(t@.skip(ds as int))) > u64::MAX);
            }
            return None;
        },
        Some(v) => v,
    };
    let code: i64;
    if neg {
        if mag > 0x8000_0000_0000_0000 {
            return None;
        }
        if mag == 0x8000_0000_0000_0000 {
            code = i64::MIN;
        } else {
            code = -(mag as i64);
        }
        proof {
            assert(code as int == -(mag as int));
        }
    } else {
        if mag > i64::MAX as u64 {
            return None;
        }
        code = mag as i64;
    }
    if e > t.len() - 12 {
        proof {
            assert(e + 12 > t@.len());
        }
        return None;
    }
    let msep = msg_sep_bytes();
    if !match_at(t, msep.as_slice(), e) {
        return None;
    }
    match scan_string(t, e + 12) {
        None => None,
        Some((msg, k)) => match peel_id(t) {
            Some((b, id)) => {
                if b >= k {
                    Some(RpcFrame::ErrorResponse { code, message: msg, id })
                } else {
                    None
                }
            },
            None => None,
        },
    }
}

fn digit_at_fr(t: &[u8], i: usize) -> (r: bool)
    requires
        i < t.len(),
    ensures
        r == is_digit(t@[i as int]),
{
    48 <= t[i] && t[i] <= 57
}

/// A forward digit scan that stops at `e` finds exactly the maximal digit
/// prefix.
proof fn lemma_leading_digits(s: Seq<u8>, e: int)
    requires
        0 <= e <= s.len(),
        forall|j: int| 0 <= j < e ==> is_digit(#[trigger] s[j]),
        e < s.len() ==> !is_digit(s[e]),
    ensures
        leading_digits(s) =~= s.subrange(0, e),
    decreases s.len(),
{
    if e == 0 {
    } else {
        lemma_leading_digits(s.drop_first(), e - 1);
        assert(seq![s.first()] + s.drop_first().subrange(0, e - 1) =~= s.subrange(0, e));
    }
}

fn slice_to_vec(t: &[u8], a: usize, b: usize) -> (r: Vec<u8>)
    requires
        a <= b <= t.len(),
    ensures
        r@ == t@.subrange(a as int, b as int),
{
    let mut out: Vec<u8> = Vec::new();
    let mut i: usize = a;
    while i < b
        invariant
            a <= i <= b <= t.len(),
            out@ =~= t@.subrange(a as int, i as int),
        decreases b - i,
    {
        out.push(t[i]);
        i = i + 1;
        proof {
            assert(t@.subrange(a as int, i as int) =~= t@.subrange(a as int, i - 1).push(
                t@[i - 1],
            ));
        }
    }
    out
}

/// Encodes a host-to-child request frame, newline-terminated.
pub fn encode_request(method: &[u8], params: &[u8], id: u64) -> (r: Vec<u8>)
    ensures
        r@ == req_text(method@, params@, id) + seq![10u8],
{
    let mut out = req_prefix_bytes();
    let m = escape_json(method);
    out.extend_from_slice(m.as_slice());
    out.push(34);
    let sep = params_sep_bytes();
    out.extend_from_slice(sep.as_slice());
    out.extend_from_slice(params);
    let isep = id_sep_bytes();
    out.extend_from_slice(isep.as_slice());
    let digits = u64_to_dec(id);
    out.extend_from_slice(digits.as_slice());
    out.push(125);
    out.push(10);
    proof {
        assert(out@ =~= req_text(method@, params@, id) + seq![10u8]);
    }
    out
}

/// Encodes a host-to-child notification frame, newline-terminated.
pub fn encode_notification(method: &[u8], params: &[u8]) -> (r: Vec<u8>)
    ensures
        r@ == noti_text(method@, params@) + seq![10u8],
{
    let mut out = req_prefix_bytes();
    let m = escape_json(method);
    out.extend_from_slice(m.as_slice());
    out.push(34);
    let sep = params_sep_bytes();
    out.extend_from_slice(sep.as_slice());
    out.extend_from_slice(params);
    out.push(125);
    out.push(10);
    proof {
        assert(out@ =~= noti_text(method@, params@) + seq![10u8]);
    }
    out
}

/// Encodes a host-to-child response frame, newline-terminated.
pub fn encode_response(result: &[u8], id: u64) -> (r: Vec<u8>)
    ensures
        r@ == resp_text(result@, id) + seq![10u8],
{
    let mut out = resp_prefix_bytes();
    out.extend_from_slice(result);
    let isep = id_sep_bytes();
    out.extend_from_slice(isep.as_slice());
    let digits = u64_to_dec(id);
    out.extend_from_slice(digits.as_slice());
    out.push(125);
    out.push(10);
    proof {
        assert(out@ =~= resp_text(result@, id) + seq![10u8]);
    }
    out
}

/// No newline byte anywhere in `s`.
pub open spec fn line_safe(s: Seq<u8>) -> bool {
    forall|i: int| 0 <= i < s.len() ==> s[i] != 10
}

/// The digits of a number are digits, there is at least one, and they read
/// back to the number.
pub proof fn lemma_dec_digits(n: nat)
    ensures
        all_digits(dec_digits(n)),
        dec_digits(n).len() >= 1,
        dec_val(dec_digits(n)) == n,
    decreases n,
{
    if n < 10 {
        let d = seq![(48 + n) as u8];
        assert(dec_digits(n) == d);
        assert(d.drop_last() =~= Seq::<u8>::empty());
        assert(dec_val(Seq::<u8>::empty()) == 0);
        assert(d.last() == 48 + n);
        assert(dec_val(d) == (dec_val(d.drop_last()) * 10 + (d.last() - 48)) as nat);
    } else {
        lemma_dec_digits(n / 10);
        assert(dec_digits(n) == dec_digits(n / 10).push((48 + n % 10) as u8));
        assert(dec_digits(n).drop_last() =~= dec_digits(n / 10));
        assert(all_digits(dec_digits(n))) by {
            assert(forall|i: int|
                0 <= i < dec_digits(n / 10).len() ==> #[trigger] dec_digits(n)[i] == dec_digits(
                    n / 10,
                )[i]);
        }
    }
}

/// A digit tail appended after a non-digit byte is exactly the trailing
/// digit run.
pub proof fn lemma_trailing_digits_concat(x: Seq<u8>, d: Seq<u8>)
    requires
        all_digits(d),
        x.len() > 0,
        !is_digit(x.last()),
    ensures
        trailing_digits(x + d) =~= d,
    decreases d.len(),
{
    if d.len() == 0 {
        assert(x + d =~= x);
    } else {
        assert((x + d).drop_last() =~= x + d.drop_last());
        assert(all_digits(d.drop_last()));
        lemma_trailing_digits_concat(x, d.drop_last());
        assert((x + d).last() == d.last());
        assert(is_digit((x + d).last()));
    }
}

/// Round trip of a response frame: parsing the canonical text of
/// `Response { result, id }` yields exactly that frame again, whatever raw
/// JSON text the result carries.
pub proof fn lemma_response_round_trip(result: Seq<u8>, id: u64)
    ensures
        spec_parse_frame(resp_text(result, id)) == Some(GFrame::Response { result, id }),
{
    let t = resp_text(result, id);
    let digits = dec_digits(id as nat);
    lemma_dec_digits(id as nat);
    assert(seq_starts_with(t, resp_prefix())) by {
        assert(t.subrange(0, 26) =~= resp_prefix());
    }
    assert(!seq_starts_with(t, req_prefix())) by {
        assert(t[18] == 114);
        assert(req_prefix()[18] == 109);
        if seq_starts_with(t, req_prefix()) {
            assert(t.subrange(0, 27)[18] == t[18]);
        }
    }
    // The id tail peels back off.
    let x = resp_prefix() + result + id_sep();
    assert(t.drop_last() =~= x + digits);
    assert(x.last() == 58);
    lemma_trailing_digits_concat(x, digits);
    assert(trailing_digits(t.drop_last()) == digits);
    assert(t.len() == 26 + result.len() + 6 + digits.len() + 1);
    let b = t.len() - 1 - digits.len() - 6;
    assert(b == 26 + result.len());
    assert(t.last() == 125);
    assert(t.len() >= 8);
    assert(t.subrange(b, b + 6) =~= id_sep());
    assert(dec_val(digits) == id as nat);
    assert(spec_peel_id(t) == Some((b, id)));
    assert(t.subrange(26, b) =~= result);
}

/// The written bytes of a response frame end in a newline and hold exactly
/// that one newline, as long as the result text itself holds none.
pub proof fn lemma_response_single_newline(result: Seq<u8>, id: u64)
    requires
        line_safe(result),
    ensures
        (resp_text(result, id) + seq![10u8]).last() == 10,
        line_safe(resp_text(result, id)),
{
    lemma_dec_digits(id as nat);
    let t = resp_text(result, id);
    assert forall|i: int| 0 <= i < t.len() implies t[i] != 10 by {
        let digits = dec_digits(id as nat);
        if i < 26 {
            assert(t[i] == resp_prefix()[i]);
        } else if i < 26 + result.len() {
            assert(t[i] == result[i - 26]);
        } else if i < 26 + result.len() + 6 {
            assert(t[i] == id_sep()[i - 26 - result.len()]);
        } else if i < 26 + result.len() + 6 + digits.len() {
            assert(t[i] == digits[i - 26 - result.len() - 6]);
            assert(is_digit(t[i]));
        } else {
            assert(t[i] == 125);
        }
    }
}

/// Scanning the escaped text of `content` followed by a closing quote
/// decodes exactly `content` again, whatever follows the quote.
pub proof fn lemma_scan_esc(t: Seq<u8>, i: int, content: Seq<u8>)
    requires
        0 <= i,
        i + esc_seq(content).len() + 1 <= t.len(),
        t.subrange(i, i + esc_seq(content).len() + 1) == esc_seq(content) + seq![34u8],
    ensures
        spec_scan_str(t, i) == Some((content, i + esc_seq(content).len() + 1)),
    decreases content.len(),
{
    let w = esc_seq(content).len() as int;
    if content.len() == 0 {
        assert(esc_seq(content) =~= Seq::<u8>::empty());
        assert(t.subrange(i, i + w + 1)[0] == t[i]);
        assert((esc_seq(content) + seq![34u8])[0] == 34);
        assert(t[i] == 34);
    } else {
        let c = content.first();
        let rest = content.drop_first();
        let e = esc_byte(c);
        assert(esc_seq(content) == e + esc_seq(rest));
        let k = e.len() as int;
        assert(1 <= k <= 6);
        assert forall|j: int| 0 <= j < k implies t[i + j] == e[j] by {
            assert(t.subrange(i, i + w + 1)[j] == t[i + j]);
            assert((esc_seq(content) + seq![34u8])[j] == (e + esc_seq(rest))[j]);
            assert((e + esc_seq(rest))[j] == e[j]);
        }
        assert(t.subrange(i + k, i + k + esc_seq(rest).len() + 1) =~= esc_seq(rest) + seq![
            34u8,
        ]) by {
            assert forall|j: int| 0 <= j < esc_seq(rest).len() + 1 implies t.subrange(
                i + k,
                i + k + esc_seq(rest).len() + 1,
            )[j] == (esc_seq(rest) + seq![34u8])[j] by {
                assert(t.subrange(i + k, i + k + esc_seq(rest).len() + 1)[j] == t[i + k + j]);
                assert(t.subrange(i, i + w + 1)[k + j] == t[i + k + j]);
                assert((esc_seq(content) + seq![34u8])[k + j] == (esc_seq(rest) + seq![34u8])[j]);
            }
        }
        lemma_scan_esc(t, i + k, rest);
        let inner = spec_scan_str(t, i + k);
        assert(inner == Some((rest, i + w + 1)));
        assert(t[i + 0] == e[0]);
        assert(t[i] == e[0]);
        if k >= 2 {
            assert(t[i + 1] == e[1]);
        }
        if k == 6 {
            assert(t[i + 2] == e[2]);
            assert(t[i + 3] == e[3]);
            assert(t[i + 4] == e[4]);
            assert(t[i + 5] == e[5]);
        }
        if c == 34 || c == 92 {
            assert(t[i] == 92 && t[i + 1] == c);
            assert(spec_scan_str(t, i) == scan_cons(c, inner));
        } else if c == 8 {
            assert(t[i] == 92 && t[i + 1] == 98);
            assert(spec_scan_str(t, i) == scan_cons(8, inner));
        } else if c == 12 {
            assert(t[i] == 92 && t[i + 1] == 102);
            assert(spec_scan_str(t, i) == scan_cons(12, inner));
        } else if c == 10 {
            assert(t[i] == 92 && t[i + 1] == 110);
            assert(spec_scan_str(t, i) == scan_cons(10, inner));
        } else if c == 13 {
            assert(t[i] == 92 && t[i + 1] == 114);
            assert(spec_scan_str(t, i) == scan_cons(13, inner));
        } else if c == 9 {
            assert(t[i] == 92 && t[i + 1] == 116);
            assert(spec_scan_str(t, i) == scan_cons(9, inner));
        } else if c < 32 {
            assert(t[i] == 92 && t[i + 1] == 117 && t[i + 2] == 48 && t[i + 3] == 48);
            assert(t[i + 4] == hex_digit(c / 16) && t[i + 5] == hex_digit(c % 16));
            assert(is_hex(hex_digit(c / 16)) && hex_val(hex_digit(c / 16)) == c / 16);
            assert(is_hex(hex_digit(c % 16)) && hex_val(hex_digit(c % 16)) == c % 16);
            assert(hex_val(t[i + 4]) * 16 + hex_val(t[i + 5]) == c);
            assert(spec_scan_str(t, i) == scan_cons(c, inner));
        } else {
            assert(t[i] == c && c != 34 && c != 92);
            assert(spec_scan_str(t, i) == scan_cons(c, inner));
        }
        assert(seq![c] + rest =~= content);
    }
}

/// Round trip of a request frame: parsing the canonical text of
/// `Request { method, params, id }` yields exactly that frame again,
/// whatever raw JSON text the params carry.
#[verifier::rlimit(100)]
pub proof fn lemma_request_round_trip(method: Seq<u8>, params: Seq<u8>, id: u64)
    ensures
        spec_parse_frame(req_text(method, params, id)) == Some(
            GFrame::Request { method, params, id },
        ),
{
    let t = req_text(method, params, id);
    let em = esc_seq(method);
    let digits = dec_digits(id as nat);
    lemma_dec_digits(id as nat);
    assert(seq_starts_with(t, req_prefix())) by {
        assert(t.subrange(0, 27) =~= req_prefix());
    }
    assert(t.subrange(27, 27 + em.len() as int + 1) =~= em + seq![34u8]);
    lemma_scan_esc(t, 27, method);
    let j: int = 27 + em.len() as int + 1;
    assert(spec_scan_str(t, 27) == Some((method, j)));
    assert(t.subrange(j, j + 10) =~= params_sep());
    let pstart: int = j + 10;
    let x = req_prefix() + em + seq![34u8] + params_sep() + params + id_sep();
    assert(t.drop_last() =~= x + digits);
    assert(x.last() == 58);
    lemma_trailing_digits_concat(x, digits);
    assert(trailing_digits(t.drop_last()) == digits);
    assert(t.len() == 27 + em.len() + 1 + 10 + params.len() + 6 + digits.len() + 1);
    let b: int = t.len() - 1 - digits.len() as int - 6;
    assert(b == pstart + params.len());
    assert(t.last() == 125);
    assert(t.subrange(b, b + 6) =~= id_sep());
    assert(dec_val(digits) == id as nat);
    assert(spec_peel_id(t) == Some((b, id)));
    assert(t.subrange(pstart, b) =~= params);
}

/// Round trip of a notification frame, for a params text that does not end
/// in a digit (every JSON object, array, string or literal does not; a
/// bare number could mimic an id tail).
#[verifier::rlimit(100)]
pub proof fn lemma_notification_round_trip(method: Seq<u8>, params: Seq<u8>)
    requires
        params.len() == 0 || !is_digit(params.last()),
    ensures
        spec_parse_frame(noti_text(method, params)) == Some(
            GFrame::Notification { method, params },
        ),
{
    let t = noti_text(method, params);
    let em = esc_seq(method);
    assert(seq_starts_with(t, req_prefix())) by {
        assert(t.subrange(0, 27) =~= req_prefix());
    }
    assert(t.subrange(27, 27 + em.len() as int + 1) =~= em + seq![34u8]);
    lemma_scan_esc(t, 27, method);
    let j: int = 27 + em.len() as int + 1;
    assert(spec_scan_str(t, 27) == Some((method, j)));
    assert(t.subrange(j, j + 10) =~= params_sep());
    let pstart: int = j + 10;
    assert(t.len() == pstart + params.len() + 1);
    assert(t.last() == 125);
    // No id tail peels off: the byte before the closing brace is no digit.
    let y = t.drop_last();
    if params.len() == 0 {
        assert(y.last() == 58) by {
            assert(y =~= req_prefix() + em + seq![34u8] + params_sep());
        }
    } else {
        assert(y.last() == params.last()) by {
            assert(y =~= req_prefix() + em + seq![34u8] + params_sep() + params);
        }
    }
    assert(trailing_digits(y).len() == 0);
    assert(spec_peel_id(t) is None);
    assert(t.subrange(pstart, t.len() as int - 1) =~= params);
}

} // verus!

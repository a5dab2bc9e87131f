//! The stdout line classifier.
//!
//! Every line the child writes is exactly one of: a port announcement, a
//! JSON-RPC frame, or a log line. The rules apply in order: the dedicated
//! `PRYX_CORE_LISTEN_ADDR=` prefix first, then the loose "listening"/"port"
//! wording, then a JSON object, and everything else is a log line.

use vstd::prelude::*;
use vstd::string::StringSliceAdditionalSpecFns;

use crate::frames::{parse_frame, spec_parse_frame, GFrame, RpcFrame};
use crate::portline::{
    listening_bytes, listening_pat, loose_port, port_bytes, port_pat, prefix_port, pryx_prefix,
    pryx_prefix_bytes, spec_loose_port, spec_prefix_port,
};
use crate::text::{
    contains_seq, contains_sub, lower_seq, seq_starts_with, slice_starts_with, to_lower_vec,
    trim_ascii, trim_spec,
};

verus! {

/// What one stdout line means, at the specification level.
pub enum GLineEvent {
    Port(u16),
    Frame(GFrame),
    Log,
}

/// What one stdout line means.
pub enum LineEvent {
    Port(u16),
    Frame(RpcFrame),
    Log,
}

impl View for LineEvent {
    type V = GLineEvent;

    open spec fn view(&self) -> GLineEvent {
        match self {
            LineEvent::Port(p) => GLineEvent::Port(*p),
            LineEvent::Frame(f) => GLineEvent::Frame(f@),
            LineEvent::Log => GLineEvent::Log,
        }
    }
}

/// The classification rules, in order. A port of zero never counts as an
/// announcement.
pub open spec fn spec_classify(s: Seq<u8>) -> GLineEvent {
    let t = trim_spec(s);
    if seq_starts_with(s, pryx_prefix()) && prefix_port_ok(s) {
        GLineEvent::Port(spec_prefix_port_val(s))
    } else if (contains_seq(lower_seq(s), listening_pat()) || contains_seq(
        lower_seq(s),
        port_pat(),
    )) && loose_port_ok(s) {
        GLineEvent::Port(spec_loose_port_val(s))
    } else if t.len() > 0 && t.first() == 123 {
        match spec_parse_frame(t) {
            Some(f) => GLineEvent::Frame(f),
            None => GLineEvent::Log,
        }
    } else {
        GLineEvent::Log
    }
}

/// The dedicated-prefix rule found a usable port.
pub open spec fn prefix_port_ok(s: Seq<u8>) -> bool {
    match spec_prefix_port(s) {
        Some(p) => p >= 1,
        None => false,
    }
}

/// The port the dedicated-prefix rule found.
pub open spec fn spec_prefix_port_val(s: Seq<u8>) -> u16 {
    match spec_prefix_port(s) {
        Some(p) => p,
        None => 0,
    }
}

/// The loose rule found a usable port.
pub open spec fn loose_port_ok(s: Seq<u8>) -> bool {
    match spec_loose_port(s) {
        Some(p) => p >= 1,
        None => false,
    }
}

/// The port the loose rule found.
pub open spec fn spec_loose_port_val(s: Seq<u8>) -> u16 {
    match spec_loose_port(s) {
        Some(p) => p,
        None => 0,
    }
}

/// Classifies one stdout line of the child.
pub fn classify_line(line: &str) -> (r: LineEvent)
    ensures
        r@ == spec_classify(line.spec_bytes()),
{
    let s: &[u8] = line.as_bytes();
    let pfx = pryx_prefix_bytes();
    if slice_starts_with(s, pfx.as_slice()) {
        if let Some(p) = prefix_port(s) {
            if p >= 1 {
                return LineEvent::Port(p);
            }
        }
    }
    let low = to_lower_vec(s);
    let pat1 = listening_bytes();
    let pat2 = port_bytes();
    if contains_sub(low.as_slice(), pat1.as_slice()) || contains_sub(
        low.as_slice(),
        pat2.as_slice(),
    ) {
        if let Some(p) = loose_port(s) {
            if p >= 1 {
                return LineEvent::Port(p);
            }
        }
    }
    let t = trim_ascii(s);
    if t.len() > 0 && t[0] == 123 {
        match parse_frame(t) {
            Some(f) => LineEvent::Frame(f),
            None => LineEvent::Log,
        }
    } else {
        LineEvent::Log
    }
}

} // verus!

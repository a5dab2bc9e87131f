//! Host-side RPC handling: what the child may ask of the host.
//!
//! The child invokes a small set of privileged methods. The functions here
//! decide, from the method name and the params text, which host capability
//! to exercise (a dialog, a notification, the clipboard, the updater), and
//! build the exact response frame for each outcome. The capability itself —
//! showing the dialog, touching the clipboard — is the shell's work; it
//! reports back a `HostOutcome` and writes the line this module builds.
//!
//! Params are read as flat JSON objects with string values, which is what
//! every host method documents; anything else falls back to the
//! per-method defaults.

use vstd::prelude::*;
use vstd::string::StringSliceAdditionalSpecFns;

use crate::frames::{
    escape_json, esc_seq, encode_response, resp_text, scan_string, spec_scan_str,
};
use crate::text::bytes_eq;

verus! {

/// Scanning the members of a flat string-valued object from position `i`
/// (just inside the `{`): `"key":"value"` pairs separated by commas, closed
/// by `}` at the very end of the text.
pub open spec fn spec_scan_entries(t: Seq<u8>, i: int) -> Option<Seq<(Seq<u8>, Seq<u8>)>>
    decreases t.len() - i,
{
    if i < 0 || i >= t.len() || t[i] != 34 {
        None
    } else {
        match spec_scan_str(t, i + 1) {
            None => None,
            Some((k, j)) => {
                if j + 1 < t.len() && t[j] == 58 && t[j + 1] == 34 {
                    match spec_scan_str(t, j + 2) {
                        None => None,
                        Some((v, l)) => {
                            if l < t.len() && t[l] == 44 && l + 1 > i {
                                match spec_scan_entries(t, l + 1) {
                                    None => None,
                                    Some(rest) => Some(seq![(k, v)] + rest),
                                }
                            } else if l == t.len() - 1 && t[l] == 125 {
                                Some(seq![(k, v)])
                            } else {
                                None
                            }
                        },
                    }
                } else {
                    None
                }
            },
        }
    }
}

/// Parsing a whole flat object: `{}` or `{"k":"v",...}`.
pub open spec fn spec_parse_flat(t: Seq<u8>) -> Option<Seq<(Seq<u8>, Seq<u8>)>> {
    if t.len() >= 2 && t.first() == 123 {
        if t.len() == 2 && t[1] == 125 {
            Some(Seq::empty())
        } else {
            spec_scan_entries(t, 1)
        }
    } else {
        None
    }
}

/// The value under the first occurrence of `key`.
pub open spec fn spec_lookup(entries: Seq<(Seq<u8>, Seq<u8>)>, key: Seq<u8>) -> Option<Seq<u8>>
    decreases entries.len(),
{
    if entries.len() == 0 {
        None
    } else if entries.first().0 == key {
        Some(entries.first().1)
    } else {
        spec_lookup(entries.drop_first(), key)
    }
}

/// The string field `key` of the params text, or `dflt` when the params
/// are not a flat object or have no such field.
pub open spec fn spec_field_or(t: Seq<u8>, key: Seq<u8>, dflt: Seq<u8>) -> Seq<u8> {
    match spec_parse_flat(t) {
        None => dflt,
        Some(es) => match spec_lookup(es, key) {
            None => dflt,
            Some(v) => v,
        },
    }
}

/// The views of parsed entries.
pub open spec fn entry_views(es: Seq<(Vec<u8>, Vec<u8>)>) -> Seq<(Seq<u8>, Seq<u8>)> {
    es.map_values(|p: (Vec<u8>, Vec<u8>)| (p.0@, p.1@))
}

/// Prepends already-parsed entries to a scan result.
pub open spec fn entries_prepend(
    pre: Seq<(Seq<u8>, Seq<u8>)>,
    r: Option<Seq<(Seq<u8>, Seq<u8>)>>,
) -> Option<Seq<(Seq<u8>, Seq<u8>)>> {
    match r {
        Some(s) => Some(pre + s),
        None => None,
    }
}

/// Parses a flat string-valued JSON object.
pub fn parse_flat(t: &[u8]) -> (r: Option<Vec<(Vec<u8>, Vec<u8>)>>)
    ensures
        match r {
            Some(es) => spec_parse_flat(t@) == Some(entry_views(es@)),
            None => spec_parse_flat(t@) is None,
        },
{
    if t.len() < 2 || t[0] != 123 {
        return None;
    }
    if t.len() == 2 && t[1] == 125 {
        let es: Vec<(Vec<u8>, Vec<u8>)> = Vec::new();
        proof {
            assert(entry_views(es@) =~= Seq::<(Seq<u8>, Seq<u8>)>::empty());
        }
        return Some(es);
    }
    let mut acc: Vec<(Vec<u8>, Vec<u8>)> = Vec::new();
    let mut i: usize = 1;
    proof {
        assert(entry_views(acc@) =~= Seq::<(Seq<u8>, Seq<u8>)>::empty());
        assert(entries_prepend(entry_views(acc@), spec_scan_entries(t@, 1)) == spec_scan_entries(
            t@,
            1,
        )) by {
            match spec_scan_entries(t@, 1) {
                Some(s) => {
                    assert(entry_views(acc@) + s =~= s);
                },
                None => {},
            }
        }
    }
    loop
        invariant
            1 <= i <= t@.len(),
            t@.len() >= 2,
            t@.first() == 123,
            !(t@.len() == 2 && t@[1] == 125),
            spec_scan_entries(t@, 1) == entries_prepend(entry_views(acc@), spec_scan_entries(
                t@,
                i as int,
            )),
        decreases t@.len() - i,
    {
        if i >= t.len() || t[i] != 34 {
            return None;
        }
        let (k, j) = match scan_string(t, i + 1) {
            None => {
                return None;
            },
            Some(p) => p,
        };
        if t.len() - j < 2 || t[j] != 58 || t[j + 1] != 34 {
            proof {
                if j + 1 < t@.len() {
                    assert(!(t@[j as int] == 58 && t@[j as int + 1] == 34));
                }
            }
            return None;
        }
        let (v, l) = match scan_string(t, j + 2) {
            None => {
                return None;
            },
            Some(p) => p,
        };
        let ghost pre = entry_views(acc@);
        if l < t.len() && t[l] == 44 {
            if l + 1 <= i {
                return None;
            }
            acc.push((k, v));
            proof {
                assert(entry_views(acc@) =~= pre.push((k@, v@)));
                lemma_entries_prepend_push(pre, (k@, v@), spec_scan_entries(t@, l + 1));
                assert(spec_scan_entries(t@, i as int) == entries_prepend(
                    seq![(k@, v@)],
                    spec_scan_entries(t@, l + 1),
                ));
                assert(entries_prepend(pre, spec_scan_entries(t@, i as int)) == entries_prepend(
                    pre.push((k@, v@)),
                    spec_scan_entries(t@, l + 1),
                ));
            }
            i = l + 1;
        } else if l == t.len() - 1 && t[l] == 125 {
            acc.push((k, v));
            proof {
                assert(spec_scan_entries(t@, i as int) == Some(seq![(k@, v@)]));
                assert(entry_views(acc@) =~= pre.push((k@, v@)));
                assert(pre + seq![(k@, v@)] =~= pre.push((k@, v@)));
            }
            return Some(acc);
        } else {
            return None;
        }
    }
}

/// Composition of prepends: batching one more entry onto the prefix.
proof fn lemma_entries_prepend_push(
    pre: Seq<(Seq<u8>, Seq<u8>)>,
    e: (Seq<u8>, Seq<u8>),
    r: Option<Seq<(Seq<u8>, Seq<u8>)>>,
)
    ensures
        entries_prepend(pre, entries_prepend(seq![e], r)) == entries_prepend(pre.push(e), r),
{
    match r {
        Some(s) => {
            assert(pre + (seq![e] + s) =~= pre.push(e) + s);
        },
        None => {},
    }
}

proof fn lemma_lookup_skip(entries: Seq<(Seq<u8>, Seq<u8>)>, key: Seq<u8>, i: int)
    requires
        0 <= i <= entries.len(),
        forall|j: int| 0 <= j < i ==> (#[trigger] entries[j]).0 != key,
    ensures
        spec_lookup(entries, key) == spec_lookup(entries.skip(i), key),
    decreases i,
{
    if i > 0 {
        lemma_lookup_skip(entries.drop_first(), key, i - 1);
        assert(entries.drop_first().skip(i - 1) =~= entries.skip(i));
        assert(entries.first().0 != key);
    } else {
        assert(entries.skip(0) =~= entries);
    }
}

/// Reads the string field `key` out of the params text, or hands back
/// `dflt` when the params are not a flat object or lack the field.
pub fn field_or(params: &[u8], key: &str, dflt: &str) -> (r: Vec<u8>)
    ensures
        r@ == spec_field_or(params@, key.spec_bytes(), dflt.spec_bytes()),
{
    let kb: &[u8] = key.as_bytes();
    match parse_flat(params) {
        None => {
            let mut out: Vec<u8> = Vec::new();
            out.extend_from_slice(dflt.as_bytes());
            proof {
                assert(out@ =~= dflt.spec_bytes());
            }
            out
        },
        Some(es) => {
            let ghost evs = entry_views(es@);
            let mut i: usize = 0;
            while i < es.len()
                invariant
                    i <= es@.len(),
                    evs == entry_views(es@),
                    spec_parse_flat(params@) == Some(evs),
                    kb@ == key.spec_bytes(),
                    forall|j: int| 0 <= j < i ==> (#[trigger] evs[j]).0 != kb@,
                decreases es@.len() - i,
            {
                if bytes_eq(es[i].0.as_slice(), kb) {
                    proof {
                        lemma_lookup_skip(evs, kb@, i as int);
                        assert(evs.skip(i as int).first() == evs[i as int]);
                    }
                    let mut out: Vec<u8> = Vec::new();
                    out.extend_from_slice(es[i].1.as_slice());
                    proof {
                        assert(out@ =~= evs[i as int].1);
                    }
                    return out;
                }
                proof {
                    assert(evs[i as int].0 == es@[i as int].0@);
                }
                i = i + 1;
            }
            proof {
                lemma_lookup_skip(evs, kb@, evs.len() as int);
                assert(evs.skip(evs.len() as int) =~= Seq::<(Seq<u8>, Seq<u8>)>::empty());
            }
            let mut out: Vec<u8> = Vec::new();
            out.extend_from_slice(dflt.as_bytes());
            proof {
                assert(out@ =~= dflt.spec_bytes());
            }
            out
        },
    }
}

/// What the host is asked to do for one inbound request, with the data the
/// capability needs already extracted.
pub enum HostAction {
    AskPermission { message: Vec<u8> },
    ShowNotification { title: Vec<u8>, body: Vec<u8> },
    WriteClipboard { text: Vec<u8> },
    ReadClipboard,
    CheckUpdate,
    InstallUpdate,
    NoHandler,
}

/// `HostAction` at the specification level.
pub enum GHostAction {
    AskPermission { message: Seq<u8> },
    ShowNotification { title: Seq<u8>, body: Seq<u8> },
    WriteClipboard { text: Seq<u8> },
    ReadClipboard,
    CheckUpdate,
    InstallUpdate,
    NoHandler,
}

impl View for HostAction {
    type V = GHostAction;

    open spec fn view(&self) -> GHostAction {
        match self {
            HostAction::AskPermission { message } => GHostAction::AskPermission {
                message: message@,
            },
            HostAction::ShowNotification { title, body } => GHostAction::ShowNotification {
                title: title@,
                body: body@,
            },
            HostAction::WriteClipboard { text } => GHostAction::WriteClipboard { text: text@ },
            HostAction::ReadClipboard => GHostAction::ReadClipboard,
            HostAction::CheckUpdate => GHostAction::CheckUpdate,
            HostAction::InstallUpdate => GHostAction::InstallUpdate,
            HostAction::NoHandler => GHostAction::NoHandler,
        }
    }
}

/// The dispatch table for inbound requests, with the per-method parameter
/// defaults of the host.
pub open spec fn spec_plan(m: Seq<u8>, p: Seq<u8>) -> GHostAction {
    if m == "permission.request".spec_bytes() {
        GHostAction::AskPermission {
            message: spec_field_or(p, "description".spec_bytes(), "Unknown Action".spec_bytes()),
        }
    } else if m == "notification.show".spec_bytes() {
        GHostAction::ShowNotification {
            title: spec_field_or(p, "title".spec_bytes(), "Pryx Notification".spec_bytes()),
            body: spec_field_or(p, "body".spec_bytes(), "".spec_bytes()),
        }
    } else if m == "clipboard.writeText".spec_bytes() {
        GHostAction::WriteClipboard {
            text: spec_field_or(p, "text".spec_bytes(), "".spec_bytes()),
        }
    } else if m == "clipboard.readText".spec_bytes() {
        GHostAction::ReadClipboard
    } else if m == "updater.check".spec_bytes() {
        GHostAction::CheckUpdate
    } else if m == "updater.install".spec_bytes() {
        GHostAction::InstallUpdate
    } else {
        GHostAction::NoHandler
    }
}

/// Decides what the host does for an inbound request: which capability to
/// exercise, with the parameters read out of the params text.
pub fn plan_inbound(method: &[u8], params: &[u8]) -> (r: HostAction)
    ensures
        r@ == spec_plan(method@, params@),
{
    if bytes_eq(method, "permission.request".as_bytes()) {
        HostAction::AskPermission { message: field_or(params, "description", "Unknown Action") }
    } else if bytes_eq(method, "notification.show".as_bytes()) {
        HostAction::ShowNotification {
            title: field_or(params, "title", "Pryx Notification"),
            body: field_or(params, "body", ""),
        }
    } else if bytes_eq(method, "clipboard.writeText".as_bytes()) {
        HostAction::WriteClipboard { text: field_or(params, "text", "") }
    } else if bytes_eq(method, "clipboard.readText".as_bytes()) {
        HostAction::ReadClipboard
    } else if bytes_eq(method, "updater.check".as_bytes()) {
        HostAction::CheckUpdate
    } else if bytes_eq(method, "updater.install".as_bytes()) {
        HostAction::InstallUpdate
    } else {
        HostAction::NoHandler
    }
}

/// What came of exercising a host capability.
pub enum HostOutcome {
    Approved(bool),
    Notified(bool),
    ClipboardWritten(bool),
    ClipboardText(Vec<u8>),
    UpdateAvailable { version: Vec<u8>, body: Vec<u8> },
    NoUpdate,
    Installed,
    UpdateError(Vec<u8>),
}

/// The result text for a permission decision.
pub open spec fn spec_approved_result(b: bool) -> Seq<u8> {
    if b {
        "{\"approved\":true}".spec_bytes()
    } else {
        "{\"approved\":false}".spec_bytes()
    }
}

/// The result text acknowledging a completed capability.
pub open spec fn spec_status_ok_result() -> Seq<u8> {
    "{\"status\":\"ok\"}".spec_bytes()
}

/// The result text carrying the clipboard content.
pub open spec fn spec_text_result(t: Seq<u8>) -> Seq<u8> {
    "{\"text\":\"".spec_bytes() + esc_seq(t) + "\"}".spec_bytes()
}

/// The result text reporting an available update.
pub open spec fn spec_update_available_result(version: Seq<u8>, body: Seq<u8>) -> Seq<u8> {
    "{\"available\":true,\"version\":\"".spec_bytes() + esc_seq(version)
        + "\",\"body\":\"".spec_bytes() + esc_seq(body) + "\"}".spec_bytes()
}

/// The result text when no update exists.
pub open spec fn spec_no_update_result() -> Seq<u8> {
    "{\"available\":false}".spec_bytes()
}

/// The result text after an installed update, announcing the host restart.
pub open spec fn spec_installed_result() -> Seq<u8> {
    "{\"status\":\"installed\",\"restart\":true}".spec_bytes()
}

/// The in-result error object: capability failures are reported inside the
/// result, not as JSON-RPC errors, so the child handles them uniformly.
pub open spec fn spec_error_result(m: Seq<u8>) -> Seq<u8> {
    "{\"error\":\"".spec_bytes() + esc_seq(m) + "\"}".spec_bytes()
}

/// The result text each outcome answers with; `None` where the host sends
/// no response (a capability that needed the shell and did not get it).
pub open spec fn spec_outcome_result(o: &HostOutcome) -> Option<Seq<u8>> {
    match o {
        HostOutcome::Approved(b) => Some(spec_approved_result(*b)),
        HostOutcome::Notified(sent) => if *sent {
            Some(spec_status_ok_result())
        } else {
            None
        },
        HostOutcome::ClipboardWritten(sent) => if *sent {
            Some(spec_status_ok_result())
        } else {
            None
        },
        HostOutcome::ClipboardText(t) => Some(spec_text_result(t@)),
        HostOutcome::UpdateAvailable { version, body } => Some(
            spec_update_available_result(version@, body@),
        ),
        HostOutcome::NoUpdate => Some(spec_no_update_result()),
        HostOutcome::Installed => Some(spec_installed_result()),
        HostOutcome::UpdateError(m) => Some(spec_error_result(m@)),
    }
}

fn lit_vec(s: &str) -> (r: Vec<u8>)
    ensures
        r@ == s.spec_bytes(),
{
    let mut out: Vec<u8> = Vec::new();
    out.extend_from_slice(s.as_bytes());
    proof {
        assert(out@ =~= s.spec_bytes());
    }
    out
}

fn quoted_result(prefix: &str, content: &[u8]) -> (r: Vec<u8>)
    ensures
        r@ == prefix.spec_bytes() + esc_seq(content@) + "\"}".spec_bytes(),
{
    let mut out = lit_vec(prefix);
    let e = escape_json(content);
    out.extend_from_slice(e.as_slice());
    out.extend_from_slice("\"}".as_bytes());
    proof {
        assert(out@ =~= prefix.spec_bytes() + esc_seq(content@) + "\"}".spec_bytes());
    }
    out
}

/// Builds the complete newline-terminated response line for an inbound
/// request's outcome, or `None` when no response is owed.
pub fn response_line(id: u64, outcome: &HostOutcome) -> (r: Option<Vec<u8>>)
    ensures
        match spec_outcome_result(outcome) {
            Some(body) => r matches Some(v) && v@ == resp_text(body, id) + seq![10u8],
            None => r is None,
        },
{
    let body: Vec<u8> = match outcome {
        HostOutcome::Approved(b) => {
            if *b {
                lit_vec("{\"approved\":true}")
            } else {
                lit_vec("{\"approved\":false}")
            }
        },
        HostOutcome::Notified(sent) => {
            if *sent {
                lit_vec("{\"status\":\"ok\"}")
            } else {
                return None;
            }
        },
        HostOutcome::ClipboardWritten(sent) => {
            if *sent {
                lit_vec("{\"status\":\"ok\"}")
            } else {
                return None;
            }
        },
        HostOutcome::ClipboardText(t) => quoted_result("{\"text\":\"", t.as_slice()),
        HostOutcome::UpdateAvailable { version, body } => {
            let mut whole = lit_vec("{\"available\":true,\"version\":\"");
            let ev = escape_json(version.as_slice());
            whole.extend_from_slice(ev.as_slice());
            whole.extend_from_slice("\",\"body\":\"".as_bytes());
            let eb = escape_json(body.as_slice());
            whole.extend_from_slice(eb.as_slice());
            whole.extend_from_slice("\"}".as_bytes());
            proof {
                assert(whole@ =~= spec_update_available_result(version@, body@));
            }
            whole
        },
        HostOutcome::NoUpdate => lit_vec("{\"available\":false}"),
        HostOutcome::Installed => lit_vec("{\"status\":\"installed\",\"restart\":true}"),
        HostOutcome::UpdateError(m) => quoted_result("{\"error\":\"", m.as_slice()),
    };
    Some(encode_response(body.as_slice(), id))
}

} // verus!

//! The permission manager: pending approval requests and the decision
//! rules for granting them.
//!
//! A request enters the pending set when it arrives and leaves it with
//! exactly one outcome: the user's answer, a timeout (denied), or an
//! explicit cancel. Whether a native dialog is shown at all is decided
//! here from the configuration; showing it is the shell's work.

use vstd::prelude::*;

use crate::strutil::concat3;

verus! {

/// An approval request as the UI sees it. `args` carries the raw JSON text
/// of the tool arguments.
pub struct ApprovalRequest {
    pub request_id: String,
    pub tool_name: String,
    pub tool_description: String,
    pub args: String,
    pub session_id: String,
    pub is_critical: bool,
}

/// `ApprovalRequest` at the specification level.
pub struct GApprovalRequest {
    pub request_id: Seq<char>,
    pub tool_name: Seq<char>,
    pub tool_description: Seq<char>,
    pub args: Seq<char>,
    pub session_id: Seq<char>,
    pub is_critical: bool,
}

impl View for ApprovalRequest {
    type V = GApprovalRequest;

    open spec fn view(&self) -> GApprovalRequest {
        GApprovalRequest {
            request_id: self.request_id@,
            tool_name: self.tool_name@,
            tool_description: self.tool_description@,
            args: self.args@,
            session_id: self.session_id@,
            is_critical: self.is_critical,
        }
    }
}

/// A field-for-field copy.
pub fn clone_request(r: &ApprovalRequest) -> (c: ApprovalRequest)
    ensures
        c@ == r@,
{
    ApprovalRequest {
        request_id: r.request_id.clone(),
        tool_name: r.tool_name.clone(),
        tool_description: r.tool_description.clone(),
        args: r.args.clone(),
        session_id: r.session_id.clone(),
        is_critical: r.is_critical,
    }
}

/// The user's (or the system's) answer to an approval request.
#[derive(Clone, Copy, Debug, PartialEq, Eq, Structural)]
pub enum ApprovalResponse {
    Approved,
    Denied,
    Cancelled,
}

/// How permission dialogs behave.
#[derive(Clone, Copy, Debug, PartialEq, Eq, Structural)]
pub struct PermissionDialogConfig {
    pub show_native_dialog: bool,
    pub dialog_timeout_ms: u64,
    pub approval_required_for_critical: bool,
}

impl Default for PermissionDialogConfig {
    /// No native dialogs, no timeout, criticality not enforced.
    fn default() -> (r: Self)
        ensures
            r.show_native_dialog == false,
            r.dialog_timeout_ms == 0,
            r.approval_required_for_critical == false,
    {
        PermissionDialogConfig {
            show_native_dialog: false,
            dialog_timeout_ms: 0,
            approval_required_for_critical: false,
        }
    }
}

/// The views of a request list.
pub open spec fn reqs_view(s: Seq<ApprovalRequest>) -> Seq<GApprovalRequest> {
    s.map_values(|r: ApprovalRequest| r@)
}

/// The list with every request of the given id removed.
pub open spec fn remove_req(s: Seq<GApprovalRequest>, id: Seq<char>) -> Seq<GApprovalRequest>
    decreases s.len(),
{
    if s.len() == 0 {
        s
    } else if s.first().request_id == id {
        remove_req(s.drop_first(), id)
    } else {
        seq![s.first()] + remove_req(s.drop_first(), id)
    }
}

/// The id list with every occurrence of the given id removed.
pub open spec fn remove_id(s: Seq<String>, id: Seq<char>) -> Seq<Seq<char>>
    decreases s.len(),
{
    if s.len() == 0 {
        Seq::empty()
    } else if s.first()@ == id {
        remove_id(s.drop_first(), id)
    } else {
        seq![s.first()@] + remove_id(s.drop_first(), id)
    }
}

/// The views of an id list.
pub open spec fn ids_view(s: Seq<String>) -> Seq<Seq<char>> {
    s.map_values(|r: String| r@)
}

/// Tracks pending approval requests and the ids that still have a live
/// response sink with the shell.
pub struct PermissionManager {
    pub config: PermissionDialogConfig,
    pub pending_requests: Vec<ApprovalRequest>,
    pub request_senders: Vec<String>,
}

impl PermissionManager {
    /// A fresh manager: nothing pending.
    pub fn new(config: PermissionDialogConfig) -> (r: Self)
        ensures
            r.config == config,
            r.pending_requests@.len() == 0,
            r.request_senders@.len() == 0,
    {
        PermissionManager { config, pending_requests: Vec::new(), request_senders: Vec::new() }
    }

    /// A request arrives: it joins the pending set, and its id gets a
    /// response sink.
    pub fn register(&mut self, request: ApprovalRequest)
        ensures
            reqs_view(final (self).pending_requests@) =~= reqs_view(
                old(self).pending_requests@,
            ).push(request@),
            ids_view(final (self).request_senders@) =~= ids_view(
                old(self).request_senders@,
            ).push(request.request_id@),
            final (self).config == old(self).config,
    {
        let id = request.request_id.clone();
        self.pending_requests.push(request);
        self.request_senders.push(id);
    }

    /// A request is withdrawn: it leaves the pending set and its sink is
    /// dropped, which unblocks any waiter with a cancelled outcome.
    pub fn cancel_request(&mut self, request_id: &str)
        ensures
            reqs_view(final (self).pending_requests@) == remove_req(
                reqs_view(old(self).pending_requests@),
                request_id@,
            ),
            ids_view(final (self).request_senders@) == remove_id(
                old(self).request_senders@,
                request_id@,
            ),
            final (self).config == old(self).config,
    {
        let ghost pre = reqs_view(self.pending_requests@);
        let mut kept: Vec<ApprovalRequest> = Vec::new();
        let mut i: usize = 0;
        proof {
            assert(pre.skip(0) =~= pre);
            assert(reqs_view(kept@) =~= Seq::<GApprovalRequest>::empty());
            assert(remove_req(pre, request_id@) =~= Seq::<GApprovalRequest>::empty() + remove_req(
                pre.skip(0),
                request_id@,
            ));
        }
        while i < self.pending_requests.len()
            invariant
                i <= self.pending_requests@.len(),
                pre == reqs_view(self.pending_requests@),
                self.request_senders@ == old(self).request_senders@,
                self.pending_requests@ == old(self).pending_requests@,
                self.config == old(self).config,
                remove_req(pre, request_id@) =~= reqs_view(kept@) + remove_req(
                    pre.skip(i as int),
                    request_id@,
                ),
            decreases self.pending_requests@.len() - i,
        {
            let keep = !crate::text::str_eq(
                self.pending_requests[i].request_id.as_str(),
                request_id,
            );
            proof {
                assert(pre.skip(i as int).first() == pre[i as int]);
                assert(pre.skip(i as int).drop_first() =~= pre.skip(i + 1));
            }
            if keep {
                let c = clone_request(&self.pending_requests[i]);
                let ghost kept_pre = reqs_view(kept@);
                kept.push(c);
                proof {
                    assert(reqs_view(kept@) =~= kept_pre.push(pre[i as int]));
                    assert(kept_pre.push(pre[i as int]) + remove_req(pre.skip(i + 1), request_id@)
                        =~= kept_pre + (seq![pre[i as int]] + remove_req(
                        pre.skip(i + 1),
                        request_id@,
                    )));
                }
            }
            i = i + 1;
        }
        proof {
            assert(pre.skip(pre.len() as int) =~= Seq::<GApprovalRequest>::empty());
            assert(reqs_view(kept@) + Seq::<GApprovalRequest>::empty() =~= reqs_view(kept@));
        }
        self.pending_requests = kept;
        let ghost spre = self.request_senders@;
        let mut skept: Vec<String> = Vec::new();
        let mut j: usize = 0;
        proof {
            assert(spre.skip(0) =~= spre);
            assert(ids_view(skept@) =~= Seq::<Seq<char>>::empty());
        }
        while j < self.request_senders.len()
            invariant
                j <= self.request_senders@.len(),
                spre == self.request_senders@,
                reqs_view(self.pending_requests@) == remove_req(
                    reqs_view(old(self).pending_requests@),
                    request_id@,
                ),
                self.config == old(self).config,
                remove_id(spre, request_id@) =~= ids_view(skept@) + remove_id(
                    spre.skip(j as int),
                    request_id@,
                ),
            decreases self.request_senders@.len() - j,
        {
            let keep = !crate::text::str_eq(self.request_senders[j].as_str(), request_id);
            proof {
                assert(spre.skip(j as int).first() == spre[j as int]);
                assert(spre.skip(j as int).drop_first() =~= spre.skip(j + 1));
            }
            if keep {
                let c = self.request_senders[j].clone();
                let ghost skept_pre = ids_view(skept@);
                skept.push(c);
                proof {
                    assert(ids_view(skept@) =~= skept_pre.push(spre[j as int]@));
                    assert(skept_pre.push(spre[j as int]@) + remove_id(
                        spre.skip(j + 1),
                        request_id@,
                    ) =~= skept_pre + (seq![spre[j as int]@] + remove_id(
                        spre.skip(j + 1),
                        request_id@,
                    )));
                }
            }
            j = j + 1;
        }
        proof {
            assert(spre.skip(spre.len() as int) =~= Seq::<String>::empty());
            assert(ids_view(skept@) + Seq::<Seq<char>>::empty() =~= ids_view(skept@));
        }
        self.request_senders = skept;
    }

    /// A snapshot of the pending requests.
    pub fn list_pending(&self) -> (r: Vec<ApprovalRequest>)
        ensures
            reqs_view(r@) == reqs_view(self.pending_requests@),
    {
        let mut out: Vec<ApprovalRequest> = Vec::new();
        let mut i: usize = 0;
        while i < self.pending_requests.len()
            invariant
                i <= self.pending_requests@.len(),
                reqs_view(out@) =~= reqs_view(self.pending_requests@).subrange(0, i as int),
            decreases self.pending_requests@.len() - i,
        {
            let c = clone_request(&self.pending_requests[i]);
            let ghost pre_out = reqs_view(out@);
            out.push(c);
            i = i + 1;
            proof {
                assert(reqs_view(out@) =~= pre_out.push(self.pending_requests@[i - 1]@));
                assert(reqs_view(self.pending_requests@).subrange(0, i as int) =~= reqs_view(
                    self.pending_requests@,
                ).subrange(0, i - 1).push(self.pending_requests@[i - 1]@));
            }
        }
        proof {
            assert(reqs_view(self.pending_requests@).subrange(
                0,
                self.pending_requests@.len() as int,
            ) =~= reqs_view(self.pending_requests@));
        }
        out
    }
}

/// A dialog must be shown when critical requests demand approval and this
/// one is critical, or when native dialogs are switched on.
pub fn should_show_dialog(config: &PermissionDialogConfig, is_critical: bool) -> (r: bool)
    ensures
        r == ((config.approval_required_for_critical && is_critical)
            || config.show_native_dialog),
{
    (config.approval_required_for_critical && is_critical) || config.show_native_dialog
}

/// The text of the permission dialog for a request.
pub open spec fn spec_dialog_message(r: GApprovalRequest) -> Seq<char> {
    "Tool Request: "@ + r.tool_name + "\n\nDescription: "@ + r.tool_description
        + "\n\nCritical: "@ + (if r.is_critical {
        "Yes - Critical Operation"@
    } else {
        "No - Standard Operation"@
    }) + "\n\nDo you want to proceed?"@
}

/// Builds the dialog text shown for a request.
pub fn dialog_message(r: &ApprovalRequest) -> (m: String)
    ensures
        m@ == spec_dialog_message(r@),
{
    let head = concat3("Tool Request: ", r.tool_name.as_str(), "\n\nDescription: ");
    let mid = concat3(head.as_str(), r.tool_description.as_str(), "\n\nCritical: ");
    let crit: &str = if r.is_critical {
        "Yes - Critical Operation"
    } else {
        "No - Standard Operation"
    };
    concat3(mid.as_str(), crit, "\n\nDo you want to proceed?")
}

/// Settles an approval request. When a dialog is owed, the user's answer
/// decides, a missing answer (timeout or dismissal) denies. Without a
/// dialog, non-critical requests pass and critical ones fail, since
/// nothing could approve them.
pub fn resolve_approval(
    config: &PermissionDialogConfig,
    is_critical: bool,
    dialog_answer: Option<bool>,
) -> (r: Result<ApprovalResponse, String>)
    ensures
        ((config.approval_required_for_critical && is_critical) || config.show_native_dialog)
            ==> r == Ok::<ApprovalResponse, String>(
            if dialog_answer == Some(true) {
                ApprovalResponse::Approved
            } else {
                ApprovalResponse::Denied
            },
        ),
        !((config.approval_required_for_critical && is_critical) || config.show_native_dialog)
            ==> (if is_critical {
            r matches Err(e) && e@
                == "Critical tool requires approval but native dialogs are disabled"@
        } else {
            r == Ok::<ApprovalResponse, String>(ApprovalResponse::Approved)
        }),
{
    if should_show_dialog(config, is_critical) {
        match dialog_answer {
            Some(true) => Ok(ApprovalResponse::Approved),
            _ => Ok(ApprovalResponse::Denied),
        }
    } else if is_critical {
        Err("Critical tool requires approval but native dialogs are disabled".to_owned())
    } else {
        Ok(ApprovalResponse::Approved)
    }
}

} // verus!

//! The HTTP front: authentication, static-path safety, and the mapping
//! from REST routes to child RPC methods.
//!
//! Every route under `/api` is gated on the admin token, presented either
//! as a bearer header or as the `pryx_admin_token` cookie. Static file
//! requests are sanitized before any filesystem work and checked against
//! the configured root after canonicalization. The socket handling itself
//! lives in the shell; the decisions stand here.

use vstd::prelude::*;
use vstd::string::StringSliceAdditionalSpecFns;

use crate::strutil::concat3;
use crate::text::{
    bytes_eq, contains_seq, contains_sub, seq_starts_with, slice_starts_with, str_eq,
};

verus! {

/// The verdict of the authentication middleware.
#[derive(Clone, Copy, Debug, PartialEq, Eq, Structural)]
pub enum AuthDecision {
    Allow,
    Unauthorized,
}

/// A request authenticates when the `Authorization` header is exactly
/// `Bearer <token>`, or the cookie header contains
/// `pryx_admin_token=<token>`.
pub open spec fn spec_auth_ok(
    auth: Option<Seq<u8>>,
    cookie: Option<Seq<u8>>,
    token: Seq<u8>,
) -> bool {
    ||| (match auth {
        Some(a) => a == "Bearer ".spec_bytes() + token,
        None => false,
    })
    ||| (match cookie {
        Some(c) => contains_seq(c, "pryx_admin_token=".spec_bytes() + token),
        None => false,
    })
}

/// Decides one request under `/api`: it proceeds exactly when it carries
/// the current token as a bearer header or a cookie; everything else is
/// turned away with 401.
pub fn auth_decision(auth_header: Option<&str>, cookie_header: Option<&str>, token: &str) -> (r:
    AuthDecision)
    ensures
        (r == AuthDecision::Allow) == spec_auth_ok(
            match auth_header {
                Some(a) => Some(a.spec_bytes()),
                None => None,
            },
            match cookie_header {
                Some(c) => Some(c.spec_bytes()),
                None => None,
            },
            token.spec_bytes(),
        ),
{
    let mut expected: Vec<u8> = Vec::new();
    expected.extend_from_slice("Bearer ".as_bytes());
    expected.extend_from_slice(token.as_bytes());
    proof {
        assert(expected@ =~= "Bearer ".spec_bytes() + token.spec_bytes());
    }
    if let Some(a) = auth_header {
        if bytes_eq(a.as_bytes(), expected.as_slice()) {
            return AuthDecision::Allow;
        }
    }
    let mut needle: Vec<u8> = Vec::new();
    needle.extend_from_slice("pryx_admin_token=".as_bytes());
    needle.extend_from_slice(token.as_bytes());
    proof {
        assert(needle@ =~= "pryx_admin_token=".spec_bytes() + token.spec_bytes());
    }
    if let Some(c) = cookie_header {
        if contains_sub(c.as_bytes(), needle.as_slice()) {
            return AuthDecision::Allow;
        }
    }
    AuthDecision::Unauthorized
}

/// The `Set-Cookie` value the root page answers with: the token, scoped to
/// the whole site, HTTP-only, same-site strict.
pub fn admin_cookie(token: &str) -> (r: String)
    ensures
        r@ == "pryx_admin_token="@ + token@ + "; Path=/; HttpOnly; SameSite=Strict"@,
{
    concat3("pryx_admin_token=", token, "; Path=/; HttpOnly; SameSite=Strict")
}

/// Length of the leading run without `/`.
pub open spec fn non_slash_len(p: Seq<u8>) -> nat
    decreases p.len(),
{
    if p.len() > 0 && p.first() != 47 {
        1 + non_slash_len(p.drop_first())
    } else {
        0
    }
}

/// The path with empty segments dropped: no leading, trailing or repeated
/// slashes.
pub open spec fn spec_sanitize(p: Seq<u8>) -> Seq<u8>
    decreases p.len(),
{
    if p.len() == 0 {
        Seq::empty()
    } else if p.first() == 47 {
        spec_sanitize(p.drop_first())
    } else {
        let k0 = non_slash_len(p);
        let k: int = if k0 <= p.len() {
            k0 as int
        } else {
            p.len() as int
        };
        let seg = p.subrange(0, k);
        let rest = spec_sanitize(p.skip(k));
        if rest.len() == 0 {
            seg
        } else {
            seg + seq![47u8] + rest
        }
    }
}

/// A request path may be served only when it nowhere holds `..`; that is
/// rejected before any path is built or canonicalized.
pub fn static_path_allowed(path: &[u8]) -> (r: bool)
    ensures
        r == !contains_seq(path@, "..".spec_bytes()),
{
    let mut dots: Vec<u8> = Vec::new();
    dots.extend_from_slice("..".as_bytes());
    proof {
        assert(dots@ =~= "..".spec_bytes());
    }
    !contains_sub(path, dots.as_slice())
}

proof fn lemma_non_slash_len_at(p: Seq<u8>, k: int)
    requires
        0 <= k <= p.len(),
        forall|j: int| 0 <= j < k ==> p[j] != 47,
        k < p.len() ==> p[k] == 47,
    ensures
        non_slash_len(p) == k,
    decreases p.len(),
{
    if k == 0 {
    } else {
        lemma_non_slash_len_at(p.drop_first(), k - 1);
    }
}

/// Normalizes a request path: empty segments (from leading, trailing or
/// doubled slashes) vanish; the segments themselves are kept in order.
pub fn sanitize_static_path(p: &[u8]) -> (r: Vec<u8>)
    ensures
        r@ == spec_sanitize(p@),
    decreases p@.len(),
{
    if p.len() == 0 {
        Vec::new()
    } else if p[0] == 47 {
        let rest: &[u8] = &p[1..p.len()];
        proof {
            assert(rest@ =~= p@.drop_first());
        }
        sanitize_static_path(rest)
    } else {
        let mut k: usize = 0;
        while k < p.len() && p[k] != 47
            invariant
                k <= p@.len(),
                forall|j: int| 0 <= j < k ==> p@[j] != 47,
            decreases p@.len() - k,
        {
            k = k + 1;
        }
        proof {
            lemma_non_slash_len_at(p@, k as int);
        }
        let tail: &[u8] = &p[k..p.len()];
        proof {
            assert(tail@ =~= p@.skip(k as int));
        }
        let rest = sanitize_static_path(tail);
        let mut out: Vec<u8> = Vec::new();
        let seg: &[u8] = &p[0..k];
        out.extend_from_slice(seg);
        proof {
            assert(out@ =~= p@.subrange(0, k as int));
        }
        if rest.len() == 0 {
            out
        } else {
            out.push(47);
            out.extend_from_slice(rest.as_slice());
            proof {
                assert(out@ =~= p@.subrange(0, k as int) + seq![47u8] + spec_sanitize(
                    p@.skip(k as int),
                ));
            }
            out
        }
    }
}

/// The relative path a static request resolves to: `index.html` for the
/// empty or explicit index request, otherwise the sanitized path.
pub fn static_target(path: &[u8]) -> (r: Vec<u8>)
    ensures
        r@ == spec_static_target(path@),
{
    let sanitized = sanitize_static_path(path);
    if path.len() == 0 || bytes_eq(path, "index.html".as_bytes()) || sanitized.len() == 0 {
        let mut out: Vec<u8> = Vec::new();
        out.extend_from_slice("index.html".as_bytes());
        proof {
            assert(out@ =~= "index.html".spec_bytes());
        }
        out
    } else {
        sanitized
    }
}

/// The target rule of `static_target`.
pub open spec fn spec_static_target(p: Seq<u8>) -> Seq<u8> {
    if p.len() == 0 || p == "index.html".spec_bytes() || spec_sanitize(p).len() == 0 {
        "index.html".spec_bytes()
    } else {
        spec_sanitize(p)
    }
}

/// After canonicalization, a static file may be served exactly when its
/// canonical path still lies under the canonical base directory; anything
/// that escaped is refused with 403.
pub fn static_access_allowed(canonical_base: &[u8], canonical_target: &[u8]) -> (r: bool)
    ensures
        r == seq_starts_with(canonical_target@, canonical_base@),
{
    slice_starts_with(canonical_target, canonical_base)
}

/// The child RPC method behind each REST route, by route pattern and HTTP
/// verb; `None` for a route the proxy does not know.
pub open spec fn spec_rpc_method(verb: Seq<char>, route: Seq<char>) -> Option<Seq<char>> {
    if verb == "GET"@ {
        if route == "/health"@ {
            Some("admin.health"@)
        } else if route == "/skills"@ {
            Some("admin.skills.list"@)
        } else if route == "/config"@ {
            Some("admin.config.get"@)
        } else if route == "/providers"@ {
            Some("admin.providers.list"@)
        } else if route == "/models"@ {
            Some("admin.models.list"@)
        } else if route == "/channels"@ {
            Some("admin.channels.list"@)
        } else if route == "/channels/:id"@ {
            Some("admin.channels.get"@)
        } else if route == "/mcp"@ {
            Some("admin.mcp.list"@)
        } else if route == "/mcp/:id"@ {
            Some("admin.mcp.get"@)
        } else if route == "/policies"@ {
            Some("admin.policies.list"@)
        } else if route == "/policies/:id"@ {
            Some("admin.policies.get"@)
        } else if route == "/audit/logs"@ {
            Some("admin.audit.list"@)
        } else if route == "/cost/summary"@ {
            Some("admin.cost.summary"@)
        } else {
            None
        }
    } else if verb == "POST"@ {
        if route == "/channels"@ {
            Some("admin.channels.create"@)
        } else if route == "/channels/:id/test"@ {
            Some("admin.channels.test"@)
        } else if route == "/mcp"@ {
            Some("admin.mcp.create"@)
        } else if route == "/policies"@ {
            Some("admin.policies.create"@)
        } else {
            None
        }
    } else if verb == "PUT"@ {
        if route == "/channels/:id"@ {
            Some("admin.channels.update"@)
        } else if route == "/mcp/:id"@ {
            Some("admin.mcp.update"@)
        } else if route == "/policies/:id"@ {
            Some("admin.policies.update"@)
        } else {
            None
        }
    } else if verb == "DELETE"@ {
        if route == "/channels/:id"@ {
            Some("admin.channels.delete"@)
        } else if route == "/mcp/:id"@ {
            Some("admin.mcp.delete"@)
        } else if route == "/policies/:id"@ {
            Some("admin.policies.delete"@)
        } else {
            None
        }
    } else {
        None
    }
}

/// Looks up the child RPC method a REST route proxies to.
pub fn rpc_method_for(verb: &str, route: &str) -> (r: Option<String>)
    ensures
        match r {
            Some(m) => spec_rpc_method(verb@, route@) == Some(m@),
            None => spec_rpc_method(verb@, route@) is None,
        },
{
    if str_eq(verb, "GET") {
        if str_eq(route, "/health") {
            method_name("admin.health")
        } else if str_eq(route, "/skills") {
            method_name("admin.skills.list")
        } else if str_eq(route, "/config") {
            method_name("admin.config.get")
        } else if str_eq(route, "/providers") {
            method_name("admin.providers.list")
        } else if str_eq(route, "/models") {
            method_name("admin.models.list")
        } else if str_eq(route, "/channels") {
            method_name("admin.channels.list")
        } else if str_eq(route, "/channels/:id") {
            method_name("admin.channels.get")
        } else if str_eq(route, "/mcp") {
            method_name("admin.mcp.list")
        } else if str_eq(route, "/mcp/:id") {
            method_name("admin.mcp.get")
        } else if str_eq(route, "/policies") {
            method_name("admin.policies.list")
        } else if str_eq(route, "/policies/:id") {
            method_name("admin.policies.get")
        } else if str_eq(route, "/audit/logs") {
            method_name("admin.audit.list")
        } else if str_eq(route, "/cost/summary") {
            method_name("admin.cost.summary")
        } else {
            None
        }
    } else if str_eq(verb, "POST") {
        if str_eq(route, "/channels") {
            method_name("admin.channels.create")
        } else if str_eq(route, "/channels/:id/test") {
            method_name("admin.channels.test")
        } else if str_eq(route, "/mcp") {
            method_name("admin.mcp.create")
        } else if str_eq(route, "/policies") {
            method_name("admin.policies.create")
        } else {
            None
        }
    } else if str_eq(verb, "PUT") {
        if str_eq(route, "/channels/:id") {
            method_name("admin.channels.update")
        } else if str_eq(route, "/mcp/:id") {
            method_name("admin.mcp.update")
        } else if str_eq(route, "/policies/:id") {
            method_name("admin.policies.update")
        } else {
            None
        }
    } else if str_eq(verb, "DELETE") {
        if str_eq(route, "/channels/:id") {
            method_name("admin.channels.delete")
        } else if str_eq(route, "/mcp/:id") {
            method_name("admin.mcp.delete")
        } else if str_eq(route, "/policies/:id") {
            method_name("admin.policies.delete")
        } else {
            None
        }
    } else {
        None
    }
}

fn method_name(m: &str) -> (r: Option<String>)
    ensures
        r matches Some(s) && s@ == m@,
{
    Some(m.to_owned())
}

/// The HTTP status an RPC proxy route answers with: 503 without a running
/// child, 200 for a successful call, 500 for a failed one.
pub fn rpc_http_status(sidecar_present: bool, rpc_ok: bool) -> (r: u16)
    ensures
        !sidecar_present ==> r == 503,
        sidecar_present && rpc_ok ==> r == 200,
        sidecar_present && !rpc_ok ==> r == 500,
{
    if !sidecar_present {
        503
    } else if rpc_ok {
        200
    } else {
        500
    }
}

/// The HTTP server's error conditions.
pub enum ServerError {
    BindError(String),
    StaticFileError(String),
    WebSocketError(String),
}

/// The wording of each server error.
pub open spec fn spec_server_error_message(e: &ServerError) -> Seq<char> {
    match e {
        ServerError::BindError(s) => "Failed to bind to port: "@ + s@,
        ServerError::StaticFileError(s) => "Static file error: "@ + s@,
        ServerError::WebSocketError(s) => "WebSocket error: "@ + s@,
    }
}

impl ServerError {
    /// The human-readable message of this error.
    pub fn message(&self) -> (r: String)
        ensures
            r@ == spec_server_error_message(self),
    {
        match self {
            ServerError::BindError(s) => crate::strutil::concat2(
                "Failed to bind to port: ",
                s.as_str(),
            ),
            ServerError::StaticFileError(s) => crate::strutil::concat2(
                "Static file error: ",
                s.as_str(),
            ),
            ServerError::WebSocketError(s) => crate::strutil::concat2(
                "WebSocket error: ",
                s.as_str(),
            ),
        }
    }
}

/// Where the HTTP front binds and what it serves.
pub struct ServerConfig {
    pub host: String,
    pub port: u16,
    pub static_files_path: String,
}

impl Default for ServerConfig {
    /// The loopback admin surface on its fixed port.
    fn default() -> (r: Self)
        ensures
            r.host@ == "127.0.0.1"@,
            r.port == 42424,
            r.static_files_path@ == "../../local-web/dist"@,
    {
        ServerConfig {
            host: "127.0.0.1".to_owned(),
            port: 42424,
            static_files_path: "../../local-web/dist".to_owned(),
        }
    }
}

/// The synthesized params for a path-id route: `{"id":"<id>"}`.
pub open spec fn spec_id_params(id: Seq<u8>) -> Seq<u8> {
    "{\"id\":\"".spec_bytes() + crate::frames::esc_seq(id) + "\"}".spec_bytes()
}

/// Builds the params object carrying a path id.
pub fn id_params(id: &[u8]) -> (r: Vec<u8>)
    ensures
        r@ == spec_id_params(id@),
{
    let mut out: Vec<u8> = Vec::new();
    out.extend_from_slice("{\"id\":\"".as_bytes());
    let e = crate::frames::escape_json(id);
    out.extend_from_slice(e.as_slice());
    out.extend_from_slice("\"}".as_bytes());
    proof {
        assert(out@ =~= spec_id_params(id@));
    }
    out
}

/// A request body with the path id folded in: for a JSON object the member
/// `"id":"<id>"` is appended (so it wins over any body-supplied id on the
/// usual last-member-wins reading); anything else passes unchanged.
pub open spec fn spec_merge_id(body: Seq<u8>, id: Seq<u8>) -> Seq<u8> {
    if body.len() >= 2 && body.first() == 123 && body.last() == 125 {
        if body.len() == 2 {
            spec_id_params(id)
        } else {
            body.subrange(0, body.len() - 1) + ",\"id\":\"".spec_bytes() + crate::frames::esc_seq(
                id,
            ) + "\"}".spec_bytes()
        }
    } else {
        body
    }
}

/// Folds the path id of an update route into the request body.
pub fn merge_id_into_body(body: &[u8], id: &[u8]) -> (r: Vec<u8>)
    ensures
        r@ == spec_merge_id(body@, id@),
{
    if body.len() >= 2 && body[0] == 123 && body[body.len() - 1] == 125 {
        if body.len() == 2 {
            id_params(id)
        } else {
            let mut out: Vec<u8> = Vec::new();
            let head: &[u8] = &body[0..body.len() - 1];
            out.extend_from_slice(head);
            out.extend_from_slice(",\"id\":\"".as_bytes());
            let e = crate::frames::escape_json(id);
            out.extend_from_slice(e.as_slice());
            out.extend_from_slice("\"}".as_bytes());
            proof {
                assert(out@ =~= spec_merge_id(body@, id@));
            }
            out
        }
    } else {
        let mut out: Vec<u8> = Vec::new();
        out.extend_from_slice(body);
        proof {
            assert(out@ =~= body@);
        }
        out
    }
}

/// An occurrence inside a subrange is an occurrence in the whole.
proof fn lemma_sub_at_subrange(p: Seq<u8>, a: int, b: int, pat: Seq<u8>, i: int)
    requires
        0 <= a <= b <= p.len(),
        crate::text::has_sub_at(p.subrange(a, b), pat, i),
    ensures
        crate::text::has_sub_at(p, pat, a + i),
{
    assert(p.subrange(a + i, a + i + pat.len()) =~= p.subrange(a, b).subrange(i, i + pat.len()));
}

/// Normalization introduces nothing: a two-byte pattern free of the
/// separator (such as the two dots of a parent segment) that does not
/// occur in the request path does not occur in the sanitized path either.
pub proof fn lemma_sanitize_keeps_out(p: Seq<u8>, pat: Seq<u8>)
    requires
        pat.len() == 2,
        pat[0] != 47,
        pat[1] != 47,
        !contains_seq(p, pat),
    ensures
        !contains_seq(spec_sanitize(p), pat),
    decreases p.len(),
{
    if p.len() == 0 {
        if contains_seq(spec_sanitize(p), pat) {
            let i = choose|i: int| crate::text::has_sub_at(spec_sanitize(p), pat, i);
            assert(crate::text::has_sub_at(spec_sanitize(p), pat, i));
        }
    } else if p.first() == 47 {
        assert(!contains_seq(p.drop_first(), pat)) by {
            if contains_seq(p.drop_first(), pat) {
                let i = choose|i: int| crate::text::has_sub_at(p.drop_first(), pat, i);
                assert(crate::text::has_sub_at(p.drop_first(), pat, i));
                assert(p.drop_first() =~= p.subrange(1, p.len() as int));
                lemma_sub_at_subrange(p, 1, p.len() as int, pat, i);
            }
        }
        lemma_sanitize_keeps_out(p.drop_first(), pat);
    } else {
        let k0 = non_slash_len(p);
        let k: int = if k0 <= p.len() {
            k0 as int
        } else {
            p.len() as int
        };
        let seg = p.subrange(0, k);
        let tail = p.skip(k);
        assert(!contains_seq(tail, pat)) by {
            if contains_seq(tail, pat) {
                let i = choose|i: int| crate::text::has_sub_at(tail, pat, i);
                assert(crate::text::has_sub_at(tail, pat, i));
                assert(tail =~= p.subrange(k, p.len() as int));
                lemma_sub_at_subrange(p, k, p.len() as int, pat, i);
            }
        }
        lemma_sanitize_keeps_out(tail, pat);
        let rest = spec_sanitize(tail);
        let out = spec_sanitize(p);
        if rest.len() == 0 {
            assert(out == seg);
            if contains_seq(out, pat) {
                let i = choose|i: int| crate::text::has_sub_at(out, pat, i);
                assert(crate::text::has_sub_at(out, pat, i));
                lemma_sub_at_subrange(p, 0, k, pat, i);
            }
        } else {
            assert(out == seg + seq![47u8] + rest);
            if contains_seq(out, pat) {
                let i = choose|i: int| crate::text::has_sub_at(out, pat, i);
                assert(crate::text::has_sub_at(out, pat, i));
                assert(out.subrange(i, i + 2)[0] == out[i]);
                assert(out.subrange(i, i + 2)[1] == out[i + 1]);
                assert(out[i] == pat[0] && out[i + 1] == pat[1]);
                if i + 2 <= k {
                    assert(crate::text::has_sub_at(seg, pat, i)) by {
                        assert(seg.subrange(i, i + 2) =~= out.subrange(i, i + 2));
                    }
                    lemma_sub_at_subrange(p, 0, k, pat, i);
                } else if i == k - 1 {
                    assert(out[i + 1] == 47);
                } else if i == k {
                    assert(out[i] == 47);
                } else {
                    assert(i >= k + 1);
                    assert(crate::text::has_sub_at(rest, pat, i - k - 1)) by {
                        assert(rest.subrange(i - k - 1, i - k + 1) =~= out.subrange(i, i + 2));
                    }
                }
            }
        }
    }
}

/// The parent-segment instance: a request path free of `..` sanitizes to a
/// served path free of `..`, so a request that survives the dot-dot
/// rejection can never have a parent directory built into its path.
pub proof fn lemma_sanitize_no_dotdot(p: Seq<u8>)
    requires
        !contains_seq(p, "..".spec_bytes()),
    ensures
        !contains_seq(spec_sanitize(p), "..".spec_bytes()),
{
    reveal_strlit("..");
    let cs = ".."@;
    assert(cs.len() == 2 && cs[0] == '.' && cs[1] == '.');
    assert(vstd::utf8::is_ascii_chars(cs));
    vstd::utf8::is_ascii_chars_encode_utf8(cs);
    let dd = "..".spec_bytes();
    assert(dd.len() == 2);
    assert(dd[0] == 46 && dd[1] == 46);
    lemma_sanitize_keeps_out(p, dd);
}

} // verus!

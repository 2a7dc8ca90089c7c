//! Multi-tenant platform logic: request routing, the middleware chain, the
//! request context, session cookies, per-session fan-out of snapshots and
//! deltas, isolate requests and their error boundary, parking decisions, and
//! content-hashed asset names.

use vstd::prelude::*;
use vstd::string::StringSliceAdditionalSpecFns;
use crate::data::string_bytes;
use crate::domtree::DomNode;
use crate::parse::{spec_find_byte, spec_find};
use crate::stream::{spec_starts_with, starts_with};
use crate::wire::push_bytes;

verus! {

/// Idle seconds after which an app with no subscribers is parked.
pub const PARK_IDLE_SECS: u64 = 300;

/// A request into an app's isolate; one of these is serviced at a time, in
/// arrival order.
pub enum V8Request {
    Render { path: Vec<u8>, session_id: Vec<u8> },
    Reduce { action: Vec<u8>, payload: Vec<u8>, path: Vec<u8>, session_id: Vec<u8> },
    SetData { json: Vec<u8> },
    RenderWithData { path: Vec<u8>, data_json: Vec<u8>, session_id: Vec<u8> },
    ApiCall { method: Vec<u8>, path: Vec<u8>, body: Vec<u8> },
    RenderWithCSS { path: Vec<u8>, session_id: Vec<u8> },
    RenderWithDataAndCSS { path: Vec<u8>, data_json: Vec<u8>, session_id: Vec<u8> },
    CleanupSessions { max_age_ms: u64 },
    DropSession { session_id: Vec<u8> },
}

/// What an isolate call produced: a JSON result or an error message.
pub enum V8Result {
    Value(Vec<u8>),
    Error(Vec<u8>),
}

/// A leaf node carrying only a tag and text.
pub open spec fn spec_plain_text_node(n: DomNode, tag: Seq<u8>, text: Seq<char>) -> bool {
    &&& string_bytes(n.tag) == tag
    &&& n.key is None
    &&& n.attrs is None
    &&& n.events is None
    &&& n.text matches Some(t) && t@ == text
    &&& n.children is None
}

/// The error-boundary fallback node for a failed render, pinned field by
/// field: an error-boundary `div` of class `magnetic-error`, a heading, the
/// message, and the failing action when one is named.
pub fn error_fallback(error_msg: &str, action: Option<&str>) -> (r: DomNode)
    ensures
        string_bytes(r.tag) == "div".spec_bytes(),
        r.key matches Some(k) && string_bytes(k) == "error-boundary".spec_bytes(),
        r.attrs matches Some(a) && a@.len() == 1
            && string_bytes(a@[0].0) == "class".spec_bytes()
            && string_bytes(a@[0].1) == "magnetic-error".spec_bytes(),
        r.events is None,
        r.text is None,
        r.children matches Some(c) && c@.len() == (if action is Some { 3int } else { 2int }),
        ({
            let c = r.children.unwrap()@;
            &&& spec_plain_text_node(c[0], "h2".spec_bytes(), "Something went wrong"@)
            &&& spec_plain_text_node(c[1], "p".spec_bytes(), error_msg@)
            &&& (action matches Some(act) ==> spec_plain_text_node(
                c[2],
                "p".spec_bytes(),
                crate::control::spec_lossy_chars(
                    "Action: ".spec_bytes() + act.spec_bytes(),
                ),
            ))
        }),
    {
    let mut children: Vec<DomNode> = Vec::new();
    children.push(DomNode::text("h2", "Something went wrong"));
    children.push(DomNode::text("p", error_msg));
    match action {
        Some(act) => {
            let mut label: Vec<u8> = Vec::new();
            push_bytes(&mut label, "Action: ".as_bytes());
            push_bytes(&mut label, act.as_bytes());
            let text = crate::control::ascii_label(label);
            children.push(DomNode::text("p", text.as_str()));
        },
        None => {},
    }
    let mut attrs: Vec<(String, String)> = Vec::new();
    attrs.push((crate::data::string_from("class"), crate::data::string_from(
        "magnetic-error",
    )));
    DomNode {
        tag: crate::data::string_from("div"),
        key: Some(crate::data::string_from("error-boundary")),
        attrs: Some(attrs),
        events: None,
        text: None,
        children: Some(children),
    }
}

/// The snapshot JSON of a leaf node carrying only a tag and text, in the
/// canonical wire form.
pub open spec fn spec_text_node_json(tag: Seq<u8>, text: Seq<char>) -> Seq<u8> {
    "{\"tag\":".spec_bytes() + crate::dom::spec_str_lit(tag)
        + ",\"text\":".spec_bytes()
        + crate::dom::spec_str_lit(vstd::utf8::encode_utf8(text)) + seq![125u8]
}

/// The serialized error-boundary snapshot for a message and an optional
/// action label.
pub open spec fn spec_error_json(msg: Seq<char>, action: Option<Seq<char>>) -> Seq<u8> {
    "{\"tag\":".spec_bytes() + crate::dom::spec_str_lit("div".spec_bytes())
        + ",\"key\":".spec_bytes() + crate::dom::spec_str_lit("error-boundary".spec_bytes())
        + ",\"attrs\":{".spec_bytes() + crate::dom::spec_str_lit("class".spec_bytes())
        + seq![58u8] + crate::dom::spec_str_lit("magnetic-error".spec_bytes()) + seq![125u8]
        + ",\"children\":[".spec_bytes()
        + spec_text_node_json("h2".spec_bytes(), "Something went wrong"@)
        + seq![44u8] + spec_text_node_json("p".spec_bytes(), msg)
        + (match action {
            Some(a) => seq![44u8] + spec_text_node_json("p".spec_bytes(), a),
            None => Seq::<u8>::empty(),
        }) + seq![93u8] + seq![125u8]
}

/// The JSON sent for an isolate result: the result itself, or the serialized
/// error-boundary snapshot built from the error message (and, when named,
/// the failing action).
#[verifier::rlimit(100)]
pub fn v8_result_to_json(result: V8Result, action: Option<&str>) -> (r: Vec<u8>)
    ensures
        result matches V8Result::Value(json) ==> r@ == json@,
        result matches V8Result::Error(e) ==> r@ == spec_error_json(
            crate::control::spec_lossy_chars(e@),
            match action {
                Some(a) => Some(crate::control::spec_lossy_chars(
                    "Action: ".spec_bytes() + a.spec_bytes(),
                )),
                None => None,
            },
        ),
{
    match result {
        V8Result::Value(json) => json,
        V8Result::Error(e) => {
            let ghost ebytes = e@;
            let msg = crate::control::ascii_label(e);
            let fallback = error_fallback(msg.as_str(), action);
            let out = crate::domtree::render_json_node(&fallback);
            proof {
                lemma_error_json_shape(fallback, msg@, action_chars(action, ebytes), ebytes);
            }
            out
        },
    }
}

/// The action label's characters, as the fallback builder produces them.
pub open spec fn action_chars(action: Option<&str>, ebytes: Seq<u8>) -> Option<Seq<char>> {
    match action {
        Some(a) => Some(crate::control::spec_lossy_chars(
            "Action: ".spec_bytes() + a.spec_bytes(),
        )),
        None => None,
    }
}

/// A fully pinned error-boundary node serializes to the error-boundary
/// snapshot bytes.
#[verifier::rlimit(100)]
proof fn lemma_error_json_shape(
    n: DomNode,
    msg: Seq<char>,
    action: Option<Seq<char>>,
    ebytes: Seq<u8>,
)
    requires
        string_bytes(n.tag) == "div".spec_bytes(),
        n.key matches Some(k) && string_bytes(k) == "error-boundary".spec_bytes(),
        n.attrs matches Some(a) && a@.len() == 1
            && string_bytes(a@[0].0) == "class".spec_bytes()
            && string_bytes(a@[0].1) == "magnetic-error".spec_bytes(),
        n.events is None,
        n.text is None,
        n.children matches Some(c) && c@.len() == (if action is Some { 3int } else { 2int }),
        ({
            let c = n.children.unwrap()@;
            &&& spec_plain_text_node(c[0], "h2".spec_bytes(), "Something went wrong"@)
            &&& spec_plain_text_node(c[1], "p".spec_bytes(), msg)
            &&& (action matches Some(ac) ==> spec_plain_text_node(c[2], "p".spec_bytes(), ac))
        }),
    ensures
        crate::domtree::spec_node_json(n) == spec_error_json(msg, action),
{
    let c = n.children.unwrap()@;
    reveal_with_fuel(crate::domtree::spec_nodes_json, 5);
    reveal_with_fuel(crate::domtree::spec_pairs_json, 3);
    lemma_text_node_json(c[0], "h2".spec_bytes(), "Something went wrong"@);
    lemma_text_node_json(c[1], "p".spec_bytes(), msg);
    match action {
        Some(ac) => {
            lemma_text_node_json(c[2], "p".spec_bytes(), ac);
            assert(crate::domtree::spec_nodes_json(c, 0) =~= spec_text_node_json(
                "h2".spec_bytes(),
                "Something went wrong"@,
            ) + seq![44u8] + spec_text_node_json("p".spec_bytes(), msg) + seq![44u8]
                + spec_text_node_json("p".spec_bytes(), ac));
        },
        None => {
            assert(crate::domtree::spec_nodes_json(c, 0) =~= spec_text_node_json(
                "h2".spec_bytes(),
                "Something went wrong"@,
            ) + seq![44u8] + spec_text_node_json("p".spec_bytes(), msg));
        },
    }
    assert(crate::domtree::spec_json_head(n) =~= "{\"tag\":".spec_bytes()
        + crate::dom::spec_str_lit("div".spec_bytes()) + ",\"key\":".spec_bytes()
        + crate::dom::spec_str_lit("error-boundary".spec_bytes())
        + ",\"attrs\":{".spec_bytes() + crate::dom::spec_str_lit("class".spec_bytes())
        + seq![58u8] + crate::dom::spec_str_lit("magnetic-error".spec_bytes())
        + seq![125u8]);
    assert(crate::domtree::spec_node_json(n) =~= spec_error_json(msg, action));
}

/// A plain text node serializes to the leaf wire form.
proof fn lemma_text_node_json(n: DomNode, tag: Seq<u8>, text: Seq<char>)
    requires
        spec_plain_text_node(n, tag, text),
    ensures
        crate::domtree::spec_node_json(n) == spec_text_node_json(tag, text),
{
    assert(crate::domtree::spec_json_head(n) =~= "{\"tag\":".spec_bytes()
        + crate::dom::spec_str_lit(tag) + ",\"text\":".spec_bytes()
        + crate::dom::spec_str_lit(vstd::utf8::encode_utf8(text)));
    assert(crate::domtree::spec_node_json(n) =~= spec_text_node_json(tag, text));
}

/// The routing decision for a platform request.
pub enum PlatformRoute {
    /// `POST /api/apps/{name}/deploy`.
    Deploy { name: Vec<u8> },
    /// `GET /api/apps/{name}/status`.
    Status { name: Vec<u8> },
    /// `GET /api/apps`.
    ListApps,
    /// `GET /` — the platform homepage.
    Homepage,
    /// `/apps/{name}{rest}` — routed into the named app.
    App { name: Vec<u8>, rest: Vec<u8> },
    /// Anything else.
    NotFound,
}

/// Route a platform request by method and path, in the order the platform
/// checks them: deploy, status, app list, homepage, app namespace, not found.
pub fn route_platform_request(method: &[u8], path: &[u8]) -> (r: PlatformRoute)
    ensures
        r matches PlatformRoute::Deploy { name } ==> method@ == "POST".spec_bytes()
            && path@ == "/api/apps/".spec_bytes() + name@ + "/deploy".spec_bytes(),
        r matches PlatformRoute::Status { name } ==> method@ == "GET".spec_bytes()
            && path@ == "/api/apps/".spec_bytes() + name@ + "/status".spec_bytes(),
        r is ListApps ==> method@ == "GET".spec_bytes()
            && path@ == "/api/apps".spec_bytes(),
        r is Homepage ==> method@ == "GET".spec_bytes() && (path@ == "/".spec_bytes()
            || path@.len() == 0),
        r matches PlatformRoute::App { name, rest } ==> path@ == "/apps/".spec_bytes()
            + name@ + rest@ && !spec_contains_byte(name@, 47) && (rest@.len() == 0
            || rest@[0] == 47),
{
    let is_get = crate::parse::bytes_eq(method, "GET".as_bytes());
    let is_post = crate::parse::bytes_eq(method, "POST".as_bytes());
    let api_prefix: &[u8] = "/api/apps/".as_bytes();
    if is_post && starts_with(path, api_prefix) && ends_with(path, "/deploy".as_bytes()) {
        let mid = middle(path, api_prefix.len(), "/deploy".as_bytes().len());
        match mid {
            Some(name) => {
                return PlatformRoute::Deploy { name };
            },
            None => {},
        }
    }
    if is_get && starts_with(path, api_prefix) && ends_with(path, "/status".as_bytes()) {
        let mid = middle(path, api_prefix.len(), "/status".as_bytes().len());
        match mid {
            Some(name) => {
                return PlatformRoute::Status { name };
            },
            None => {},
        }
    }
    if is_get && crate::parse::bytes_eq(path, "/api/apps".as_bytes()) {
        return PlatformRoute::ListApps;
    }
    if is_get && (crate::parse::bytes_eq(path, "/".as_bytes()) || path.len() == 0) {
        return PlatformRoute::Homepage;
    }
    let apps_prefix: &[u8] = "/apps/".as_bytes();
    if starts_with(path, apps_prefix) {
        let rest_all: &[u8] = &path[apps_prefix.len()..path.len()];
        proof {
            assert(rest_all@ =~= path@.skip("/apps/".spec_bytes().len() as int));
        }
        match crate::parse::find_byte(rest_all, 47) {
            Some(i) => {
                let name = crate::transport::slice_take(&rest_all[0..i], i);
                let tail: &[u8] = &rest_all[i..rest_all.len()];
                let rest = crate::transport::slice_take(tail, tail.len());
                proof {
                    assert(name@ =~= rest_all@.take(i as int));
                    assert(rest@ =~= rest_all@.skip(i as int));
                    lemma_find_byte_first(rest_all@, 47, i as int);
                    assert(name@ + rest@ =~= rest_all@);
                    assert(path@ =~= "/apps/".spec_bytes() + rest_all@);
                    assert(path@ =~= "/apps/".spec_bytes() + name@ + rest@);
                    assert(rest@[0] == 47);
                }
                return PlatformRoute::App { name, rest };
            },
            None => {
                let name = crate::transport::slice_take(rest_all, rest_all.len());
                let rest: Vec<u8> = Vec::new();
                proof {
                    lemma_find_byte_none(rest_all@, 47);
                    assert(name@ =~= rest_all@);
                    assert(path@ =~= "/apps/".spec_bytes() + rest_all@);
                    assert(path@ =~= "/apps/".spec_bytes() + name@ + rest@);
                }
                return PlatformRoute::App { name, rest };
            },
        }
    }
    PlatformRoute::NotFound
}

/// Whether a byte occurs in a byte string.
pub open spec fn spec_contains_byte(s: Seq<u8>, b: u8) -> bool {
    spec_find_byte(s, b) is Some
}

proof fn lemma_find_byte_first(s: Seq<u8>, b: u8, i: int)
    requires
        spec_find_byte(s, b) == Some(i),
    ensures
        0 <= i < s.len(),
        s[i] == b,
        forall|j: int| 0 <= j < i ==> s[j] != b,
        !spec_contains_byte(s.take(i), b),
    decreases s.len(),
{
    if s.len() > 0 && s[0] != b {
        lemma_find_byte_first(s.drop_first(), b, i - 1);
        assert forall|j: int| 0 <= j < i implies s[j] != b by {
            if j > 0 {
                assert(s.drop_first()[j - 1] == s[j]);
            }
        }
    }
    lemma_find_byte_none_from(s.take(i), b);
}

proof fn lemma_find_byte_none_from(s: Seq<u8>, b: u8)
    requires
        forall|j: int| 0 <= j < s.len() ==> s[j] != b,
    ensures
        spec_find_byte(s, b) is None,
    decreases s.len(),
{
    if s.len() > 0 {
        lemma_find_byte_none_from(s.drop_first(), b);
    }
}

proof fn lemma_find_byte_none(s: Seq<u8>, b: u8)
    requires
        spec_find_byte(s, b) is None,
    ensures
        !spec_contains_byte(s, b),
{
}

/// The bytes strictly between a prefix and a suffix; `None` when they
/// overlap.
fn middle(path: &[u8], plen: usize, slen: usize) -> (r: Option<Vec<u8>>)
    requires
        plen <= path@.len(),
    ensures
        r matches Some(v) ==> plen + slen <= path@.len()
            && v@ == path@.subrange(plen as int, path@.len() - slen),
{
    if path.len() < plen || path.len() - plen < slen {
        return None;
    }
    let mid: &[u8] = &path[plen..path.len() - slen];
    proof {
        assert(mid@ =~= path@.subrange(plen as int, path@.len() - slen));
    }
    Some(crate::transport::slice_take(mid, mid.len()))
}

/// Whether the slice ends with the given suffix.
pub fn ends_with(s: &[u8], p: &[u8]) -> (r: bool)
    ensures
        r == (p@.len() <= s@.len() && s@.subrange(s@.len() - p@.len(), s@.len() as int)
            == p@),
{
    if p.len() > s.len() {
        return false;
    }
    let tail: &[u8] = &s[s.len() - p.len()..s.len()];
    proof {
        assert(tail@ =~= s@.subrange(s@.len() - p@.len(), s@.len() as int));
    }
    crate::parse::bytes_eq(tail, p)
}

/// An app name accepted by the deploy endpoint: non-empty, no path
/// separator, no parent-directory component.
pub fn validate_deploy_name(name: &[u8]) -> (r: bool)
    ensures
        r == (name@.len() > 0 && !spec_contains_byte(name@, 47)
            && spec_find(name@, "..".spec_bytes()) is None),
{
    if name.len() == 0 {
        return false;
    }
    if crate::parse::find_byte(name, 47).is_some() {
        return false;
    }
    if crate::parse::find_subslice(name, "..".as_bytes()).is_some() {
        return false;
    }
    true
}

/// The subdomain of a forwarded host header: the first label of a host with
/// at least three labels, unless it is the API or web entry point.
pub fn subdomain_of_host(host: &[u8]) -> (r: Option<Vec<u8>>)
    ensures
        ({
            match spec_find_byte(host@, 46) {
                Option::None => r is None,
                Option::Some(d) => {
                    let label = host@.take(d);
                    let after = host@.skip(d + 1);
                    if spec_find_byte(after, 46) is None {
                        r is None
                    } else if label == "api".spec_bytes() {
                        r is None
                    } else if label == "www".spec_bytes() {
                        r is None
                    } else {
                        r matches Some(s) && s@ == label
                    }
                },
            }
        }),
{
    let hlen: usize = host.len();
    let first_dot = match crate::parse::find_byte(host, 46) {
        Some(i) => i,
        None => {
            return None;
        },
    };
    let rest: &[u8] = &host[first_dot + 1..host.len()];
    proof {
        assert(rest@ =~= host@.skip(first_dot + 1));
    }
    if crate::parse::find_byte(rest, 46).is_none() {
        return None;
    }
    let label: &[u8] = &host[0..first_dot];
    proof {
        assert(label@ =~= host@.take(first_dot as int));
    }
    if crate::parse::bytes_eq(label, "api".as_bytes())
        || crate::parse::bytes_eq(label, "www".as_bytes()) {
        return None;
    }
    Some(crate::transport::slice_take(label, label.len()))
}

/// Whether the idle reaper parks an app: no subscribers and idle at or past
/// the threshold. Parking never kills the isolate.
pub fn should_park(idle_secs: u64, sse_clients: usize, threshold: u64) -> (r: bool)
    ensures
        r == (idle_secs >= threshold && sse_clients == 0),
{
    idle_secs >= threshold && sse_clients == 0
}

/// The session id carried by the `magnetic_sid` cookie: the cookie value,
/// trimmed; absent or empty values yield none.
pub fn extract_session_cookie(headers: &Vec<(String, String)>) -> (r: Option<Vec<u8>>)
    ensures
        ({
            match crate::auth::spec_find_header(headers@, "cookie".spec_bytes()) {
                Option::None => r is None,
                Option::Some(i) => match crate::auth::spec_cookie_lookup(
                    string_bytes(headers@[i].1),
                    "magnetic_sid".spec_bytes(),
                ) {
                    Option::None => r is None,
                    Option::Some(v) => {
                        let t = crate::stream::spec_trim_ws(v);
                        if t.len() == 0 {
                            r is None
                        } else {
                            r matches Some(rv) && rv@ == t
                        }
                    },
                },
            }
        }),
{
    let cookie_header = match crate::auth::header_value(headers, "cookie") {
        Some(v) => v,
        None => {
            return None;
        },
    };
    let hb = cookie_header.as_str().as_bytes();
    proof {
        assert(hb@ =~= string_bytes(*cookie_header));
    }
    let val = match crate::auth::cookie_lookup(hb, "magnetic_sid".as_bytes()) {
        Some(v) => v,
        None => {
            return None;
        },
    };
    let trimmed = crate::stream::trim_ws(val.as_slice());
    if trimmed.len() == 0 {
        None
    } else {
        Some(trimmed)
    }
}

/// Index of the first argument equal to the flag, if any.
pub open spec fn spec_find_flag(args: Seq<String>, flag: Seq<u8>) -> Option<int>
    decreases args.len(),
{
    if args.len() <= 0 {
        None
    } else if string_bytes(args[0]) == flag {
        Some(0int)
    } else {
        match spec_find_flag(args.drop_first(), flag) {
            Some(i) => Some(i + 1),
            None => None,
        }
    }
}

proof fn lemma_find_flag_prefix(args: Seq<String>, flag: Seq<u8>, i: int)
    requires
        0 <= i <= args.len(),
        forall|j: int| 0 <= j < i ==> string_bytes(#[trigger] args[j]) != flag,
    ensures
        spec_find_flag(args, flag) == match spec_find_flag(args.skip(i), flag) {
            Some(k) => Some(k + i),
            None => None::<int>,
        },
    decreases i,
{
    if i > 0 {
        lemma_find_flag_prefix(args.drop_first(), flag, i - 1);
        assert(args.drop_first().skip(i - 1) =~= args.skip(i));
    } else {
        assert(args.skip(0) =~= args);
    }
}

/// The value following a flag in an argument list: the argument after the
/// flag's first occurrence, or nothing when the flag is absent or last.
pub fn find_arg(args: &Vec<String>, flag: &str) -> (r: Option<String>)
    ensures
        match spec_find_flag(args@, flag.spec_bytes()) {
            Option::None => r is None,
            Option::Some(i) => if i + 1 < args@.len() {
                r matches Some(v) && v@ == args@[i + 1]@
            } else {
                r is None
            },
        },
{
    let mut i: usize = 0;
    let n = args.len();
    while i < n
        invariant
            n == args@.len(),
            i <= n,
            forall|j: int| 0 <= j < i ==> string_bytes(#[trigger] args@[j]) != flag.spec_bytes(),
        decreases n - i,
    {
        if crate::parse::bytes_eq(args[i].as_str().as_bytes(), flag.as_bytes()) {
            proof {
                lemma_find_flag_prefix(args@, flag.spec_bytes(), i as int);
                assert(args@.skip(i as int)[0] == args@[i as int]);
            }
            if i + 1 < n {
                let v = crate::data::string_copy(&args[i + 1]);
                return Some(v);
            }
            return None;
        }
        i = i + 1;
    }
    proof {
        lemma_find_flag_prefix(args@, flag.spec_bytes(), i as int);
    }
    None
}

/// One `key: value` response-header line per entry, CRLF-terminated.
pub open spec fn spec_header_lines(h: Seq<(String, String)>, i: int) -> Seq<u8>
    decreases h.len() - i,
{
    if i < 0 || i >= h.len() {
        Seq::<u8>::empty()
    } else {
        string_bytes(h[i].0) + ": ".spec_bytes() + string_bytes(h[i].1)
            + "\r\n".spec_bytes() + spec_header_lines(h, i + 1)
    }
}

/// Render extra response headers as header lines.
pub fn format_extra_headers(headers: &Vec<(String, String)>) -> (r: Vec<u8>)
    ensures
        r@ == spec_header_lines(headers@, 0),
{
    let mut out: Vec<u8> = Vec::new();
    let mut i: usize = 0;
    let n = headers.len();
    #[verifier::loop_isolation(false)]
    while i < n
        invariant
            n == headers@.len(),
            i <= n,
            out@ + spec_header_lines(headers@, i as int) == spec_header_lines(headers@, 0),
        decreases n - i,
    {
        let ghost pre = out@;
        push_bytes(&mut out, headers[i].0.as_str().as_bytes());
        push_bytes(&mut out, ": ".as_bytes());
        push_bytes(&mut out, headers[i].1.as_str().as_bytes());
        push_bytes(&mut out, "\r\n".as_bytes());
        proof {
            assert(out@ + spec_header_lines(headers@, i + 1)
                =~= pre + spec_header_lines(headers@, i as int));
        }
        i = i + 1;
    }
    proof {
        assert(out@ =~= spec_header_lines(headers@, 0));
    }
    out
}

/// The content type served for a static file path, by its suffix.
pub fn guess_content_type(path: &str) -> (r: &'static str)
    ensures
        ({
            let p = path.spec_bytes();
            if spec_ends_with(p, ".js".spec_bytes()) {
                r@ == "application/javascript"@
            } else if spec_ends_with(p, ".css".spec_bytes()) {
                r@ == "text/css"@
            } else if spec_ends_with(p, ".json".spec_bytes()) {
                r@ == "application/json"@
            } else if spec_ends_with(p, ".wasm".spec_bytes()) {
                r@ == "application/wasm"@
            } else if spec_ends_with(p, ".html".spec_bytes()) {
                r@ == "text/html; charset=utf-8"@
            } else if spec_ends_with(p, ".png".spec_bytes()) {
                r@ == "image/png"@
            } else if spec_ends_with(p, ".svg".spec_bytes()) {
                r@ == "image/svg+xml"@
            } else if spec_ends_with(p, ".ico".spec_bytes()) {
                r@ == "image/x-icon"@
            } else if spec_ends_with(p, ".woff2".spec_bytes()) {
                r@ == "font/woff2"@
            } else if spec_ends_with(p, ".woff".spec_bytes()) {
                r@ == "font/woff"@
            } else {
                r@ == "application/octet-stream"@
            }
        }),
{
    let p = path.as_bytes();
    if ends_with(p, ".js".as_bytes()) {
        "application/javascript"
    } else if ends_with(p, ".css".as_bytes()) {
        "text/css"
    } else if ends_with(p, ".json".as_bytes()) {
        "application/json"
    } else if ends_with(p, ".wasm".as_bytes()) {
        "application/wasm"
    } else if ends_with(p, ".html".as_bytes()) {
        "text/html; charset=utf-8"
    } else if ends_with(p, ".png".as_bytes()) {
        "image/png"
    } else if ends_with(p, ".svg".as_bytes()) {
        "image/svg+xml"
    } else if ends_with(p, ".ico".as_bytes()) {
        "image/x-icon"
    } else if ends_with(p, ".woff2".as_bytes()) {
        "font/woff2"
    } else if ends_with(p, ".woff".as_bytes()) {
        "font/woff"
    } else {
        "application/octet-stream"
    }
}

/// Whether a byte string ends with a suffix.
pub open spec fn spec_ends_with(s: Seq<u8>, p: Seq<u8>) -> bool {
    p.len() <= s.len() && s.subrange(s.len() - p.len(), s.len() as int) == p
}

/// The reason phrase for a status code.
pub fn status_text(code: u16) -> (r: &'static str)
    ensures
        code == 200 ==> r@ == "OK"@,
        code == 204 ==> r@ == "No Content"@,
        code == 301 ==> r@ == "Moved Permanently"@,
        code == 302 ==> r@ == "Found"@,
        code == 304 ==> r@ == "Not Modified"@,
        code == 400 ==> r@ == "Bad Request"@,
        code == 403 ==> r@ == "Forbidden"@,
        code == 404 ==> r@ == "Not Found"@,
        code == 429 ==> r@ == "Too Many Requests"@,
        code == 500 ==> r@ == "Internal Server Error"@,
        !(code == 200 || code == 204 || code == 301 || code == 302 || code == 304
            || code == 400 || code == 403 || code == 404 || code == 429 || code == 500)
            ==> r@ == "OK"@,
{
    if code == 200 {
        "OK"
    } else if code == 204 {
        "No Content"
    } else if code == 301 {
        "Moved Permanently"
    } else if code == 302 {
        "Found"
    } else if code == 304 {
        "Not Modified"
    } else if code == 400 {
        "Bad Request"
    } else if code == 403 {
        "Forbidden"
    } else if code == 404 {
        "Not Found"
    } else if code == 429 {
        "Too Many Requests"
    } else if code == 500 {
        "Internal Server Error"
    } else {
        "OK"
    }
}

/// Percent-decoding of a URL component: `%XX` becomes the byte, `+` becomes
/// a space, everything else passes through; a malformed escape is dropped.
pub open spec fn spec_url_decode(s: Seq<u8>) -> Seq<u8>
    decreases s.len(),
{
    if s.len() == 0 {
        Seq::<u8>::empty()
    } else if s[0] == 37 && s.len() >= 3 {
        match spec_hex_val(s[1]) {
            Some(h) => match spec_hex_val(s[2]) {
                Some(l) => seq![(h * 16 + l) as u8] + spec_url_decode(s.skip(3)),
                None => spec_url_decode(s.skip(3)),
            },
            None => spec_url_decode(s.skip(3)),
        }
    } else if s[0] == 37 {
        Seq::<u8>::empty()
    } else if s[0] == 43 {
        seq![32u8] + spec_url_decode(s.skip(1))
    } else {
        seq![s[0]] + spec_url_decode(s.skip(1))
    }
}

/// The value of one hex digit.
pub open spec fn spec_hex_val(b: u8) -> Option<u8> {
    if 48 <= b <= 57 {
        Some((b - 48) as u8)
    } else if 97 <= b <= 102 {
        Some((b - 87) as u8)
    } else if 65 <= b <= 70 {
        Some((b - 55) as u8)
    } else {
        None
    }
}

fn hex_val(b: u8) -> (r: Option<u8>)
    ensures
        r == spec_hex_val(b),
{
    if 48 <= b && b <= 57 {
        Some(b - 48)
    } else if 97 <= b && b <= 102 {
        Some(b - 87)
    } else if 65 <= b && b <= 70 {
        Some(b - 55)
    } else {
        None
    }
}

/// Percent-decode a URL component.
pub fn urlencoding_decode(s: &[u8]) -> (r: Vec<u8>)
    ensures
        r@ == spec_url_decode(s@),
    decreases s@.len(),
{
    if s.len() == 0 {
        return Vec::new();
    }
    if s[0] == 37 && s.len() >= 3 {
        let rest: &[u8] = &s[3..s.len()];
        proof {
            assert(rest@ =~= s@.skip(3));
        }
        let tail = urlencoding_decode(rest);
        match hex_val(s[1]) {
            Some(h) => match hex_val(s[2]) {
                Some(l) => {
                    let mut out: Vec<u8> = Vec::new();
                    out.push(h * 16 + l);
                    push_bytes(&mut out, tail.as_slice());
                    proof {
                        assert(out@ =~= spec_url_decode(s@));
                    }
                    out
                },
                None => tail,
            },
            None => tail,
        }
    } else if s[0] == 37 {
        Vec::new()
    } else {
        let rest: &[u8] = &s[1..s.len()];
        proof {
            assert(rest@ =~= s@.skip(1));
        }
        let tail = urlencoding_decode(rest);
        let mut out: Vec<u8> = Vec::new();
        if s[0] == 43 {
            out.push(32);
        } else {
            out.push(s[0]);
        }
        push_bytes(&mut out, tail.as_slice());
        proof {
            assert(out@ =~= spec_url_decode(s@));
        }
        out
    }
}

/// The HTTP context flowing through the middleware chain.
pub struct MagneticContext {
    pub method: String,
    pub path: Vec<u8>,
    pub query: Vec<(Vec<u8>, Vec<u8>)>,
    pub headers: Vec<(String, String)>,
    pub status: u16,
    pub response_headers: Vec<(String, String)>,
    pub body: Option<Vec<u8>>,
}

impl MagneticContext {
    /// Build the context for a request: the path before any `?`, and the
    /// query pairs percent-decoded.
    pub fn from_request(method: &str, url: &[u8], headers: Vec<(String, String)>) -> (r:
        MagneticContext)
        ensures
            r.method@ == method@,
            r.status == 200,
            r.body is None,
            r.response_headers@.len() == 0,
            match spec_find_byte(url@, 63) {
                Some(q) => r.path@ == url@.take(q),
                None => r.path@ == url@,
            },
    {
        let ulen: usize = url.len();
        let (path, qs): (Vec<u8>, Vec<u8>) = match crate::parse::find_byte(url, 63) {
            Some(q) => {
                let p: &[u8] = &url[0..q];
                let rest: &[u8] = &url[q + 1..url.len()];
                proof {
                    assert(p@ =~= url@.take(q as int));
                }
                (
                    crate::transport::slice_take(p, p.len()),
                    crate::transport::slice_take(rest, rest.len()),
                )
            },
            None => (crate::transport::slice_take(url, url.len()), Vec::new()),
        };
        let mut query: Vec<(Vec<u8>, Vec<u8>)> = Vec::new();
        let mut rest: Vec<u8> = qs;
        loop
            invariant
                true,
            decreases rest@.len(),
        {
            if rest.len() == 0 {
                break;
            }
            let (pair, tail): (Vec<u8>, Vec<u8>) = match crate::parse::find_byte(
                rest.as_slice(),
                38,
            ) {
                Some(a) => {
                    let p: &[u8] = &rest.as_slice()[0..a];
                    let t: &[u8] = &rest.as_slice()[a + 1..rest.len()];
                    (
                        crate::transport::slice_take(p, p.len()),
                        crate::transport::slice_take(t, t.len()),
                    )
                },
                None => (
                    crate::transport::slice_take(rest.as_slice(), rest.len()),
                    Vec::new(),
                ),
            };
            proof {
                if spec_find_byte(rest@, 38) is Some {
                    assert(tail@.len() < rest@.len());
                }
            }
            match crate::parse::find_byte(pair.as_slice(), 61) {
                Some(e) => {
                    let k: &[u8] = &pair.as_slice()[0..e];
                    let v: &[u8] = &pair.as_slice()[e + 1..pair.len()];
                    query.push((urlencoding_decode(k), urlencoding_decode(v)));
                },
                None => {},
            }
            if tail.len() >= rest.len() {
                break;
            }
            rest = tail;
        }
        MagneticContext {
            method: crate::data::string_from(method),
            path,
            query,
            headers,
            status: 200,
            response_headers: Vec::new(),
            body: None,
        }
    }
}

/// One middleware of the chain.
pub enum Middleware {
    /// Request logging; it changes nothing about the context.
    Logger,
    /// Cross-origin headers, and a short-circuit for preflight requests.
    Cors { origin: String },
    /// A per-client sliding-window request limit.
    RateLimit { window_ms: u64, max_requests: u32 },
}

/// Build the logging middleware.
pub fn logger_middleware() -> (r: Middleware)
    ensures
        r is Logger,
{
    Middleware::Logger
}

/// Build the cross-origin middleware for an allowed origin.
pub fn cors_middleware(origins: &str) -> (r: Middleware)
    ensures
        r matches Middleware::Cors { origin } && origin@ == origins@,
{
    Middleware::Cors { origin: crate::data::string_from(origins) }
}

/// Build the rate-limit middleware.
pub fn rate_limit_middleware(window_ms: u64, max_requests: u32) -> (r: Middleware)
    ensures
        r == (Middleware::RateLimit { window_ms, max_requests }),
{
    Middleware::RateLimit { window_ms, max_requests }
}

/// Per-client hit counts with window deadlines for the rate limiter.
pub struct RateLimitState {
    pub hits: Vec<(Vec<u8>, (u32, u64))>,
}

/// The middleware chain, applied in order until one writes a body.
pub struct MiddlewareStack {
    pub fns: Vec<Middleware>,
}

impl MiddlewareStack {
    pub fn new() -> (r: MiddlewareStack)
        ensures
            r.fns@.len() == 0,
    {
        MiddlewareStack { fns: Vec::new() }
    }

    pub fn add(&mut self, f: Middleware)
        ensures
            final(self).fns@ == old(self).fns@.push(f),
    {
        self.fns.push(f);
    }

    /// Run the chain: each middleware in order, stopping after the first one
    /// that sets a body. Cross-origin middleware sets the three headers and
    /// answers preflights with 204; the rate limiter answers 429 over the
    /// per-window limit.
    pub fn run(
        &self,
        ctx: &mut MagneticContext,
        rl: &mut RateLimitState,
        client: &[u8],
        now_ms: u64,
    )
        requires
            now_ms <= u64::MAX - 1000000000,
        ensures
            final(ctx).method == old(ctx).method,
            final(ctx).path == old(ctx).path,
            final(ctx).query == old(ctx).query,
            final(ctx).headers == old(ctx).headers,
            // a context that already carries a body passes through untouched
            old(ctx).body is Some ==> *final(ctx) == *old(ctx) && *final(rl) == *old(rl),
    {
        let mut i: usize = 0;
        let n = self.fns.len();
        if ctx.body.is_some() {
            return;
        }
        while i < n
            invariant
                n == self.fns@.len(),
                i <= n,
                now_ms <= u64::MAX - 1000000000,
                old(ctx).body is None,
                ctx.method == old(ctx).method,
                ctx.path == old(ctx).path,
                ctx.query == old(ctx).query,
                ctx.headers == old(ctx).headers,
            decreases n - i,
        {
            if ctx.body.is_some() {
                return;
            }
            match &self.fns[i] {
                Middleware::Logger => {},
                Middleware::Cors { origin } => {
                    apply_cors(ctx, origin);
                },
                Middleware::RateLimit { window_ms, max_requests } => {
                    if *window_ms <= 1000000000 {
                        apply_rate_limit(ctx, rl, client, now_ms, *window_ms, *max_requests);
                    }
                },
            }
            i = i + 1;
        }
    }
}

/// Set the three cross-origin response headers; answer `OPTIONS` preflights
/// with 204 and an empty body.
pub fn apply_cors(ctx: &mut MagneticContext, origin: &String)
    ensures
        final(ctx).method == old(ctx).method,
        final(ctx).path == old(ctx).path,
        final(ctx).query == old(ctx).query,
        final(ctx).headers == old(ctx).headers,
        final(ctx).response_headers@.len() == old(ctx).response_headers@.len() + 3,
        forall|j: int| 0 <= j < old(ctx).response_headers@.len()
            ==> #[trigger] final(ctx).response_headers@[j] == old(ctx).response_headers@[j],
        ({
            let base = old(ctx).response_headers@.len() as int;
            let h = final(ctx).response_headers@;
            &&& string_bytes(h[base].0) == "Access-Control-Allow-Origin".spec_bytes()
            &&& h[base].1@ == origin@
            &&& string_bytes(h[base + 1].0) == "Access-Control-Allow-Headers".spec_bytes()
            &&& string_bytes(h[base + 1].1) == "Content-Type".spec_bytes()
            &&& string_bytes(h[base + 2].0) == "Access-Control-Allow-Methods".spec_bytes()
            &&& string_bytes(h[base + 2].1) == "GET, POST, OPTIONS".spec_bytes()
        }),
        string_bytes(old(ctx).method) == "OPTIONS".spec_bytes() ==> (final(ctx).status == 204
            && (final(ctx).body matches Some(b) && b@.len() == 0)),
        string_bytes(old(ctx).method) != "OPTIONS".spec_bytes() ==> final(ctx).status
            == old(ctx).status && final(ctx).body == old(ctx).body,
{
    push_response_header(ctx, "Access-Control-Allow-Origin", origin.as_str());
    push_response_header(ctx, "Access-Control-Allow-Headers", "Content-Type");
    push_response_header(ctx, "Access-Control-Allow-Methods", "GET, POST, OPTIONS");
    if crate::parse::bytes_eq(ctx.method.as_str().as_bytes(), "OPTIONS".as_bytes()) {
        ctx.status = 204;
        ctx.body = Some(Vec::new());
    }
}

fn push_response_header(ctx: &mut MagneticContext, k: &str, v: &str)
    ensures
        final(ctx).response_headers@.len() == old(ctx).response_headers@.len() + 1,
        forall|j: int| 0 <= j < old(ctx).response_headers@.len()
            ==> #[trigger] final(ctx).response_headers@[j] == old(ctx).response_headers@[j],
        string_bytes(final(ctx).response_headers@.last().0) == k.spec_bytes(),
        final(ctx).response_headers@.last().1@ == v@,
        string_bytes(final(ctx).response_headers@.last().1) == v.spec_bytes(),
        final(ctx).method == old(ctx).method,
        final(ctx).path == old(ctx).path,
        final(ctx).query == old(ctx).query,
        final(ctx).headers == old(ctx).headers,
        final(ctx).status == old(ctx).status,
        final(ctx).body == old(ctx).body,
{
    ctx.response_headers.push((crate::data::string_from(k), crate::data::string_from(v)));
}

/// Index of the first rate-limit entry for this client, if any.
pub open spec fn spec_rl_find(hits: Seq<(Vec<u8>, (u32, u64))>, client: Seq<u8>) -> Option<
    int,
>
    decreases hits.len(),
{
    if hits.len() <= 0 {
        None
    } else if hits[0].0@ == client {
        Some(0int)
    } else {
        match spec_rl_find(hits.drop_first(), client) {
            Some(i) => Some(i + 1),
            None => None,
        }
    }
}

proof fn lemma_rl_find_prefix(hits: Seq<(Vec<u8>, (u32, u64))>, client: Seq<u8>, i: int)
    requires
        0 <= i <= hits.len(),
        forall|j: int| 0 <= j < i ==> (#[trigger] hits[j]).0@ != client,
    ensures
        spec_rl_find(hits, client) == match spec_rl_find(hits.skip(i), client) {
            Some(k) => Some(k + i),
            None => None::<int>,
        },
    decreases i,
{
    if i > 0 {
        lemma_rl_find_prefix(hits.drop_first(), client, i - 1);
        assert(hits.drop_first().skip(i - 1) =~= hits.skip(i));
    } else {
        assert(hits.skip(0) =~= hits);
    }
}

/// The client's counter and window deadline after one hit: a fresh window
/// when the old one expired, else one more hit in the current window
/// (saturating instead of overflowing).
pub open spec fn spec_rl_next(e: (u32, u64), now_ms: u64, window_ms: u64) -> (u32, u64) {
    if now_ms > e.1 {
        (1u32, (now_ms + window_ms) as u64)
    } else if e.0 < u32::MAX {
        ((e.0 + 1) as u32, e.1)
    } else {
        e
    }
}

/// Count a hit in the client's current window; answer 429 with the error
/// body when the count exceeds the limit, and leave the context untouched
/// otherwise.
pub fn apply_rate_limit(
    ctx: &mut MagneticContext,
    rl: &mut RateLimitState,
    client: &[u8],
    now_ms: u64,
    window_ms: u64,
    max_requests: u32,
)
    requires
        now_ms + window_ms <= u64::MAX,
    ensures
        final(ctx).method == old(ctx).method,
        final(ctx).path == old(ctx).path,
        final(ctx).query == old(ctx).query,
        final(ctx).headers == old(ctx).headers,
        // the client's entry is created or advanced, others untouched
        ({
            let found = spec_rl_find(old(rl).hits@, client@);
            match found {
                Option::Some(k) => {
                    &&& final(rl).hits@.len() == old(rl).hits@.len()
                    &&& forall|j: int| 0 <= j < old(rl).hits@.len() && j != k
                        ==> #[trigger] final(rl).hits@[j] == old(rl).hits@[j]
                    &&& final(rl).hits@[k].0 == old(rl).hits@[k].0
                    &&& final(rl).hits@[k].1 == spec_rl_next(
                        old(rl).hits@[k].1,
                        now_ms,
                        window_ms,
                    )
                },
                Option::None => {
                    &&& final(rl).hits@.len() == old(rl).hits@.len() + 1
                    &&& forall|j: int| 0 <= j < old(rl).hits@.len()
                        ==> #[trigger] final(rl).hits@[j] == old(rl).hits@[j]
                    &&& final(rl).hits@.last().0@ == client@
                    &&& final(rl).hits@.last().1 == (1u32, (now_ms + window_ms) as u64)
                },
            }
        }),
        // over the limit: 429 with the error body; otherwise untouched
        ({
            let new_count = match spec_rl_find(old(rl).hits@, client@) {
                Option::Some(k) => spec_rl_next(old(rl).hits@[k].1, now_ms, window_ms).0,
                Option::None => 1u32,
            };
            if new_count > max_requests {
                &&& final(ctx).status == 429
                &&& final(ctx).body matches Some(b)
                    && b@ == "{\"error\":\"Too many requests\"}".spec_bytes()
                &&& final(ctx).response_headers == old(ctx).response_headers
            } else {
                *final(ctx) == *old(ctx)
            }
        }),
{
    let idx = rl_find(rl, client);
    let count: u32;
    match idx {
        Some(k) => {
            let mut entry = rl.hits.remove(k);
            if now_ms > entry.1.1 {
                entry.1 = (0, now_ms + window_ms);
            }
            if entry.1.0 < u32::MAX {
                entry.1.0 = entry.1.0 + 1;
            }
            count = entry.1.0;
            rl.hits.insert(k, entry);
            proof {
                assert(rl.hits@ =~= old(rl).hits@.update(k as int, rl.hits@[k as int]));
            }
        },
        None => {
            let key = crate::transport::slice_take(client, client.len());
            proof {
                assert(client@.take(client@.len() as int) =~= client@);
            }
            rl.hits.push((key, (1, now_ms + window_ms)));
            count = 1;
        },
    }
    if count > max_requests {
        ctx.status = 429;
        let mut b: Vec<u8> = Vec::new();
        push_bytes(&mut b, "{\"error\":\"Too many requests\"}".as_bytes());
        ctx.body = Some(b);
    }
}

/// First rate-limit entry for a client, if any.
fn rl_find(rl: &RateLimitState, client: &[u8]) -> (r: Option<usize>)
    ensures
        match r {
            Some(k) => Some(k as int) == spec_rl_find(rl.hits@, client@)
                && k < rl.hits@.len(),
            None => spec_rl_find(rl.hits@, client@) is None,
        },
{
    let mut i: usize = 0;
    let n = rl.hits.len();
    while i < n
        invariant
            n == rl.hits@.len(),
            i <= n,
            forall|j: int| 0 <= j < i ==> (#[trigger] rl.hits@[j]).0@ != client@,
        decreases n - i,
    {
        if crate::parse::bytes_eq(rl.hits[i].0.as_slice(), client) {
            proof {
                lemma_rl_find_prefix(rl.hits@, client@, i as int);
                assert(rl.hits@.skip(i as int)[0] == rl.hits@[i as int]);
            }
            return Some(i);
        }
        i = i + 1;
    }
    proof {
        lemma_rl_find_prefix(rl.hits@, client@, i as int);
    }
    None
}

/// A per-session subscriber registry with an outbox per subscriber: the
/// model of the event-channel fan-out. Frames are delivered to a subscriber
/// in the order they were appended to its outbox.
pub struct SessionRegistry {
    pub subs: Vec<(Vec<u8>, Vec<Subscriber>)>,
}

/// One event-channel subscriber: its pending frames, oldest first.
pub struct Subscriber {
    pub outbox: Vec<Vec<u8>>,
}

/// The frames of a subscriber's outbox, as byte sequences.
pub open spec fn outbox_view(s: Subscriber) -> Seq<Seq<u8>> {
    Seq::new(s.outbox@.len(), |i: int| s.outbox@[i]@)
}

impl SessionRegistry {
    pub fn new() -> (r: SessionRegistry)
        ensures
            r.subs@.len() == 0,
    {
        SessionRegistry { subs: Vec::new() }
    }

    /// Fan a frame out to one session only: every subscriber of that session
    /// gets the frame appended; no other session's subscribers change.
    pub fn broadcast_to_session(&mut self, sid: &[u8], frame: &[u8])
        ensures
            final(self).subs@.len() == old(self).subs@.len(),
            forall|i: int| 0 <= i < old(self).subs@.len()
                ==> (#[trigger] final(self).subs@[i]).0 == old(self).subs@[i].0,
            // no subscriber joins or leaves
            forall|i: int| 0 <= i < old(self).subs@.len()
                ==> (#[trigger] final(self).subs@[i]).1@.len()
                    == old(self).subs@[i].1@.len(),
            // the matching sessions' subscribers all receive the frame, last
            forall|i: int, j: int| 0 <= i < old(self).subs@.len()
                && 0 <= j < old(self).subs@[i].1@.len()
                && (#[trigger] old(self).subs@[i]).0@ == sid@
                ==> outbox_view(#[trigger] final(self).subs@[i].1@[j])
                    == outbox_view(old(self).subs@[i].1@[j]).push(frame@),
            // no other session's subscribers change
            forall|i: int| 0 <= i < old(self).subs@.len()
                && (#[trigger] old(self).subs@[i]).0@ != sid@
                ==> final(self).subs@[i].1 == old(self).subs@[i].1,
    {
        let mut i: usize = 0;
        let n = self.subs.len();
        #[verifier::loop_isolation(false)]
        while i < n
            invariant
                n == self.subs@.len(),
                i <= n,
                self.subs@.len() == old(self).subs@.len(),
                forall|k: int| 0 <= k < n
                    ==> (#[trigger] self.subs@[k]).0 == old(self).subs@[k].0,
                forall|k: int| 0 <= k < n
                    ==> (#[trigger] self.subs@[k]).1@.len() == old(self).subs@[k].1@.len(),
                forall|k: int| i <= k < n
                    ==> (#[trigger] self.subs@[k]).1 == old(self).subs@[k].1,
                forall|k: int, j: int| 0 <= k < i && 0 <= j < old(self).subs@[k].1@.len()
                    && (#[trigger] old(self).subs@[k]).0@ == sid@
                    ==> outbox_view(#[trigger] self.subs@[k].1@[j])
                        == outbox_view(old(self).subs@[k].1@[j]).push(frame@),
                forall|k: int| 0 <= k < i && (#[trigger] old(self).subs@[k]).0@ != sid@
                    ==> self.subs@[k].1 == old(self).subs@[k].1,
            decreases n - i,
        {
            if crate::parse::bytes_eq(self.subs[i].0.as_slice(), sid) {
                let ghost pre_subs = self.subs@;
                let mut entry = self.subs.remove(i);
                push_frame_all(&mut entry.1, frame);
                self.subs.insert(i, entry);
                proof {
                    assert(self.subs@ =~= pre_subs.update(i as int, self.subs@[i as int]));
                }
            }
            i = i + 1;
        }
    }

    /// Fan a frame out to every session's subscribers (upstream data
    /// changed).
    pub fn broadcast_all(&mut self, frame: &[u8])
        ensures
            final(self).subs@.len() == old(self).subs@.len(),
            forall|i: int| 0 <= i < old(self).subs@.len()
                ==> (#[trigger] final(self).subs@[i]).0 == old(self).subs@[i].0,
            // no subscriber joins or leaves
            forall|i: int| 0 <= i < old(self).subs@.len()
                ==> (#[trigger] final(self).subs@[i]).1@.len()
                    == old(self).subs@[i].1@.len(),
            forall|i: int, j: int| 0 <= i < old(self).subs@.len()
                && 0 <= j < (#[trigger] old(self).subs@[i]).1@.len()
                ==> outbox_view(#[trigger] final(self).subs@[i].1@[j])
                    == outbox_view(old(self).subs@[i].1@[j]).push(frame@),
    {
        let mut i: usize = 0;
        let n = self.subs.len();
        #[verifier::loop_isolation(false)]
        while i < n
            invariant
                n == self.subs@.len(),
                i <= n,
                self.subs@.len() == old(self).subs@.len(),
                forall|k: int| 0 <= k < n
                    ==> (#[trigger] self.subs@[k]).0 == old(self).subs@[k].0,
                forall|k: int| 0 <= k < n
                    ==> (#[trigger] self.subs@[k]).1@.len() == old(self).subs@[k].1@.len(),
                forall|k: int| i <= k < n
                    ==> (#[trigger] self.subs@[k]).1 == old(self).subs@[k].1,
                forall|k: int, j: int| 0 <= k < i
                    && 0 <= j < (#[trigger] old(self).subs@[k]).1@.len()
                    ==> outbox_view(#[trigger] self.subs@[k].1@[j])
                        == outbox_view(old(self).subs@[k].1@[j]).push(frame@),
            decreases n - i,
        {
            let ghost pre_subs = self.subs@;
            let mut entry = self.subs.remove(i);
            push_frame_all(&mut entry.1, frame);
            self.subs.insert(i, entry);
            proof {
                assert(self.subs@ =~= pre_subs.update(i as int, self.subs@[i as int]));
            }
            i = i + 1;
        }
    }
}

/// Append a frame to every subscriber's outbox.
fn push_frame_all(subs: &mut Vec<Subscriber>, frame: &[u8])
    ensures
        final(subs)@.len() == old(subs)@.len(),
        forall|j: int| 0 <= j < old(subs)@.len()
            ==> outbox_view(#[trigger] final(subs)@[j])
                == outbox_view(old(subs)@[j]).push(frame@),
{
    let mut j: usize = 0;
    let n = subs.len();
    #[verifier::loop_isolation(false)]
    while j < n
        invariant
            n == subs@.len(),
            j <= n,
            subs@.len() == old(subs)@.len(),
            forall|k: int| j <= k < n ==> (#[trigger] subs@[k]) == old(subs)@[k],
            forall|k: int| 0 <= k < j
                ==> outbox_view(#[trigger] subs@[k])
                    == outbox_view(old(subs)@[k]).push(frame@),
        decreases n - j,
    {
        let ghost pre_subs = subs@;
        let mut entry = subs.remove(j);
        let ghost pre = entry;
        entry.outbox.push(crate::transport::slice_take(frame, frame.len()));
        proof {
            assert(frame@.take(frame@.len() as int) =~= frame@);
            assert(outbox_view(entry) =~= outbox_view(pre).push(frame@));
        }
        subs.insert(j, entry);
        proof {
            assert(subs@ =~= pre_subs.update(j as int, subs@[j as int]));
        }
        j = j + 1;
    }
}

/// Frames already in a subscriber's outbox stay ahead of frames appended
/// later: a snapshot queued by a reducer call at one time precedes any
/// keepalive queued afterwards, for every subscriber that received both.
pub proof fn lemma_outbox_order(
    pre: Seq<Seq<u8>>,
    mid: Seq<Seq<u8>>,
    post: Seq<Seq<u8>>,
    snapshot: Seq<u8>,
    keepalive: Seq<u8>,
)
    requires
        mid == pre.push(snapshot),
        post == mid.push(keepalive),
    ensures
        post[pre.len() as int] == snapshot,
        post[mid.len() as int] == keepalive,
        pre.len() < mid.len(),
{
}

/// One step of a 64-bit byte fold: xor the byte in, multiply by the prime.
pub open spec fn spec_fold64_step(h: u64, b: u8, prime: u64) -> u64 {
    ((((h ^ (b as u64)) as nat) * (prime as nat)) % 0x10000000000000000nat) as u64
}

/// A 64-bit fold over a byte sequence.
pub open spec fn spec_fold64(s: Seq<u8>, h: u64, prime: u64) -> u64
    decreases s.len(),
{
    if s.len() <= 0 {
        h
    } else {
        spec_fold64(s.drop_first(), spec_fold64_step(h, s[0], prime), prime)
    }
}

fn fold64(data: &[u8], seed: u64, prime: u64) -> (h: u64)
    ensures
        h == spec_fold64(data@, seed, prime),
{
    let mut h: u64 = seed;
    let mut i: usize = 0;
    proof {
        assert(data@.skip(0) =~= data@);
    }
    while i < data.len()
        invariant
            i <= data@.len(),
            spec_fold64(data@, seed, prime) == spec_fold64(data@.skip(i as int), h, prime),
        decreases data@.len() - i,
    {
        proof {
            assert(data@.skip(i as int).drop_first() =~= data@.skip(i + 1));
            assert(data@.skip(i as int)[0] == data@[i as int]);
        }
        h = (h ^ (data[i] as u64)).wrapping_mul(prime);
        i = i + 1;
    }
    proof {
        assert(data@.skip(data@.len() as int) =~= Seq::<u8>::empty());
    }
    h
}

/// The lower-case hex digit of a value below sixteen.
pub open spec fn spec_hex_lower(n: nat) -> u8 {
    if n < 10 {
        (48 + n) as u8
    } else {
        (87 + n) as u8
    }
}

/// The lower-case hex digits of `n`, `count` nibbles wide, most significant
/// first.
pub open spec fn spec_hex_digits(n: nat, count: nat) -> Seq<u8>
    decreases count,
{
    if count == 0 {
        Seq::<u8>::empty()
    } else {
        spec_hex_digits(n / 16, (count - 1) as nat) + seq![spec_hex_lower(n % 16)]
    }
}

/// The hex rendering is exactly `count` digits wide.
proof fn lemma_hex_digits_len(n: nat, count: nat)
    ensures
        spec_hex_digits(n, count).len() == count,
    decreases count,
{
    if count > 0 {
        lemma_hex_digits_len(n / 16, (count - 1) as nat);
    }
}

fn push_hex64(out: &mut Vec<u8>, n: u64, count: usize)
    requires
        count <= 16,
    ensures
        final(out)@ == old(out)@ + spec_hex_digits(n as nat, count as nat),
    decreases count,
{
    if count == 0 {
        proof {
            assert(out@ =~= old(out)@ + spec_hex_digits(n as nat, 0));
        }
        return;
    }
    push_hex64(out, n / 16, count - 1);
    let d = (n % 16) as u8;
    if d < 10 {
        out.push(48 + d);
    } else {
        out.push(87 + d);
    }
    proof {
        assert(out@ =~= old(out)@ + spec_hex_digits(n as nat, count as nat));
    }
}

/// The content fingerprint used for asset names: two 64-bit byte folds —
/// one forward, one over the reversed bytes with a second prime — printed as
/// 32 lower-case hex digits.
pub open spec fn spec_content_hash(data: Seq<u8>) -> Seq<u8> {
    spec_hex_digits(spec_fold64(data, 0xcbf29ce484222325u64, 0x100000001b3u64) as nat, 16)
        + spec_hex_digits(
        spec_fold64(data.reverse(), 0x84222325cbf29ce4u64, 0x1b300000001u64) as nat,
        16,
    )
}

/// Fingerprint asset contents for content-addressed names.
pub fn md5_hex(data: &[u8]) -> (r: Vec<u8>)
    ensures
        r@ == spec_content_hash(data@),
        r@.len() == 32,
{
    let h1 = fold64(data, 0xcbf29ce484222325, 0x100000001b3);
    let mut rev: Vec<u8> = Vec::new();
    let mut i: usize = data.len();
    while i > 0
        invariant
            i <= data@.len(),
            rev@.len() == data@.len() - i,
            forall|j: int| 0 <= j < rev@.len() ==> #[trigger] rev@[j] == data@[data@.len() - 1 - j],
        decreases i,
    {
        i = i - 1;
        rev.push(data[i]);
    }
    proof {
        assert(rev@ =~= data@.reverse());
    }
    let h2 = fold64(rev.as_slice(), 0x84222325cbf29ce4, 0x1b300000001);
    let mut out: Vec<u8> = Vec::new();
    push_hex64(&mut out, h1, 16);
    push_hex64(&mut out, h2, 16);
    proof {
        assert(out@ =~= spec_content_hash(data@));
        lemma_hex_digits_len(spec_fold64(data@, 0xcbf29ce484222325u64, 0x100000001b3u64) as nat, 16);
        lemma_hex_digits_len(
            spec_fold64(data@.reverse(), 0x84222325cbf29ce4u64, 0x1b300000001u64) as nat,
            16,
        );
    }
    out
}

/// Whether a file extension takes a content-hashed name.
pub fn is_hashable_ext(ext: &[u8]) -> (r: bool)
    ensures
        r == (ext@ == ".css".spec_bytes() || ext@ == ".js".spec_bytes()
            || ext@ == ".wasm".spec_bytes()),
{
    crate::parse::bytes_eq(ext, ".css".as_bytes())
        || crate::parse::bytes_eq(ext, ".js".as_bytes())
        || crate::parse::bytes_eq(ext, ".wasm".as_bytes())
}

/// The content-hashed file name: the stem, the first eight hash digits, the
/// extension.
pub fn hashed_asset_name(stem: &[u8], hash: &[u8], ext: &[u8]) -> (r: Vec<u8>)
    requires
        hash@.len() >= 8,
    ensures
        r@ == stem@ + seq![46u8] + hash@.take(8) + ext@,
{
    let mut out: Vec<u8> = Vec::new();
    push_bytes(&mut out, stem);
    out.push(46);
    let prefix: &[u8] = &hash[0..8];
    proof {
        assert(prefix@ =~= hash@.take(8));
    }
    push_bytes(&mut out, prefix);
    push_bytes(&mut out, ext);
    proof {
        assert(out@ =~= stem@ + seq![46u8] + hash@.take(8) + ext@);
    }
    out
}

/// The cache policy for a served asset: immutable for content-hashed names,
/// a short revalidated window otherwise.
pub fn cache_control_for(is_hashed: bool) -> (r: &'static str)
    ensures
        is_hashed ==> r@ == "public, max-age=31536000, immutable"@,
        !is_hashed ==> r@ == "public, max-age=300, must-revalidate"@,
{
    if is_hashed {
        "public, max-age=31536000, immutable"
    } else {
        "public, max-age=300, must-revalidate"
    }
}

/// The content-hashed asset manifest: original name to hashed name, and the
/// reverse.
pub struct AssetManifest {
    pub files: Vec<(String, String)>,
    pub reverse: Vec<(String, String)>,
}

impl AssetManifest {
    pub fn new() -> (r: AssetManifest)
        ensures
            r.files@.len() == 0,
            r.reverse@.len() == 0,
    {
        AssetManifest { files: Vec::new(), reverse: Vec::new() }
    }
}

/// The navigation target carried by a navigate action payload: the decoded
/// `path` field, or the root path when the field is absent or not a
/// properly terminated string.
pub fn navigate_path(payload: &[u8]) -> (r: Vec<u8>)
    ensures
        ({
            let f = crate::parse::spec_string_field(payload@, "\"path\"".spec_bytes());
            if f.1 {
                r@ == f.0
            } else {
                r@ == "/".spec_bytes()
            }
        }),
{
    let mut out: Vec<u8> = Vec::new();
    if crate::parse::extract_string_field_vec(payload, "\"path\"".as_bytes(), &mut out) {
        out
    } else {
        let root = crate::transport::slice_take("/".as_bytes(), "/".as_bytes().len());
        proof {
            assert(root@ =~= "/".spec_bytes());
        }
        root
    }
}

/// The per-session current path: a `navigate` action rewrites a session's
/// entry, a render reads it (the root path when none is stored), and
/// session death erases it.
pub struct SessionPaths {
    pub paths: Vec<(Vec<u8>, Vec<u8>)>,
}

proof fn lemma_path_update(
    paths: Seq<(Vec<u8>, Vec<u8>)>,
    i: int,
    e: (Vec<u8>, Vec<u8>),
)
    requires
        0 <= i < paths.len(),
        e.0@ == paths[i].0@,
        forall|j: int| 0 <= j < i ==> (#[trigger] paths[j]).0@ != e.0@,
    ensures
        crate::data::spec_env_of(paths.update(i, e), e.0@) == Some(e.1@),
        forall|k2: Seq<u8>| k2 != e.0@
            ==> #[trigger] crate::data::spec_env_of(paths.update(i, e), k2)
                == crate::data::spec_env_of(paths, k2),
    decreases paths.len(),
{
    reveal_with_fuel(crate::data::spec_env_of, 3);
    if i == 0 {
        assert forall|k2: Seq<u8>| k2 != e.0@
            implies #[trigger] crate::data::spec_env_of(paths.update(0, e), k2)
                == crate::data::spec_env_of(paths, k2) by {
            assert(paths.update(0, e).drop_first() =~= paths.drop_first());
            assert(crate::data::spec_env_of(paths.update(0, e).drop_first(), k2)
                == crate::data::spec_env_of(paths.drop_first(), k2));
        }
    } else {
        assert(paths.update(i, e).drop_first() =~= paths.drop_first().update(i - 1, e));
        lemma_path_update(paths.drop_first(), i - 1, e);
        assert forall|k2: Seq<u8>| k2 != e.0@
            implies #[trigger] crate::data::spec_env_of(paths.update(i, e), k2)
                == crate::data::spec_env_of(paths, k2) by {
            assert(paths.update(i, e)[0] == paths[0]);
            assert(crate::data::spec_env_of(paths.drop_first().update(i - 1, e), k2)
                == crate::data::spec_env_of(paths.drop_first(), k2));
            assert(crate::data::spec_env_of(paths.update(i, e).drop_first(), k2)
                == crate::data::spec_env_of(paths.drop_first().update(i - 1, e), k2));
        }
    }
}

proof fn lemma_path_push(paths: Seq<(Vec<u8>, Vec<u8>)>, e: (Vec<u8>, Vec<u8>))
    requires
        crate::data::spec_env_of(paths, e.0@) is None,
    ensures
        crate::data::spec_env_of(paths.push(e), e.0@) == Some(e.1@),
        forall|k2: Seq<u8>| k2 != e.0@
            ==> #[trigger] crate::data::spec_env_of(paths.push(e), k2)
                == crate::data::spec_env_of(paths, k2),
    decreases paths.len(),
{
    reveal_with_fuel(crate::data::spec_env_of, 3);
    if paths.len() == 0 {
        assert(paths.push(e)[0] == e);
        assert forall|k2: Seq<u8>| k2 != e.0@
            implies #[trigger] crate::data::spec_env_of(paths.push(e), k2)
                == crate::data::spec_env_of(paths, k2) by {
            assert(paths.push(e).drop_first() =~= Seq::<(Vec<u8>, Vec<u8>)>::empty());
            assert(crate::data::spec_env_of(paths.push(e).drop_first(), k2) is None);
        }
    } else {
        assert(paths.push(e).drop_first() =~= paths.drop_first().push(e));
        lemma_path_push(paths.drop_first(), e);
        assert forall|k2: Seq<u8>| k2 != e.0@
            implies #[trigger] crate::data::spec_env_of(paths.push(e), k2)
                == crate::data::spec_env_of(paths, k2) by {
            assert(paths.push(e)[0] == paths[0]);
            assert(crate::data::spec_env_of(paths.drop_first().push(e), k2)
                == crate::data::spec_env_of(paths.drop_first(), k2));
            assert(crate::data::spec_env_of(paths.push(e).drop_first(), k2)
                == crate::data::spec_env_of(paths.drop_first().push(e), k2));
        }
    }
}

proof fn lemma_path_remove(paths: Seq<(Vec<u8>, Vec<u8>)>, key: Seq<u8>, i: int)
    requires
        0 <= i < paths.len(),
        paths[i].0@ == key,
        forall|j: int| 0 <= j < i ==> (#[trigger] paths[j]).0@ != key,
    ensures
        forall|k2: Seq<u8>| k2 != key
            ==> #[trigger] crate::data::spec_env_of(paths.remove(i), k2)
                == crate::data::spec_env_of(paths, k2),
    decreases paths.len(),
{
    reveal_with_fuel(crate::data::spec_env_of, 3);
    if i == 0 {
        assert(paths.remove(0) =~= paths.drop_first());
        assert forall|k2: Seq<u8>| k2 != key
            implies #[trigger] crate::data::spec_env_of(paths.remove(0), k2)
                == crate::data::spec_env_of(paths, k2) by {
            assert(crate::data::spec_env_of(paths.remove(0), k2)
                == crate::data::spec_env_of(paths.drop_first(), k2));
        }
    } else {
        assert(paths.remove(i).drop_first() =~= paths.drop_first().remove(i - 1));
        lemma_path_remove(paths.drop_first(), key, i - 1);
        assert forall|k2: Seq<u8>| k2 != key
            implies #[trigger] crate::data::spec_env_of(paths.remove(i), k2)
                == crate::data::spec_env_of(paths, k2) by {
            assert(paths.remove(i)[0] == paths[0]);
            assert(crate::data::spec_env_of(paths.drop_first().remove(i - 1), k2)
                == crate::data::spec_env_of(paths.drop_first(), k2));
            assert(crate::data::spec_env_of(paths.remove(i).drop_first(), k2)
                == crate::data::spec_env_of(paths.drop_first().remove(i - 1), k2));
        }
    }
}

impl SessionPaths {
    pub fn new() -> (r: SessionPaths)
        ensures
            r.paths@.len() == 0,
    {
        SessionPaths { paths: Vec::new() }
    }

    /// The session's current path, the root path when none is stored.
    pub fn get(&self, sid: &[u8]) -> (r: Vec<u8>)
        ensures
            r@ == match crate::data::spec_env_of(self.paths@, sid@) {
                Some(p) => p,
                None => "/".spec_bytes(),
            },
    {
        match crate::data::env_lookup(&self.paths, sid) {
            Some(i) => {
                let p = &self.paths[i].1;
                crate::transport::slice_take(p.as_slice(), p.len())
            },
            None => {
                let root = crate::transport::slice_take("/".as_bytes(), "/".as_bytes().len());
                proof {
                    assert(root@ =~= "/".spec_bytes());
                }
                root
            },
        }
    }

    /// Rewrite the session's path (a `navigate` action), leaving every other
    /// session's path alone.
    pub fn set(&mut self, sid: Vec<u8>, path: Vec<u8>)
        ensures
            crate::data::spec_env_of(final(self).paths@, sid@) == Some(path@),
            forall|k2: Seq<u8>| k2 != sid@
                ==> #[trigger] crate::data::spec_env_of(final(self).paths@, k2)
                    == crate::data::spec_env_of(old(self).paths@, k2),
    {
        match find_path_index(&self.paths, sid.as_slice()) {
            Some(i) => {
                let mut entry = self.paths.remove(i);
                entry.1 = path;
                self.paths.insert(i, entry);
                proof {
                    assert(self.paths@ =~= old(self).paths@.update(
                        i as int,
                        self.paths@[i as int],
                    ));
                    lemma_path_update(old(self).paths@, i as int, self.paths@[i as int]);
                }
            },
            None => {
                self.paths.push((sid, path));
                proof {
                    assert(self.paths@.drop_last() =~= old(self).paths@);
                    lemma_path_push(old(self).paths@, self.paths@.last());
                }
            },
        }
    }

    /// Erase the session's path on session death.
    pub fn remove(&mut self, sid: &[u8])
        ensures
            forall|k2: Seq<u8>| k2 != sid@
                ==> #[trigger] crate::data::spec_env_of(final(self).paths@, k2)
                    == crate::data::spec_env_of(old(self).paths@, k2),
        decreases old(self).paths@.len(),
    {
        loop
            invariant
                forall|k2: Seq<u8>| k2 != sid@
                    ==> #[trigger] crate::data::spec_env_of(self.paths@, k2)
                        == crate::data::spec_env_of(old(self).paths@, k2),
            ensures
                forall|k2: Seq<u8>| k2 != sid@
                    ==> #[trigger] crate::data::spec_env_of(self.paths@, k2)
                        == crate::data::spec_env_of(old(self).paths@, k2),
            decreases self.paths@.len(),
        {
            let ghost pre = self.paths@;
            match find_path_index(&self.paths, sid) {
                Some(i) => {
                    self.paths.remove(i);
                    proof {
                        lemma_path_remove(pre, sid@, i as int);
                    }
                },
                None => {
                    break;
                },
            }
        }
    }
}

/// Index of the first stored path entry for this session, if any.
fn find_path_index(paths: &Vec<(Vec<u8>, Vec<u8>)>, sid: &[u8]) -> (r: Option<usize>)
    ensures
        match r {
            Some(i) => i < paths@.len() && paths@[i as int].0@ == sid@
                && forall|j: int| 0 <= j < i ==> (#[trigger] paths@[j]).0@ != sid@,
            None => crate::data::spec_env_of(paths@, sid@) is None,
        },
{
    let mut i: usize = 0;
    let n = paths.len();
    while i < n
        invariant
            n == paths@.len(),
            i <= n,
            forall|j: int| 0 <= j < i ==> (#[trigger] paths@[j]).0@ != sid@,
        decreases n - i,
    {
        if crate::parse::bytes_eq(paths[i].0.as_slice(), sid) {
            return Some(i);
        }
        i = i + 1;
    }
    proof {
        lemma_path_absent(paths@, sid@);
    }
    None
}

proof fn lemma_path_absent(paths: Seq<(Vec<u8>, Vec<u8>)>, key: Seq<u8>)
    requires
        forall|j: int| 0 <= j < paths.len() ==> (#[trigger] paths[j]).0@ != key,
    ensures
        crate::data::spec_env_of(paths, key) is None,
    decreases paths.len(),
{
    if paths.len() > 0 {
        lemma_path_absent(paths.drop_first(), key);
    }
}

} // verus!

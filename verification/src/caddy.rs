//! Edge-router route-table construction: the whole table is rebuilt from
//! durable state and pushed to the router's admin endpoint. Each builder
//! pins the exact configuration bytes, with object keys in the serializer's
//! sorted order.

use vstd::prelude::*;
use vstd::string::StringSliceAdditionalSpecFns;
use crate::dom::spec_str_lit;
use crate::wire::{push_bytes, push_str_lit, push_u64, spec_u64_str};

verus! {

/// The dial address of a node: `ip:port`.
pub open spec fn spec_upstream(ip: Seq<u8>, port: nat) -> Seq<u8> {
    ip + seq![58u8] + spec_u64_str(port)
}

/// Build a node's dial address.
pub fn upstream_of(ip: &[u8], port: u64) -> (r: Vec<u8>)
    ensures
        r@ == spec_upstream(ip@, port as nat),
{
    let mut out: Vec<u8> = Vec::new();
    push_bytes(&mut out, ip);
    out.push(58);
    push_u64(&mut out, port);
    proof {
        assert(out@ =~= spec_upstream(ip@, port as nat));
    }
    out
}

/// One app route: requests for `subdomain.domain` are rewritten under the
/// app's path namespace and proxied to the node.
pub open spec fn spec_app_route(
    subdomain: Seq<u8>,
    domain: Seq<u8>,
    upstream: Seq<u8>,
) -> Seq<u8> {
    "{\"handle\":[{\"handler\":\"rewrite\",\"uri\":".spec_bytes()
        + spec_str_lit("/apps/".spec_bytes() + subdomain + "{http.request.uri}".spec_bytes())
        + "},{\"handler\":\"reverse_proxy\",\"transport\":{\"protocol\":\"http\"},\"upstreams\":[{\"dial\":".spec_bytes()
        + spec_str_lit(upstream)
        + "}]}],\"match\":[{\"host\":[".spec_bytes()
        + spec_str_lit(subdomain + seq![46u8] + domain)
        + "]}],\"terminal\":true}".spec_bytes()
}

/// Build one app route.
pub fn make_route(subdomain: &[u8], domain: &[u8], upstream: &[u8]) -> (r: Vec<u8>)
    ensures
        r@ == spec_app_route(subdomain@, domain@, upstream@),
{
    let mut out: Vec<u8> = Vec::new();
    push_bytes(&mut out, "{\"handle\":[{\"handler\":\"rewrite\",\"uri\":".as_bytes());
    let mut uri: Vec<u8> = Vec::new();
    push_bytes(&mut uri, "/apps/".as_bytes());
    push_bytes(&mut uri, subdomain);
    push_bytes(&mut uri, "{http.request.uri}".as_bytes());
    push_str_lit(&mut out, uri.as_slice());
    push_bytes(
        &mut out,
        "},{\"handler\":\"reverse_proxy\",\"transport\":{\"protocol\":\"http\"},\"upstreams\":[{\"dial\":".as_bytes(),
    );
    push_str_lit(&mut out, upstream);
    push_bytes(&mut out, "}]}],\"match\":[{\"host\":[".as_bytes());
    let mut host: Vec<u8> = Vec::new();
    push_bytes(&mut host, subdomain);
    host.push(46);
    push_bytes(&mut host, domain);
    push_str_lit(&mut out, host.as_slice());
    push_bytes(&mut out, "]}],\"terminal\":true}".as_bytes());
    proof {
        assert(uri@ =~= "/apps/".spec_bytes() + subdomain@ + "{http.request.uri}".spec_bytes());
        assert(host@ =~= subdomain@ + seq![46u8] + domain@);
        assert(out@ =~= spec_app_route(subdomain@, domain@, upstream@));
    }
    out
}

/// A proxy route for a fixed host, targeting the control plane itself.
pub open spec fn spec_host_route(host: Seq<u8>, upstream: Seq<u8>) -> Seq<u8> {
    "{\"handle\":[{\"handler\":\"reverse_proxy\",\"upstreams\":[{\"dial\":".spec_bytes()
        + spec_str_lit(upstream) + "}]}],\"match\":[{\"host\":[".spec_bytes()
        + spec_str_lit(host) + "]}],\"terminal\":true}".spec_bytes()
}

/// Build a fixed proxy route for one host.
pub fn make_host_route(host: &[u8], upstream: &[u8]) -> (r: Vec<u8>)
    ensures
        r@ == spec_host_route(host@, upstream@),
{
    let mut out: Vec<u8> = Vec::new();
    push_bytes(
        &mut out,
        "{\"handle\":[{\"handler\":\"reverse_proxy\",\"upstreams\":[{\"dial\":".as_bytes(),
    );
    push_str_lit(&mut out, upstream);
    push_bytes(&mut out, "}]}],\"match\":[{\"host\":[".as_bytes());
    push_str_lit(&mut out, host);
    push_bytes(&mut out, "]}],\"terminal\":true}".as_bytes());
    proof {
        assert(out@ =~= spec_host_route(host@, upstream@));
    }
    out
}

/// The terminal catch-all route answering 404 for unknown apps.
pub open spec fn spec_fallback_route() -> Seq<u8> {
    "{\"handle\":[{\"body\":\"{\\\"error\\\":\\\"app not found\\\"}\",\"handler\":\"static_response\",\"headers\":{\"Content-Type\":[\"application/json\"]},\"status_code\":\"404\"}]}".spec_bytes()
}

/// Append one route to a comma-joined route list.
pub fn push_route(routes: &mut Vec<u8>, route: &[u8])
    ensures
        old(routes)@.len() == 0 ==> final(routes)@ == route@,
        old(routes)@.len() > 0 ==> final(routes)@ == old(routes)@ + seq![44u8] + route@,
{
    if routes.len() > 0 {
        routes.push(44);
    }
    push_bytes(routes, route);
    proof {
        if old(routes)@.len() > 0 {
            assert(routes@ =~= old(routes)@ + seq![44u8] + route@);
        } else {
            assert(routes@ =~= route@);
        }
    }
}

/// The whole route-table configuration around a comma-joined app-route
/// list: the control-plane API host, the apex host, the app routes, and the
/// terminal 404, inside the server envelope.
pub open spec fn spec_edge_config(
    app_routes: Seq<u8>,
    domain: Seq<u8>,
    control_plane_port: nat,
) -> Seq<u8> {
    "{\"apps\":{\"http\":{\"servers\":{\"magnetic\":{\"listen\":[\":443\",\":80\"],\"routes\":[".spec_bytes()
        + spec_host_route(
        "api.".spec_bytes() + domain,
        "localhost:".spec_bytes() + spec_u64_str(control_plane_port),
    ) + seq![44u8] + spec_host_route(
        domain,
        "localhost:".spec_bytes() + spec_u64_str(control_plane_port),
    ) + (if app_routes.len() > 0 {
        seq![44u8] + app_routes
    } else {
        Seq::<u8>::empty()
    }) + seq![44u8] + spec_fallback_route() + "]}}}}}".spec_bytes()
}

/// Build the full route-table configuration pushed to the router's admin
/// endpoint; failures to push it are non-fatal, the durable state being the
/// truth.
pub fn build_config(app_routes: &[u8], domain: &[u8], control_plane_port: u64) -> (r: Vec<
    u8,
>)
    ensures
        r@ == spec_edge_config(app_routes@, domain@, control_plane_port as nat),
{
    let mut cp: Vec<u8> = Vec::new();
    push_bytes(&mut cp, "localhost:".as_bytes());
    push_u64(&mut cp, control_plane_port);
    let mut api_host: Vec<u8> = Vec::new();
    push_bytes(&mut api_host, "api.".as_bytes());
    push_bytes(&mut api_host, domain);
    let mut out: Vec<u8> = Vec::new();
    push_bytes(
        &mut out,
        "{\"apps\":{\"http\":{\"servers\":{\"magnetic\":{\"listen\":[\":443\",\":80\"],\"routes\":[".as_bytes(),
    );
    let r1 = make_host_route(api_host.as_slice(), cp.as_slice());
    push_bytes(&mut out, r1.as_slice());
    out.push(44);
    let r2 = make_host_route(domain, cp.as_slice());
    push_bytes(&mut out, r2.as_slice());
    if app_routes.len() > 0 {
        out.push(44);
        push_bytes(&mut out, app_routes);
    }
    out.push(44);
    push_bytes(
        &mut out,
        "{\"handle\":[{\"body\":\"{\\\"error\\\":\\\"app not found\\\"}\",\"handler\":\"static_response\",\"headers\":{\"Content-Type\":[\"application/json\"]},\"status_code\":\"404\"}]}".as_bytes(),
    );
    push_bytes(&mut out, "]}}}}}".as_bytes());
    proof {
        assert(cp@ =~= "localhost:".spec_bytes() + spec_u64_str(control_plane_port as nat));
        assert(api_host@ =~= "api.".spec_bytes() + domain@);
        assert(out@ =~= spec_edge_config(app_routes@, domain@, control_plane_port as nat));
    }
    out
}

} // verus!

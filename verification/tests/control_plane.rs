use magnetic::control::{Registry, User, App, Node, AppError, TierLimits, tier_limits,
    plan_deploy, DeployDecision, generate_api_key, generate_id, hash_key, authenticate,
    MAX_BUNDLE_BYTES};
use magnetic::session::SessionStore;
use magnetic::auth::{AuthMiddleware, parse_ttl, cookie_lookup, TokenPlan};
use magnetic::data::{AuthConfig, SessionConfig};
use magnetic::control::{CivoInstance, PollDecision, provision_poll, pick_ubuntu_image,
    tls_subdomain, normalize_email, validate_email};
use magnetic::control::{deploy_url, node_deploy_url};
use magnetic::caddy::{upstream_of, make_route, make_host_route, push_route, build_config};

fn user(id: &str, tier: &str) -> User {
    User {
        id: id.to_string(),
        email: format!("{}@example.test", id),
        tier: tier.to_string(),
        created_at: String::new(),
    }
}

fn test_node(id: &str, max_apps: i64) -> Node {
    Node {
        id: id.to_string(),
        ip: "10.0.0.1".to_string(),
        port: 3003,
        region: "LON1".to_string(),
        app_count: 0,
        max_apps,
        status: "active".to_string(),
        civo_instance_id: None,
        created_at: String::new(),
    }
}

fn app(id: &str, owner: &str, node_id: &str) -> App {
    App {
        id: id.to_string(),
        name: None,
        user_id: owner.to_string(),
        node_id: node_id.to_string(),
        created_at: String::new(),
        updated_at: String::new(),
    }
}

#[test]
fn tier_limits_by_name() {
    let free: TierLimits = tier_limits("free");
    assert_eq!(free.max_apps, 100);
    assert_eq!(tier_limits("pro").max_apps, 20);
    assert_eq!(tier_limits("pro").max_sse_clients, 50);
    assert_eq!(tier_limits("scale").max_apps, 1000);
    assert_eq!(tier_limits("scale").max_requests_month, 1000000);
    assert_eq!(tier_limits("unknown").max_apps, 100);
}

/// Deploy exactly at the tier cap: only a redeploy is accepted; a fresh
/// deploy is forbidden.
#[test]
fn deploy_at_cap_needs_redeploy() {
    let fresh = plan_deploy(100, None, false, "pro", 20, true, false);
    assert!(matches!(fresh, Err(AppError::Forbidden(_))));
    let redeploy = plan_deploy(100, Some(3), true, "pro", 20, true, false);
    assert!(matches!(redeploy, Ok(DeployDecision::Redeploy { app_idx: 3 })));
}

/// An oversize or empty bundle is a bad request, before anything is written.
#[test]
fn oversize_bundle_is_bad_request() {
    let over = plan_deploy(MAX_BUNDLE_BYTES + 1, None, false, "free", 0, true, false);
    assert!(matches!(over, Err(AppError::BadRequest(_))));
    let empty = plan_deploy(0, None, false, "free", 0, true, false);
    assert!(matches!(empty, Err(AppError::BadRequest(_))));
    if let Err(e) = plan_deploy(MAX_BUNDLE_BYTES + 1, None, false, "free", 0, true, false) {
        assert_eq!(e.status_code(), 400);
    }
}

#[test]
fn taken_name_is_forbidden() {
    let r = plan_deploy(10, Some(0), false, "free", 0, true, false);
    assert!(matches!(r, Err(AppError::Forbidden(_))));
}

/// Scheduling and provisioning: with zero nodes a deploy asks for a
/// provisioned node; after the node lands, the app is created on it and the
/// deployed id resolves to the node address.
#[test]
fn schedule_and_provision() {
    let mut reg = Registry::new();
    assert!(reg.select_node().is_none());
    let plan = plan_deploy(10, None, false, "free", 0, false, true);
    assert!(matches!(plan, Ok(DeployDecision::Create { needs_provision: true })));
    // Without a provider the same deploy fails.
    let no_provider = plan_deploy(10, None, false, "free", 0, false, false);
    assert!(matches!(no_provider, Err(AppError::Internal(_))));
    // The provisioned node registers and the deploy lands on it.
    assert!(reg.create_node(test_node("n1", 300)));
    let ni = reg.select_node().expect("the fresh node is selectable");
    assert_eq!(ni, 0);
    assert!(reg.create_app(app("zf9at7gr", "u1", "n1"), ni));
    assert_eq!(reg.nodes[0].app_count, 1);
    let (ai, nj) = reg.resolve_subdomain("zf9at7gr").expect("the id resolves");
    assert_eq!(reg.apps[ai].id, "zf9at7gr");
    assert_eq!(reg.nodes[nj].ip, "10.0.0.1");
    assert_eq!(reg.nodes[nj].port, 3003);
}

#[test]
fn scheduler_prefers_least_loaded_capable_node() {
    let mut reg = Registry::new();
    let mut full = test_node("full", 1);
    full.status = "active".to_string();
    assert!(reg.create_node(full));
    assert!(reg.create_node(test_node("spare", 300)));
    assert!(reg.create_app(app("a1", "u1", "full"), 0));
    // the first node is now at capacity; the spare one wins
    let picked = reg.select_node().unwrap();
    assert_eq!(reg.nodes[picked].id, "spare");
    let mut draining = test_node("drain", 300);
    draining.status = "draining".to_string();
    assert!(reg.create_node(draining));
    assert_eq!(reg.nodes[reg.select_node().unwrap()].id, "spare");
}

#[test]
fn delete_app_decrements_with_clamp() {
    let mut reg = Registry::new();
    assert!(reg.create_node(test_node("n1", 300)));
    assert!(reg.create_app(app("a1", "u1", "n1"), 0));
    assert_eq!(reg.nodes[0].app_count, 1);
    reg.delete_app(0);
    assert_eq!(reg.nodes[0].app_count, 0);
    assert!(reg.apps.is_empty());
}

#[test]
fn resolve_by_vanity_name() {
    let mut reg = Registry::new();
    assert!(reg.create_node(test_node("n1", 300)));
    let mut a = app("id123", "u1", "n1");
    a.name = Some("myapp".to_string());
    assert!(reg.create_app(a, 0));
    let (ai, _) = reg.resolve_subdomain("myapp").unwrap();
    assert_eq!(reg.apps[ai].id, "id123");
    assert!(reg.resolve_subdomain("unknown").is_none());
}

#[test]
fn api_keys_have_the_typed_prefix() {
    let key = generate_api_key();
    assert!(key.starts_with("mk_"));
    assert_eq!(key.len(), 46);
    let key2 = generate_api_key();
    assert_ne!(key, key2);
    let id = generate_id(8);
    assert_eq!(id.len(), 8);
    assert!(id.chars().all(|c| c.is_ascii_lowercase() || c.is_ascii_digit()));
}

/// The key digest is the hex SHA-256 of the key text.
#[test]
fn key_digest_is_sha256_hex() {
    assert_eq!(
        hash_key("abc"),
        "ba7816bf8f01cfea414140de5dae2223b00361a396177a9cb410ff61f20015ad"
    );
    assert_eq!(hash_key("abc").len(), 64);
}

#[test]
fn bearer_tokens_authenticate() {
    let mut reg = Registry::new();
    reg.create_user(user("u1", "free"));
    let key = generate_api_key();
    reg.store_api_key(hash_key(&key), "u1".to_string());
    let header = format!("Bearer {}", key);
    let u = match authenticate(&reg, Some(&header)) {
        Ok(u) => u,
        Err(_) => panic!("the key authenticates"),
    };
    assert_eq!(reg.users[u].id, "u1");
    assert!(authenticate(&reg, None).is_err());
    let bad = "Bearer wrong_prefix".to_string();
    assert!(authenticate(&reg, Some(&bad)).is_err());
    let unknown = "Bearer mk_0000000000000000000000000000000000000000000".to_string();
    assert!(authenticate(&reg, Some(&unknown)).is_err());
}

/// A successful login followed by a request with the returned cookie yields
/// a session holding exactly the token the endpoint returned.
#[test]
fn login_round_trip() {
    let cfg = AuthConfig {
        provider: "oidc".to_string(),
        issuer: Some("https://issuer.test".to_string()),
        client_id: None,
        client_secret: None,
        scopes: vec![],
        redirect_uri: None,
        session: Some(SessionConfig { cookie: Some("sid".to_string()), ttl: Some("24h".to_string()) }),
        login_url: None,
        verify_url: None,
        token_field: None,
        token_expires_in: None,
    };
    let mut mw = AuthMiddleware::new(cfg);
    assert_eq!(mw.sessions.ttl_secs, 86400);
    let cookie = mw.create_session(
        b"session-1".to_vec(),
        b"tok-xyz".to_vec(),
        Some(b"refresh-1".to_vec()),
        3600,
        1_000_000,
    );
    let cookie_s = String::from_utf8(cookie).unwrap();
    assert!(cookie_s.starts_with("sid=session-1; Path=/; HttpOnly; SameSite=Lax"));
    // The browser sends the cookie back.
    let headers = vec![("cookie".to_string(), "theme=dark; sid=session-1".to_string())];
    let session = mw.get_session(&headers, 2_000_000).expect("the session is live");
    assert_eq!(session.access_token, b"tok-xyz".to_vec());
    // While the token is live the middleware injects it.
    match mw.access_token_plan(&Some(session), 2_000_000) {
        TokenPlan::Use(t) => assert_eq!(t, b"tok-xyz".to_vec()),
        _ => panic!("a live token is used directly"),
    }
    // Once expired, a code-flow provider refreshes.
    let expired = mw.get_session(&headers, 2_000_000).unwrap();
    match mw.access_token_plan(&Some(expired), 1_000_000 + 3600 * 1000) {
        TokenPlan::Refresh(rt) => assert_eq!(rt, b"refresh-1".to_vec()),
        _ => panic!("an expired token with a refresh token refreshes"),
    }
}

#[test]
fn session_store_expires_by_ttl() {
    let mut store = SessionStore::new(10);
    store.create(b"s1".to_vec(), b"t1".to_vec(), None, 3600, 0);
    assert_eq!(store.count(), 1);
    assert!(store.get(b"s1", 5_000).is_some());
    assert!(store.get(b"s1", 11_000).is_none());
    assert_eq!(store.count(), 0);
}

#[test]
fn session_store_prune_and_update() {
    let mut store = SessionStore::new(10);
    store.create(b"a".to_vec(), b"t1".to_vec(), None, 3600, 0);
    store.create(b"b".to_vec(), b"t2".to_vec(), None, 3600, 20_000);
    store.prune(15_000);
    assert_eq!(store.count(), 1);
    store.update_tokens(b"b", b"t2b".to_vec(), None, 60, 21_000);
    let got = store.get(b"b", 22_000).unwrap();
    assert_eq!(got.access_token, b"t2b".to_vec());
    store.remove(b"b");
    assert_eq!(store.count(), 0);
}

#[test]
fn ttl_strings_parse() {
    assert_eq!(parse_ttl("24h"), 86400);
    assert_eq!(parse_ttl("7d"), 604800);
    assert_eq!(parse_ttl("30m"), 1800);
    assert_eq!(parse_ttl("3600"), 3600);
    assert_eq!(parse_ttl("junk"), 86400);
    assert_eq!(parse_ttl("h"), 86400);
}

#[test]
fn cookie_values_are_found() {
    assert_eq!(
        cookie_lookup(b"a=1; sid=xyz; b=2", b"sid"),
        Some(b"xyz".to_vec())
    );
    assert_eq!(cookie_lookup(b"a=1", b"sid"), None);
    assert_eq!(cookie_lookup(b"sid=first; sid=second", b"sid"), Some(b"first".to_vec()));
}

#[test]
fn provisioning_polls_until_active() {
    let mut inst = CivoInstance {
        id: "i1".to_string(),
        hostname: "node-a".to_string(),
        public_ip: String::new(),
        status: "BUILDING".to_string(),
        region: "LON1".to_string(),
    };
    assert!(matches!(provision_poll(&inst, 10, 300), PollDecision::Wait));
    inst.status = "ACTIVE".to_string();
    assert!(matches!(provision_poll(&inst, 10, 300), PollDecision::Wait));
    inst.public_ip = "10.1.2.3".to_string();
    assert!(matches!(provision_poll(&inst, 10, 300), PollDecision::Ready));
    assert!(matches!(provision_poll(&inst, 301, 300), PollDecision::GiveUp));

    let images = vec![
        ("img1".to_string(), "debian-12".to_string()),
        ("img2".to_string(), "Ubuntu 24".to_string()),
        ("img3".to_string(), "ubuntu-jammy".to_string()),
    ];
    assert_eq!(pick_ubuntu_image(&images), Some(2));
    let no_jammy = vec![
        ("img1".to_string(), "debian-12".to_string()),
        ("img2".to_string(), "Ubuntu 24".to_string()),
    ];
    assert_eq!(pick_ubuntu_image(&no_jammy), Some(1));

    assert_eq!(tls_subdomain(b"demo.example.dev", b"example.dev"), Some(b"demo".to_vec()));
    assert_eq!(tls_subdomain(b"example.dev", b"example.dev"), None);
    assert_eq!(tls_subdomain(b"demo.other.dev", b"example.dev"), None);

    let e = normalize_email("  Alice@Example.COM ");
    assert_eq!(e, b"alice@example.com".to_vec());
    assert!(validate_email(&e));
    assert!(!validate_email(b"nobody"));
    assert!(!validate_email(b""));
}

#[test]
fn deploy_urls_build() {
    assert_eq!(
        deploy_url(b"abc123", b"example.dev"),
        b"https://abc123.example.dev".to_vec()
    );
    assert_eq!(
        node_deploy_url(b"10.0.0.7", 8080, b"abc123"),
        b"http://10.0.0.7:8080/api/apps/abc123/deploy".to_vec()
    );
}

#[test]
fn edge_routes_build() {
    let up = upstream_of(b"10.0.0.7", 8080);
    assert_eq!(up, b"10.0.0.7:8080".to_vec());
    let route = make_route(b"demo", b"example.dev", &up);
    let mut want = String::new();
    want.push_str("{\"handle\":[{\"handler\":\"rewrite\",\"uri\":\"/apps/demo{http.request.uri}\"},");
    want.push_str("{\"handler\":\"reverse_proxy\",\"transport\":{\"protocol\":\"http\"},");
    want.push_str("\"upstreams\":[{\"dial\":\"10.0.0.7:8080\"}]}],");
    want.push_str("\"match\":[{\"host\":[\"demo.example.dev\"]}],\"terminal\":true}");
    assert_eq!(String::from_utf8(route.clone()).unwrap(), want);
    let api = make_host_route(b"api.example.dev", b"localhost:3000");
    assert!(String::from_utf8(api).unwrap().contains("\"host\":[\"api.example.dev\"]"));

    let mut routes: Vec<u8> = Vec::new();
    push_route(&mut routes, &route);
    let second = make_route(b"two", b"example.dev", &up);
    push_route(&mut routes, &second);
    assert_eq!(routes.iter().filter(|&&b| b == b'{').count(),
        route.iter().filter(|&&b| b == b'{').count() * 2);

    let cfg = String::from_utf8(build_config(&routes, b"example.dev", 3000)).unwrap();
    assert!(cfg.starts_with("{\"apps\":{\"http\":{\"servers\":{\"magnetic\":"));
    assert!(cfg.contains("\"listen\":[\":443\",\":80\"]"));
    assert!(cfg.contains("\"host\":[\"api.example.dev\"]"));
    assert!(cfg.contains("demo.example.dev"));
    assert!(cfg.contains("app not found"));
    assert!(cfg.ends_with("]}}}}}"));

    let empty = String::from_utf8(build_config(b"", b"example.dev", 3000)).unwrap();
    assert!(empty.contains("static_response"));
}

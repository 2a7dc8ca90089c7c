use magnetic::{AppState, Buf, Message, Transport};
use magnetic::parse::{parse_action, reduce, Action};
use magnetic::dom::{render_snapshot, render_html, process};
use magnetic::platform::{route_platform_request, PlatformRoute, status_text,
    urlencoding_decode, guess_content_type, validate_deploy_name, subdomain_of_host,
    should_park, extract_session_cookie, MagneticContext, MiddlewareStack, Middleware,
    RateLimitState, cors_middleware, logger_middleware, rate_limit_middleware,
    apply_rate_limit};
use magnetic::platform::{SessionPaths, navigate_path, v8_result_to_json, V8Result};

fn s(v: Vec<u8>) -> String {
    String::from_utf8(v).unwrap()
}

#[test]
fn actions_parse() {
    assert!(matches!(parse_action(b"{\"action\":\"increment\"}"), Action::Increment));
    assert!(matches!(parse_action(b"{\"action\":\"decrement\"}"), Action::Decrement));
    assert!(matches!(parse_action(b"{\"action\":\"unknown_thing\"}"), Action::Unknown));
    assert!(matches!(parse_action(b"garbage"), Action::Unknown));
    match parse_action(b"{\"action\":\"send_message\",\"payload\":{\"text\":\"hi \\\"you\\\"\"}}") {
        Action::SendMessage { text } => assert_eq!(text, b"hi \"you\"".to_vec()),
        _ => panic!("a send_message action parses"),
    }
}

#[test]
fn reducer_counts_and_caps() {
    let mut state = AppState::new();
    reduce(&mut state, Action::Increment);
    reduce(&mut state, Action::Increment);
    reduce(&mut state, Action::Decrement);
    assert_eq!(state.count, 1);
    reduce(&mut state, Action::Decrement);
    reduce(&mut state, Action::Decrement);
    assert_eq!(state.count, 0, "the counter clamps at zero");
    reduce(&mut state, Action::SendMessage { text: b"hello".to_vec() });
    assert_eq!(state.msg_count(), 1);
    assert_eq!(state.msg_at(0).author_bytes(), &b"user".to_vec());
    assert_eq!(state.msg_at(0).text_bytes(), &b"hello".to_vec());
}

#[test]
fn message_log_evicts_oldest() {
    let mut state = AppState::new();
    for i in 0..505u32 {
        let text = format!("m{}", i).into_bytes();
        state.push_message(b"user", &text);
    }
    assert_eq!(state.msg_count(), 500);
    assert_eq!(state.msg_at(0).text_bytes(), &b"m5".to_vec());
    assert_eq!(state.msg_at(499).text_bytes(), &b"m504".to_vec());
}

#[test]
fn snapshot_renders_count_and_messages() {
    let mut state = AppState::new();
    state.count = 7;
    state.push_message(b"user", b"hi");
    let mut buf = Buf::new();
    render_snapshot(&state, &mut buf);
    let json = s(buf.as_bytes());
    assert!(json.starts_with("{\"root\":{\"tag\":\"div\""));
    assert!(json.contains("\"text\":\"Count: 7\""));
    assert!(json.contains("\"text\":\"user: hi\""));
    assert!(json.contains("\"events\":{\"click\":\"increment\"}"));
    assert!(json.ends_with("}"));
}

#[test]
fn html_renders_escaped() {
    let mut state = AppState::new();
    state.count = -3;
    state.push_message(b"<bot>", b"a&b");
    let mut buf = Buf::new();
    render_html(&state, &mut buf);
    let html = s(buf.as_bytes());
    assert!(html.contains("Count: -3"));
    assert!(html.contains("&lt;bot&gt;: a&amp;b"));
    assert!(html.contains("data-a_click=\"decrement\""));
}

#[test]
fn process_runs_parse_reduce_render() {
    let mut state = AppState::new();
    let mut buf = Buf::new();
    process(&mut state, b"{\"action\":\"increment\"}", &mut buf);
    assert_eq!(state.count, 1);
    assert!(s(buf.as_bytes()).contains("Count: 1"));
}

#[test]
fn message_set_replaces() {
    let mut m = Message::empty();
    m.set(b"alice", b"hey");
    assert_eq!(m.author_bytes(), &b"alice".to_vec());
    let m2 = Message::new(b"bob", b"yo");
    assert_eq!(m2.text_bytes(), &b"yo".to_vec());
}

#[test]
fn buf_truncates_at_capacity() {
    let mut buf = Buf::new();
    let big = vec![b'x'; 5000];
    buf.extend(&big);
    assert_eq!(buf.len, 4096);
    buf.push(b'y');
    assert_eq!(buf.len, 4096);
    buf.clear();
    assert_eq!(buf.len, 0);
}

#[test]
fn platform_routes() {
    assert!(matches!(
        route_platform_request(b"POST", b"/api/apps/demo/deploy"),
        PlatformRoute::Deploy { name } if name == b"demo".to_vec()
    ));
    assert!(matches!(
        route_platform_request(b"GET", b"/api/apps/demo/status"),
        PlatformRoute::Status { name } if name == b"demo".to_vec()
    ));
    assert!(matches!(route_platform_request(b"GET", b"/api/apps"), PlatformRoute::ListApps));
    assert!(matches!(route_platform_request(b"GET", b"/"), PlatformRoute::Homepage));
    match route_platform_request(b"GET", b"/apps/demo/sse") {
        PlatformRoute::App { name, rest } => {
            assert_eq!(name, b"demo".to_vec());
            assert_eq!(rest, b"/sse".to_vec());
        },
        _ => panic!("an app path routes into the app"),
    }
    assert!(matches!(route_platform_request(b"PUT", b"/nope"), PlatformRoute::NotFound));
}

#[test]
fn deploy_names_validate() {
    assert!(validate_deploy_name(b"demo"));
    assert!(!validate_deploy_name(b""));
    assert!(!validate_deploy_name(b"a/b"));
    assert!(!validate_deploy_name(b"a..b"));
}

#[test]
fn subdomains_resolve_from_hosts() {
    assert_eq!(subdomain_of_host(b"zf9at7gr.example.dev"), Some(b"zf9at7gr".to_vec()));
    assert_eq!(subdomain_of_host(b"api.example.dev"), None);
    assert_eq!(subdomain_of_host(b"www.example.dev"), None);
    assert_eq!(subdomain_of_host(b"example.dev"), None);
}

#[test]
fn parking_needs_idle_and_no_subscribers() {
    assert!(should_park(300, 0, 300));
    assert!(!should_park(299, 0, 300));
    assert!(!should_park(3000, 1, 300));
}

#[test]
fn misc_helpers() {
    assert_eq!(status_text(404), "Not Found");
    assert_eq!(status_text(429), "Too Many Requests");
    assert_eq!(guess_content_type("app.wasm"), "application/wasm");
    assert_eq!(guess_content_type("x.bin"), "application/octet-stream");
    assert_eq!(urlencoding_decode(b"a%20b+c"), b"a b c".to_vec());
    assert_eq!(urlencoding_decode(b"%2Fpath"), b"/path".to_vec());
}

#[test]
fn session_cookie_is_extracted() {
    let headers = vec![("cookie".to_string(), "magnetic_sid= abc123 ; x=y".to_string())];
    assert_eq!(extract_session_cookie(&headers), Some(b"abc123".to_vec()));
    let empty = vec![("cookie".to_string(), "magnetic_sid=".to_string())];
    assert_eq!(extract_session_cookie(&empty), None);
    assert_eq!(extract_session_cookie(&vec![]), None);
}

#[test]
fn middleware_chain_cors_and_rate_limit() {
    let mut stack = MiddlewareStack::new();
    stack.add(logger_middleware());
    stack.add(cors_middleware("*"));
    stack.add(rate_limit_middleware(60_000, 2));
    let headers: Vec<(String, String)> = vec![];
    let mut ctx = MagneticContext::from_request("OPTIONS", b"/x?a=1&b=2", headers);
    assert_eq!(ctx.path, b"/x".to_vec());
    assert_eq!(ctx.query, vec![(b"a".to_vec(), b"1".to_vec()), (b"b".to_vec(), b"2".to_vec())]);
    let mut rl = RateLimitState { hits: vec![] };
    stack.run(&mut ctx, &mut rl, b"1.2.3.4", 1000);
    assert_eq!(ctx.status, 204, "a preflight short-circuits");
    assert_eq!(ctx.response_headers.len(), 3);

    // Over the window limit the third request is refused.
    let mut c2 = MagneticContext::from_request("GET", b"/y", vec![]);
    apply_rate_limit(&mut c2, &mut rl, b"9.9.9.9", 1000, 60_000, 2);
    apply_rate_limit(&mut c2, &mut rl, b"9.9.9.9", 1001, 60_000, 2);
    assert_eq!(c2.status, 200);
    apply_rate_limit(&mut c2, &mut rl, b"9.9.9.9", 1002, 60_000, 2);
    assert_eq!(c2.status, 429);
    // A fresh window resets the count.
    let mut c3 = MagneticContext::from_request("GET", b"/y", vec![]);
    apply_rate_limit(&mut c3, &mut rl, b"9.9.9.9", 100_000, 60_000, 2);
    assert_eq!(c3.status, 200);
}

#[test]
fn transport_and_reducer_cooperate() {
    // The server renders a snapshot; the client transport deduplicates it.
    let mut state = AppState::new();
    let mut buf = Buf::new();
    process(&mut state, b"{\"action\":\"increment\"}", &mut buf);
    let snap = buf.as_bytes();
    let mut t = Transport::new();
    t.set_input(&snap);
    assert_eq!(t.store(snap.len() as u32), 1);
    t.set_input(&snap);
    assert_eq!(t.store(snap.len() as u32), 0);
}

#[test]
fn message_set_truncates_to_caps() {
    let mut m = Message::empty();
    let author = vec![b'a'; 40];
    let text = vec![b't'; 300];
    m.set(&author, &text);
    assert_eq!(m.author_bytes().len(), 32);
    assert_eq!(m.text_bytes().len(), 256);
    assert_eq!(m.author_bytes(), &vec![b'a'; 32]);
    assert_eq!(m.text_bytes(), &vec![b't'; 256]);
}

#[test]
fn session_paths_track_navigation() {
    let mut p = SessionPaths::new();
    assert_eq!(p.get(b"s1"), b"/".to_vec());
    let target = navigate_path(b"{\"path\":\"/settings\"}");
    assert_eq!(target, b"/settings".to_vec());
    p.set(b"s1".to_vec(), target);
    assert_eq!(p.get(b"s1"), b"/settings".to_vec());
    assert_eq!(p.get(b"s2"), b"/".to_vec());
    p.set(b"s1".to_vec(), b"/home".to_vec());
    assert_eq!(p.get(b"s1"), b"/home".to_vec());
    p.remove(b"s1");
    assert_eq!(p.get(b"s1"), b"/".to_vec());
    // A payload without a path falls back to the root.
    assert_eq!(navigate_path(b"{\"other\":1}"), b"/".to_vec());
}

#[test]
fn error_boundary_json_is_exact() {
    let json = v8_result_to_json(V8Result::Error(b"boom".to_vec()), None);
    let text = s(json);
    assert!(text.starts_with("{\"tag\":\"div\",\"key\":\"error-boundary\""));
    assert!(text.contains("\"class\":\"magnetic-error\""));
    assert!(text.contains("{\"tag\":\"h2\",\"text\":\"Something went wrong\"}"));
    assert!(text.contains("{\"tag\":\"p\",\"text\":\"boom\"}"));
    let passthrough = v8_result_to_json(V8Result::Value(b"[1,2]".to_vec()), None);
    assert_eq!(passthrough, b"[1,2]".to_vec());
    let with_action = v8_result_to_json(V8Result::Error(b"x".to_vec()), Some("save"));
    assert!(s(with_action).contains("Action: save"));
}

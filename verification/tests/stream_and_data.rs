use magnetic::stream::{SseParser, StreamBuffer, Coalescer, clamp_retry, next_backoff,
    delta_message, should_emit_delta, parse_u64};
use magnetic::data::{DataContext, DataLayerConfig, DataSourceConfig, ActionMappingConfig,
    FetchOutcome, apply_fetch_outcomes, clear_loading, parse_duration, page_matches,
    interpolate_url};
use magnetic::platform::SessionRegistry;
use magnetic::platform::Subscriber;
use magnetic::stream::buffered_array_json;
use magnetic::data::fetch_backoff_ms;

fn src(key: &str, page: &str, source_type: &str, buffer: usize, target: Option<&str>)
    -> DataSourceConfig {
    DataSourceConfig {
        key: key.to_string(),
        url: format!("http://upstream/{}", key),
        source_type: source_type.to_string(),
        refresh: None,
        page: page.to_string(),
        auth: false,
        timeout: None,
        retries: 0,
        buffer,
        target: target.map(|t| t.to_string()),
    }
}

fn ctx_with(sources: Vec<DataSourceConfig>) -> DataContext {
    DataContext::new(DataLayerConfig { auth: None, data: sources, actions: vec![] })
}

/// The stream buffer keeps the last `min(k, N)` events in arrival order.
#[test]
fn stream_buffer_window() {
    let mut b = StreamBuffer::new(3);
    for i in 0..5u8 {
        b.push(vec![i]);
    }
    assert_eq!(b.len(), 3);
    assert_eq!(b.items, vec![vec![2u8], vec![3u8], vec![4u8]]);
    let mut small = StreamBuffer::new(3);
    small.push(vec![9]);
    assert_eq!(small.len(), 1);
}

/// `retry:` hints are clamped to the 500 ms .. 30 s range.
#[test]
fn retry_hint_is_clamped() {
    let mut p = SseParser::new();
    assert!(p.feed_line(b"retry: 50").is_none());
    assert_eq!(p.retry_ms, 500);
    assert!(p.feed_line(b"retry: 90000").is_none());
    assert_eq!(p.retry_ms, 30000);
    assert!(p.feed_line(b"retry: 1500").is_none());
    assert_eq!(p.retry_ms, 1500);
    assert!(p.feed_line(b"retry: bogus").is_none());
    assert_eq!(p.retry_ms, 1500);
    assert_eq!(clamp_retry(499), 500);
    assert_eq!(clamp_retry(30001), 30000);
    assert_eq!(next_backoff(16000), 30000);
    assert_eq!(next_backoff(1000), 2000);
}

/// Frame parsing: data lines accumulate, blank lines dispatch, `lag` frames
/// are dropped, comments are ignored, and the last event id is tracked.
#[test]
fn sse_frames_dispatch() {
    let mut p = SseParser::new();
    assert!(p.feed_line(b": keepalive").is_none());
    assert!(p.feed_line(b"id: 42").is_none());
    assert_eq!(p.last_event_id, b"42".to_vec());
    assert!(p.feed_line(b"data: {\"n\":1}").is_none());
    let ev = p.feed_line(b"").expect("an event is dispatched on the blank line");
    assert_eq!(ev.data, b"{\"n\":1}".to_vec());
    assert!(p.feed_line(b"event: lag").is_none());
    assert!(p.feed_line(b"data: behind").is_none());
    assert!(p.feed_line(b"").is_none());
    assert!(p.feed_line(b"data: a").is_none());
    assert!(p.feed_line(b"data: b").is_none());
    let ev2 = p.feed_line(b"").unwrap();
    assert_eq!(ev2.data, b"a\nb".to_vec());
}

/// The coalescer schedules one render per debounce window and renders with
/// the latest context version.
#[test]
fn coalescer_debounces() {
    let mut c = Coalescer::new(150);
    assert!(c.note_change(1000));
    assert!(!c.note_change(1010));
    assert!(!c.note_change(1020));
    assert!(c.flush(1100).is_none());
    let v = c.flush(1150).expect("due after the window");
    assert_eq!(v, 3);
    assert!(c.flush(1200).is_none());
    assert!(c.note_change(1200));
    assert_eq!(c.flush(1350), Some(4));
}

/// The delta plane: three buffered events produce three delta messages, and
/// the merged page view holds all three in arrival order.
#[test]
fn delta_plane() {
    let mut ctx = ctx_with(vec![src("events", "*", "sse", 20, Some("feed"))]);
    let mut buf = StreamBuffer::new(20);
    let mut deltas: Vec<Vec<u8>> = Vec::new();
    for n in 1..=3u64 {
        let event = format!("{{\"n\":{}}}", n).into_bytes();
        assert!(should_emit_delta(true, true, 20));
        deltas.push(delta_message(b"events", &event, 20, b"feed"));
        buf.push(event);
        let mut arr = b"[".to_vec();
        for (i, it) in buf.items.iter().enumerate() {
            if i > 0 {
                arr.push(b',');
            }
            arr.extend_from_slice(it);
        }
        arr.push(b']');
        ctx.set_value("events".to_string(), arr);
    }
    assert_eq!(deltas.len(), 3);
    assert_eq!(
        String::from_utf8(deltas[0].clone()).unwrap(),
        "{\"delta\":true,\"k\":\"events\",\"max\":20,\"t\":\"feed\",\"v\":{\"n\":1}}"
    );
    let json = String::from_utf8(ctx.data_json_for_page("/feed")).unwrap();
    assert_eq!(json, "{\"events\":[{\"n\":1},{\"n\":2},{\"n\":3}]}");
}

/// SSR timeouts: a timed-out source renders as null with a loading marker,
/// and the marker clears when the deferred fetch lands.
#[test]
fn ssr_timeout_marks_loading() {
    let mut ctx = ctx_with(vec![src("slow", "*", "fetch", 0, None), src("fast", "*", "fetch", 0, None)]);
    let pending = apply_fetch_outcomes(&mut ctx, vec![
        ("fast".to_string(), FetchOutcome::Value(b"{\"ok\":1}".to_vec())),
        ("slow".to_string(), FetchOutcome::TimedOut),
    ]);
    assert_eq!(pending, vec!["slow".to_string()]);
    let json = String::from_utf8(ctx.data_json_for_page("/")).unwrap();
    assert_eq!(json, "{\"slow\":null,\"fast\":{\"ok\":1}}");
    // The deferred fetch completes: the value lands and the marker clears.
    ctx.set_value("slow".to_string(), b"{\"late\":true}".to_vec());
    clear_loading(&mut ctx);
    let json2 = String::from_utf8(ctx.data_json_for_page("/")).unwrap();
    assert_eq!(json2, "{\"slow\":{\"late\":true},\"fast\":{\"ok\":1}}");
}

#[test]
fn fetch_failure_is_stored_per_source() {
    let mut ctx = ctx_with(vec![src("api", "*", "fetch", 0, None)]);
    let pending = apply_fetch_outcomes(&mut ctx, vec![
        ("api".to_string(), FetchOutcome::Failure(b"connection refused".to_vec())),
    ]);
    assert!(pending.is_empty());
    let json = String::from_utf8(ctx.data_json_for_page("/")).unwrap();
    assert_eq!(json, "{\"api\":{\"__error\":\"connection refused\"}}");
}

/// Page scope resolution: wildcard, exact, and segment-aligned prefixes.
#[test]
fn page_scopes() {
    assert!(page_matches("*", "/anything"));
    assert!(page_matches("/settings", "/settings"));
    assert!(page_matches("/settings", "/settings/billing"));
    assert!(page_matches("/settings/", "/settings/billing"));
    assert!(!page_matches("/settings", "/settingsx"));
    assert!(!page_matches("/billing", "/settings"));
    let ctx = ctx_with(vec![
        src("a", "*", "fetch", 0, None),
        src("b", "/admin", "fetch", 0, None),
    ]);
    assert_eq!(ctx.sources_for_page("/"), vec![0]);
    assert_eq!(ctx.sources_for_page("/admin/users"), vec![0, 1]);
}

#[test]
fn url_interpolation() {
    let payload = b"{\"payload\":1,\"id\":\"42\",\"q\":\"a b\"}";
    let env: Vec<(Vec<u8>, Vec<u8>)> = vec![(b"HOST".to_vec(), b"api.example".to_vec())];
    let url = interpolate_url(
        b"https://${env.HOST}/items/${payload.id}?q=${payload.q}",
        payload,
        &env,
    );
    assert_eq!(String::from_utf8(url).unwrap(), "https://api.example/items/42?q=a b");
    let missing = interpolate_url(b"/x/${payload.nope}", payload, &env);
    assert_eq!(String::from_utf8(missing).unwrap(), "/x/");
}

#[test]
fn durations_parse() {
    assert_eq!(parse_duration("100ms"), 100);
    assert_eq!(parse_duration("5s"), 5000);
    assert_eq!(parse_duration("1m"), 60000);
    assert_eq!(parse_duration("oops"), 0);
    assert_eq!(parse_u64(b"123"), Some(123));
    assert_eq!(parse_u64(b"12a"), None);
    assert_eq!(parse_u64(b""), None);
}

#[test]
fn find_action_matches_by_name() {
    let mut cfg = DataLayerConfig { auth: None, data: vec![], actions: vec![] };
    cfg.actions.push(ActionMappingConfig {
        name: "add_item".to_string(),
        method: "POST".to_string(),
        url: "http://backend/items".to_string(),
        target: Some("items".to_string()),
        debounce: None,
    });
    let ctx = DataContext::new(cfg);
    assert_eq!(ctx.find_action("add_item"), Some(0));
    assert_eq!(ctx.find_action("missing"), None);
}

/// Session fan-out: an action's snapshot reaches only the acting session's
/// subscribers; a stream-driven broadcast reaches every session.
#[test]
fn session_fanout() {
    let mut reg = SessionRegistry::new();
    reg.subs.push((b"s1".to_vec(), vec![Subscriber { outbox: vec![] }]));
    reg.subs.push((b"s2".to_vec(), vec![Subscriber { outbox: vec![] }]));
    reg.broadcast_to_session(b"s1", b"snap-a");
    assert_eq!(reg.subs[0].1[0].outbox, vec![b"snap-a".to_vec()]);
    assert!(reg.subs[1].1[0].outbox.is_empty());
    reg.broadcast_all(b"snap-b");
    assert_eq!(reg.subs[0].1[0].outbox, vec![b"snap-a".to_vec(), b"snap-b".to_vec()]);
    assert_eq!(reg.subs[1].1[0].outbox, vec![b"snap-b".to_vec()]);
}

#[test]
fn buffered_array_join() {
    let mut buf = StreamBuffer::new(3);
    assert_eq!(buffered_array_json(&buf), b"[]".to_vec());
    buf.push(b"1".to_vec());
    buf.push(b"{\"a\":2}".to_vec());
    assert_eq!(buffered_array_json(&buf), b"[1,{\"a\":2}]".to_vec());
    buf.push(b"3".to_vec());
    buf.push(b"4".to_vec());
    assert_eq!(buffered_array_json(&buf), b"[{\"a\":2},3,4]".to_vec());
}

#[test]
fn fetch_backoff_schedule() {
    assert_eq!(fetch_backoff_ms(1), 200);
    assert_eq!(fetch_backoff_ms(2), 400);
    assert_eq!(fetch_backoff_ms(3), 800);
    assert_eq!(fetch_backoff_ms(4), 1600);
    assert_eq!(fetch_backoff_ms(5), 3200);
    assert_eq!(fetch_backoff_ms(9), 3200);
}

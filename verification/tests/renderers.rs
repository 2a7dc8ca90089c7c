use magnetic::domtree::DomNode;
use magnetic::render_html::{render_page, PageOptions};
use magnetic::domtree::render_to_html;
use magnetic::render_kotlin::render_to_kotlin;
use magnetic::render_swift::render_to_swift;

fn s(v: Vec<u8>) -> String {
    String::from_utf8(v).unwrap()
}

fn node(
    tag: &str,
    key: Option<&str>,
    attrs: Option<Vec<(&str, &str)>>,
    events: Option<Vec<(&str, &str)>>,
    text: Option<&str>,
    children: Option<Vec<DomNode>>,
) -> DomNode {
    DomNode {
        tag: tag.to_string(),
        key: key.map(|k| k.to_string()),
        attrs: attrs.map(|v| {
            v.into_iter().map(|(a, b)| (a.to_string(), b.to_string())).collect()
        }),
        events: events.map(|v| {
            v.into_iter().map(|(a, b)| (a.to_string(), b.to_string())).collect()
        }),
        text: text.map(|t| t.to_string()),
        children,
    }
}

#[test]
fn test_simple_render() {
    let root = node(
        "div",
        Some("app"),
        Some(vec![("class", "container")]),
        None,
        None,
        Some(vec![
            DomNode::text("h1", "Hello"),
            node("button", Some("btn"), None, Some(vec![("click", "increment")]), Some("+"), None),
        ]),
    );
    let html = s(render_to_html(&root));
    assert!(html.contains("data-key=\"app\""));
    assert!(html.contains("class=\"container\""));
    assert!(html.contains("data-a_click=\"increment\""));
    assert!(html.contains("<h1>Hello</h1>"));
}

#[test]
fn test_void_element() {
    let root = node("input", None, Some(vec![("type", "text")]), None, None, None);
    let html = s(render_to_html(&root));
    assert!(html.contains("<input"));
    assert!(!html.contains("</input>"));
}

#[test]
fn test_button_render() {
    let root = node(
        "button",
        Some("btn"),
        None,
        Some(vec![("click", "increment")]),
        Some("+"),
        None,
    );
    let kt = s(render_to_kotlin(&root, "TestScreen"));
    assert!(kt.contains("@Composable"));
    assert!(kt.contains("onAction(\"increment\")"));
    assert!(kt.contains("Text(\"+\")"));
}

#[test]
fn lib_test_button_render() {
    let root = node(
        "button",
        Some("btn"),
        None,
        Some(vec![("click", "decrement")]),
        Some("-"),
        None,
    );
    let swift = s(render_to_swift(&root, "TestView"));
    assert!(swift.contains("struct TestView: View"));
    assert!(swift.contains("onAction(\"decrement\")"));
    assert!(swift.contains("Button(\"-\")"));
}

#[test]
fn test_heading_render() {
    let root = DomNode::text("h1", "Hello World");
    let swift = s(render_to_swift(&root, "HeadingView"));
    assert!(swift.contains("Text(\"Hello World\")"));
    assert!(swift.contains(".font(.largeTitle)"));
}

#[test]
fn html_escapes_text_and_attrs() {
    let root = node(
        "p",
        None,
        Some(vec![("title", "a\"b<c")]),
        None,
        Some("x < y & z"),
        None,
    );
    let html = s(render_to_html(&root));
    assert!(html.contains("title=\"a&quot;b&lt;c\""));
    assert!(html.contains("x &lt; y &amp; z</p>"));
}

#[test]
fn head_node_is_kept_out_of_the_body() {
    let root = node(
        "div",
        None,
        None,
        None,
        None,
        Some(vec![
            node(
                "magnetic:head",
                None,
                None,
                None,
                None,
                Some(vec![DomNode::text("title", "My Page")]),
            ),
            DomNode::text("p", "body text"),
        ]),
    );
    let html = s(render_to_html(&root));
    assert!(!html.contains("My Page"));
    assert!(html.contains("body text"));

    let page = s(render_page(&PageOptions {
        root,
        scripts: vec!["/magnetic.js".to_string()],
        styles: vec![],
        inline_css: None,
        sse_url: Some("/sse".to_string()),
        mount_selector: Some("#app".to_string()),
        wasm_url: Some("/transport.wasm".to_string()),
        title: Some("Fallback".to_string()),
        description: None,
        inline_scripts: vec![],
    }));
    assert!(page.contains("<title>My Page</title>"));
    assert!(!page.contains("Fallback"));
    assert!(page.contains("<div id=\"app\">"));
    assert!(page.contains("Magnetic.connect(\"/sse\", \"#app\");"));
    assert!(page.contains("Magnetic.loadWasm(\"/transport.wasm\");"));
    assert!(page.contains("<script src=\"/magnetic.js\"></script>"));
}

#[test]
fn kotlin_list_items_are_keyed() {
    let root = node(
        "ul",
        None,
        None,
        None,
        None,
        Some(vec![
            node("li", Some("first"), None, None, Some("one"), None),
            node("li", None, None, None, Some("two"), None),
        ]),
    );
    let kt = s(render_to_kotlin(&root, "ListScreen"));
    assert!(kt.contains("LazyColumn {"));
    assert!(kt.contains("item(key = \"first\")"));
    assert!(kt.contains("item(key = \"1\")"));
}

#[test]
fn swift_row_layout_follows_class() {
    let row = node("div", None, Some(vec![("class", "task-card")]), None, None, None);
    let swift = s(render_to_swift(&row, "RowView"));
    assert!(swift.contains("HStack(spacing: 8)"));
    let col = node("div", None, None, None, None, None);
    let swift2 = s(render_to_swift(&col, "ColView"));
    assert!(swift2.contains("VStack(alignment: .leading, spacing: 8)"));
}

#[test]
fn error_fallback_snapshot_serializes() {
    let fallback = magnetic::platform::error_fallback("boom", Some("inc"));
    let json = s(magnetic::domtree::render_json_node(&fallback));
    assert!(json.contains("\"key\":\"error-boundary\""));
    assert!(json.contains("\"text\":\"boom\""));
    assert!(json.contains("Action: inc"));
}

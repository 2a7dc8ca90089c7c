//! Full HTML page assembly around a rendered snapshot: head metadata
//! extraction from the reserved head node, title handling, stylesheet and
//! script injection, and the client bootstrap.

use vstd::prelude::*;
use vstd::string::StringSliceAdditionalSpecFns;
use crate::data::string_bytes;
use crate::domtree::{DomNode, spec_node_html, spec_nodes_html, spec_esc_html, spec_esc_attr,
    escape_html, escape_attr, write_node};
use crate::wire::push_bytes;

verus! {

/// Options for rendering a full HTML page.
pub struct PageOptions {
    pub root: DomNode,
    pub scripts: Vec<String>,
    pub styles: Vec<String>,
    pub inline_css: Option<String>,
    pub sse_url: Option<String>,
    pub mount_selector: Option<String>,
    pub wasm_url: Option<String>,
    pub title: Option<String>,
    pub description: Option<String>,
    pub inline_scripts: Vec<String>,
}

/// The rendered HTML of every reserved head node's children in the tree.
pub open spec fn spec_head_html(n: DomNode) -> Seq<u8>
    decreases n, 0int, 0int,
{
    if string_bytes(n.tag) == "magnetic:head".spec_bytes() {
        match n.children {
            Some(c) => spec_nodes_html(c@, 0),
            None => Seq::<u8>::empty(),
        }
    } else {
        match n.children {
            Some(c) => spec_heads_html(c@, 0),
            None => Seq::<u8>::empty(),
        }
    }
}

pub open spec fn spec_heads_html(s: Seq<DomNode>, i: int) -> Seq<u8>
    decreases s, s.len() - i, 0int,
{
    if i < 0 || i >= s.len() {
        Seq::<u8>::empty()
    } else {
        spec_head_html(s[i]) + spec_heads_html(s, i + 1)
    }
}

/// Collect the rendered HTML of head-node children.
pub fn extract_head_html(node: &DomNode, out: &mut Vec<u8>)
    ensures
        final(out)@ == old(out)@ + spec_head_html(*node),
    decreases *node,
{
    if node.is_head() {
        match &node.children {
            Some(c) => {
                let mut i: usize = 0;
                let n = c.len();
                let ghost base = out@;
                #[verifier::loop_isolation(false)]
                while i < n
                    invariant
                        n == c@.len(),
                        i <= n,
                        out@ + spec_nodes_html(c@, i as int)
                            == base + spec_nodes_html(c@, 0),
                    decreases n - i,
                {
                    let ghost pre = out@;
                    write_node(&c[i], out);
                    proof {
                        assert(out@ + spec_nodes_html(c@, i + 1)
                            =~= pre + spec_nodes_html(c@, i as int));
                    }
                    i = i + 1;
                }
                proof {
                    assert(out@ =~= base + spec_nodes_html(c@, 0));
                }
            },
            None => {
                proof {
                    assert(out@ =~= old(out)@ + spec_head_html(*node));
                }
            },
        }
        return;
    }
    match &node.children {
        Some(c) => {
            let mut i: usize = 0;
            let n = c.len();
            let ghost base = out@;
            #[verifier::loop_isolation(false)]
            while i < n
                invariant
                    n == c@.len(),
                    i <= n,
                    out@ + spec_heads_html(c@, i as int) == base + spec_heads_html(c@, 0),
                decreases n - i,
            {
                let ghost pre = out@;
                extract_head_html(&c[i], out);
                proof {
                    assert(out@ + spec_heads_html(c@, i + 1)
                        =~= pre + spec_heads_html(c@, i as int));
                }
                i = i + 1;
            }
            proof {
                assert(out@ =~= base + spec_heads_html(c@, 0));
            }
        },
        None => {
            proof {
                assert(out@ =~= old(out)@ + spec_head_html(*node));
            }
        },
    }
}

/// The text of the first `title` child of a reserved head node, if any.
pub open spec fn spec_title_of(n: DomNode) -> Option<Seq<u8>>
    decreases n, 0int, 0int,
{
    if string_bytes(n.tag) == "magnetic:head".spec_bytes() {
        match n.children {
            Some(c) => spec_title_child(c@, 0),
            None => None,
        }
    } else {
        match n.children {
            Some(c) => spec_title_scan(c@, 0),
            None => None,
        }
    }
}

/// Inside a head node: the text of the first `title` child; scanning stops
/// at the first `title` even when it carries no text.
pub open spec fn spec_title_child(s: Seq<DomNode>, i: int) -> Option<Seq<u8>>
    decreases s, s.len() - i, 0int,
{
    if i < 0 || i >= s.len() {
        None
    } else if string_bytes(s[i].tag) == "title".spec_bytes() {
        match s[i].text {
            Some(t) => Some(string_bytes(t)),
            None => None,
        }
    } else {
        spec_title_child(s, i + 1)
    }
}

/// Outside head nodes: the first extracted title among the children.
pub open spec fn spec_title_scan(s: Seq<DomNode>, i: int) -> Option<Seq<u8>>
    decreases s, s.len() - i, 1int,
{
    if i < 0 || i >= s.len() {
        None
    } else {
        match spec_title_of(s[i]) {
            Some(t) => Some(t),
            None => spec_title_scan(s, i + 1),
        }
    }
}

/// Find the page title declared inside a reserved head node.
pub fn extract_title(node: &DomNode) -> (r: Option<Vec<u8>>)
    ensures
        match r {
            Some(t) => spec_title_of(*node) == Some(t@),
            None => spec_title_of(*node) is None,
        },
    decreases *node,
{
    if node.is_head() {
        match &node.children {
            Some(c) => {
                let mut i: usize = 0;
                let n = c.len();
                #[verifier::loop_isolation(false)]
                while i < n
                    invariant
                        n == c@.len(),
                        i <= n,
                        spec_title_child(c@, 0) == spec_title_child(c@, i as int),
                    decreases n - i,
                {
                    if crate::parse::bytes_eq(c[i].tag.as_str().as_bytes(), "title".as_bytes()) {
                        match &c[i].text {
                            Some(t) => {
                                let tb = t.as_str().as_bytes();
                                return Some(crate::transport::slice_take(tb, tb.len()));
                            },
                            None => {
                                return None;
                            },
                        }
                    }
                    i = i + 1;
                }
                None
            },
            None => None,
        }
    } else {
        match &node.children {
            Some(c) => {
                let mut i: usize = 0;
                let n = c.len();
                #[verifier::loop_isolation(false)]
                while i < n
                    invariant
                        n == c@.len(),
                        i <= n,
                        spec_title_scan(c@, 0) == spec_title_scan(c@, i as int),
                    decreases n - i,
                {
                    match extract_title(&c[i]) {
                        Some(t) => {
                            return Some(t);
                        },
                        None => {},
                    }
                    i = i + 1;
                }
                None
            },
            None => None,
        }
    }
}

/// `html` with every `<title>…</title>` span removed, rescanning from the
/// start after each removal.
pub open spec fn spec_remove_title(s: Seq<u8>) -> Seq<u8>
    decreases s.len(),
{
    match crate::parse::spec_find(s, "<title>".spec_bytes()) {
        None => s,
        Some(st) => {
            let after = s.skip(st);
            match crate::parse::spec_find(after, "</title>".spec_bytes()) {
                None => s,
                Some(e) => if "</title>".spec_bytes().len() >= 1 && 0 <= e
                    && e + "</title>".spec_bytes().len() <= after.len() && 0 <= st <= s.len()
                    {
                    spec_remove_title(
                        s.take(st) + after.skip(e + "</title>".spec_bytes().len()),
                    )
                } else {
                    s
                },
            }
        },
    }
}

/// Strip `<title>` spans from rendered head HTML so the page title is not
/// duplicated.
pub fn remove_title_from_head_html(html: &[u8]) -> (r: Vec<u8>)
    ensures
        r@ == spec_remove_title(html@),
    decreases html@.len(),
{
    let open_tag: &[u8] = "<title>".as_bytes();
    let close_tag: &[u8] = "</title>".as_bytes();
    if close_tag.len() == 0 {
        return crate::transport::slice_take(html, html.len());
    }
    let st = match crate::parse::find_subslice(html, open_tag) {
        Some(p) => p,
        None => {
            return crate::transport::slice_take(html, html.len());
        },
    };
    let after: &[u8] = &html[st..html.len()];
    proof {
        assert(after@ =~= html@.skip(st as int));
    }
    let e = match crate::parse::find_subslice(after, close_tag) {
        Some(p) => p,
        None => {
            return crate::transport::slice_take(html, html.len());
        },
    };
    let mut shrunk = crate::transport::slice_take(&html[0..st], st);
    proof {
        assert(html@.subrange(0, st as int).take(st as int) =~= html@.take(st as int));
    }
    let rest: &[u8] = &after[e + close_tag.len()..after.len()];
    proof {
        assert(rest@ =~= after@.skip(e + "</title>".spec_bytes().len()));
    }
    push_bytes(&mut shrunk, rest);
    if shrunk.len() >= html.len() {
        return crate::transport::slice_take(html, html.len());
    }
    let r = remove_title_from_head_html(shrunk.as_slice());
    proof {
        assert(r@ == spec_remove_title(html@));
    }
    r
}

/// Number of leading `#` bytes of a mount selector.
pub open spec fn spec_hash_run(s: Seq<u8>) -> int
    decreases s.len(),
{
    if s.len() > 0 && s[0] == 35 {
        1 + spec_hash_run(s.drop_first())
    } else {
        0
    }
}

proof fn lemma_hash_run(s: Seq<u8>, i: int)
    requires
        0 <= i <= s.len(),
        forall|j: int| 0 <= j < i ==> #[trigger] s[j] == 35,
        i == s.len() || s[i] != 35,
    ensures
        spec_hash_run(s) == i,
    decreases i,
{
    if i > 0 {
        lemma_hash_run(s.drop_first(), i - 1);
    }
}

/// The configured mount selector, `#app` by default.
pub open spec fn spec_mount_sel(o: PageOptions) -> Seq<u8> {
    match o.mount_selector {
        Some(m) => string_bytes(m),
        None => "#app".spec_bytes(),
    }
}

/// The mount element id: the selector without its leading `#` marks.
pub open spec fn spec_mount_id(o: PageOptions) -> Seq<u8> {
    spec_mount_sel(o).skip(spec_hash_run(spec_mount_sel(o)))
}

/// Linked stylesheets, in order.
pub open spec fn spec_links(v: Seq<String>, i: int) -> Seq<u8>
    decreases v.len() - i,
{
    if i < 0 || i >= v.len() {
        Seq::<u8>::empty()
    } else {
        "<link rel=\"stylesheet\" href=\"".spec_bytes() + spec_esc_attr(string_bytes(v[i]))
            + "\" />".spec_bytes() + spec_links(v, i + 1)
    }
}

/// External script tags, in order.
pub open spec fn spec_scripts(v: Seq<String>, i: int) -> Seq<u8>
    decreases v.len() - i,
{
    if i < 0 || i >= v.len() {
        Seq::<u8>::empty()
    } else {
        "<script src=\"".spec_bytes() + spec_esc_attr(string_bytes(v[i]))
            + "\"></script>\n".spec_bytes() + spec_scripts(v, i + 1)
    }
}

/// Inline script blocks, in order.
pub open spec fn spec_inline_scripts(v: Seq<String>, i: int) -> Seq<u8>
    decreases v.len() - i,
{
    if i < 0 || i >= v.len() {
        Seq::<u8>::empty()
    } else {
        "<script>\n".spec_bytes() + string_bytes(v[i]) + "\n</script>\n".spec_bytes()
            + spec_inline_scripts(v, i + 1)
    }
}

/// The page preamble: doctype, meta tags, title and description.
pub open spec fn spec_page_meta(o: PageOptions) -> Seq<u8> {
    "<!DOCTYPE html>\n<html lang=\"en\">\n<head>\n".spec_bytes()
        + "<meta charset=\"utf-8\" />\n".spec_bytes()
        + "<meta name=\"viewport\" content=\"width=device-width, initial-scale=1\" />\n".spec_bytes()
        + (match spec_title_of(o.root) {
            Some(t) => "<title>".spec_bytes() + spec_esc_html(t) + "</title>\n".spec_bytes(),
            None => match o.title {
                Some(t) => "<title>".spec_bytes() + spec_esc_html(string_bytes(t))
                    + "</title>\n".spec_bytes(),
                None => Seq::<u8>::empty(),
            },
        })
        + (match o.description {
            Some(d) => "<meta name=\"description\" content=\"".spec_bytes()
                + spec_esc_attr(string_bytes(d)) + "\" />\n".spec_bytes(),
            None => Seq::<u8>::empty(),
        })
}

/// The rest of the head: extracted head markup, inline CSS, stylesheets.
pub open spec fn spec_page_extra(o: PageOptions) -> Seq<u8> {
    spec_remove_title(spec_head_html(o.root))
        + (match o.inline_css {
            Some(c) => "<style>".spec_bytes() + string_bytes(c) + "</style>".spec_bytes(),
            None => Seq::<u8>::empty(),
        })
        + spec_links(o.styles@, 0)
}

/// The mount element carrying the server-rendered snapshot.
pub open spec fn spec_page_mount(o: PageOptions) -> Seq<u8> {
    "\n</head>\n<body>\n".spec_bytes()
        + "<div id=\"".spec_bytes() + spec_mount_id(o) + "\">".spec_bytes()
        + spec_node_html(o.root) + "</div>\n".spec_bytes()
}

/// The client bootstrap: connect to the event channel and load the
/// transport.
pub open spec fn spec_page_boot(o: PageOptions) -> Seq<u8> {
    (match o.sse_url {
        Some(u) => "<script>\nMagnetic.connect(\"".spec_bytes() + string_bytes(u)
            + "\", \"".spec_bytes() + spec_mount_sel(o) + "\");\n".spec_bytes()
            + (match o.wasm_url {
                Some(w) => "Magnetic.loadWasm(\"".spec_bytes() + string_bytes(w)
                    + "\");\n".spec_bytes(),
                None => Seq::<u8>::empty(),
            }) + "</script>\n".spec_bytes(),
        None => Seq::<u8>::empty(),
    }) + "</body>\n</html>".spec_bytes()
}

/// The whole page.
pub open spec fn spec_render_page(o: PageOptions) -> Seq<u8> {
    spec_page_meta(o) + spec_page_extra(o) + spec_page_mount(o)
        + spec_scripts(o.scripts@, 0) + spec_inline_scripts(o.inline_scripts@, 0)
        + spec_page_boot(o)
}

/// Render a full HTML page around the snapshot.
pub fn render_page(opts: &PageOptions) -> (r: Vec<u8>)
    ensures
        r@ == spec_render_page(*opts),
{
    let mut out: Vec<u8> = Vec::new();
    write_page_meta(opts, &mut out);
    write_page_extra(opts, &mut out);
    write_page_mount(opts, &mut out);
    write_page_scripts(opts, &mut out);
    write_page_boot(opts, &mut out);
    proof {
        assert(out@ =~= spec_render_page(*opts));
    }
    out
}

#[verifier::rlimit(100)]
fn write_page_meta(opts: &PageOptions, out: &mut Vec<u8>)
    ensures
        final(out)@ == old(out)@ + spec_page_meta(*opts),
{
    push_bytes(out, "<!DOCTYPE html>\n<html lang=\"en\">\n<head>\n".as_bytes());
    push_bytes(out, "<meta charset=\"utf-8\" />\n".as_bytes());
    push_bytes(
        out,
        "<meta name=\"viewport\" content=\"width=device-width, initial-scale=1\" />\n".as_bytes(),
    );
    match extract_title(&opts.root) {
        Some(t) => {
            push_bytes(out, "<title>".as_bytes());
            let e = escape_html(t.as_slice());
            push_bytes(out, e.as_slice());
            push_bytes(out, "</title>\n".as_bytes());
        },
        None => {
            match &opts.title {
                Some(t) => {
                    push_bytes(out, "<title>".as_bytes());
                    let e = escape_html(t.as_str().as_bytes());
                    push_bytes(out, e.as_slice());
                    push_bytes(out, "</title>\n".as_bytes());
                },
                None => {},
            }
        },
    }
    match &opts.description {
        Some(d) => {
            push_bytes(out, "<meta name=\"description\" content=\"".as_bytes());
            let e = escape_attr(d.as_str().as_bytes());
            push_bytes(out, e.as_slice());
            push_bytes(out, "\" />\n".as_bytes());
        },
        None => {},
    }
    proof {
        assert(out@ =~= old(out)@ + spec_page_meta(*opts));
    }
}

fn write_page_extra(opts: &PageOptions, out: &mut Vec<u8>)
    ensures
        final(out)@ == old(out)@ + spec_page_extra(*opts),
{
    let mut head_extra: Vec<u8> = Vec::new();
    extract_head_html(&opts.root, &mut head_extra);
    proof {
        assert(head_extra@ =~= spec_head_html(opts.root));
    }
    let head_no_title = remove_title_from_head_html(head_extra.as_slice());
    push_bytes(out, head_no_title.as_slice());
    match &opts.inline_css {
        Some(c) => {
            push_bytes(out, "<style>".as_bytes());
            push_bytes(out, c.as_str().as_bytes());
            push_bytes(out, "</style>".as_bytes());
        },
        None => {},
    }
    let mut i: usize = 0;
    let n = opts.styles.len();
    let ghost base = out@;
    #[verifier::loop_isolation(false)]
    while i < n
        invariant
            n == opts.styles@.len(),
            i <= n,
            out@ + spec_links(opts.styles@, i as int) == base + spec_links(opts.styles@, 0),
        decreases n - i,
    {
        let ghost pre = out@;
        push_bytes(out, "<link rel=\"stylesheet\" href=\"".as_bytes());
        let e = escape_attr(opts.styles[i].as_str().as_bytes());
        push_bytes(out, e.as_slice());
        push_bytes(out, "\" />".as_bytes());
        proof {
            assert(out@ =~= pre + ("<link rel=\"stylesheet\" href=\"".spec_bytes()
                + spec_esc_attr(string_bytes(opts.styles@[i as int]))
                + "\" />".spec_bytes()));
            assert(out@ + spec_links(opts.styles@, i + 1)
                =~= pre + spec_links(opts.styles@, i as int));
        }
        i = i + 1;
    }
    proof {
        assert(out@ =~= base + spec_links(opts.styles@, 0));
        assert(out@ =~= old(out)@ + spec_page_extra(*opts));
    }
}

fn write_page_mount(opts: &PageOptions, out: &mut Vec<u8>)
    ensures
        final(out)@ == old(out)@ + spec_page_mount(*opts),
{
    push_bytes(out, "\n</head>\n<body>\n".as_bytes());
    push_bytes(out, "<div id=\"".as_bytes());
    let sel: &str = match &opts.mount_selector {
        Some(m) => m.as_str(),
        None => "#app",
    };
    let sb = sel.as_bytes();
    let mut h: usize = 0;
    while h < sb.len() && sb[h] == 35
        invariant
            h <= sb@.len(),
            forall|j: int| 0 <= j < h ==> #[trigger] sb@[j] == 35,
        decreases sb@.len() - h,
    {
        h = h + 1;
    }
    proof {
        lemma_hash_run(sb@, h as int);
    }
    let idpart: &[u8] = &sb[h..sb.len()];
    proof {
        assert(idpart@ =~= spec_mount_id(*opts));
    }
    push_bytes(out, idpart);
    push_bytes(out, "\">".as_bytes());
    write_node(&opts.root, out);
    push_bytes(out, "</div>\n".as_bytes());
    proof {
        assert(out@ =~= old(out)@ + spec_page_mount(*opts));
    }
}

fn write_page_scripts(opts: &PageOptions, out: &mut Vec<u8>)
    ensures
        final(out)@ == old(out)@ + spec_scripts(opts.scripts@, 0)
            + spec_inline_scripts(opts.inline_scripts@, 0),
{
    let mut i: usize = 0;
    let n = opts.scripts.len();
    let ghost base = out@;
    #[verifier::loop_isolation(false)]
    while i < n
        invariant
            n == opts.scripts@.len(),
            i <= n,
            out@ + spec_scripts(opts.scripts@, i as int)
                == base + spec_scripts(opts.scripts@, 0),
        decreases n - i,
    {
        let ghost pre = out@;
        push_bytes(out, "<script src=\"".as_bytes());
        let e = escape_attr(opts.scripts[i].as_str().as_bytes());
        push_bytes(out, e.as_slice());
        push_bytes(out, "\"></script>\n".as_bytes());
        proof {
            assert(out@ =~= pre + ("<script src=\"".spec_bytes()
                + spec_esc_attr(string_bytes(opts.scripts@[i as int]))
                + "\"></script>\n".spec_bytes()));
            assert(out@ + spec_scripts(opts.scripts@, i + 1)
                =~= pre + spec_scripts(opts.scripts@, i as int));
        }
        i = i + 1;
    }
    proof {
        assert(out@ =~= base + spec_scripts(opts.scripts@, 0));
    }
    let mut k: usize = 0;
    let m = opts.inline_scripts.len();
    let ghost base2 = out@;
    #[verifier::loop_isolation(false)]
    while k < m
        invariant
            m == opts.inline_scripts@.len(),
            k <= m,
            out@ + spec_inline_scripts(opts.inline_scripts@, k as int)
                == base2 + spec_inline_scripts(opts.inline_scripts@, 0),
        decreases m - k,
    {
        let ghost pre = out@;
        push_bytes(out, "<script>\n".as_bytes());
        push_bytes(out, opts.inline_scripts[k].as_str().as_bytes());
        push_bytes(out, "\n</script>\n".as_bytes());
        proof {
            assert(out@ =~= pre + ("<script>\n".spec_bytes()
                + string_bytes(opts.inline_scripts@[k as int])
                + "\n</script>\n".spec_bytes()));
            assert(out@ + spec_inline_scripts(opts.inline_scripts@, k + 1)
                =~= pre + spec_inline_scripts(opts.inline_scripts@, k as int));
        }
        k = k + 1;
    }
    proof {
        assert(out@ =~= base2 + spec_inline_scripts(opts.inline_scripts@, 0));
        assert(out@ =~= old(out)@ + spec_scripts(opts.scripts@, 0)
            + spec_inline_scripts(opts.inline_scripts@, 0));
    }
}

fn write_page_boot(opts: &PageOptions, out: &mut Vec<u8>)
    ensures
        final(out)@ == old(out)@ + spec_page_boot(*opts),
{
    let sel: &str = match &opts.mount_selector {
        Some(m) => m.as_str(),
        None => "#app",
    };
    match &opts.sse_url {
        Some(u) => {
            push_bytes(out, "<script>\nMagnetic.connect(\"".as_bytes());
            push_bytes(out, u.as_str().as_bytes());
            push_bytes(out, "\", \"".as_bytes());
            push_bytes(out, sel.as_bytes());
            push_bytes(out, "\");\n".as_bytes());
            match &opts.wasm_url {
                Some(w) => {
                    push_bytes(out, "Magnetic.loadWasm(\"".as_bytes());
                    push_bytes(out, w.as_str().as_bytes());
                    push_bytes(out, "\");\n".as_bytes());
                },
                None => {},
            }
            push_bytes(out, "</script>\n".as_bytes());
        },
        None => {},
    }
    push_bytes(out, "</body>\n</html>".as_bytes());
    proof {
        assert(out@ =~= old(out)@ + spec_page_boot(*opts));
    }
}

} // verus!

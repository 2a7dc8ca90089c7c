//! The canonical UI node tree of the snapshot wire form: a tag, a stable
//! identity key, attribute and event maps, text, and ordered children; plus
//! the HTML renderer that produces hydration-ready markup with `data-key`
//! and `data-a_*` attributes.

use vstd::prelude::*;
use vstd::string::StringSliceAdditionalSpecFns;
use crate::data::string_bytes;
use crate::wire::push_bytes;

verus! {

/// A single node in the UI tree. Attributes and events are ordered
/// association lists with unique keys.
pub struct DomNode {
    pub tag: String,
    pub key: Option<String>,
    pub attrs: Option<Vec<(String, String)>>,
    pub events: Option<Vec<(String, String)>>,
    pub text: Option<String>,
    pub children: Option<Vec<DomNode>>,
}

/// A complete snapshot wrapping the root node.
pub struct Snapshot {
    pub root: DomNode,
}

/// The value under a key in an optional association list, if any.
pub open spec fn spec_assoc(m: Option<Vec<(String, String)>>, key: Seq<u8>) -> Option<
    Seq<u8>,
> {
    match m {
        Some(v) => spec_assoc_list(v@, key),
        None => None,
    }
}

pub open spec fn spec_assoc_list(v: Seq<(String, String)>, key: Seq<u8>) -> Option<Seq<u8>>
    decreases v.len(),
{
    if v.len() <= 0 {
        None
    } else if string_bytes(v[0].0) == key {
        Some(string_bytes(v[0].1))
    } else {
        spec_assoc_list(v.drop_first(), key)
    }
}

pub fn assoc_lookup<'a>(v: &'a Vec<(String, String)>, key: &str) -> (r: Option<&'a String>)
    ensures
        match r {
            Some(s) => spec_assoc_list(v@, key.spec_bytes()) == Some(string_bytes(*s)),
            None => spec_assoc_list(v@, key.spec_bytes()) is None,
        },
{
    let mut i: usize = 0;
    let n = v.len();
    while i < n
        invariant
            n == v@.len(),
            i <= n,
            forall|j: int| 0 <= j < i
                ==> string_bytes((#[trigger] v@[j]).0) != key.spec_bytes(),
        decreases n - i,
    {
        if crate::parse::bytes_eq(v[i].0.as_str().as_bytes(), key.as_bytes()) {
            proof {
                lemma_assoc_prefix(v@, key.spec_bytes(), i as int);
                assert(v@.skip(i as int)[0] == v@[i as int]);
            }
            return Some(&v[i].1);
        }
        i = i + 1;
    }
    proof {
        lemma_assoc_prefix(v@, key.spec_bytes(), i as int);
    }
    None
}

pub proof fn lemma_assoc_prefix(v: Seq<(String, String)>, key: Seq<u8>, i: int)
    requires
        0 <= i <= v.len(),
        forall|j: int| 0 <= j < i ==> string_bytes((#[trigger] v[j]).0) != key,
    ensures
        spec_assoc_list(v, key) == spec_assoc_list(v.skip(i), key),
    decreases i,
{
    if i > 0 {
        lemma_assoc_prefix(v.drop_first(), key, i - 1);
        assert(v.drop_first().skip(i - 1) =~= v.skip(i));
    } else {
        assert(v.skip(0) =~= v);
    }
}

impl DomNode {
    /// A leaf node carrying only text.
    pub fn text(tag: &str, content: &str) -> (r: DomNode)
        ensures
            r.tag@ == tag@,
            r.key is None,
            r.attrs is None,
            r.events is None,
            r.text matches Some(t) && t@ == content@,
            r.children is None,
    {
        DomNode {
            tag: crate::data::string_from(tag),
            key: None,
            attrs: None,
            events: None,
            text: Some(crate::data::string_from(content)),
            children: None,
        }
    }

    /// The `class` attribute, if present.
    pub fn class(&self) -> (r: Option<&str>)
        ensures
            match r {
                Some(s) => spec_assoc(self.attrs, "class".spec_bytes())
                    == Some(s.spec_bytes()),
                None => spec_assoc(self.attrs, "class".spec_bytes()) is None,
            },
    {
        match &self.attrs {
            Some(a) => match assoc_lookup(a, "class") {
                Some(s) => {
                    let r: &str = s.as_str();
                    proof {
                        assert(r.spec_bytes() =~= string_bytes(*s));
                    }
                    Some(r)
                },
                None => None,
            },
            None => None,
        }
    }

    /// Whether this node is the reserved page-head carrier.
    pub fn is_head(&self) -> (r: bool)
        ensures
            r == (string_bytes(self.tag) == "magnetic:head".spec_bytes()),
    {
        crate::parse::bytes_eq(self.tag.as_str().as_bytes(), "magnetic:head".as_bytes())
    }

    /// The node's children; empty when it has none.
    pub fn children_iter(&self) -> (r: &[DomNode])
        ensures
            r@ == spec_children(*self),
    {
        match &self.children {
            Some(c) => c.as_slice(),
            None => &[],
        }
    }

    /// The action bound to a DOM event name, if any.
    pub fn event(&self, name: &str) -> (r: Option<&str>)
        ensures
            match r {
                Some(s) => spec_assoc(self.events, name.spec_bytes())
                    == Some(s.spec_bytes()),
                None => spec_assoc(self.events, name.spec_bytes()) is None,
            },
    {
        match &self.events {
            Some(e) => match assoc_lookup(e, name) {
                Some(s) => {
                    let r: &str = s.as_str();
                    proof {
                        assert(r.spec_bytes() =~= string_bytes(*s));
                    }
                    Some(r)
                },
                None => None,
            },
            None => None,
        }
    }
}

/// The children of a node, the empty sequence when it has none.
pub open spec fn spec_children(n: DomNode) -> Seq<DomNode> {
    match n.children {
        Some(c) => c@,
        None => Seq::<DomNode>::empty(),
    }
}

/// HTML text escaping: `&`, `<` and `>` become entities.
pub open spec fn spec_esc_html(s: Seq<u8>) -> Seq<u8>
    decreases s.len(),
{
    if s.len() <= 0 {
        Seq::<u8>::empty()
    } else {
        let head: Seq<u8> = if s[0] == 38 {
            "&amp;".spec_bytes()
        } else if s[0] == 60 {
            "&lt;".spec_bytes()
        } else if s[0] == 62 {
            "&gt;".spec_bytes()
        } else {
            seq![s[0]]
        };
        head + spec_esc_html(s.drop_first())
    }
}

/// HTML attribute escaping: `&`, `"`, `<` and `>` become entities.
pub open spec fn spec_esc_attr(s: Seq<u8>) -> Seq<u8>
    decreases s.len(),
{
    if s.len() <= 0 {
        Seq::<u8>::empty()
    } else {
        let head: Seq<u8> = if s[0] == 38 {
            "&amp;".spec_bytes()
        } else if s[0] == 34 {
            "&quot;".spec_bytes()
        } else if s[0] == 60 {
            "&lt;".spec_bytes()
        } else if s[0] == 62 {
            "&gt;".spec_bytes()
        } else {
            seq![s[0]]
        };
        head + spec_esc_attr(s.drop_first())
    }
}

/// Escape text for HTML content.
pub fn escape_html(s: &[u8]) -> (r: Vec<u8>)
    ensures
        r@ == spec_esc_html(s@),
{
    let mut out: Vec<u8> = Vec::new();
    let ghost mut acc: Seq<u8> = Seq::empty();
    let mut i: usize = 0;
    proof {
        assert(s@.skip(0) =~= s@);
        assert(acc + spec_esc_html(s@) =~= spec_esc_html(s@));
        assert(out@ =~= acc);
    }
    #[verifier::loop_isolation(false)]
    while i < s.len()
        invariant
            i <= s@.len(),
            spec_esc_html(s@) == acc + spec_esc_html(s@.skip(i as int)),
            out@ == acc,
        decreases s@.len() - i,
    {
        let ghost rest = s@.skip(i as int);
        let b = s[i];
        proof {
            assert(rest[0] == b);
            assert(rest.drop_first() =~= s@.skip(i + 1));
        }
        let ghost head: Seq<u8> = if b == 38 {
            "&amp;".spec_bytes()
        } else if b == 60 {
            "&lt;".spec_bytes()
        } else if b == 62 {
            "&gt;".spec_bytes()
        } else {
            seq![b]
        };
        proof {
            assert(spec_esc_html(rest) == head + spec_esc_html(rest.drop_first()));
            assert(acc + spec_esc_html(rest) =~= (acc + head) + spec_esc_html(
                rest.drop_first(),
            ));
        }
        if b == 38 {
            push_bytes(&mut out, "&amp;".as_bytes());
        } else if b == 60 {
            push_bytes(&mut out, "&lt;".as_bytes());
        } else if b == 62 {
            push_bytes(&mut out, "&gt;".as_bytes());
        } else {
            out.push(b);
        }
        proof {
            acc = acc + head;
            assert(out@ =~= acc);
        }
        i = i + 1;
    }
    proof {
        assert(s@.skip(s@.len() as int) =~= Seq::<u8>::empty());
        assert(acc + spec_esc_html(s@.skip(i as int)) =~= acc);
    }
    out
}

/// Escape text for an HTML attribute value.
pub fn escape_attr(s: &[u8]) -> (r: Vec<u8>)
    ensures
        r@ == spec_esc_attr(s@),
{
    let mut out: Vec<u8> = Vec::new();
    let ghost mut acc: Seq<u8> = Seq::empty();
    let mut i: usize = 0;
    proof {
        assert(s@.skip(0) =~= s@);
        assert(acc + spec_esc_attr(s@) =~= spec_esc_attr(s@));
        assert(out@ =~= acc);
    }
    #[verifier::loop_isolation(false)]
    while i < s.len()
        invariant
            i <= s@.len(),
            spec_esc_attr(s@) == acc + spec_esc_attr(s@.skip(i as int)),
            out@ == acc,
        decreases s@.len() - i,
    {
        let ghost rest = s@.skip(i as int);
        let b = s[i];
        proof {
            assert(rest[0] == b);
            assert(rest.drop_first() =~= s@.skip(i + 1));
        }
        let ghost head: Seq<u8> = if b == 38 {
            "&amp;".spec_bytes()
        } else if b == 34 {
            "&quot;".spec_bytes()
        } else if b == 60 {
            "&lt;".spec_bytes()
        } else if b == 62 {
            "&gt;".spec_bytes()
        } else {
            seq![b]
        };
        proof {
            assert(spec_esc_attr(rest) == head + spec_esc_attr(rest.drop_first()));
            assert(acc + spec_esc_attr(rest) =~= (acc + head) + spec_esc_attr(
                rest.drop_first(),
            ));
        }
        if b == 38 {
            push_bytes(&mut out, "&amp;".as_bytes());
        } else if b == 34 {
            push_bytes(&mut out, "&quot;".as_bytes());
        } else if b == 60 {
            push_bytes(&mut out, "&lt;".as_bytes());
        } else if b == 62 {
            push_bytes(&mut out, "&gt;".as_bytes());
        } else {
            out.push(b);
        }
        proof {
            acc = acc + head;
            assert(out@ =~= acc);
        }
        i = i + 1;
    }
    proof {
        assert(s@.skip(s@.len() as int) =~= Seq::<u8>::empty());
        assert(acc + spec_esc_attr(s@.skip(i as int)) =~= acc);
    }
    out
}

/// Whether a tag is a void element, which takes no closing tag.
pub open spec fn spec_is_void(tag: Seq<u8>) -> bool {
    ||| tag == "area".spec_bytes()
    ||| tag == "base".spec_bytes()
    ||| tag == "br".spec_bytes()
    ||| tag == "col".spec_bytes()
    ||| tag == "embed".spec_bytes()
    ||| tag == "hr".spec_bytes()
    ||| tag == "img".spec_bytes()
    ||| tag == "input".spec_bytes()
    ||| tag == "link".spec_bytes()
    ||| tag == "meta".spec_bytes()
    ||| tag == "param".spec_bytes()
    ||| tag == "source".spec_bytes()
    ||| tag == "track".spec_bytes()
    ||| tag == "wbr".spec_bytes()
}

fn is_void(tag: &str) -> (r: bool)
    ensures
        r == spec_is_void(tag.spec_bytes()),
{
    let t = tag.as_bytes();
    crate::parse::bytes_eq(t, "area".as_bytes())
        || crate::parse::bytes_eq(t, "base".as_bytes())
        || crate::parse::bytes_eq(t, "br".as_bytes())
        || crate::parse::bytes_eq(t, "col".as_bytes())
        || crate::parse::bytes_eq(t, "embed".as_bytes())
        || crate::parse::bytes_eq(t, "hr".as_bytes())
        || crate::parse::bytes_eq(t, "img".as_bytes())
        || crate::parse::bytes_eq(t, "input".as_bytes())
        || crate::parse::bytes_eq(t, "link".as_bytes())
        || crate::parse::bytes_eq(t, "meta".as_bytes())
        || crate::parse::bytes_eq(t, "param".as_bytes())
        || crate::parse::bytes_eq(t, "source".as_bytes())
        || crate::parse::bytes_eq(t, "track".as_bytes())
        || crate::parse::bytes_eq(t, "wbr".as_bytes())
}

/// The attributes of a node rendered as ` k="v"` pairs in stored order.
pub open spec fn spec_attrs_html(v: Seq<(String, String)>, i: int) -> Seq<u8>
    decreases v.len() - i,
{
    if i < 0 || i >= v.len() {
        Seq::<u8>::empty()
    } else {
        seq![32u8] + string_bytes(v[i].0) + "=\"".spec_bytes()
            + spec_esc_attr(string_bytes(v[i].1)) + seq![34u8]
            + spec_attrs_html(v, i + 1)
    }
}

/// The events of a node rendered as ` data-a_k="v"` pairs in stored order.
pub open spec fn spec_events_html(v: Seq<(String, String)>, i: int) -> Seq<u8>
    decreases v.len() - i,
{
    if i < 0 || i >= v.len() {
        Seq::<u8>::empty()
    } else {
        " data-a_".spec_bytes() + string_bytes(v[i].0) + "=\"".spec_bytes()
            + spec_esc_attr(string_bytes(v[i].1)) + seq![34u8]
            + spec_events_html(v, i + 1)
    }
}

/// The opening of a node's HTML: tag, key, attributes, events.
pub open spec fn spec_open_html(n: DomNode) -> Seq<u8> {
    seq![60u8] + string_bytes(n.tag) + (match n.key {
        Some(k) => " data-key=\"".spec_bytes() + spec_esc_attr(string_bytes(k))
            + seq![34u8],
        None => Seq::<u8>::empty(),
    }) + (match n.attrs {
        Some(a) => spec_attrs_html(a@, 0),
        None => Seq::<u8>::empty(),
    }) + (match n.events {
        Some(e) => spec_events_html(e@, 0),
        None => Seq::<u8>::empty(),
    }) + seq![62u8]
}

/// The closing tag of a node; empty for void elements.
pub open spec fn spec_close_html(n: DomNode) -> Seq<u8> {
    if spec_is_void(string_bytes(n.tag)) {
        Seq::<u8>::empty()
    } else {
        "</".spec_bytes() + string_bytes(n.tag) + seq![62u8]
    }
}

/// One node rendered to HTML: head nodes are skipped; the open tag carries
/// the key, attributes and events; text is escaped; children follow; void
/// elements take no closing tag.
pub open spec fn spec_node_html(n: DomNode) -> Seq<u8>
    decreases n, 0int, 0int,
{
    if string_bytes(n.tag) == "magnetic:head".spec_bytes() {
        Seq::<u8>::empty()
    } else {
        spec_open_html(n) + (match n.text {
            Some(t) => spec_esc_html(string_bytes(t)),
            None => Seq::<u8>::empty(),
        }) + (match n.children {
            Some(c) => spec_nodes_html(c@, 0),
            None => Seq::<u8>::empty(),
        }) + spec_close_html(n)
    }
}

/// A sequence of nodes rendered to HTML, from index `i` on.
pub open spec fn spec_nodes_html(s: Seq<DomNode>, i: int) -> Seq<u8>
    decreases s, s.len() - i, 0int,
{
    if i < 0 || i >= s.len() {
        Seq::<u8>::empty()
    } else {
        spec_node_html(s[i]) + spec_nodes_html(s, i + 1)
    }
}

/// Append the rendered attribute pairs.
fn write_attrs_html(a: &Vec<(String, String)>, out: &mut Vec<u8>)
    ensures
        final(out)@ == old(out)@ + spec_attrs_html(a@, 0),
{
    let mut i: usize = 0;
    let n = a.len();
    let ghost base = out@;
    #[verifier::loop_isolation(false)]
    while i < n
        invariant
            n == a@.len(),
            i <= n,
            out@ + spec_attrs_html(a@, i as int) == base + spec_attrs_html(a@, 0),
        decreases n - i,
    {
        let ghost pre = out@;
        out.push(32);
        push_bytes(out, a[i].0.as_str().as_bytes());
        push_bytes(out, "=\"".as_bytes());
        let e = escape_attr(a[i].1.as_str().as_bytes());
        push_bytes(out, e.as_slice());
        out.push(34);
        proof {
            assert(out@ =~= pre + (seq![32u8] + string_bytes(a@[i as int].0)
                + "=\"".spec_bytes() + spec_esc_attr(string_bytes(a@[i as int].1))
                + seq![34u8]));
            assert(out@ + spec_attrs_html(a@, i + 1)
                =~= pre + spec_attrs_html(a@, i as int));
        }
        i = i + 1;
    }
    proof {
        assert(out@ =~= base + spec_attrs_html(a@, 0));
    }
}

/// Append the rendered event pairs.
fn write_events_html(ev: &Vec<(String, String)>, out: &mut Vec<u8>)
    ensures
        final(out)@ == old(out)@ + spec_events_html(ev@, 0),
{
    let mut i: usize = 0;
    let n = ev.len();
    let ghost base = out@;
    #[verifier::loop_isolation(false)]
    while i < n
        invariant
            n == ev@.len(),
            i <= n,
            out@ + spec_events_html(ev@, i as int) == base + spec_events_html(ev@, 0),
        decreases n - i,
    {
        let ghost pre = out@;
        push_bytes(out, " data-a_".as_bytes());
        push_bytes(out, ev[i].0.as_str().as_bytes());
        push_bytes(out, "=\"".as_bytes());
        let e = escape_attr(ev[i].1.as_str().as_bytes());
        push_bytes(out, e.as_slice());
        out.push(34);
        proof {
            assert(out@ =~= pre + (" data-a_".spec_bytes()
                + string_bytes(ev@[i as int].0) + "=\"".spec_bytes()
                + spec_esc_attr(string_bytes(ev@[i as int].1)) + seq![34u8]));
            assert(out@ + spec_events_html(ev@, i + 1)
                =~= pre + spec_events_html(ev@, i as int));
        }
        i = i + 1;
    }
    proof {
        assert(out@ =~= base + spec_events_html(ev@, 0));
    }
}

/// Append a node's opening tag with its key, attributes and events.
#[verifier::rlimit(100)]
fn write_open_html(node: &DomNode, out: &mut Vec<u8>)
    ensures
        final(out)@ == old(out)@ + spec_open_html(*node),
{
    let ghost mut acc: Seq<u8> = Seq::empty();
    out.push(60);
    push_bytes(out, node.tag.as_str().as_bytes());
    proof {
        acc = seq![60u8] + string_bytes(node.tag);
        assert(out@ =~= old(out)@ + acc);
    }
    match &node.key {
        Some(k) => {
            push_bytes(out, " data-key=\"".as_bytes());
            let e = escape_attr(k.as_str().as_bytes());
            push_bytes(out, e.as_slice());
            out.push(34);
            proof {
                acc = acc + (" data-key=\"".spec_bytes()
                    + spec_esc_attr(string_bytes(*k)) + seq![34u8]);
                assert(out@ =~= old(out)@ + acc);
            }
        },
        None => {
            proof {
                acc = acc + Seq::<u8>::empty();
                assert(out@ =~= old(out)@ + acc);
            }
        },
    }
    match &node.attrs {
        Some(a) => {
            write_attrs_html(a, out);
            proof {
                acc = acc + spec_attrs_html(a@, 0);
                assert(out@ =~= old(out)@ + acc);
            }
        },
        None => {
            proof {
                acc = acc + Seq::<u8>::empty();
                assert(out@ =~= old(out)@ + acc);
            }
        },
    }
    match &node.events {
        Some(ev) => {
            write_events_html(ev, out);
            proof {
                acc = acc + spec_events_html(ev@, 0);
                assert(out@ =~= old(out)@ + acc);
            }
        },
        None => {
            proof {
                acc = acc + Seq::<u8>::empty();
                assert(out@ =~= old(out)@ + acc);
            }
        },
    }
    out.push(62);
    proof {
        acc = acc + seq![62u8];
        assert(out@ =~= old(out)@ + acc);
        assert(acc == spec_open_html(*node));
    }
}

/// Render a node tree to HTML bytes.
pub fn render_to_html(node: &DomNode) -> (r: Vec<u8>)
    ensures
        r@ == spec_node_html(*node),
{
    let mut out: Vec<u8> = Vec::new();
    write_node(node, &mut out);
    proof {
        assert(out@ =~= spec_node_html(*node));
    }
    out
}

/// Append one node's HTML to the buffer.
#[verifier::rlimit(100)]
pub fn write_node(node: &DomNode, out: &mut Vec<u8>)
    ensures
        final(out)@ == old(out)@ + spec_node_html(*node),
    decreases *node,
{
    if node.is_head() {
        proof {
            assert(old(out)@ + spec_node_html(*node) =~= old(out)@);
        }
        return;
    }
    write_open_html(node, out);
    match &node.text {
        Some(t) => {
            let e = escape_html(t.as_str().as_bytes());
            push_bytes(out, e.as_slice());
        },
        None => {},
    }
    match &node.children {
        Some(c) => {
            let mut i: usize = 0;
            let n = c.len();
            let ghost base = out@;
            #[verifier::loop_isolation(false)]
            while i < n
                invariant
                    n == c@.len(),
                    i <= n,
                    out@ + spec_nodes_html(c@, i as int) == base + spec_nodes_html(c@, 0),
                decreases n - i,
            {
                let ghost pre = out@;
                write_node(&c[i], out);
                proof {
                    assert(out@ + spec_nodes_html(c@, i + 1)
                        =~= pre + spec_nodes_html(c@, i as int));
                }
                i = i + 1;
            }
            proof {
                assert(out@ =~= base + spec_nodes_html(c@, 0));
            }
        },
        None => {},
    }
    if !is_void(node.tag.as_str()) {
        push_bytes(out, "</".as_bytes());
        push_bytes(out, node.tag.as_str().as_bytes());
        out.push(62);
    }
    proof {
        assert(out@ =~= old(out)@ + spec_node_html(*node));
    }
}

/// The attributes or events of a node as a JSON object body, in stored
/// order.
pub open spec fn spec_pairs_json(v: Seq<(String, String)>, i: int) -> Seq<u8>
    decreases v.len() - i,
{
    if i < 0 || i >= v.len() {
        Seq::<u8>::empty()
    } else {
        (if i > 0 {
            seq![44u8]
        } else {
            Seq::<u8>::empty()
        }) + crate::dom::spec_str_lit(string_bytes(v[i].0)) + seq![58u8]
            + crate::dom::spec_str_lit(string_bytes(v[i].1)) + spec_pairs_json(v, i + 1)
    }
}

/// The opening of a node's JSON object: tag, key, attributes, events, text.
pub open spec fn spec_json_head(n: DomNode) -> Seq<u8> {
    "{\"tag\":".spec_bytes() + crate::dom::spec_str_lit(string_bytes(n.tag)) + (match n.key {
        Some(k) => ",\"key\":".spec_bytes() + crate::dom::spec_str_lit(string_bytes(k)),
        None => Seq::<u8>::empty(),
    }) + (match n.attrs {
        Some(a) => ",\"attrs\":{".spec_bytes() + spec_pairs_json(a@, 0) + seq![125u8],
        None => Seq::<u8>::empty(),
    }) + (match n.events {
        Some(e) => ",\"events\":{".spec_bytes() + spec_pairs_json(e@, 0) + seq![125u8],
        None => Seq::<u8>::empty(),
    }) + (match n.text {
        Some(t) => ",\"text\":".spec_bytes() + crate::dom::spec_str_lit(string_bytes(t)),
        None => Seq::<u8>::empty(),
    })
}

/// One node serialized to the canonical snapshot JSON wire form.
pub open spec fn spec_node_json(n: DomNode) -> Seq<u8>
    decreases n, 0int, 0int,
{
    spec_json_head(n) + (match n.children {
        Some(c) => ",\"children\":[".spec_bytes() + spec_nodes_json(c@, 0) + seq![93u8],
        None => Seq::<u8>::empty(),
    }) + seq![125u8]
}

/// A node sequence serialized as comma-separated JSON objects.
pub open spec fn spec_nodes_json(s: Seq<DomNode>, i: int) -> Seq<u8>
    decreases s, s.len() - i, 0int,
{
    if i < 0 || i >= s.len() {
        Seq::<u8>::empty()
    } else {
        (if i > 0 {
            seq![44u8]
        } else {
            Seq::<u8>::empty()
        }) + spec_node_json(s[i]) + spec_nodes_json(s, i + 1)
    }
}

/// Serialize a node to the canonical snapshot JSON wire form.
pub fn render_json_node(node: &DomNode) -> (r: Vec<u8>)
    ensures
        r@ == spec_node_json(*node),
{
    let mut out: Vec<u8> = Vec::new();
    write_json_node(node, &mut out);
    proof {
        assert(out@ =~= spec_node_json(*node));
    }
    out
}

/// Append a JSON object body of string pairs.
fn write_pairs_json(v: &Vec<(String, String)>, out: &mut Vec<u8>)
    ensures
        final(out)@ == old(out)@ + spec_pairs_json(v@, 0),
{
    let mut i: usize = 0;
    let n = v.len();
    let ghost base = out@;
    #[verifier::loop_isolation(false)]
    while i < n
        invariant
            n == v@.len(),
            i <= n,
            out@ + spec_pairs_json(v@, i as int) == base + spec_pairs_json(v@, 0),
        decreases n - i,
    {
        let ghost pre = out@;
        if i > 0 {
            out.push(44);
        }
        crate::wire::push_str_lit(out, v[i].0.as_str().as_bytes());
        out.push(58);
        crate::wire::push_str_lit(out, v[i].1.as_str().as_bytes());
        proof {
            assert(out@ + spec_pairs_json(v@, i + 1)
                =~= pre + spec_pairs_json(v@, i as int));
        }
        i = i + 1;
    }
    proof {
        assert(out@ =~= base + spec_pairs_json(v@, 0));
    }
}

/// Append a node's JSON opening: tag, key, attributes, events, text.
#[verifier::rlimit(100)]
fn write_json_head(node: &DomNode, out: &mut Vec<u8>)
    ensures
        final(out)@ == old(out)@ + spec_json_head(*node),
{
    let ghost mut acc: Seq<u8> = Seq::empty();
    push_bytes(out, "{\"tag\":".as_bytes());
    crate::wire::push_str_lit(out, node.tag.as_str().as_bytes());
    proof {
        acc = "{\"tag\":".spec_bytes() + crate::dom::spec_str_lit(string_bytes(node.tag));
        assert(out@ =~= old(out)@ + acc);
    }
    match &node.key {
        Some(k) => {
            push_bytes(out, ",\"key\":".as_bytes());
            crate::wire::push_str_lit(out, k.as_str().as_bytes());
            proof {
                acc = acc + (",\"key\":".spec_bytes()
                    + crate::dom::spec_str_lit(string_bytes(*k)));
                assert(out@ =~= old(out)@ + acc);
            }
        },
        None => {
            proof {
                acc = acc + Seq::<u8>::empty();
                assert(out@ =~= old(out)@ + acc);
            }
        },
    }
    match &node.attrs {
        Some(a) => {
            push_bytes(out, ",\"attrs\":{".as_bytes());
            write_pairs_json(a, out);
            out.push(125);
            proof {
                acc = acc + (",\"attrs\":{".spec_bytes() + spec_pairs_json(a@, 0)
                    + seq![125u8]);
                assert(out@ =~= old(out)@ + acc);
            }
        },
        None => {
            proof {
                acc = acc + Seq::<u8>::empty();
                assert(out@ =~= old(out)@ + acc);
            }
        },
    }
    match &node.events {
        Some(e) => {
            push_bytes(out, ",\"events\":{".as_bytes());
            write_pairs_json(e, out);
            out.push(125);
            proof {
                acc = acc + (",\"events\":{".spec_bytes() + spec_pairs_json(e@, 0)
                    + seq![125u8]);
                assert(out@ =~= old(out)@ + acc);
            }
        },
        None => {
            proof {
                acc = acc + Seq::<u8>::empty();
                assert(out@ =~= old(out)@ + acc);
            }
        },
    }
    match &node.text {
        Some(tx) => {
            push_bytes(out, ",\"text\":".as_bytes());
            crate::wire::push_str_lit(out, tx.as_str().as_bytes());
            proof {
                acc = acc + (",\"text\":".spec_bytes()
                    + crate::dom::spec_str_lit(string_bytes(*tx)));
                assert(out@ =~= old(out)@ + acc);
            }
        },
        None => {
            proof {
                acc = acc + Seq::<u8>::empty();
                assert(out@ =~= old(out)@ + acc);
            }
        },
    }
    proof {
        assert(acc == spec_json_head(*node));
    }
}

/// Append one node's snapshot JSON.
#[verifier::rlimit(100)]
pub fn write_json_node(node: &DomNode, out: &mut Vec<u8>)
    ensures
        final(out)@ == old(out)@ + spec_node_json(*node),
    decreases *node,
{
    write_json_head(node, out);
    match &node.children {
        Some(c) => {
            push_bytes(out, ",\"children\":[".as_bytes());
            let mut i: usize = 0;
            let n = c.len();
            let ghost base = out@;
            #[verifier::loop_isolation(false)]
            while i < n
                invariant
                    n == c@.len(),
                    i <= n,
                    out@ + spec_nodes_json(c@, i as int) == base + spec_nodes_json(c@, 0),
                decreases n - i,
            {
                let ghost pre = out@;
                if i > 0 {
                    out.push(44);
                }
                write_json_node(&c[i], out);
                proof {
                    assert(out@ + spec_nodes_json(c@, i + 1)
                        =~= pre + spec_nodes_json(c@, i as int));
                }
                i = i + 1;
            }
            out.push(93);
        },
        None => {},
    }
    out.push(125);
    proof {
        assert(out@ =~= old(out)@ + spec_node_json(*node));
    }
}

} // verus!

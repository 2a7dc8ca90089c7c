//! Render a UI node tree to SwiftUI view code: headings and paragraphs
//! become `Text`, buttons and anchors become `Button` with an `onAction`
//! callback, inputs become `TextField`, and containers become stacks chosen
//! by tag and layout class.

use vstd::prelude::*;
use vstd::string::StringSliceAdditionalSpecFns;
use crate::data::string_bytes;
use crate::domtree::DomNode;
use crate::wire::push_bytes;

verus! {

/// Four spaces per indentation level.
pub open spec fn spec_indent(depth: nat) -> Seq<u8>
    decreases depth,
{
    if depth == 0 {
        Seq::<u8>::empty()
    } else {
        spec_indent((depth - 1) as nat) + "    ".spec_bytes()
    }
}

/// Append `depth` levels of indentation.
pub fn indent(out: &mut Vec<u8>, depth: usize)
    ensures
        final(out)@ == old(out)@ + spec_indent(depth as nat),
{
    let mut i: usize = 0;
    #[verifier::loop_isolation(false)]
    while i < depth
        invariant
            i <= depth,
            out@ == old(out)@ + spec_indent(i as nat),
        decreases depth - i,
    {
        push_bytes(out, "    ".as_bytes());
        i = i + 1;
    }
}

/// The next depth, saturating at the machine limit.
pub open spec fn spec_bump(depth: nat) -> nat {
    if depth < usize::MAX as nat {
        depth + 1
    } else {
        depth
    }
}

pub fn next_depth(depth: usize) -> (r: usize)
    ensures
        r as nat == spec_bump(depth as nat),
{
    if depth < usize::MAX {
        depth + 1
    } else {
        depth
    }
}

/// Source-code string escaping for generated view code: backslash, quote and
/// newline.
pub open spec fn spec_esc_code(s: Seq<u8>) -> Seq<u8>
    decreases s.len(),
{
    if s.len() <= 0 {
        Seq::<u8>::empty()
    } else {
        let head: Seq<u8> = if s[0] == 92 {
            seq![92u8, 92u8]
        } else if s[0] == 34 {
            seq![92u8, 34u8]
        } else if s[0] == 10 {
            seq![92u8, 110u8]
        } else {
            seq![s[0]]
        };
        head + spec_esc_code(s.drop_first())
    }
}

/// Escape text for a generated source-code string literal.
pub fn escape_code(s: &[u8]) -> (r: Vec<u8>)
    ensures
        r@ == spec_esc_code(s@),
{
    let mut out: Vec<u8> = Vec::new();
    let ghost mut acc: Seq<u8> = Seq::empty();
    let mut i: usize = 0;
    proof {
        assert(s@.skip(0) =~= s@);
        assert(acc + spec_esc_code(s@) =~= spec_esc_code(s@));
        assert(out@ =~= acc);
    }
    #[verifier::loop_isolation(false)]
    while i < s.len()
        invariant
            i <= s@.len(),
            spec_esc_code(s@) == acc + spec_esc_code(s@.skip(i as int)),
            out@ == acc,
        decreases s@.len() - i,
    {
        let ghost rest = s@.skip(i as int);
        let b = s[i];
        proof {
            assert(rest[0] == b);
            assert(rest.drop_first() =~= s@.skip(i + 1));
        }
        let ghost head: Seq<u8> = if b == 92 {
            seq![92u8, 92u8]
        } else if b == 34 {
            seq![92u8, 34u8]
        } else if b == 10 {
            seq![92u8, 110u8]
        } else {
            seq![b]
        };
        proof {
            assert(spec_esc_code(rest) == head + spec_esc_code(rest.drop_first()));
            assert(acc + spec_esc_code(rest) =~= (acc + head) + spec_esc_code(
                rest.drop_first(),
            ));
        }
        if b == 92 {
            out.push(92);
            out.push(92);
        } else if b == 34 {
            out.push(92);
            out.push(34);
        } else if b == 10 {
            out.push(92);
            out.push(110);
        } else {
            out.push(b);
        }
        proof {
            acc = acc + head;
            assert(out@ =~= acc);
        }
        i = i + 1;
    }
    proof {
        assert(s@.skip(s@.len() as int) =~= Seq::<u8>::empty());
        assert(acc + spec_esc_code(s@.skip(i as int)) =~= acc);
    }
    out
}

/// All text carried by a node and its children, in document order.
pub open spec fn spec_text_of(n: DomNode) -> Seq<u8>
    decreases n, 0int, 0int,
{
    (match n.text {
        Some(t) => string_bytes(t),
        None => Seq::<u8>::empty(),
    }) + (match n.children {
        Some(c) => spec_texts(c@, 0),
        None => Seq::<u8>::empty(),
    })
}

pub open spec fn spec_texts(s: Seq<DomNode>, i: int) -> Seq<u8>
    decreases s, s.len() - i, 0int,
{
    if i < 0 || i >= s.len() {
        Seq::<u8>::empty()
    } else {
        spec_text_of(s[i]) + spec_texts(s, i + 1)
    }
}

/// Append all text carried by a node and its children.
pub fn collect_text_inner(node: &DomNode, out: &mut Vec<u8>)
    ensures
        final(out)@ == old(out)@ + spec_text_of(*node),
    decreases *node,
{
    match &node.text {
        Some(t) => {
            push_bytes(out, t.as_str().as_bytes());
        },
        None => {},
    }
    match &node.children {
        Some(c) => {
            let mut i: usize = 0;
            let n = c.len();
            let ghost base = out@;
            #[verifier::loop_isolation(false)]
            while i < n
                invariant
                    n == c@.len(),
                    i <= n,
                    out@ + spec_texts(c@, i as int) == base + spec_texts(c@, 0),
                decreases n - i,
            {
                let ghost pre = out@;
                collect_text_inner(&c[i], out);
                proof {
                    assert(out@ + spec_texts(c@, i + 1) =~= pre + spec_texts(c@, i as int));
                }
                i = i + 1;
            }
            proof {
                assert(out@ =~= base + spec_texts(c@, 0));
            }
        },
        None => {},
    }
    proof {
        assert(out@ =~= old(out)@ + spec_text_of(*node));
    }
}

/// All text of the node and its children; `None` when there is none.
pub fn collect_text(node: &DomNode) -> (r: Option<Vec<u8>>)
    ensures
        match r {
            Some(t) => t@ == spec_text_of(*node) && t@.len() > 0,
            None => spec_text_of(*node).len() == 0,
        },
{
    let mut out: Vec<u8> = Vec::new();
    collect_text_inner(node, &mut out);
    if out.len() == 0 {
        None
    } else {
        Some(out)
    }
}

/// Whether one byte string occurs inside another.
pub open spec fn spec_contains(hay: Seq<u8>, needle: Seq<u8>) -> bool {
    crate::parse::spec_find(hay, needle) is Some
}

fn contains(hay: &[u8], needle: &[u8]) -> (r: bool)
    ensures
        r == spec_contains(hay@, needle@),
{
    crate::parse::find_subslice(hay, needle).is_some()
}

/// Whether a node lays out horizontally: a layout class names a row-like
/// container, or the tag is a horizontal element.
pub open spec fn spec_is_row(n: DomNode) -> bool {
    match crate::domtree::spec_assoc(n.attrs, "class".spec_bytes()) {
        Some(c) => {
            ||| spec_contains(c, "row".spec_bytes())
            ||| spec_contains(c, "flex-row".spec_bytes())
            ||| spec_contains(c, "topnav".spec_bytes())
            ||| spec_contains(c, "add-form".spec_bytes())
            ||| spec_contains(c, "filters".spec_bytes())
            ||| spec_contains(c, "task-card".spec_bytes())
        },
        None => string_bytes(n.tag) == "nav".spec_bytes()
            || string_bytes(n.tag) == "header".spec_bytes(),
    }
}

/// Whether this node renders as a horizontal stack.
pub fn is_row_layout(node: &DomNode) -> (r: bool)
    ensures
        r == spec_is_row(*node),
{
    match node.class() {
        Some(c) => {
            let cb = c.as_bytes();
            contains(cb, "row".as_bytes()) || contains(cb, "flex-row".as_bytes())
                || contains(cb, "topnav".as_bytes()) || contains(cb, "add-form".as_bytes())
                || contains(cb, "filters".as_bytes()) || contains(cb, "task-card".as_bytes())
        },
        None => {
            crate::parse::bytes_eq(node.tag.as_str().as_bytes(), "nav".as_bytes())
                || crate::parse::bytes_eq(node.tag.as_str().as_bytes(), "header".as_bytes())
        },
    }
}

/// The heading arm: a bold `Text` with the tag's font.
pub open spec fn spec_swift_heading(n: DomNode, d: nat) -> Seq<u8> {
    let tag = string_bytes(n.tag);
    let font: Seq<u8> = if tag == "h1".spec_bytes() {
        ".largeTitle".spec_bytes()
    } else if tag == "h2".spec_bytes() {
        ".title".spec_bytes()
    } else if tag == "h3".spec_bytes() {
        ".title2".spec_bytes()
    } else if tag == "h4".spec_bytes() {
        ".title3".spec_bytes()
    } else if tag == "h5".spec_bytes() {
        ".headline".spec_bytes()
    } else {
        ".subheadline".spec_bytes()
    };
    if spec_text_of(n).len() > 0 {
        spec_indent(d) + "Text(\"".spec_bytes() + spec_esc_code(spec_text_of(n))
            + "\")\n".spec_bytes() + spec_indent(spec_bump(d)) + ".font(".spec_bytes()
            + font + ")\n".spec_bytes() + spec_indent(spec_bump(d))
            + ".fontWeight(.bold)\n".spec_bytes()
    } else {
        Seq::<u8>::empty()
    }
}

/// The paragraph arm: a plain `Text` when the node carries text.
pub open spec fn spec_swift_paragraph(n: DomNode, d: nat) -> Seq<u8> {
    if spec_text_of(n).len() > 0 {
        spec_indent(d) + "Text(\"".spec_bytes() + spec_esc_code(spec_text_of(n))
            + "\")\n".spec_bytes()
    } else {
        Seq::<u8>::empty()
    }
}

/// The button arm: a `Button` firing the bound click action, `noop` when
/// none is bound.
pub open spec fn spec_swift_button(n: DomNode, d: nat) -> Seq<u8> {
    let action: Seq<u8> = match crate::domtree::spec_assoc(n.events, "click".spec_bytes()) {
        Some(a) => a,
        None => "noop".spec_bytes(),
    };
    spec_indent(d) + "Button(\"".spec_bytes() + spec_esc_code(spec_text_of(n))
        + "\") {\n".spec_bytes() + spec_indent(spec_bump(d)) + "onAction(\"".spec_bytes()
        + spec_esc_code(action) + "\")\n".spec_bytes() + spec_indent(d)
        + "}\n".spec_bytes()
}

/// The input arm: a state binding and a `TextField`.
pub open spec fn spec_swift_input(n: DomNode, d: nat) -> Seq<u8> {
    let placeholder: Seq<u8> = match crate::domtree::spec_assoc(
        n.attrs,
        "placeholder".spec_bytes(),
    ) {
        Some(p) => p,
        None => "Enter text".spec_bytes(),
    };
    let name: Seq<u8> = match crate::domtree::spec_assoc(n.attrs, "name".spec_bytes()) {
        Some(m) => m,
        None => "input".spec_bytes(),
    };
    spec_indent(d) + "@State var ".spec_bytes() + name
        + "Text: String = \"\"\n".spec_bytes() + spec_indent(d)
        + "TextField(\"".spec_bytes() + spec_esc_code(placeholder)
        + "\", text: $".spec_bytes() + name + "Text)\n".spec_bytes()
        + spec_indent(spec_bump(d)) + ".textFieldStyle(.roundedBorder)\n".spec_bytes()
}

/// The anchor arm: a plain button navigating by the click action or the
/// `href`.
pub open spec fn spec_swift_anchor(n: DomNode, d: nat) -> Seq<u8> {
    let action: Seq<u8> = match crate::domtree::spec_assoc(n.events, "click".spec_bytes()) {
        Some(a) => a,
        None => match crate::domtree::spec_assoc(n.attrs, "href".spec_bytes()) {
            Some(h) => h,
            None => Seq::<u8>::empty(),
        },
    };
    spec_indent(d) + "Button(\"".spec_bytes() + spec_esc_code(spec_text_of(n))
        + "\") {\n".spec_bytes() + spec_indent(spec_bump(d)) + "onAction(\"".spec_bytes()
        + spec_esc_code(action) + "\")\n".spec_bytes() + spec_indent(d)
        + "}\n".spec_bytes() + spec_indent(d) + ".buttonStyle(.plain)\n".spec_bytes()
        + spec_indent(d) + ".foregroundColor(.accentColor)\n".spec_bytes()
}

/// The form arm: a stack of the children with the submit action noted.
pub open spec fn spec_swift_form(n: DomNode, d: nat, children: Seq<u8>) -> Seq<u8> {
    let action: Seq<u8> = match crate::domtree::spec_assoc(n.events, "submit".spec_bytes()) {
        Some(a) => a,
        None => "submit".spec_bytes(),
    };
    spec_indent(d) + "VStack(spacing: 12) {\n".spec_bytes() + children
        + spec_indent(spec_bump(d)) + "// Form submit: onAction(\"".spec_bytes()
        + spec_esc_code(action) + "\")\n".spec_bytes() + spec_indent(d)
        + "}\n".spec_bytes()
}

/// The default arm: a stack chosen by layout, with text, children, and
/// card-like modifiers for known page classes.
pub open spec fn spec_swift_container(n: DomNode, d: nat, children: Seq<u8>) -> Seq<u8> {
    spec_indent(d) + (if spec_is_row(n) {
        "HStack(spacing: 8) {\n".spec_bytes()
    } else {
        "VStack(alignment: .leading, spacing: 8) {\n".spec_bytes()
    }) + (match n.text {
        Some(t) => spec_indent(spec_bump(d)) + "Text(\"".spec_bytes()
            + spec_esc_code(string_bytes(t)) + "\")\n".spec_bytes(),
        None => Seq::<u8>::empty(),
    }) + children + spec_indent(d) + "}\n".spec_bytes() + spec_swift_mods(n, d)
}

/// Card-like modifiers for known page classes.
pub open spec fn spec_swift_mods(n: DomNode, d: nat) -> Seq<u8> {
    match crate::domtree::spec_assoc(n.attrs, "class".spec_bytes()) {
        Some(c) => if spec_contains(c, "task-board".spec_bytes())
            || spec_contains(c, "about-page".spec_bytes())
            || spec_contains(c, "not-found".spec_bytes()) {
            spec_indent(d) + ".padding()\n".spec_bytes() + spec_indent(d)
                + ".background(Color(.systemBackground))\n".spec_bytes()
                + spec_indent(d) + ".cornerRadius(16)\n".spec_bytes()
        } else {
            Seq::<u8>::empty()
        },
        None => Seq::<u8>::empty(),
    }
}

/// One node rendered as SwiftUI code at an indentation depth.
pub open spec fn spec_swift_node(n: DomNode, d: nat) -> Seq<u8>
    decreases n, 0int, 0int,
{
    let tag = string_bytes(n.tag);
    let children: Seq<u8> = match n.children {
        Some(c) => spec_swift_nodes(c@, 0, spec_bump(d)),
        None => Seq::<u8>::empty(),
    };
    let children_same: Seq<u8> = match n.children {
        Some(c) => spec_swift_nodes(c@, 0, d),
        None => Seq::<u8>::empty(),
    };
    if tag == "magnetic:head".spec_bytes() {
        Seq::<u8>::empty()
    } else if tag == "h1".spec_bytes() || tag == "h2".spec_bytes()
        || tag == "h3".spec_bytes() || tag == "h4".spec_bytes()
        || tag == "h5".spec_bytes() || tag == "h6".spec_bytes() {
        spec_swift_heading(n, d)
    } else if tag == "p".spec_bytes() || tag == "span".spec_bytes()
        || tag == "label".spec_bytes() {
        spec_swift_paragraph(n, d)
    } else if tag == "button".spec_bytes() {
        spec_swift_button(n, d)
    } else if tag == "input".spec_bytes() {
        spec_swift_input(n, d)
    } else if tag == "a".spec_bytes() {
        spec_swift_anchor(n, d)
    } else if tag == "form".spec_bytes() {
        spec_swift_form(n, d, children)
    } else if tag == "nav".spec_bytes() {
        spec_indent(d) + "HStack(spacing: 12) {\n".spec_bytes() + children + spec_indent(d)
            + "}\n".spec_bytes()
    } else if tag == "ul".spec_bytes() || tag == "ol".spec_bytes() {
        spec_indent(d) + "VStack(alignment: .leading, spacing: 8) {\n".spec_bytes()
            + children + spec_indent(d) + "}\n".spec_bytes()
    } else if tag == "li".spec_bytes() {
        children_same + (match n.text {
            Some(t) => spec_indent(d) + "Text(\"".spec_bytes()
                + spec_esc_code(string_bytes(t)) + "\")\n".spec_bytes(),
            None => Seq::<u8>::empty(),
        })
    } else {
        spec_swift_container(n, d, children)
    }
}

/// A node sequence rendered as SwiftUI code, from index `i` on.
pub open spec fn spec_swift_nodes(s: Seq<DomNode>, i: int, d: nat) -> Seq<u8>
    decreases s, s.len() - i, 0int,
{
    if i < 0 || i >= s.len() {
        Seq::<u8>::empty()
    } else {
        spec_swift_node(s[i], d) + spec_swift_nodes(s, i + 1, d)
    }
}

/// Append the SwiftUI code of a node's children.
fn write_swift_children(c: &Vec<DomNode>, depth: usize, out: &mut Vec<u8>)
    ensures
        final(out)@ == old(out)@ + spec_swift_nodes(c@, 0, depth as nat),
    decreases *c,
{
    let mut i: usize = 0;
    let n = c.len();
    let ghost base = out@;
    #[verifier::loop_isolation(false)]
    while i < n
        invariant
            n == c@.len(),
            i <= n,
            out@ + spec_swift_nodes(c@, i as int, depth as nat)
                == base + spec_swift_nodes(c@, 0, depth as nat),
        decreases n - i,
    {
        let ghost pre = out@;
        write_swift_node(&c[i], out, depth);
        proof {
            assert(out@ + spec_swift_nodes(c@, i + 1, depth as nat)
                =~= pre + spec_swift_nodes(c@, i as int, depth as nat));
        }
        i = i + 1;
    }
    proof {
        assert(out@ =~= base + spec_swift_nodes(c@, 0, depth as nat));
    }
}

#[verifier::rlimit(100)]
fn write_swift_heading(node: &DomNode, out: &mut Vec<u8>, depth: usize)
    ensures
        final(out)@ == old(out)@ + spec_swift_heading(*node, depth as nat),
{
    let tag = node.tag.as_str().as_bytes();
    let d1 = next_depth(depth);
    let font: &str = if crate::parse::bytes_eq(tag, "h1".as_bytes()) {
        ".largeTitle"
    } else if crate::parse::bytes_eq(tag, "h2".as_bytes()) {
        ".title"
    } else if crate::parse::bytes_eq(tag, "h3".as_bytes()) {
        ".title2"
    } else if crate::parse::bytes_eq(tag, "h4".as_bytes()) {
        ".title3"
    } else if crate::parse::bytes_eq(tag, "h5".as_bytes()) {
        ".headline"
    } else {
        ".subheadline"
    };
    match collect_text(node) {
        Some(text) => {
            indent(out, depth);
            push_bytes(out, "Text(\"".as_bytes());
            let e = escape_code(text.as_slice());
            push_bytes(out, e.as_slice());
            push_bytes(out, "\")\n".as_bytes());
            indent(out, d1);
            push_bytes(out, ".font(".as_bytes());
            push_bytes(out, font.as_bytes());
            push_bytes(out, ")\n".as_bytes());
            indent(out, d1);
            push_bytes(out, ".fontWeight(.bold)\n".as_bytes());
        },
        None => {},
    }
    proof {
        assert(out@ =~= old(out)@ + spec_swift_heading(*node, depth as nat));
    }
}

#[verifier::rlimit(100)]
fn write_swift_button(node: &DomNode, out: &mut Vec<u8>, depth: usize)
    ensures
        final(out)@ == old(out)@ + spec_swift_button(*node, depth as nat),
{
    let d1 = next_depth(depth);
    let mut label: Vec<u8> = Vec::new();
    collect_text_inner(node, &mut label);
    indent(out, depth);
    push_bytes(out, "Button(\"".as_bytes());
    let el = escape_code(label.as_slice());
    push_bytes(out, el.as_slice());
    push_bytes(out, "\") {\n".as_bytes());
    indent(out, d1);
    push_bytes(out, "onAction(\"".as_bytes());
    match node.event("click") {
        Some(a) => {
            let ea = escape_code(a.as_bytes());
            push_bytes(out, ea.as_slice());
        },
        None => {
            let ea = escape_code("noop".as_bytes());
            push_bytes(out, ea.as_slice());
        },
    }
    push_bytes(out, "\")\n".as_bytes());
    indent(out, depth);
    push_bytes(out, "}\n".as_bytes());
    proof {
        assert(out@ =~= old(out)@ + spec_swift_button(*node, depth as nat));
    }
}

#[verifier::rlimit(100)]
fn write_swift_input(node: &DomNode, out: &mut Vec<u8>, depth: usize)
    ensures
        final(out)@ == old(out)@ + spec_swift_input(*node, depth as nat),
{
    let d1 = next_depth(depth);
    indent(out, depth);
    push_bytes(out, "@State var ".as_bytes());
    let name_b = attr_or(node, "name", "input");
    push_bytes(out, name_b.as_slice());
    push_bytes(out, "Text: String = \"\"\n".as_bytes());
    indent(out, depth);
    push_bytes(out, "TextField(\"".as_bytes());
    let ph = attr_or(node, "placeholder", "Enter text");
    let ep = escape_code(ph.as_slice());
    push_bytes(out, ep.as_slice());
    push_bytes(out, "\", text: $".as_bytes());
    push_bytes(out, name_b.as_slice());
    push_bytes(out, "Text)\n".as_bytes());
    indent(out, d1);
    push_bytes(out, ".textFieldStyle(.roundedBorder)\n".as_bytes());
    proof {
        assert(out@ =~= old(out)@ + spec_swift_input(*node, depth as nat));
    }
}

#[verifier::rlimit(100)]
fn write_swift_anchor(node: &DomNode, out: &mut Vec<u8>, depth: usize)
    ensures
        final(out)@ == old(out)@ + spec_swift_anchor(*node, depth as nat),
{
    let d1 = next_depth(depth);
    let mut label: Vec<u8> = Vec::new();
    collect_text_inner(node, &mut label);
    indent(out, depth);
    push_bytes(out, "Button(\"".as_bytes());
    let el = escape_code(label.as_slice());
    push_bytes(out, el.as_slice());
    push_bytes(out, "\") {\n".as_bytes());
    indent(out, d1);
    push_bytes(out, "onAction(\"".as_bytes());
    match node.event("click") {
        Some(a) => {
            let ea = escape_code(a.as_bytes());
            push_bytes(out, ea.as_slice());
        },
        None => {
            proof {
                reveal_strlit("");
                assert("".spec_bytes() =~= Seq::<u8>::empty());
            }
            let href = attr_or(node, "href", "");
            let ea = escape_code(href.as_slice());
            push_bytes(out, ea.as_slice());
        },
    }
    push_bytes(out, "\")\n".as_bytes());
    indent(out, depth);
    push_bytes(out, "}\n".as_bytes());
    indent(out, depth);
    push_bytes(out, ".buttonStyle(.plain)\n".as_bytes());
    indent(out, depth);
    push_bytes(out, ".foregroundColor(.accentColor)\n".as_bytes());
    proof {
        assert(out@ =~= old(out)@ + spec_swift_anchor(*node, depth as nat));
    }
}

#[verifier::rlimit(100)]
fn write_swift_container(node: &DomNode, out: &mut Vec<u8>, depth: usize)
    ensures
        final(out)@ == old(out)@ + spec_swift_container(*node, depth as nat,
            match node.children {
                Some(c) => spec_swift_nodes(c@, 0, spec_bump(depth as nat)),
                None => Seq::<u8>::empty(),
            }),
    decreases *node, 1int, 0int,
{
    let ghost d = depth as nat;
    let d1 = next_depth(depth);
    let row = is_row_layout(node);
    let ghost mut acc: Seq<u8> = Seq::empty();
    indent(out, depth);
    if row {
        push_bytes(out, "HStack(spacing: 8) {\n".as_bytes());
    } else {
        push_bytes(out, "VStack(alignment: .leading, spacing: 8) {\n".as_bytes());
    }
    proof {
        acc = spec_indent(d) + (if spec_is_row(*node) {
            "HStack(spacing: 8) {\n".spec_bytes()
        } else {
            "VStack(alignment: .leading, spacing: 8) {\n".spec_bytes()
        });
        assert(out@ =~= old(out)@ + acc);
    }
    match &node.text {
        Some(t) => {
            indent(out, d1);
            push_bytes(out, "Text(\"".as_bytes());
            let e = escape_code(t.as_str().as_bytes());
            push_bytes(out, e.as_slice());
            push_bytes(out, "\")\n".as_bytes());
            proof {
                acc = acc + (spec_indent(spec_bump(d)) + "Text(\"".spec_bytes()
                    + spec_esc_code(string_bytes(*t)) + "\")\n".spec_bytes());
                assert(out@ =~= old(out)@ + acc);
            }
        },
        None => {},
    }
    match &node.children {
        Some(c) => {
            write_swift_children(c, d1, out);
            proof {
                acc = acc + spec_swift_nodes(c@, 0, spec_bump(d));
                assert(out@ =~= old(out)@ + acc);
            }
        },
        None => {},
    }
    indent(out, depth);
    push_bytes(out, "}\n".as_bytes());
    write_swift_mods(node, out, depth);
    proof {
        acc = acc + (spec_indent(d) + "}\n".spec_bytes()) + spec_swift_mods(*node, d);
        assert(out@ =~= old(out)@ + acc);
        assert(acc =~= spec_swift_container(*node, d, match node.children {
            Some(c) => spec_swift_nodes(c@, 0, spec_bump(d)),
            None => Seq::<u8>::empty(),
        }));
    }
}

#[verifier::rlimit(100)]
fn write_swift_mods(node: &DomNode, out: &mut Vec<u8>, depth: usize)
    ensures
        final(out)@ == old(out)@ + spec_swift_mods(*node, depth as nat),
{
    match node.class() {
        Some(cl) => {
            let cb = cl.as_bytes();
            if contains(cb, "task-board".as_bytes()) || contains(cb, "about-page".as_bytes())
                || contains(cb, "not-found".as_bytes()) {
                indent(out, depth);
                push_bytes(out, ".padding()\n".as_bytes());
                indent(out, depth);
                push_bytes(out, ".background(Color(.systemBackground))\n".as_bytes());
                indent(out, depth);
                push_bytes(out, ".cornerRadius(16)\n".as_bytes());
            }
        },
        None => {},
    }
    proof {
        assert(out@ =~= old(out)@ + spec_swift_mods(*node, depth as nat));
    }
}

fn write_swift_form_arm(node: &DomNode, out: &mut Vec<u8>, depth: usize)
    ensures
        final(out)@ == old(out)@ + spec_swift_form(*node, depth as nat,
            match node.children {
                Some(c) => spec_swift_nodes(c@, 0, spec_bump(depth as nat)),
                None => Seq::<u8>::empty(),
            }),
    decreases *node, 1int, 0int,
{
    let d1 = next_depth(depth);
    indent(out, depth);
    push_bytes(out, "VStack(spacing: 12) {\n".as_bytes());
    match &node.children {
        Some(c) => {
            write_swift_children(c, d1, out);
        },
        None => {},
    }
    indent(out, d1);
    push_bytes(out, "// Form submit: onAction(\"".as_bytes());
    match node.event("submit") {
        Some(a) => {
            let ea = escape_code(a.as_bytes());
            push_bytes(out, ea.as_slice());
        },
        None => {
            let ea = escape_code("submit".as_bytes());
            push_bytes(out, ea.as_slice());
        },
    }
    push_bytes(out, "\")\n".as_bytes());
    indent(out, depth);
    push_bytes(out, "}\n".as_bytes());
    proof {
        assert(out@ =~= old(out)@ + spec_swift_form(*node, depth as nat,
            match node.children {
                Some(c) => spec_swift_nodes(c@, 0, spec_bump(depth as nat)),
                None => Seq::<u8>::empty(),
            }));
    }
}

fn write_swift_stack(node: &DomNode, out: &mut Vec<u8>, depth: usize, header: &str)
    ensures
        final(out)@ == old(out)@ + spec_indent(depth as nat) + header.spec_bytes()
            + (match node.children {
                Some(c) => spec_swift_nodes(c@, 0, spec_bump(depth as nat)),
                None => Seq::<u8>::empty(),
            }) + spec_indent(depth as nat) + "}\n".spec_bytes(),
    decreases *node, 1int, 0int,
{
    let d1 = next_depth(depth);
    indent(out, depth);
    push_bytes(out, header.as_bytes());
    match &node.children {
        Some(c) => {
            write_swift_children(c, d1, out);
        },
        None => {},
    }
    indent(out, depth);
    push_bytes(out, "}\n".as_bytes());
    proof {
        assert(out@ =~= old(out)@ + spec_indent(depth as nat) + header.spec_bytes()
            + (match node.children {
                Some(c) => spec_swift_nodes(c@, 0, spec_bump(depth as nat)),
                None => Seq::<u8>::empty(),
            }) + spec_indent(depth as nat) + "}\n".spec_bytes());
    }
}

fn write_swift_li(node: &DomNode, out: &mut Vec<u8>, depth: usize)
    ensures
        final(out)@ == old(out)@ + (match node.children {
            Some(c) => spec_swift_nodes(c@, 0, depth as nat),
            None => Seq::<u8>::empty(),
        }) + (match node.text {
            Some(t) => spec_indent(depth as nat) + "Text(\"".spec_bytes()
                + spec_esc_code(string_bytes(t)) + "\")\n".spec_bytes(),
            None => Seq::<u8>::empty(),
        }),
    decreases *node, 1int, 0int,
{
    match &node.children {
        Some(c) => {
            write_swift_children(c, depth, out);
        },
        None => {},
    }
    match &node.text {
        Some(t) => {
            indent(out, depth);
            push_bytes(out, "Text(\"".as_bytes());
            let e = escape_code(t.as_str().as_bytes());
            push_bytes(out, e.as_slice());
            push_bytes(out, "\")\n".as_bytes());
        },
        None => {},
    }
    proof {
        assert(out@ =~= old(out)@ + (match node.children {
            Some(c) => spec_swift_nodes(c@, 0, depth as nat),
            None => Seq::<u8>::empty(),
        }) + (match node.text {
            Some(t) => spec_indent(depth as nat) + "Text(\"".spec_bytes()
                + spec_esc_code(string_bytes(t)) + "\")\n".spec_bytes(),
            None => Seq::<u8>::empty(),
        }));
    }
}

fn write_swift_paragraph(node: &DomNode, out: &mut Vec<u8>, depth: usize)
    ensures
        final(out)@ == old(out)@ + spec_swift_paragraph(*node, depth as nat),
{
    match collect_text(node) {
        Some(text) => {
            indent(out, depth);
            push_bytes(out, "Text(\"".as_bytes());
            let e = escape_code(text.as_slice());
            push_bytes(out, e.as_slice());
            push_bytes(out, "\")\n".as_bytes());
        },
        None => {},
    }
    proof {
        assert(out@ =~= old(out)@ + spec_swift_paragraph(*node, depth as nat));
    }
}

/// Append one node's SwiftUI code.
#[verifier::rlimit(100)]
pub fn write_swift_node(node: &DomNode, out: &mut Vec<u8>, depth: usize)
    ensures
        final(out)@ == old(out)@ + spec_swift_node(*node, depth as nat),
    decreases *node, 2int, 0int,
{
    let tag = node.tag.as_str().as_bytes();
    if crate::parse::bytes_eq(tag, "magnetic:head".as_bytes()) {
        proof {
            assert(out@ =~= old(out)@ + spec_swift_node(*node, depth as nat));
        }
    } else if crate::parse::bytes_eq(tag, "h1".as_bytes())
        || crate::parse::bytes_eq(tag, "h2".as_bytes())
        || crate::parse::bytes_eq(tag, "h3".as_bytes())
        || crate::parse::bytes_eq(tag, "h4".as_bytes())
        || crate::parse::bytes_eq(tag, "h5".as_bytes())
        || crate::parse::bytes_eq(tag, "h6".as_bytes()) {
        write_swift_heading(node, out, depth);
    } else if crate::parse::bytes_eq(tag, "p".as_bytes())
        || crate::parse::bytes_eq(tag, "span".as_bytes())
        || crate::parse::bytes_eq(tag, "label".as_bytes()) {
        write_swift_paragraph(node, out, depth);
    } else if crate::parse::bytes_eq(tag, "button".as_bytes()) {
        write_swift_button(node, out, depth);
    } else if crate::parse::bytes_eq(tag, "input".as_bytes()) {
        write_swift_input(node, out, depth);
    } else if crate::parse::bytes_eq(tag, "a".as_bytes()) {
        write_swift_anchor(node, out, depth);
    } else if crate::parse::bytes_eq(tag, "form".as_bytes()) {
        write_swift_form_arm(node, out, depth);
    } else if crate::parse::bytes_eq(tag, "nav".as_bytes()) {
        write_swift_stack(node, out, depth, "HStack(spacing: 12) {\n");
    } else if crate::parse::bytes_eq(tag, "ul".as_bytes())
        || crate::parse::bytes_eq(tag, "ol".as_bytes()) {
        write_swift_stack(node, out, depth, "VStack(alignment: .leading, spacing: 8) {\n");
    } else if crate::parse::bytes_eq(tag, "li".as_bytes()) {
        write_swift_li(node, out, depth);
    } else {
        write_swift_container(node, out, depth);
    }
}

/// The attribute value under a name, or a default.
pub fn attr_or(node: &DomNode, name: &str, dflt: &str) -> (r: Vec<u8>)
    ensures
        r@ == match crate::domtree::spec_assoc(node.attrs, name.spec_bytes()) {
            Some(v) => v,
            None => dflt.spec_bytes(),
        },
{
    match &node.attrs {
        Some(a) => match crate::domtree::assoc_lookup(a, name) {
            Some(v) => {
                let vb = v.as_str().as_bytes();
                let r = crate::transport::slice_take(vb, vb.len());
                proof {
                    assert(r@ =~= string_bytes(*v));
                }
                r
            },
            None => {
                let r = crate::transport::slice_take(dflt.as_bytes(), dflt.as_bytes().len());
                proof {
                    assert(r@ =~= dflt.spec_bytes());
                }
                r
            },
        },
        None => {
            let r = crate::transport::slice_take(dflt.as_bytes(), dflt.as_bytes().len());
            proof {
                assert(r@ =~= dflt.spec_bytes());
            }
            r
        },
    }
}

/// The whole SwiftUI view: header, the view struct with its action callback,
/// and the rendered body at depth two.
pub open spec fn spec_swift_view(n: DomNode, name: Seq<u8>) -> Seq<u8> {
    "import SwiftUI\n\n".spec_bytes() + "struct ".spec_bytes() + name
        + ": View {\n".spec_bytes() + "    var onAction: (String) -> Void\n\n".spec_bytes()
        + "    var body: some View {\n".spec_bytes() + spec_swift_node(n, 2)
        + "    }\n".spec_bytes() + "}\n".spec_bytes()
}

/// Render a node tree to a complete SwiftUI view struct.
pub fn render_to_swift(node: &DomNode, struct_name: &str) -> (r: Vec<u8>)
    ensures
        r@ == spec_swift_view(*node, struct_name.spec_bytes()),
{
    let mut out: Vec<u8> = Vec::new();
    push_bytes(&mut out, "import SwiftUI\n\n".as_bytes());
    push_bytes(&mut out, "struct ".as_bytes());
    push_bytes(&mut out, struct_name.as_bytes());
    push_bytes(&mut out, ": View {\n".as_bytes());
    push_bytes(&mut out, "    var onAction: (String) -> Void\n\n".as_bytes());
    push_bytes(&mut out, "    var body: some View {\n".as_bytes());
    write_swift_node(node, &mut out, 2);
    push_bytes(&mut out, "    }\n".as_bytes());
    push_bytes(&mut out, "}\n".as_bytes());
    proof {
        assert(out@ =~= spec_swift_view(*node, struct_name.spec_bytes()));
    }
    out
}

} // verus!

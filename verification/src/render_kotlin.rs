//! Render a UI node tree to Jetpack Compose code: headings and paragraphs
//! become `Text` with typography styles, buttons become `Button` with an
//! `onAction` callback, inputs become `OutlinedTextField`, lists become
//! `LazyColumn` items, and containers become `Row` or `Column` by layout.

use vstd::prelude::*;
use vstd::string::StringSliceAdditionalSpecFns;
use crate::data::string_bytes;
use crate::domtree::DomNode;
use crate::wire::{push_bytes, push_u64, spec_u64_str};
use crate::render_swift::{spec_indent, indent, spec_bump, next_depth, spec_text_of,
    collect_text, collect_text_inner, spec_contains, spec_is_row, is_row_layout, attr_or};

verus! {

/// Compose source-code string escaping: backslash, quote, newline and the
/// dollar sign.
pub open spec fn spec_esc_kotlin(s: Seq<u8>) -> Seq<u8>
    decreases s.len(),
{
    if s.len() <= 0 {
        Seq::<u8>::empty()
    } else {
        let head: Seq<u8> = if s[0] == 92 {
            seq![92u8, 92u8]
        } else if s[0] == 34 {
            seq![92u8, 34u8]
        } else if s[0] == 10 {
            seq![92u8, 110u8]
        } else if s[0] == 36 {
            seq![92u8, 36u8]
        } else {
            seq![s[0]]
        };
        head + spec_esc_kotlin(s.drop_first())
    }
}

/// Escape text for a Compose string literal.
pub fn escape_kotlin(s: &[u8]) -> (r: Vec<u8>)
    ensures
        r@ == spec_esc_kotlin(s@),
{
    let mut out: Vec<u8> = Vec::new();
    let ghost mut acc: Seq<u8> = Seq::empty();
    let mut i: usize = 0;
    proof {
        assert(s@.skip(0) =~= s@);
        assert(acc + spec_esc_kotlin(s@) =~= spec_esc_kotlin(s@));
        assert(out@ =~= acc);
    }
    #[verifier::loop_isolation(false)]
    while i < s.len()
        invariant
            i <= s@.len(),
            spec_esc_kotlin(s@) == acc + spec_esc_kotlin(s@.skip(i as int)),
            out@ == acc,
        decreases s@.len() - i,
    {
        let ghost rest = s@.skip(i as int);
        let b = s[i];
        proof {
            assert(rest[0] == b);
            assert(rest.drop_first() =~= s@.skip(i + 1));
        }
        let ghost head: Seq<u8> = if b == 92 {
            seq![92u8, 92u8]
        } else if b == 34 {
            seq![92u8, 34u8]
        } else if b == 10 {
            seq![92u8, 110u8]
        } else if b == 36 {
            seq![92u8, 36u8]
        } else {
            seq![b]
        };
        proof {
            assert(spec_esc_kotlin(rest) == head + spec_esc_kotlin(rest.drop_first()));
            assert(acc + spec_esc_kotlin(rest) =~= (acc + head) + spec_esc_kotlin(
                rest.drop_first(),
            ));
        }
        if b == 92 {
            out.push(92);
            out.push(92);
        } else if b == 34 {
            out.push(92);
            out.push(34);
        } else if b == 10 {
            out.push(92);
            out.push(110);
        } else if b == 36 {
            out.push(92);
            out.push(36);
        } else {
            out.push(b);
        }
        proof {
            acc = acc + head;
            assert(out@ =~= acc);
        }
        i = i + 1;
    }
    proof {
        assert(s@.skip(s@.len() as int) =~= Seq::<u8>::empty());
        assert(acc + spec_esc_kotlin(s@.skip(i as int)) =~= acc);
    }
    out
}

/// The heading arm: `Text` with the tag's typography style.
pub open spec fn spec_kotlin_heading(n: DomNode, d: nat) -> Seq<u8> {
    let tag = string_bytes(n.tag);
    let style: Seq<u8> = if tag == "h1".spec_bytes() {
        "headlineLarge".spec_bytes()
    } else if tag == "h2".spec_bytes() {
        "headlineMedium".spec_bytes()
    } else if tag == "h3".spec_bytes() {
        "headlineSmall".spec_bytes()
    } else if tag == "h4".spec_bytes() {
        "titleLarge".spec_bytes()
    } else if tag == "h5".spec_bytes() {
        "titleMedium".spec_bytes()
    } else {
        "titleSmall".spec_bytes()
    };
    if spec_text_of(n).len() > 0 {
        spec_indent(d) + "Text(\"".spec_bytes() + spec_esc_kotlin(spec_text_of(n))
            + "\", style = MaterialTheme.typography.".spec_bytes() + style
            + ")\n".spec_bytes()
    } else {
        Seq::<u8>::empty()
    }
}

/// The paragraph arm: a plain `Text` when the node carries text.
pub open spec fn spec_kotlin_paragraph(n: DomNode, d: nat) -> Seq<u8> {
    if spec_text_of(n).len() > 0 {
        spec_indent(d) + "Text(\"".spec_bytes() + spec_esc_kotlin(spec_text_of(n))
            + "\")\n".spec_bytes()
    } else {
        Seq::<u8>::empty()
    }
}

/// The button arm.
pub open spec fn spec_kotlin_button(n: DomNode, d: nat) -> Seq<u8> {
    let action: Seq<u8> = match crate::domtree::spec_assoc(n.events, "click".spec_bytes()) {
        Some(a) => a,
        None => "noop".spec_bytes(),
    };
    spec_indent(d) + "Button(onClick = { onAction(\"".spec_bytes()
        + spec_esc_kotlin(action) + "\") }) {\n".spec_bytes()
        + spec_indent(spec_bump(d)) + "Text(\"".spec_bytes()
        + spec_esc_kotlin(spec_text_of(n)) + "\")\n".spec_bytes() + spec_indent(d)
        + "}\n".spec_bytes()
}

/// The input arm: a remembered state variable and an `OutlinedTextField`.
pub open spec fn spec_kotlin_input(n: DomNode, d: nat) -> Seq<u8> {
    let placeholder: Seq<u8> = match crate::domtree::spec_assoc(
        n.attrs,
        "placeholder".spec_bytes(),
    ) {
        Some(p) => p,
        None => Seq::<u8>::empty(),
    };
    let name: Seq<u8> = match crate::domtree::spec_assoc(n.attrs, "name".spec_bytes()) {
        Some(m) => m,
        None => "input".spec_bytes(),
    };
    let action: Seq<u8> = match crate::domtree::spec_assoc(n.events, "input".spec_bytes()) {
        Some(a) => a,
        None => Seq::<u8>::empty(),
    };
    spec_indent(d) + "var ".spec_bytes() + name
        + "Value by remember { mutableStateOf(\"\") }\n".spec_bytes() + spec_indent(d)
        + "OutlinedTextField(\n".spec_bytes() + spec_indent(spec_bump(d))
        + "value = ".spec_bytes() + name + "Value,\n".spec_bytes()
        + spec_indent(spec_bump(d)) + "onValueChange = { ".spec_bytes() + name
        + "Value = it".spec_bytes() + (if action.len() > 0 {
            "; onAction(\"".spec_bytes() + spec_esc_kotlin(action) + "\")".spec_bytes()
        } else {
            Seq::<u8>::empty()
        }) + " },\n".spec_bytes() + spec_indent(spec_bump(d))
        + "placeholder = { Text(\"".spec_bytes() + spec_esc_kotlin(placeholder)
        + "\") },\n".spec_bytes() + spec_indent(spec_bump(d))
        + "modifier = Modifier.fillMaxWidth()\n".spec_bytes() + spec_indent(d)
        + ")\n".spec_bytes()
}

/// The anchor arm: a `TextButton` firing the click action or the `href`.
pub open spec fn spec_kotlin_anchor(n: DomNode, d: nat) -> Seq<u8> {
    let action: Seq<u8> = match crate::domtree::spec_assoc(n.events, "click".spec_bytes()) {
        Some(a) => a,
        None => match crate::domtree::spec_assoc(n.attrs, "href".spec_bytes()) {
            Some(h) => h,
            None => Seq::<u8>::empty(),
        },
    };
    spec_indent(d) + "TextButton(onClick = { onAction(\"".spec_bytes()
        + spec_esc_kotlin(action) + "\") }) {\n".spec_bytes()
        + spec_indent(spec_bump(d)) + "Text(\"".spec_bytes()
        + spec_esc_kotlin(spec_text_of(n)) + "\")\n".spec_bytes() + spec_indent(d)
        + "}\n".spec_bytes()
}

/// The form arm: a full-width `Column` with the submit action noted.
pub open spec fn spec_kotlin_form(n: DomNode, d: nat, children: Seq<u8>) -> Seq<u8> {
    let action: Seq<u8> = match crate::domtree::spec_assoc(n.events, "submit".spec_bytes()) {
        Some(a) => a,
        None => "submit".spec_bytes(),
    };
    spec_indent(d) + "Column(\n".spec_bytes() + spec_indent(spec_bump(d))
        + "modifier = Modifier.fillMaxWidth()\n".spec_bytes() + spec_indent(d)
        + ") {\n".spec_bytes() + children + spec_indent(spec_bump(d))
        + "// Form submit: onAction(\"".spec_bytes() + spec_esc_kotlin(action)
        + "\")\n".spec_bytes() + spec_indent(d) + "}\n".spec_bytes()
}

/// The navigation arm: a spaced full-width `Row`.
pub open spec fn spec_kotlin_nav(d: nat, children: Seq<u8>) -> Seq<u8> {
    spec_indent(d) + "Row(\n".spec_bytes() + spec_indent(spec_bump(d))
        + "horizontalArrangement = Arrangement.spacedBy(8.dp),\n".spec_bytes()
        + spec_indent(spec_bump(d)) + "modifier = Modifier.fillMaxWidth()\n".spec_bytes()
        + spec_indent(d) + ") {\n".spec_bytes() + children + spec_indent(d)
        + "}\n".spec_bytes()
}

/// One list entry: a keyed `item` block, keyed by the child's key or its
/// index.
pub open spec fn spec_kotlin_items(s: Seq<DomNode>, i: int, d: nat) -> Seq<u8>
    decreases s, s.len() - i, 1int,
{
    if i < 0 || i >= s.len() {
        Seq::<u8>::empty()
    } else {
        spec_indent(spec_bump(d)) + "item(key = \"".spec_bytes() + (match s[i].key {
            Some(k) => string_bytes(k),
            None => spec_u64_str(i as nat),
        }) + "\") {\n".spec_bytes() + spec_kotlin_node(
            s[i],
            spec_bump(spec_bump(d)),
        ) + spec_indent(spec_bump(d)) + "}\n".spec_bytes() + spec_kotlin_items(s, i + 1, d)
    }
}

/// The opening of the default arm's stack, chosen by layout.
pub open spec fn spec_kotlin_container_open(n: DomNode, d: nat) -> Seq<u8> {
    spec_indent(d) + (if spec_is_row(n) {
        "Row(\n".spec_bytes()
    } else {
        "Column(\n".spec_bytes()
    }) + (if spec_is_row(n) {
        spec_indent(spec_bump(d))
            + "horizontalArrangement = Arrangement.spacedBy(8.dp),\n".spec_bytes()
            + spec_indent(spec_bump(d))
            + "verticalAlignment = Alignment.CenterVertically,\n".spec_bytes()
    } else {
        spec_indent(spec_bump(d))
            + "verticalArrangement = Arrangement.spacedBy(8.dp),\n".spec_bytes()
    }) + spec_indent(spec_bump(d)) + "modifier = Modifier.fillMaxWidth()\n".spec_bytes()
        + spec_indent(d) + ") {\n".spec_bytes()
}

/// The default arm: a `Row` or `Column` chosen by layout.
pub open spec fn spec_kotlin_container(n: DomNode, d: nat, children: Seq<u8>) -> Seq<u8> {
    spec_kotlin_container_open(n, d) + (match n.text {
        Some(t) => spec_indent(spec_bump(d)) + "Text(\"".spec_bytes()
            + spec_esc_kotlin(string_bytes(t)) + "\")\n".spec_bytes(),
        None => Seq::<u8>::empty(),
    }) + children + spec_indent(d) + "}\n".spec_bytes()
}

/// One node rendered as Compose code at an indentation depth.
pub open spec fn spec_kotlin_node(n: DomNode, d: nat) -> Seq<u8>
    decreases n, 0int, 0int,
{
    let tag = string_bytes(n.tag);
    let children: Seq<u8> = match n.children {
        Some(c) => spec_kotlin_nodes(c@, 0, spec_bump(d)),
        None => Seq::<u8>::empty(),
    };
    let children_same: Seq<u8> = match n.children {
        Some(c) => spec_kotlin_nodes(c@, 0, d),
        None => Seq::<u8>::empty(),
    };
    let items: Seq<u8> = match n.children {
        Some(c) => spec_kotlin_items(c@, 0, d),
        None => Seq::<u8>::empty(),
    };
    if tag == "magnetic:head".spec_bytes() {
        Seq::<u8>::empty()
    } else if tag == "h1".spec_bytes() || tag == "h2".spec_bytes()
        || tag == "h3".spec_bytes() || tag == "h4".spec_bytes()
        || tag == "h5".spec_bytes() || tag == "h6".spec_bytes() {
        spec_kotlin_heading(n, d)
    } else if tag == "p".spec_bytes() || tag == "span".spec_bytes()
        || tag == "label".spec_bytes() {
        spec_kotlin_paragraph(n, d)
    } else if tag == "button".spec_bytes() {
        spec_kotlin_button(n, d)
    } else if tag == "input".spec_bytes() {
        spec_kotlin_input(n, d)
    } else if tag == "a".spec_bytes() {
        spec_kotlin_anchor(n, d)
    } else if tag == "form".spec_bytes() {
        spec_kotlin_form(n, d, children)
    } else if tag == "nav".spec_bytes() {
        spec_kotlin_nav(d, children)
    } else if tag == "ul".spec_bytes() || tag == "ol".spec_bytes() {
        spec_indent(d) + "LazyColumn {\n".spec_bytes() + items + spec_indent(d)
            + "}\n".spec_bytes()
    } else if tag == "li".spec_bytes() {
        children_same + (match n.text {
            Some(t) => spec_indent(d) + "Text(\"".spec_bytes()
                + spec_esc_kotlin(string_bytes(t)) + "\")\n".spec_bytes(),
            None => Seq::<u8>::empty(),
        })
    } else {
        spec_kotlin_container(n, d, children)
    }
}

/// A node sequence rendered as Compose code, from index `i` on.
pub open spec fn spec_kotlin_nodes(s: Seq<DomNode>, i: int, d: nat) -> Seq<u8>
    decreases s, s.len() - i, 0int,
{
    if i < 0 || i >= s.len() {
        Seq::<u8>::empty()
    } else {
        spec_kotlin_node(s[i], d) + spec_kotlin_nodes(s, i + 1, d)
    }
}

fn write_kotlin_children(c: &Vec<DomNode>, depth: usize, out: &mut Vec<u8>)
    ensures
        final(out)@ == old(out)@ + spec_kotlin_nodes(c@, 0, depth as nat),
    decreases *c, 0int, 0int,
{
    let mut i: usize = 0;
    let n = c.len();
    let ghost base = out@;
    #[verifier::loop_isolation(false)]
    while i < n
        invariant
            n == c@.len(),
            i <= n,
            out@ + spec_kotlin_nodes(c@, i as int, depth as nat)
                == base + spec_kotlin_nodes(c@, 0, depth as nat),
        decreases n - i,
    {
        let ghost pre = out@;
        write_kotlin_node(&c[i], out, depth);
        proof {
            assert(out@ + spec_kotlin_nodes(c@, i + 1, depth as nat)
                =~= pre + spec_kotlin_nodes(c@, i as int, depth as nat));
        }
        i = i + 1;
    }
    proof {
        assert(out@ =~= base + spec_kotlin_nodes(c@, 0, depth as nat));
    }
}

#[verifier::rlimit(100)]
#[verifier::spinoff_prover]
fn write_kotlin_items(c: &Vec<DomNode>, depth: usize, out: &mut Vec<u8>)
    ensures
        final(out)@ == old(out)@ + spec_kotlin_items(c@, 0, depth as nat),
    decreases *c, 0int, 0int,
{
    let d1 = next_depth(depth);
    let d2 = next_depth(d1);
    let mut i: usize = 0;
    let n = c.len();
    let ghost base = out@;
    #[verifier::loop_isolation(false)]
    while i < n
        invariant
            n == c@.len(),
            i <= n,
            d1 as nat == spec_bump(depth as nat),
            d2 as nat == spec_bump(spec_bump(depth as nat)),
            out@ + spec_kotlin_items(c@, i as int, depth as nat)
                == base + spec_kotlin_items(c@, 0, depth as nat),
        decreases n - i,
    {
        let ghost pre = out@;
        indent(out, d1);
        push_bytes(out, "item(key = \"".as_bytes());
        match &c[i].key {
            Some(k) => {
                push_bytes(out, k.as_str().as_bytes());
            },
            None => {
                push_u64(out, i as u64);
            },
        }
        push_bytes(out, "\") {\n".as_bytes());
        write_kotlin_node(&c[i], out, d2);
        indent(out, d1);
        push_bytes(out, "}\n".as_bytes());
        proof {
            assert(out@ + spec_kotlin_items(c@, i + 1, depth as nat)
                =~= pre + spec_kotlin_items(c@, i as int, depth as nat));
        }
        i = i + 1;
    }
    proof {
        assert(out@ =~= base + spec_kotlin_items(c@, 0, depth as nat));
    }
}

fn write_kotlin_heading(node: &DomNode, out: &mut Vec<u8>, depth: usize)
    ensures
        final(out)@ == old(out)@ + spec_kotlin_heading(*node, depth as nat),
{
    let tag = node.tag.as_str().as_bytes();
    let style: &str = if crate::parse::bytes_eq(tag, "h1".as_bytes()) {
        "headlineLarge"
    } else if crate::parse::bytes_eq(tag, "h2".as_bytes()) {
        "headlineMedium"
    } else if crate::parse::bytes_eq(tag, "h3".as_bytes()) {
        "headlineSmall"
    } else if crate::parse::bytes_eq(tag, "h4".as_bytes()) {
        "titleLarge"
    } else if crate::parse::bytes_eq(tag, "h5".as_bytes()) {
        "titleMedium"
    } else {
        "titleSmall"
    };
    match collect_text(node) {
        Some(text) => {
            indent(out, depth);
            push_bytes(out, "Text(\"".as_bytes());
            let e = escape_kotlin(text.as_slice());
            push_bytes(out, e.as_slice());
            push_bytes(out, "\", style = MaterialTheme.typography.".as_bytes());
            push_bytes(out, style.as_bytes());
            push_bytes(out, ")\n".as_bytes());
        },
        None => {},
    }
    proof {
        assert(out@ =~= old(out)@ + spec_kotlin_heading(*node, depth as nat));
    }
}

fn write_kotlin_button(node: &DomNode, out: &mut Vec<u8>, depth: usize)
    ensures
        final(out)@ == old(out)@ + spec_kotlin_button(*node, depth as nat),
{
    let d1 = next_depth(depth);
    indent(out, depth);
    push_bytes(out, "Button(onClick = { onAction(\"".as_bytes());
    match node.event("click") {
        Some(a) => {
            let ea = escape_kotlin(a.as_bytes());
            push_bytes(out, ea.as_slice());
        },
        None => {
            let ea = escape_kotlin("noop".as_bytes());
            push_bytes(out, ea.as_slice());
        },
    }
    push_bytes(out, "\") }) {\n".as_bytes());
    indent(out, d1);
    push_bytes(out, "Text(\"".as_bytes());
    let mut label: Vec<u8> = Vec::new();
    collect_text_inner(node, &mut label);
    let el = escape_kotlin(label.as_slice());
    push_bytes(out, el.as_slice());
    push_bytes(out, "\")\n".as_bytes());
    indent(out, depth);
    push_bytes(out, "}\n".as_bytes());
    proof {
        assert(out@ =~= old(out)@ + spec_kotlin_button(*node, depth as nat));
    }
}

#[verifier::rlimit(100)]
fn write_kotlin_input(node: &DomNode, out: &mut Vec<u8>, depth: usize)
    ensures
        final(out)@ == old(out)@ + spec_kotlin_input(*node, depth as nat),
{
    proof {
        reveal_strlit("");
        assert("".spec_bytes() =~= Seq::<u8>::empty());
    }
    let ghost d = depth as nat;
    let d1 = next_depth(depth);
    let name_b = attr_or(node, "name", "input");
    let ph = attr_or(node, "placeholder", "");
    let ghost namev = name_b@;
    let ghost mut acc: Seq<u8> = Seq::empty();
    indent(out, depth);
    push_bytes(out, "var ".as_bytes());
    push_bytes(out, name_b.as_slice());
    push_bytes(out, "Value by remember { mutableStateOf(\"\") }\n".as_bytes());
    indent(out, depth);
    push_bytes(out, "OutlinedTextField(\n".as_bytes());
    proof {
        acc = spec_indent(d) + "var ".spec_bytes() + namev
            + "Value by remember { mutableStateOf(\"\") }\n".spec_bytes() + spec_indent(d)
            + "OutlinedTextField(\n".spec_bytes();
        assert(out@ =~= old(out)@ + acc);
    }
    indent(out, d1);
    push_bytes(out, "value = ".as_bytes());
    push_bytes(out, name_b.as_slice());
    push_bytes(out, "Value,\n".as_bytes());
    indent(out, d1);
    push_bytes(out, "onValueChange = { ".as_bytes());
    push_bytes(out, name_b.as_slice());
    push_bytes(out, "Value = it".as_bytes());
    proof {
        acc = acc + spec_indent(spec_bump(d)) + "value = ".spec_bytes() + namev
            + "Value,\n".spec_bytes() + spec_indent(spec_bump(d))
            + "onValueChange = { ".spec_bytes() + namev + "Value = it".spec_bytes();
        assert(out@ =~= old(out)@ + acc);
    }
    match node.event("input") {
        Some(a) => {
            if a.as_bytes().len() > 0 {
                push_bytes(out, "; onAction(\"".as_bytes());
                let ea = escape_kotlin(a.as_bytes());
                push_bytes(out, ea.as_slice());
                push_bytes(out, "\")".as_bytes());
                proof {
                    acc = acc + ("; onAction(\"".spec_bytes()
                        + spec_esc_kotlin(a.spec_bytes()) + "\")".spec_bytes());
                    assert(out@ =~= old(out)@ + acc);
                }
            }
        },
        None => {},
    }
    push_bytes(out, " },\n".as_bytes());
    indent(out, d1);
    push_bytes(out, "placeholder = { Text(\"".as_bytes());
    let ep = escape_kotlin(ph.as_slice());
    push_bytes(out, ep.as_slice());
    push_bytes(out, "\") },\n".as_bytes());
    proof {
        acc = acc + " },\n".spec_bytes() + spec_indent(spec_bump(d))
            + "placeholder = { Text(\"".spec_bytes() + spec_esc_kotlin(ph@)
            + "\") },\n".spec_bytes();
        assert(out@ =~= old(out)@ + acc);
    }
    indent(out, d1);
    push_bytes(out, "modifier = Modifier.fillMaxWidth()\n".as_bytes());
    indent(out, depth);
    push_bytes(out, ")\n".as_bytes());
    proof {
        acc = acc + spec_indent(spec_bump(d))
            + "modifier = Modifier.fillMaxWidth()\n".spec_bytes() + spec_indent(d)
            + ")\n".spec_bytes();
        assert(out@ =~= old(out)@ + acc);
        assert(acc =~= spec_kotlin_input(*node, d));
    }
}

#[verifier::rlimit(100)]
fn write_kotlin_anchor(node: &DomNode, out: &mut Vec<u8>, depth: usize)
    ensures
        final(out)@ == old(out)@ + spec_kotlin_anchor(*node, depth as nat),
{
    let d1 = next_depth(depth);
    indent(out, depth);
    push_bytes(out, "TextButton(onClick = { onAction(\"".as_bytes());
    match node.event("click") {
        Some(a) => {
            let ea = escape_kotlin(a.as_bytes());
            push_bytes(out, ea.as_slice());
        },
        None => {
            proof {
                reveal_strlit("");
                assert("".spec_bytes() =~= Seq::<u8>::empty());
            }
            let href = attr_or(node, "href", "");
            let ea = escape_kotlin(href.as_slice());
            push_bytes(out, ea.as_slice());
        },
    }
    push_bytes(out, "\") }) {\n".as_bytes());
    indent(out, d1);
    push_bytes(out, "Text(\"".as_bytes());
    let mut label: Vec<u8> = Vec::new();
    collect_text_inner(node, &mut label);
    let el = escape_kotlin(label.as_slice());
    push_bytes(out, el.as_slice());
    push_bytes(out, "\")\n".as_bytes());
    indent(out, depth);
    push_bytes(out, "}\n".as_bytes());
    proof {
        assert(out@ =~= old(out)@ + spec_kotlin_anchor(*node, depth as nat));
    }
}

#[verifier::rlimit(100)]
fn write_kotlin_form(node: &DomNode, out: &mut Vec<u8>, depth: usize)
    ensures
        final(out)@ == old(out)@ + spec_kotlin_form(*node, depth as nat,
            match node.children {
                Some(c) => spec_kotlin_nodes(c@, 0, spec_bump(depth as nat)),
                None => Seq::<u8>::empty(),
            }),
    decreases *node, 1int, 0int,
{
    let d1 = next_depth(depth);
    indent(out, depth);
    push_bytes(out, "Column(\n".as_bytes());
    indent(out, d1);
    push_bytes(out, "modifier = Modifier.fillMaxWidth()\n".as_bytes());
    indent(out, depth);
    push_bytes(out, ") {\n".as_bytes());
    match &node.children {
        Some(c) => {
            write_kotlin_children(c, d1, out);
        },
        None => {},
    }
    indent(out, d1);
    push_bytes(out, "// Form submit: onAction(\"".as_bytes());
    match node.event("submit") {
        Some(a) => {
            let ea = escape_kotlin(a.as_bytes());
            push_bytes(out, ea.as_slice());
        },
        None => {
            let ea = escape_kotlin("submit".as_bytes());
            push_bytes(out, ea.as_slice());
        },
    }
    push_bytes(out, "\")\n".as_bytes());
    indent(out, depth);
    push_bytes(out, "}\n".as_bytes());
    proof {
        assert(out@ =~= old(out)@ + spec_kotlin_form(*node, depth as nat,
            match node.children {
                Some(c) => spec_kotlin_nodes(c@, 0, spec_bump(depth as nat)),
                None => Seq::<u8>::empty(),
            }));
    }
}

fn write_kotlin_nav(node: &DomNode, out: &mut Vec<u8>, depth: usize)
    ensures
        final(out)@ == old(out)@ + spec_kotlin_nav(depth as nat, match node.children {
            Some(c) => spec_kotlin_nodes(c@, 0, spec_bump(depth as nat)),
            None => Seq::<u8>::empty(),
        }),
    decreases *node, 1int, 0int,
{
    let d1 = next_depth(depth);
    indent(out, depth);
    push_bytes(out, "Row(\n".as_bytes());
    indent(out, d1);
    push_bytes(out, "horizontalArrangement = Arrangement.spacedBy(8.dp),\n".as_bytes());
    indent(out, d1);
    push_bytes(out, "modifier = Modifier.fillMaxWidth()\n".as_bytes());
    indent(out, depth);
    push_bytes(out, ") {\n".as_bytes());
    match &node.children {
        Some(c) => {
            write_kotlin_children(c, d1, out);
        },
        None => {},
    }
    indent(out, depth);
    push_bytes(out, "}\n".as_bytes());
    proof {
        assert(out@ =~= old(out)@ + spec_kotlin_nav(depth as nat, match node.children {
            Some(c) => spec_kotlin_nodes(c@, 0, spec_bump(depth as nat)),
            None => Seq::<u8>::empty(),
        }));
    }
}

#[verifier::rlimit(100)]
fn write_kotlin_container_open(node: &DomNode, out: &mut Vec<u8>, depth: usize)
    ensures
        final(out)@ == old(out)@ + spec_kotlin_container_open(*node, depth as nat),
{
    let ghost d = depth as nat;
    let d1 = next_depth(depth);
    let row = is_row_layout(node);
    let ghost mut acc: Seq<u8> = Seq::empty();
    indent(out, depth);
    proof {
        acc = spec_indent(d);
        assert(out@ =~= old(out)@ + acc);
    }
    if row {
        push_bytes(out, "Row(\n".as_bytes());
        indent(out, d1);
        push_bytes(out, "horizontalArrangement = Arrangement.spacedBy(8.dp),\n".as_bytes());
        indent(out, d1);
        push_bytes(out, "verticalAlignment = Alignment.CenterVertically,\n".as_bytes());
        proof {
            acc = acc + "Row(\n".spec_bytes() + (spec_indent(spec_bump(d))
                + "horizontalArrangement = Arrangement.spacedBy(8.dp),\n".spec_bytes()
                + spec_indent(spec_bump(d))
                + "verticalAlignment = Alignment.CenterVertically,\n".spec_bytes());
            assert(out@ =~= old(out)@ + acc);
        }
    } else {
        push_bytes(out, "Column(\n".as_bytes());
        indent(out, d1);
        push_bytes(out, "verticalArrangement = Arrangement.spacedBy(8.dp),\n".as_bytes());
        proof {
            acc = acc + "Column(\n".spec_bytes() + (spec_indent(spec_bump(d))
                + "verticalArrangement = Arrangement.spacedBy(8.dp),\n".spec_bytes());
            assert(out@ =~= old(out)@ + acc);
        }
    }
    indent(out, d1);
    push_bytes(out, "modifier = Modifier.fillMaxWidth()\n".as_bytes());
    indent(out, depth);
    push_bytes(out, ") {\n".as_bytes());
    proof {
        acc = acc + spec_indent(spec_bump(d))
            + "modifier = Modifier.fillMaxWidth()\n".spec_bytes() + spec_indent(d)
            + ") {\n".spec_bytes();
        assert(out@ =~= old(out)@ + acc);
        assert(acc == spec_kotlin_container_open(*node, d));
    }
}

#[verifier::rlimit(100)]
fn write_kotlin_container(node: &DomNode, out: &mut Vec<u8>, depth: usize)
    ensures
        final(out)@ == old(out)@ + spec_kotlin_container(*node, depth as nat,
            match node.children {
                Some(c) => spec_kotlin_nodes(c@, 0, spec_bump(depth as nat)),
                None => Seq::<u8>::empty(),
            }),
    decreases *node, 1int, 0int,
{
    let ghost d = depth as nat;
    let d1 = next_depth(depth);
    let ghost mut acc: Seq<u8> = Seq::empty();
    write_kotlin_container_open(node, out, depth);
    proof {
        acc = spec_kotlin_container_open(*node, d);
        assert(out@ =~= old(out)@ + acc);
    }
    match &node.text {
        Some(t) => {
            indent(out, d1);
            push_bytes(out, "Text(\"".as_bytes());
            let e = escape_kotlin(t.as_str().as_bytes());
            push_bytes(out, e.as_slice());
            push_bytes(out, "\")\n".as_bytes());
            proof {
                acc = acc + (spec_indent(spec_bump(d)) + "Text(\"".spec_bytes()
                    + spec_esc_kotlin(string_bytes(*t)) + "\")\n".spec_bytes());
                assert(out@ =~= old(out)@ + acc);
            }
        },
        None => {
            proof {
                acc = acc + Seq::<u8>::empty();
                assert(out@ =~= old(out)@ + acc);
            }
        },
    }
    match &node.children {
        Some(c) => {
            write_kotlin_children(c, d1, out);
            proof {
                acc = acc + spec_kotlin_nodes(c@, 0, spec_bump(d));
                assert(out@ =~= old(out)@ + acc);
            }
        },
        None => {
            proof {
                acc = acc + Seq::<u8>::empty();
                assert(out@ =~= old(out)@ + acc);
            }
        },
    }
    indent(out, depth);
    push_bytes(out, "}\n".as_bytes());
    proof {
        acc = acc + (spec_indent(d) + "}\n".spec_bytes());
        assert(out@ =~= old(out)@ + acc);
        assert(acc == spec_kotlin_container(*node, d, match node.children {
            Some(c) => spec_kotlin_nodes(c@, 0, spec_bump(d)),
            None => Seq::<u8>::empty(),
        }));
    }
}

/// Append one node's Compose code.
#[verifier::rlimit(100)]
#[verifier::spinoff_prover]
pub fn write_kotlin_node(node: &DomNode, out: &mut Vec<u8>, depth: usize)
    ensures
        final(out)@ == old(out)@ + spec_kotlin_node(*node, depth as nat),
    decreases *node, 2int, 0int,
{
    let tag = node.tag.as_str().as_bytes();
    if crate::parse::bytes_eq(tag, "magnetic:head".as_bytes()) {
        proof {
            assert(out@ =~= old(out)@ + spec_kotlin_node(*node, depth as nat));
        }
    } else if crate::parse::bytes_eq(tag, "h1".as_bytes())
        || crate::parse::bytes_eq(tag, "h2".as_bytes())
        || crate::parse::bytes_eq(tag, "h3".as_bytes())
        || crate::parse::bytes_eq(tag, "h4".as_bytes())
        || crate::parse::bytes_eq(tag, "h5".as_bytes())
        || crate::parse::bytes_eq(tag, "h6".as_bytes()) {
        write_kotlin_heading(node, out, depth);
    } else if crate::parse::bytes_eq(tag, "p".as_bytes())
        || crate::parse::bytes_eq(tag, "span".as_bytes())
        || crate::parse::bytes_eq(tag, "label".as_bytes()) {
        match collect_text(node) {
            Some(text) => {
                indent(out, depth);
                push_bytes(out, "Text(\"".as_bytes());
                let e = escape_kotlin(text.as_slice());
                push_bytes(out, e.as_slice());
                push_bytes(out, "\")\n".as_bytes());
            },
            None => {},
        }
        proof {
            assert(out@ =~= old(out)@ + spec_kotlin_paragraph(*node, depth as nat));
        }
    } else if crate::parse::bytes_eq(tag, "button".as_bytes()) {
        write_kotlin_button(node, out, depth);
    } else if crate::parse::bytes_eq(tag, "input".as_bytes()) {
        write_kotlin_input(node, out, depth);
    } else if crate::parse::bytes_eq(tag, "a".as_bytes()) {
        write_kotlin_anchor(node, out, depth);
    } else if crate::parse::bytes_eq(tag, "form".as_bytes()) {
        write_kotlin_form(node, out, depth);
    } else if crate::parse::bytes_eq(tag, "nav".as_bytes()) {
        write_kotlin_nav(node, out, depth);
    } else if crate::parse::bytes_eq(tag, "ul".as_bytes())
        || crate::parse::bytes_eq(tag, "ol".as_bytes()) {
        indent(out, depth);
        push_bytes(out, "LazyColumn {\n".as_bytes());
        match &node.children {
            Some(c) => {
                write_kotlin_items(c, depth, out);
            },
            None => {},
        }
        indent(out, depth);
        push_bytes(out, "}\n".as_bytes());
        proof {
            assert(out@ =~= old(out)@ + spec_kotlin_node(*node, depth as nat));
        }
    } else if crate::parse::bytes_eq(tag, "li".as_bytes()) {
        match &node.children {
            Some(c) => {
                write_kotlin_children(c, depth, out);
            },
            None => {},
        }
        match &node.text {
            Some(t) => {
                indent(out, depth);
                push_bytes(out, "Text(\"".as_bytes());
                let e = escape_kotlin(t.as_str().as_bytes());
                push_bytes(out, e.as_slice());
                push_bytes(out, "\")\n".as_bytes());
            },
            None => {},
        }
        proof {
            assert(out@ =~= old(out)@ + spec_kotlin_node(*node, depth as nat));
        }
    } else {
        write_kotlin_container(node, out, depth);
    }
}

/// The whole composable: package header, imports, the composable function
/// with its action callback, and the rendered body at depth one.
pub open spec fn spec_kotlin_view(n: DomNode, name: Seq<u8>) -> Seq<u8> {
    "package com.magnetic.app\n\n".spec_bytes()
        + "import androidx.compose.foundation.layout.*\n".spec_bytes()
        + "import androidx.compose.foundation.lazy.LazyColumn\n".spec_bytes()
        + "import androidx.compose.foundation.lazy.items\n".spec_bytes()
        + "import androidx.compose.material3.*\n".spec_bytes()
        + "import androidx.compose.runtime.*\n".spec_bytes()
        + "import androidx.compose.ui.Alignment\n".spec_bytes()
        + "import androidx.compose.ui.Modifier\n".spec_bytes()
        + "import androidx.compose.ui.unit.dp\n\n".spec_bytes()
        + "@Composable\nfun ".spec_bytes() + name
        + "(onAction: (String) -> Unit) {\n".spec_bytes() + spec_kotlin_node(n, 1)
        + "}\n".spec_bytes()
}

/// Render a node tree to a complete Compose composable.
pub fn render_to_kotlin(node: &DomNode, fn_name: &str) -> (r: Vec<u8>)
    ensures
        r@ == spec_kotlin_view(*node, fn_name.spec_bytes()),
{
    let mut out: Vec<u8> = Vec::new();
    push_bytes(&mut out, "package com.magnetic.app\n\n".as_bytes());
    push_bytes(&mut out, "import androidx.compose.foundation.layout.*\n".as_bytes());
    push_bytes(&mut out, "import androidx.compose.foundation.lazy.LazyColumn\n".as_bytes());
    push_bytes(&mut out, "import androidx.compose.foundation.lazy.items\n".as_bytes());
    push_bytes(&mut out, "import androidx.compose.material3.*\n".as_bytes());
    push_bytes(&mut out, "import androidx.compose.runtime.*\n".as_bytes());
    push_bytes(&mut out, "import androidx.compose.ui.Alignment\n".as_bytes());
    push_bytes(&mut out, "import androidx.compose.ui.Modifier\n".as_bytes());
    push_bytes(&mut out, "import androidx.compose.ui.unit.dp\n\n".as_bytes());
    push_bytes(&mut out, "@Composable\nfun ".as_bytes());
    push_bytes(&mut out, fn_name.as_bytes());
    push_bytes(&mut out, "(onAction: (String) -> Unit) {\n".as_bytes());
    write_kotlin_node(node, &mut out, 1);
    push_bytes(&mut out, "}\n".as_bytes());
    proof {
        assert(out@ =~= spec_kotlin_view(*node, fn_name.spec_bytes()));
    }
    out
}

} // verus!

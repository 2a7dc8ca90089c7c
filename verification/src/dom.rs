//! Snapshot and HTML writers for the reducer core: the application state is
//! rendered directly into a fixed buffer as the canonical `{"root":…}` JSON
//! wire form, or as HTML for server-side first paint.

use vstd::prelude::*;
use vstd::string::StringSliceAdditionalSpecFns;
use crate::buf::{Buf, buf_app, lemma_buf_app_assoc, lemma_buf_app_empty};
use crate::state::{AppState, Message};

verus! {

/// JSON string escaping: quote, backslash and newline are escaped, all other
/// bytes pass through.
pub open spec fn spec_json_esc(s: Seq<u8>) -> Seq<u8>
    decreases s.len(),
{
    if s.len() <= 0 {
        Seq::<u8>::empty()
    } else {
        let head: Seq<u8> = if s[0] == 34 {
            seq![92u8, 34u8]
        } else if s[0] == 92 {
            seq![92u8, 92u8]
        } else if s[0] == 10 {
            seq![92u8, 110u8]
        } else {
            seq![s[0]]
        };
        head + spec_json_esc(s.drop_first())
    }
}

/// HTML escaping: `<`, `>`, `&` and `"` become entities.
pub open spec fn spec_html_esc(s: Seq<u8>) -> Seq<u8>
    decreases s.len(),
{
    if s.len() <= 0 {
        Seq::<u8>::empty()
    } else {
        let head: Seq<u8> = if s[0] == 60 {
            "&lt;".spec_bytes()
        } else if s[0] == 62 {
            "&gt;".spec_bytes()
        } else if s[0] == 38 {
            "&amp;".spec_bytes()
        } else if s[0] == 34 {
            "&quot;".spec_bytes()
        } else {
            seq![s[0]]
        };
        head + spec_html_esc(s.drop_first())
    }
}

/// Decimal digits of `n`, most significant first; empty for zero.
pub open spec fn spec_dec(n: nat) -> Seq<u8>
    decreases n,
{
    if n == 0 {
        Seq::<u8>::empty()
    } else {
        spec_dec(n / 10) + seq![(48 + n % 10) as u8]
    }
}

/// Decimal representation of a signed 32-bit value.
pub open spec fn spec_i32_bytes(n: int) -> Seq<u8> {
    if n == 0 {
        seq![48u8]
    } else if n < 0 {
        seq![45u8] + spec_dec((-n) as nat)
    } else {
        spec_dec(n as nat)
    }
}

/// A JSON string literal: quotes around the escaped bytes.
pub open spec fn spec_str_lit(s: Seq<u8>) -> Seq<u8> {
    seq![34u8] + spec_json_esc(s) + seq![34u8]
}

/// `"key":"value"`, both escaped.
pub open spec fn spec_kv(k: Seq<u8>, v: Seq<u8>) -> Seq<u8> {
    spec_str_lit(k) + seq![58u8] + spec_str_lit(v)
}

/// The opening of a node object: tag and optional key.
pub open spec fn spec_open_tag(tag: Seq<u8>, key: Option<Seq<u8>>) -> Seq<u8> {
    "{\"tag\":".spec_bytes() + spec_str_lit(tag) + match key {
        Some(k) => ",\"key\":".spec_bytes() + spec_str_lit(k),
        None => Seq::<u8>::empty(),
    }
}

/// A complete single-attribute `attrs` object.
pub open spec fn spec_attrs_1(k: Seq<u8>, v: Seq<u8>) -> Seq<u8> {
    ",\"attrs\":{".spec_bytes() + spec_kv(k, v) + seq![125u8]
}

/// A complete single-event `events` object.
pub open spec fn spec_events_1(ev: Seq<u8>, action: Seq<u8>) -> Seq<u8> {
    ",\"events\":{".spec_bytes() + spec_kv(ev, action) + seq![125u8]
}

/// Append a decimal rendering of `n` (nothing for zero).
pub fn write_dec_u32(buf: &mut Buf, n: u32)
    requires
        old(buf).wf(),
    ensures
        final(buf).wf(),
        final(buf).bytes() == buf_app(old(buf).bytes(), spec_dec(n as nat)),
    decreases n,
{
    if n == 0 {
        proof {
            lemma_buf_app_empty(old(buf).bytes());
        }
        return;
    }
    write_dec_u32(buf, n / 10);
    buf.push(48 + (n % 10) as u8);
    proof {
        lemma_buf_app_assoc(
            old(buf).bytes(),
            spec_dec((n / 10) as nat),
            seq![(48 + (n as nat) % 10) as u8],
        );
    }
}

/// Append `n` in decimal.
pub fn write_i32(buf: &mut Buf, n: i32)
    requires
        old(buf).wf(),
        n > i32::MIN,
    ensures
        final(buf).wf(),
        final(buf).bytes() == buf_app(old(buf).bytes(), spec_i32_bytes(n as int)),
{
    if n == 0 {
        buf.push(48);
        return;
    }
    if n < 0 {
        buf.push(45);
        write_dec_u32(buf, (-n) as u32);
        proof {
            lemma_buf_app_assoc(
                old(buf).bytes(),
                seq![45u8],
                spec_dec((-(n as int)) as nat),
            );
        }
    } else {
        write_dec_u32(buf, n as u32);
    }
}

/// Append the JSON escaping of `s`.
pub fn write_escaped(buf: &mut Buf, s: &[u8])
    requires
        old(buf).wf(),
    ensures
        final(buf).wf(),
        final(buf).bytes() == buf_app(old(buf).bytes(), spec_json_esc(s@)),
{
    let ghost mut acc: Seq<u8> = Seq::empty();
    let mut i: usize = 0;
    proof {
        assert(s@.skip(0) =~= s@);
        assert(acc + spec_json_esc(s@) =~= spec_json_esc(s@));
        lemma_buf_app_empty(old(buf).bytes());
    }
    #[verifier::loop_isolation(false)]
    while i < s.len()
        invariant
            i <= s@.len(),
            buf.wf(),
            spec_json_esc(s@) == acc + spec_json_esc(s@.skip(i as int)),
            buf.bytes() == buf_app(old(buf).bytes(), acc),
        decreases s@.len() - i,
    {
        let ghost rest = s@.skip(i as int);
        let b = s[i];
        proof {
            assert(rest[0] == b);
            assert(rest.drop_first() =~= s@.skip(i + 1));
        }
        let ghost head: Seq<u8> = if b == 34 {
            seq![92u8, 34u8]
        } else if b == 92 {
            seq![92u8, 92u8]
        } else if b == 10 {
            seq![92u8, 110u8]
        } else {
            seq![b]
        };
        proof {
            assert(spec_json_esc(rest) == head + spec_json_esc(rest.drop_first()));
            assert(acc + spec_json_esc(rest)
                =~= (acc + head) + spec_json_esc(rest.drop_first()));
        }
        if b == 34 {
            buf.push(92);
            buf.push(34);
            proof {
                lemma_buf_app_assoc(old(buf).bytes(), acc, seq![92u8]);
                lemma_buf_app_assoc(old(buf).bytes(), acc + seq![92u8], seq![34u8]);
                assert((acc + seq![92u8]) + seq![34u8] =~= acc + head);
            }
        } else if b == 92 {
            buf.push(92);
            buf.push(92);
            proof {
                lemma_buf_app_assoc(old(buf).bytes(), acc, seq![92u8]);
                lemma_buf_app_assoc(old(buf).bytes(), acc + seq![92u8], seq![92u8]);
                assert((acc + seq![92u8]) + seq![92u8] =~= acc + head);
            }
        } else if b == 10 {
            buf.push(92);
            buf.push(110);
            proof {
                lemma_buf_app_assoc(old(buf).bytes(), acc, seq![92u8]);
                lemma_buf_app_assoc(old(buf).bytes(), acc + seq![92u8], seq![110u8]);
                assert((acc + seq![92u8]) + seq![110u8] =~= acc + head);
            }
        } else {
            buf.push(b);
            proof {
                lemma_buf_app_assoc(old(buf).bytes(), acc, seq![b]);
            }
        }
        proof {
            acc = acc + head;
        }
        i = i + 1;
    }
    proof {
        assert(s@.skip(s@.len() as int) =~= Seq::<u8>::empty());
        assert(acc + spec_json_esc(s@.skip(i as int)) =~= acc);
    }
}

/// Append the HTML escaping of `s`.
pub fn write_html_escaped(buf: &mut Buf, s: &[u8])
    requires
        old(buf).wf(),
    ensures
        final(buf).wf(),
        final(buf).bytes() == buf_app(old(buf).bytes(), spec_html_esc(s@)),
{
    let ghost mut acc: Seq<u8> = Seq::empty();
    let mut i: usize = 0;
    proof {
        assert(s@.skip(0) =~= s@);
        assert(acc + spec_html_esc(s@) =~= spec_html_esc(s@));
        lemma_buf_app_empty(old(buf).bytes());
    }
    #[verifier::loop_isolation(false)]
    while i < s.len()
        invariant
            i <= s@.len(),
            buf.wf(),
            spec_html_esc(s@) == acc + spec_html_esc(s@.skip(i as int)),
            buf.bytes() == buf_app(old(buf).bytes(), acc),
        decreases s@.len() - i,
    {
        let ghost rest = s@.skip(i as int);
        let b = s[i];
        proof {
            assert(rest[0] == b);
            assert(rest.drop_first() =~= s@.skip(i + 1));
        }
        let ghost head: Seq<u8> = if b == 60 {
            "&lt;".spec_bytes()
        } else if b == 62 {
            "&gt;".spec_bytes()
        } else if b == 38 {
            "&amp;".spec_bytes()
        } else if b == 34 {
            "&quot;".spec_bytes()
        } else {
            seq![b]
        };
        proof {
            assert(spec_html_esc(rest) == head + spec_html_esc(rest.drop_first()));
            assert(acc + spec_html_esc(rest)
                =~= (acc + head) + spec_html_esc(rest.drop_first()));
        }
        if b == 60 {
            buf.extend("&lt;".as_bytes());
        } else if b == 62 {
            buf.extend("&gt;".as_bytes());
        } else if b == 38 {
            buf.extend("&amp;".as_bytes());
        } else if b == 34 {
            buf.extend("&quot;".as_bytes());
        } else {
            buf.push(b);
        }
        proof {
            lemma_buf_app_assoc(old(buf).bytes(), acc, head);
            acc = acc + head;
        }
        i = i + 1;
    }
    proof {
        assert(s@.skip(s@.len() as int) =~= Seq::<u8>::empty());
        assert(acc + spec_html_esc(s@.skip(i as int)) =~= acc);
    }
}

/// Append a quoted, escaped JSON string.
pub fn write_str(buf: &mut Buf, s: &[u8])
    requires
        old(buf).wf(),
    ensures
        final(buf).wf(),
        final(buf).bytes() == buf_app(old(buf).bytes(), spec_str_lit(s@)),
{
    buf.push(34);
    write_escaped(buf, s);
    buf.push(34);
    proof {
        lemma_buf_app_assoc(old(buf).bytes(), seq![34u8], spec_json_esc(s@));
        lemma_buf_app_assoc(old(buf).bytes(), seq![34u8] + spec_json_esc(s@), seq![34u8]);
    }
}

/// Append the opening of a node object: `{"tag":"…"` and optionally
/// `,"key":"…"`.
pub fn open_tag(buf: &mut Buf, tag: &[u8], key: Option<&[u8]>)
    requires
        old(buf).wf(),
    ensures
        final(buf).wf(),
        final(buf).bytes() == buf_app(
            old(buf).bytes(),
            spec_open_tag(tag@, match key {
                Some(k) => Some(k@),
                None => None,
            }),
        ),
{
    buf.extend("{\"tag\":".as_bytes());
    write_str(buf, tag);
    proof {
        lemma_buf_app_assoc(old(buf).bytes(), "{\"tag\":".spec_bytes(), spec_str_lit(tag@));
    }
    if let Some(k) = key {
        buf.extend(",\"key\":".as_bytes());
        write_str(buf, k);
        proof {
            lemma_buf_app_assoc(
                old(buf).bytes(),
                "{\"tag\":".spec_bytes() + spec_str_lit(tag@),
                ",\"key\":".spec_bytes(),
            );
            lemma_buf_app_assoc(
                old(buf).bytes(),
                "{\"tag\":".spec_bytes() + spec_str_lit(tag@) + ",\"key\":".spec_bytes(),
                spec_str_lit(k@),
            );
        }
    } else {
        proof {
            lemma_buf_app_empty(buf.bytes());
            assert(("{\"tag\":".spec_bytes() + spec_str_lit(tag@)) + Seq::<u8>::empty()
                =~= "{\"tag\":".spec_bytes() + spec_str_lit(tag@));
        }
    }
}

/// Append `"key":"value"`.
pub fn write_kv(buf: &mut Buf, key: &[u8], val: &[u8])
    requires
        old(buf).wf(),
    ensures
        final(buf).wf(),
        final(buf).bytes() == buf_app(old(buf).bytes(), spec_kv(key@, val@)),
{
    write_str(buf, key);
    buf.push(58);
    write_str(buf, val);
    proof {
        lemma_buf_app_assoc(old(buf).bytes(), spec_str_lit(key@), seq![58u8]);
        lemma_buf_app_assoc(
            old(buf).bytes(),
            spec_str_lit(key@) + seq![58u8],
            spec_str_lit(val@),
        );
    }
}

/// Append a complete single-attribute `attrs` object.
pub fn write_attrs_1(buf: &mut Buf, key: &[u8], val: &[u8])
    requires
        old(buf).wf(),
    ensures
        final(buf).wf(),
        final(buf).bytes() == buf_app(old(buf).bytes(), spec_attrs_1(key@, val@)),
{
    buf.extend(",\"attrs\":{".as_bytes());
    write_kv(buf, key, val);
    buf.push(125);
    proof {
        lemma_buf_app_assoc(old(buf).bytes(), ",\"attrs\":{".spec_bytes(), spec_kv(key@, val@));
        lemma_buf_app_assoc(
            old(buf).bytes(),
            ",\"attrs\":{".spec_bytes() + spec_kv(key@, val@),
            seq![125u8],
        );
    }
}

/// Append a complete single-event `events` object.
pub fn write_events_1(buf: &mut Buf, ev: &[u8], action: &[u8])
    requires
        old(buf).wf(),
    ensures
        final(buf).wf(),
        final(buf).bytes() == buf_app(old(buf).bytes(), spec_events_1(ev@, action@)),
{
    buf.extend(",\"events\":{".as_bytes());
    write_kv(buf, ev, action);
    buf.push(125);
    proof {
        lemma_buf_app_assoc(old(buf).bytes(), ",\"events\":{".spec_bytes(), spec_kv(ev@, action@));
        lemma_buf_app_assoc(
            old(buf).bytes(),
            ",\"events\":{".spec_bytes() + spec_kv(ev@, action@),
            seq![125u8],
        );
    }
}

/// One message rendered as a `p.msg` node.
pub open spec fn spec_msg_json(m: Message) -> Seq<u8> {
    spec_open_tag("p".spec_bytes(), None)
        + spec_attrs_1("class".spec_bytes(), "msg".spec_bytes())
        + ",\"text\":\"".spec_bytes()
        + spec_json_esc(m.author@)
        + ": ".spec_bytes()
        + spec_json_esc(m.text@)
        + "\"}".spec_bytes()
}

/// The message list rendered as comma-separated nodes.
pub open spec fn spec_msgs_json(msgs: Seq<Message>) -> Seq<u8>
    decreases msgs.len(),
{
    if msgs.len() <= 0 {
        Seq::<u8>::empty()
    } else {
        spec_msgs_json(msgs.drop_last()) + (if msgs.len() > 1 {
            seq![44u8]
        } else {
            Seq::<u8>::empty()
        }) + spec_msg_json(msgs.last())
    }
}

/// The snapshot's opening: the root node, the counter heading, and the two
/// control buttons.
pub open spec fn spec_snap_head(count: int) -> Seq<u8> {
    "{\"root\":".spec_bytes()
        + spec_open_tag("div".spec_bytes(), None)
        + spec_attrs_1("class".spec_bytes(), "app".spec_bytes())
        + ",\"children\":[".spec_bytes()
        + spec_open_tag("h1".spec_bytes(), Some("title".spec_bytes()))
        + ",\"text\":\"Count: ".spec_bytes()
        + spec_i32_bytes(count)
        + "\"}".spec_bytes()
        + seq![44u8]
        + spec_open_tag("div".spec_bytes(), None)
        + spec_attrs_1("class".spec_bytes(), "controls".spec_bytes())
        + ",\"children\":[".spec_bytes()
        + spec_open_tag("button".spec_bytes(), None)
        + spec_events_1("click".spec_bytes(), "decrement".spec_bytes())
        + ",\"text\":\"-\"}".spec_bytes()
        + seq![44u8]
        + spec_open_tag("button".spec_bytes(), None)
        + spec_events_1("click".spec_bytes(), "increment".spec_bytes())
        + ",\"text\":\"+\"}".spec_bytes()
        + "]}".spec_bytes()
        + seq![44u8]
}

/// The messages container with its children.
pub open spec fn spec_msgs_section(msgs: Seq<Message>) -> Seq<u8> {
    spec_open_tag("div".spec_bytes(), Some("messages".spec_bytes()))
        + spec_attrs_1("class".spec_bytes(), "messages".spec_bytes())
        + ",\"children\":[".spec_bytes()
        + spec_msgs_json(msgs)
        + "]}".spec_bytes()
}

/// The send-message form with its input and submit button.
pub open spec fn spec_form_section() -> Seq<u8> {
    spec_open_tag("form".spec_bytes(), Some("msg-form".spec_bytes()))
        + spec_events_1("submit".spec_bytes(), "send_message".spec_bytes())
        + ",\"children\":[".spec_bytes()
        + spec_open_tag("input".spec_bytes(), Some("msg-input".spec_bytes()))
        + ",\"attrs\":{".spec_bytes()
        + spec_kv("type".spec_bytes(), "text".spec_bytes())
        + seq![44u8]
        + spec_kv("name".spec_bytes(), "text".spec_bytes())
        + seq![44u8]
        + spec_kv("placeholder".spec_bytes(), "Type a message...".spec_bytes())
        + seq![44u8]
        + spec_kv("autocomplete".spec_bytes(), "off".spec_bytes())
        + "}}".spec_bytes()
        + seq![44u8]
        + spec_open_tag("button".spec_bytes(), None)
        + spec_attrs_1("type".spec_bytes(), "submit".spec_bytes())
        + ",\"text\":\"Send\"}".spec_bytes()
        + "]}".spec_bytes()
}

/// The full snapshot JSON for a state: the counter header, the two control
/// buttons, the message list, and the send form, wrapped in `{"root":…}`.
pub open spec fn spec_snapshot_json(count: int, msgs: Seq<Message>) -> Seq<u8> {
    spec_snap_head(count) + spec_msgs_section(msgs) + seq![44u8] + spec_form_section()
        + "]}".spec_bytes() + seq![125u8]
}

fn write_snap_head(buf: &mut Buf, count: i32)
    requires
        old(buf).wf(),
        count > i32::MIN,
    ensures
        final(buf).wf(),
        final(buf).bytes() == buf_app(old(buf).bytes(), spec_snap_head(count as int)),
{
    let ghost base = old(buf).bytes();
    let ghost mut acc: Seq<u8> = Seq::empty();
    proof {
        lemma_buf_app_empty(base);
    }
    buf.extend("{\"root\":".as_bytes());
    proof {
        lemma_buf_app_assoc(base, acc, "{\"root\":".spec_bytes());
        acc = acc + "{\"root\":".spec_bytes();
        assert(Seq::<u8>::empty() + "{\"root\":".spec_bytes() =~= "{\"root\":".spec_bytes());
        assert(acc =~= "{\"root\":".spec_bytes());
    }
    open_tag(buf, "div".as_bytes(), None);
    proof {
        lemma_buf_app_assoc(base, acc, spec_open_tag("div".spec_bytes(), None));
        acc = acc + spec_open_tag("div".spec_bytes(), None);
    }
    write_attrs_1(buf, "class".as_bytes(), "app".as_bytes());
    proof {
        lemma_buf_app_assoc(base, acc, spec_attrs_1("class".spec_bytes(), "app".spec_bytes()));
        acc = acc + spec_attrs_1("class".spec_bytes(), "app".spec_bytes());
    }
    buf.extend(",\"children\":[".as_bytes());
    proof {
        lemma_buf_app_assoc(base, acc, ",\"children\":[".spec_bytes());
        acc = acc + ",\"children\":[".spec_bytes();
    }
    open_tag(buf, "h1".as_bytes(), Some("title".as_bytes()));
    proof {
        lemma_buf_app_assoc(base, acc, spec_open_tag("h1".spec_bytes(), Some("title".spec_bytes())));
        acc = acc + spec_open_tag("h1".spec_bytes(), Some("title".spec_bytes()));
    }
    buf.extend(",\"text\":\"Count: ".as_bytes());
    proof {
        lemma_buf_app_assoc(base, acc, ",\"text\":\"Count: ".spec_bytes());
        acc = acc + ",\"text\":\"Count: ".spec_bytes();
    }
    write_i32(buf, count);
    proof {
        lemma_buf_app_assoc(base, acc, spec_i32_bytes(count as int));
        acc = acc + spec_i32_bytes(count as int);
    }
    buf.extend("\"}".as_bytes());
    proof {
        lemma_buf_app_assoc(base, acc, "\"}".spec_bytes());
        acc = acc + "\"}".spec_bytes();
    }
    buf.push(44);
    proof {
        lemma_buf_app_assoc(base, acc, seq![44u8]);
        acc = acc + seq![44u8];
    }
    open_tag(buf, "div".as_bytes(), None);
    proof {
        lemma_buf_app_assoc(base, acc, spec_open_tag("div".spec_bytes(), None));
        acc = acc + spec_open_tag("div".spec_bytes(), None);
    }
    write_attrs_1(buf, "class".as_bytes(), "controls".as_bytes());
    proof {
        lemma_buf_app_assoc(base, acc, spec_attrs_1("class".spec_bytes(), "controls".spec_bytes()));
        acc = acc + spec_attrs_1("class".spec_bytes(), "controls".spec_bytes());
    }
    buf.extend(",\"children\":[".as_bytes());
    proof {
        lemma_buf_app_assoc(base, acc, ",\"children\":[".spec_bytes());
        acc = acc + ",\"children\":[".spec_bytes();
    }
    open_tag(buf, "button".as_bytes(), None);
    proof {
        lemma_buf_app_assoc(base, acc, spec_open_tag("button".spec_bytes(), None));
        acc = acc + spec_open_tag("button".spec_bytes(), None);
    }
    write_events_1(buf, "click".as_bytes(), "decrement".as_bytes());
    proof {
        lemma_buf_app_assoc(base, acc, spec_events_1("click".spec_bytes(), "decrement".spec_bytes()));
        acc = acc + spec_events_1("click".spec_bytes(), "decrement".spec_bytes());
    }
    buf.extend(",\"text\":\"-\"}".as_bytes());
    proof {
        lemma_buf_app_assoc(base, acc, ",\"text\":\"-\"}".spec_bytes());
        acc = acc + ",\"text\":\"-\"}".spec_bytes();
    }
    buf.push(44);
    proof {
        lemma_buf_app_assoc(base, acc, seq![44u8]);
        acc = acc + seq![44u8];
    }
    open_tag(buf, "button".as_bytes(), None);
    proof {
        lemma_buf_app_assoc(base, acc, spec_open_tag("button".spec_bytes(), None));
        acc = acc + spec_open_tag("button".spec_bytes(), None);
    }
    write_events_1(buf, "click".as_bytes(), "increment".as_bytes());
    proof {
        lemma_buf_app_assoc(base, acc, spec_events_1("click".spec_bytes(), "increment".spec_bytes()));
        acc = acc + spec_events_1("click".spec_bytes(), "increment".spec_bytes());
    }
    buf.extend(",\"text\":\"+\"}".as_bytes());
    proof {
        lemma_buf_app_assoc(base, acc, ",\"text\":\"+\"}".spec_bytes());
        acc = acc + ",\"text\":\"+\"}".spec_bytes();
    }
    buf.extend("]}".as_bytes());
    proof {
        lemma_buf_app_assoc(base, acc, "]}".spec_bytes());
        acc = acc + "]}".spec_bytes();
    }
    buf.push(44);
    proof {
        lemma_buf_app_assoc(base, acc, seq![44u8]);
        acc = acc + seq![44u8];
        assert(acc == spec_snap_head(count as int));
    }
}

fn write_msg_json(buf: &mut Buf, m: &Message)
    requires
        old(buf).wf(),
    ensures
        final(buf).wf(),
        final(buf).bytes() == buf_app(old(buf).bytes(), spec_msg_json(*m)),
{
    let ghost base = old(buf).bytes();
    let ghost mut acc: Seq<u8> = Seq::empty();
    proof {
        lemma_buf_app_empty(base);
    }
    open_tag(buf, "p".as_bytes(), None);
    proof {
        lemma_buf_app_assoc(base, acc, spec_open_tag("p".spec_bytes(), None));
        acc = acc + spec_open_tag("p".spec_bytes(), None);
        assert(Seq::<u8>::empty() + spec_open_tag("p".spec_bytes(), None)
            =~= spec_open_tag("p".spec_bytes(), None));
        assert(acc =~= spec_open_tag("p".spec_bytes(), None));
    }
    write_attrs_1(buf, "class".as_bytes(), "msg".as_bytes());
    proof {
        lemma_buf_app_assoc(base, acc, spec_attrs_1("class".spec_bytes(), "msg".spec_bytes()));
        acc = acc + spec_attrs_1("class".spec_bytes(), "msg".spec_bytes());
    }
    buf.extend(",\"text\":\"".as_bytes());
    proof {
        lemma_buf_app_assoc(base, acc, ",\"text\":\"".spec_bytes());
        acc = acc + ",\"text\":\"".spec_bytes();
    }
    write_escaped(buf, m.author_bytes().as_slice());
    proof {
        lemma_buf_app_assoc(base, acc, spec_json_esc(m.author@));
        acc = acc + spec_json_esc(m.author@);
    }
    buf.extend(": ".as_bytes());
    proof {
        lemma_buf_app_assoc(base, acc, ": ".spec_bytes());
        acc = acc + ": ".spec_bytes();
    }
    write_escaped(buf, m.text_bytes().as_slice());
    proof {
        lemma_buf_app_assoc(base, acc, spec_json_esc(m.text@));
        acc = acc + spec_json_esc(m.text@);
    }
    buf.extend("\"}".as_bytes());
    proof {
        lemma_buf_app_assoc(base, acc, "\"}".spec_bytes());
        acc = acc + "\"}".spec_bytes();
        assert(acc == spec_msg_json(*m));
    }
}

fn write_msgs_section(buf: &mut Buf, msgs: &Vec<Message>)
    requires
        old(buf).wf(),
    ensures
        final(buf).wf(),
        final(buf).bytes() == buf_app(old(buf).bytes(), spec_msgs_section(msgs@)),
{
    let ghost base = old(buf).bytes();
    let ghost mut acc: Seq<u8> = Seq::empty();
    proof {
        lemma_buf_app_empty(base);
    }
    open_tag(buf, "div".as_bytes(), Some("messages".as_bytes()));
    proof {
        lemma_buf_app_assoc(base, acc, spec_open_tag("div".spec_bytes(), Some("messages".spec_bytes())));
        acc = acc + spec_open_tag("div".spec_bytes(), Some("messages".spec_bytes()));
        assert(Seq::<u8>::empty() + spec_open_tag("div".spec_bytes(), Some("messages".spec_bytes()))
            =~= spec_open_tag("div".spec_bytes(), Some("messages".spec_bytes())));
        assert(acc =~= spec_open_tag("div".spec_bytes(), Some("messages".spec_bytes())));
    }
    write_attrs_1(buf, "class".as_bytes(), "messages".as_bytes());
    proof {
        lemma_buf_app_assoc(base, acc, spec_attrs_1("class".spec_bytes(), "messages".spec_bytes()));
        acc = acc + spec_attrs_1("class".spec_bytes(), "messages".spec_bytes());
    }
    buf.extend(",\"children\":[".as_bytes());
    proof {
        lemma_buf_app_assoc(base, acc, ",\"children\":[".spec_bytes());
        acc = acc + ",\"children\":[".spec_bytes();
    }
    let mut i: usize = 0;
    let n = msgs.len();
    proof {
        assert(msgs@.take(0) =~= Seq::<Message>::empty());
        assert(acc + spec_msgs_json(msgs@.take(0)) =~= acc);
    }
    #[verifier::loop_isolation(false)]
    while i < n
        invariant
            i <= n,
            n == msgs@.len(),
            buf.wf(),
            buf.bytes() == buf_app(base, acc + spec_msgs_json(msgs@.take(i as int))),
        decreases n - i,
    {
        let ghost before = acc + spec_msgs_json(msgs@.take(i as int));
        let ghost comma: Seq<u8> = if i > 0 { seq![44u8] } else { Seq::<u8>::empty() };
        if i > 0 {
            buf.push(44);
            proof {
                lemma_buf_app_assoc(base, before, seq![44u8]);
            }
        } else {
            proof {
                assert(before + comma =~= before);
            }
        }
        let m = &msgs[i];
        write_msg_json(buf, m);
        proof {
            lemma_buf_app_assoc(base, before + comma, spec_msg_json(msgs@[i as int]));
            let taken = msgs@.take(i + 1);
            assert(taken.drop_last() =~= msgs@.take(i as int));
            assert(taken.last() == msgs@[i as int]);
            assert(acc + spec_msgs_json(taken)
                =~= (before + comma) + spec_msg_json(msgs@[i as int]));
        }
        i = i + 1;
    }
    proof {
        assert(msgs@.take(n as int) =~= msgs@);
        acc = acc + spec_msgs_json(msgs@);
    }
    buf.extend("]}".as_bytes());
    proof {
        lemma_buf_app_assoc(base, acc, "]}".spec_bytes());
        acc = acc + "]}".spec_bytes();
        assert(acc == spec_msgs_section(msgs@));
    }
}

fn write_form_section(buf: &mut Buf)
    requires
        old(buf).wf(),
    ensures
        final(buf).wf(),
        final(buf).bytes() == buf_app(old(buf).bytes(), spec_form_section()),
{
    let ghost base = old(buf).bytes();
    let ghost mut acc: Seq<u8> = Seq::empty();
    proof {
        lemma_buf_app_empty(base);
    }
    open_tag(buf, "form".as_bytes(), Some("msg-form".as_bytes()));
    proof {
        lemma_buf_app_assoc(base, acc, spec_open_tag("form".spec_bytes(), Some("msg-form".spec_bytes())));
        acc = acc + spec_open_tag("form".spec_bytes(), Some("msg-form".spec_bytes()));
        assert(Seq::<u8>::empty() + spec_open_tag("form".spec_bytes(), Some("msg-form".spec_bytes()))
            =~= spec_open_tag("form".spec_bytes(), Some("msg-form".spec_bytes())));
        assert(acc =~= spec_open_tag("form".spec_bytes(), Some("msg-form".spec_bytes())));
    }
    write_events_1(buf, "submit".as_bytes(), "send_message".as_bytes());
    proof {
        lemma_buf_app_assoc(base, acc, spec_events_1("submit".spec_bytes(), "send_message".spec_bytes()));
        acc = acc + spec_events_1("submit".spec_bytes(), "send_message".spec_bytes());
    }
    buf.extend(",\"children\":[".as_bytes());
    proof {
        lemma_buf_app_assoc(base, acc, ",\"children\":[".spec_bytes());
        acc = acc + ",\"children\":[".spec_bytes();
    }
    open_tag(buf, "input".as_bytes(), Some("msg-input".as_bytes()));
    proof {
        lemma_buf_app_assoc(base, acc, spec_open_tag("input".spec_bytes(), Some("msg-input".spec_bytes())));
        acc = acc + spec_open_tag("input".spec_bytes(), Some("msg-input".spec_bytes()));
    }
    buf.extend(",\"attrs\":{".as_bytes());
    proof {
        lemma_buf_app_assoc(base, acc, ",\"attrs\":{".spec_bytes());
        acc = acc + ",\"attrs\":{".spec_bytes();
    }
    write_kv(buf, "type".as_bytes(), "text".as_bytes());
    proof {
        lemma_buf_app_assoc(base, acc, spec_kv("type".spec_bytes(), "text".spec_bytes()));
        acc = acc + spec_kv("type".spec_bytes(), "text".spec_bytes());
    }
    buf.push(44);
    proof {
        lemma_buf_app_assoc(base, acc, seq![44u8]);
        acc = acc + seq![44u8];
    }
    write_kv(buf, "name".as_bytes(), "text".as_bytes());
    proof {
        lemma_buf_app_assoc(base, acc, spec_kv("name".spec_bytes(), "text".spec_bytes()));
        acc = acc + spec_kv("name".spec_bytes(), "text".spec_bytes());
    }
    buf.push(44);
    proof {
        lemma_buf_app_assoc(base, acc, seq![44u8]);
        acc = acc + seq![44u8];
    }
    write_kv(buf, "placeholder".as_bytes(), "Type a message...".as_bytes());
    proof {
        lemma_buf_app_assoc(base, acc, spec_kv("placeholder".spec_bytes(), "Type a message...".spec_bytes()));
        acc = acc + spec_kv("placeholder".spec_bytes(), "Type a message...".spec_bytes());
    }
    buf.push(44);
    proof {
        lemma_buf_app_assoc(base, acc, seq![44u8]);
        acc = acc + seq![44u8];
    }
    write_kv(buf, "autocomplete".as_bytes(), "off".as_bytes());
    proof {
        lemma_buf_app_assoc(base, acc, spec_kv("autocomplete".spec_bytes(), "off".spec_bytes()));
        acc = acc + spec_kv("autocomplete".spec_bytes(), "off".spec_bytes());
    }
    buf.extend("}}".as_bytes());
    proof {
        lemma_buf_app_assoc(base, acc, "}}".spec_bytes());
        acc = acc + "}}".spec_bytes();
    }
    buf.push(44);
    proof {
        lemma_buf_app_assoc(base, acc, seq![44u8]);
        acc = acc + seq![44u8];
    }
    open_tag(buf, "button".as_bytes(), None);
    proof {
        lemma_buf_app_assoc(base, acc, spec_open_tag("button".spec_bytes(), None));
        acc = acc + spec_open_tag("button".spec_bytes(), None);
    }
    write_attrs_1(buf, "type".as_bytes(), "submit".as_bytes());
    proof {
        lemma_buf_app_assoc(base, acc, spec_attrs_1("type".spec_bytes(), "submit".spec_bytes()));
        acc = acc + spec_attrs_1("type".spec_bytes(), "submit".spec_bytes());
    }
    buf.extend(",\"text\":\"Send\"}".as_bytes());
    proof {
        lemma_buf_app_assoc(base, acc, ",\"text\":\"Send\"}".spec_bytes());
        acc = acc + ",\"text\":\"Send\"}".spec_bytes();
    }
    buf.extend("]}".as_bytes());
    proof {
        lemma_buf_app_assoc(base, acc, "]}".spec_bytes());
        acc = acc + "]}".spec_bytes();
        assert(acc == spec_form_section());
    }
}

/// Render the full DOM snapshot JSON directly into the buffer, truncated at
/// the buffer capacity.
pub fn render_snapshot(state: &AppState, buf: &mut Buf)
    requires
        old(buf).wf(),
        state.count > i32::MIN,
    ensures
        final(buf).wf(),
        final(buf).bytes() == buf_app(
            Seq::<u8>::empty(),
            spec_snapshot_json(state.count as int, state.messages@),
        ),
{
    buf.clear();
    let ghost mut acc: Seq<u8> = Seq::empty();
    write_snap_head(buf, state.count);
    proof {
        acc = spec_snap_head(state.count as int);
        assert(buf.bytes() == buf_app(Seq::<u8>::empty(), acc));
    }
    write_msgs_section(buf, &state.messages);
    proof {
        lemma_buf_app_assoc(Seq::<u8>::empty(), acc, spec_msgs_section(state.messages@));
        acc = acc + spec_msgs_section(state.messages@);
    }
    buf.push(44);
    proof {
        lemma_buf_app_assoc(Seq::<u8>::empty(), acc, seq![44u8]);
        acc = acc + seq![44u8];
    }
    write_form_section(buf);
    proof {
        lemma_buf_app_assoc(Seq::<u8>::empty(), acc, spec_form_section());
        acc = acc + spec_form_section();
    }
    buf.extend("]}".as_bytes());
    proof {
        lemma_buf_app_assoc(Seq::<u8>::empty(), acc, "]}".spec_bytes());
        acc = acc + "]}".spec_bytes();
    }
    buf.push(125);
    proof {
        lemma_buf_app_assoc(Seq::<u8>::empty(), acc, seq![125u8]);
        acc = acc + seq![125u8];
        assert(acc == spec_snapshot_json(state.count as int, state.messages@));
    }
}

/// One message rendered as an HTML paragraph.
pub open spec fn spec_msg_html(m: Message) -> Seq<u8> {
    "<p class=\"msg\">".spec_bytes()
        + spec_html_esc(m.author@)
        + ": ".spec_bytes()
        + spec_html_esc(m.text@)
        + "</p>".spec_bytes()
}

/// The message list rendered as HTML.
pub open spec fn spec_msgs_html(msgs: Seq<Message>) -> Seq<u8>
    decreases msgs.len(),
{
    if msgs.len() <= 0 {
        Seq::<u8>::empty()
    } else {
        spec_msgs_html(msgs.drop_last()) + spec_msg_html(msgs.last())
    }
}

/// The full SSR HTML for a state, with `data-a_*` attributes so that event
/// delegation works as soon as the client runtime loads.
pub open spec fn spec_html(count: int, msgs: Seq<Message>) -> Seq<u8> {
    "<div class=\"app\">".spec_bytes()
        + "<h1 data-key=\"title\">Count: ".spec_bytes()
        + spec_i32_bytes(count)
        + "</h1>".spec_bytes()
        + "<div class=\"controls\">".spec_bytes()
        + "<button data-a_click=\"decrement\">-</button>".spec_bytes()
        + "<button data-a_click=\"increment\">+</button>".spec_bytes()
        + "</div>".spec_bytes()
        + "<div class=\"messages\" data-key=\"messages\">".spec_bytes()
        + spec_msgs_html(msgs)
        + "</div>".spec_bytes()
        + "<form data-key=\"msg-form\" data-a_submit=\"send_message\">".spec_bytes()
        + "<input type=\"text\" name=\"text\" placeholder=\"Type a message...\" autocomplete=\"off\" data-key=\"msg-input\">".spec_bytes()
        + "<button type=\"submit\">Send</button>".spec_bytes()
        + "</form>".spec_bytes()
        + "</div>".spec_bytes()
}

/// Render the state as HTML for server-side first paint, truncated at the
/// buffer capacity.
#[verifier::rlimit(100)]
pub fn render_html(state: &AppState, buf: &mut Buf)
    requires
        old(buf).wf(),
        state.count > i32::MIN,
    ensures
        final(buf).wf(),
        final(buf).bytes() == buf_app(
            Seq::<u8>::empty(),
            spec_html(state.count as int, state.messages@),
        ),
{
    buf.clear();
    let ghost mut acc: Seq<u8> = Seq::empty();
    proof {
        lemma_buf_app_empty(Seq::<u8>::empty());
    }
    buf.extend("<div class=\"app\">".as_bytes());
    proof {
        lemma_buf_app_assoc(Seq::<u8>::empty(), acc, "<div class=\"app\">".spec_bytes());
        acc = acc + "<div class=\"app\">".spec_bytes();
        assert(acc =~= "<div class=\"app\">".spec_bytes());
        assert(acc == Seq::<u8>::empty() + "<div class=\"app\">".spec_bytes());
    }
    buf.extend("<h1 data-key=\"title\">Count: ".as_bytes());
    proof {
        lemma_buf_app_assoc(Seq::<u8>::empty(), acc, "<h1 data-key=\"title\">Count: ".spec_bytes());
        acc = acc + "<h1 data-key=\"title\">Count: ".spec_bytes();
    }
    write_i32(buf, state.count);
    proof {
        lemma_buf_app_assoc(Seq::<u8>::empty(), acc, spec_i32_bytes(state.count as int));
        acc = acc + spec_i32_bytes(state.count as int);
    }
    buf.extend("</h1>".as_bytes());
    proof {
        lemma_buf_app_assoc(Seq::<u8>::empty(), acc, "</h1>".spec_bytes());
        acc = acc + "</h1>".spec_bytes();
    }
    buf.extend("<div class=\"controls\">".as_bytes());
    proof {
        lemma_buf_app_assoc(Seq::<u8>::empty(), acc, "<div class=\"controls\">".spec_bytes());
        acc = acc + "<div class=\"controls\">".spec_bytes();
    }
    buf.extend("<button data-a_click=\"decrement\">-</button>".as_bytes());
    proof {
        lemma_buf_app_assoc(Seq::<u8>::empty(), acc, "<button data-a_click=\"decrement\">-</button>".spec_bytes());
        acc = acc + "<button data-a_click=\"decrement\">-</button>".spec_bytes();
    }
    buf.extend("<button data-a_click=\"increment\">+</button>".as_bytes());
    proof {
        lemma_buf_app_assoc(Seq::<u8>::empty(), acc, "<button data-a_click=\"increment\">+</button>".spec_bytes());
        acc = acc + "<button data-a_click=\"increment\">+</button>".spec_bytes();
    }
    buf.extend("</div>".as_bytes());
    proof {
        lemma_buf_app_assoc(Seq::<u8>::empty(), acc, "</div>".spec_bytes());
        acc = acc + "</div>".spec_bytes();
    }
    buf.extend("<div class=\"messages\" data-key=\"messages\">".as_bytes());
    proof {
        lemma_buf_app_assoc(Seq::<u8>::empty(), acc, "<div class=\"messages\" data-key=\"messages\">".spec_bytes());
        acc = acc + "<div class=\"messages\" data-key=\"messages\">".spec_bytes();
    }

    let mut i: usize = 0;
    let n = state.msg_count();
    proof {
        assert(state.messages@.take(0) =~= Seq::<Message>::empty());
        assert(acc + spec_msgs_html(state.messages@.take(0)) =~= acc);
    }
    #[verifier::loop_isolation(false)]
    while i < n
        invariant
            i <= n,
            n == state.messages@.len(),
            buf.wf(),
            buf.bytes() == buf_app(
                Seq::<u8>::empty(),
                acc + spec_msgs_html(state.messages@.take(i as int)),
            ),
        decreases n - i,
    {
        let ghost before = acc + spec_msgs_html(state.messages@.take(i as int));
        let m = state.msg_at(i);
        buf.extend("<p class=\"msg\">".as_bytes());
        proof {
            lemma_buf_app_assoc(Seq::<u8>::empty(), before, "<p class=\"msg\">".spec_bytes());
        }
        write_html_escaped(buf, m.author_bytes().as_slice());
        proof {
            lemma_buf_app_assoc(
                Seq::<u8>::empty(),
                before + "<p class=\"msg\">".spec_bytes(),
                spec_html_esc(m.author@),
            );
        }
        buf.extend(": ".as_bytes());
        proof {
            lemma_buf_app_assoc(
                Seq::<u8>::empty(),
                before + "<p class=\"msg\">".spec_bytes() + spec_html_esc(m.author@),
                ": ".spec_bytes(),
            );
        }
        write_html_escaped(buf, m.text_bytes().as_slice());
        proof {
            lemma_buf_app_assoc(
                Seq::<u8>::empty(),
                before + "<p class=\"msg\">".spec_bytes() + spec_html_esc(m.author@)
                    + ": ".spec_bytes(),
                spec_html_esc(m.text@),
            );
        }
        buf.extend("</p>".as_bytes());
        proof {
            lemma_buf_app_assoc(
                Seq::<u8>::empty(),
                before + "<p class=\"msg\">".spec_bytes() + spec_html_esc(m.author@)
                    + ": ".spec_bytes() + spec_html_esc(m.text@),
                "</p>".spec_bytes(),
            );
            let taken = state.messages@.take(i + 1);
            assert(taken.drop_last() =~= state.messages@.take(i as int));
            assert(taken.last() == state.messages@[i as int]);
            assert(acc + spec_msgs_html(taken)
                =~= before + "<p class=\"msg\">".spec_bytes() + spec_html_esc(m.author@)
                    + ": ".spec_bytes() + spec_html_esc(m.text@) + "</p>".spec_bytes());
        }
        i = i + 1;
    }
    proof {
        assert(state.messages@.take(n as int) =~= state.messages@);
        acc = acc + spec_msgs_html(state.messages@);
    }

    buf.extend("</div>".as_bytes());
    proof {
        lemma_buf_app_assoc(Seq::<u8>::empty(), acc, "</div>".spec_bytes());
        acc = acc + "</div>".spec_bytes();
    }
    buf.extend("<form data-key=\"msg-form\" data-a_submit=\"send_message\">".as_bytes());
    proof {
        lemma_buf_app_assoc(Seq::<u8>::empty(), acc, "<form data-key=\"msg-form\" data-a_submit=\"send_message\">".spec_bytes());
        acc = acc + "<form data-key=\"msg-form\" data-a_submit=\"send_message\">".spec_bytes();
    }
    buf.extend("<input type=\"text\" name=\"text\" placeholder=\"Type a message...\" autocomplete=\"off\" data-key=\"msg-input\">".as_bytes());
    proof {
        lemma_buf_app_assoc(Seq::<u8>::empty(), acc, "<input type=\"text\" name=\"text\" placeholder=\"Type a message...\" autocomplete=\"off\" data-key=\"msg-input\">".spec_bytes());
        acc = acc + "<input type=\"text\" name=\"text\" placeholder=\"Type a message...\" autocomplete=\"off\" data-key=\"msg-input\">".spec_bytes();
    }
    buf.extend("<button type=\"submit\">Send</button>".as_bytes());
    proof {
        lemma_buf_app_assoc(Seq::<u8>::empty(), acc, "<button type=\"submit\">Send</button>".spec_bytes());
        acc = acc + "<button type=\"submit\">Send</button>".spec_bytes();
    }
    buf.extend("</form>".as_bytes());
    proof {
        lemma_buf_app_assoc(Seq::<u8>::empty(), acc, "</form>".spec_bytes());
        acc = acc + "</form>".spec_bytes();
    }
    buf.extend("</div>".as_bytes());
    proof {
        lemma_buf_app_assoc(Seq::<u8>::empty(), acc, "</div>".spec_bytes());
        acc = acc + "</div>".spec_bytes();
        assert(acc == spec_html(state.count as int, state.messages@));
    }
}

/// Render the state to its JSON DOM snapshot.
pub fn render(state: &AppState, buf: &mut Buf)
    requires
        old(buf).wf(),
        state.count > i32::MIN,
    ensures
        final(buf).wf(),
        final(buf).bytes() == buf_app(
            Seq::<u8>::empty(),
            spec_snapshot_json(state.count as int, state.messages@),
        ),
{
    render_snapshot(state, buf);
}

/// Parse action bytes, apply the reducer, and render the new snapshot.
#[verifier::rlimit(50)]
pub fn process(state: &mut AppState, input: &[u8], buf: &mut Buf)
    requires
        old(state).wf(),
        i32::MIN < old(state).count < i32::MAX,
        old(buf).wf(),
    ensures
        final(state).wf(),
        final(buf).wf(),
        final(buf).bytes() == buf_app(
            Seq::<u8>::empty(),
            spec_snapshot_json(final(state).count as int, final(state).messages@),
        ),
        final(state).count > i32::MIN,
{
    let action = crate::parse::parse_action(input);
    crate::parse::reduce(state, action);
    render_snapshot(state, buf);
}

} // verus!

//! The stream plane: the event-stream frame parser with its reconnect
//! backoff, the bounded event buffer, the change coalescer, and the delta
//! message sent to subscribers when a buffered stream source has a target.

use vstd::prelude::*;
use vstd::string::StringSliceAdditionalSpecFns;
use crate::dom::spec_str_lit;
use crate::wire::{push_bytes, push_str_lit, push_u64, spec_u64_str};
use crate::parse::{spec_is_ws, spec_ws_len};

verus! {

/// Lowest reconnect hint a stream source may ask for, in milliseconds.
pub const RETRY_MIN_MS: u64 = 500;
/// Highest reconnect hint honored, in milliseconds; doubling backoff is also
/// capped here.
pub const RETRY_MAX_MS: u64 = 30000;
/// Backoff after the first stream disconnect, in milliseconds.
pub const BACKOFF_START_MS: u64 = 1000;

/// Whether `s` starts with `p`.
pub open spec fn spec_starts_with(s: Seq<u8>, p: Seq<u8>) -> bool {
    p.len() <= s.len() && s.take(p.len() as int) == p
}

/// The numeric value of an all-digit byte string, or `None`.
pub open spec fn spec_digits_value(s: Seq<u8>) -> Option<nat>
    decreases s.len(),
{
    if s.len() == 0 {
        None
    } else if s.len() == 1 {
        if 48 <= s[0] <= 57 {
            Some((s[0] - 48) as nat)
        } else {
            None
        }
    } else {
        match spec_digits_value(s.drop_last()) {
            Some(v) => if 48 <= s.last() <= 57 {
                Some(v * 10 + (s.last() - 48) as nat)
            } else {
                None
            },
            None => None,
        }
    }
}

/// Parse an all-digit byte string as a number; `None` on any other input or
/// when the value exceeds `u64::MAX`.
pub fn parse_u64(s: &[u8]) -> (r: Option<u64>)
    ensures
        match r {
            Some(v) => spec_digits_value(s@) == Some(v as nat),
            None => spec_digits_value(s@) is None
                || spec_digits_value(s@).unwrap() > u64::MAX,
        },
{
    if s.len() == 0 {
        return None;
    }
    let mut v: u64 = 0;
    let mut i: usize = 0;
    #[verifier::loop_isolation(false)]
    while i < s.len()
        invariant
            i <= s@.len(),
            s@.len() > 0,
            i > 0 ==> spec_digits_value(s@.take(i as int)) == Some(v as nat),
            i == 0 ==> v == 0,
        decreases s@.len() - i,
    {
        let b = s[i];
        if b < 48 || b > 57 {
            proof {
                lemma_digits_value_none(s@, i as int);
            }
            return None;
        }
        let d: u64 = (b - 48) as u64;
        if v > (u64::MAX - d) / 10 {
            proof {
                assert(s@.take(i + 1 as int).drop_last() =~= s@.take(i as int));
                assert(i > 0);
                assert(spec_digits_value(s@.take(i + 1 as int))
                    == Some((v * 10 + d) as nat));
                assert((v as nat) * 10 + d > u64::MAX) by (nonlinear_arith)
                    requires v > (u64::MAX - d) / 10, d <= 9,
                ;
                lemma_digits_value_lb(s@, i as int, (v * 10 + d) as nat);
            }
            return None;
        }
        v = v * 10 + d;
        proof {
            assert(s@.take(i + 1 as int).drop_last() =~= s@.take(i as int));
            if i == 0 {
                assert(s@.take(1int).len() == 1);
            }
        }
        i = i + 1;
    }
    proof {
        assert(s@.take(s@.len() as int) =~= s@);
    }
    Some(v)
}

/// A byte string with a non-digit at position `i` has no numeric value.
proof fn lemma_digits_value_none(s: Seq<u8>, i: int)
    requires
        0 <= i < s.len(),
        !(48 <= s[i] <= 57),
    ensures
        spec_digits_value(s) is None,
    decreases s.len(),
{
    if s.len() > 1 {
        if i == s.len() - 1 {
        } else {
            lemma_digits_value_none(s.drop_last(), i);
        }
    }
}

/// The value of the whole digit string, if any, is at least the value of
/// the prefix ending at position `i`.
proof fn lemma_digits_value_lb(s: Seq<u8>, i: int, w: nat)
    requires
        0 <= i < s.len(),
        spec_digits_value(s.take(i + 1)) == Some(w),
    ensures
        spec_digits_value(s) is None || spec_digits_value(s).unwrap() >= w,
    decreases s.len() - i,
{
    if i + 1 == s.len() {
        assert(s.take(i + 1) =~= s);
    } else {
        match spec_digits_value(s.take(i + 2)) {
            Some(w2) => {
                assert(s.take(i + 2).drop_last() =~= s.take(i + 1));
                assert(w2 >= w * 10);
                assert(w * 10 >= w) by (nonlinear_arith);
                lemma_digits_value_lb(s, i + 1, w2);
            },
            None => {
                lemma_digits_value_none_extends(s, i + 2);
            },
        }
    }
}

/// Once a prefix has no numeric value, the whole string has none.
proof fn lemma_digits_value_none_extends(s: Seq<u8>, k: int)
    requires
        1 <= k <= s.len(),
        spec_digits_value(s.take(k)) is None,
    ensures
        spec_digits_value(s) is None,
    decreases s.len() - k,
{
    if k == s.len() {
        assert(s.take(k) =~= s);
    } else {
        assert(s.take(k + 1).drop_last() =~= s.take(k));
        lemma_digits_value_none_extends(s, k + 1);
    }
}

/// Clamp a `retry:` hint to the honored range.
pub fn clamp_retry(ms: u64) -> (r: u64)
    ensures
        r == if ms < RETRY_MIN_MS {
            RETRY_MIN_MS
        } else if ms > RETRY_MAX_MS {
            RETRY_MAX_MS
        } else {
            ms
        },
        RETRY_MIN_MS <= r <= RETRY_MAX_MS,
{
    if ms < RETRY_MIN_MS {
        RETRY_MIN_MS
    } else if ms > RETRY_MAX_MS {
        RETRY_MAX_MS
    } else {
        ms
    }
}

/// Double a reconnect backoff, capped.
pub fn next_backoff(ms: u64) -> (r: u64)
    requires
        ms <= RETRY_MAX_MS,
    ensures
        r == if ms * 2 > RETRY_MAX_MS { RETRY_MAX_MS as int } else { ms * 2 },
        r <= RETRY_MAX_MS,
{
    if ms > RETRY_MAX_MS / 2 {
        RETRY_MAX_MS
    } else {
        ms * 2
    }
}

/// A dispatched stream frame: its payload and its event type.
pub struct SseEvent {
    pub data: Vec<u8>,
    pub event_type: Vec<u8>,
}

/// Incremental parser for `field:value` framed event streams: accumulates
/// `data:` lines, tracks the last event id for reconnection, honors `retry:`
/// hints, and dispatches one event per blank line.
pub struct SseParser {
    pub data_buf: Vec<u8>,
    pub event_type: Vec<u8>,
    pub last_event_id: Vec<u8>,
    pub retry_ms: u64,
}

impl SseParser {
    pub open spec fn wf(&self) -> bool {
        RETRY_MIN_MS <= self.retry_ms <= RETRY_MAX_MS
    }

    pub fn new() -> (p: SseParser)
        ensures
            p.wf(),
            p.data_buf@ =~= Seq::<u8>::empty(),
            p.event_type@ =~= Seq::<u8>::empty(),
            p.last_event_id@ =~= Seq::<u8>::empty(),
            p.retry_ms == BACKOFF_START_MS,
    {
        SseParser {
            data_buf: Vec::new(),
            event_type: Vec::new(),
            last_event_id: Vec::new(),
            retry_ms: BACKOFF_START_MS,
        }
    }

    /// Feed one line of the stream. A blank line dispatches the accumulated
    /// event unless it is a `lag` notification; `data:`, `id:`, `event:` and
    /// `retry:` lines update the parser; comment and unknown lines are
    /// ignored. The `retry:` hint is clamped to the honored range.
    pub fn feed_line(&mut self, line: &[u8]) -> (r: Option<SseEvent>)
        requires
            old(self).wf(),
        ensures
            final(self).wf(),
            line@.len() == 0 ==> {
                &&& final(self).data_buf@ =~= Seq::<u8>::empty()
                &&& final(self).event_type@ =~= Seq::<u8>::empty()
                &&& final(self).retry_ms == old(self).retry_ms
                &&& final(self).last_event_id == old(self).last_event_id
                &&& match r {
                    Some(ev) => old(self).data_buf@.len() > 0
                        && old(self).event_type@ != "lag".spec_bytes()
                        && ev.data@ == old(self).data_buf@
                        && ev.event_type@ == old(self).event_type@,
                    None => old(self).data_buf@.len() == 0
                        || old(self).event_type@ == "lag".spec_bytes(),
                }
            },
            line@.len() > 0 ==> r is None && {
                if spec_starts_with(line@, "data:".spec_bytes()) {
                    &&& final(self).data_buf@ == if old(self).data_buf@.len() > 0 {
                        old(self).data_buf@ + seq![10u8] + spec_field_value(
                            line@,
                            "data:".spec_bytes().len() as int,
                        )
                    } else {
                        spec_field_value(line@, "data:".spec_bytes().len() as int)
                    }
                    &&& final(self).event_type == old(self).event_type
                    &&& final(self).last_event_id == old(self).last_event_id
                    &&& final(self).retry_ms == old(self).retry_ms
                } else if spec_starts_with(line@, "id:".spec_bytes()) {
                    &&& final(self).last_event_id@ == spec_field_value(
                        line@,
                        "id:".spec_bytes().len() as int,
                    )
                    &&& final(self).data_buf == old(self).data_buf
                    &&& final(self).event_type == old(self).event_type
                    &&& final(self).retry_ms == old(self).retry_ms
                } else if spec_starts_with(line@, "event:".spec_bytes()) {
                    &&& final(self).event_type@ == spec_field_value(
                        line@,
                        "event:".spec_bytes().len() as int,
                    )
                    &&& final(self).data_buf == old(self).data_buf
                    &&& final(self).last_event_id == old(self).last_event_id
                    &&& final(self).retry_ms == old(self).retry_ms
                } else if line@[0] == 58 {
                    *final(self) == *old(self)
                } else if spec_starts_with(line@, "retry:".spec_bytes()) {
                    &&& final(self).data_buf == old(self).data_buf
                    &&& final(self).event_type == old(self).event_type
                    &&& final(self).last_event_id == old(self).last_event_id
                    &&& final(self).retry_ms as nat == match spec_retry_value(line@) {
                        Some(v) => if v < RETRY_MIN_MS as nat {
                            RETRY_MIN_MS as nat
                        } else if v > RETRY_MAX_MS as nat {
                            RETRY_MAX_MS as nat
                        } else {
                            v
                        },
                        None => old(self).retry_ms as nat,
                    }
                } else {
                    *final(self) == *old(self)
                }
            },
    {
        if line.len() == 0 {
            if self.data_buf.len() > 0
                && !crate::parse::bytes_eq(self.event_type.as_slice(), "lag".as_bytes()) {
                let mut data: Vec<u8> = Vec::new();
                let mut event_type: Vec<u8> = Vec::new();
                core::mem::swap(&mut data, &mut self.data_buf);
                core::mem::swap(&mut event_type, &mut self.event_type);
                return Some(SseEvent { data, event_type });
            }
            self.data_buf = Vec::new();
            self.event_type = Vec::new();
            return None;
        }
        let data_p: &[u8] = "data:".as_bytes();
        let id_p: &[u8] = "id:".as_bytes();
        let event_p: &[u8] = "event:".as_bytes();
        let retry_p: &[u8] = "retry:".as_bytes();
        if starts_with(line, data_p) {
            let rest = strip_field(line, data_p.len());
            if self.data_buf.len() > 0 {
                self.data_buf.push(10);
                push_bytes(&mut self.data_buf, rest.as_slice());
                proof {
                    assert(self.data_buf@ =~= old(self).data_buf@ + seq![10u8]
                        + spec_field_value(line@, "data:".spec_bytes().len() as int));
                }
            } else {
                push_bytes(&mut self.data_buf, rest.as_slice());
                proof {
                    assert(self.data_buf@
                        =~= spec_field_value(line@, "data:".spec_bytes().len() as int));
                }
            }
            None
        } else if starts_with(line, id_p) {
            let rest = strip_field(line, id_p.len());
            self.last_event_id = rest;
            None
        } else if starts_with(line, event_p) {
            let rest = strip_field(line, event_p.len());
            self.event_type = rest;
            None
        } else if line[0] == 58 {
            None
        } else if starts_with(line, retry_p) {
            let rest = trim_ws(&line[retry_p.len()..line.len()]);
            proof {
                assert(line@.subrange(retry_p@.len() as int, line@.len() as int)
                    =~= line@.skip(retry_p@.len() as int));
            }
            if let Some(ms) = parse_u64(rest.as_slice()) {
                self.retry_ms = clamp_retry(ms);
            } else {
                proof {
                    if spec_retry_value(line@) is Some {
                        assert(spec_retry_value(line@).unwrap() <= u64::MAX);
                    }
                }
            }
            None
        } else {
            None
        }
    }
}

/// The value of a prefixed field line: the bytes after the prefix, with one
/// optional leading space removed.
pub open spec fn spec_field_value(line: Seq<u8>, plen: int) -> Seq<u8> {
    let rest = line.skip(plen);
    if rest.len() > 0 && rest[0] == 32 {
        rest.skip(1)
    } else {
        rest
    }
}

/// The clamped-input value of a `retry:` line: the digits after the prefix,
/// trimmed of surrounding whitespace.
pub open spec fn spec_retry_value(line: Seq<u8>) -> Option<nat> {
    let t = spec_trim_ws(line.skip("retry:".spec_bytes().len() as int));
    match spec_digits_value(t) {
        Some(v) => if v <= u64::MAX { Some(v) } else { None },
        None => None,
    }
}

/// `s` with leading and trailing whitespace removed.
pub open spec fn spec_trim_ws(s: Seq<u8>) -> Seq<u8> {
    let a = spec_ws_len(s);
    let rest = s.skip(a);
    rest.take(rest.len() - spec_ws_len(rest.reverse()))
}

/// Whether the slice starts with the given prefix.
pub fn starts_with(s: &[u8], p: &[u8]) -> (r: bool)
    ensures
        r == spec_starts_with(s@, p@),
{
    if p.len() > s.len() {
        return false;
    }
    let head: &[u8] = &s[0..p.len()];
    proof {
        assert(head@ =~= s@.take(p@.len() as int));
    }
    crate::parse::bytes_eq(head, p)
}

/// The field value of a prefixed line: bytes after the prefix, minus one
/// optional leading space.
pub fn strip_field(line: &[u8], plen: usize) -> (r: Vec<u8>)
    requires
        plen <= line@.len(),
    ensures
        r@ == spec_field_value(line@, plen as int),
{
    let rest: &[u8] = &line[plen..line.len()];
    proof {
        assert(rest@ =~= line@.skip(plen as int));
    }
    if rest.len() > 0 && rest[0] == 32 {
        let v: &[u8] = &rest[1..rest.len()];
        proof {
            assert(v@ =~= rest@.skip(1));
        }
        crate::transport::slice_take(v, v.len())
    } else {
        crate::transport::slice_take(rest, rest.len())
    }
}

/// Remove leading and trailing whitespace.
pub fn trim_ws(s: &[u8]) -> (r: Vec<u8>)
    ensures
        r@ == spec_trim_ws(s@),
{
    let mut a: usize = 0;
    while a < s.len() && (s[a] == 32 || s[a] == 9 || s[a] == 10 || s[a] == 13)
        invariant
            a <= s@.len(),
            forall|j: int| 0 <= j < a ==> spec_is_ws(#[trigger] s@[j]),
        decreases s@.len() - a,
    {
        a = a + 1;
    }
    proof {
        crate::parse::lemma_ws_len(s@, a as int);
    }
    let mut b: usize = s.len();
    while b > a && (s[b - 1] == 32 || s[b - 1] == 9 || s[b - 1] == 10 || s[b - 1] == 13)
        invariant
            a <= b <= s@.len(),
            forall|j: int| b <= j < s@.len() ==> spec_is_ws(#[trigger] s@[j]),
        decreases b,
    {
        b = b - 1;
    }
    let ghost rest = s@.skip(a as int);
    proof {
        assert forall|j: int| 0 <= j < s@.len() - b
            implies spec_is_ws(#[trigger] rest.reverse()[j]) by {
            assert(rest.reverse()[j] == rest[rest.len() - 1 - j]);
            assert(rest[rest.len() - 1 - j] == s@[s@.len() - 1 - j]);
        }
        if b > a {
            assert(!spec_is_ws(rest.reverse()[s@.len() - b]));
        }
        crate::parse::lemma_ws_len(rest.reverse(), s@.len() - b);
    }
    let out: &[u8] = &s[a..b];
    proof {
        assert(out@ =~= spec_trim_ws(s@));
    }
    crate::transport::slice_take(out, out.len())
}

/// The last `cap` elements of `events`, in arrival order.
pub open spec fn spec_window(events: Seq<Seq<u8>>, cap: nat) -> Seq<Seq<u8>> {
    if events.len() <= cap {
        events
    } else {
        events.skip(events.len() - cap)
    }
}

/// Bounded buffer for a stream source: keeps the most recent `cap` events as
/// an ordered sequence, evicting the oldest first.
pub struct StreamBuffer {
    pub cap: usize,
    pub items: Vec<Vec<u8>>,
}

impl StreamBuffer {
    pub open spec fn wf(&self) -> bool {
        &&& self.cap >= 1
        &&& self.items@.len() <= self.cap
    }

    /// The buffered events, oldest first.
    pub open spec fn view_items(&self) -> Seq<Seq<u8>> {
        Seq::new(self.items@.len(), |i: int| self.items@[i]@)
    }

    pub fn new(cap: usize) -> (b: StreamBuffer)
        requires
            cap >= 1,
        ensures
            b.wf(),
            b.cap == cap,
            b.view_items() =~= Seq::<Seq<u8>>::empty(),
    {
        StreamBuffer { cap, items: Vec::new() }
    }

    /// Append one event, evicting the oldest when the buffer is full.
    pub fn push(&mut self, event: Vec<u8>)
        requires
            old(self).wf(),
        ensures
            final(self).wf(),
            final(self).cap == old(self).cap,
            final(self).view_items() == spec_window(
                old(self).view_items().push(event@),
                old(self).cap as nat,
            ),
    {
        if self.items.len() >= self.cap {
            self.items.remove(0);
        }
        self.items.push(event);
        proof {
            assert(self.view_items() =~= spec_window(
                old(self).view_items().push(event@),
                old(self).cap as nat,
            ));
        }
    }

    /// The number of buffered events.
    pub fn len(&self) -> (r: usize)
        ensures
            r == self.view_items().len(),
    {
        self.items.len()
    }
}

/// Applying a whole arrival sequence to an empty buffer, one push at a time.
pub open spec fn spec_buffer_after(events: Seq<Seq<u8>>, cap: nat) -> Seq<Seq<u8>>
    decreases events.len(),
{
    if events.len() == 0 {
        Seq::empty()
    } else {
        spec_window(spec_buffer_after(events.drop_last(), cap).push(events.last()), cap)
    }
}

/// After `k` events, a buffer of size `cap` holds exactly the last
/// `min(k, cap)` events in arrival order.
pub proof fn lemma_stream_buffer_window(events: Seq<Seq<u8>>, cap: nat)
    requires
        cap >= 1,
    ensures
        spec_buffer_after(events, cap) == spec_window(events, cap),
        spec_buffer_after(events, cap).len() == vstd::math::min(
            events.len() as int,
            cap as int,
        ),
    decreases events.len(),
{
    if events.len() > 0 {
        lemma_stream_buffer_window(events.drop_last(), cap);
        assert(spec_window(spec_window(events.drop_last(), cap).push(events.last()), cap)
            =~= spec_window(events, cap));
    }
}

/// The debounced change coalescer: at most one render is scheduled at a time;
/// a scheduled render runs no earlier than the debounce window after the
/// change that scheduled it, and reads the context version current when it
/// runs.
pub struct Coalescer {
    pub debounce_ms: u64,
    pub pending: bool,
    pub deadline: u64,
    pub version: u64,
}

impl Coalescer {
    pub fn new(debounce_ms: u64) -> (c: Coalescer)
        ensures
            c.debounce_ms == debounce_ms,
            !c.pending,
            c.version == 0,
    {
        Coalescer { debounce_ms, pending: false, deadline: 0, version: 0 }
    }

    /// Record an upstream change at time `now`. Returns true when a render
    /// must be scheduled; false when one is already pending and will pick up
    /// this change.
    pub fn note_change(&mut self, now: u64) -> (scheduled: bool)
        requires
            old(self).version < u64::MAX,
            now + old(self).debounce_ms <= u64::MAX,
        ensures
            final(self).debounce_ms == old(self).debounce_ms,
            final(self).version == old(self).version + 1,
            scheduled == !old(self).pending,
            final(self).pending,
            scheduled ==> final(self).deadline == now + old(self).debounce_ms,
            !scheduled ==> final(self).deadline == old(self).deadline,
    {
        self.version = self.version + 1;
        if self.pending {
            return false;
        }
        self.pending = true;
        self.deadline = now + self.debounce_ms;
        true
    }

    /// Try to run the scheduled render at time `now`. Returns the context
    /// version the render reads, or `None` when nothing is due yet. A render
    /// never runs before the deadline set by the change that scheduled it.
    pub fn flush(&mut self, now: u64) -> (r: Option<u64>)
        ensures
            final(self).debounce_ms == old(self).debounce_ms,
            final(self).version == old(self).version,
            final(self).deadline == old(self).deadline,
            r is Some <==> old(self).pending && now >= old(self).deadline,
            r is Some ==> r == Some(old(self).version) && !final(self).pending,
            r is None ==> final(self).pending == old(self).pending,
    {
        if self.pending && now >= self.deadline {
            self.pending = false;
            Some(self.version)
        } else {
            None
        }
    }
}

/// Two successive renders driven by stream changes are separated by at least
/// the debounce window, and a render never reads a context older than the
/// change that scheduled it: if a flush runs at `t1`, the next change is
/// noted at `t ≥ t1`, and a second flush runs at `t2`, then
/// `t2 ≥ t + debounce ≥ t1 + debounce`, and the second render's version is
/// the one after that change.
pub proof fn lemma_coalescer_debounce(
    c0: Coalescer,
    c1: Coalescer,
    c2: Coalescer,
    c3: Coalescer,
    t1: u64,
    t: u64,
    t2: u64,
    v1: u64,
    v2: u64,
)
    requires
        // first flush at t1 fired
        c0.pending && t1 >= c0.deadline,
        c1 == (Coalescer { pending: false, ..c0 }),
        // a change noted at t >= t1 schedules the next render
        t >= t1,
        c1.version < u64::MAX,
        t + c1.debounce_ms <= u64::MAX,
        c2 == (Coalescer {
            version: (c1.version + 1) as u64,
            pending: true,
            deadline: (t + c1.debounce_ms) as u64,
            ..c1
        }),
        // second flush at t2 fired
        c2.pending && t2 >= c2.deadline,
        c3 == (Coalescer { pending: false, ..c2 }),
        v1 == c0.version,
        v2 == c2.version,
    ensures
        t2 >= t1 + c0.debounce_ms,
        t2 >= t + c0.debounce_ms,
        v2 > v1 || v2 == v1 + 1,
{
}

/// Whether a stream event is additionally pushed as a delta, bypassing the
/// isolate: only for sources with a target and a positive buffer, and only
/// when a delta sink is registered.
pub fn should_emit_delta(has_sink: bool, has_target: bool, buffer: usize) -> (r: bool)
    ensures
        r == (has_sink && has_target && buffer > 0),
{
    has_sink && has_target && buffer > 0
}

/// The delta wire message `{"delta":true,"k":…,"max":…,"t":…,"v":…}` with the
/// raw event JSON embedded under `v` (fields in the serializer's sorted key
/// order).
pub open spec fn spec_delta_message(
    key: Seq<u8>,
    value_json: Seq<u8>,
    max: nat,
    target: Seq<u8>,
) -> Seq<u8> {
    "{\"delta\":true,\"k\":".spec_bytes()
        + spec_str_lit(key)
        + ",\"max\":".spec_bytes()
        + spec_u64_str(max)
        + ",\"t\":".spec_bytes()
        + spec_str_lit(target)
        + ",\"v\":".spec_bytes()
        + value_json
        + seq![125u8]
}

/// Build the delta message for one stream event.
pub fn delta_message(key: &[u8], value_json: &[u8], max: u64, target: &[u8]) -> (r: Vec<u8>)
    ensures
        r@ == spec_delta_message(key@, value_json@, max as nat, target@),
{
    let mut out: Vec<u8> = Vec::new();
    push_bytes(&mut out, "{\"delta\":true,\"k\":".as_bytes());
    push_str_lit(&mut out, key);
    push_bytes(&mut out, ",\"max\":".as_bytes());
    push_u64(&mut out, max);
    push_bytes(&mut out, ",\"t\":".as_bytes());
    push_str_lit(&mut out, target);
    push_bytes(&mut out, ",\"v\":".as_bytes());
    push_bytes(&mut out, value_json);
    out.push(125);
    proof {
        assert(out@ =~= spec_delta_message(key@, value_json@, max as nat, target@));
    }
    out
}

/// The comma-joined elements of a buffered source's array value, from
/// index `i` on.
pub open spec fn spec_buffer_array(items: Seq<Seq<u8>>, i: int) -> Seq<u8>
    decreases items.len() - i,
{
    if i < 0 || i >= items.len() {
        Seq::<u8>::empty()
    } else {
        (if i > 0 {
            seq![44u8]
        } else {
            Seq::<u8>::empty()
        }) + items[i] + spec_buffer_array(items, i + 1)
    }
}

/// The stored value of a buffered stream source: its events as a JSON
/// array, oldest first.
pub fn buffered_array_json(buf: &StreamBuffer) -> (r: Vec<u8>)
    ensures
        r@ == seq![91u8] + spec_buffer_array(buf.view_items(), 0) + seq![93u8],
{
    let mut out: Vec<u8> = Vec::new();
    out.push(91);
    let mut i: usize = 0;
    let n = buf.items.len();
    #[verifier::loop_isolation(false)]
    while i < n
        invariant
            n == buf.items@.len(),
            i <= n,
            out@ + spec_buffer_array(buf.view_items(), i as int)
                == seq![91u8] + spec_buffer_array(buf.view_items(), 0),
        decreases n - i,
    {
        let ghost pre = out@;
        if i > 0 {
            out.push(44);
        }
        push_bytes(&mut out, buf.items[i].as_slice());
        proof {
            assert(out@ + spec_buffer_array(buf.view_items(), i + 1)
                =~= pre + spec_buffer_array(buf.view_items(), i as int));
        }
        i = i + 1;
    }
    out.push(93);
    proof {
        assert(out@ =~= seq![91u8] + spec_buffer_array(buf.view_items(), 0) + seq![93u8]);
    }
    out
}

} // verus!

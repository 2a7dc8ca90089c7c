//! Minimal JSON action parser for the reducer core. Input has the shape
//! `{"action":"name","payload":{...}}`; no allocation beyond the extracted
//! fields, no full JSON compliance (a stated non-goal on the hot path).

use vstd::prelude::*;
use vstd::string::StringSliceAdditionalSpecFns;
use crate::state::AppState;

verus! {

/// Capacity of an extracted string in bytes; longer values are truncated.
pub const SMALL_CAP: usize = 256;

/// A supported client action.
pub enum Action {
    Increment,
    Decrement,
    SendMessage { text: Vec<u8> },
    Unknown,
}

/// Fixed-capacity extracted string.
pub struct SmallStr {
    pub data: Vec<u8>,
}

impl SmallStr {
    pub open spec fn bytes(&self) -> Seq<u8> {
        self.data@
    }

    pub open spec fn wf(&self) -> bool {
        self.data@.len() <= SMALL_CAP
    }

    pub fn empty() -> (s: SmallStr)
        ensures
            s.wf(),
            s.bytes() =~= Seq::<u8>::empty(),
    {
        SmallStr { data: Vec::new() }
    }

    /// Append one byte; dropped when the string is at capacity.
    pub fn push(&mut self, b: u8)
        requires
            old(self).wf(),
        ensures
            final(self).wf(),
            final(self).bytes() == old(self).bytes().push(b).take(
                vstd::math::min(old(self).bytes().len() + 1 as int, SMALL_CAP as int),
            ),
    {
        if self.data.len() < SMALL_CAP {
            self.data.push(b);
            proof {
                assert(self.bytes() =~= old(self).bytes().push(b).take(
                    old(self).bytes().len() + 1 as int,
                ));
            }
        } else {
            proof {
                assert(self.bytes() =~= old(self).bytes().push(b).take(SMALL_CAP as int));
            }
        }
    }

    pub fn as_bytes(&self) -> (r: &Vec<u8>)
        ensures
            r@ == self.bytes(),
    {
        &self.data
    }
}

/// Whether `b` is JSON whitespace.
pub open spec fn spec_is_ws(b: u8) -> bool {
    b == 32 || b == 9 || b == 10 || b == 13
}

/// Number of leading whitespace bytes of `s`.
pub open spec fn spec_ws_len(s: Seq<u8>) -> int
    decreases s.len(),
{
    if s.len() > 0 && spec_is_ws(s[0]) {
        1 + spec_ws_len(s.drop_first())
    } else {
        0
    }
}

pub proof fn lemma_ws_len(s: Seq<u8>, i: int)
    requires
        0 <= i <= s.len(),
        forall|j: int| 0 <= j < i ==> spec_is_ws(#[trigger] s[j]),
        i == s.len() || !spec_is_ws(s[i]),
    ensures
        spec_ws_len(s) == i,
    decreases i,
{
    if i > 0 {
        lemma_ws_len(s.drop_first(), i - 1);
    }
}

/// Index of the first occurrence of `needle` in `haystack`, if any.
pub open spec fn spec_find(haystack: Seq<u8>, needle: Seq<u8>) -> Option<int>
    decreases haystack.len(),
{
    if needle.len() > haystack.len() {
        None
    } else if haystack.take(needle.len() as int) == needle {
        Some(0int)
    } else if haystack.len() == 0 {
        None
    } else {
        match spec_find(haystack.drop_first(), needle) {
            Some(i) => Some(i + 1),
            None => None,
        }
    }
}

proof fn lemma_find_prefix(haystack: Seq<u8>, needle: Seq<u8>, i: int)
    requires
        0 <= i <= haystack.len(),
        i + needle.len() <= haystack.len() + 1,
        forall|j: int| 0 <= j < i
            ==> #[trigger] haystack.subrange(j, j + needle.len() as int) != needle,
    ensures
        spec_find(haystack, needle) == match spec_find(haystack.skip(i), needle) {
            Some(k) => Some(k + i),
            None => None::<int>,
        },
    decreases i,
{
    if i > 0 {
        let n = needle.len() as int;
        assert(haystack.subrange(0int, 0 + n) != needle);
        assert(haystack.take(n) =~= haystack.subrange(0int, 0 + n));
        assert forall|j: int| 0 <= j < i - 1
            implies #[trigger] haystack.drop_first().subrange(j, j + needle.len() as int)
                != needle by {
            assert(haystack.drop_first().subrange(j, j + n)
                =~= haystack.subrange(j + 1, j + 1 + n));
        }
        lemma_find_prefix(haystack.drop_first(), needle, i - 1);
        assert(haystack.drop_first().skip(i - 1) =~= haystack.skip(i));
    } else {
        assert(haystack.skip(0) =~= haystack);
    }
}

/// Compare `haystack[at .. at+needle.len()]` with `needle`.
fn slice_matches_at(haystack: &[u8], at: usize, needle: &[u8]) -> (r: bool)
    requires
        at + needle@.len() <= haystack@.len(),
    ensures
        r == (haystack@.subrange(at as int, at + needle@.len()) == needle@),
{
    let hlen: usize = haystack.len();
    let mut k: usize = 0;
    while k < needle.len()
        invariant
            at + needle@.len() <= haystack@.len(),
            haystack@.len() == hlen,
            k <= needle@.len(),
            forall|m: int| 0 <= m < k ==> haystack@[at + m] == needle@[m],
        decreases needle@.len() - k,
    {
        if haystack[at + k] != needle[k] {
            proof {
                assert(haystack@.subrange(at as int, at + needle@.len())[k as int]
                    != needle@[k as int]);
            }
            return false;
        }
        k = k + 1;
    }
    proof {
        assert(haystack@.subrange(at as int, at + needle@.len()) =~= needle@);
    }
    true
}

/// First index where `needle` occurs in `haystack`, scanning left to right.
pub fn find_subslice(haystack: &[u8], needle: &[u8]) -> (r: Option<usize>)
    ensures
        match r {
            Some(i) => Some(i as int) == spec_find(haystack@, needle@)
                && i + needle@.len() <= haystack@.len(),
            None => spec_find(haystack@, needle@) is None,
        },
{
    if needle.len() > haystack.len() {
        return None;
    }
    if needle.len() == 0 {
        proof {
            assert(haystack@.take(0) =~= needle@);
        }
        return Some(0);
    }
    let bound: usize = haystack.len() - needle.len();
    let mut i: usize = 0;
    while i <= bound
        invariant
            1 <= needle@.len() <= haystack@.len(),
            haystack@.len() <= usize::MAX,
            bound == haystack@.len() - needle@.len(),
            i <= bound + 1,
            forall|j: int| 0 <= j < i
                ==> #[trigger] haystack@.subrange(j, j + needle@.len() as int) != needle@,
        decreases bound + 1 - i,
    {
        if slice_matches_at(haystack, i, needle) {
            proof {
                lemma_find_prefix(haystack@, needle@, i as int);
                assert(haystack@.skip(i as int).take(needle@.len() as int)
                    =~= haystack@.subrange(i as int, i + needle@.len()));
                assert(spec_find(haystack@.skip(i as int), needle@) == Some(0int));
            }
            return Some(i);
        }
        i = i + 1;
    }
    proof {
        lemma_find_prefix(haystack@, needle@, i as int);
        assert(needle@.len() > haystack@.skip(i as int).len());
    }
    None
}

/// First index of byte `b` in `s`, if any.
pub open spec fn spec_find_byte(s: Seq<u8>, b: u8) -> Option<int>
    decreases s.len(),
{
    if s.len() <= 0 {
        None
    } else if s[0] == b {
        Some(0int)
    } else {
        match spec_find_byte(s.drop_first(), b) {
            Some(i) => Some(i + 1),
            None => None,
        }
    }
}

proof fn lemma_find_byte_prefix(s: Seq<u8>, b: u8, i: int)
    requires
        0 <= i <= s.len(),
        forall|j: int| 0 <= j < i ==> s[j] != b,
    ensures
        spec_find_byte(s, b) == match spec_find_byte(s.skip(i), b) {
            Some(k) => Some(k + i),
            None => None::<int>,
        },
    decreases i,
{
    if i > 0 {
        lemma_find_byte_prefix(s.drop_first(), b, i - 1);
        assert(s.drop_first().skip(i - 1) =~= s.skip(i));
    } else {
        assert(s.skip(0) =~= s);
    }
}

/// First index of byte `b` in `s`, scanning left to right.
pub fn find_byte(s: &[u8], b: u8) -> (r: Option<usize>)
    ensures
        match r {
            Some(i) => Some(i as int) == spec_find_byte(s@, b) && i < s@.len(),
            None => spec_find_byte(s@, b) is None,
        },
{
    let mut i: usize = 0;
    while i < s.len()
        invariant
            i <= s@.len(),
            forall|j: int| 0 <= j < i ==> s@[j] != b,
        decreases s@.len() - i,
    {
        if s[i] == b {
            proof {
                lemma_find_byte_prefix(s@, b, i as int);
                assert(s@.skip(i as int)[0] == b);
            }
            return Some(i);
        }
        i = i + 1;
    }
    proof {
        lemma_find_byte_prefix(s@, b, i as int);
    }
    None
}

/// Where the value starts after optional whitespace, a colon, and optional
/// whitespace; `None` when the colon is missing.
pub open spec fn spec_skip_ws_and_colon(s: Seq<u8>) -> Option<int> {
    let i = spec_ws_len(s);
    if i < s.len() && s[i] == 58 {
        Some(i + 1 + spec_ws_len(s.skip(i + 1)))
    } else {
        None
    }
}

/// Skip whitespace and one colon; returns the index where the value starts.
pub fn skip_ws_and_colon(s: &[u8]) -> (r: Option<usize>)
    ensures
        match r {
            Some(i) => Some(i as int) == spec_skip_ws_and_colon(s@) && i <= s@.len(),
            None => spec_skip_ws_and_colon(s@) is None,
        },
{
    let mut i: usize = 0;
    while i < s.len() && (s[i] == 32 || s[i] == 9 || s[i] == 10 || s[i] == 13)
        invariant
            i <= s@.len(),
            forall|j: int| 0 <= j < i ==> spec_is_ws(#[trigger] s@[j]),
        decreases s@.len() - i,
    {
        i = i + 1;
    }
    proof {
        lemma_ws_len(s@, i as int);
    }
    if i >= s.len() || s[i] != 58 {
        return None;
    }
    i = i + 1;
    let ghost colon_end = i as int;
    while i < s.len() && (s[i] == 32 || s[i] == 9 || s[i] == 10 || s[i] == 13)
        invariant
            colon_end <= i <= s@.len(),
            forall|j: int| colon_end <= j < i ==> spec_is_ws(#[trigger] s@[j]),
        decreases s@.len() - i,
    {
        i = i + 1;
    }
    proof {
        assert forall|j: int| 0 <= j < i - colon_end
            implies spec_is_ws(#[trigger] s@.skip(colon_end)[j]) by {
            assert(s@.skip(colon_end)[j] == s@[colon_end + j]);
        }
        lemma_ws_len(s@.skip(colon_end), i - colon_end);
    }
    Some(i)
}

/// Decode a quoted JSON string body: the bytes before the closing quote with
/// `\"`, `\\` and `\n` unescaped (any other escape is kept verbatim), and
/// whether a closing quote was found.
pub open spec fn spec_unquote(s: Seq<u8>) -> (Seq<u8>, bool)
    decreases s.len(),
{
    if s.len() <= 0 {
        (Seq::<u8>::empty(), false)
    } else if s[0] == 34 {
        (Seq::<u8>::empty(), true)
    } else if s[0] == 92 && s.len() >= 2 {
        let enc: Seq<u8> = if s[1] == 34 {
            seq![34u8]
        } else if s[1] == 92 {
            seq![92u8]
        } else if s[1] == 110 {
            seq![10u8]
        } else {
            seq![92u8, s[1]]
        };
        let r = spec_unquote(s.skip(2));
        (enc + r.0, r.1)
    } else {
        let r = spec_unquote(s.skip(1));
        (seq![s[0]] + r.0, r.1)
    }
}

/// Decode the body of a quoted JSON string into `out` (truncated at the
/// extracted-string capacity). Returns true when a closing quote was found.
pub fn extract_quoted_string(s: &[u8], out: &mut SmallStr) -> (r: bool)
    requires
        old(out).wf(),
        old(out).bytes().len() == 0,
    ensures
        final(out).wf(),
        r == spec_unquote(s@).1,
        final(out).bytes() == spec_unquote(s@).0.take(
            vstd::math::min(spec_unquote(s@).0.len() as int, SMALL_CAP as int),
        ),
{
    let ghost mut decoded: Seq<u8> = Seq::empty();
    let mut i: usize = 0;
    proof {
        assert(s@.skip(0) =~= s@);
        assert(decoded + spec_unquote(s@).0 =~= spec_unquote(s@).0);
        assert(out.bytes() =~= decoded.take(
            vstd::math::min(decoded.len() as int, SMALL_CAP as int),
        ));
    }
    #[verifier::loop_isolation(false)]
    while i < s.len()
        invariant
            i <= s@.len(),
            out.wf(),
            spec_unquote(s@).0 == decoded + spec_unquote(s@.skip(i as int)).0,
            spec_unquote(s@).1 == spec_unquote(s@.skip(i as int)).1,
            out.bytes() == decoded.take(
                vstd::math::min(decoded.len() as int, SMALL_CAP as int),
            ),
        decreases s@.len() - i,
    {
        let ghost rest = s@.skip(i as int);
        proof {
            assert(rest[0] == s@[i as int]);
        }
        if s[i] == 34 {
            proof {
                assert(spec_unquote(rest).0 =~= Seq::<u8>::empty());
                assert(decoded + spec_unquote(rest).0 =~= decoded);
            }
            return true;
        } else if s[i] == 92 && i + 1 < s.len() {
            proof {
                assert(rest[1] == s@[i + 1]);
                assert(rest.skip(2) =~= s@.skip(i + 2));
            }
            let c = s[i + 1];
            let ghost enc: Seq<u8> = if c == 34 {
                seq![34u8]
            } else if c == 92 {
                seq![92u8]
            } else if c == 110 {
                seq![10u8]
            } else {
                seq![92u8, c]
            };
            proof {
                assert(spec_unquote(rest).0 == enc + spec_unquote(rest.skip(2)).0);
                assert(decoded + spec_unquote(rest).0
                    =~= (decoded + enc) + spec_unquote(rest.skip(2)).0);
            }
            if c == 34 {
                out.push(34);
            } else if c == 92 {
                out.push(92);
            } else if c == 110 {
                out.push(10);
            } else {
                out.push(92);
                out.push(c);
            }
            proof {
                decoded = decoded + enc;
                assert(out.bytes() =~= decoded.take(
                    vstd::math::min(decoded.len() as int, SMALL_CAP as int),
                ));
            }
            i = i + 2;
        } else {
            let c = s[i];
            proof {
                assert(rest.skip(1) =~= s@.skip(i + 1));
                assert(spec_unquote(rest).0 == seq![c] + spec_unquote(rest.skip(1)).0);
                assert(decoded + spec_unquote(rest).0
                    =~= (decoded + seq![c]) + spec_unquote(rest.skip(1)).0);
            }
            out.push(c);
            proof {
                decoded = decoded + seq![c];
                assert(out.bytes() =~= decoded.take(
                    vstd::math::min(decoded.len() as int, SMALL_CAP as int),
                ));
            }
            i = i + 1;
        }
    }
    proof {
        assert(s@.skip(s@.len() as int) =~= Seq::<u8>::empty());
        assert(decoded + spec_unquote(s@.skip(i as int)).0 =~= decoded);
    }
    false
}

/// Decoded value of the string field named `key` (a quoted key such as
/// `"action"`): the decoded bytes and whether the field was found with a
/// properly terminated value.
pub open spec fn spec_string_field(json: Seq<u8>, key: Seq<u8>) -> (Seq<u8>, bool) {
    match spec_find(json, key) {
        None => (Seq::<u8>::empty(), false),
        Some(p) => {
            let after = json.skip(p + key.len());
            match spec_skip_ws_and_colon(after) {
                None => (Seq::<u8>::empty(), false),
                Some(k) => {
                    let rest = after.skip(k);
                    if rest.len() == 0 || rest[0] != 34 {
                        (Seq::<u8>::empty(), false)
                    } else {
                        spec_unquote(rest.skip(1))
                    }
                },
            }
        },
    }
}

/// Extract a JSON string field value into `out`. Returns true when the field
/// exists and its value is a properly terminated string.
pub fn extract_string_field(json: &[u8], key: &[u8], out: &mut SmallStr) -> (r: bool)
    requires
        old(out).wf(),
        old(out).bytes().len() == 0,
    ensures
        final(out).wf(),
        r == spec_string_field(json@, key@).1,
        final(out).bytes() == spec_string_field(json@, key@).0.take(
            vstd::math::min(spec_string_field(json@, key@).0.len() as int, SMALL_CAP as int),
        ),
{
    let jlen: usize = json.len();
    let pos = match find_subslice(json, key) {
        Some(p) => p,
        None => {
            return false;
        },
    };
    let after_key: usize = pos + key.len();
    let after: &[u8] = &json[after_key..json.len()];
    proof {
        assert(after@ =~= json@.skip(after_key as int));
    }
    let start = match skip_ws_and_colon(after) {
        Some(k) => k,
        None => {
            return false;
        },
    };
    if start >= after.len() || after[start] != 34 {
        proof {
            let rest = after@.skip(start as int);
            if start >= after@.len() {
                assert(rest.len() == 0);
            } else {
                assert(rest[0] == after@[start as int]);
            }
        }
        return false;
    }
    let rest: &[u8] = &after[start + 1..after.len()];
    proof {
        assert(after@.skip(start as int)[0] == after@[start as int]);
        assert(rest@ =~= after@.skip(start as int).skip(1));
    }
    extract_quoted_string(rest, out)
}

/// The action name carried by an action request, truncated at the
/// extracted-string capacity.
pub open spec fn spec_action_name(input: Seq<u8>) -> Seq<u8> {
    let f = spec_string_field(input, "\"action\"".spec_bytes());
    f.0.take(vstd::math::min(f.0.len() as int, SMALL_CAP as int))
}

/// The text carried by a send-message payload: the `"text"` field inside the
/// object that follows `"payload"`, truncated at the capacity.
pub open spec fn spec_send_text(input: Seq<u8>) -> Seq<u8> {
    match spec_find(input, "\"payload\"".spec_bytes()) {
        None => Seq::<u8>::empty(),
        Some(p) => {
            let rest = input.skip(p);
            match spec_find_byte(rest, 123) {
                None => Seq::<u8>::empty(),
                Some(bp) => {
                    let f = spec_string_field(rest.skip(bp), "\"text\"".spec_bytes());
                    f.0.take(vstd::math::min(f.0.len() as int, SMALL_CAP as int))
                },
            }
        },
    }
}

/// Parse an action request of the shape `{"action":"name","payload":{...}}`.
pub fn parse_action(input: &[u8]) -> (r: Action)
    ensures
        ({
            let found = spec_string_field(input@, "\"action\"".spec_bytes()).1;
            let name = spec_action_name(input@);
            if !found {
                r is Unknown
            } else if name == "increment".spec_bytes() {
                r is Increment
            } else if name == "decrement".spec_bytes() {
                r is Decrement
            } else if name == "send_message".spec_bytes() {
                r matches Action::SendMessage { text } && text@ == spec_send_text(input@)
            } else {
                r is Unknown
            }
        }),
{
    let mut name = SmallStr::empty();
    if !extract_string_field(input, "\"action\"".as_bytes(), &mut name) {
        return Action::Unknown;
    }
    if bytes_eq(name.as_bytes().as_slice(), "increment".as_bytes()) {
        Action::Increment
    } else if bytes_eq(name.as_bytes().as_slice(), "decrement".as_bytes()) {
        Action::Decrement
    } else if bytes_eq(name.as_bytes().as_slice(), "send_message".as_bytes()) {
        let mut text = SmallStr::empty();
        if let Some(pos) = find_subslice(input, "\"payload\"".as_bytes()) {
            let rest: &[u8] = &input[pos..input.len()];
            proof {
                assert(rest@ =~= input@.skip(pos as int));
            }
            if let Some(bp) = find_byte(rest, 123) {
                let inner: &[u8] = &rest[bp..rest.len()];
                proof {
                    assert(inner@ =~= rest@.skip(bp as int));
                }
                extract_string_field(inner, "\"text\"".as_bytes(), &mut text);
            }
        }
        let text_vec = crate::transport::slice_take(
            text.as_bytes().as_slice(),
            text.as_bytes().len(),
        );
        proof {
            assert(text.bytes().take(text.bytes().len() as int) =~= text.bytes());
        }
        Action::SendMessage { text: text_vec }
    } else {
        Action::Unknown
    }
}

/// Byte-for-byte equality of two slices.
pub fn bytes_eq(a: &[u8], b: &[u8]) -> (r: bool)
    ensures
        r == (a@ == b@),
{
    if a.len() != b.len() {
        proof {
            assert(a@ != b@);
        }
        return false;
    }
    let mut i: usize = 0;
    while i < a.len()
        invariant
            a@.len() == b@.len(),
            i <= a@.len(),
            forall|j: int| 0 <= j < i ==> a@[j] == b@[j],
        decreases a@.len() - i,
    {
        if a[i] != b[i] {
            return false;
        }
        i = i + 1;
    }
    proof {
        assert(a@ =~= b@);
    }
    true
}

/// Apply an action to the state: increment, clamped decrement, or appending a
/// user message; unknown actions change nothing.
pub fn reduce(state: &mut AppState, action: Action)
    requires
        old(state).wf(),
        old(state).count < i32::MAX,
    ensures
        final(state).wf(),
        match action {
            Action::Increment => final(state).count == old(state).count + 1
                && final(state).messages == old(state).messages,
            Action::Decrement => final(state).count == if old(state).count > 0 {
                (old(state).count - 1) as i32
            } else {
                old(state).count
            } && final(state).messages == old(state).messages,
            Action::SendMessage { .. } => final(state).count == old(state).count,
            Action::Unknown => *final(state) == *old(state),
        },
        (action matches Action::SendMessage { text } ==> {
            let grown = old(state).messages@.push(final(state).messages@.last());
            &&& final(state).messages@.last().author@ == "user".spec_bytes()
            &&& final(state).messages@.last().text@ == text@
            &&& final(state).messages@ == if grown.len() > crate::state::MAX_MESSAGES {
                grown.drop_first()
            } else {
                grown
            }
        }),
{
    match action {
        Action::Increment => {
            state.count = state.count + 1;
        },
        Action::Decrement => {
            if state.count > 0 {
                state.count = state.count - 1;
            }
        },
        Action::SendMessage { text } => {
            state.push_message("user".as_bytes(), text.as_slice());
        },
        Action::Unknown => {},
    }
}

/// Decode the body of a quoted JSON string into a vector, without any
/// capacity cap. Returns true when a closing quote was found.
pub fn extract_quoted_string_vec(s: &[u8], out: &mut Vec<u8>) -> (r: bool)
    requires
        old(out)@.len() == 0,
    ensures
        r == spec_unquote(s@).1,
        final(out)@ == spec_unquote(s@).0,
{
    let ghost mut decoded: Seq<u8> = Seq::empty();
    let mut i: usize = 0;
    proof {
        assert(s@.skip(0) =~= s@);
        assert(decoded + spec_unquote(s@).0 =~= spec_unquote(s@).0);
        assert(out@ =~= decoded);
    }
    #[verifier::loop_isolation(false)]
    while i < s.len()
        invariant
            i <= s@.len(),
            spec_unquote(s@).0 == decoded + spec_unquote(s@.skip(i as int)).0,
            spec_unquote(s@).1 == spec_unquote(s@.skip(i as int)).1,
            out@ == decoded,
        decreases s@.len() - i,
    {
        let ghost rest = s@.skip(i as int);
        proof {
            assert(rest[0] == s@[i as int]);
        }
        if s[i] == 34 {
            proof {
                assert(spec_unquote(rest).0 =~= Seq::<u8>::empty());
                assert(decoded + spec_unquote(rest).0 =~= decoded);
            }
            return true;
        } else if s[i] == 92 && i + 1 < s.len() {
            proof {
                assert(rest[1] == s@[i + 1]);
                assert(rest.skip(2) =~= s@.skip(i + 2));
            }
            let c = s[i + 1];
            let ghost enc: Seq<u8> = if c == 34 {
                seq![34u8]
            } else if c == 92 {
                seq![92u8]
            } else if c == 110 {
                seq![10u8]
            } else {
                seq![92u8, c]
            };
            proof {
                assert(spec_unquote(rest).0 == enc + spec_unquote(rest.skip(2)).0);
                assert(decoded + spec_unquote(rest).0
                    =~= (decoded + enc) + spec_unquote(rest.skip(2)).0);
            }
            if c == 34 {
                out.push(34);
            } else if c == 92 {
                out.push(92);
            } else if c == 110 {
                out.push(10);
            } else {
                out.push(92);
                out.push(c);
            }
            proof {
                decoded = decoded + enc;
                assert(out@ =~= decoded);
            }
            i = i + 2;
        } else {
            let c = s[i];
            proof {
                assert(rest.skip(1) =~= s@.skip(i + 1));
                assert(spec_unquote(rest).0 == seq![c] + spec_unquote(rest.skip(1)).0);
                assert(decoded + spec_unquote(rest).0
                    =~= (decoded + seq![c]) + spec_unquote(rest.skip(1)).0);
            }
            out.push(c);
            proof {
                decoded = decoded + seq![c];
                assert(out@ =~= decoded);
            }
            i = i + 1;
        }
    }
    proof {
        assert(s@.skip(s@.len() as int) =~= Seq::<u8>::empty());
        assert(decoded + spec_unquote(s@.skip(i as int)).0 =~= decoded);
    }
    false
}

/// Extract a JSON string field value into a vector, without any capacity
/// cap. Returns true when the field exists and its value is a properly
/// terminated string.
pub fn extract_string_field_vec(json: &[u8], key: &[u8], out: &mut Vec<u8>) -> (r: bool)
    requires
        old(out)@.len() == 0,
    ensures
        r == spec_string_field(json@, key@).1,
        final(out)@ == spec_string_field(json@, key@).0,
{
    let jlen: usize = json.len();
    let pos = match find_subslice(json, key) {
        Some(p) => p,
        None => {
            return false;
        },
    };
    let after_key: usize = pos + key.len();
    let after: &[u8] = &json[after_key..json.len()];
    proof {
        assert(after@ =~= json@.skip(after_key as int));
    }
    let start = match skip_ws_and_colon(after) {
        Some(k) => k,
        None => {
            return false;
        },
    };
    if start >= after.len() || after[start] != 34 {
        proof {
            let rest = after@.skip(start as int);
            if start >= after@.len() {
                assert(rest.len() == 0);
            } else {
                assert(rest[0] == after@[start as int]);
            }
        }
        return false;
    }
    let rest: &[u8] = &after[start + 1..after.len()];
    proof {
        assert(after@.skip(start as int)[0] == after@[start as int]);
        assert(rest@ =~= after@.skip(start as int).skip(1));
    }
    extract_quoted_string_vec(rest, out)
}

/// Number of leading decimal digits of `s`.
pub open spec fn spec_digit_run(s: Seq<u8>) -> int
    decreases s.len(),
{
    if s.len() > 0 && 48 <= s[0] <= 57 {
        1 + spec_digit_run(s.drop_first())
    } else {
        0
    }
}

pub proof fn lemma_digit_run(s: Seq<u8>, i: int)
    requires
        0 <= i <= s.len(),
        forall|j: int| 0 <= j < i ==> 48 <= #[trigger] s[j] <= 57,
        i == s.len() || !(48 <= s[i] <= 57),
    ensures
        spec_digit_run(s) == i,
    decreases i,
{
    if i > 0 {
        lemma_digit_run(s.drop_first(), i - 1);
    }
}

/// The numeric value of the unsigned integer field named `key`: the leading
/// digit run after the colon, or `None` when missing, not a digit, or too
/// large for 64 bits.
pub open spec fn spec_u64_field(json: Seq<u8>, key: Seq<u8>) -> Option<nat> {
    match spec_find(json, key) {
        None => None,
        Some(p) => {
            let after = json.skip(p + key.len());
            match spec_skip_ws_and_colon(after) {
                None => None,
                Some(k) => {
                    let rest = after.skip(k);
                    let run = spec_digit_run(rest);
                    if run == 0 {
                        None
                    } else {
                        match crate::stream::spec_digits_value(rest.take(run)) {
                            Some(v) => if v <= u64::MAX {
                                Some(v)
                            } else {
                                None
                            },
                            None => None,
                        }
                    }
                },
            }
        },
    }
}

/// Extract an unsigned integer field.
pub fn extract_u64_field(json: &[u8], key: &[u8]) -> (r: Option<u64>)
    ensures
        match r {
            Some(v) => spec_u64_field(json@, key@) == Some(v as nat),
            None => spec_u64_field(json@, key@) is None,
        },
{
    let jlen: usize = json.len();
    let pos = match find_subslice(json, key) {
        Some(p) => p,
        None => {
            return None;
        },
    };
    let after_key: usize = pos + key.len();
    let after: &[u8] = &json[after_key..json.len()];
    proof {
        assert(after@ =~= json@.skip(after_key as int));
    }
    let start = match skip_ws_and_colon(after) {
        Some(k) => k,
        None => {
            return None;
        },
    };
    let rest: &[u8] = &after[start..after.len()];
    proof {
        assert(rest@ =~= after@.skip(start as int));
    }
    let mut run: usize = 0;
    while run < rest.len() && 48 <= rest[run] && rest[run] <= 57
        invariant
            run <= rest@.len(),
            forall|j: int| 0 <= j < run ==> 48 <= #[trigger] rest@[j] <= 57,
        decreases rest@.len() - run,
    {
        run = run + 1;
    }
    proof {
        lemma_digit_run(rest@, run as int);
    }
    if run == 0 {
        return None;
    }
    let digits: &[u8] = &rest[0..run];
    proof {
        assert(digits@ =~= rest@.take(run as int));
    }
    crate::stream::parse_u64(digits)
}

} // verus!

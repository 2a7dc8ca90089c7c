//! Auth middleware: passwordless provider configuration, the session cookie,
//! token-request building and token-response parsing, and the decision of
//! whether a request's session yields a live access token, needs a refresh,
//! or must be invalidated.

use vstd::prelude::*;
use vstd::string::StringSliceAdditionalSpecFns;
use crate::data::{AuthConfig, string_bytes};
use crate::session::{SessionData, SessionStore, spec_find_session};
use crate::stream::{spec_starts_with, starts_with, spec_trim_ws, trim_ws};
use crate::parse::spec_find_byte;
use crate::wire::{push_bytes, push_u64, spec_u64_str};

verus! {

/// Upper bound on session and token lifetimes, in seconds.
pub const MAX_TTL_SECS: u64 = 0xFFFF_FFFF;

/// Number of trailing occurrences of byte `c` at the end of `s`.
pub open spec fn spec_trailing_run(s: Seq<u8>, c: u8) -> int
    decreases s.len(),
{
    if s.len() > 0 && s.last() == c {
        1 + spec_trailing_run(s.drop_last(), c)
    } else {
        0
    }
}

proof fn lemma_trailing_run(s: Seq<u8>, c: u8, k: int)
    requires
        0 <= k <= s.len(),
        forall|j: int| s.len() - k <= j < s.len() ==> #[trigger] s[j] == c,
        k == s.len() || s[s.len() - k - 1] != c,
    ensures
        spec_trailing_run(s, c) == k,
    decreases k,
{
    if k > 0 {
        lemma_trailing_run(s.drop_last(), c, k - 1);
    }
}

/// A seconds value with a unit suffix stripped: the digits before the
/// trailing run of the suffix byte, parsed with a default, scaled, and
/// capped at the lifetime bound.
pub open spec fn spec_suffix_secs(s: Seq<u8>, c: u8, dflt: nat, mult: nat) -> nat {
    let body = s.take(s.len() - spec_trailing_run(s, c));
    let v = match crate::stream::spec_digits_value(body) {
        Some(v) => if v <= u64::MAX {
            v
        } else {
            dflt
        },
        None => dflt,
    };
    if v * mult > MAX_TTL_SECS {
        MAX_TTL_SECS as nat
    } else {
        v * mult
    }
}

/// A session time-to-live in seconds: `h`, `d` or `m` suffixes with their
/// defaults, or plain seconds; the result is capped at the lifetime bound.
pub open spec fn spec_parse_ttl(s: Seq<u8>) -> nat {
    let t = spec_trim_ws(s);
    if t.len() > 0 && t.last() == 104 {
        spec_suffix_secs(t, 104, 24, 3600)
    } else if t.len() > 0 && t.last() == 100 {
        spec_suffix_secs(t, 100, 1, 86400)
    } else if t.len() > 0 && t.last() == 109 {
        spec_suffix_secs(t, 109, 60, 60)
    } else {
        match crate::stream::spec_digits_value(t) {
            Some(v) => if v > u64::MAX {
                86400
            } else if v > MAX_TTL_SECS {
                MAX_TTL_SECS as nat
            } else {
                v
            },
            None => 86400,
        }
    }
}

/// Parse a session time-to-live such as `24h`, `7d`, `30m` or `3600`.
pub fn parse_ttl(s: &str) -> (r: u64)
    ensures
        r as nat == spec_parse_ttl(s.spec_bytes()),
        r <= MAX_TTL_SECS,
{
    let t = trim_ws(s.as_bytes());
    let tb = t.as_slice();
    if tb.len() > 0 && tb[tb.len() - 1] == 104 {
        suffix_secs(tb, 104, 24, 3600)
    } else if tb.len() > 0 && tb[tb.len() - 1] == 100 {
        suffix_secs(tb, 100, 1, 86400)
    } else if tb.len() > 0 && tb[tb.len() - 1] == 109 {
        suffix_secs(tb, 109, 60, 60)
    } else {
        match crate::stream::parse_u64(tb) {
            Some(v) => {
                if v > MAX_TTL_SECS {
                    MAX_TTL_SECS
                } else {
                    v
                }
            },
            None => {
                proof {
                    if crate::stream::spec_digits_value(t@) is Some {
                        assert(crate::stream::spec_digits_value(t@).unwrap() > u64::MAX);
                    }
                }
                86400
            },
        }
    }
}

fn suffix_secs(s: &[u8], c: u8, dflt: u64, mult: u64) -> (r: u64)
    requires
        1 <= mult <= 86400,
        dflt <= 1000,
    ensures
        r as nat == spec_suffix_secs(s@, c, dflt as nat, mult as nat),
        r <= MAX_TTL_SECS,
{
    let mut end: usize = s.len();
    while end > 0 && s[end - 1] == c
        invariant
            end <= s@.len(),
            forall|j: int| end <= j < s@.len() ==> #[trigger] s@[j] == c,
        decreases end,
    {
        end = end - 1;
    }
    proof {
        lemma_trailing_run(s@, c, s@.len() - end);
    }
    let body: &[u8] = &s[0..end];
    proof {
        assert(body@ =~= s@.take(end as int));
    }
    let v = match crate::stream::parse_u64(body) {
        Some(v) => v,
        None => {
            proof {
                if crate::stream::spec_digits_value(body@) is Some {
                    assert(crate::stream::spec_digits_value(body@).unwrap() > u64::MAX);
                }
            }
            dflt
        },
    };
    if v > MAX_TTL_SECS / mult {
        proof {
            assert((v as nat) * (mult as nat) > MAX_TTL_SECS) by (nonlinear_arith)
                requires v > MAX_TTL_SECS / mult, 1 <= mult <= 86400,
            ;
        }
        MAX_TTL_SECS
    } else {
        proof {
            assert((v as nat) * (mult as nat) <= MAX_TTL_SECS) by (nonlinear_arith)
                requires v <= MAX_TTL_SECS / mult, 1 <= mult <= 86400,
            ;
        }
        v * mult
    }
}

/// The value of the cookie named `name` inside a `Cookie` header value:
/// semicolon-separated segments, each trimmed; the first segment starting
/// with `name=` yields the rest of that segment.
pub open spec fn spec_cookie_lookup(s: Seq<u8>, name: Seq<u8>) -> Option<Seq<u8>>
    decreases s.len(),
{
    let end: int = match spec_find_byte(s, 59) {
        Some(e) => e,
        None => s.len() as int,
    };
    if 0 <= end <= s.len() {
        let seg = spec_trim_ws(s.take(end));
        if spec_starts_with(seg, name + seq![61u8]) {
            Some(seg.skip(name.len() + 1 as int))
        } else if end < s.len() {
            spec_cookie_lookup(s.skip(end + 1), name)
        } else {
            None
        }
    } else {
        None
    }
}

/// Find a cookie's value in a `Cookie` header value.
pub fn cookie_lookup(s: &[u8], name: &[u8]) -> (r: Option<Vec<u8>>)
    ensures
        match r {
            Some(v) => spec_cookie_lookup(s@, name@) == Some(v@),
            None => spec_cookie_lookup(s@, name@) is None,
        },
    decreases s@.len(),
{
    let end: usize = match crate::parse::find_byte(s, 59) {
        Some(e) => e,
        None => s.len(),
    };
    let head: &[u8] = &s[0..end];
    proof {
        assert(head@ =~= s@.take(end as int));
    }
    let seg = trim_ws(head);
    let mut prefix: Vec<u8> = Vec::new();
    push_bytes(&mut prefix, name);
    prefix.push(61);
    proof {
        assert(prefix@ =~= name@ + seq![61u8]);
    }
    if starts_with(seg.as_slice(), prefix.as_slice()) {
        let v: &[u8] = &seg.as_slice()[prefix.len()..seg.len()];
        proof {
            assert(v@ =~= seg@.skip(name@.len() + 1 as int));
        }
        return Some(crate::transport::slice_take(v, v.len()));
    }
    if end < s.len() {
        let rest: &[u8] = &s[end + 1..s.len()];
        proof {
            assert(rest@ =~= s@.skip(end + 1));
        }
        cookie_lookup(rest, name)
    } else {
        None
    }
}

/// Index of the first header with the given lower-case name, if any.
pub open spec fn spec_find_header(h: Seq<(String, String)>, name: Seq<u8>) -> Option<int>
    decreases h.len(),
{
    if h.len() <= 0 {
        None
    } else if string_bytes(h[0].0) == name {
        Some(0int)
    } else {
        match spec_find_header(h.drop_first(), name) {
            Some(i) => Some(i + 1),
            None => None,
        }
    }
}

proof fn lemma_find_header_prefix(h: Seq<(String, String)>, name: Seq<u8>, i: int)
    requires
        0 <= i <= h.len(),
        forall|j: int| 0 <= j < i ==> string_bytes((#[trigger] h[j]).0) != name,
    ensures
        spec_find_header(h, name) == match spec_find_header(h.skip(i), name) {
            Some(k) => Some(k + i),
            None => None::<int>,
        },
    decreases i,
{
    if i > 0 {
        lemma_find_header_prefix(h.drop_first(), name, i - 1);
        assert(h.drop_first().skip(i - 1) =~= h.skip(i));
    } else {
        assert(h.skip(0) =~= h);
    }
}

/// First header with the given lower-case name, if any.
pub fn header_value<'a>(headers: &'a Vec<(String, String)>, name: &str) -> (r: Option<
    &'a String,
>)
    ensures
        match r {
            Some(v) => ({
                let i = spec_find_header(headers@, name.spec_bytes());
                i is Some && *v == headers@[i.unwrap()].1
            }),
            None => spec_find_header(headers@, name.spec_bytes()) is None,
        },
{
    let mut i: usize = 0;
    let n = headers.len();
    while i < n
        invariant
            n == headers@.len(),
            i <= n,
            forall|j: int| 0 <= j < i
                ==> string_bytes((#[trigger] headers@[j]).0) != name.spec_bytes(),
        decreases n - i,
    {
        if crate::parse::bytes_eq(headers[i].0.as_str().as_bytes(), name.as_bytes()) {
            proof {
                lemma_find_header_prefix(headers@, name.spec_bytes(), i as int);
                assert(headers@.skip(i as int)[0] == headers@[i as int]);
            }
            return Some(&headers[i].1);
        }
        i = i + 1;
    }
    proof {
        lemma_find_header_prefix(headers@, name.spec_bytes(), i as int);
    }
    None
}

/// The session id named by a request's cookie header under the configured
/// cookie name, if any.
pub open spec fn spec_session_cookie(
    config: crate::data::AuthConfig,
    headers: Seq<(String, String)>,
) -> Option<Seq<u8>> {
    match spec_find_header(headers, "cookie".spec_bytes()) {
        None => None,
        Some(i) => spec_cookie_lookup(string_bytes(headers[i].1), spec_cookie_name(config)),
    }
}

/// What the middleware decides about a request's access token.
pub enum TokenPlan {
    /// No valid session: the request proceeds unauthenticated.
    NoSession,
    /// The session's access token is live and injected as a bearer token.
    Use(Vec<u8>),
    /// The token expired and a refresh token exists for a code-flow
    /// provider: refresh with this token.
    Refresh(Vec<u8>),
    /// The token expired and cannot be refreshed: the session is dropped.
    Invalidate,
}

/// Auth middleware: the provider configuration plus the session store.
pub struct AuthMiddleware {
    pub config: AuthConfig,
    pub sessions: SessionStore,
}

impl AuthMiddleware {
    /// Build the middleware; the session TTL comes from the configuration,
    /// one day when absent.
    pub fn new(config: AuthConfig) -> (r: AuthMiddleware)
        ensures
            r.config == config,
            r.sessions.wf(),
            r.sessions.sessions@.len() == 0,
            r.sessions.ttl_secs as nat == match config.session {
                Some(sc) => match sc.ttl {
                    Some(t) => spec_parse_ttl(string_bytes(t)),
                    None => 86400,
                },
                None => 86400,
            },
    {
        let ttl_secs: u64 = match &config.session {
            Some(sc) => match &sc.ttl {
                Some(t) => parse_ttl(t.as_str()),
                None => 86400,
            },
            None => 86400,
        };
        AuthMiddleware { config, sessions: SessionStore::new(ttl_secs) }
    }

    /// The provider type.
    pub fn provider(&self) -> (r: &str)
        ensures
            r@ == self.config.provider@,
    {
        self.config.provider.as_str()
    }

    /// Whether this is a code-flow provider.
    pub fn is_oauth(&self) -> (r: bool)
        ensures
            r == (string_bytes(self.config.provider) == "oidc".spec_bytes()
                || string_bytes(self.config.provider) == "oauth2".spec_bytes()),
    {
        crate::parse::bytes_eq(self.config.provider.as_str().as_bytes(), "oidc".as_bytes())
            || crate::parse::bytes_eq(
            self.config.provider.as_str().as_bytes(),
            "oauth2".as_bytes(),
        )
    }

    /// Whether this is a magic-link provider.
    pub fn is_magic_link(&self) -> (r: bool)
        ensures
            r == (string_bytes(self.config.provider) == "magic-link".spec_bytes()),
    {
        crate::parse::bytes_eq(
            self.config.provider.as_str().as_bytes(),
            "magic-link".as_bytes(),
        )
    }

    /// Whether this is a one-time-code provider.
    pub fn is_otp(&self) -> (r: bool)
        ensures
            r == (string_bytes(self.config.provider) == "otp".spec_bytes()),
    {
        crate::parse::bytes_eq(self.config.provider.as_str().as_bytes(), "otp".as_bytes())
    }

    /// The session cookie's name.
    pub fn cookie_name(&self) -> (r: &str)
        ensures
            r.spec_bytes() == spec_cookie_name(self.config),
    {
        match &self.config.session {
            Some(sc) => match &sc.cookie {
                Some(c) => c.as_str(),
                None => "magnetic_session",
            },
            None => "magnetic_session",
        }
    }

    /// The JSON field carrying the session token in verify responses.
    pub fn token_field(&self) -> (r: &str)
        ensures
            r.spec_bytes() == match self.config.token_field {
                Some(f) => string_bytes(f),
                None => "session_token".spec_bytes(),
            },
    {
        match &self.config.token_field {
            Some(f) => f.as_str(),
            None => "session_token",
        }
    }

    /// The token lifetime assumed when the provider returns none.
    pub fn default_expires(&self) -> (r: u64)
        ensures
            r == match self.config.token_expires_in {
                Some(v) => v,
                None => 3600u64,
            },
    {
        match self.config.token_expires_in {
            Some(v) => v,
            None => 3600,
        }
    }

    /// The session id carried by the request's cookie header, if any.
    pub fn session_from_cookies(&self, headers: &Vec<(String, String)>) -> (r: Option<
        Vec<u8>,
    >)
        ensures
            match r {
                Some(v) => spec_session_cookie(self.config, headers@) == Some(v@),
                None => spec_session_cookie(self.config, headers@) is None,
            },
    {
        let cookie_header = match header_value(headers, "cookie") {
            Some(v) => v,
            None => {
                return None;
            },
        };
        let name = self.cookie_name();
        let hb = cookie_header.as_str().as_bytes();
        proof {
            assert(hb@ =~= string_bytes(*cookie_header));
        }
        cookie_lookup(hb, name.as_bytes())
    }

    /// Look up the request's session in the store: the entry under the
    /// cookie's session id, unless the cookie is absent or the session is
    /// past the store TTL (which drops it).
    pub fn get_session(
        &mut self,
        headers: &Vec<(String, String)>,
        now_ms: u64,
    ) -> (r: Option<SessionData>)
        requires
            old(self).sessions.wf(),
        ensures
            final(self).sessions.wf(),
            final(self).config == old(self).config,
            final(self).sessions.ttl_secs == old(self).sessions.ttl_secs,
            match spec_session_cookie(old(self).config, headers@) {
                Option::None => r is None && *final(self) == *old(self),
                Option::Some(sid) => match spec_find_session(
                    old(self).sessions.sessions@,
                    sid,
                ) {
                    Some(i) => {
                        let d = old(self).sessions.sessions@[i].1;
                        if old(self).sessions.spec_ttl_expired(d.created_at_ms, now_ms) {
                            r is None && spec_find_session(
                                final(self).sessions.sessions@,
                                sid,
                            ) is None
                        } else {
                            &&& *final(self) == *old(self)
                            &&& r matches Some(rd)
                            &&& r.unwrap().access_token@ == d.access_token@
                            &&& (r.unwrap().refresh_token is Some
                                <==> d.refresh_token is Some)
                            &&& (d.refresh_token matches Some(rt)
                                ==> r.unwrap().refresh_token.unwrap()@ == rt@)
                            &&& r.unwrap().token_expires_at_ms == d.token_expires_at_ms
                            &&& r.unwrap().created_at_ms == d.created_at_ms
                        }
                    },
                    None => r is None && *final(self) == *old(self),
                },
            },
    {
        let sid = match self.session_from_cookies(headers) {
            Some(s) => s,
            None => {
                return None;
            },
        };
        self.sessions.get(sid.as_slice(), now_ms)
    }

    /// Decide what to do with a session's access token at time `now_ms`: use
    /// it while live; refresh an expired token when a refresh token exists
    /// and the provider is a code-flow one; otherwise invalidate.
    pub fn access_token_plan(&self, session: &Option<SessionData>, now_ms: u64) -> (r:
        TokenPlan)
        ensures
            match session {
                Option::None => r is NoSession,
                Option::Some(s) => {
                    let oauth = string_bytes(self.config.provider) == "oidc".spec_bytes()
                        || string_bytes(self.config.provider) == "oauth2".spec_bytes();
                    if now_ms < s.token_expires_at_ms {
                        r matches TokenPlan::Use(t) && t@ == s.access_token@
                    } else if oauth && s.refresh_token is Some {
                        r matches TokenPlan::Refresh(t)
                            && t@ == s.refresh_token.unwrap()@
                    } else {
                        r is Invalidate
                    }
                },
            },
    {
        let s = match session {
            Some(s) => s,
            None => {
                return TokenPlan::NoSession;
            },
        };
        if !s.is_expired(now_ms) {
            return TokenPlan::Use(crate::transport::slice_take(
                s.access_token.as_slice(),
                s.access_token.len(),
            ));
        }
        if self.is_oauth() {
            match &s.refresh_token {
                Some(rt) => {
                    return TokenPlan::Refresh(crate::transport::slice_take(
                        rt.as_slice(),
                        rt.len(),
                    ));
                },
                None => {},
            }
        }
        TokenPlan::Invalidate
    }

    /// Store a fresh session and build its `Set-Cookie` value.
    pub fn create_session(
        &mut self,
        session_id: Vec<u8>,
        access_token: Vec<u8>,
        refresh_token: Option<Vec<u8>>,
        expires_in_secs: u64,
        now_ms: u64,
    ) -> (cookie: Vec<u8>)
        requires
            old(self).sessions.wf(),
            expires_in_secs <= MAX_TTL_SECS,
            now_ms <= u64::MAX - MAX_TTL_SECS * 1000,
        ensures
            final(self).sessions.wf(),
            final(self).config == old(self).config,
            ({
                let found = spec_find_session(final(self).sessions.sessions@, session_id@);
                &&& found is Some
                &&& final(self).sessions.sessions@[found.unwrap()].1.access_token
                    == access_token
            }),
            cookie@ == spec_cookie_name(old(self).config) + seq![61u8] + session_id@
                + "; Path=/; HttpOnly; SameSite=Lax; Max-Age=".spec_bytes()
                + spec_u64_str(old(self).sessions.ttl_secs as nat),
    {
        let mut cookie: Vec<u8> = Vec::new();
        push_bytes(&mut cookie, self.cookie_name().as_bytes());
        cookie.push(61);
        push_bytes(&mut cookie, session_id.as_slice());
        push_bytes(&mut cookie, "; Path=/; HttpOnly; SameSite=Lax; Max-Age=".as_bytes());
        push_u64(&mut cookie, self.sessions.ttl_secs);
        proof {
            assert(cookie@ =~= spec_cookie_name(old(self).config) + seq![61u8] + session_id@
                + "; Path=/; HttpOnly; SameSite=Lax; Max-Age=".spec_bytes()
                + spec_u64_str(old(self).sessions.ttl_secs as nat));
        }
        self.sessions.create(session_id, access_token, refresh_token, expires_in_secs, now_ms);
        cookie
    }

    /// Drop the request's session and build the clearing `Set-Cookie` value.
    pub fn logout(&mut self, headers: &Vec<(String, String)>) -> (cookie: Vec<u8>)
        requires
            old(self).sessions.wf(),
        ensures
            final(self).sessions.wf(),
            final(self).config == old(self).config,
            cookie@ == spec_cookie_name(old(self).config)
                + "=; Path=/; HttpOnly; SameSite=Lax; Max-Age=0".spec_bytes(),
    {
        match self.session_from_cookies(headers) {
            Some(sid) => {
                self.sessions.remove(sid.as_slice());
            },
            None => {},
        }
        let mut cookie: Vec<u8> = Vec::new();
        push_bytes(&mut cookie, self.cookie_name().as_bytes());
        push_bytes(&mut cookie, "=; Path=/; HttpOnly; SameSite=Lax; Max-Age=0".as_bytes());
        proof {
            assert(cookie@ =~= spec_cookie_name(old(self).config)
                + "=; Path=/; HttpOnly; SameSite=Lax; Max-Age=0".spec_bytes());
        }
        cookie
    }
}

/// The configured session cookie name, `magnetic_session` by default.
pub open spec fn spec_cookie_name(config: AuthConfig) -> Seq<u8> {
    match config.session {
        Some(sc) => match sc.cookie {
            Some(c) => string_bytes(c),
            None => "magnetic_session".spec_bytes(),
        },
        None => "magnetic_session".spec_bytes(),
    }
}

/// A successful login followed by a request carrying the returned session id
/// yields a session whose access token is exactly what the token endpoint
/// returned: after `create` stores the token, a `get` within the store TTL
/// returns a session holding that token.
pub proof fn lemma_login_round_trip(
    store: SessionStore,
    session_id: Seq<u8>,
    token: Seq<u8>,
    now_ms: u64,
    later_ms: u64,
)
    requires
        store.wf(),
        ({
            let found = spec_find_session(store.sessions@, session_id);
            &&& found is Some
            &&& store.sessions@[found.unwrap()].1.access_token@ == token
            &&& store.sessions@[found.unwrap()].1.created_at_ms == now_ms
        }),
        now_ms <= later_ms <= now_ms + store.ttl_secs * 1000,
    ensures
        ({
            let found = spec_find_session(store.sessions@, session_id);
            let d = store.sessions@[found.unwrap()].1;
            &&& !store.spec_ttl_expired(d.created_at_ms, later_ms)
            &&& d.access_token@ == token
        }),
{
}

/// The upper-case hex digit for a value below sixteen.
pub open spec fn spec_hex_upper(n: u8) -> u8 {
    if n < 10 {
        (48 + n) as u8
    } else {
        (55 + n) as u8
    }
}

/// Percent-encoding with the unreserved characters kept verbatim.
pub open spec fn spec_urlencode(s: Seq<u8>) -> Seq<u8>
    decreases s.len(),
{
    if s.len() == 0 {
        Seq::<u8>::empty()
    } else {
        let b = s[0];
        let head: Seq<u8> = if (65 <= b <= 90) || (97 <= b <= 122) || (48 <= b <= 57)
            || b == 45 || b == 95 || b == 46 || b == 126 {
            seq![b]
        } else {
            seq![37u8, spec_hex_upper(b / 16), spec_hex_upper(b % 16)]
        };
        head + spec_urlencode(s.drop_first())
    }
}

/// Percent-encode a URL component.
pub fn urlencoding(s: &[u8]) -> (r: Vec<u8>)
    ensures
        r@ == spec_urlencode(s@),
{
    let mut out: Vec<u8> = Vec::new();
    let ghost mut acc: Seq<u8> = Seq::empty();
    let mut i: usize = 0;
    proof {
        assert(s@.skip(0) =~= s@);
        assert(acc + spec_urlencode(s@) =~= spec_urlencode(s@));
        assert(out@ =~= acc);
    }
    #[verifier::loop_isolation(false)]
    while i < s.len()
        invariant
            i <= s@.len(),
            spec_urlencode(s@) == acc + spec_urlencode(s@.skip(i as int)),
            out@ == acc,
        decreases s@.len() - i,
    {
        let ghost rest = s@.skip(i as int);
        let b = s[i];
        proof {
            assert(rest[0] == b);
            assert(rest.drop_first() =~= s@.skip(i + 1));
        }
        let unreserved = (65 <= b && b <= 90) || (97 <= b && b <= 122)
            || (48 <= b && b <= 57) || b == 45 || b == 95 || b == 46 || b == 126;
        let ghost head: Seq<u8> = if (65 <= b && b <= 90) || (97 <= b && b <= 122)
            || (48 <= b && b <= 57) || b == 45 || b == 95 || b == 46 || b == 126 {
            seq![b]
        } else {
            seq![37u8, spec_hex_upper(b / 16), spec_hex_upper(b % 16)]
        };
        proof {
            assert(spec_urlencode(rest) == head + spec_urlencode(rest.drop_first()));
            assert(acc + spec_urlencode(rest) =~= (acc + head) + spec_urlencode(
                rest.drop_first(),
            ));
        }
        if unreserved {
            out.push(b);
        } else {
            out.push(37);
            let hi = b / 16;
            let lo = b % 16;
            if hi < 10 {
                out.push(48 + hi);
            } else {
                out.push(55 + hi);
            }
            if lo < 10 {
                out.push(48 + lo);
            } else {
                out.push(55 + lo);
            }
        }
        proof {
            acc = acc + head;
            assert(out@ =~= acc);
        }
        i = i + 1;
    }
    proof {
        assert(s@.skip(s@.len() as int) =~= Seq::<u8>::empty());
        assert(acc + spec_urlencode(s@.skip(i as int)) =~= acc);
    }
    out
}

/// What the login entry point does for a provider without a code flow: a
/// redirect to the app's own login page carrying the state.
pub open spec fn spec_plain_login_url(state: Seq<u8>) -> Seq<u8> {
    "/?login=true&state=".spec_bytes() + spec_urlencode(state)
}

impl AuthMiddleware {
    /// The login redirect for providers without a code flow; a code-flow
    /// provider redirects to its discovered authorization endpoint instead
    /// (see the code-flow login URL).
    pub fn login_url(&self, state: &[u8]) -> (r: Option<Vec<u8>>)
        ensures
            match r {
                Some(u) => u@ == spec_plain_login_url(state@)
                    && string_bytes(self.config.provider) != "oidc".spec_bytes()
                    && string_bytes(self.config.provider) != "oauth2".spec_bytes(),
                None => string_bytes(self.config.provider) == "oidc".spec_bytes()
                    || string_bytes(self.config.provider) == "oauth2".spec_bytes(),
            },
    {
        if self.is_oauth() {
            return None;
        }
        let mut out: Vec<u8> = Vec::new();
        push_bytes(&mut out, "/?login=true&state=".as_bytes());
        let enc = urlencoding(state);
        push_bytes(&mut out, enc.as_slice());
        proof {
            assert(out@ =~= spec_plain_login_url(state@));
        }
        Some(out)
    }

    /// The code-flow login URL: the authorization endpoint with the response
    /// type, client id, redirect URI, scopes and state in the query.
    pub fn oauth_login_url(
        &self,
        auth_endpoint: &[u8],
        client_id: &[u8],
        redirect_uri: &[u8],
        scopes: &[u8],
        state: &[u8],
    ) -> (r: Vec<u8>)
        ensures
            r@ == auth_endpoint@ + "?response_type=code&client_id=".spec_bytes()
                + spec_urlencode(client_id@) + "&redirect_uri=".spec_bytes()
                + spec_urlencode(redirect_uri@) + "&scope=".spec_bytes()
                + spec_urlencode(scopes@) + "&state=".spec_bytes()
                + spec_urlencode(state@),
    {
        let mut out: Vec<u8> = Vec::new();
        push_bytes(&mut out, auth_endpoint);
        push_bytes(&mut out, "?response_type=code&client_id=".as_bytes());
        let e1 = urlencoding(client_id);
        push_bytes(&mut out, e1.as_slice());
        push_bytes(&mut out, "&redirect_uri=".as_bytes());
        let e2 = urlencoding(redirect_uri);
        push_bytes(&mut out, e2.as_slice());
        push_bytes(&mut out, "&scope=".as_bytes());
        let e3 = urlencoding(scopes);
        push_bytes(&mut out, e3.as_slice());
        push_bytes(&mut out, "&state=".as_bytes());
        let e4 = urlencoding(state);
        push_bytes(&mut out, e4.as_slice());
        proof {
            assert(out@ =~= auth_endpoint@ + "?response_type=code&client_id=".spec_bytes()
                + spec_urlencode(client_id@) + "&redirect_uri=".spec_bytes()
                + spec_urlencode(redirect_uri@) + "&scope=".spec_bytes()
                + spec_urlencode(scopes@) + "&state=".spec_bytes()
                + spec_urlencode(state@));
        }
        out
    }

    /// Decide the token exchange for a callback: code-flow providers post a
    /// form-encoded grant; magic-link providers verify the callback token;
    /// one-time-code providers do not use the callback.
    pub fn exchange_code(
        &self,
        code: &[u8],
        client_id: &[u8],
        client_secret: &[u8],
        redirect_uri: &[u8],
    ) -> (r: ExchangePlan)
        ensures
            ({
                let p = string_bytes(self.config.provider);
                if p == "oidc".spec_bytes() || p == "oauth2".spec_bytes() {
                    r matches ExchangePlan::CodeGrant { body }
                        && body@ == spec_code_grant_body(
                        code@,
                        redirect_uri@,
                        client_id@,
                        client_secret@,
                    )
                } else if p == "magic-link".spec_bytes() {
                    r matches ExchangePlan::MagicVerify { body }
                        && body@ == "{\"token\":".spec_bytes()
                        + crate::dom::spec_str_lit(code@) + seq![125u8]
                } else {
                    r is Unsupported
                }
            }),
    {
        if self.is_oauth() {
            let mut body: Vec<u8> = Vec::new();
            push_bytes(&mut body, "grant_type=authorization_code&code=".as_bytes());
            let e1 = urlencoding(code);
            push_bytes(&mut body, e1.as_slice());
            push_bytes(&mut body, "&redirect_uri=".as_bytes());
            let e2 = urlencoding(redirect_uri);
            push_bytes(&mut body, e2.as_slice());
            push_bytes(&mut body, "&client_id=".as_bytes());
            let e3 = urlencoding(client_id);
            push_bytes(&mut body, e3.as_slice());
            push_bytes(&mut body, "&client_secret=".as_bytes());
            let e4 = urlencoding(client_secret);
            push_bytes(&mut body, e4.as_slice());
            proof {
                assert(body@ =~= spec_code_grant_body(
                    code@,
                    redirect_uri@,
                    client_id@,
                    client_secret@,
                ));
            }
            ExchangePlan::CodeGrant { body }
        } else if self.is_magic_link() {
            let mut body: Vec<u8> = Vec::new();
            push_bytes(&mut body, "{\"token\":".as_bytes());
            crate::wire::push_str_lit(&mut body, code);
            body.push(125);
            proof {
                assert(body@ =~= "{\"token\":".spec_bytes()
                    + crate::dom::spec_str_lit(code@) + seq![125u8]);
            }
            ExchangePlan::MagicVerify { body }
        } else {
            ExchangePlan::Unsupported
        }
    }

    /// The verify request body for a one-time code.
    pub fn verify_otp_code(&self, code: &[u8], method_id: &[u8]) -> (r: Vec<u8>)
        ensures
            r@ == "{\"code\":".spec_bytes() + crate::dom::spec_str_lit(code@)
                + ",\"method_id\":".spec_bytes() + crate::dom::spec_str_lit(method_id@)
                + seq![125u8],
    {
        let mut body: Vec<u8> = Vec::new();
        push_bytes(&mut body, "{\"code\":".as_bytes());
        crate::wire::push_str_lit(&mut body, code);
        push_bytes(&mut body, ",\"method_id\":".as_bytes());
        crate::wire::push_str_lit(&mut body, method_id);
        body.push(125);
        proof {
            assert(body@ =~= "{\"code\":".spec_bytes() + crate::dom::spec_str_lit(code@)
                + ",\"method_id\":".spec_bytes() + crate::dom::spec_str_lit(method_id@)
                + seq![125u8]);
        }
        body
    }

    /// The refresh request body for an expired access token.
    pub fn refresh_token(
        &self,
        refresh_token: &[u8],
        client_id: &[u8],
        client_secret: &[u8],
    ) -> (r: Vec<u8>)
        ensures
            r@ == "grant_type=refresh_token&refresh_token=".spec_bytes()
                + spec_urlencode(refresh_token@) + "&client_id=".spec_bytes()
                + spec_urlencode(client_id@) + "&client_secret=".spec_bytes()
                + spec_urlencode(client_secret@),
    {
        let mut body: Vec<u8> = Vec::new();
        push_bytes(&mut body, "grant_type=refresh_token&refresh_token=".as_bytes());
        let e1 = urlencoding(refresh_token);
        push_bytes(&mut body, e1.as_slice());
        push_bytes(&mut body, "&client_id=".as_bytes());
        let e2 = urlencoding(client_id);
        push_bytes(&mut body, e2.as_slice());
        push_bytes(&mut body, "&client_secret=".as_bytes());
        let e3 = urlencoding(client_secret);
        push_bytes(&mut body, e3.as_slice());
        proof {
            assert(body@ =~= "grant_type=refresh_token&refresh_token=".spec_bytes()
                + spec_urlencode(refresh_token@) + "&client_id=".spec_bytes()
                + spec_urlencode(client_id@) + "&client_secret=".spec_bytes()
                + spec_urlencode(client_secret@));
        }
        body
    }
}

/// The form body of an authorization-code grant.
pub open spec fn spec_code_grant_body(
    code: Seq<u8>,
    redirect_uri: Seq<u8>,
    client_id: Seq<u8>,
    client_secret: Seq<u8>,
) -> Seq<u8> {
    "grant_type=authorization_code&code=".spec_bytes() + spec_urlencode(code)
        + "&redirect_uri=".spec_bytes() + spec_urlencode(redirect_uri)
        + "&client_id=".spec_bytes() + spec_urlencode(client_id)
        + "&client_secret=".spec_bytes() + spec_urlencode(client_secret)
}

/// How a login callback is exchanged for tokens.
pub enum ExchangePlan {
    /// POST this form-encoded grant to the token endpoint.
    CodeGrant { body: Vec<u8> },
    /// POST this JSON body to the provider's verify endpoint.
    MagicVerify { body: Vec<u8> },
    /// This provider takes no callback exchange.
    Unsupported,
}

/// Parse a token endpoint's JSON response: the access token is required, the
/// refresh token optional, and a missing or malformed `expires_in` falls
/// back to the default.
pub fn parse_token_response(body: &[u8], default_expires: u64) -> (r: Result<
    (Vec<u8>, Option<Vec<u8>>, u64),
    (),
>)
    ensures
        ({
            let access = crate::parse::spec_string_field(body@, "\"access_token\"".spec_bytes());
            let refresh = crate::parse::spec_string_field(
                body@,
                "\"refresh_token\"".spec_bytes(),
            );
            match r {
                Ok((a, rt, exp)) => {
                    &&& access.1
                    &&& a@ == access.0
                    &&& (rt matches Some(v) ==> refresh.1 && v@ == refresh.0)
                    &&& (rt is None ==> !refresh.1)
                    &&& exp as nat == match crate::parse::spec_u64_field(
                        body@,
                        "\"expires_in\"".spec_bytes(),
                    ) {
                        Some(v) => v,
                        None => default_expires as nat,
                    }
                },
                Err(_) => !access.1,
            }
        }),
{
    let mut access: Vec<u8> = Vec::new();
    if !crate::parse::extract_string_field_vec(body, "\"access_token\"".as_bytes(), &mut access) {
        return Err(());
    }
    let mut refresh: Vec<u8> = Vec::new();
    let has_refresh = crate::parse::extract_string_field_vec(
        body,
        "\"refresh_token\"".as_bytes(),
        &mut refresh,
    );
    let expires = match crate::parse::extract_u64_field(body, "\"expires_in\"".as_bytes()) {
        Some(v) => v,
        None => default_expires,
    };
    Ok((access, if has_refresh { Some(refresh) } else { None }, expires))
}

/// Parse a verify endpoint's response: the session token is taken from the
/// configured field, then the conventional fallbacks, in that order.
pub fn parse_verify_response(
    body: &[u8],
    token_field: &[u8],
    default_expires: u64,
) -> (r: Result<(Vec<u8>, u64), ()>)
    ensures
        ({
            let custom = crate::parse::spec_string_field(
                body@,
                seq![34u8] + token_field@ + seq![34u8],
            );
            let st = crate::parse::spec_string_field(body@, "\"session_token\"".spec_bytes());
            let at = crate::parse::spec_string_field(body@, "\"access_token\"".spec_bytes());
            let tk = crate::parse::spec_string_field(body@, "\"token\"".spec_bytes());
            match r {
                Ok((t, exp)) => {
                    &&& (if custom.1 {
                        t@ == custom.0
                    } else if st.1 {
                        t@ == st.0
                    } else if at.1 {
                        t@ == at.0
                    } else {
                        tk.1 && t@ == tk.0
                    })
                    &&& exp as nat == match crate::parse::spec_u64_field(
                        body@,
                        "\"expires_in\"".spec_bytes(),
                    ) {
                        Some(v) => v,
                        None => default_expires as nat,
                    }
                },
                Err(_) => !custom.1 && !st.1 && !at.1 && !tk.1,
            }
        }),
{
    let mut key: Vec<u8> = Vec::new();
    key.push(34);
    push_bytes(&mut key, token_field);
    key.push(34);
    proof {
        assert(key@ =~= seq![34u8] + token_field@ + seq![34u8]);
    }
    let mut token: Vec<u8> = Vec::new();
    let found = crate::parse::extract_string_field_vec(body, key.as_slice(), &mut token)
        || {
        token = Vec::new();
        crate::parse::extract_string_field_vec(body, "\"session_token\"".as_bytes(), &mut token)
    } || {
        token = Vec::new();
        crate::parse::extract_string_field_vec(body, "\"access_token\"".as_bytes(), &mut token)
    } || {
        token = Vec::new();
        crate::parse::extract_string_field_vec(body, "\"token\"".as_bytes(), &mut token)
    };
    if !found {
        return Err(());
    }
    let expires = match crate::parse::extract_u64_field(body, "\"expires_in\"".as_bytes()) {
        Some(v) => v,
        None => default_expires,
    };
    Ok((token, expires))
}

} // verus!

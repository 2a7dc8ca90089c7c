//! Server-side auth sessions: an in-memory store keyed by an opaque cookie
//! value, each session holding an access token, an optional refresh token and
//! expiry instants, plus the middleware helpers that read the session cookie
//! and shape the session's lifecycle.

use vstd::prelude::*;
use vstd::string::StringSliceAdditionalSpecFns;

verus! {

/// One auth session: tokens and timestamps, in milliseconds since an
/// arbitrary epoch supplied by the caller.
pub struct SessionData {
    pub access_token: Vec<u8>,
    pub refresh_token: Option<Vec<u8>>,
    pub token_expires_at_ms: u64,
    pub created_at_ms: u64,
}

impl SessionData {
    /// Whether the access token has expired at time `now_ms`.
    pub fn is_expired(&self, now_ms: u64) -> (r: bool)
        ensures
            r == (now_ms >= self.token_expires_at_ms),
    {
        now_ms >= self.token_expires_at_ms
    }
}

/// Index of the session with the given id, if any.
pub open spec fn spec_find_session(s: Seq<(Vec<u8>, SessionData)>, id: Seq<u8>) -> Option<int>
    decreases s.len(),
{
    if s.len() <= 0 {
        None
    } else if s[0].0@ == id {
        Some(0int)
    } else {
        match spec_find_session(s.drop_first(), id) {
            Some(i) => Some(i + 1),
            None => None,
        }
    }
}

proof fn lemma_find_session_prefix(s: Seq<(Vec<u8>, SessionData)>, id: Seq<u8>, i: int)
    requires
        0 <= i <= s.len(),
        forall|j: int| 0 <= j < i ==> (#[trigger] s[j]).0@ != id,
    ensures
        spec_find_session(s, id) == match spec_find_session(s.skip(i), id) {
            Some(k) => Some(k + i),
            None => None::<int>,
        },
    decreases i,
{
    if i > 0 {
        lemma_find_session_prefix(s.drop_first(), id, i - 1);
        assert(s.drop_first().skip(i - 1) =~= s.skip(i));
    } else {
        assert(s.skip(0) =~= s);
    }
}

/// In-memory session store with a store-level time-to-live in seconds.
pub struct SessionStore {
    pub ttl_secs: u64,
    pub sessions: Vec<(Vec<u8>, SessionData)>,
}

impl SessionStore {
    /// Whether a session with this created-at time is past the store TTL at
    /// time `now_ms`; a lookup still returns a session exactly at the TTL.
    pub open spec fn spec_ttl_expired(&self, created_at_ms: u64, now_ms: u64) -> bool {
        now_ms > created_at_ms && now_ms - created_at_ms > self.ttl_secs * 1000
    }

    /// Whether the reaper drops the session: at or past the TTL.
    pub open spec fn spec_ttl_reached(&self, created_at_ms: u64, now_ms: u64) -> bool {
        now_ms >= created_at_ms + self.ttl_secs * 1000
    }

    pub open spec fn wf(&self) -> bool {
        &&& self.ttl_secs <= 0xFFFF_FFFF
        &&& forall|i: int, j: int| 0 <= i < j < self.sessions@.len()
            ==> (#[trigger] self.sessions@[i]).0@ != (#[trigger] self.sessions@[j]).0@
    }

    pub fn new(ttl_secs: u64) -> (s: SessionStore)
        requires
            ttl_secs <= 0xFFFF_FFFF,
        ensures
            s.wf(),
            s.ttl_secs == ttl_secs,
            s.sessions@ =~= Seq::<(Vec<u8>, SessionData)>::empty(),
    {
        SessionStore { ttl_secs, sessions: Vec::new() }
    }

    fn find_index(&self, session_id: &[u8]) -> (r: Option<usize>)
        ensures
            match r {
                Some(i) => Some(i as int) == spec_find_session(self.sessions@, session_id@)
                    && i < self.sessions@.len(),
                None => spec_find_session(self.sessions@, session_id@) is None,
            },
    {
        let mut i: usize = 0;
        let n = self.sessions.len();
        while i < n
            invariant
                n == self.sessions@.len(),
                i <= n,
                forall|j: int| 0 <= j < i ==> (#[trigger] self.sessions@[j]).0@ != session_id@,
            decreases n - i,
        {
            if crate::parse::bytes_eq(self.sessions[i].0.as_slice(), session_id) {
                proof {
                    lemma_find_session_prefix(self.sessions@, session_id@, i as int);
                }
                return Some(i);
            }
            i = i + 1;
        }
        proof {
            lemma_find_session_prefix(self.sessions@, session_id@, i as int);
        }
        None
    }

    /// Store a new session under `session_id`, replacing any session that
    /// already has that id.
    pub fn create(
        &mut self,
        session_id: Vec<u8>,
        access_token: Vec<u8>,
        refresh_token: Option<Vec<u8>>,
        expires_in_secs: u64,
        now_ms: u64,
    ) -> (r: bool)
        requires
            old(self).wf(),
            expires_in_secs <= 0xFFFF_FFFF,
            now_ms <= u64::MAX - 0xFFFF_FFFF * 1000,
        ensures
            final(self).wf(),
            final(self).ttl_secs == old(self).ttl_secs,
            spec_find_session(final(self).sessions@, session_id@) is Some,
            ({
                let i = spec_find_session(final(self).sessions@, session_id@).unwrap();
                let d = final(self).sessions@[i].1;
                &&& d.access_token == access_token
                &&& d.refresh_token == refresh_token
                &&& d.token_expires_at_ms == now_ms + expires_in_secs * 1000
                &&& d.created_at_ms == now_ms
            }),
            // sessions with other ids are exactly those kept from before
            final(self).sessions@.drop_last() == match spec_find_session(
                old(self).sessions@,
                session_id@,
            ) {
                Some(i) => old(self).sessions@.remove(i),
                None => old(self).sessions@,
            },
            final(self).sessions@.len() > 0,
    {
        self.remove(session_id.as_slice());
        let data = SessionData {
            access_token,
            refresh_token,
            token_expires_at_ms: now_ms + expires_in_secs * 1000,
            created_at_ms: now_ms,
        };
        let ghost pre = self.sessions@;
        self.sessions.push((session_id, data));
        proof {
            assert(self.sessions@.drop_last() =~= pre);
        }
        proof {
            assert forall|i: int, j: int| 0 <= i < j < self.sessions@.len()
                implies (#[trigger] self.sessions@[i]).0@
                    != (#[trigger] self.sessions@[j]).0@ by {
                if j < pre.len() {
                } else {
                    assert(spec_find_session(pre, self.sessions@[j].0@) is None);
                    lemma_find_none_means_absent(pre, self.sessions@[j].0@, i);
                }
            }
            lemma_find_last(self.sessions@, pre);
            assert(self.sessions@.drop_last() =~= pre);
        }
        true
    }

    /// Look up a session; a session past the store TTL is removed and not
    /// returned. Token expiry is not checked here (refresh handles that).
    pub fn get(&mut self, session_id: &[u8], now_ms: u64) -> (r: Option<SessionData>)
        requires
            old(self).wf(),
        ensures
            final(self).wf(),
            final(self).ttl_secs == old(self).ttl_secs,
            match spec_find_session(old(self).sessions@, session_id@) {
                Some(i) => {
                    let d = old(self).sessions@[i].1;
                    if old(self).spec_ttl_expired(d.created_at_ms, now_ms) {
                        r is None
                            && spec_find_session(final(self).sessions@, session_id@) is None
                    } else {
                        &&& *final(self) == *old(self)
                        &&& r matches Some(rd)
                        &&& r.unwrap().access_token@ == d.access_token@
                        &&& (r.unwrap().refresh_token is Some <==> d.refresh_token is Some)
                        &&& (d.refresh_token matches Some(rt)
                            ==> r.unwrap().refresh_token.unwrap()@ == rt@)
                        &&& r.unwrap().token_expires_at_ms == d.token_expires_at_ms
                        &&& r.unwrap().created_at_ms == d.created_at_ms
                    }
                },
                None => r is None && *final(self) == *old(self),
            },
    {
        let idx = match self.find_index(session_id) {
            Some(i) => i,
            None => {
                return None;
            },
        };
        let created = self.sessions[idx].1.created_at_ms;
        let ttl_ms = self.ttl_secs * 1000;
        if now_ms > created && now_ms - created > ttl_ms {
            self.remove(session_id);
            return None;
        }
        let d = &self.sessions[idx].1;
        Some(SessionData {
            access_token: crate::transport::slice_take(
                d.access_token.as_slice(),
                d.access_token.len(),
            ),
            refresh_token: match &d.refresh_token {
                Some(rt) => Some(crate::transport::slice_take(rt.as_slice(), rt.len())),
                None => None,
            },
            token_expires_at_ms: d.token_expires_at_ms,
            created_at_ms: d.created_at_ms,
        })
    }

    /// Replace the tokens of an existing session after a refresh; a missing
    /// session is left alone, and a missing new refresh token keeps the old
    /// one.
    pub fn update_tokens(
        &mut self,
        session_id: &[u8],
        access_token: Vec<u8>,
        refresh_token: Option<Vec<u8>>,
        expires_in_secs: u64,
        now_ms: u64,
    )
        requires
            old(self).wf(),
            expires_in_secs <= 0xFFFF_FFFF,
            now_ms <= u64::MAX - 0xFFFF_FFFF * 1000,
        ensures
            final(self).wf(),
            final(self).ttl_secs == old(self).ttl_secs,
            match spec_find_session(old(self).sessions@, session_id@) {
                Some(i) => {
                    let d0 = old(self).sessions@[i].1;
                    let d = final(self).sessions@[i].1;
                    &&& final(self).sessions@ == old(self).sessions@.update(
                        i,
                        final(self).sessions@[i],
                    )
                    &&& final(self).sessions@[i].0 == old(self).sessions@[i].0
                    &&& d.access_token == access_token
                    &&& d.refresh_token == if refresh_token is Some {
                        refresh_token
                    } else {
                        d0.refresh_token
                    }
                    &&& d.token_expires_at_ms == now_ms + expires_in_secs * 1000
                    &&& d.created_at_ms == d0.created_at_ms
                },
                None => *final(self) == *old(self),
            },
    {
        let idx = match self.find_index(session_id) {
            Some(i) => i,
            None => {
                return;
            },
        };
        let mut entry = self.sessions.remove(idx);
        entry.1.access_token = access_token;
        if refresh_token.is_some() {
            entry.1.refresh_token = refresh_token;
        }
        entry.1.token_expires_at_ms = now_ms + expires_in_secs * 1000;
        self.sessions.insert(idx, entry);
        proof {
            assert(self.sessions@ =~= old(self).sessions@.update(
                idx as int,
                self.sessions@[idx as int],
            ));
            assert forall|i: int, j: int| 0 <= i < j < self.sessions@.len()
                implies (#[trigger] self.sessions@[i]).0@
                    != (#[trigger] self.sessions@[j]).0@ by {
                assert(self.sessions@[i].0 == old(self).sessions@[i].0);
                assert(self.sessions@[j].0 == old(self).sessions@[j].0);
            }
        }
    }

    /// Remove a session (logout or expiry); no-op when absent.
    pub fn remove(&mut self, session_id: &[u8])
        requires
            old(self).wf(),
        ensures
            final(self).wf(),
            final(self).ttl_secs == old(self).ttl_secs,
            spec_find_session(final(self).sessions@, session_id@) is None,
            match spec_find_session(old(self).sessions@, session_id@) {
                Some(i) => final(self).sessions@ == old(self).sessions@.remove(i),
                None => *final(self) == *old(self),
            },
    {
        let idx = match self.find_index(session_id) {
            Some(i) => i,
            None => {
                return;
            },
        };
        proof {
            lemma_find_some_first(self.sessions@, session_id@, idx as int);
        }
        self.sessions.remove(idx);
        proof {
            let s = self.sessions@;
            assert forall|j: int| 0 <= j < s.len() implies (#[trigger] s[j]).0@
                != session_id@ by {
                if j < idx {
                } else {
                    assert(s[j] == old(self).sessions@[j + 1]);
                    assert(old(self).sessions@[j + 1].0@ != old(self).sessions@[idx as int].0@);
                }
            }
            lemma_find_none_from_absent(s, session_id@);
        }
    }

    /// Number of stored sessions.
    pub fn count(&self) -> (r: usize)
        ensures
            r == self.sessions@.len(),
    {
        self.sessions.len()
    }

    /// Drop every session past the store TTL.
    pub fn prune(&mut self, now_ms: u64)
        requires
            old(self).wf(),
        ensures
            final(self).wf(),
            final(self).ttl_secs == old(self).ttl_secs,
            final(self).sessions@ == old(self).sessions@.filter(
                (|e: (Vec<u8>, SessionData)|
                    !old(self).spec_ttl_reached(e.1.created_at_ms, now_ms)),
            ),
    {
        let ttl_ms = self.ttl_secs * 1000;
        let ghost pred = (|e: (Vec<u8>, SessionData)|
            !old(self).spec_ttl_reached(e.1.created_at_ms, now_ms));
        let mut i: usize = 0;
        let ghost mut j: int = 0;
        proof {
            reveal(Seq::filter);
            assert(old(self).sessions@.take(0).filter(pred)
                =~= Seq::<(Vec<u8>, SessionData)>::empty());
            assert(self.sessions@ =~= old(self).sessions@.take(0).filter(pred)
                + old(self).sessions@.skip(0));
        }
        #[verifier::loop_isolation(false)]
        while i < self.sessions.len()
            invariant
                0 <= j <= old(self).sessions@.len(),
                self.ttl_secs == old(self).ttl_secs,
                ttl_ms == self.ttl_secs * 1000,
                i == old(self).sessions@.take(j).filter(pred).len(),
                self.sessions@ == old(self).sessions@.take(j).filter(pred)
                    + old(self).sessions@.skip(j),
            decreases self.sessions@.len() - i,
        {
            proof {
                reveal_with_fuel(Seq::filter, 2);
                assert(j < old(self).sessions@.len());
                assert(old(self).sessions@.take(j + 1).drop_last()
                    =~= old(self).sessions@.take(j));
                assert(old(self).sessions@.take(j + 1).last()
                    == old(self).sessions@[j]);
                assert(self.sessions@[i as int] == old(self).sessions@[j]);
            }
            let created = self.sessions[i].1.created_at_ms;
            if now_ms >= created && now_ms - created >= ttl_ms {
                self.sessions.remove(i);
                proof {
                    assert(self.sessions@ =~= old(self).sessions@.take(j + 1).filter(pred)
                        + old(self).sessions@.skip(j + 1));
                }
            } else {
                proof {
                    assert(self.sessions@ =~= old(self).sessions@.take(j + 1).filter(pred)
                        + old(self).sessions@.skip(j + 1));
                }
                i = i + 1;
            }
            proof {
                j = j + 1;
            }
        }
        proof {
            assert(old(self).sessions@.skip(j) =~= Seq::<(Vec<u8>, SessionData)>::empty());
            assert(j == old(self).sessions@.len());
            assert(old(self).sessions@.take(j) =~= old(self).sessions@);
            assert(self.sessions@ =~= old(self).sessions@.filter(pred));
            lemma_filter_keeps_unique(old(self).sessions@, pred);
        }
    }
}

proof fn lemma_find_none_means_absent(s: Seq<(Vec<u8>, SessionData)>, id: Seq<u8>, i: int)
    requires
        spec_find_session(s, id) is None,
        0 <= i < s.len(),
    ensures
        s[i].0@ != id,
    decreases s.len(),
{
    if i > 0 {
        lemma_find_none_means_absent(s.drop_first(), id, i - 1);
    }
}

proof fn lemma_find_none_from_absent(s: Seq<(Vec<u8>, SessionData)>, id: Seq<u8>)
    requires
        forall|j: int| 0 <= j < s.len() ==> (#[trigger] s[j]).0@ != id,
    ensures
        spec_find_session(s, id) is None,
    decreases s.len(),
{
    if s.len() > 0 {
        lemma_find_none_from_absent(s.drop_first(), id);
    }
}

proof fn lemma_find_last(s: Seq<(Vec<u8>, SessionData)>, pre: Seq<(Vec<u8>, SessionData)>)
    requires
        s.len() == pre.len() + 1,
        s.drop_last() == pre,
        spec_find_session(pre, s.last().0@) is None,
    ensures
        spec_find_session(s, s.last().0@) == Some(s.len() - 1),
    decreases s.len(),
{
    if s.len() > 1 {
        assert(s.drop_first().drop_last() =~= pre.drop_first());
        assert(s.drop_first().last() == s.last());
        lemma_find_last(s.drop_first(), pre.drop_first());
    }
}

/// A found index is the first match: everything before it has another id,
/// and the entry there has the id.
proof fn lemma_find_some_first(s: Seq<(Vec<u8>, SessionData)>, id: Seq<u8>, i: int)
    requires
        spec_find_session(s, id) == Some(i),
    ensures
        0 <= i < s.len(),
        s[i].0@ == id,
        forall|j: int| 0 <= j < i ==> (#[trigger] s[j]).0@ != id,
    decreases s.len(),
{
    if s.len() > 0 && !(s[0].0@ == id) {
        lemma_find_some_first(s.drop_first(), id, i - 1);
        assert forall|j: int| 0 <= j < i implies (#[trigger] s[j]).0@ != id by {
            if j > 0 {
                assert(s.drop_first()[j - 1] == s[j]);
            }
        }
    }
}

/// An element of a filtered sequence is an element of the original.
proof fn lemma_filter_subset(
    s: Seq<(Vec<u8>, SessionData)>,
    pred: spec_fn((Vec<u8>, SessionData)) -> bool,
    i: int,
)
    requires
        0 <= i < s.filter(pred).len(),
    ensures
        exists|k: int| 0 <= k < s.len() && #[trigger] s[k] == s.filter(pred)[i],
    decreases s.len(),
{
    reveal(Seq::filter);
    if s.len() > 0 {
        let sub = s.drop_last().filter(pred);
        if pred(s.last()) && i == sub.len() {
            assert(s[s.len() - 1] == s.filter(pred)[i]);
        } else {
            lemma_filter_subset(s.drop_last(), pred, i);
            let k = choose|k: int| 0 <= k < s.drop_last().len()
                && #[trigger] s.drop_last()[k] == sub[i];
            assert(s[k] == s.filter(pred)[i]);
        }
    }
}

/// Filtering a sequence with pairwise-distinct keys keeps the keys
/// pairwise distinct.
proof fn lemma_filter_keeps_unique(
    s: Seq<(Vec<u8>, SessionData)>,
    pred: spec_fn((Vec<u8>, SessionData)) -> bool,
)
    requires
        forall|i: int, j: int| 0 <= i < j < s.len()
            ==> (#[trigger] s[i]).0@ != (#[trigger] s[j]).0@,
    ensures
        forall|i: int, j: int| 0 <= i < j < s.filter(pred).len()
            ==> (#[trigger] s.filter(pred)[i]).0@ != (#[trigger] s.filter(pred)[j]).0@,
    decreases s.len(),
{
    reveal(Seq::filter);
    if s.len() > 0 {
        lemma_filter_keeps_unique(s.drop_last(), pred);
        let sub = s.drop_last().filter(pred);
        let f = s.filter(pred);
        if pred(s.last()) {
            assert forall|i: int, j: int| 0 <= i < j < f.len()
                implies (#[trigger] f[i]).0@ != (#[trigger] f[j]).0@ by {
                if j < sub.len() {
                    assert(f[i] == sub[i] && f[j] == sub[j]);
                } else {
                    assert(f[j] == s.last());
                    assert(f[i] == sub[i]);
                    lemma_filter_subset(s.drop_last(), pred, i);
                    let k = choose|k: int| 0 <= k < s.drop_last().len()
                        && #[trigger] s.drop_last()[k] == sub[i];
                    assert(s[k] == sub[i]);
                    assert(s[k].0@ != s[s.len() - 1].0@);
                }
            }
        } else {
            assert forall|i: int, j: int| 0 <= i < j < f.len()
                implies (#[trigger] f[i]).0@ != (#[trigger] f[j]).0@ by {
                assert(f[i] == sub[i] && f[j] == sub[j]);
            }
        }
    }
}

} // verus!

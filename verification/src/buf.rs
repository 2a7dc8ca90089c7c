//! Fixed-size write buffer for the zero-allocation reducer core: writes
//! beyond the capacity are dropped silently.

use vstd::prelude::*;

verus! {

/// Capacity of a reducer output buffer in bytes.
pub const BUF_CAP: usize = 4096;

/// What appending `s` to a buffer holding `cur` leaves in it: the
/// concatenation, truncated at the buffer capacity.
pub open spec fn buf_app(cur: Seq<u8>, s: Seq<u8>) -> Seq<u8> {
    (cur + s).take(vstd::math::min((cur.len() + s.len()) as int, BUF_CAP as int))
}

/// Appending in two steps is appending the concatenation.
pub proof fn lemma_buf_app_assoc(cur: Seq<u8>, a: Seq<u8>, b: Seq<u8>)
    requires
        cur.len() <= BUF_CAP,
    ensures
        buf_app(buf_app(cur, a), b) == buf_app(cur, a + b),
{
    assert(buf_app(buf_app(cur, a), b) =~= buf_app(cur, a + b));
}

/// Appending nothing changes nothing.
pub proof fn lemma_buf_app_empty(cur: Seq<u8>)
    requires
        cur.len() <= BUF_CAP,
    ensures
        buf_app(cur, Seq::<u8>::empty()) == cur,
{
    assert(buf_app(cur, Seq::<u8>::empty()) =~= cur);
}

/// Fixed-size write buffer.
pub struct Buf {
    pub data: Vec<u8>,
    pub len: usize,
}

impl Buf {
    /// The bytes written so far.
    pub open spec fn bytes(&self) -> Seq<u8> {
        self.data@.take(self.len as int)
    }

    pub open spec fn wf(&self) -> bool {
        &&& self.data@.len() == BUF_CAP
        &&& self.len <= BUF_CAP
    }

    pub fn new() -> (b: Buf)
        ensures
            b.wf(),
            b.len == 0,
            b.bytes() =~= Seq::<u8>::empty(),
    {
        let mut data: Vec<u8> = Vec::new();
        let mut i: usize = 0;
        while i < BUF_CAP
            invariant
                data@.len() == i,
                i <= BUF_CAP,
            decreases BUF_CAP - i,
        {
            data.push(0u8);
            i = i + 1;
        }
        Buf { data, len: 0 }
    }

    /// Forget everything written.
    pub fn clear(&mut self)
        requires
            old(self).wf(),
        ensures
            final(self).wf(),
            final(self).len == 0,
            final(self).bytes() =~= Seq::<u8>::empty(),
    {
        self.len = 0;
    }

    /// Append one byte; dropped when the buffer is full.
    pub fn push(&mut self, b: u8)
        requires
            old(self).wf(),
        ensures
            final(self).wf(),
            final(self).bytes() == buf_app(old(self).bytes(), seq![b]),
    {
        if self.len < BUF_CAP {
            self.data.set(self.len, b);
            self.len = self.len + 1;
            proof {
                assert(self.bytes() =~= buf_app(old(self).bytes(), seq![b]));
            }
        } else {
            proof {
                assert(self.bytes() =~= buf_app(old(self).bytes(), seq![b]));
            }
        }
    }

    /// Append a byte slice; bytes past the capacity are dropped.
    pub fn extend(&mut self, s: &[u8])
        requires
            old(self).wf(),
        ensures
            final(self).wf(),
            final(self).bytes() == buf_app(old(self).bytes(), s@),
    {
        let mut i: usize = 0;
        #[verifier::loop_isolation(false)]
        while i < s.len()
            invariant
                i <= s@.len(),
                self.wf(),
                self.bytes() == buf_app(old(self).bytes(), s@.take(i as int)),
            decreases s@.len() - i,
        {
            let ghost pre = self.bytes();
            self.push(s[i]);
            proof {
                lemma_buf_app_assoc(old(self).bytes(), s@.take(i as int), seq![s@[i as int]]);
                assert(s@.take(i as int) + seq![s@[i as int]] =~= s@.take(i + 1 as int));
            }
            i = i + 1;
        }
        proof {
            assert(s@.take(s@.len() as int) =~= s@);
        }
    }

    /// A copy of the bytes written so far.
    pub fn as_bytes(&self) -> (r: Vec<u8>)
        requires
            self.wf(),
        ensures
            r@ == self.bytes(),
    {
        let mut r: Vec<u8> = Vec::new();
        let mut i: usize = 0;
        while i < self.len
            invariant
                self.wf(),
                i <= self.len,
                r@ =~= self.data@.take(i as int),
            decreases self.len - i,
        {
            r.push(self.data[i]);
            proof {
                assert(r@ =~= self.data@.take(i + 1 as int));
            }
            i = i + 1;
        }
        r
    }
}

} // verus!

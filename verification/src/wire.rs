//! Unbounded byte-string builders for wire messages: JSON string literals,
//! decimal numbers, and raw embeddings, with exact byte-level contracts.

use vstd::prelude::*;
use crate::dom::{spec_json_esc, spec_str_lit, spec_dec};

verus! {

/// Append raw bytes.
pub fn push_bytes(out: &mut Vec<u8>, s: &[u8])
    ensures
        final(out)@ == old(out)@ + s@,
{
    out.extend_from_slice(s);
}

/// Append the JSON escaping of `s`.
pub fn push_escaped(out: &mut Vec<u8>, s: &[u8])
    ensures
        final(out)@ == old(out)@ + spec_json_esc(s@),
{
    let ghost mut acc: Seq<u8> = Seq::empty();
    let mut i: usize = 0;
    proof {
        assert(s@.skip(0) =~= s@);
        assert(acc + spec_json_esc(s@) =~= spec_json_esc(s@));
        assert(out@ =~= old(out)@ + acc);
    }
    #[verifier::loop_isolation(false)]
    while i < s.len()
        invariant
            i <= s@.len(),
            spec_json_esc(s@) == acc + spec_json_esc(s@.skip(i as int)),
            out@ == old(out)@ + acc,
        decreases s@.len() - i,
    {
        let ghost rest = s@.skip(i as int);
        let b = s[i];
        proof {
            assert(rest[0] == b);
            assert(rest.drop_first() =~= s@.skip(i + 1));
        }
        let ghost head: Seq<u8> = if b == 34 {
            seq![92u8, 34u8]
        } else if b == 92 {
            seq![92u8, 92u8]
        } else if b == 10 {
            seq![92u8, 110u8]
        } else {
            seq![b]
        };
        proof {
            assert(spec_json_esc(rest) == head + spec_json_esc(rest.drop_first()));
            assert(acc + spec_json_esc(rest)
                =~= (acc + head) + spec_json_esc(rest.drop_first()));
        }
        if b == 34 {
            out.push(92);
            out.push(34);
        } else if b == 92 {
            out.push(92);
            out.push(92);
        } else if b == 10 {
            out.push(92);
            out.push(110);
        } else {
            out.push(b);
        }
        proof {
            assert(out@ =~= old(out)@ + (acc + head));
            acc = acc + head;
        }
        i = i + 1;
    }
    proof {
        assert(s@.skip(s@.len() as int) =~= Seq::<u8>::empty());
        assert(acc + spec_json_esc(s@.skip(i as int)) =~= acc);
    }
}

/// Append a quoted, escaped JSON string literal.
pub fn push_str_lit(out: &mut Vec<u8>, s: &[u8])
    ensures
        final(out)@ == old(out)@ + spec_str_lit(s@),
{
    out.push(34);
    push_escaped(out, s);
    out.push(34);
    proof {
        assert(out@ =~= old(out)@ + spec_str_lit(s@));
    }
}

/// Append `n` in decimal digits (nothing for zero).
pub fn push_dec_digits(out: &mut Vec<u8>, n: u64)
    ensures
        final(out)@ == old(out)@ + spec_dec(n as nat),
    decreases n,
{
    if n == 0 {
        proof {
            assert(out@ =~= old(out)@ + spec_dec(0));
        }
        return;
    }
    push_dec_digits(out, n / 10);
    out.push(48 + (n % 10) as u8);
    proof {
        assert(out@ =~= old(out)@ + spec_dec(n as nat));
    }
}

/// Decimal rendering of an unsigned number, `"0"` for zero.
pub open spec fn spec_u64_str(n: nat) -> Seq<u8> {
    if n == 0 {
        seq![48u8]
    } else {
        spec_dec(n)
    }
}

/// Append `n` in decimal, `"0"` for zero.
pub fn push_u64(out: &mut Vec<u8>, n: u64)
    ensures
        final(out)@ == old(out)@ + spec_u64_str(n as nat),
{
    if n == 0 {
        out.push(48);
        proof {
            assert(out@ =~= old(out)@ + spec_u64_str(0));
        }
    } else {
        push_dec_digits(out, n);
    }
}

} // verus!

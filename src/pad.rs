//! Cutting a bit sequence into chunks of `K` bits.

use vstd::arithmetic::power2::{lemma2_to64, lemma_pow2_unfold, pow2};
use vstd::prelude::*;

use crate::K;

verus! {

/// The weight of one bit.
pub open spec fn bit_value(b: bool) -> nat {
    if b {
        1
    } else {
        0
    }
}

/// The little-endian value of a bit sequence: bit `i` weighs `2^i`.
pub open spec fn le_value(bits: Seq<bool>) -> nat
    decreases bits.len(),
{
    if bits.len() == 0 {
        0
    } else {
        le_value(bits.drop_last()) + bit_value(bits.last()) * pow2((bits.len() - 1) as nat)
    }
}

/// The `K` bits at the front of `bits`, with `false` past its end.
pub open spec fn chunk_bits(bits: Seq<bool>) -> Seq<bool> {
    Seq::new(K as nat, |j: int| j < bits.len() && bits[j])
}

/// The value of the chunk at the front of `bits`.
pub open spec fn chunk_value(bits: Seq<bool>) -> nat {
    le_value(chunk_bits(bits))
}

/// What is left of `bits` once the chunk at its front is taken.
pub open spec fn drop_chunk(bits: Seq<bool>) -> Seq<bool> {
    if bits.len() <= K {
        Seq::empty()
    } else {
        bits.skip(K as int)
    }
}

/// The chunk values of a message, in order; the last chunk is padded with zero bits.
pub open spec fn pad_chunks(bits: Seq<bool>) -> Seq<nat>
    decreases bits.len(),
{
    if bits.len() == 0 {
        Seq::empty()
    } else {
        seq![chunk_value(bits)] + pad_chunks(drop_chunk(bits))
    }
}

proof fn lemma_le_value_bound(s: Seq<bool>)
    ensures
        le_value(s) < pow2(s.len()),
    decreases s.len(),
{
    if s.len() > 0 {
        lemma_le_value_bound(s.drop_last());
        lemma_pow2_unfold(s.len());
    } else {
        lemma2_to64();
    }
}

proof fn lemma_le_value_zero_tail(s: Seq<bool>, m: int)
    requires
        0 <= m <= s.len(),
        forall|j: int| m <= j < s.len() ==> !s[j],
    ensures
        le_value(s) == le_value(s.take(m)),
    decreases s.len(),
{
    if s.len() == m {
        assert(s.take(m) =~= s);
    } else {
        lemma_le_value_zero_tail(s.drop_last(), m);
        assert(s.drop_last().take(m) =~= s.take(m));
    }
}

/// A chunk taken from fewer than `K` remaining bits is their value: the
/// padding only adds zero bits above them.
proof fn lemma_short_chunk(bits: Seq<bool>)
    requires
        bits.len() <= K,
    ensures
        chunk_value(bits) == le_value(bits),
{
    let cb = chunk_bits(bits);
    lemma_le_value_zero_tail(cb, bits.len() as int);
    assert(cb.take(bits.len() as int) =~= bits);
}

/// Padding: a message of `L` bits gives `ceil(L / K)` chunks (none when `L` is
/// zero), each below `2^K`; chunk `i` is read from bit `K * i` on. The last chunk is the little-endian value of the
/// bits left for it, so its positions past the message's end are zero.
pub proof fn lemma_padding(bits: Seq<bool>)
    ensures
        pad_chunks(bits).len() == (bits.len() + K - 1) / (K as int),
        forall|i: int|
            0 <= i < pad_chunks(bits).len() ==> #[trigger] pad_chunks(bits)[i] < pow2(K as nat),
        forall|i: int|
            0 <= i < pad_chunks(bits).len() ==> #[trigger] pad_chunks(bits)[i] == chunk_value(
                bits.skip(K * i),
            ),
        bits.len() > 0 ==> pad_chunks(bits).last() == le_value(
            bits.skip(K * (pad_chunks(bits).len() - 1)),
        ),
        bits.len() > 0 ==> pad_chunks(bits).last() < pow2(
            (bits.len() - K * (pad_chunks(bits).len() - 1)) as nat,
        ),
    decreases bits.len(),
{
    if bits.len() > 0 {
        let rest = drop_chunk(bits);
        let p = pad_chunks(bits);
        let pr = pad_chunks(rest);
        lemma_padding(rest);
        lemma_le_value_bound(chunk_bits(bits));
        assert(p == seq![chunk_value(bits)] + pr);
        if bits.len() <= K {
            assert(pr.len() == 0);
            lemma_short_chunk(bits);
            assert(bits.skip(0) =~= bits);
            lemma_le_value_bound(bits);
        } else {
            let m = K * (pr.len() - 1);
            assert(bits.skip(K + m) =~= rest.skip(m));
            assert(p.last() == pr.last());
        }
        assert forall|i: int| 0 <= i < p.len() implies #[trigger] p[i] < pow2(K as nat) by {
            if i > 0 {
                assert(p[i] == pr[i - 1]);
            }
        }
        assert forall|i: int| 0 <= i < p.len() implies #[trigger] p[i] == chunk_value(
            bits.skip(K * i),
        ) by {
            if i > 0 {
                assert(p[i] == pr[i - 1]);
                assert(bits.skip(K * i) =~= rest.skip(K * (i - 1)));
            } else {
                assert(bits.skip(0) =~= bits);
            }
        }
    }
}

/// A pull-based reader of the chunks of a bit sequence.
pub struct Pad<'a> {
    bits: &'a [bool],
    pos: usize,
}

impl<'a> Pad<'a> {
    /// The bits not consumed yet.
    pub closed spec fn rest(&self) -> Seq<bool> {
        self.bits@.skip(self.pos as int)
    }

    pub closed spec fn wf(&self) -> bool {
        self.pos <= self.bits@.len()
    }

    /// A reader positioned at the first bit of `inner`.
    pub fn new(inner: &'a [bool]) -> (r: Self)
        ensures
            r.wf(),
            r.rest() == inner@,
    {
        let r = Pad { bits: inner, pos: 0 };
        assert(r.rest() =~= inner@);
        r
    }

    /// Takes the next chunk: `None` once every bit has been consumed.
    pub fn next(&mut self) -> (r: Option<u32>)
        requires
            old(self).wf(),
        ensures
            final(self).wf(),
            r.is_none() <==> old(self).rest().len() == 0,
            r.is_none() ==> final(self).rest() == old(self).rest(),
            r.is_some() ==> r.unwrap() as nat == chunk_value(old(self).rest()),
            r.is_some() ==> final(self).rest() == drop_chunk(old(self).rest()),
    {
        let len = self.bits.len();
        if self.pos >= len {
            return None;
        }
        let ghost rest = self.rest();
        let ghost cb = chunk_bits(rest);
        let left: usize = len - self.pos;
        let mut acc: u32 = 0;
        let mut w: u32 = 1;
        let mut i: usize = 0;
        proof {
            lemma2_to64();
            assert(cb.take(0) =~= Seq::<bool>::empty());
        }
        while i < K
            invariant
                i <= K,
                self.pos < len,
                len == self.bits@.len(),
                left == len - self.pos,
                rest == self.rest(),
                cb == chunk_bits(rest),
                w as nat == pow2(i as nat),
                acc as nat == le_value(cb.take(i as int)),
                acc as nat <= pow2(i as nat) - 1,
            decreases K - i,
        {
            let b = if i < left {
                self.bits[self.pos + i]
            } else {
                false
            };
            proof {
                lemma2_to64();
                lemma_pow2_unfold((i + 1) as nat);
                let t = cb.take(i + 1);
                assert(t.drop_last() =~= cb.take(i as int));
                assert(t.last() == b);
                assert(t.len() == i + 1);
                assert(le_value(t) == le_value(cb.take(i as int)) + bit_value(b) * pow2(i as nat));
                if b {
                    assert(bit_value(b) * pow2(i as nat) == pow2(i as nat));
                } else {
                    assert(bit_value(b) * pow2(i as nat) == 0);
                }
            }
            if b {
                acc = acc + w;
            }
            w = w * 2;
            i = i + 1;
        }
        assert(cb.take(K as int) =~= cb);
        if left <= K {
            self.pos = len;
            assert(self.rest() =~= drop_chunk(rest));
        } else {
            self.pos = self.pos + K;
            assert(self.rest() =~= drop_chunk(rest));
        }
        Some(acc)
    }
}

} // verus!

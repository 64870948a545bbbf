//! Hash domains and commitment domains.

use pasta_curves::pallas;
use vstd::prelude::*;
use vstd::string::{StrSliceExecFns, StringExecFns, StringSliceAdditionalSpecFns};
use vstd::utf8::{encode_utf8, is_ascii_chars, is_ascii_chars_encode_utf8};

use crate::curve::{
    affine_x, affine_x_of, base_from_u64, base_of_u64, hash_to_curve, hash_to_curve_of,
    is_identity, is_identity_of, point_add, point_add_of, scalar_mul, scalar_mul_of,
};
use crate::pad::{chunk_value, drop_chunk, pad_chunks, Pad};
use crate::{K, Q_PERSONALIZATION, S_PERSONALIZATION};

verus! {

/// Domain of the note commitment.
pub const NOTE_COMMIT_DOMAIN: &'static str = "z.cash:Orchard-NoteCommit";

/// Domain of the commitment to an incoming viewing key.
pub const COMMIT_IVK_DOMAIN: &'static str = "z.cash:Orchard-CommitIvk";

/// The four little-endian bytes of a 32-bit value.
pub open spec fn le_bytes_u32(n: nat) -> Seq<u8> {
    seq![
        (n % 256) as u8,
        ((n / 256) % 256) as u8,
        ((n / 65536) % 256) as u8,
        ((n / 16777216) % 256) as u8,
    ]
}

/// The generator point that chunk value `n` selects.
pub open spec fn chunk_generator(n: nat) -> pallas::Point {
    hash_to_curve_of(S_PERSONALIZATION@, le_bytes_u32(n))
}

/// One step of the fold: `(acc + S(n)) + acc`, with two complete additions.
pub open spec fn accumulate(acc: pallas::Point, n: nat) -> pallas::Point {
    point_add_of(point_add_of(acc, chunk_generator(n)), acc)
}

/// The chunks folded left to right into an accumulator that starts at `q`.
pub open spec fn fold_chunks(q: pallas::Point, chunks: Seq<nat>) -> pallas::Point
    decreases chunks.len(),
{
    if chunks.len() == 0 {
        q
    } else {
        accumulate(fold_chunks(q, chunks.drop_last()), chunks.last())
    }
}

/// The Sinsemilla hash point of `msg` in the domain whose point is `q`.
pub open spec fn sinsemilla_point(q: pallas::Point, msg: Seq<bool>) -> pallas::Point {
    fold_chunks(q, pad_chunks(msg))
}

/// The x-coordinate of a point, zero for the identity.
pub open spec fn extract(p: pallas::Point) -> pallas::Base {
    if is_identity_of(p) {
        base_of_u64(0)
    } else {
        affine_x_of(p)
    }
}

/// The point `Q` of the hash domain named `domain`.
pub open spec fn domain_point(domain: Seq<char>) -> pallas::Point {
    hash_to_curve_of(Q_PERSONALIZATION@, encode_utf8(domain))
}

/// The two domains a commitment domain can be built for.
pub open spec fn is_commit_domain(domain: Seq<char>) -> bool {
    domain == NOTE_COMMIT_DOMAIN@ || domain == COMMIT_IVK_DOMAIN@
}

proof fn lemma_ascii_bytes(s: Seq<char>)
    requires
        is_ascii_chars(s),
    ensures
        encode_utf8(s).len() == s.len(),
{
    is_ascii_chars_encode_utf8(s);
}

fn extract_p(point: &pallas::Point) -> (r: pallas::Base)
    ensures
        r == extract(*point),
{
    if is_identity(point) {
        base_from_u64(0)
    } else {
        affine_x(point)
    }
}

fn chunk_point(n: u32) -> (r: pallas::Point)
    ensures
        r == chunk_generator(n as nat),
{
    let bytes: Vec<u8> = vec![
        (n % 256) as u8,
        ((n / 256) % 256) as u8,
        ((n / 65536) % 256) as u8,
        ((n / 16777216) % 256) as u8,
    ];
    proof {
        reveal_strlit("z.cash:SinsemillaS");
        lemma_ascii_bytes(S_PERSONALIZATION@);
        assert(bytes@ =~= le_bytes_u32(n as nat));
    }
    hash_to_curve(S_PERSONALIZATION, bytes.as_slice())
}

/// Determinism: the hash point, the hash and the commitment depend on the
/// domain name, the message and the blinding factor alone.
pub proof fn lemma_deterministic(
    d1: Seq<char>,
    d2: Seq<char>,
    m1: Seq<bool>,
    m2: Seq<bool>,
    r1: pallas::Scalar,
    r2: pallas::Scalar,
)
    requires
        d1 == d2,
        m1 == m2,
        r1 == r2,
    ensures
        sinsemilla_point(domain_point(d1), m1) == sinsemilla_point(domain_point(d2), m2),
        extract(sinsemilla_point(domain_point(d1), m1)) == extract(
            sinsemilla_point(domain_point(d2), m2),
        ),
        point_add_of(
            sinsemilla_point(domain_point(d1 + "-M"@), m1),
            scalar_mul_of(blinding_point(d1), r1),
        ) == point_add_of(
            sinsemilla_point(domain_point(d2 + "-M"@), m2),
            scalar_mul_of(blinding_point(d2), r2),
        ),
{
}

/// The fold goes left to right: appending a chunk applies one more step to
/// the accumulator of the chunks before it.
pub proof fn lemma_fold_left_to_right(q: pallas::Point, chunks: Seq<nat>, n: nat)
    ensures
        fold_chunks(q, chunks.push(n)) == accumulate(fold_chunks(q, chunks), n),
{
    assert(chunks.push(n).drop_last() =~= chunks);
}

/// A message of one or two chunks: the first chunk is folded into `Q` first,
/// the second after it.
pub proof fn lemma_two_chunks(q: pallas::Point, msg: Seq<bool>)
    requires
        K < msg.len() <= 2 * K,
    ensures
        sinsemilla_point(q, msg) == accumulate(
            accumulate(q, chunk_value(msg)),
            chunk_value(msg.skip(K as int)),
        ),
{
    let rest = msg.skip(K as int);
    assert(drop_chunk(msg) == rest);
    assert(drop_chunk(rest) =~= Seq::<bool>::empty());
    assert(pad_chunks(rest) =~= seq![chunk_value(rest)] + pad_chunks(Seq::<bool>::empty()));
    let c = pad_chunks(msg);
    assert(c =~= seq![chunk_value(msg), chunk_value(rest)]);
    assert(c.drop_last() =~= seq![chunk_value(msg)]);
    assert(c.drop_last().drop_last() =~= Seq::<nat>::empty());
    let c1 = c.drop_last();
    assert(c1.last() == chunk_value(msg));
    assert(fold_chunks(q, c1.drop_last()) == q);
    assert(fold_chunks(q, c1) == accumulate(fold_chunks(q, c1.drop_last()), c1.last()));
    assert(fold_chunks(q, c) == accumulate(fold_chunks(q, c.drop_last()), chunk_value(rest)));
}

/// A Sinsemilla hash domain: the point `Q` that every hash in it starts from.
#[derive(Debug, Clone, Copy)]
pub struct HashDomain {
    q: pallas::Point,
}

impl HashDomain {
    /// The domain's point `Q`.
    pub closed spec fn q_point(&self) -> pallas::Point {
        self.q
    }

    /// The hash domain named `domain`.
    pub fn new(domain: &str) -> (r: Self)
        ensures
            r.q_point() == domain_point(domain@),
    {
        proof {
            reveal_strlit("z.cash:SinsemillaQ");
            lemma_ascii_bytes(Q_PERSONALIZATION@);
        }
        HashDomain { q: hash_to_curve(Q_PERSONALIZATION, domain.as_bytes()) }
    }

    /// The hash of `msg` as a point: the padded chunks folded into `Q`.
    pub fn hash_to_point(&self, msg: &[bool]) -> (r: pallas::Point)
        ensures
            r == sinsemilla_point(self.q_point(), msg@),
    {
        let mut pad = Pad::new(msg);
        let mut acc = self.q;
        let ghost mut done: Seq<nat> = Seq::empty();
        assert(done + pad_chunks(pad.rest()) =~= pad_chunks(msg@));
        loop
            invariant
                pad.wf(),
                done + pad_chunks(pad.rest()) == pad_chunks(msg@),
                acc == fold_chunks(self.q, done),
            ensures
                acc == sinsemilla_point(self.q, msg@),
            decreases pad.rest().len(),
        {
            let ghost before = pad.rest();
            match pad.next() {
                None => {
                    assert(done + pad_chunks(pad.rest()) =~= done);
                    break ;
                },
                Some(n) => {
                    let s = chunk_point(n);
                    let t = point_add(&acc, &s);
                    acc = point_add(&t, &acc);
                    proof {
                        let next = done.push(n as nat);
                        assert(pad_chunks(before) == seq![n as nat] + pad_chunks(pad.rest()));
                        assert(next + pad_chunks(pad.rest()) =~= done + pad_chunks(before));
                        assert(next.drop_last() =~= done);
                        done = next;
                    }
                },
            }
        }
        acc
    }

    /// The hash of `msg` as a field element: the x-coordinate of the hash
    /// point, zero where that point is the identity.
    pub fn hash(&self, msg: &[bool]) -> (r: pallas::Base)
        ensures
            r == extract(sinsemilla_point(self.q_point(), msg@)),
    {
        let p = self.hash_to_point(msg);
        extract_p(&p)
    }
}

/// The blinding generator `R` of the commitment domain named `domain`.
pub open spec fn blinding_point(domain: Seq<char>) -> pallas::Point {
    hash_to_curve_of(domain + "-r"@, Seq::empty())
}

/// The commitment of `msg` with blinding factor `r`: the hash point under
/// `m` plus `big_r * r`, with complete addition.
pub open spec fn commit_point(
    m: HashDomain,
    big_r: pallas::Point,
    msg: Seq<bool>,
    r: pallas::Scalar,
) -> pallas::Point {
    point_add_of(sinsemilla_point(m.q_point(), msg), scalar_mul_of(big_r, r))
}

/// A Sinsemilla commitment domain: a hash domain `M` and a blinding generator `R`.
#[derive(Debug)]
pub struct CommitDomain {
    m: HashDomain,
    r: pallas::Point,
}

impl CommitDomain {
    /// The hash domain `M`.
    pub closed spec fn m_domain(&self) -> HashDomain {
        self.m
    }

    /// The blinding generator `R`.
    pub closed spec fn r_point(&self) -> pallas::Point {
        self.r
    }

    /// Whether `domain` names one of the commitment domains.
    pub fn is_recognized(domain: &str) -> (r: bool)
        ensures
            r == is_commit_domain(domain@),
    {
        str_equal(domain, NOTE_COMMIT_DOMAIN) || str_equal(domain, COMMIT_IVK_DOMAIN)
    }

    /// The commitment domain named `domain`: `M` is the hash domain named
    /// `domain` followed by `-M`, and `R` hashes the empty message under the
    /// personalization `domain` followed by `-r`.
    pub fn new(domain: &str) -> (r: Self)
        requires
            is_commit_domain(domain@),
        ensures
            r.m_domain().q_point() == domain_point(domain@ + "-M"@),
            r.r_point() == blinding_point(domain@),
    {
        let m_prefix = String::from_str(domain).concat("-M");
        let r_prefix = String::from_str(domain).concat("-r");
        let empty: Vec<u8> = Vec::new();
        proof {
            reveal_strlit("z.cash:Orchard-NoteCommit");
            reveal_strlit("z.cash:Orchard-CommitIvk");
            reveal_strlit("-r");
            lemma_ascii_bytes(r_prefix@);
        }
        let m = HashDomain::new(m_prefix.as_str());
        let r = hash_to_curve(r_prefix.as_str(), empty.as_slice());
        assert(empty@ =~= Seq::<u8>::empty());
        CommitDomain { m, r }
    }

    /// The commitment `M.hash_to_point(msg) + R * r`.
    pub fn commit(&self, msg: &[bool], r: &pallas::Scalar) -> (c: pallas::Point)
        ensures
            c == commit_point(self.m_domain(), self.r_point(), msg@, *r),
            is_identity_of(scalar_mul_of(self.r_point(), *r)) ==> c == sinsemilla_point(
                self.m_domain().q_point(),
                msg@,
            ),
    {
        let h = self.m.hash_to_point(msg);
        let blind = scalar_mul(&self.r, r);
        point_add(&h, &blind)
    }

    /// The x-coordinate of the commitment, zero where it is the identity.
    pub fn short_commit(&self, msg: &[bool], r: &pallas::Scalar) -> (c: pallas::Base)
        ensures
            c == extract(commit_point(self.m_domain(), self.r_point(), msg@, *r)),
    {
        let p = self.commit(msg, r);
        extract_p(&p)
    }
}

/// Character-wise equality of two strings.
fn str_equal(a: &str, b: &str) -> (r: bool)
    ensures
        r == (a@ == b@),
{
    let n = a.unicode_len();
    if n != b.unicode_len() {
        return false;
    }
    let mut i: usize = 0;
    while i < n
        invariant
            n == a@.len(),
            n == b@.len(),
            i <= n,
            a@.take(i as int) == b@.take(i as int),
        decreases n - i,
    {
        if a.get_char(i) != b.get_char(i) {
            return false;
        }
        assert(a@.take(i + 1) =~= a@.take(i as int).push(a@[i as int]));
        assert(b@.take(i + 1) =~= b@.take(i as int).push(b@[i as int]));
        i = i + 1;
    }
    assert(a@.take(n as int) =~= a@);
    assert(b@.take(n as int) =~= b@);
    true
}

} // verus!

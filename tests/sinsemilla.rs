use group::Curve;
use pasta_curves::arithmetic::{CurveAffine, CurveExt};
use pasta_curves::pallas;

use sinsemilla::domain::{CommitDomain, HashDomain, COMMIT_IVK_DOMAIN, NOTE_COMMIT_DOMAIN};
use sinsemilla::pad::Pad;
use sinsemilla::{K, Q_PERSONALIZATION, S_PERSONALIZATION};

fn chunks_of(bits: &[bool]) -> Vec<u32> {
    let mut pad = Pad::new(bits);
    let mut out = Vec::new();
    while let Some(n) = pad.next() {
        out.push(n);
    }
    out
}

fn bits_of(values: &[u32], width: usize) -> Vec<bool> {
    let mut bits = Vec::new();
    for v in values {
        for i in 0..width {
            bits.push((v >> i) & 1 == 1);
        }
    }
    bits
}

fn x_of(p: &pallas::Point) -> pallas::Base {
    *p.to_affine().coordinates().unwrap().x()
}

fn manual_hash(domain: &str, chunks: &[u32]) -> pallas::Point {
    let s = pallas::Point::hash_to_curve(S_PERSONALIZATION);
    let mut acc = pallas::Point::hash_to_curve(Q_PERSONALIZATION)(domain.as_bytes());
    for n in chunks {
        let gen = s(&n.to_le_bytes());
        acc = (acc + gen) + acc;
    }
    acc
}

#[test]
fn chunk_width_is_ten() {
    assert_eq!(K, 10);
}

#[test]
fn empty_message_gives_no_chunks() {
    assert!(chunks_of(&[]).is_empty());
}

#[test]
fn eleven_bits_give_two_chunks() {
    let bits = [
        true, false, true, true, false, false, false, false, false, true, true,
    ];
    // 1 + 4 + 8 + 512, then the eleventh bit alone.
    assert_eq!(chunks_of(&bits), vec![525, 1]);
}

#[test]
fn chunk_count_is_length_over_k_rounded_up() {
    for len in 0..45usize {
        let bits = vec![true; len];
        assert_eq!(chunks_of(&bits).len(), (len + K - 1) / K);
    }
}

#[test]
fn full_chunk_of_ones_is_largest_value() {
    assert_eq!(chunks_of(&[true; 10]), vec![1023]);
}

#[test]
fn last_chunk_high_bits_are_zero() {
    let bits = [true; 13];
    assert_eq!(chunks_of(&bits), vec![1023, 7]);
}

#[test]
fn chunks_decode_little_endian() {
    let bits = bits_of(&[5, 1000, 0, 513], 10);
    assert_eq!(chunks_of(&bits), vec![5, 1000, 0, 513]);
}

#[test]
fn empty_message_hashes_to_x_of_q() {
    let domain = HashDomain::new("z.cash:test-Sinsemilla");
    let q = pallas::Point::hash_to_curve(Q_PERSONALIZATION)(b"z.cash:test-Sinsemilla");
    assert_eq!(domain.hash_to_point(&[]), q);
    assert_eq!(domain.hash(&[]), x_of(&q));
}

#[test]
fn eleven_bit_message_folds_two_chunks() {
    let bits = [
        true, false, true, true, false, false, false, false, false, true, true,
    ];
    let domain = HashDomain::new("z.cash:test-Sinsemilla");
    let expected = manual_hash("z.cash:test-Sinsemilla", &[525, 1]);
    assert_eq!(domain.hash_to_point(&bits), expected);
    assert_eq!(domain.hash(&bits), x_of(&expected));
}

#[test]
fn hash_is_deterministic() {
    let bits = bits_of(&[3, 77, 901], 10);
    let a = HashDomain::new("z.cash:test-Sinsemilla");
    let b = HashDomain::new("z.cash:test-Sinsemilla");
    assert_eq!(a.hash_to_point(&bits), b.hash_to_point(&bits));
    assert_eq!(a.hash(&bits), a.hash(&bits));
    let c = CommitDomain::new(NOTE_COMMIT_DOMAIN);
    let r = pallas::Scalar::from(42u64);
    assert_eq!(c.commit(&bits, &r), c.commit(&bits, &r));
    assert_eq!(c.short_commit(&bits, &r), c.short_commit(&bits, &r));
}

#[test]
fn distinct_domains_give_distinct_points() {
    let a = HashDomain::new("z.cash:test-A");
    let b = HashDomain::new("z.cash:test-B");
    for v in [0u32, 1, 513, 1023] {
        let bits = bits_of(&[v], 10);
        assert_ne!(a.hash_to_point(&bits), b.hash_to_point(&bits));
    }
    assert_ne!(a.hash_to_point(&[]), b.hash_to_point(&[]));
}

#[test]
fn swapped_chunks_change_the_hash() {
    let domain = HashDomain::new("z.cash:test-Sinsemilla");
    let ab = bits_of(&[3, 700], 10);
    let ba = bits_of(&[700, 3], 10);
    assert_ne!(domain.hash_to_point(&ab), domain.hash_to_point(&ba));
    assert_eq!(domain.hash_to_point(&ab), manual_hash("z.cash:test-Sinsemilla", &[3, 700]));
}

#[test]
fn trailing_zero_bits_within_a_chunk_do_not_matter() {
    let domain = HashDomain::new("z.cash:test-Sinsemilla");
    let short = [true, true, false];
    let long = [true, true, false, false, false];
    assert_eq!(domain.hash_to_point(&short), domain.hash_to_point(&long));
}

#[test]
fn zero_blinding_commits_to_the_hash_point() {
    let bits = bits_of(&[12, 345], 10);
    let c = CommitDomain::new(NOTE_COMMIT_DOMAIN);
    let m = HashDomain::new("z.cash:Orchard-NoteCommit-M");
    let zero = pallas::Scalar::from(0u64);
    assert_eq!(c.commit(&bits, &zero), m.hash_to_point(&bits));
    assert_eq!(c.short_commit(&bits, &zero), m.hash(&bits));
}

#[test]
fn blinding_adds_multiple_of_r() {
    let bits = bits_of(&[1, 2, 3], 10);
    let c = CommitDomain::new(COMMIT_IVK_DOMAIN);
    let m = HashDomain::new("z.cash:Orchard-CommitIvk-M");
    let r_gen = pallas::Point::hash_to_curve("z.cash:Orchard-CommitIvk-r")(&[]);
    let one = pallas::Scalar::from(1u64);
    let three = pallas::Scalar::from(3u64);
    let h = m.hash_to_point(&bits);
    assert_eq!(c.commit(&bits, &one), h + r_gen);
    assert_eq!(c.commit(&bits, &three), h + r_gen + r_gen + r_gen);
    assert_eq!(c.short_commit(&bits, &three), x_of(&(h + r_gen * three)));
}

#[test]
fn different_blinding_factors_give_different_commitments() {
    let bits = bits_of(&[9], 10);
    let c = CommitDomain::new(NOTE_COMMIT_DOMAIN);
    let r1 = pallas::Scalar::from(1u64);
    let r2 = pallas::Scalar::from(2u64);
    assert_ne!(c.commit(&bits, &r1), c.commit(&bits, &r2));
    assert_ne!(c.short_commit(&bits, &r1), c.short_commit(&bits, &r2));
}

#[test]
fn commit_of_empty_message() {
    let c = CommitDomain::new(NOTE_COMMIT_DOMAIN);
    let m = HashDomain::new("z.cash:Orchard-NoteCommit-M");
    let zero = pallas::Scalar::from(0u64);
    assert_eq!(c.commit(&[], &zero), m.hash_to_point(&[]));
}

#[test]
fn only_the_two_commit_domains_are_recognized() {
    assert!(CommitDomain::is_recognized(NOTE_COMMIT_DOMAIN));
    assert!(CommitDomain::is_recognized(COMMIT_IVK_DOMAIN));
    assert!(!CommitDomain::is_recognized("z.cash:Orchard-NoteCommit-M"));
    assert!(!CommitDomain::is_recognized("z.cash:Orchard"));
    assert!(!CommitDomain::is_recognized(""));
    assert!(!CommitDomain::is_recognized("z.cash:Orchard-CommitIvK"));
}

use curve25519_dalek::constants::RISTRETTO_BASEPOINT_POINT;
use curve25519_dalek::ristretto::CompressedRistretto;
use nimue::bare;
use nimue::hash::keccak::Keccak;
use nimue::plugins::dalek::{
    decode_points, decode_scalars, encode_points, encode_scalars, scalars_of_challenge,
    DalekBridge, DalekIO, RistrettoPoint, Scalar,
};
use nimue::traits::{
    FieldChallenges, FieldIOPattern, FieldPublic, FieldReader, FieldWriter, GroupIOPattern,
    GroupPublic, GroupReader, GroupWriter,
};
use nimue::{DuplexHash, IOPattern, IOPatternError, Merlin, Op, ProofError};
use rand::rngs::StdRng;
use rand::SeedableRng;

/// The group order, the lowest byte first.
const ORDER: [u8; 32] = [
    0xed, 0xd3, 0xf5, 0x5c, 0x1a, 0x63, 0x12, 0x58, 0xd6, 0x9c, 0xf7, 0xa2, 0xde, 0xf9, 0xde, 0x14,
    0, 0, 0, 0, 0, 0, 0, 0, 0, 0, 0, 0, 0, 0, 0, 0x10,
];

fn seeded(io: &IOPattern<Keccak>, seed: u64) -> Merlin<Keccak, u8, StdRng> {
    Merlin::new(io, StdRng::seed_from_u64(seed))
}

fn scalar(n: u64) -> Scalar {
    Scalar::from_canonical_bytes(curve25519_dalek::Scalar::from(n).to_bytes()).unwrap()
}

fn to_dalek(s: &Scalar) -> curve25519_dalek::Scalar {
    Option::from(curve25519_dalek::Scalar::from_canonical_bytes(*s.as_bytes())).unwrap()
}

fn point(p: &curve25519_dalek::RistrettoPoint) -> RistrettoPoint {
    RistrettoPoint::from_compressed(p.compress().to_bytes()).unwrap()
}

fn to_dalek_point(p: &RistrettoPoint) -> curve25519_dalek::RistrettoPoint {
    CompressedRistretto(*p.as_bytes()).decompress().unwrap()
}

#[test]
fn scalars_below_the_order_are_canonical() {
    assert!(Scalar::from_canonical_bytes([0u8; 32]).is_some());
    let mut below = ORDER;
    below[0] -= 1;
    assert_eq!(Scalar::from_canonical_bytes(below).unwrap().as_bytes(), &below);
    assert!(Scalar::from_canonical_bytes(ORDER).is_none());
    let mut above = ORDER;
    above[0] += 1;
    assert!(Scalar::from_canonical_bytes(above).is_none());
    assert!(Scalar::from_canonical_bytes([0xff; 32]).is_none());
    let mut high_bit = [0u8; 32];
    high_bit[31] = 0x80;
    assert!(Scalar::from_canonical_bytes(high_bit).is_none());
}

#[test]
fn wide_bytes_are_reduced_modulo_the_order() {
    let mut wide = [0u8; 64];
    wide[..32].copy_from_slice(&ORDER);
    assert_eq!(Scalar::from_bytes_mod_order_wide(&wide).as_bytes(), &[0u8; 32]);
    wide[0] += 5;
    assert_eq!(Scalar::from_bytes_mod_order_wide(&wide).as_bytes(), scalar(5).as_bytes());
    let mut small = [0u8; 64];
    small[0] = 7;
    small[1] = 1;
    assert_eq!(Scalar::from_bytes_mod_order_wide(&small).as_bytes(), scalar(263).as_bytes());
    // 2^256 = 16 * (order - c) with order = 2^252 + c.
    let mut big = [0u8; 64];
    big[32] = 1;
    let sixteen = curve25519_dalek::Scalar::from(16u64);
    let two_252 = -(curve25519_dalek::Scalar::from_bytes_mod_order({
        let mut c = ORDER;
        c[31] = 0;
        c
    }));
    assert_eq!(
        Scalar::from_bytes_mod_order_wide(&big).as_bytes(),
        &(sixteen * two_252).to_bytes()
    );
}

#[test]
fn points_are_validated() {
    let base = RISTRETTO_BASEPOINT_POINT.compress().to_bytes();
    assert_eq!(RistrettoPoint::from_compressed(base).unwrap().as_bytes(), &base);
    assert!(RistrettoPoint::from_compressed([0u8; 32]).is_some());
    assert!(RistrettoPoint::from_compressed([0xff; 32]).is_none());
    let mut negative = [0u8; 32];
    negative[0] = 1;
    assert!(RistrettoPoint::from_compressed(negative).is_none());
    let mut tampered = base;
    tampered[31] |= 0x80;
    assert!(RistrettoPoint::from_compressed(tampered).is_none());
}

#[test]
fn encodings_are_written_one_after_the_other() {
    let bytes = encode_scalars(&[scalar(1), scalar(258)]);
    let mut expected = vec![0u8; 64];
    expected[0] = 1;
    expected[32] = 2;
    expected[33] = 1;
    assert_eq!(bytes, expected);
    assert_eq!(encode_scalars(&[]), Vec::<u8>::new());
    let p = point(&RISTRETTO_BASEPOINT_POINT);
    let two = point(&(RISTRETTO_BASEPOINT_POINT + RISTRETTO_BASEPOINT_POINT));
    let bytes = encode_points(&[p, two]);
    assert_eq!(&bytes[..32], p.as_bytes());
    assert_eq!(&bytes[32..], two.as_bytes());
}

#[test]
fn decoding_undoes_encoding() {
    let scalars = [scalar(3), scalar(u64::MAX), scalar(0)];
    let decoded = decode_scalars(&encode_scalars(&scalars), 3).unwrap();
    for (a, b) in scalars.iter().zip(decoded.iter()) {
        assert_eq!(a.as_bytes(), b.as_bytes());
    }
    let points = [point(&RISTRETTO_BASEPOINT_POINT)];
    let decoded = decode_points(&encode_points(&points), 1).unwrap();
    assert_eq!(decoded[0].as_bytes(), points[0].as_bytes());
    let mut bad = encode_scalars(&scalars);
    bad[32..64].copy_from_slice(&ORDER);
    assert!(decode_scalars(&bad, 3).is_none());
    assert!(decode_points(&[0xff; 32], 1).is_none());
    assert!(decode_scalars(&[], 0).unwrap().is_empty());
}

#[test]
fn challenge_scalar_is_47_bytes_reduced() {
    let bytes: Vec<u8> = (1..=94u8).collect();
    let scalars = scalars_of_challenge(&bytes, 2);
    assert_eq!(scalars.len(), 2);
    for (i, s) in scalars.iter().enumerate() {
        let mut wide = [0u8; 64];
        wide[..47].copy_from_slice(&bytes[47 * i..47 * (i + 1)]);
        let expected = curve25519_dalek::Scalar::from_bytes_mod_order_wide(&wide);
        assert_eq!(s.as_bytes(), &expected.to_bytes());
    }
    // 47 bytes of 0xff are 2^376 - 1.
    let all = scalars_of_challenge(&[0xff; 47], 1);
    let mut two_376 = curve25519_dalek::Scalar::ONE;
    for _ in 0..376 {
        two_376 = two_376 + two_376;
    }
    assert_eq!(all[0].as_bytes(), &(two_376 - curve25519_dalek::Scalar::ONE).to_bytes());
}

#[test]
fn pattern_builders_count_bytes() {
    let io = IOPattern::<Keccak>::new("dalek")
        .unwrap()
        .add_points(2, "statement")
        .unwrap()
        .ratchet()
        .add_points(1, "K")
        .unwrap()
        .challenge_scalars(1, "c")
        .unwrap()
        .add_scalars(1, "r")
        .unwrap();
    assert_eq!(io.as_bytes(), b"dalek\0A64\x01statement\0R\0A32\x01K\0S47\x01c\0A32\x01r");
    let old = IOPattern::<Keccak>::new("dalek")
        .unwrap()
        .absorb_points(2, "statement")
        .unwrap()
        .absorb_scalars(3, "r")
        .unwrap();
    assert_eq!(old.as_bytes(), b"dalek\0A64\x01statement\0A96\x01r");
    let io = IOPattern::<Keccak>::new("dalek").unwrap();
    assert_eq!(io.add_scalars(usize::MAX / 32 + 1, "x").err(), Some(IOPatternError::CountOverflow));
    let io = IOPattern::<Keccak>::new("dalek").unwrap();
    assert_eq!(
        io.challenge_scalars(usize::MAX / 47 + 1, "x").err(),
        Some(IOPatternError::CountOverflow)
    );
}

#[test]
fn scalars_round_trip() {
    let io = IOPattern::<Keccak>::new("scalars").unwrap().add_scalars(2, "f").unwrap();
    let mut merlin = seeded(&io, 0);
    let scalars = [scalar(12345), scalar(u64::MAX)];
    merlin.add_scalars(&scalars).unwrap();
    assert_eq!(merlin.transcript(), &encode_scalars(&scalars)[..]);
    let mut arthur = io.to_arthur(merlin.transcript());
    let read = arthur.next_scalars(2).unwrap();
    assert_eq!(read.len(), 2);
    assert_eq!(read[0].as_bytes(), scalars[0].as_bytes());
    assert_eq!(read[1].as_bytes(), scalars[1].as_bytes());
}

#[test]
fn points_round_trip() {
    let io = IOPattern::<Keccak>::new("points").unwrap().add_points(1, "g").unwrap();
    let mut merlin = seeded(&io, 0);
    let p = point(&(RISTRETTO_BASEPOINT_POINT * curve25519_dalek::Scalar::from(77u64)));
    merlin.add_points(&[p]).unwrap();
    let mut arthur = io.to_arthur(merlin.transcript());
    let read = arthur.next_points(1).unwrap();
    assert_eq!(read[0].as_bytes(), p.as_bytes());
}

#[test]
fn non_canonical_scalar_is_a_serialization_error() {
    let io = IOPattern::<Keccak>::new("malformed").unwrap().add_scalars(2, "f").unwrap();
    let mut proof = encode_scalars(&[scalar(1)]);
    proof.extend_from_slice(&ORDER);
    let mut arthur = io.to_arthur(&proof);
    assert_eq!(arthur.next_scalars(2).err(), Some(ProofError::SerializationError));
    assert_eq!(
        arthur.challenge_bytes(1),
        Err(IOPatternError::Unexpected { expected: None, got: Op::Squeeze(1) })
    );
}

#[test]
fn invalid_point_is_a_serialization_error() {
    let io = IOPattern::<Keccak>::new("malformed").unwrap().add_points(1, "g").unwrap();
    let proof = [0xffu8; 32];
    let mut arthur = io.to_arthur(&proof);
    assert_eq!(arthur.next_points(1).err(), Some(ProofError::SerializationError));
}

#[test]
fn typed_reads_report_pattern_and_proof_errors() {
    let io = IOPattern::<Keccak>::new("e").unwrap().add_scalars(1, "f").unwrap();
    let proof = [0u8; 64];
    let mut arthur = io.to_arthur(&proof);
    assert_eq!(
        arthur.next_scalars(2).err(),
        Some(ProofError::InvalidIO(IOPatternError::Unexpected {
            expected: Some(Op::Absorb(32)),
            got: Op::Absorb(64)
        }))
    );
    let mut arthur = io.to_arthur(&proof[..31]);
    assert_eq!(arthur.next_scalars(1).err(), Some(ProofError::InvalidProof));
    let mut arthur = io.to_arthur(&proof[..31]);
    assert_eq!(arthur.next_points(1).err(), Some(ProofError::InvalidProof));
}

#[test]
fn scalar_where_a_point_is_declared_is_refused() {
    let io = IOPattern::<Keccak>::new("mismatch")
        .unwrap()
        .add_points(1, "K")
        .unwrap()
        .ratchet()
        .add_scalars(1, "r")
        .unwrap();
    let mut merlin = seeded(&io, 0);
    assert_eq!(
        merlin.add_scalars(&[scalar(1), scalar(2)]),
        Err(ProofError::InvalidIO(IOPatternError::Unexpected {
            expected: Some(Op::Absorb(32)),
            got: Op::Absorb(64)
        }))
    );
    assert_eq!(merlin.transcript(), b"");
}

#[test]
fn public_objects_are_absorbed_and_not_written() {
    let io = IOPattern::<Keccak>::new("pub")
        .unwrap()
        .add_points(1, "P")
        .unwrap()
        .add_scalars(1, "s")
        .unwrap()
        .challenge_bytes(16, "c")
        .unwrap();
    let p = point(&RISTRETTO_BASEPOINT_POINT);
    let mut public = seeded(&io, 0);
    public.public_points(&[p]).unwrap();
    public.public_scalars(&[scalar(9)]).unwrap();
    assert_eq!(public.transcript(), b"");
    let mut added = seeded(&io, 0);
    added.add_points(&[p]).unwrap();
    added.add_scalars(&[scalar(9)]).unwrap();
    let c = added.challenge_bytes(16).unwrap();
    assert_eq!(public.challenge_bytes(16).unwrap(), c);
    let mut arthur = io.to_arthur(&[]);
    arthur.public_points(&[p]).unwrap();
    arthur.public_scalars(&[scalar(9)]).unwrap();
    assert_eq!(arthur.challenge_bytes(16).unwrap(), c);
}

#[test]
fn challenge_scalars_are_the_same_on_both_sides() {
    let io = IOPattern::<Keccak>::new("c").unwrap().challenge_scalars(2, "c").unwrap();
    let mut merlin = seeded(&io, 0);
    let scalars = merlin.challenge_scalars(2).unwrap();
    let mut bytes = seeded(&io, 0);
    let raw = bytes.challenge_bytes(94).unwrap();
    let expected = scalars_of_challenge(&raw, 2);
    let mut arthur = io.to_arthur(&[]);
    let verifier = arthur.challenge_scalars(2).unwrap();
    for i in 0..2 {
        assert_eq!(scalars[i].as_bytes(), expected[i].as_bytes());
        assert_eq!(scalars[i].as_bytes(), verifier[i].as_bytes());
    }
    assert_eq!(
        merlin.challenge_scalars(1).err(),
        Some(ProofError::InvalidIO(IOPatternError::Unexpected {
            expected: None,
            got: Op::Squeeze(47)
        }))
    );
}

#[test]
fn counts_beyond_the_machine_are_refused() {
    let io = IOPattern::<Keccak>::new("big").unwrap().challenge_scalars(1, "c").unwrap();
    let mut merlin = seeded(&io, 0);
    assert_eq!(
        merlin.challenge_scalars(usize::MAX / 47 + 1).err(),
        Some(ProofError::InvalidIO(IOPatternError::CountOverflow))
    );
    assert!(merlin.challenge_scalars(1).is_err());
    let mut arthur = io.to_arthur(&[]);
    assert_eq!(
        arthur.challenge_scalars(usize::MAX).err(),
        Some(ProofError::InvalidIO(IOPatternError::CountOverflow))
    );
    let mut arthur = io.to_arthur(&[]);
    assert_eq!(
        arthur.next_scalars(usize::MAX / 32 + 1).err(),
        Some(ProofError::InvalidIO(IOPatternError::CountOverflow))
    );
    let mut arthur = io.to_arthur(&[]);
    assert_eq!(
        arthur.next_points(usize::MAX).err(),
        Some(ProofError::InvalidIO(IOPatternError::CountOverflow))
    );
    assert!(arthur.challenge_scalars(1).is_err());
}

fn schnorr_pattern() -> IOPattern<Keccak> {
    IOPattern::<Keccak>::new("nimue::example")
        .unwrap()
        .add_points(2, "statement")
        .unwrap()
        .ratchet()
        .add_points(1, "K")
        .unwrap()
        .challenge_scalars(1, "c")
        .unwrap()
        .add_scalars(1, "r")
        .unwrap()
}

fn schnorr_verify(
    io: &IOPattern<Keccak>,
    proof: &[u8],
    generator: &curve25519_dalek::RistrettoPoint,
    public_key: &curve25519_dalek::RistrettoPoint,
) -> Result<(), ProofError> {
    let mut arthur = io.to_arthur(proof);
    arthur.public_points(&[point(generator), point(public_key)])?;
    arthur.ratchet().map_err(ProofError::InvalidIO)?;
    let commitment = arthur.next_points(1)?;
    let c = arthur.challenge_scalars(1)?;
    let r = arthur.next_scalars(1)?;
    let lhs = generator * to_dalek(&r[0]);
    let rhs = to_dalek_point(&commitment[0]) + public_key * to_dalek(&c[0]);
    if lhs == rhs {
        Ok(())
    } else {
        Err(ProofError::InvalidProof)
    }
}

fn schnorr_prove(io: &IOPattern<Keccak>) -> (Vec<u8>, curve25519_dalek::Scalar) {
    let generator = RISTRETTO_BASEPOINT_POINT;
    let x = curve25519_dalek::Scalar::ONE;
    let public_key = generator * x;
    let k = curve25519_dalek::Scalar::from(2u64);
    let mut merlin = seeded(io, 0);
    merlin.public_points(&[point(&generator), point(&public_key)]).unwrap();
    merlin.ratchet().unwrap();
    merlin.add_points(&[point(&(generator * k))]).unwrap();
    let c = to_dalek(&merlin.challenge_scalars(1).unwrap()[0]);
    let r = k + c * x;
    merlin.add_scalars(&[Scalar::from_canonical_bytes(r.to_bytes()).unwrap()]).unwrap();
    (merlin.transcript().to_vec(), c)
}

#[test]
fn schnorr_proof_is_commitment_and_response() {
    let io = schnorr_pattern();
    let (proof, c) = schnorr_prove(&io);
    let generator = RISTRETTO_BASEPOINT_POINT;
    let mut expected = (generator + generator).compress().to_bytes().to_vec();
    expected.extend_from_slice(&(curve25519_dalek::Scalar::from(2u64) + c).to_bytes());
    assert_eq!(proof, expected);
    assert_eq!(schnorr_verify(&io, &proof, &generator, &generator), Ok(()));
}

#[test]
fn schnorr_with_tampered_commitment_fails() {
    let io = schnorr_pattern();
    let (proof, _) = schnorr_prove(&io);
    let generator = RISTRETTO_BASEPOINT_POINT;
    for i in 0..32 {
        let mut tampered = proof.clone();
        tampered[i] ^= 1;
        let r = schnorr_verify(&io, &tampered, &generator, &generator);
        assert!(
            r == Err(ProofError::SerializationError) || r == Err(ProofError::InvalidProof),
            "byte {}",
            i
        );
    }
}

#[test]
fn schnorr_with_tampered_response_fails() {
    let io = schnorr_pattern();
    let (mut proof, _) = schnorr_prove(&io);
    proof[32] ^= 1;
    let generator = RISTRETTO_BASEPOINT_POINT;
    assert_eq!(schnorr_verify(&io, &proof, &generator, &generator), Err(ProofError::InvalidProof));
}

fn bare_pattern() -> IOPattern<Keccak> {
    IOPattern::<Keccak>::new("bare")
        .unwrap()
        .absorb_scalars(2, "s")
        .unwrap()
        .absorb_points(1, "p")
        .unwrap()
        .squeeze(16, "c")
        .unwrap()
}

#[test]
fn bare_absorbs_each_encoding() {
    let io = bare_pattern();
    let p = point(&RISTRETTO_BASEPOINT_POINT);
    let mut merlin = bare::Merlin::new(&io);
    merlin.absorb_scalars(&[scalar(1), scalar(2)]).unwrap();
    merlin.absorb_points(&[p]).unwrap();
    let mut got = [0u8; 16];
    merlin.squeeze_bytes(&mut got).unwrap();
    let mut sponge = Keccak::new();
    sponge.absorb_unchecked(io.as_bytes());
    sponge.ratchet_unchecked();
    sponge.absorb_unchecked(&encode_scalars(&[scalar(1), scalar(2)]));
    sponge.absorb_unchecked(p.as_bytes());
    let mut expected = [0u8; 16];
    sponge.squeeze_unchecked(&mut expected);
    assert_eq!(got, expected);
}

#[test]
fn bare_absorb_stops_at_the_first_refusal() {
    let io = IOPattern::<Keccak>::new("bare").unwrap().absorb_scalars(1, "s").unwrap().ratchet();
    let mut merlin = bare::Merlin::new(&io);
    assert_eq!(
        merlin.absorb_scalars(&[scalar(1), scalar(2), scalar(3)]),
        Err(IOPatternError::Unexpected { expected: Some(Op::Ratchet), got: Op::Absorb(32) })
    );
    assert_eq!(
        merlin.ratchet(),
        Err(IOPatternError::Unexpected { expected: None, got: Op::Ratchet })
    );
    let mut merlin = bare::Merlin::new(&io);
    assert_eq!(merlin.absorb_points(&[]), Ok(()));
    assert_eq!(
        merlin.absorb_points(&[point(&RISTRETTO_BASEPOINT_POINT), point(&RISTRETTO_BASEPOINT_POINT)]),
        Err(IOPatternError::Unexpected { expected: Some(Op::Ratchet), got: Op::Absorb(32) })
    );
}

#[test]
fn bare_absorb_of_nothing_needs_an_absorb_at_the_head() {
    let none = IOPattern::<Keccak>::new("d").unwrap();
    let mut merlin = bare::Merlin::new(&none);
    assert_eq!(
        merlin.absorb_scalars(&[]),
        Err(IOPatternError::Unexpected { expected: None, got: Op::Absorb(0) })
    );
    let mut merlin = bare::Merlin::new(&none);
    assert_eq!(
        merlin.absorb_points(&[]),
        Err(IOPatternError::Unexpected { expected: None, got: Op::Absorb(0) })
    );
    let ratchet = IOPattern::<Keccak>::new("d").unwrap().ratchet();
    let mut merlin = bare::Merlin::new(&ratchet);
    assert_eq!(
        merlin.absorb_scalars(&[]),
        Err(IOPatternError::Unexpected { expected: Some(Op::Ratchet), got: Op::Absorb(0) })
    );
    assert_eq!(
        merlin.ratchet(),
        Err(IOPatternError::Unexpected { expected: None, got: Op::Ratchet })
    );
    let absorb = IOPattern::<Keccak>::new("d").unwrap().absorb_scalars(1, "s").unwrap();
    let mut merlin = bare::Merlin::new(&absorb);
    assert_eq!(merlin.absorb_scalars(&[]), Ok(()));
    assert_eq!(merlin.absorb_points(&[]), Ok(()));
    assert_eq!(merlin.absorb_scalars(&[scalar(4)]), Ok(()));
    assert_eq!(
        merlin.absorb_scalars(&[]),
        Err(IOPatternError::Unexpected { expected: None, got: Op::Absorb(0) })
    );
}

#[test]
fn decoding_needs_the_whole_runs() {
    let bytes = encode_scalars(&[scalar(3), scalar(4)]);
    assert!(decode_scalars(&bytes, 2).is_some());
    assert!(decode_scalars(&bytes, 1).is_none());
    assert!(decode_scalars(&bytes, 3).is_none());
    assert!(decode_scalars(&bytes[..63], 2).is_none());
    assert!(decode_scalars(&bytes, usize::MAX).is_none());
    assert!(decode_scalars(&[], 1).is_none());
    let points = encode_points(&[point(&RISTRETTO_BASEPOINT_POINT)]);
    assert!(decode_points(&points, 1).is_some());
    assert!(decode_points(&points, 0).is_none());
    assert!(decode_points(&points[..31], 1).is_none());
    assert!(decode_points(&points, usize::MAX / 16).is_none());
    assert!(decode_points(&[], 0).unwrap().is_empty());
}

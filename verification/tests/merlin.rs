use nimue::errors::EntropyError;
use nimue::hash::keccak::Keccak;
use nimue::{Csrng, DuplexHash, IOPattern, IOPatternError, Merlin, Op, ProofError};
use nimue::traits::ByteWriter;
use rand::rngs::StdRng;
use rand::{RngCore, SeedableRng};

fn seeded(io: &IOPattern<Keccak>, seed: u64) -> Merlin<Keccak, u8, StdRng> {
    Merlin::new(io, StdRng::seed_from_u64(seed))
}

fn challenge(merlin: &mut Merlin<Keccak, u8, StdRng>, n: usize) -> Vec<u8> {
    let mut out = vec![0u8; n];
    merlin.fill_challenge_units(&mut out).unwrap();
    out
}

#[test]
fn add_bytes_follows_the_pattern() {
    let io = IOPattern::<Keccak>::new("📝").unwrap().absorb(20, "how not to make pasta 🤌").unwrap();
    let mut merlin = io.to_merlin();
    assert!(merlin.add_bytes(&[0u8; 20]).is_ok());
    let result = merlin.add_bytes(b"1tbsp every 10 liters");
    assert!(result.is_err());
}

#[test]
fn rng_gives_bytes() {
    let io = IOPattern::<Keccak>::new("📝").unwrap();
    let mut merlin = io.to_merlin();
    assert_ne!(merlin.rng().next_u32().unwrap(), 0, "You won the lottery!");
    let mut challenges = [0u8; 32];
    merlin.rng().fill_bytes(&mut challenges).unwrap();
    assert_ne!(challenges, [0u8; 32]);
}

#[test]
fn transcript_holds_what_was_added() {
    let io = IOPattern::<Keccak>::new("📝").unwrap().absorb(8, "how to make pasta 🤌").unwrap();
    let mut merlin = io.to_merlin();
    merlin.add_bytes(b"1tbsp:3l").unwrap();
    assert_eq!(merlin.transcript(), b"1tbsp:3l");
}

#[test]
fn public_bytes_are_not_written() {
    let io = IOPattern::<Keccak>::new("📝").unwrap().absorb(20, "how not to make pasta 🙉").unwrap();
    let mut merlin = io.to_merlin();
    assert!(merlin.public_bytes(&[0u8; 20]).is_ok());
    assert_eq!(merlin.transcript(), b"");
}

#[test]
fn public_units_change_the_sponge_like_added_units() {
    let io = IOPattern::<Keccak>::new("public")
        .unwrap()
        .absorb(3, "x")
        .unwrap()
        .ratchet()
        .absorb(2, "y")
        .unwrap()
        .squeeze(16, "c")
        .unwrap();
    let mut public = seeded(&io, 1);
    public.public_units(b"xxx").unwrap();
    public.ratchet().unwrap();
    public.add_units(b"yy").unwrap();
    let mut added = seeded(&io, 1);
    added.add_units(b"xxx").unwrap();
    added.ratchet().unwrap();
    added.add_units(b"yy").unwrap();
    assert_eq!(public.transcript(), b"yy");
    assert_eq!(added.transcript(), b"xxxyy");
    assert_eq!(challenge(&mut public, 16), challenge(&mut added, 16));
    let (mut a, mut b) = ([0u8; 16], [0u8; 16]);
    public.rng().fill_bytes(&mut a).unwrap();
    added.rng().fill_bytes(&mut b).unwrap();
    assert_eq!(a, b);
}

#[test]
fn merged_absorbs_take_one_call_or_two() {
    let io = IOPattern::<Keccak>::new("merge")
        .unwrap()
        .absorb(5, "first")
        .unwrap()
        .absorb(5, "second")
        .unwrap()
        .squeeze(8, "c")
        .unwrap();
    let mut once = seeded(&io, 3);
    once.add_units(b"0123456789").unwrap();
    let mut twice = seeded(&io, 3);
    twice.add_units(b"01234").unwrap();
    twice.add_units(b"56789").unwrap();
    assert_eq!(once.transcript(), twice.transcript());
    assert_eq!(once.transcript(), b"0123456789");
    assert_eq!(challenge(&mut once, 8), challenge(&mut twice, 8));
    let (mut a, mut b) = ([0u8; 8], [0u8; 8]);
    once.rng().fill_bytes(&mut a).unwrap();
    twice.rng().fill_bytes(&mut b).unwrap();
    assert_eq!(a, b);
}

#[test]
fn empty_hint_is_four_zero_bytes() {
    let io = IOPattern::<Keccak>::new("hint").unwrap().hint("aux").unwrap();
    let mut merlin = seeded(&io, 0);
    assert_eq!(merlin.hint(&[]), Ok(()));
    assert_eq!(merlin.transcript(), &[0u8, 0, 0, 0]);
}

#[test]
fn hint_is_written_after_its_length() {
    let io = IOPattern::<Keccak>::new("hint")
        .unwrap()
        .absorb(1, "a")
        .unwrap()
        .hint("aux")
        .unwrap()
        .squeeze(4, "c")
        .unwrap();
    let mut merlin = seeded(&io, 0);
    merlin.add_units(&[9]).unwrap();
    let blob = vec![7u8; 300];
    merlin.hint(&blob).unwrap();
    let mut expected = vec![9u8, 44, 1, 0, 0];
    expected.extend_from_slice(&blob);
    assert_eq!(merlin.transcript(), &expected[..]);
    // The hint does not enter the sponge.
    let mut other = seeded(&io, 0);
    other.add_units(&[9]).unwrap();
    other.hint(b"something else").unwrap();
    assert_eq!(challenge(&mut merlin, 4), challenge(&mut other, 4));
}

#[test]
fn hint_outside_the_pattern_is_refused() {
    let io = IOPattern::<Keccak>::new("hint").unwrap().absorb(1, "a").unwrap();
    let mut merlin = seeded(&io, 0);
    assert_eq!(
        merlin.hint(b"x"),
        Err(ProofError::InvalidIO(IOPatternError::Unexpected {
            expected: Some(Op::Absorb(1)),
            got: Op::Hint
        }))
    );
    assert_eq!(merlin.transcript(), b"");
    assert!(merlin.add_units(&[1]).is_err());
}

#[test]
fn wrong_operation_is_refused_and_nothing_is_written() {
    let io = IOPattern::<Keccak>::new("mismatch").unwrap().absorb(32, "point").unwrap().absorb(1, "x").unwrap();
    let mut merlin = seeded(&io, 0);
    assert_eq!(
        merlin.add_units(&[0u8; 34]),
        Err(IOPatternError::Unexpected { expected: Some(Op::Absorb(33)), got: Op::Absorb(34) })
    );
    assert_eq!(merlin.transcript(), b"");
    assert_eq!(
        merlin.add_units(&[0u8; 33]),
        Err(IOPatternError::Unexpected { expected: None, got: Op::Absorb(33) })
    );
}

#[test]
fn after_exhaustion_the_prover_is_refused() {
    let io = IOPattern::<Keccak>::new("done").unwrap().absorb(1, "a").unwrap();
    let mut merlin = seeded(&io, 0);
    merlin.add_units(&[1]).unwrap();
    let none = |got| IOPatternError::Unexpected { expected: None, got };
    assert_eq!(merlin.add_units(&[1]), Err(none(Op::Absorb(1))));
    assert_eq!(merlin.public_units(&[1]), Err(none(Op::Absorb(1))));
    let mut out = [0u8; 2];
    assert_eq!(merlin.fill_challenge_units(&mut out), Err(none(Op::Squeeze(2))));
    assert_eq!(merlin.ratchet(), Err(none(Op::Ratchet)));
    assert_eq!(merlin.hint(&[]), Err(ProofError::InvalidIO(none(Op::Hint))));
    assert_eq!(merlin.challenge_bytes(1), Err(none(Op::Squeeze(1))));
    assert_eq!(merlin.transcript(), &[1]);
}

#[test]
fn finished_when_nothing_is_left() {
    let io = IOPattern::<Keccak>::new("end").unwrap().absorb(2, "a").unwrap();
    let mut merlin = seeded(&io, 0);
    assert!(!merlin.finished());
    merlin.add_units(&[1]).unwrap();
    assert!(!merlin.finished());
    merlin.add_units(&[2]).unwrap();
    assert!(merlin.finished());
    let mut arthur = io.to_arthur(merlin.transcript());
    assert!(!arthur.finished());
    arthur.next_bytes(2).unwrap();
    assert!(arthur.finished());
}

#[test]
fn from_a_pattern() {
    let io = IOPattern::<Keccak>::new("from").unwrap().absorb(1, "a").unwrap().squeeze(4, "c").unwrap();
    let mut merlin = Merlin::from(&io);
    merlin.add_units(&[5]).unwrap();
    let mut other = seeded(&io, 0);
    other.add_units(&[5]).unwrap();
    assert_eq!(merlin.challenge_bytes(4), other.challenge_bytes(4));
    let mut bare = nimue::bare::Merlin::from(&io);
    bare.absorb_bytes(&[5]).unwrap();
    let mut coins = [0u8; 4];
    bare.squeeze_bytes(&mut coins).unwrap();
    assert_eq!(coins.to_vec(), other_challenge(&io));
}

fn other_challenge(io: &IOPattern<Keccak>) -> Vec<u8> {
    let mut merlin = seeded(io, 1);
    merlin.add_units(&[5]).unwrap();
    merlin.challenge_bytes(4).unwrap()
}

#[test]
fn transcripts_through_their_trait() {
    fn run<T: nimue::traits::UnitTranscript<u8>>(t: &mut T) -> [u8; 8] {
        t.public_units(b"xy").unwrap();
        let mut c = [0u8; 8];
        t.fill_challenge_units(&mut c).unwrap();
        c
    }
    let io = IOPattern::<Keccak>::new("both").unwrap().absorb(2, "a").unwrap().squeeze(8, "c").unwrap();
    let mut merlin = seeded(&io, 0);
    let mut arthur = io.to_arthur(&[]);
    assert_eq!(run(&mut merlin), run(&mut arthur));
    assert_eq!(merlin.transcript(), b"");
}

#[test]
fn proof_error_from_pattern_error() {
    let e = IOPatternError::Unexpected { expected: None, got: Op::Ratchet };
    assert_eq!(ProofError::from(e), ProofError::InvalidIO(e));
}

#[test]
fn challenges_are_not_written() {
    let io = IOPattern::<Keccak>::new("c").unwrap().absorb(2, "a").unwrap().squeeze(4, "c").unwrap();
    let mut merlin = seeded(&io, 0);
    merlin.add_units(&[1, 2]).unwrap();
    let c = merlin.challenge_bytes(4).unwrap();
    assert_eq!(c.len(), 4);
    assert_eq!(merlin.transcript(), &[1, 2]);
}

#[test]
fn same_seed_and_inputs_give_the_same_proof() {
    let io = IOPattern::<Keccak>::new("deterministic")
        .unwrap()
        .absorb(32, "k")
        .unwrap()
        .squeeze(16, "c")
        .unwrap();
    let run = |seed: u64| {
        let mut merlin = seeded(&io, seed);
        let mut k = [0u8; 32];
        merlin.rng().fill_bytes(&mut k).unwrap();
        merlin.add_units(&k).unwrap();
        let c = challenge(&mut merlin, 16);
        (merlin.transcript().to_vec(), c)
    };
    assert_eq!(run(42), run(42));
    assert_ne!(run(42).0, run(43).0);
}

#[test]
fn rng_is_bound_to_what_was_absorbed() {
    let io = IOPattern::<Keccak>::new("rng").unwrap().absorb(1, "a").unwrap();
    let mut one = seeded(&io, 5);
    one.add_units(&[1]).unwrap();
    let mut two = seeded(&io, 5);
    two.add_units(&[2]).unwrap();
    let (mut a, mut b) = ([0u8; 32], [0u8; 32]);
    one.rng().fill_bytes(&mut a).unwrap();
    two.rng().fill_bytes(&mut b).unwrap();
    assert_ne!(a, b);
}

#[test]
fn rng_is_bound_to_the_pattern() {
    let one = IOPattern::<Keccak>::new("A").unwrap();
    let two = IOPattern::<Keccak>::new("B").unwrap();
    let (mut a, mut b) = ([0u8; 32], [0u8; 32]);
    seeded(&one, 5).rng().fill_bytes(&mut a).unwrap();
    seeded(&two, 5).rng().fill_bytes(&mut b).unwrap();
    assert_ne!(a, b);
}

#[test]
fn rng_is_fresh_at_each_call() {
    let io = IOPattern::<Keccak>::new("rng").unwrap();
    let mut merlin = seeded(&io, 5);
    let (mut a, mut b) = ([0u8; 16], [0u8; 16]);
    merlin.rng().fill_bytes(&mut a).unwrap();
    merlin.rng().fill_bytes(&mut b).unwrap();
    assert_ne!(a, b);
    let x = merlin.rng().next_u64().unwrap();
    let y = merlin.rng().next_u64().unwrap();
    assert_ne!(x, y);
}

#[test]
fn seeded_fill_is_absorb_squeeze_ratchet() {
    let io = IOPattern::<Keccak>::new("rng").unwrap();
    let mut merlin = seeded(&io, 5);
    let mut got = [0u8; 40];
    merlin.rng().fill_bytes_seeded(b"seed", &mut got);
    let mut sponge = Keccak::new();
    sponge.absorb_unchecked(io.as_bytes());
    sponge.absorb_unchecked(b"seed");
    let mut expected = [0u8; 40];
    sponge.squeeze_unchecked(&mut expected);
    assert_eq!(got, expected);
    sponge.ratchet_unchecked();
    let mut next = [0u8; 8];
    merlin.rng().fill_bytes_seeded(&[], &mut next);
    let mut expected_next = [0u8; 8];
    sponge.squeeze_unchecked(&mut expected_next);
    assert_eq!(next, expected_next);
}

#[test]
fn rng_draws_at_most_32_bytes_of_seed() {
    let io = IOPattern::<Keccak>::new("rng").unwrap();
    for len in [0usize, 4, 32, 100] {
        let mut merlin = seeded(&io, 9);
        let mut got = vec![0u8; len];
        merlin.rng().fill_bytes(&mut got).unwrap();
        let mut seed = vec![0u8; len.min(32)];
        StdRng::seed_from_u64(9).fill_bytes(&mut seed);
        let mut sponge = Keccak::new();
        sponge.absorb_unchecked(io.as_bytes());
        sponge.absorb_unchecked(&seed);
        let mut expected = vec![0u8; len];
        sponge.squeeze_unchecked(&mut expected);
        assert_eq!(got, expected);
    }
}

#[test]
fn next_u32_reads_the_lowest_byte_first() {
    let io = IOPattern::<Keccak>::new("rng").unwrap();
    let mut merlin = seeded(&io, 11);
    let got = merlin.rng().next_u32();
    let mut seed = [0u8; 4];
    StdRng::seed_from_u64(11).fill_bytes(&mut seed);
    let mut sponge = Keccak::new();
    sponge.absorb_unchecked(io.as_bytes());
    sponge.absorb_unchecked(&seed);
    let mut bytes = [0u8; 4];
    sponge.squeeze_unchecked(&mut bytes);
    assert_eq!(got, Ok::<u32, EntropyError>(u32::from_le_bytes(bytes)));
}

#[test]
fn next_u64_reads_the_lowest_byte_first() {
    let io = IOPattern::<Keccak>::new("rng").unwrap();
    let mut merlin = seeded(&io, 12);
    let got = merlin.rng().next_u64();
    let mut seed = [0u8; 8];
    StdRng::seed_from_u64(12).fill_bytes(&mut seed);
    let mut sponge = Keccak::new();
    sponge.absorb_unchecked(io.as_bytes());
    sponge.absorb_unchecked(&seed);
    let mut bytes = [0u8; 8];
    sponge.squeeze_unchecked(&mut bytes);
    assert_eq!(got, Ok(u64::from_le_bytes(bytes)));
}

#[test]
fn os_randomness_differs_between_provers() {
    let io = IOPattern::<Keccak>::new("os").unwrap();
    let (mut a, mut b) = ([0u8; 32], [0u8; 32]);
    io.to_merlin().rng().fill_bytes(&mut a).unwrap();
    io.to_merlin().rng().fill_bytes(&mut b).unwrap();
    assert_ne!(a, b);
}

struct Broken;

impl Csrng for Broken {
    fn try_fill(&mut self, _dest: &mut [u8]) -> bool {
        false
    }
}

struct Counting(u8);

impl Csrng for Counting {
    fn try_fill(&mut self, dest: &mut [u8]) -> bool {
        for b in dest.iter_mut() {
            self.0 += 1;
            *b = self.0;
        }
        true
    }
}

#[test]
fn failed_source_fails_the_generator_and_changes_nothing() {
    let io = IOPattern::<Keccak>::new("broken").unwrap();
    let mut merlin = Merlin::new(&io, Broken);
    let mut dest = [7u8; 16];
    assert_eq!(merlin.rng().fill_bytes(&mut dest), Err(EntropyError));
    assert_eq!(dest, [7u8; 16]);
    assert_eq!(merlin.rng().next_u32(), Err(EntropyError));
    assert_eq!(merlin.rng().next_u64(), Err(EntropyError));
    let mut got = [3u8; 8];
    assert_eq!(merlin.rng().try_fill_bytes(&mut got), Err(EntropyError));
    assert_eq!(got, [3u8; 8]);
    merlin.rng().fill_bytes_seeded(&[], &mut got);
    let mut sponge = Keccak::default();
    sponge.absorb_unchecked(io.as_bytes());
    let mut expected = [0u8; 8];
    sponge.squeeze_unchecked(&mut expected);
    assert_eq!(got, expected);
}

#[test]
fn the_source_is_asked_once_for_each_fill() {
    let io = IOPattern::<Keccak>::new("counting").unwrap();
    let mut merlin = Merlin::new(&io, Counting(0));
    let mut first = [0u8; 2];
    merlin.rng().fill_bytes(&mut first).unwrap();
    let mut second = [0u8; 40];
    merlin.rng().fill_bytes(&mut second).unwrap();
    let mut sponge = Keccak::default();
    sponge.absorb_unchecked(io.as_bytes());
    sponge.absorb_unchecked(&[1, 2]);
    let mut expected = [0u8; 2];
    sponge.squeeze_unchecked(&mut expected);
    assert_eq!(first, expected);
    sponge.ratchet_unchecked();
    let seed: Vec<u8> = (3..=34).collect();
    sponge.absorb_unchecked(&seed);
    let mut expected = [0u8; 40];
    sponge.squeeze_unchecked(&mut expected);
    assert_eq!(second, expected);
}

struct Zeros;

impl Csrng for Zeros {
    fn try_fill(&mut self, dest: &mut [u8]) -> bool {
        dest.fill(0);
        true
    }
}

#[test]
fn generator_with_a_source_of_zeros_still_varies() {
    let io = IOPattern::<Keccak>::new("zeros").unwrap().absorb(1, "a").unwrap();
    let mut merlin = Merlin::new(&io, Zeros);
    let (mut a, mut b, mut c) = ([0u8; 32], [0u8; 32], [0u8; 32]);
    merlin.rng().fill_bytes(&mut a).unwrap();
    merlin.rng().fill_bytes(&mut b).unwrap();
    merlin.add_units(&[1]).unwrap();
    merlin.rng().fill_bytes(&mut c).unwrap();
    assert_ne!(a, [0u8; 32]);
    assert_ne!(a, b);
    assert_ne!(b, c);
    let mut other = Merlin::new(&io, Zeros);
    let mut d = [0u8; 32];
    other.add_units(&[2]).unwrap();
    other.rng().fill_bytes(&mut d).unwrap();
    assert_ne!(d, a);
    assert_ne!(d, c);
}

#[test]
fn seeded_source_never_fails() {
    let mut source = StdRng::seed_from_u64(21);
    let mut got = [0u8; 48];
    assert!(Csrng::try_fill(&mut source, &mut got));
    let mut expected = [0u8; 48];
    StdRng::seed_from_u64(21).fill_bytes(&mut expected);
    assert_eq!(got, expected);
    assert_ne!(got, [0u8; 48]);
    let mut none: [u8; 0] = [];
    assert!(Csrng::try_fill(&mut source, &mut none));
}

#[test]
fn operating_system_source_fills() {
    let mut source = rand::rngs::OsRng;
    let mut got = [0u8; 32];
    assert!(Csrng::try_fill(&mut source, &mut got));
    assert_ne!(got, [0u8; 32]);
}

#[test]
fn drawn_bytes_seed_the_generator_and_a_failed_draw_changes_nothing() {
    let io = IOPattern::<Keccak>::new("drawn").unwrap();
    let mut merlin = seeded(&io, 5);
    let mut dest = [9u8; 24];
    assert_eq!(merlin.rng().fill_bytes_drawn(false, b"seed", &mut dest), Err(EntropyError));
    assert_eq!(dest, [9u8; 24]);
    assert_eq!(merlin.rng().fill_bytes_drawn(true, b"seed", &mut dest), Ok(()));
    let mut other = seeded(&io, 5);
    let mut expected = [0u8; 24];
    other.rng().fill_bytes_seeded(b"seed", &mut expected);
    assert_eq!(dest, expected);
    let (mut a, mut b) = ([0u8; 8], [0u8; 8]);
    merlin.rng().fill_bytes_seeded(&[], &mut a);
    other.rng().fill_bytes_seeded(&[], &mut b);
    assert_eq!(a, b);
}

#[test]
fn try_fill_bytes_is_a_fill() {
    let io = IOPattern::<Keccak>::new("try").unwrap();
    let mut merlin = Merlin::new(&io, Counting(0));
    let mut got = [0u8; 40];
    assert_eq!(merlin.rng().try_fill_bytes(&mut got), Ok(()));
    let seed: Vec<u8> = (1..=32).collect();
    let mut sponge = Keccak::default();
    sponge.absorb_unchecked(io.as_bytes());
    sponge.absorb_unchecked(&seed);
    let mut expected = [0u8; 40];
    sponge.squeeze_unchecked(&mut expected);
    assert_eq!(got, expected);
    sponge.ratchet_unchecked();
    let mut next = [0u8; 4];
    merlin.rng().fill_bytes_seeded(&[], &mut next);
    let mut expected_next = [0u8; 4];
    sponge.squeeze_unchecked(&mut expected_next);
    assert_eq!(next, expected_next);
    let mut one = seeded(&io, 8);
    let mut two = seeded(&io, 8);
    let (mut a, mut b) = ([0u8; 16], [0u8; 16]);
    one.rng().try_fill_bytes(&mut a).unwrap();
    two.rng().fill_bytes(&mut b).unwrap();
    assert_eq!(a, b);
}

#[test]
fn challenge_runs_count_their_bytes() {
    let io = IOPattern::<Keccak>::new("runs").unwrap().squeeze(6, "c").unwrap();
    let mut merlin = seeded(&io, 0);
    let runs = merlin.challenge_runs(2, 3).unwrap();
    let mut other = seeded(&io, 0);
    assert_eq!(runs, other.challenge_bytes(6).unwrap());
    let mut merlin = seeded(&io, 0);
    assert_eq!(
        merlin.challenge_runs(2, 4),
        Err(ProofError::InvalidIO(IOPatternError::Unexpected {
            expected: Some(Op::Squeeze(6)),
            got: Op::Squeeze(8)
        }))
    );
    let mut merlin = seeded(&io, 0);
    assert_eq!(
        merlin.challenge_runs(usize::MAX, 2),
        Err(ProofError::InvalidIO(IOPatternError::CountOverflow))
    );
    assert!(merlin.challenge_bytes(6).is_err());
}

#[test]
fn a_copy_of_a_prover_goes_on_alike() {
    let io = IOPattern::<Keccak>::new("copy")
        .unwrap()
        .absorb(3, "a")
        .unwrap()
        .squeeze(8, "c")
        .unwrap();
    let mut merlin = seeded(&io, 4);
    merlin.add_units(&[1, 2]).unwrap();
    let mut copy = merlin.clone();
    assert_eq!(copy.transcript(), merlin.transcript());
    merlin.add_units(&[3]).unwrap();
    assert_eq!(copy.transcript(), &[1, 2]);
    copy.add_units(&[3]).unwrap();
    assert_eq!(copy.challenge_bytes(8), merlin.challenge_bytes(8));
    let (mut a, mut b) = ([0u8; 16], [0u8; 16]);
    merlin.rng().fill_bytes(&mut a).unwrap();
    copy.rng().fill_bytes(&mut b).unwrap();
    assert_eq!(a, b);
    let mut rng = merlin.rng().clone();
    assert_eq!(rng.next_u64(), merlin.rng().next_u64());
}

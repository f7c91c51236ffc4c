use nimue::bare::Merlin;
use nimue::hash::keccak::Keccak;
use nimue::{DuplexHash, IOPattern, IOPatternError, Op};

fn pattern() -> IOPattern<Keccak> {
    IOPattern::<Keccak>::new("bare")
        .unwrap()
        .absorb(3, "in")
        .unwrap()
        .ratchet()
        .squeeze(12, "out")
        .unwrap()
}

#[test]
fn coins_follow_what_was_absorbed() {
    let io = pattern();
    let mut merlin = Merlin::new(&io);
    merlin.absorb_native(b"abc").unwrap();
    merlin.ratchet().unwrap();
    let mut got = [0u8; 12];
    merlin.squeeze_native(&mut got).unwrap();
    let mut sponge = Keccak::new();
    sponge.absorb_unchecked(io.as_bytes());
    sponge.ratchet_unchecked();
    sponge.absorb_unchecked(b"abc");
    sponge.ratchet_unchecked();
    let mut expected = [0u8; 12];
    sponge.squeeze_unchecked(&mut expected);
    assert_eq!(got, expected);
}

#[test]
fn bytes_are_the_native_units() {
    let io = pattern();
    let mut native = Merlin::new(&io);
    native.absorb_native(b"abc").unwrap();
    native.ratchet().unwrap();
    let mut a = [0u8; 12];
    native.squeeze_native(&mut a).unwrap();
    let mut bytes = Merlin::new(&io);
    bytes.absorb_bytes(b"abc").unwrap();
    bytes.ratchet().unwrap();
    let mut b = [0u8; 12];
    bytes.squeeze_bytes(&mut b).unwrap();
    assert_eq!(a, b);
}

#[test]
fn operations_outside_the_pattern_are_refused() {
    let io = pattern();
    let mut merlin = Merlin::new(&io);
    assert_eq!(
        merlin.absorb_bytes(b"abcd"),
        Err(IOPatternError::Unexpected { expected: Some(Op::Absorb(3)), got: Op::Absorb(4) })
    );
    assert_eq!(
        merlin.ratchet(),
        Err(IOPatternError::Unexpected { expected: None, got: Op::Ratchet })
    );
}

#[test]
fn ratchet_and_store_gives_the_state() {
    let io = pattern();
    let mut merlin = Merlin::new(&io);
    merlin.absorb_native(b"abc").unwrap();
    let stored = merlin.ratchet_and_store().unwrap();
    let mut sponge = Keccak::new();
    sponge.absorb_unchecked(io.as_bytes());
    sponge.ratchet_unchecked();
    sponge.absorb_unchecked(b"abc");
    sponge.ratchet_unchecked();
    assert_eq!(stored, sponge.tag());
    let merlin = Merlin::new(&io);
    assert_eq!(
        merlin.ratchet_and_store(),
        Err(IOPatternError::Unexpected { expected: Some(Op::Absorb(3)), got: Op::Ratchet })
    );
}

#[test]
fn a_copy_goes_on_alike() {
    let io = pattern();
    let mut merlin = Merlin::new(&io);
    merlin.absorb_native(b"ab").unwrap();
    let mut copy = merlin.clone();
    merlin.absorb_native(b"c").unwrap();
    assert!(copy.ratchet().is_err());
    let mut copy = {
        let mut again = Merlin::new(&io);
        again.absorb_native(b"ab").unwrap();
        again.clone()
    };
    copy.absorb_native(b"c").unwrap();
    merlin.ratchet().unwrap();
    copy.ratchet().unwrap();
    let (mut a, mut b) = ([0u8; 12], [0u8; 12]);
    merlin.squeeze_native(&mut a).unwrap();
    copy.squeeze_native(&mut b).unwrap();
    assert_eq!(a, b);
}

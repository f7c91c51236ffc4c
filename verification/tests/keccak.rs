use nimue::hash::keccak::Keccak;
use nimue::DuplexHash;

fn squeeze(sponge: &mut Keccak, n: usize) -> Vec<u8> {
    let mut out = vec![0u8; n];
    sponge.squeeze_unchecked(&mut out);
    out
}

#[test]
fn fresh_sponge_gives_the_permutation_of_zero() {
    let mut sponge = Keccak::new();
    let out = squeeze(&mut sponge, 16);
    let mut expected = 0xF1258F7940E1DDE7u64.to_le_bytes().to_vec();
    expected.extend_from_slice(&0x84D5CCF933C0478Au64.to_le_bytes());
    assert_eq!(out, expected);
}

#[test]
fn second_block_is_the_second_permutation() {
    let mut sponge = Keccak::new();
    let out = squeeze(&mut sponge, 136 + 8);
    assert_eq!(&out[128..136], &0x64BEFEF28CC970F2u64.to_le_bytes());
    assert_eq!(&out[136..], &0x2D5C954DF96ECB3Cu64.to_le_bytes());
}

#[test]
fn absorbed_bytes_overwrite_the_rate() {
    // One absorbed byte 0x01 gives the state with lane 0 equal to 1.
    let mut state = [0u64; 25];
    state[0] = 1;
    keccak::f1600(&mut state);
    let mut sponge = Keccak::new();
    sponge.absorb_unchecked(&[1u8]);
    assert_eq!(squeeze(&mut sponge, 8), state[0].to_le_bytes());
}

#[test]
fn absorb_is_streaming() {
    let data: Vec<u8> = (0..=255u8).cycle().take(500).collect();
    let mut whole = Keccak::new();
    whole.absorb_unchecked(&data);
    let mut parts = Keccak::new();
    parts.absorb_unchecked(&data[..1]);
    parts.absorb_unchecked(&data[1..136]);
    parts.absorb_unchecked(&[]);
    parts.absorb_unchecked(&data[136..137]);
    parts.absorb_unchecked(&data[137..]);
    assert_eq!(squeeze(&mut whole, 64), squeeze(&mut parts, 64));
}

#[test]
fn squeeze_is_streaming() {
    let mut whole = Keccak::new();
    whole.absorb_unchecked(b"input");
    let all = squeeze(&mut whole, 300);
    let mut parts = Keccak::new();
    parts.absorb_unchecked(b"input");
    let mut got = squeeze(&mut parts, 1);
    got.extend(squeeze(&mut parts, 0));
    got.extend(squeeze(&mut parts, 135));
    got.extend(squeeze(&mut parts, 1));
    got.extend(squeeze(&mut parts, 163));
    assert_eq!(all, got);
}

#[test]
fn empty_absorb_and_squeeze_change_nothing() {
    let mut a = Keccak::new();
    a.absorb_unchecked(b"abc");
    let first = squeeze(&mut a, 10);
    a.absorb_unchecked(&[]);
    let rest = squeeze(&mut a, 10);
    let mut b = Keccak::new();
    b.absorb_unchecked(b"abc");
    let all = squeeze(&mut b, 20);
    assert_eq!(&all[..10], &first[..]);
    assert_eq!(&all[10..], &rest[..]);
}

#[test]
fn different_inputs_give_different_outputs() {
    let mut a = Keccak::new();
    a.absorb_unchecked(b"A");
    let mut b = Keccak::new();
    b.absorb_unchecked(b"B");
    assert_ne!(squeeze(&mut a, 32), squeeze(&mut b, 32));
}

#[test]
fn ratchet_zeroes_the_rate_and_permutes() {
    let mut state = [0u64; 25];
    keccak::f1600(&mut state);
    for lane in state.iter_mut().take(17) {
        *lane = 0;
    }
    let capacity: Vec<u8> = state[17..].iter().flat_map(|l| l.to_le_bytes()).collect();
    keccak::f1600(&mut state);
    let mut sponge = Keccak::new();
    sponge.ratchet_unchecked();
    assert_eq!(sponge.tag(), capacity);
    assert_eq!(squeeze(&mut sponge, 8), state[0].to_le_bytes());
}

#[test]
fn ratchet_changes_what_follows() {
    let mut a = Keccak::new();
    a.absorb_unchecked(b"abc");
    let mut b = Keccak::new();
    b.absorb_unchecked(b"abc");
    b.ratchet_unchecked();
    assert_ne!(squeeze(&mut a, 32), squeeze(&mut b, 32));
}

#[test]
fn tag_is_the_capacity() {
    let sponge = Keccak::new();
    assert_eq!(sponge.tag(), vec![0u8; 64]);
}

#[test]
fn a_copy_of_a_sponge_is_in_its_state() {
    let mut sponge = Keccak::new();
    sponge.absorb_unchecked(b"abc");
    let first = squeeze(&mut sponge, 5);
    let mut copy = sponge.clone();
    assert_eq!(squeeze(&mut sponge, 200), squeeze(&mut copy, 200));
    copy.absorb_unchecked(b"d");
    assert_ne!(squeeze(&mut sponge, 8), squeeze(&mut copy, 8));
    assert_eq!(first.len(), 5);
}

#[test]
fn after_a_ratchet_the_rate_of_before_is_gone() {
    // Both sponges are ratcheted from one state, and go on alike.
    let mut one = Keccak::new();
    one.ratchet_unchecked();
    let mut two = Keccak::new();
    two.absorb_unchecked(&[]);
    two.ratchet_unchecked();
    one.absorb_unchecked(b"x");
    two.absorb_unchecked(b"x");
    assert_eq!(squeeze(&mut one, 32), squeeze(&mut two, 32));
}

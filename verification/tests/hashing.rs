use chess_nn::hashing::{hash_to_string, MyHash, MyHash_};

#[test]
fn hash_to_string_is_sixteen_lowercase_hex_digits() {
    assert_eq!(hash_to_string(0x1e88d6f0_b31da73f), "1e88d6f0b31da73f");
    assert_eq!(hash_to_string(255), "00000000000000ff");
    assert_eq!(hash_to_string(0), "0000000000000000");
    assert_eq!(hash_to_string(u64::MAX), "ffffffffffffffff");
    assert_eq!(hash_to_string(0xABCDEF), format!("{:016x}", 0xABCDEFu64));
}

#[test]
fn hashing_a_u64_xors_it_in() {
    let mut h = MyHash::from_seed(0b1100);
    h.hash(0b1010u64);
    assert_eq!(h.finish(), 0b0110);
}

#[test]
fn hashing_an_empty_slice_keeps_the_state() {
    let mut h = MyHash::from_seed(0x1234);
    let empty: &[u32] = &[];
    h.hash(empty);
    assert_eq!(h.finish(), 0x1234);
}

#[test]
fn hashing_slices_matches_reference_values() {
    let mut h = MyHash::from_seed(12345);
    let words: &[u32] = &[1, 2, 3, 0xffff_ffff];
    h.hash(words);
    assert_eq!(h.finish(), 0xfc000001_fdffff3e);

    let weights: [f32; 13] = [0.5, 0.25, 0.0, 1.0, -2.0, 3.5, 0.125, 0.0, 0.0, 0.0, 0.0, 0.0, 0.0];
    let bits: Vec<u32> = weights.iter().map(|w| w.to_bits()).collect();
    let mut h = MyHash::from_seed(0x7dc29f45_3decba81);
    h.hash(bits.as_slice());
    assert_eq!(h.finish(), 0x5cfc315c_b1a740cf);
}

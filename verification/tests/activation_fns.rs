use chess_nn::activation::{ActivationFn, NUMBER_OF_ACTIVATION_FNS};

#[test]
fn to_from_hash_identity() {
    for af in ActivationFn::get_all_variants() {
        assert_eq!(af, ActivationFn::from_hash(af.to_hash()));
    }
}

#[test]
fn number_of_variants_is_twenty_five() {
    assert_eq!(ActivationFn::get_number_of_variants(), 25);
    assert_eq!(NUMBER_OF_ACTIVATION_FNS, 25);
    let all = ActivationFn::get_all_variants();
    assert_eq!(all.len(), 25);
    assert_eq!(all[0], ActivationFn::ReLU);
    assert_eq!(all[6], ActivationFn::Tanh);
    assert_eq!(all[24], ActivationFn::Maxout);
}

#[test]
fn from_u8_follows_declaration_order() {
    assert_eq!(ActivationFn::from_u8(0), Some(ActivationFn::ReLU));
    assert_eq!(ActivationFn::from_u8(8), Some(ActivationFn::ExpLU));
    assert_eq!(ActivationFn::from_u8(23), Some(ActivationFn::Softmax));
    assert_eq!(ActivationFn::from_u8(25), None);
    assert_eq!(ActivationFn::from_u8(255), None);
}

#[test]
fn hashes_are_distinct() {
    let all = ActivationFn::get_all_variants();
    for a in &all {
        for b in &all {
            assert_eq!(a == b, a.to_hash() == b.to_hash());
        }
    }
}

#[test]
fn known_hash_values() {
    assert_eq!(ActivationFn::ReLU.to_hash(), 0x39b728e5_6ca7f4a8);
    assert_eq!(ActivationFn::Maxout.to_hash(), 0x36bc3c93_6f06f7f8);
    assert_eq!(ActivationFn::from_hash(0xf0fc8c2d_b6a422db), ActivationFn::Softmax);
}

#[test]
fn unknown_hash_is_rejected() {
    assert_eq!(ActivationFn::try_from_hash(0), None);
    assert_eq!(ActivationFn::try_from_hash(0x520545ee_98ca6be2), None);
    assert_eq!(ActivationFn::try_from_hash(0x1334fd2f_27429035), Some(ActivationFn::ExpLU));
}

#[test]
fn new_random_gives_every_variant_eventually() {
    let mut rng = rand::rng();
    let mut seen = vec![false; 25];
    for _ in 0..5000 {
        let af = ActivationFn::new_random(&mut rng);
        let i = ActivationFn::get_all_variants().iter().position(|a| *a == af).unwrap();
        seen[i] = true;
    }
    assert!(seen.iter().all(|s| *s));
}

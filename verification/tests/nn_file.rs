use chess_nn::activation::ActivationFn;
use chess_nn::nn::{NNLayer, NN, NNSpec, INPUT_SIZE, OUTPUT_SIZE};
use chess_nn::nn_file::NN_FILE_FORMAT_MAGIC;
use rand::RngExt;

fn random_nn(inner_layers_sizes: &[u32], rng: &mut rand::rngs::ThreadRng) -> NN {
    let all: Vec<u32> = [&[INPUT_SIZE][..], inner_layers_sizes, &[OUTPUT_SIZE][..]].concat();
    let layers = all
        .windows(2)
        .map(|w| {
            let (size_in, size_out) = (w[0], w[1]);
            let weights: Vec<u32> = (0..size_in * size_out).map(|_| rng.random_range(-1.0f32..1.0).to_bits()).collect();
            let biases: Vec<u32> = (0..size_out).map(|_| rng.random_range(-10.0f32..10.0).to_bits()).collect();
            NNLayer::new(size_in, size_out, weights, biases, ActivationFn::new_random(rng))
        })
        .collect();
    NN { layers }
}

#[test]
fn to_from_bytes() {
    let mut rng = rand::rng();
    for _ in 0..10 {
        let n: usize = rng.random_range(1..10);
        let inner_layers_sizes: Vec<u32> =
            (0..n).map(|_i| rng.random_range(1. ..10_f32).powi(2).round() as u32).collect();
        let nn = random_nn(&inner_layers_sizes, &mut rng);
        if nn != NN::from_bytes(&nn.to_bytes()) {
            panic!()
        }
    }
}

fn small_layer() -> NNLayer {
    NNLayer::new(2, 1, vec![0.5f32.to_bits(), (-0.5f32).to_bits()], vec![1.0f32.to_bits()], ActivationFn::ReLU)
}

#[test]
fn layer_and_network_hashes_match_reference_values() {
    let layer = small_layer();
    assert_eq!(layer.calc_hash(), 0xd5cc343f_f372616c);
    let nn = NN { layers: vec![layer] };
    assert_eq!(nn.calc_hash(), 0xcb44e2cf_406fc653);
    assert_eq!(nn.calc_hash_to_string(), "cb44e2cf406fc653");
    let empty = NN { layers: vec![] };
    assert_eq!(empty.calc_hash(), 0x1e88d6f0_b31da73f);
}

#[test]
fn layer_sizes_and_activation_fns() {
    let mut rng = rand::rng();
    let nn = random_nn(&[7, 3], &mut rng);
    assert_eq!(nn.get_inner_layers_sizes(), vec![7, 3]);
    assert_eq!(nn.get_all_layers_sizes(), vec![INPUT_SIZE, 7, 3, OUTPUT_SIZE]);
    assert_eq!(nn.get_activation_fns().len(), 3);
    assert_eq!(nn.get_activation_fns()[1], nn.layers[1].activation_fn);
    assert_eq!(INPUT_SIZE, 1536);
}

#[test]
fn file_layout() {
    let mut rng = rand::rng();
    let nn = random_nn(&[], &mut rng);
    let bytes = nn.to_bytes();
    // header, 2 sizes, 1 activation id, biases count + 1 bias, weights count + 1536 weights
    assert_eq!(bytes.len(), 8 + 8 + 4 + 2 * 4 + 8 + 4 + 4 + 4 + 4 * 1536);
    assert_eq!(&bytes[0..8], &NN_FILE_FORMAT_MAGIC.to_le_bytes());
    assert_eq!(&bytes[8..16], &nn.calc_hash().to_le_bytes());
    assert_eq!(&bytes[16..20], &1u32.to_le_bytes());
    assert_eq!(&bytes[20..24], &1536u32.to_le_bytes());
    assert_eq!(&bytes[24..28], &1u32.to_le_bytes());
    assert_eq!(&bytes[28..36], &nn.layers[0].activation_fn.to_hash().to_le_bytes());
    assert_eq!(&bytes[36..40], &1u32.to_le_bytes());
    assert_eq!(&bytes[40..44], &nn.layers[0].biases[0].to_le_bytes());
    assert_eq!(&bytes[44..48], &1536u32.to_le_bytes());
}

#[test]
fn malformed_files_are_rejected() {
    let mut rng = rand::rng();
    let nn = random_nn(&[4], &mut rng);
    let bytes = nn.to_bytes();
    assert_eq!(NN::try_from_bytes(&bytes), Some(nn.clone()));

    // wrong magic
    let mut b = bytes.clone();
    b[0] ^= 1;
    assert_eq!(NN::try_from_bytes(&b), None);
    // wrong stored fingerprint
    let mut b = bytes.clone();
    b[8] ^= 1;
    assert_eq!(NN::try_from_bytes(&b), None);
    // truncated
    assert_eq!(NN::try_from_bytes(&bytes[..bytes.len() - 1]), None);
    assert_eq!(NN::try_from_bytes(&bytes[..10]), None);
    // trailing byte
    let mut b = bytes.clone();
    b.push(0);
    assert_eq!(NN::try_from_bytes(&b), None);
    // unknown activation function identifier
    let mut b = bytes.clone();
    b[20 + 3 * 4] ^= 0xff;
    assert_eq!(NN::try_from_bytes(&b), None);
    // a changed weight changes the fingerprint
    let mut b = bytes.clone();
    let last = b.len() - 1;
    b[last] ^= 1;
    assert_eq!(NN::try_from_bytes(&b), None);
}

#[test]
fn weight_count_must_fill_the_matrix() {
    // one layer 1536 -> 1 whose weight count says 2 instead of 1536
    let layer = NNLayer::new(2, 1, vec![1, 2], vec![3], ActivationFn::Sign);
    let nn = NN { layers: vec![layer] };
    let mut bytes = Vec::new();
    bytes.extend_from_slice(&NN_FILE_FORMAT_MAGIC.to_le_bytes());
    bytes.extend_from_slice(&nn.calc_hash().to_le_bytes());
    bytes.extend_from_slice(&1u32.to_le_bytes());
    bytes.extend_from_slice(&1536u32.to_le_bytes());
    bytes.extend_from_slice(&1u32.to_le_bytes());
    bytes.extend_from_slice(&ActivationFn::Sign.to_hash().to_le_bytes());
    bytes.extend_from_slice(&1u32.to_le_bytes());
    bytes.extend_from_slice(&3u32.to_le_bytes());
    bytes.extend_from_slice(&2u32.to_le_bytes());
    bytes.extend_from_slice(&1u32.to_le_bytes());
    bytes.extend_from_slice(&2u32.to_le_bytes());
    assert_eq!(NN::try_from_bytes(&bytes), None);
    // with sizes 2 -> 1 the same layer is read back
    bytes[20..24].copy_from_slice(&2u32.to_le_bytes());
    assert_eq!(NN::try_from_bytes(&bytes), Some(nn));
}

#[test]
fn nn_spec_keeps_its_parts() {
    let spec = NNSpec::new(vec![10, 5], vec![ActivationFn::ReLU, ActivationFn::Tanh, ActivationFn::Sigmoid]);
    assert_eq!(spec.inner_layers_sizes, vec![10, 5]);
    assert_eq!(spec.activation_fns.len(), 3);
}

#[test]
fn a_file_read_back_is_written_again_unchanged() {
    let mut rng = rand::rng();
    for inner in [vec![], vec![3], vec![5, 2, 8]] {
        let bytes = random_nn(&inner, &mut rng).to_bytes();
        assert_eq!(NN::from_bytes(&bytes).to_bytes(), bytes);
    }
}

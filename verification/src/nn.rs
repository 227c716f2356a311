//! The library's model of a feed-forward network: its layers' shapes, the bit
//! patterns of their `f32` weights and biases, their activation functions, and
//! the network's fingerprint. Floating-point evaluation and mutation of the
//! weights happen outside the library; everything here is exact on bits.

use vstd::prelude::*;
use crate::activation::ActivationFn;
use crate::hashing::{MyHash, MyHash_, hash_words, hash_to_string, spec_hash_to_string};

verus! {

/// The number of distinct chess pieces (pawn .. king).
pub const NUMBER_OF_DIFFERENT_CHESS_PIECES: u32 = 6;
/// The number of squares of a chess board.
pub const NUMBER_OF_SQUARES_ON_CHESS_BOARD: u32 = 64;
/// The input values per depth channel: one per piece kind and square.
pub const INPUT_SIZE_PER_DEPTH_CHANNEL: u32 = NUMBER_OF_DIFFERENT_CHESS_PIECES * NUMBER_OF_SQUARES_ON_CHESS_BOARD;
/// The number of depth channels the board encoding uses (`NumberOfDepthChannels::Four`).
pub const DEPTH_CHANNELS: u32 = 4;
/// The size of a network's input layer.
pub const INPUT_SIZE: u32 = DEPTH_CHANNELS * INPUT_SIZE_PER_DEPTH_CHANNEL;
/// The size of a network's output layer: a single evaluation.
pub const OUTPUT_SIZE: u32 = 1;

/// The seed of a layer's fingerprint.
pub const LAYER_HASH_SEED: u64 = 0xc695d51f_e59c7bedu64;
/// The seed of a network's fingerprint.
pub const NN_HASH_SEED: u64 = 0x1e88d6f0_b31da73fu64;

/// The shape a network is to be created with: the sizes of its inner layers
/// and the activation function of each layer.
pub struct NNSpec {
    pub inner_layers_sizes: Vec<u32>,
    pub activation_fns: Vec<ActivationFn>,
}

impl NNSpec {
    pub fn new(inner_layers_sizes: Vec<u32>, activation_fns: Vec<ActivationFn>) -> (r: Self)
        ensures
            r.inner_layers_sizes@ == inner_layers_sizes@,
            r.activation_fns@ == activation_fns@,
    {
        NNSpec { inner_layers_sizes, activation_fns }
    }
}

/// One layer: a `size_out` x `size_in` weight matrix, a bias vector and an
/// activation function. `weights` holds the bit patterns of the matrix's `f32`
/// entries column by column; `biases` those of the bias vector.
#[derive(Debug, Clone, PartialEq)]
pub struct NNLayer {
    pub size_in: u32,
    pub size_out: u32,
    pub weights: Vec<u32>,
    pub biases: Vec<u32>,
    pub activation_fn: ActivationFn,
}

/// The mathematical value of a layer.
pub struct LayerView {
    pub size_in: u32,
    pub size_out: u32,
    pub weights: Seq<u32>,
    pub biases: Seq<u32>,
    pub activation_fn: ActivationFn,
}

impl LayerView {
    /// The weight matrix holds exactly `size_out * size_in` entries.
    pub open spec fn wf(self) -> bool {
        self.weights.len() == self.size_in as nat * self.size_out as nat
    }
}

impl View for NNLayer {
    type V = LayerView;

    open spec fn view(&self) -> LayerView {
        LayerView {
            size_in: self.size_in,
            size_out: self.size_out,
            weights: self.weights@,
            biases: self.biases@,
            activation_fn: self.activation_fn,
        }
    }
}

/// The fingerprint of a layer: its biases, then its weights, hashed into the
/// layer seed, then its activation function's identifier xored in.
pub open spec fn layer_hash(l: LayerView) -> u64 {
    hash_words(hash_words(LAYER_HASH_SEED, l.biases), l.weights) ^ l.activation_fn.spec_to_hash()
}

/// The fingerprint of a network: the xor of its layers' fingerprints and the seed.
pub open spec fn layers_hash(layers: Seq<LayerView>) -> u64
    decreases layers.len(),
{
    if layers.len() == 0 {
        NN_HASH_SEED
    } else {
        layers_hash(layers.drop_last()) ^ layer_hash(layers.last())
    }
}

/// The sizes of all layers: each layer's input size, then the last layer's
/// number of biases (its output size).
pub open spec fn all_layers_sizes(layers: Seq<LayerView>) -> Seq<u32> {
    layers.map_values(|l: LayerView| l.size_in).push(layers.last().biases.len() as u32)
}

/// The input sizes of all layers but the first.
pub open spec fn inner_layers_sizes(layers: Seq<LayerView>) -> Seq<u32> {
    layers.drop_first().map_values(|l: LayerView| l.size_in)
}

impl NNLayer {
    /// A layer from its parts; the weights must fill the `size_out` x `size_in` matrix.
    pub fn new(size_in: u32, size_out: u32, weights: Vec<u32>, biases: Vec<u32>, activation_fn: ActivationFn) -> (r: Self)
        requires
            weights@.len() == size_in as nat * size_out as nat,
        ensures
            r@ == (LayerView { size_in, size_out, weights: weights@, biases: biases@, activation_fn }),
            r@.wf(),
    {
        NNLayer { size_in, size_out, weights, biases, activation_fn }
    }

    /// The layer's fingerprint.
    pub fn calc_hash(&self) -> (r: u64)
        ensures
            r == layer_hash(self@),
    {
        let mut hash = MyHash::from_seed(LAYER_HASH_SEED);
        hash.hash(self.biases.as_slice());
        hash.hash(self.weights.as_slice());
        hash.hash(self.activation_fn.to_hash());
        hash.finish()
    }
}

/// A network: its layers, from the input side to the output side.
#[derive(Debug, Clone, PartialEq)]
pub struct NN {
    pub layers: Vec<NNLayer>,
}

impl View for NN {
    type V = Seq<LayerView>;

    open spec fn view(&self) -> Seq<LayerView> {
        self.layers@.map_values(|l: NNLayer| l@)
    }
}

impl NN {
    /// The network's fingerprint.
    pub fn calc_hash(&self) -> (r: u64)
        ensures
            r == layers_hash(self@),
    {
        let mut hash: u64 = NN_HASH_SEED;
        let mut i: usize = 0;
        while i < self.layers.len()
            invariant
                i <= self.layers@.len(),
                hash == layers_hash(self@.subrange(0, i as int)),
            decreases self.layers@.len() - i,
        {
            proof {
                assert(self@.subrange(0, i + 1).drop_last() =~= self@.subrange(0, i as int));
            }
            hash = hash ^ self.layers[i].calc_hash();
            i = i + 1;
        }
        proof {
            assert(self@.subrange(0, self@.len() as int) =~= self@);
        }
        hash
    }

    /// The network's fingerprint as sixteen hexadecimal digits.
    pub fn calc_hash_to_string(&self) -> (r: String)
        ensures
            r@ == spec_hash_to_string(layers_hash(self@)),
    {
        let hash: u64 = self.calc_hash();
        hash_to_string(hash)
    }

    /// The sizes of the inner layers: the input sizes of all layers but the first.
    pub fn get_inner_layers_sizes(&self) -> (r: Vec<u32>)
        requires
            self.layers@.len() >= 1,
        ensures
            r@ == inner_layers_sizes(self@),
    {
        let mut r: Vec<u32> = Vec::new();
        let mut i: usize = 1;
        while i < self.layers.len()
            invariant
                1 <= i <= self.layers@.len(),
                r@ == self@.subrange(1, i as int).map_values(|l: LayerView| l.size_in),
            decreases self.layers@.len() - i,
        {
            r.push(self.layers[i].size_in);
            proof {
                assert(r@ =~= self@.subrange(1, i + 1).map_values(|l: LayerView| l.size_in));
            }
            i = i + 1;
        }
        proof {
            assert(self@.subrange(1, self@.len() as int) =~= self@.drop_first());
        }
        r
    }

    /// The sizes of all layers, from the input size to the output size. The
    /// network must have a layer, take `INPUT_SIZE` inputs and give `OUTPUT_SIZE` outputs.
    pub fn get_all_layers_sizes(&self) -> (r: Vec<u32>)
        requires
            self.layers@.len() >= 1,
            self.layers@[0].size_in == INPUT_SIZE,
            self.layers@.last().biases@.len() as u32 == OUTPUT_SIZE,
        ensures
            r@ == all_layers_sizes(self@),
            r@ == seq![INPUT_SIZE] + inner_layers_sizes(self@) + seq![OUTPUT_SIZE],
    {
        let mut r = self.get_inner_layers_sizes();
        r.insert(0, self.layers[0].size_in);
        let last = self.layers.len() - 1;
        r.push(self.layers[last].biases.len() as u32);
        proof {
            assert(r@ =~= all_layers_sizes(self@));
            assert(r@ =~= seq![INPUT_SIZE] + inner_layers_sizes(self@) + seq![OUTPUT_SIZE]);
        }
        r
    }

    /// The activation function of each layer.
    pub fn get_activation_fns(&self) -> (r: Vec<ActivationFn>)
        ensures
            r@ == self@.map_values(|l: LayerView| l.activation_fn),
    {
        let mut r: Vec<ActivationFn> = Vec::new();
        let mut i: usize = 0;
        while i < self.layers.len()
            invariant
                i <= self.layers@.len(),
                r@ == self@.subrange(0, i as int).map_values(|l: LayerView| l.activation_fn),
            decreases self.layers@.len() - i,
        {
            r.push(self.layers[i].activation_fn);
            proof {
                assert(r@ =~= self@.subrange(0, i + 1).map_values(|l: LayerView| l.activation_fn));
            }
            i = i + 1;
        }
        proof {
            assert(self@.subrange(0, self@.len() as int) =~= self@);
        }
        r
    }
}

} // verus!

//! The catalogue of activation functions a network layer may use, with the
//! stable 64-bit identifiers under which they are stored in network files.

use vstd::prelude::*;
use rand::rngs::ThreadRng;

verus! {

/// The thread-local random number generator of `rand`.
#[verifier::external_type_specification]
#[verifier::external_body]
pub struct ExThreadRng(rand::rngs::ThreadRng);

/// Draws a number below `upper` with `rand::RngExt::random_range` on the
/// range `0..upper`. `random_range` asserts `!range.is_empty()` (which
/// `requires upper > 0` guarantees) and then unwraps
/// `SampleRange::sample_single`, which for a non-empty `0..upper` of `u8`
/// gives `Ok` with a value inside the range; hence `r < upper`. Which value
/// comes is chance, so nothing more is stated. `ThreadRng` may also panic if
/// the operating system fails to reseed it, which no clause here can exclude.
#[verifier::external_body]
fn random_below(rng: &mut ThreadRng, upper: u8) -> (r: u8)
    requires
        upper > 0,
    ensures
        r < upper,
{
    rand::RngExt::random_range(rng, 0..upper)
}

/// An activation function, applied element-wise (or, for `Softmax` and
/// `Maxout`, to the whole output vector) after a layer's affine map.
/// The declaration order is the discriminant order used by `from_u8`.
#[allow(non_camel_case_types)]
#[derive(Debug, Clone, Copy, PartialEq, Eq, Structural)]
pub enum ActivationFn {
    ReLU,
    LeakyReLU_01,
    LeakyReLU_001,
    Sign,
    Step,
    Sigmoid,
    Tanh,
    SoftSign,
    ExpLU,
    SiLU,
    Gaussian,
    Clamp01,
    ReSqrt, // 0 if x < 0
    SignedSqrt,
    LeakyReSqrt01, // if x < 0 => * 0.1
    LeakyReSqrt001,
    SignedSqrtP1,
    ReSquare,
    SignedSquare,
    LeakyReSquare01, // if x < 0 => * 0.1
    LeakyReSquare001,
    Sinc,
    ReSinc,
    Softmax,
    Maxout,
}

/// The number of variants of `ActivationFn`.
pub const NUMBER_OF_ACTIVATION_FNS: u8 = 25;

impl ActivationFn {
    /// The discriminant of the variant: its position in the declaration.
    pub open spec fn index(self) -> u8 {
        match self {
            ActivationFn::ReLU => 0,
            ActivationFn::LeakyReLU_01 => 1,
            ActivationFn::LeakyReLU_001 => 2,
            ActivationFn::Sign => 3,
            ActivationFn::Step => 4,
            ActivationFn::Sigmoid => 5,
            ActivationFn::Tanh => 6,
            ActivationFn::SoftSign => 7,
            ActivationFn::ExpLU => 8,
            ActivationFn::SiLU => 9,
            ActivationFn::Gaussian => 10,
            ActivationFn::Clamp01 => 11,
            ActivationFn::ReSqrt => 12,
            ActivationFn::SignedSqrt => 13,
            ActivationFn::LeakyReSqrt01 => 14,
            ActivationFn::LeakyReSqrt001 => 15,
            ActivationFn::SignedSqrtP1 => 16,
            ActivationFn::ReSquare => 17,
            ActivationFn::SignedSquare => 18,
            ActivationFn::LeakyReSquare01 => 19,
            ActivationFn::LeakyReSquare001 => 20,
            ActivationFn::Sinc => 21,
            ActivationFn::ReSinc => 22,
            ActivationFn::Softmax => 23,
            ActivationFn::Maxout => 24,
        }
    }

    /// The variant whose discriminant is `n`, if any.
    pub open spec fn spec_from_u8(n: u8) -> Option<ActivationFn> {
        match n {
            0 => Some(ActivationFn::ReLU),
            1 => Some(ActivationFn::LeakyReLU_01),
            2 => Some(ActivationFn::LeakyReLU_001),
            3 => Some(ActivationFn::Sign),
            4 => Some(ActivationFn::Step),
            5 => Some(ActivationFn::Sigmoid),
            6 => Some(ActivationFn::Tanh),
            7 => Some(ActivationFn::SoftSign),
            8 => Some(ActivationFn::ExpLU),
            9 => Some(ActivationFn::SiLU),
            10 => Some(ActivationFn::Gaussian),
            11 => Some(ActivationFn::Clamp01),
            12 => Some(ActivationFn::ReSqrt),
            13 => Some(ActivationFn::SignedSqrt),
            14 => Some(ActivationFn::LeakyReSqrt01),
            15 => Some(ActivationFn::LeakyReSqrt001),
            16 => Some(ActivationFn::SignedSqrtP1),
            17 => Some(ActivationFn::ReSquare),
            18 => Some(ActivationFn::SignedSquare),
            19 => Some(ActivationFn::LeakyReSquare01),
            20 => Some(ActivationFn::LeakyReSquare001),
            21 => Some(ActivationFn::Sinc),
            22 => Some(ActivationFn::ReSinc),
            23 => Some(ActivationFn::Softmax),
            24 => Some(ActivationFn::Maxout),
            _ => None,
        }
    }

    /// The identifier under which the function is stored in network files.
    pub open spec fn spec_to_hash(self) -> u64 {
        match self {
            ActivationFn::ReLU => 0x_39b728e5_6ca7f4a8,
            ActivationFn::LeakyReLU_01 => 0x_807042bc_9e3e8170,
            ActivationFn::LeakyReLU_001 => 0x_c9d5e1e8_3f02d2a7,
            ActivationFn::Sign => 0x_a677c501_3b6fcda2,
            ActivationFn::Step => 0x_f85d4bb4_12b20a92,
            ActivationFn::Sigmoid => 0x_bf8bd5a3_05d3be95,
            ActivationFn::Tanh => 0x_deba1dd1_d30ee4b3,
            ActivationFn::SoftSign => 0x_e9067194_5163f143,
            ActivationFn::ExpLU => 0x_1334fd2f_27429035,
            ActivationFn::SiLU => 0x_c4921e89_35e84654,
            ActivationFn::Gaussian => 0x_61424e39_bf3c44a7,
            ActivationFn::Clamp01 => 0x_b35ef484_34e47d87,
            ActivationFn::ReSqrt => 0x_1b969ca2_d42487d6,
            ActivationFn::SignedSqrt => 0x_07a6a02f_2f82a958,
            ActivationFn::LeakyReSqrt01 => 0x_a09f1663_655ca19e,
            ActivationFn::LeakyReSqrt001 => 0x_02e4e717_3ac11f84,
            ActivationFn::SignedSqrtP1 => 0x_2e8351d3_1cd6db2e,
            ActivationFn::ReSquare => 0x_4193da3a_50e20467,
            ActivationFn::SignedSquare => 0x_d588873b_771910de,
            ActivationFn::LeakyReSquare01 => 0x_f84207c5_34b62a65,
            ActivationFn::LeakyReSquare001 => 0x_3299d4f0_b20d7e00,
            ActivationFn::Sinc => 0x_4a2831dc_c744401b,
            ActivationFn::ReSinc => 0x_b5a8b8c5_52e65861,
            ActivationFn::Softmax => 0x_f0fc8c2d_b6a422db,
            ActivationFn::Maxout => 0x_36bc3c93_6f06f7f8,
        }
    }

    /// The function stored under the identifier `hash`, if any.
    pub open spec fn spec_from_hash(hash: u64) -> Option<ActivationFn> {
        match hash {
            0x_39b728e5_6ca7f4a8 => Some(ActivationFn::ReLU),
            0x_807042bc_9e3e8170 => Some(ActivationFn::LeakyReLU_01),
            0x_c9d5e1e8_3f02d2a7 => Some(ActivationFn::LeakyReLU_001),
            0x_a677c501_3b6fcda2 => Some(ActivationFn::Sign),
            0x_f85d4bb4_12b20a92 => Some(ActivationFn::Step),
            0x_bf8bd5a3_05d3be95 => Some(ActivationFn::Sigmoid),
            0x_deba1dd1_d30ee4b3 => Some(ActivationFn::Tanh),
            0x_e9067194_5163f143 => Some(ActivationFn::SoftSign),
            0x_1334fd2f_27429035 => Some(ActivationFn::ExpLU),
            0x_c4921e89_35e84654 => Some(ActivationFn::SiLU),
            0x_61424e39_bf3c44a7 => Some(ActivationFn::Gaussian),
            0x_b35ef484_34e47d87 => Some(ActivationFn::Clamp01),
            0x_1b969ca2_d42487d6 => Some(ActivationFn::ReSqrt),
            0x_07a6a02f_2f82a958 => Some(ActivationFn::SignedSqrt),
            0x_a09f1663_655ca19e => Some(ActivationFn::LeakyReSqrt01),
            0x_02e4e717_3ac11f84 => Some(ActivationFn::LeakyReSqrt001),
            0x_2e8351d3_1cd6db2e => Some(ActivationFn::SignedSqrtP1),
            0x_4193da3a_50e20467 => Some(ActivationFn::ReSquare),
            0x_d588873b_771910de => Some(ActivationFn::SignedSquare),
            0x_f84207c5_34b62a65 => Some(ActivationFn::LeakyReSquare01),
            0x_3299d4f0_b20d7e00 => Some(ActivationFn::LeakyReSquare001),
            0x_4a2831dc_c744401b => Some(ActivationFn::Sinc),
            0x_b5a8b8c5_52e65861 => Some(ActivationFn::ReSinc),
            0x_f0fc8c2d_b6a422db => Some(ActivationFn::Softmax),
            0x_36bc3c93_6f06f7f8 => Some(ActivationFn::Maxout),
            _ => None,
        }
    }

    /// Whether `hash` identifies an activation function.
    pub open spec fn is_known_hash(hash: u64) -> bool {
        Self::spec_from_hash(hash) is Some
    }

    /// The variant with discriminant `n`, or `None` when `n` is not a discriminant.
    pub fn from_u8(n: u8) -> (r: Option<ActivationFn>)
        ensures
            r == Self::spec_from_u8(n),
            r matches Some(a) ==> a.index() == n,
            r is None <==> n >= NUMBER_OF_ACTIVATION_FNS,
    {
        match n {
            0 => Some(ActivationFn::ReLU),
            1 => Some(ActivationFn::LeakyReLU_01),
            2 => Some(ActivationFn::LeakyReLU_001),
            3 => Some(ActivationFn::Sign),
            4 => Some(ActivationFn::Step),
            5 => Some(ActivationFn::Sigmoid),
            6 => Some(ActivationFn::Tanh),
            7 => Some(ActivationFn::SoftSign),
            8 => Some(ActivationFn::ExpLU),
            9 => Some(ActivationFn::SiLU),
            10 => Some(ActivationFn::Gaussian),
            11 => Some(ActivationFn::Clamp01),
            12 => Some(ActivationFn::ReSqrt),
            13 => Some(ActivationFn::SignedSqrt),
            14 => Some(ActivationFn::LeakyReSqrt01),
            15 => Some(ActivationFn::LeakyReSqrt001),
            16 => Some(ActivationFn::SignedSqrtP1),
            17 => Some(ActivationFn::ReSquare),
            18 => Some(ActivationFn::SignedSquare),
            19 => Some(ActivationFn::LeakyReSquare01),
            20 => Some(ActivationFn::LeakyReSquare001),
            21 => Some(ActivationFn::Sinc),
            22 => Some(ActivationFn::ReSinc),
            23 => Some(ActivationFn::Softmax),
            24 => Some(ActivationFn::Maxout),
            _ => None,
        }
    }

    /// The number of variants: the least `n` for which `from_u8(n)` finds none.
    pub fn get_number_of_variants() -> (r: u8)
        ensures
            r == NUMBER_OF_ACTIVATION_FNS,
            Self::spec_from_u8(r) is None,
            forall|i: u8| i < r ==> (#[trigger] Self::spec_from_u8(i)) is Some,
    {
        let mut i: u8 = 0;
        while Self::from_u8(i).is_some()
            invariant
                i <= NUMBER_OF_ACTIVATION_FNS,
                forall|j: u8| j < i ==> (#[trigger] Self::spec_from_u8(j)) is Some,
            decreases NUMBER_OF_ACTIVATION_FNS - i,
        {
            i = i + 1;
        }
        i
    }

    /// All variants, in discriminant order.
    pub fn get_all_variants() -> (r: Vec<ActivationFn>)
        ensures
            r@.len() == NUMBER_OF_ACTIVATION_FNS,
            forall|i: int| 0 <= i < r@.len() ==> (#[trigger] r@[i]).index() == i,
    {
        let n = Self::get_number_of_variants();
        let mut r: Vec<ActivationFn> = Vec::new();
        let mut i: u8 = 0;
        while i < n
            invariant
                n == NUMBER_OF_ACTIVATION_FNS,
                i <= n,
                r@.len() == i,
                forall|j: int| 0 <= j < r@.len() ==> (#[trigger] r@[j]).index() == j,
            decreases n - i,
        {
            let a = Self::from_u8(i);
            match a {
                Some(a) => r.push(a),
                None => {},
            }
            i = i + 1;
        }
        r
    }

    /// The identifier under which the function is stored in network files.
    pub fn to_hash(self) -> (r: u64)
        ensures
            r == self.spec_to_hash(),
    {
        match self {
            ActivationFn::ReLU => 0x_39b728e5_6ca7f4a8,
            ActivationFn::LeakyReLU_01 => 0x_807042bc_9e3e8170,
            ActivationFn::LeakyReLU_001 => 0x_c9d5e1e8_3f02d2a7,
            ActivationFn::Sign => 0x_a677c501_3b6fcda2,
            ActivationFn::Step => 0x_f85d4bb4_12b20a92,
            ActivationFn::Sigmoid => 0x_bf8bd5a3_05d3be95,
            ActivationFn::Tanh => 0x_deba1dd1_d30ee4b3,
            ActivationFn::SoftSign => 0x_e9067194_5163f143,
            ActivationFn::ExpLU => 0x_1334fd2f_27429035,
            ActivationFn::SiLU => 0x_c4921e89_35e84654,
            ActivationFn::Gaussian => 0x_61424e39_bf3c44a7,
            ActivationFn::Clamp01 => 0x_b35ef484_34e47d87,
            ActivationFn::ReSqrt => 0x_1b969ca2_d42487d6,
            ActivationFn::SignedSqrt => 0x_07a6a02f_2f82a958,
            ActivationFn::LeakyReSqrt01 => 0x_a09f1663_655ca19e,
            ActivationFn::LeakyReSqrt001 => 0x_02e4e717_3ac11f84,
            ActivationFn::SignedSqrtP1 => 0x_2e8351d3_1cd6db2e,
            ActivationFn::ReSquare => 0x_4193da3a_50e20467,
            ActivationFn::SignedSquare => 0x_d588873b_771910de,
            ActivationFn::LeakyReSquare01 => 0x_f84207c5_34b62a65,
            ActivationFn::LeakyReSquare001 => 0x_3299d4f0_b20d7e00,
            ActivationFn::Sinc => 0x_4a2831dc_c744401b,
            ActivationFn::ReSinc => 0x_b5a8b8c5_52e65861,
            ActivationFn::Softmax => 0x_f0fc8c2d_b6a422db,
            ActivationFn::Maxout => 0x_36bc3c93_6f06f7f8,
        }
    }

    /// The function stored under `hash`, or `None` for an unknown identifier.
    pub fn try_from_hash(hash: u64) -> (r: Option<ActivationFn>)
        ensures
            r == Self::spec_from_hash(hash),
            r matches Some(a) ==> a.spec_to_hash() == hash,
    {
        proof { lemma_from_hash_inverts_to_hash(hash); }
        match hash {
            0x_39b728e5_6ca7f4a8 => Some(ActivationFn::ReLU),
            0x_807042bc_9e3e8170 => Some(ActivationFn::LeakyReLU_01),
            0x_c9d5e1e8_3f02d2a7 => Some(ActivationFn::LeakyReLU_001),
            0x_a677c501_3b6fcda2 => Some(ActivationFn::Sign),
            0x_f85d4bb4_12b20a92 => Some(ActivationFn::Step),
            0x_bf8bd5a3_05d3be95 => Some(ActivationFn::Sigmoid),
            0x_deba1dd1_d30ee4b3 => Some(ActivationFn::Tanh),
            0x_e9067194_5163f143 => Some(ActivationFn::SoftSign),
            0x_1334fd2f_27429035 => Some(ActivationFn::ExpLU),
            0x_c4921e89_35e84654 => Some(ActivationFn::SiLU),
            0x_61424e39_bf3c44a7 => Some(ActivationFn::Gaussian),
            0x_b35ef484_34e47d87 => Some(ActivationFn::Clamp01),
            0x_1b969ca2_d42487d6 => Some(ActivationFn::ReSqrt),
            0x_07a6a02f_2f82a958 => Some(ActivationFn::SignedSqrt),
            0x_a09f1663_655ca19e => Some(ActivationFn::LeakyReSqrt01),
            0x_02e4e717_3ac11f84 => Some(ActivationFn::LeakyReSqrt001),
            0x_2e8351d3_1cd6db2e => Some(ActivationFn::SignedSqrtP1),
            0x_4193da3a_50e20467 => Some(ActivationFn::ReSquare),
            0x_d588873b_771910de => Some(ActivationFn::SignedSquare),
            0x_f84207c5_34b62a65 => Some(ActivationFn::LeakyReSquare01),
            0x_3299d4f0_b20d7e00 => Some(ActivationFn::LeakyReSquare001),
            0x_4a2831dc_c744401b => Some(ActivationFn::Sinc),
            0x_b5a8b8c5_52e65861 => Some(ActivationFn::ReSinc),
            0x_f0fc8c2d_b6a422db => Some(ActivationFn::Softmax),
            0x_36bc3c93_6f06f7f8 => Some(ActivationFn::Maxout),
            _ => None,
        }
    }

    /// The function stored under `hash`; the identifier must be a known one.
    pub fn from_hash(hash: u64) -> (r: ActivationFn)
        requires
            Self::is_known_hash(hash),
        ensures
            Self::spec_from_hash(hash) == Some(r),
            r.spec_to_hash() == hash,
    {
        match Self::try_from_hash(hash) {
            Some(a) => a,
            None => ActivationFn::ReLU,
        }
    }
}

impl ActivationFn {
    /// A uniformly random activation function: the variant whose discriminant
    /// is a number drawn below `NUMBER_OF_ACTIVATION_FNS` (see `from_u8`).
    pub fn new_random(rng: &mut ThreadRng) -> (r: ActivationFn)
        ensures
            r.index() < NUMBER_OF_ACTIVATION_FNS,
    {
        let n = random_below(rng, NUMBER_OF_ACTIVATION_FNS);
        match Self::from_u8(n) {
            Some(a) => a,
            None => ActivationFn::ReLU,
        }
    }
}

/// Reading back an identifier gives the function it identifies.
pub proof fn lemma_to_hash_from_hash(a: ActivationFn)
    ensures
        ActivationFn::spec_from_hash(a.spec_to_hash()) == Some(a),
{
}

/// Every identifier that is read as a function is that function's identifier.
pub proof fn lemma_from_hash_inverts_to_hash(hash: u64)
    ensures
        ActivationFn::spec_from_hash(hash) matches Some(a) ==> a.spec_to_hash() == hash,
{
}

/// Distinct activation functions have distinct identifiers.
pub proof fn lemma_to_hash_injective(a: ActivationFn, b: ActivationFn)
    ensures
        a.spec_to_hash() == b.spec_to_hash() ==> a == b,
{
    lemma_to_hash_from_hash(a);
    lemma_to_hash_from_hash(b);
}

/// Each function has its own discriminant, and `from_u8` reads it back.
pub proof fn lemma_index_from_u8(a: ActivationFn)
    ensures
        a.index() < NUMBER_OF_ACTIVATION_FNS,
        ActivationFn::spec_from_u8(a.index()) == Some(a),
{
}

} // verus!

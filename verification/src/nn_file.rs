//! The network file format, all integers little-endian:
//!
//! ```text
//! magic (u64) | fingerprint of the network (u64) | number of layers NL (u32)
//! all layer sizes (NL + 1 u32) | activation function identifiers (NL u64)
//! per layer: number of biases (u32), biases (f32 bits) | number of weights (u32), weights (f32 bits)
//! ```

use vstd::prelude::*;
use crate::activation::ActivationFn;
use crate::hashing::{byte_of, from_le_bytes, spec_hash_to_string, lemma_hash_to_string_injective};
use crate::nn::{
    LayerView, NN, NNLayer, INPUT_SIZE, OUTPUT_SIZE, all_layers_sizes, layers_hash,
};

verus! {

/// The first eight bytes of every network file.
pub const NN_FILE_FORMAT_MAGIC: u64 = 0x066262e3_145aaa67u64;

/// The little-endian bytes of a 32-bit number.
pub open spec fn u32_le_bytes(x: u32) -> Seq<u8> {
    seq![(x & 0xff) as u8, ((x >> 8u32) & 0xff) as u8, ((x >> 16u32) & 0xff) as u8, ((x >> 24u32) & 0xff) as u8]
}

/// The 32-bit number with little-endian bytes `b0` .. `b3`.
pub open spec fn u32_from_le(b0: u8, b1: u8, b2: u8, b3: u8) -> u32 {
    (b0 as u32) | ((b1 as u32) << 8u32) | ((b2 as u32) << 16u32) | ((b3 as u32) << 24u32)
}

/// The little-endian bytes of a 64-bit number.
pub open spec fn u64_le_bytes(x: u64) -> Seq<u8> {
    seq![byte_of(x, 0), byte_of(x, 1), byte_of(x, 2), byte_of(x, 3), byte_of(x, 4), byte_of(x, 5), byte_of(x, 6), byte_of(x, 7)]
}

/// The 32-bit number stored at byte offset `i` of `b`.
pub open spec fn u32_at(b: Seq<u8>, i: int) -> u32 {
    u32_from_le(b[i], b[i + 1], b[i + 2], b[i + 3])
}

/// The 64-bit number stored at byte offset `i` of `b`.
pub open spec fn u64_at(b: Seq<u8>, i: int) -> u64 {
    from_le_bytes(b[i], b[i + 1], b[i + 2], b[i + 3], b[i + 4], b[i + 5], b[i + 6], b[i + 7])
}

/// The first `n` 32-bit numbers stored in `b`.
pub open spec fn u32s_at(b: Seq<u8>, n: nat) -> Seq<u32> {
    Seq::new(n, |i: int| u32_at(b, 4 * i))
}

/// The first `n` 64-bit numbers stored in `b`.
pub open spec fn u64s_at(b: Seq<u8>, n: nat) -> Seq<u64> {
    Seq::new(n, |i: int| u64_at(b, 8 * i))
}

/// The bytes of a sequence of 32-bit numbers, one after the other.
pub open spec fn u32s_le_bytes(s: Seq<u32>) -> Seq<u8> {
    Seq::new(4 * s.len(), |j: int| u32_le_bytes(s[j / 4])[j % 4])
}

/// The bytes of a sequence of 64-bit numbers, one after the other.
pub open spec fn u64s_le_bytes(s: Seq<u64>) -> Seq<u8> {
    Seq::new(8 * s.len(), |j: int| u64_le_bytes(s[j / 8])[j % 8])
}

/// The bytes of one layer: its biases and its weights, each preceded by its count.
pub open spec fn layer_bytes(l: LayerView) -> Seq<u8> {
    u32_le_bytes(l.biases.len() as u32) + u32s_le_bytes(l.biases)
        + u32_le_bytes(l.weights.len() as u32) + u32s_le_bytes(l.weights)
}

/// The bytes of a sequence of layers, one after the other.
pub open spec fn layers_bytes(ls: Seq<LayerView>) -> Seq<u8>
    decreases ls.len(),
{
    if ls.len() == 0 {
        Seq::empty()
    } else {
        layer_bytes(ls[0]) + layers_bytes(ls.drop_first())
    }
}

/// The bytes of a whole network file.
pub open spec fn nn_to_bytes(ls: Seq<LayerView>) -> Seq<u8> {
    u64_le_bytes(NN_FILE_FORMAT_MAGIC) + u64_le_bytes(layers_hash(ls)) + u32_le_bytes(ls.len() as u32)
        + u32s_le_bytes(all_layers_sizes(ls))
        + u64s_le_bytes(ls.map_values(|l: LayerView| l.activation_fn.spec_to_hash()))
        + layers_bytes(ls)
}

/// Whether `n` bytes of `k`-byte numbers can be sliced: `k * n` is computed as a
/// `u32` by the reader, so it must not overflow, and the bytes must be there.
pub open spec fn fits(k: nat, n: nat, available: nat) -> bool {
    k * n <= u32::MAX && k * n <= available
}

/// The layers stored in `b`, whose sizes are `sizes` and whose activation
/// functions are `afs`; `None` when `b` does not hold exactly such layers.
/// Layer `i` takes `sizes[i]` inputs and gives `sizes[i + 1]` outputs, and must
/// store exactly `sizes[i] * sizes[i + 1]` weights.
pub open spec fn parse_layers(b: Seq<u8>, sizes: Seq<u32>, afs: Seq<ActivationFn>) -> Option<Seq<LayerView>>
    decreases afs.len(),
{
    if afs.len() == 0 {
        if b.len() == 0 { Some(Seq::empty()) } else { None }
    } else if b.len() < 4 {
        None
    } else {
        let nb = u32_at(b, 0);
        let b1 = b.skip(4);
        if !fits(4, nb as nat, b1.len()) {
            None
        } else {
            let b2 = b1.skip(4 * nb);
            if b2.len() < 4 {
                None
            } else {
                let nw = u32_at(b2, 0);
                let b3 = b2.skip(4);
                if !fits(4, nw as nat, b3.len()) || nw != sizes[0] as nat * sizes[1] as nat {
                    None
                } else {
                    let layer = LayerView {
                        size_in: sizes[0],
                        size_out: sizes[1],
                        weights: u32s_at(b3, nw as nat),
                        biases: u32s_at(b1, nb as nat),
                        activation_fn: afs[0],
                    };
                    match parse_layers(b3.skip(4 * nw), sizes.drop_first(), afs.drop_first()) {
                        Some(rest) => Some(seq![layer] + rest),
                        None => None,
                    }
                }
            }
        }
    }
}

/// The network stored in the file `b`, or `None` when `b` is not a network
/// file: wrong magic, truncated or overlong data, an unknown activation
/// function identifier, a weight count that does not fill its matrix, or a
/// stored fingerprint whose text differs from that of the network read.
#[verifier::opaque]
pub open spec fn parse_nn(b: Seq<u8>) -> Option<Seq<LayerView>> {
    if b.len() < 20 || u64_at(b, 0) != NN_FILE_FORMAT_MAGIC {
        None
    } else {
        let hash = u64_at(b, 8);
        let n = u32_at(b, 16);
        let b1 = b.skip(20);
        if !fits(4, (n + 1) as nat, b1.len()) {
            None
        } else {
            let sizes = u32s_at(b1, (n + 1) as nat);
            let b2 = b1.skip(4 * (n + 1));
            if !fits(8, n as nat, b2.len()) {
                None
            } else {
                let ids = u64s_at(b2, n as nat);
                if !(forall|i: int| 0 <= i < ids.len() ==> ActivationFn::is_known_hash(#[trigger] ids[i])) {
                    None
                } else {
                    let afs = ids.map_values(|h: u64| ActivationFn::spec_from_hash(h)->Some_0);
                    match parse_layers(b2.skip(8 * n), sizes, afs) {
                        Some(ls) => if spec_hash_to_string(hash) == spec_hash_to_string(layers_hash(ls)) {
                            Some(ls)
                        } else {
                            None
                        },
                        None => None,
                    }
                }
            }
        }
    }
}

proof fn lemma_u32_le_roundtrip(x: u32)
    ensures
        u32_from_le(u32_le_bytes(x)[0], u32_le_bytes(x)[1], u32_le_bytes(x)[2], u32_le_bytes(x)[3]) == x,
{
    assert(u32_from_le(
        (x & 0xff) as u8,
        ((x >> 8u32) & 0xff) as u8,
        ((x >> 16u32) & 0xff) as u8,
        ((x >> 24u32) & 0xff) as u8,
    ) == x) by (bit_vector);
}

proof fn lemma_u64_le_roundtrip(x: u64)
    ensures
        ({
            let b = u64_le_bytes(x);
            from_le_bytes(b[0], b[1], b[2], b[3], b[4], b[5], b[6], b[7]) == x
        }),
{
    assert(from_le_bytes(
        byte_of(x, 0),
        byte_of(x, 1),
        byte_of(x, 2),
        byte_of(x, 3),
        byte_of(x, 4),
        byte_of(x, 5),
        byte_of(x, 6),
        byte_of(x, 7),
    ) == x) by (bit_vector);
}

proof fn lemma_u32s_le_bytes_push(s: Seq<u32>, x: u32)
    ensures
        u32s_le_bytes(s.push(x)) =~= u32s_le_bytes(s) + u32_le_bytes(x),
{
    let a = u32s_le_bytes(s.push(x));
    let b = u32s_le_bytes(s) + u32_le_bytes(x);
    assert forall|j: int| 0 <= j < a.len() implies a[j] == b[j] by {
        if j < 4 * s.len() {
            assert(j / 4 < s.len());
        } else {
            assert(j / 4 == s.len());
            assert(j % 4 == j - 4 * s.len());
        }
    }
}

proof fn lemma_u64s_le_bytes_push(s: Seq<u64>, x: u64)
    ensures
        u64s_le_bytes(s.push(x)) =~= u64s_le_bytes(s) + u64_le_bytes(x),
{
    let a = u64s_le_bytes(s.push(x));
    let b = u64s_le_bytes(s) + u64_le_bytes(x);
    assert forall|j: int| 0 <= j < a.len() implies a[j] == b[j] by {
        if j < 8 * s.len() {
            assert(j / 8 < s.len());
        } else {
            assert(j / 8 == s.len());
            assert(j % 8 == j - 8 * s.len());
        }
    }
}

proof fn lemma_layers_bytes_push(ls: Seq<LayerView>, l: LayerView)
    ensures
        layers_bytes(ls.push(l)) =~= layers_bytes(ls) + layer_bytes(l),
    decreases ls.len(),
{
    if ls.len() == 0 {
        assert(ls.push(l).drop_first() =~= Seq::<LayerView>::empty());
        assert(layers_bytes(Seq::<LayerView>::empty()) == Seq::<u8>::empty());
    } else {
        assert(ls.push(l).drop_first() =~= ls.drop_first().push(l));
        lemma_layers_bytes_push(ls.drop_first(), l);
    }
}

fn push_u32(out: &mut Vec<u8>, x: u32)
    ensures
        final(out)@ == old(out)@ + u32_le_bytes(x),
{
    out.push((x & 0xff) as u8);
    out.push(((x >> 8u32) & 0xff) as u8);
    out.push(((x >> 16u32) & 0xff) as u8);
    out.push(((x >> 24u32) & 0xff) as u8);
    proof {
        assert(final(out)@ =~= old(out)@ + u32_le_bytes(x));
    }
}

fn push_u64(out: &mut Vec<u8>, x: u64)
    ensures
        final(out)@ == old(out)@ + u64_le_bytes(x),
{
    let mut k: u64 = 0;
    while k < 8
        invariant
            k <= 8,
            out@ == old(out)@ + u64_le_bytes(x).subrange(0, k as int),
        decreases 8 - k,
    {
        out.push(((x >> (8 * k)) & 0xff) as u8);
        proof {
            assert(out@ =~= old(out)@ + u64_le_bytes(x).subrange(0, k + 1));
        }
        k = k + 1;
    }
    proof {
        assert(u64_le_bytes(x).subrange(0, 8) =~= u64_le_bytes(x));
    }
}

fn push_u32s(out: &mut Vec<u8>, s: &[u32])
    ensures
        final(out)@ == old(out)@ + u32s_le_bytes(s@),
{
    let mut i: usize = 0;
    proof {
        assert(u32s_le_bytes(s@.subrange(0, 0)) =~= Seq::<u8>::empty());
    }
    while i < s.len()
        invariant
            i <= s@.len(),
            out@ == old(out)@ + u32s_le_bytes(s@.subrange(0, i as int)),
        decreases s@.len() - i,
    {
        proof {
            assert(s@.subrange(0, i + 1) =~= s@.subrange(0, i as int).push(s@[i as int]));
            lemma_u32s_le_bytes_push(s@.subrange(0, i as int), s@[i as int]);
        }
        push_u32(out, s[i]);
        i = i + 1;
    }
    proof {
        assert(s@.subrange(0, s@.len() as int) =~= s@);
    }
}

fn read_u32(b: &[u8], pos: usize) -> (r: u32)
    requires
        pos + 4 <= b@.len(),
    ensures
        r == u32_at(b@, pos as int),
{
    (b[pos] as u32) | ((b[pos + 1] as u32) << 8u32) | ((b[pos + 2] as u32) << 16u32)
        | ((b[pos + 3] as u32) << 24u32)
}

fn read_u64(b: &[u8], pos: usize) -> (r: u64)
    requires
        pos + 8 <= b@.len(),
    ensures
        r == u64_at(b@, pos as int),
{
    (b[pos] as u64) | ((b[pos + 1] as u64) << 8u64) | ((b[pos + 2] as u64) << 16u64)
        | ((b[pos + 3] as u64) << 24u64) | ((b[pos + 4] as u64) << 32u64)
        | ((b[pos + 5] as u64) << 40u64) | ((b[pos + 6] as u64) << 48u64)
        | ((b[pos + 7] as u64) << 56u64)
}

fn read_u32s(b: &[u8], pos: usize, n: usize) -> (r: Vec<u32>)
    requires
        pos + 4 * n <= b@.len(),
    ensures
        r@ == u32s_at(b@.skip(pos as int), n as nat),
{
    let mut r: Vec<u32> = Vec::new();
    let mut i: usize = 0;
    let _len = b.len();
    while i < n
        invariant
            i <= n,
            pos + 4 * n <= b@.len(),
            b@.len() <= usize::MAX,
            r@ =~= u32s_at(b@.skip(pos as int), i as nat),
        decreases n - i,
    {
        r.push(read_u32(b, pos + 4 * i));
        i = i + 1;
    }
    r
}

fn read_u64s(b: &[u8], pos: usize, n: usize) -> (r: Vec<u64>)
    requires
        pos + 8 * n <= b@.len(),
    ensures
        r@ == u64s_at(b@.skip(pos as int), n as nat),
{
    let mut r: Vec<u64> = Vec::new();
    let mut i: usize = 0;
    let _len = b.len();
    while i < n
        invariant
            i <= n,
            pos + 8 * n <= b@.len(),
            b@.len() <= usize::MAX,
            r@ =~= u64s_at(b@.skip(pos as int), i as nat),
        decreases n - i,
    {
        r.push(read_u64(b, pos + 8 * i));
        i = i + 1;
    }
    r
}

/// `p`, with `prefix` put in front of the layers it holds.
pub open spec fn prepend_layers(prefix: Seq<LayerView>, p: Option<Seq<LayerView>>) -> Option<Seq<LayerView>> {
    match p {
        Some(rest) => Some(prefix + rest),
        None => None,
    }
}

fn parse_layers_exec(b: &[u8], start: usize, sizes: &Vec<u32>, afs: &Vec<ActivationFn>) -> (r: Option<Vec<NNLayer>>)
    requires
        start <= b@.len(),
        sizes@.len() == afs@.len() + 1,
    ensures
        match r {
            Some(ls) => parse_layers(b@.skip(start as int), sizes@, afs@) == Some(ls@.map_values(|l: NNLayer| l@)),
            None => parse_layers(b@.skip(start as int), sizes@, afs@) is None,
        },
{
    let mut layers: Vec<NNLayer> = Vec::new();
    let mut pos = start;
    let mut k: usize = 0;
    let ghost whole = parse_layers(b@.skip(start as int), sizes@, afs@);
    proof {
        assert(sizes@.skip(0) =~= sizes@);
        assert(afs@.skip(0) =~= afs@);
        assert(layers@.map_values(|l: NNLayer| l@) =~= Seq::<LayerView>::empty());
    }
    while k < afs.len()
        invariant
            start <= pos <= b@.len(),
            k <= afs@.len(),
            sizes@.len() == afs@.len() + 1,
            whole == parse_layers(b@.skip(start as int), sizes@, afs@),
            whole == prepend_layers(
                layers@.map_values(|l: NNLayer| l@),
                parse_layers(b@.skip(pos as int), sizes@.skip(k as int), afs@.skip(k as int)),
            ),
        decreases afs@.len() - k,
    {
        let ghost rb = b@.skip(pos as int);
        let ghost rs = sizes@.skip(k as int);
        let ghost ra = afs@.skip(k as int);
        let len = b.len();
        if len - pos < 4 {
            return None;
        }
        let nb = read_u32(b, pos);
        proof {
            assert(rb.skip(4) =~= b@.skip(pos + 4));
        }
        if 4 * (nb as u64) > u32::MAX as u64 || 4 * (nb as u64) > (len - (pos + 4)) as u64 {
            return None;
        }
        let biases = read_u32s(b, pos + 4, nb as usize);
        let p2 = pos + 4 + 4 * (nb as usize);
        proof {
            assert(rb.skip(4).skip(4 * nb) =~= b@.skip(p2 as int));
        }
        if len - p2 < 4 {
            return None;
        }
        let nw = read_u32(b, p2);
        proof {
            assert(b@.skip(p2 as int).skip(4) =~= b@.skip(p2 + 4));
        }
        let size_in = sizes[k];
        let size_out = sizes[k + 1];
        proof {
            assert(size_in as u64 * size_out as u64 <= u64::MAX) by (nonlinear_arith)
                requires size_in <= u32::MAX, size_out <= u32::MAX;
        }
        if 4 * (nw as u64) > u32::MAX as u64 || 4 * (nw as u64) > (len - (p2 + 4)) as u64
            || nw as u64 != size_in as u64 * size_out as u64 {
            return None;
        }
        let weights = read_u32s(b, p2 + 4, nw as usize);
        let p3 = p2 + 4 + 4 * (nw as usize);
        proof {
            assert(b@.skip(p2 + 4).skip(4 * nw) =~= b@.skip(p3 as int));
            assert(rs.drop_first() =~= sizes@.skip(k + 1));
            assert(ra.drop_first() =~= afs@.skip(k + 1));
        }
        let layer = NNLayer {
            size_in,
            size_out,
            weights,
            biases,
            activation_fn: afs[k],
        };
        let ghost old_layers = layers@.map_values(|l: NNLayer| l@);
        layers.push(layer);
        proof {
            assert(layers@.map_values(|l: NNLayer| l@) =~= old_layers + seq![layer@]);
            let tail = parse_layers(b@.skip(p3 as int), sizes@.skip(k + 1), afs@.skip(k + 1));
            match tail {
                Some(t) => {
                    assert(old_layers + (seq![layer@] + t) =~= (old_layers + seq![layer@]) + t);
                },
                None => {},
            }
        }
        pos = p3;
        k = k + 1;
    }
    if pos == b.len() {
        proof {
            assert(b@.skip(pos as int).len() == 0);
            assert(layers@.map_values(|l: NNLayer| l@) + Seq::<LayerView>::empty()
                =~= layers@.map_values(|l: NNLayer| l@));
        }
        Some(layers)
    } else {
        None
    }
}

/// Whether a network can be written to a file and read back: it has at least
/// one layer; every count the file stores, times the width of what it counts,
/// is a `u32`; every weight matrix is full; each layer's output size is the
/// next layer's input size, and the last layer's is its number of biases.
pub open spec fn fits_file_format(ls: Seq<LayerView>) -> bool {
    &&& ls.len() >= 1
    &&& 4 * (ls.len() + 1) <= u32::MAX
    &&& 8 * ls.len() <= u32::MAX
    &&& forall|i: int| 0 <= i < ls.len() ==> {
        &&& (#[trigger] ls[i]).wf()
        &&& 4 * ls[i].biases.len() <= u32::MAX
        &&& 4 * ls[i].weights.len() <= u32::MAX
    }
    &&& forall|i: int| 0 <= i < ls.len() - 1 ==> #[trigger] ls[i].size_out == ls[i + 1].size_in
    &&& ls.last().size_out == ls.last().biases.len()
}

proof fn lemma_u32s_at_le_bytes(s: Seq<u32>, rest: Seq<u8>)
    ensures
        u32s_at(u32s_le_bytes(s) + rest, s.len()) =~= s,
{
    let x = u32s_le_bytes(s) + rest;
    assert forall|i: int| 0 <= i < s.len() implies u32_at(x, 4 * i) == s[i] by {
        assert((4 * i) / 4 == i && (4 * i) % 4 == 0);
        assert((4 * i + 1) / 4 == i && (4 * i + 1) % 4 == 1);
        assert((4 * i + 2) / 4 == i && (4 * i + 2) % 4 == 2);
        assert((4 * i + 3) / 4 == i && (4 * i + 3) % 4 == 3);
        lemma_u32_le_roundtrip(s[i]);
    }
}

proof fn lemma_u64s_at_le_bytes(s: Seq<u64>, rest: Seq<u8>)
    ensures
        u64s_at(u64s_le_bytes(s) + rest, s.len()) =~= s,
{
    let x = u64s_le_bytes(s) + rest;
    assert forall|i: int| 0 <= i < s.len() implies u64_at(x, 8 * i) == s[i] by {
        assert((8 * i) / 8 == i && (8 * i) % 8 == 0);
        assert((8 * i + 1) / 8 == i && (8 * i + 1) % 8 == 1);
        assert((8 * i + 2) / 8 == i && (8 * i + 2) % 8 == 2);
        assert((8 * i + 3) / 8 == i && (8 * i + 3) % 8 == 3);
        assert((8 * i + 4) / 8 == i && (8 * i + 4) % 8 == 4);
        assert((8 * i + 5) / 8 == i && (8 * i + 5) % 8 == 5);
        assert((8 * i + 6) / 8 == i && (8 * i + 6) % 8 == 6);
        assert((8 * i + 7) / 8 == i && (8 * i + 7) % 8 == 7);
        lemma_u64_le_roundtrip(s[i]);
    }
}

proof fn lemma_parse_one_layer(l: LayerView, rb: Seq<u8>, sizes: Seq<u32>, afs: Seq<ActivationFn>)
    requires
        l.wf(),
        4 * l.biases.len() <= u32::MAX,
        4 * l.weights.len() <= u32::MAX,
        afs.len() >= 1,
        sizes.len() == afs.len() + 1,
        l.size_in == sizes[0],
        l.size_out == sizes[1],
        l.activation_fn == afs[0],
    ensures
        parse_layers(layer_bytes(l) + rb, sizes, afs)
            == prepend_layers(seq![l], parse_layers(rb, sizes.drop_first(), afs.drop_first())),
{
    let b = layer_bytes(l) + rb;
    let nb = l.biases.len() as u32;
    let nw = l.weights.len() as u32;
    let bb = u32s_le_bytes(l.biases);
    let wb = u32s_le_bytes(l.weights);
    assert(b =~= u32_le_bytes(nb) + (bb + (u32_le_bytes(nw) + (wb + rb))));
    lemma_u32_le_roundtrip(nb);
    assert(u32_at(b, 0) == nb);
    let b1 = b.skip(4);
    assert(b1 =~= bb + (u32_le_bytes(nw) + (wb + rb)));
    lemma_u32s_at_le_bytes(l.biases, u32_le_bytes(nw) + (wb + rb));
    let b2 = b1.skip(4 * nb);
    assert(b2 =~= u32_le_bytes(nw) + (wb + rb));
    lemma_u32_le_roundtrip(nw);
    assert(u32_at(b2, 0) == nw);
    let b3 = b2.skip(4);
    assert(b3 =~= wb + rb);
    lemma_u32s_at_le_bytes(l.weights, rb);
    assert(b3.skip(4 * nw) =~= rb);
    let parsed = LayerView {
        size_in: sizes[0],
        size_out: sizes[1],
        weights: u32s_at(b3, nw as nat),
        biases: u32s_at(b1, nb as nat),
        activation_fn: afs[0],
    };
    assert(parsed == l);
}

proof fn lemma_parse_layers_roundtrip(ls: Seq<LayerView>, sizes: Seq<u32>)
    requires
        sizes.len() == ls.len() + 1,
        forall|i: int| 0 <= i < ls.len() ==> {
            &&& (#[trigger] ls[i]).wf()
            &&& ls[i].size_in == sizes[i]
            &&& ls[i].size_out == sizes[i + 1]
            &&& 4 * ls[i].biases.len() <= u32::MAX
            &&& 4 * ls[i].weights.len() <= u32::MAX
        },
    ensures
        parse_layers(layers_bytes(ls), sizes, ls.map_values(|l: LayerView| l.activation_fn)) == Some(ls),
    decreases ls.len(),
{
    let afs = ls.map_values(|l: LayerView| l.activation_fn);
    if ls.len() == 0 {
        assert(layers_bytes(ls) =~= Seq::<u8>::empty());
        assert(Seq::<LayerView>::empty() =~= ls);
    } else {
        let l = ls[0];
        let rest = ls.drop_first();
        assert(ls[0].wf() && ls[0].size_in == sizes[0] && ls[0].size_out == sizes[1]);
        lemma_parse_one_layer(l, layers_bytes(rest), sizes, afs);
        assert forall|i: int| 0 <= i < rest.len() implies {
            &&& (#[trigger] rest[i]).wf()
            &&& rest[i].size_in == sizes.drop_first()[i]
            &&& rest[i].size_out == sizes.drop_first()[i + 1]
            &&& 4 * rest[i].biases.len() <= u32::MAX
            &&& 4 * rest[i].weights.len() <= u32::MAX
        } by {
            assert(rest[i] == ls[i + 1]);
        }
        lemma_parse_layers_roundtrip(rest, sizes.drop_first());
        assert(afs.drop_first() =~= rest.map_values(|l: LayerView| l.activation_fn));
        assert(seq![l] + rest =~= ls);
    }
}

proof fn lemma_nn_bytes_header(ls: Seq<LayerView>)
    requires
        8 * ls.len() <= u32::MAX,
    ensures
        ({
            let b = nn_to_bytes(ls);
            &&& b.len() >= 20
            &&& u64_at(b, 0) == NN_FILE_FORMAT_MAGIC
            &&& u64_at(b, 8) == layers_hash(ls)
            &&& u32_at(b, 16) == ls.len()
            &&& b.skip(20) =~= u32s_le_bytes(all_layers_sizes(ls))
                + (u64s_le_bytes(ls.map_values(|l: LayerView| l.activation_fn.spec_to_hash())) + layers_bytes(ls))
        }),
{
    let n = ls.len() as u32;
    let m8 = u64_le_bytes(NN_FILE_FORMAT_MAGIC);
    let h8 = u64_le_bytes(layers_hash(ls));
    let rest = u32s_le_bytes(all_layers_sizes(ls))
        + (u64s_le_bytes(ls.map_values(|l: LayerView| l.activation_fn.spec_to_hash())) + layers_bytes(ls));
    let b = nn_to_bytes(ls);
    assert(b =~= m8 + (h8 + (u32_le_bytes(n) + rest)));
    lemma_u64_le_roundtrip(NN_FILE_FORMAT_MAGIC);
    lemma_u64_le_roundtrip(layers_hash(ls));
    lemma_u32_le_roundtrip(n);
}

proof fn lemma_activation_ids(ls: Seq<LayerView>)
    ensures
        ({
            let ids = ls.map_values(|l: LayerView| l.activation_fn.spec_to_hash());
            &&& forall|i: int| 0 <= i < ids.len() ==> ActivationFn::is_known_hash(#[trigger] ids[i])
            &&& ids.map_values(|h: u64| ActivationFn::spec_from_hash(h)->Some_0)
                =~= ls.map_values(|l: LayerView| l.activation_fn)
        }),
{
    let ids = ls.map_values(|l: LayerView| l.activation_fn.spec_to_hash());
    assert forall|i: int| 0 <= i < ids.len() implies ActivationFn::is_known_hash(#[trigger] ids[i]) by {
        crate::activation::lemma_to_hash_from_hash(ls[i].activation_fn);
    }
    let afs = ids.map_values(|h: u64| ActivationFn::spec_from_hash(h)->Some_0);
    assert forall|i: int| 0 <= i < ls.len() implies #[trigger] afs[i] == ls[i].activation_fn by {
        crate::activation::lemma_to_hash_from_hash(ls[i].activation_fn);
    }
}

proof fn lemma_sizes_describe_layers(ls: Seq<LayerView>)
    requires
        fits_file_format(ls),
    ensures
        all_layers_sizes(ls).len() == ls.len() + 1,
        forall|i: int| 0 <= i < ls.len() ==> {
            &&& (#[trigger] ls[i]).wf()
            &&& ls[i].size_in == all_layers_sizes(ls)[i]
            &&& ls[i].size_out == all_layers_sizes(ls)[i + 1]
            &&& 4 * ls[i].biases.len() <= u32::MAX
            &&& 4 * ls[i].weights.len() <= u32::MAX
        },
{
    let sizes = all_layers_sizes(ls);
    assert forall|i: int| 0 <= i < ls.len() implies {
        &&& (#[trigger] ls[i]).wf()
        &&& ls[i].size_in == sizes[i]
        &&& ls[i].size_out == sizes[i + 1]
        &&& 4 * ls[i].biases.len() <= u32::MAX
        &&& 4 * ls[i].weights.len() <= u32::MAX
    } by {
        assert(sizes[i] == ls[i].size_in);
        if i < ls.len() - 1 {
            assert(ls[i].size_out == ls[i + 1].size_in);
            assert(sizes[i + 1] == ls[i + 1].size_in);
        } else {
            assert(sizes[i + 1] == ls.last().biases.len() as u32);
        }
    }
}

/// Reading back the file written for a network gives the same network, for
/// every network that fits the file format.
pub proof fn lemma_nn_bytes_roundtrip(ls: Seq<LayerView>)
    requires
        fits_file_format(ls),
    ensures
        parse_nn(nn_to_bytes(ls)) == Some(ls),
{
    reveal(parse_nn);
    let n = ls.len() as u32;
    let sizes = all_layers_sizes(ls);
    let ids = ls.map_values(|l: LayerView| l.activation_fn.spec_to_hash());
    let ab = u64s_le_bytes(ids);
    let lb = layers_bytes(ls);
    let b = nn_to_bytes(ls);
    lemma_nn_bytes_header(ls);
    let b1 = b.skip(20);
    lemma_u32s_at_le_bytes(sizes, ab + lb);
    let b2 = b1.skip(4 * (n + 1));
    assert(b2 =~= ab + lb);
    lemma_u64s_at_le_bytes(ids, lb);
    assert(b2.skip(8 * n) =~= lb);
    lemma_activation_ids(ls);
    lemma_sizes_describe_layers(ls);
    lemma_parse_layers_roundtrip(ls, sizes);
}

proof fn lemma_u32_from_le_roundtrip(b: Seq<u8>, i: int)
    requires
        0 <= i,
        i + 4 <= b.len(),
    ensures
        u32_le_bytes(u32_at(b, i)) =~= b.subrange(i, i + 4),
{
    let (b0, b1, b2, b3) = (b[i], b[i + 1], b[i + 2], b[i + 3]);
    let x = u32_from_le(b0, b1, b2, b3);
    assert((x & 0xff) as u8 == b0 && ((x >> 8u32) & 0xff) as u8 == b1
        && ((x >> 16u32) & 0xff) as u8 == b2 && ((x >> 24u32) & 0xff) as u8 == b3) by (bit_vector)
        requires x == u32_from_le(b0, b1, b2, b3);
}

proof fn lemma_u64_from_le_roundtrip(b: Seq<u8>, i: int)
    requires
        0 <= i,
        i + 8 <= b.len(),
    ensures
        u64_le_bytes(u64_at(b, i)) =~= b.subrange(i, i + 8),
{
    let (b0, b1, b2, b3, b4, b5, b6, b7) = (b[i], b[i + 1], b[i + 2], b[i + 3], b[i + 4], b[i + 5], b[i + 6], b[i + 7]);
    let x = from_le_bytes(b0, b1, b2, b3, b4, b5, b6, b7);
    assert(byte_of(x, 0) == b0 && byte_of(x, 1) == b1 && byte_of(x, 2) == b2 && byte_of(x, 3) == b3
        && byte_of(x, 4) == b4 && byte_of(x, 5) == b5 && byte_of(x, 6) == b6 && byte_of(x, 7) == b7) by (bit_vector)
        requires x == from_le_bytes(b0, b1, b2, b3, b4, b5, b6, b7);
}

proof fn lemma_u32s_at_roundtrip(b: Seq<u8>, n: nat)
    requires
        4 * n <= b.len(),
    ensures
        u32s_le_bytes(u32s_at(b, n)) =~= b.subrange(0, 4 * n as int),
{
    let s = u32s_at(b, n);
    assert forall|j: int| 0 <= j < 4 * n implies #[trigger] u32s_le_bytes(s)[j] == b[j] by {
        let q = j / 4;
        let r = j % 4;
        assert(j == 4 * q + r && 0 <= r < 4 && 0 <= q < n);
        lemma_u32_from_le_roundtrip(b, 4 * q);
        assert(u32_le_bytes(s[q])[r] == b.subrange(4 * q, 4 * q + 4)[r]);
    }
}

proof fn lemma_u64s_at_roundtrip(b: Seq<u8>, n: nat)
    requires
        8 * n <= b.len(),
    ensures
        u64s_le_bytes(u64s_at(b, n)) =~= b.subrange(0, 8 * n as int),
{
    let s = u64s_at(b, n);
    assert forall|j: int| 0 <= j < 8 * n implies #[trigger] u64s_le_bytes(s)[j] == b[j] by {
        let q = j / 8;
        let r = j % 8;
        assert(j == 8 * q + r && 0 <= r < 8 && 0 <= q < n);
        lemma_u64_from_le_roundtrip(b, 8 * q);
        assert(u64_le_bytes(s[q])[r] == b.subrange(8 * q, 8 * q + 8)[r]);
    }
}

proof fn lemma_parse_layers_step_inverse(b: Seq<u8>, sizes: Seq<u32>, afs: Seq<ActivationFn>)
    requires
        sizes.len() == afs.len() + 1,
        afs.len() > 0,
        parse_layers(b, sizes, afs) is Some,
    ensures
        ({
            let ls = parse_layers(b, sizes, afs)->Some_0;
            let nb = u32_at(b, 0);
            let nw = u32_at(b.skip(4).skip(4 * nb), 0);
            let rb = b.skip(4).skip(4 * nb).skip(4).skip(4 * nw);
            &&& parse_layers(rb, sizes.drop_first(), afs.drop_first()) is Some
            &&& ls == seq![ls[0]] + parse_layers(rb, sizes.drop_first(), afs.drop_first())->Some_0
            &&& ls[0].size_in == sizes[0]
            &&& ls[0].size_out == sizes[1]
            &&& ls[0].activation_fn == afs[0]
            &&& ls[0].wf()
            &&& 4 * ls[0].biases.len() <= u32::MAX
            &&& 4 * ls[0].weights.len() <= u32::MAX
            &&& layer_bytes(ls[0]) + rb =~= b
        }),
{
    let ls = parse_layers(b, sizes, afs)->Some_0;
    let nb = u32_at(b, 0);
    let b1 = b.skip(4);
    let b2 = b1.skip(4 * nb);
    let nw = u32_at(b2, 0);
    let b3 = b2.skip(4);
    let rb = b3.skip(4 * nw);
    let l = ls[0];
    assert(l.biases == u32s_at(b1, nb as nat));
    assert(l.weights == u32s_at(b3, nw as nat));
    lemma_u32_from_le_roundtrip(b, 0);
    lemma_u32_from_le_roundtrip(b2, 0);
    lemma_u32s_at_roundtrip(b1, nb as nat);
    lemma_u32s_at_roundtrip(b3, nw as nat);
    assert(l.biases.len() as u32 == nb);
    assert(l.weights.len() as u32 == nw);
    assert(layer_bytes(l) + rb =~= b);
}

proof fn lemma_parse_layers_inverse(b: Seq<u8>, sizes: Seq<u32>, afs: Seq<ActivationFn>)
    requires
        sizes.len() == afs.len() + 1,
        parse_layers(b, sizes, afs) is Some,
    ensures
        ({
            let ls = parse_layers(b, sizes, afs)->Some_0;
            &&& ls.len() == afs.len()
            &&& forall|i: int| 0 <= i < ls.len() ==> {
                &&& (#[trigger] ls[i]).size_in == sizes[i]
                &&& ls[i].size_out == sizes[i + 1]
                &&& ls[i].activation_fn == afs[i]
                &&& ls[i].wf()
                &&& 4 * ls[i].biases.len() <= u32::MAX
                &&& 4 * ls[i].weights.len() <= u32::MAX
            }
            &&& layers_bytes(ls) =~= b
        }),
    decreases afs.len(),
{
    let ls = parse_layers(b, sizes, afs)->Some_0;
    if afs.len() == 0 {
        assert(layers_bytes(ls) =~= Seq::<u8>::empty());
    } else {
        lemma_parse_layers_step_inverse(b, sizes, afs);
        let nb = u32_at(b, 0);
        let nw = u32_at(b.skip(4).skip(4 * nb), 0);
        let rb = b.skip(4).skip(4 * nb).skip(4).skip(4 * nw);
        lemma_parse_layers_inverse(rb, sizes.drop_first(), afs.drop_first());
        let rest = parse_layers(rb, sizes.drop_first(), afs.drop_first())->Some_0;
        assert(ls.drop_first() =~= rest);
        assert forall|i: int| 0 <= i < ls.len() implies {
            &&& (#[trigger] ls[i]).size_in == sizes[i]
            &&& ls[i].size_out == sizes[i + 1]
            &&& ls[i].activation_fn == afs[i]
            &&& ls[i].wf()
            &&& 4 * ls[i].biases.len() <= u32::MAX
            &&& 4 * ls[i].weights.len() <= u32::MAX
        } by {
            if i > 0 {
                assert(ls[i] == rest[i - 1]);
            }
        }
    }
}

proof fn lemma_written_back_contents(ls: Seq<LayerView>, sizes: Seq<u32>, ids: Seq<u64>)
    requires
        ls.len() >= 1,
        sizes.len() == ls.len() + 1,
        ids.len() == ls.len(),
        ls.last().size_out == ls.last().biases.len(),
        forall|i: int| 0 <= i < ls.len() ==> {
            &&& (#[trigger] ls[i]).size_in == sizes[i]
            &&& ls[i].size_out == sizes[i + 1]
            &&& ls[i].activation_fn == ids.map_values(|h: u64| ActivationFn::spec_from_hash(h)->Some_0)[i]
            &&& 4 * ls[i].biases.len() <= u32::MAX
        },
        forall|i: int| 0 <= i < ids.len() ==> ActivationFn::is_known_hash(#[trigger] ids[i]),
    ensures
        all_layers_sizes(ls) =~= sizes,
        ls.map_values(|l: LayerView| l.activation_fn.spec_to_hash()) =~= ids,
{
    assert forall|i: int| 0 <= i < sizes.len() implies all_layers_sizes(ls)[i] == sizes[i] by {
        if i < ls.len() {
            assert(ls[i].size_in == sizes[i]);
        } else {
            assert(ls[ls.len() - 1].size_out == sizes[ls.len() as int]);
        }
    }
    assert forall|i: int| 0 <= i < ids.len() implies
        ls.map_values(|l: LayerView| l.activation_fn.spec_to_hash())[i] == ids[i] by {
        crate::activation::lemma_from_hash_inverts_to_hash(ids[i]);
        assert(ls[i].activation_fn == ids.map_values(|h: u64| ActivationFn::spec_from_hash(h)->Some_0)[i]);
    }
}

proof fn lemma_parse_nn_parts(b: Seq<u8>)
    requires
        parse_nn(b) is Some,
    ensures
        ({
            let ls = parse_nn(b)->Some_0;
            let n = u32_at(b, 16);
            let b1 = b.skip(20);
            let sizes = u32s_at(b1, (n + 1) as nat);
            let b2 = b1.skip(4 * (n + 1));
            let ids = u64s_at(b2, n as nat);
            let afs = ids.map_values(|h: u64| ActivationFn::spec_from_hash(h)->Some_0);
            let b3 = b2.skip(8 * n);
            &&& b.len() >= 20
            &&& u64_at(b, 0) == NN_FILE_FORMAT_MAGIC
            &&& u64_at(b, 8) == layers_hash(ls)
            &&& 4 * (n + 1) <= b1.len()
            &&& 8 * n <= b2.len()
            &&& forall|i: int| 0 <= i < ids.len() ==> ActivationFn::is_known_hash(#[trigger] ids[i])
            &&& parse_layers(b3, sizes, afs) == Some(ls)
        }),
{
    reveal(parse_nn);
    let ls = parse_nn(b)->Some_0;
    lemma_hash_to_string_injective(u64_at(b, 8), layers_hash(ls));
}

/// A network file is exactly the file written for the network read from it,
/// unless its last layer size differs from the last layer's number of biases
/// (the writer stores the number of biases there).
pub proof fn lemma_nn_file_written_back(b: Seq<u8>)
    requires
        parse_nn(b) is Some,
        parse_nn(b)->Some_0.len() >= 1,
        parse_nn(b)->Some_0.last().size_out == parse_nn(b)->Some_0.last().biases.len(),
    ensures
        nn_to_bytes(parse_nn(b)->Some_0) == b,
{
    let ls = parse_nn(b)->Some_0;
    lemma_parse_nn_parts(b);
    let hash = u64_at(b, 8);
    let n = u32_at(b, 16);
    let b1 = b.skip(20);
    let sizes = u32s_at(b1, (n + 1) as nat);
    let b2 = b1.skip(4 * (n + 1));
    let ids = u64s_at(b2, n as nat);
    let afs = ids.map_values(|h: u64| ActivationFn::spec_from_hash(h)->Some_0);
    let b3 = b2.skip(8 * n);
    lemma_parse_layers_inverse(b3, sizes, afs);
    assert(ls.len() == n);
    lemma_written_back_contents(ls, sizes, ids);
    lemma_nn_bytes_assembled(b, ls);
}

proof fn lemma_split_file(b: Seq<u8>, n: u32)
    requires
        b.len() >= 20,
        4 * (n + 1) <= b.skip(20).len(),
        8 * n <= b.skip(20).skip(4 * (n + 1)).len(),
    ensures
        ({
            let b1 = b.skip(20);
            let b2 = b1.skip(4 * (n + 1));
            b =~= b.subrange(0, 8) + b.subrange(8, 16) + b.subrange(16, 20)
                + b1.subrange(0, 4 * (n + 1)) + b2.subrange(0, 8 * n) + b2.skip(8 * n)
        }),
{
}

proof fn lemma_nn_bytes_assembled(b: Seq<u8>, ls: Seq<LayerView>)
    requires
        b.len() >= 20,
        ls.len() >= 1,
        u64_at(b, 0) == NN_FILE_FORMAT_MAGIC,
        u64_at(b, 8) == layers_hash(ls),
        u32_at(b, 16) == ls.len(),
        4 * (ls.len() + 1) <= b.skip(20).len(),
        8 * ls.len() <= b.skip(20).skip(4 * (ls.len() + 1) as int).len(),
        all_layers_sizes(ls) == u32s_at(b.skip(20), ls.len() + 1),
        ls.map_values(|l: LayerView| l.activation_fn.spec_to_hash())
            == u64s_at(b.skip(20).skip(4 * (ls.len() + 1) as int), ls.len()),
        layers_bytes(ls) == b.skip(20).skip(4 * (ls.len() + 1) as int).skip(8 * ls.len() as int),
    ensures
        nn_to_bytes(ls) == b,
{
    let n = ls.len() as u32;
    let b1 = b.skip(20);
    let b2 = b1.skip(4 * (n + 1));
    lemma_u64_from_le_roundtrip(b, 0);
    lemma_u64_from_le_roundtrip(b, 8);
    lemma_u32_from_le_roundtrip(b, 16);
    lemma_u32s_at_roundtrip(b1, (n + 1) as nat);
    lemma_u64s_at_roundtrip(b2, n as nat);
    lemma_split_file(b, n);
    assert(nn_to_bytes(ls) =~= b);
}

impl NN {
    /// The network's file contents. The network must have a layer, full
    /// weight matrices, take `INPUT_SIZE` inputs, give `OUTPUT_SIZE` outputs,
    /// and its number of layers plus one must be a `u32`.
    pub fn to_bytes(&self) -> (r: Vec<u8>)
        requires
            self.layers@.len() >= 1,
            forall|i: int| 0 <= i < self@.len() ==> (#[trigger] self@[i]).wf(),
            self.layers@[0].size_in == INPUT_SIZE,
            self.layers@.last().biases@.len() as u32 == OUTPUT_SIZE,
            self.layers@.len() as u32 != u32::MAX,
        ensures
            r@ == nn_to_bytes(self@),
    {
        let layers_n: u32 = self.layers.len() as u32;
        let all_layers_sizes = self.get_all_layers_sizes();
        let activation_fns = self.get_activation_fns();
        let mut out: Vec<u8> = Vec::new();
        push_u64(&mut out, NN_FILE_FORMAT_MAGIC);
        push_u64(&mut out, self.calc_hash());
        push_u32(&mut out, layers_n);
        push_u32s(&mut out, all_layers_sizes.as_slice());
        let ghost ids = self@.map_values(|l: LayerView| l.activation_fn.spec_to_hash());
        let ghost base = out@;
        let mut i: usize = 0;
        proof {
            assert(u64s_le_bytes(ids.subrange(0, 0)) =~= Seq::<u8>::empty());
        }
        while i < activation_fns.len()
            invariant
                i <= activation_fns@.len(),
                activation_fns@ == self@.map_values(|l: LayerView| l.activation_fn),
                ids == self@.map_values(|l: LayerView| l.activation_fn.spec_to_hash()),
                out@ == base + u64s_le_bytes(ids.subrange(0, i as int)),
            decreases activation_fns@.len() - i,
        {
            proof {
                assert(ids.subrange(0, i + 1) =~= ids.subrange(0, i as int).push(ids[i as int]));
                lemma_u64s_le_bytes_push(ids.subrange(0, i as int), ids[i as int]);
            }
            push_u64(&mut out, activation_fns[i].to_hash());
            i = i + 1;
        }
        proof {
            assert(ids.subrange(0, ids.len() as int) =~= ids);
        }
        let ghost base2 = out@;
        let mut k: usize = 0;
        proof {
            assert(self@.subrange(0, 0) =~= Seq::<LayerView>::empty());
        }
        while k < self.layers.len()
            invariant
                k <= self.layers@.len(),
                out@ == base2 + layers_bytes(self@.subrange(0, k as int)),
            decreases self.layers@.len() - k,
        {
            let layer = &self.layers[k];
            proof {
                assert(self@.subrange(0, k + 1) =~= self@.subrange(0, k as int).push(layer@));
                lemma_layers_bytes_push(self@.subrange(0, k as int), layer@);
            }
            push_u32(&mut out, layer.biases.len() as u32);
            push_u32s(&mut out, layer.biases.as_slice());
            push_u32(&mut out, layer.weights.len() as u32);
            push_u32s(&mut out, layer.weights.as_slice());
            proof {
                assert(out@ =~= base2 + layers_bytes(self@.subrange(0, k + 1)));
            }
            k = k + 1;
        }
        proof {
            assert(self@.subrange(0, self@.len() as int) =~= self@);
            assert(out@ =~= nn_to_bytes(self@));
        }
        out
    }

    /// The network stored in `bytes`, or `None` when `bytes` is not a network
    /// file (see `parse_nn`).
    pub fn try_from_bytes(bytes: &[u8]) -> (r: Option<NN>)
        ensures
            match r {
                Some(nn) => parse_nn(bytes@) == Some(nn@),
                None => parse_nn(bytes@) is None,
            },
    {
        proof { reveal(parse_nn); }
        let len = bytes.len();
        if len < 20 {
            return None;
        }
        if read_u64(bytes, 0) != NN_FILE_FORMAT_MAGIC {
            return None;
        }
        let hash = read_u64(bytes, 8);
        let n = read_u32(bytes, 16);
        let ghost b = bytes@;
        let ghost b1 = b.skip(20);
        let n1: u64 = n as u64 + 1;
        if 4 * n1 > u32::MAX as u64 || 4 * n1 > (len - 20) as u64 {
            return None;
        }
        let sizes = read_u32s(bytes, 20, n1 as usize);
        let pos = 20 + 4 * (n1 as usize);
        proof {
            assert(b1.skip(4 * (n + 1)) =~= b.skip(pos as int));
        }
        if 8 * (n as u64) > u32::MAX as u64 || 8 * (n as u64) > (len - pos) as u64 {
            return None;
        }
        let ids = read_u64s(bytes, pos, n as usize);
        let ghost ids_s = u64s_at(b.skip(pos as int), n as nat);
        let mut afs: Vec<ActivationFn> = Vec::new();
        let mut i: usize = 0;
        proof {
            assert(u64s_at(b.skip(20).skip(4 * (n + 1)), n as nat) == ids_s);
        }
        #[verifier::loop_isolation(false)]
        while i < ids.len()
            invariant
                i <= ids@.len(),
                ids@ == ids_s,
                afs@.len() == i,
                forall|j: int| 0 <= j < i ==> ActivationFn::is_known_hash(#[trigger] ids_s[j]),
                forall|j: int| 0 <= j < i ==> Some(#[trigger] afs@[j]) == ActivationFn::spec_from_hash(ids_s[j]),
            decreases ids@.len() - i,
        {
            match ActivationFn::try_from_hash(ids[i]) {
                Some(a) => afs.push(a),
                None => {
                    proof {
                        assert(!ActivationFn::is_known_hash(ids_s[i as int]));
                        assert(!(forall|j: int| 0 <= j < ids_s.len() ==> ActivationFn::is_known_hash(#[trigger] ids_s[j])));
                    }
                    return None;
                },
            }
            i = i + 1;
        }
        proof {
            assert(afs@ =~= ids_s.map_values(|h: u64| ActivationFn::spec_from_hash(h)->Some_0));
        }
        let pos2 = pos + 8 * (n as usize);
        proof {
            assert(b.skip(pos as int).skip(8 * n) =~= b.skip(pos2 as int));
        }
        let layers = match parse_layers_exec(bytes, pos2, &sizes, &afs) {
            Some(layers) => layers,
            None => {
                return None;
            },
        };
        let nn = NN { layers };
        let calculated = nn.calc_hash();
        proof {
            lemma_hash_to_string_injective(hash, calculated);
        }
        if calculated != hash {
            return None;
        }
        Some(nn)
    }

    /// The network stored in `bytes`, which must be a network file.
    pub fn from_bytes(bytes: &[u8]) -> (r: NN)
        requires
            parse_nn(bytes@) is Some,
        ensures
            parse_nn(bytes@) == Some(r@),
    {
        match Self::try_from_bytes(bytes) {
            Some(nn) => nn,
            None => NN { layers: Vec::new() },
        }
    }

}

} // verus!

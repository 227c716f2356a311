//! The project's own 64-bit hash (used to fingerprint networks and weight
//! mixes) and its fixed-width lowercase hexadecimal rendering.

use vstd::prelude::*;

verus! {

/// The number of set bits of `x`.
pub open spec fn count_ones(x: u64) -> nat
    decreases x,
{
    if x == 0 {
        0
    } else {
        (x % 2) as nat + count_ones(x / 2)
    }
}

/// The number `x` read from its `n` lowest bits, least significant first,
/// appended below `acc`: with `acc == 0` and `n == 64` this mirrors the bits.
pub open spec fn reversed_bits(x: nat, n: nat, acc: nat) -> nat
    decreases n,
{
    if n == 0 {
        acc
    } else {
        reversed_bits(x / 2, (n - 1) as nat, acc * 2 + x % 2)
    }
}

/// The bits of `x` in the opposite order.
pub open spec fn reverse_bits(x: u64) -> u64 {
    reversed_bits(x as nat, 64, 0) as u64
}

/// The `k`-th byte of `x`, least significant first.
pub open spec fn byte_of(x: u64, k: u64) -> u8 {
    ((x >> (8 * k)) & 0xff) as u8
}

/// The 64-bit number whose little-endian bytes are `b0` .. `b7`.
pub open spec fn from_le_bytes(b0: u8, b1: u8, b2: u8, b3: u8, b4: u8, b5: u8, b6: u8, b7: u8) -> u64 {
    (b0 as u64) | ((b1 as u64) << 8u64) | ((b2 as u64) << 16u64) | ((b3 as u64) << 24u64)
        | ((b4 as u64) << 32u64) | ((b5 as u64) << 40u64) | ((b6 as u64) << 48u64)
        | ((b7 as u64) << 56u64)
}

/// One step of hashing a 32-bit word (a float's bit pattern) into `hash`:
/// the word is xored in (shifted to the high half when `hash` has an odd number
/// of set bits), then the result is scrambled in one of eleven ways chosen by
/// its remainder modulo 11.
pub open spec fn mix_word(hash: u64, word: u32) -> u64 {
    let bits = word as u64;
    let h = hash ^ (if count_ones(hash) % 2 == 0 { bits } else { bits << 32u64 });
    let b0 = byte_of(h, 0);
    let b1 = byte_of(h, 1);
    let b2 = byte_of(h, 2);
    let b3 = byte_of(h, 3);
    let b4 = byte_of(h, 4);
    let b5 = byte_of(h, 5);
    let b6 = byte_of(h, 6);
    let b7 = byte_of(h, 7);
    let r = h % 11;
    if r == 0 {
        !h
    } else if r == 1 {
        reverse_bits(h)
    } else if r == 2 {
        (h << 1u64) | (h >> 63u64)
    } else if r == 3 {
        from_le_bytes(b7, b6, b5, b4, b3, b2, b1, b0)
    } else if r == 4 {
        from_le_bytes(b1, b2, b3, b4, b5, b6, b7, b0)
    } else if r == 5 {
        from_le_bytes(b0, b2, b4, b6, b1, b3, b5, b7)
    } else if r == 6 {
        from_le_bytes(b0, b3, b6, b1, b4, b7, b2, b5)
    } else if r == 7 {
        from_le_bytes(b0, b4, b1, b5, b2, b6, b3, b7)
    } else if r == 8 {
        from_le_bytes(!b0, b1, !b2, b3, !b4, b5, !b6, b7)
    } else if r == 9 {
        from_le_bytes(!b0, b1, b2, !b3, b4, b5, !b6, b7)
    } else {
        from_le_bytes(!b0, b1, b2, b3, !b4, b5, b6, b7)
    }
}

/// `hash` after mixing in every word of `words`, first to last.
pub open spec fn mix_words(hash: u64, words: Seq<u32>) -> u64
    decreases words.len(),
{
    if words.len() == 0 {
        hash
    } else {
        mix_words(mix_word(hash, words[0]), words.drop_first())
    }
}

/// The value of hashing the slice `words` into a hasher holding `hash`: its
/// length is xored in first, then each word is mixed in.
pub open spec fn hash_words(hash: u64, words: Seq<u32>) -> u64 {
    mix_words(hash ^ (words.len() as u64), words)
}

fn count_ones_is_even(x: u64) -> (r: bool)
    ensures
        r == (count_ones(x) % 2 == 0),
{
    let mut y = x;
    let mut parity: u64 = 0;
    while y != 0
        invariant
            parity < 2,
            (parity + count_ones(y)) % 2 == count_ones(x) % 2,
        decreases y,
    {
        parity = (parity + y % 2) % 2;
        y = y / 2;
    }
    parity == 0
}

fn reverse_bits_exec(x: u64) -> (r: u64)
    ensures
        r == reverse_bits(x),
{
    let mut y = x;
    let mut acc: u64 = 0;
    let mut i: u64 = 0;
    let ghost mut p: nat = 1;
    proof { vstd::arithmetic::power2::lemma2_to64(); }
    while i < 64
        invariant
            i <= 64,
            reversed_bits(y as nat, (64 - i) as nat, acc as nat) == reversed_bits(x as nat, 64, 0),
            p == vstd::arithmetic::power2::pow2(i as nat),
            acc < p,
        decreases 64 - i,
    {
        proof {
            vstd::arithmetic::power2::lemma_pow2_unfold((i + 1) as nat);
            vstd::arithmetic::power2::lemma2_to64();
            if i + 1 < 64 {
                vstd::arithmetic::power2::lemma_pow2_strictly_increases((i + 1) as nat, 64);
            }
        }
        acc = acc * 2 + y % 2;
        y = y / 2;
        i = i + 1;
        proof { p = p * 2; }
    }
    acc
}

/// A hasher over 64-bit words and over slices of 32-bit words.
pub struct MyHash {
    pub value: u64,
}

impl MyHash {
    /// A hasher whose state is the seed.
    pub fn from_seed(seed: u64) -> (r: Self)
        ensures
            r.value == seed,
    {
        MyHash { value: seed }
    }

    /// The hash accumulated so far.
    pub fn finish(self) -> (r: u64)
        ensures
            r == self.value,
    {
        self.value
    }
}

/// Hashing a value of type `T` into the hasher.
pub trait MyHash_<T> {
    fn hash(&mut self, obj: T);
}

impl MyHash_<u64> for MyHash {
    /// Xors `obj` into the state.
    fn hash(&mut self, obj: u64)
        ensures
            final(self).value == old(self).value ^ obj,
    {
        self.value = self.value ^ obj;
    }
}

impl<'a> MyHash_<&'a [u32]> for MyHash {
    /// Hashes the slice of 32-bit words (bit patterns of `f32` values).
    fn hash(&mut self, obj: &'a [u32])
        ensures
            final(self).value == hash_words(old(self).value, obj@),
    {
        let mut hash: u64 = self.value;
        hash = hash ^ (obj.len() as u64);
        let ghost start = hash;
        let mut i: usize = 0;
        proof {
            assert(obj@.subrange(0, obj@.len() as int) =~= obj@);
        }
        while i < obj.len()
            invariant
                i <= obj@.len(),
                start == old(self).value ^ (obj@.len() as u64),
                mix_words(hash, obj@.subrange(i as int, obj@.len() as int)) == mix_words(start, obj@),
            decreases obj@.len() - i,
        {
            proof {
                assert(obj@.subrange(i as int, obj@.len() as int).drop_first()
                    =~= obj@.subrange(i + 1, obj@.len() as int));
            }
            hash = mix_word_exec(hash, obj[i]);
            i = i + 1;
        }
        proof {
            assert(obj@.subrange(0, obj@.len() as int) =~= obj@);
        }
        self.value = hash;
    }
}

fn byte_of_exec(x: u64, k: u64) -> (r: u8)
    requires
        k < 8,
    ensures
        r == byte_of(x, k),
{
    ((x >> (8 * k)) & 0xff) as u8
}

fn from_le_bytes_exec(b0: u8, b1: u8, b2: u8, b3: u8, b4: u8, b5: u8, b6: u8, b7: u8) -> (r: u64)
    ensures
        r == from_le_bytes(b0, b1, b2, b3, b4, b5, b6, b7),
{
    (b0 as u64) | ((b1 as u64) << 8u64) | ((b2 as u64) << 16u64) | ((b3 as u64) << 24u64)
        | ((b4 as u64) << 32u64) | ((b5 as u64) << 40u64) | ((b6 as u64) << 48u64)
        | ((b7 as u64) << 56u64)
}

fn mix_word_exec(hash: u64, word: u32) -> (r: u64)
    ensures
        r == mix_word(hash, word),
{
    let bits = word as u64;
    let h = hash ^ (if count_ones_is_even(hash) { bits } else { bits << 32u64 });
    let b0 = byte_of_exec(h, 0);
    let b1 = byte_of_exec(h, 1);
    let b2 = byte_of_exec(h, 2);
    let b3 = byte_of_exec(h, 3);
    let b4 = byte_of_exec(h, 4);
    let b5 = byte_of_exec(h, 5);
    let b6 = byte_of_exec(h, 6);
    let b7 = byte_of_exec(h, 7);
    let r = h % 11;
    if r == 0 {
        !h
    } else if r == 1 {
        reverse_bits_exec(h)
    } else if r == 2 {
        (h << 1u64) | (h >> 63u64)
    } else if r == 3 {
        from_le_bytes_exec(b7, b6, b5, b4, b3, b2, b1, b0)
    } else if r == 4 {
        from_le_bytes_exec(b1, b2, b3, b4, b5, b6, b7, b0)
    } else if r == 5 {
        from_le_bytes_exec(b0, b2, b4, b6, b1, b3, b5, b7)
    } else if r == 6 {
        from_le_bytes_exec(b0, b3, b6, b1, b4, b7, b2, b5)
    } else if r == 7 {
        from_le_bytes_exec(b0, b4, b1, b5, b2, b6, b3, b7)
    } else if r == 8 {
        from_le_bytes_exec(!b0, b1, !b2, b3, !b4, b5, !b6, b7)
    } else if r == 9 {
        from_le_bytes_exec(!b0, b1, b2, !b3, b4, b5, !b6, b7)
    } else {
        from_le_bytes_exec(!b0, b1, b2, b3, !b4, b5, b6, b7)
    }
}

/// The lowercase hexadecimal digit of `d` (for `d < 16`).
pub open spec fn hex_char(d: nat) -> char {
    if d < 10 {
        (d + 48) as char
    } else {
        (d + 87) as char
    }
}

/// The `n` lowest hexadecimal digits of `x`, most significant first.
pub open spec fn hex_digits(x: nat, n: nat) -> Seq<char>
    decreases n,
{
    if n == 0 {
        Seq::empty()
    } else {
        hex_digits(x / 16, (n - 1) as nat).push(hex_char(x % 16))
    }
}

/// The text of a hash: sixteen lowercase hexadecimal digits, zero-padded.
pub open spec fn spec_hash_to_string(hash: u64) -> Seq<char> {
    hex_digits(hash as nat, 16)
}

fn hex_digit_str(d: u64) -> (r: &'static str)
    requires
        d < 16,
    ensures
        r@ == seq![hex_char(d as nat)],
{
    match d {
        0 => { proof { reveal_strlit("0"); } "0" },
        1 => { proof { reveal_strlit("1"); } "1" },
        2 => { proof { reveal_strlit("2"); } "2" },
        3 => { proof { reveal_strlit("3"); } "3" },
        4 => { proof { reveal_strlit("4"); } "4" },
        5 => { proof { reveal_strlit("5"); } "5" },
        6 => { proof { reveal_strlit("6"); } "6" },
        7 => { proof { reveal_strlit("7"); } "7" },
        8 => { proof { reveal_strlit("8"); } "8" },
        9 => { proof { reveal_strlit("9"); } "9" },
        10 => { proof { reveal_strlit("a"); } "a" },
        11 => { proof { reveal_strlit("b"); } "b" },
        12 => { proof { reveal_strlit("c"); } "c" },
        13 => { proof { reveal_strlit("d"); } "d" },
        14 => { proof { reveal_strlit("e"); } "e" },
        _ => { proof { reveal_strlit("f"); } "f" },
    }
}

fn hex_digits_exec(x: u64, n: usize) -> (r: String)
    ensures
        r@ == hex_digits(x as nat, n as nat),
    decreases n,
{
    if n == 0 {
        String::new()
    } else {
        let mut s = hex_digits_exec(x / 16, n - 1);
        s.append(hex_digit_str(x % 16));
        s
    }
}

/// Renders a hash as sixteen lowercase hexadecimal digits, zero-padded.
pub fn hash_to_string(hash: u64) -> (r: String)
    ensures
        r@ == spec_hash_to_string(hash),
        r@.len() == 16,
{
    proof { lemma_hex_digits_len(hash as nat, 16); }
    hex_digits_exec(hash, 16)
}

/// `hex_digits` yields exactly `n` characters.
pub proof fn lemma_hex_digits_len(x: nat, n: nat)
    ensures
        hex_digits(x, n).len() == n,
    decreases n,
{
    if n > 0 {
        lemma_hex_digits_len(x / 16, (n - 1) as nat);
    }
}

/// Sixteen to the power `n`.
pub open spec fn pow16(n: nat) -> nat
    decreases n,
{
    if n == 0 {
        1
    } else {
        16 * pow16((n - 1) as nat)
    }
}

proof fn lemma_hex_digits_injective(x: nat, y: nat, n: nat, p: nat)
    requires
        p == pow16(n),
        x < p,
        y < p,
        hex_digits(x, n) == hex_digits(y, n),
    ensures
        x == y,
    decreases n,
{
    if n == 0 {
    } else {
        let q = pow16((n - 1) as nat);
        assert(x / 16 < q && y / 16 < q) by (nonlinear_arith)
            requires x < 16 * q, y < 16 * q, q >= 0;
        lemma_hex_digits_len(x / 16, (n - 1) as nat);
        lemma_hex_digits_len(y / 16, (n - 1) as nat);
        let sx = hex_digits(x, n);
        let sy = hex_digits(y, n);
        assert(sx.drop_last() =~= hex_digits(x / 16, (n - 1) as nat));
        assert(sy.drop_last() =~= hex_digits(y / 16, (n - 1) as nat));
        lemma_hex_digits_injective(x / 16, y / 16, (n - 1) as nat, q as nat);
        assert(sx.last() == hex_char(x % 16));
        assert(sy.last() == hex_char(y % 16));
        assert(x % 16 == y % 16);
    }
}

/// Distinct hashes are rendered as distinct texts.
pub proof fn lemma_hash_to_string_injective(a: u64, b: u64)
    ensures
        spec_hash_to_string(a) == spec_hash_to_string(b) ==> a == b,
{
    if spec_hash_to_string(a) == spec_hash_to_string(b) {
        assert(pow16(16) == 0x1_0000_0000_0000_0000) by {
            reveal_with_fuel(pow16, 17);
        }
        lemma_hex_digits_injective(a as nat, b as nat, 16, pow16(16));
    }
}


/// Whether `c` is a lowercase hexadecimal digit: `0` to `9` or `a` to `f`.
pub open spec fn is_lower_hex_digit(c: char) -> bool {
    ('0' <= c && c <= '9') || ('a' <= c && c <= 'f')
}

/// The value of a lowercase hexadecimal digit.
pub open spec fn hex_digit_value(c: char) -> int {
    if '0' <= c && c <= '9' {
        c as int - '0' as int
    } else {
        c as int - 'a' as int + 10
    }
}

/// The number that the text `s` of hexadecimal digits denotes, most
/// significant digit first.
pub open spec fn parse_hex(s: Seq<char>) -> int
    decreases s.len(),
{
    if s.len() == 0 {
        0
    } else {
        parse_hex(s.drop_last()) * 16 + hex_digit_value(s.last())
    }
}

proof fn lemma_hex_digits_parse(x: nat, n: nat)
    ensures
        hex_digits(x, n).len() == n,
        forall|i: int| 0 <= i < n ==> is_lower_hex_digit(#[trigger] hex_digits(x, n)[i]),
        parse_hex(hex_digits(x, n)) == x % pow16(n),
    decreases n,
{
    if n == 0 {
    } else {
        let m = (n - 1) as nat;
        lemma_hex_digits_parse(x / 16, m);
        let s = hex_digits(x, n);
        assert(s.drop_last() =~= hex_digits(x / 16, m));
        let d = x % 16;
        let c = hex_char(d);
        assert(d < 16);
        if d < 10 {
            assert(c as int == d + 48);
        } else {
            assert(c as int == d + 87);
        }
        assert(is_lower_hex_digit(c) && hex_digit_value(c) == d);
        assert forall|i: int| 0 <= i < n implies is_lower_hex_digit(#[trigger] s[i]) by {
            if i < m {
                assert(s[i] == hex_digits(x / 16, m)[i]);
            }
        }
        let q = pow16(m);
        assert(q > 0) by {
            lemma_pow16_positive(m);
        }
        vstd::arithmetic::div_mod::lemma_mod_breakdown(x as int, 16, q as int);
        assert(parse_hex(s) == ((x / 16) % q) * 16 + d);
    }
}

proof fn lemma_pow16_positive(n: nat)
    ensures
        pow16(n) > 0,
    decreases n,
{
    if n > 0 {
        lemma_pow16_positive((n - 1) as nat);
    }
}

/// The text of a hash is sixteen lowercase hexadecimal digits which, read in
/// base sixteen, give back the hash.
pub proof fn lemma_hash_to_string_is_hex(hash: u64)
    ensures
        spec_hash_to_string(hash).len() == 16,
        forall|i: int| 0 <= i < 16 ==> is_lower_hex_digit(#[trigger] spec_hash_to_string(hash)[i]),
        parse_hex(spec_hash_to_string(hash)) == hash,
{
    lemma_hex_digits_parse(hash as nat, 16);
    assert(pow16(16) == 0x1_0000_0000_0000_0000) by {
        reveal_with_fuel(pow16, 17);
    }
    vstd::arithmetic::div_mod::lemma_small_mod(hash as nat, pow16(16));
}


/// The word mixed into `hash` before scrambling: the word's bits, shifted to
/// the high half when `hash` has an odd number of set bits, xored in.
pub open spec fn xored_state(hash: u64, word: u32) -> u64 {
    hash ^ (if count_ones(hash) % 2 == 0 { word as u64 } else { (word as u64) << 32u64 })
}

/// What each of the eleven scrambles does to the xored state `h`, stated
/// byte by byte or as a mask: remainder 0 complements every bit, 2 rotates the
/// bits left by one, 3 to 7 move byte `p(k)` of `h` to byte `k` (reversal,
/// rotation by a byte, and the braids of two, three and four), and 8, 9 and 10
/// complement bytes 0, 2, 4, 6, then bytes 0, 3, 6, then bytes 0 and 4.
pub proof fn lemma_mix_word_scrambles(hash: u64, word: u32)
    ensures
        ({
            let h = xored_state(hash, word);
            let m = mix_word(hash, word);
            &&& h % 11 == 0 ==> m == h ^ 0xffff_ffff_ffff_ffffu64
            &&& h % 11 == 2 ==> m as int == (2 * (h as int)) % 0x1_0000_0000_0000_0000 + (h as int) / 0x8000_0000_0000_0000
            &&& h % 11 == 3 ==> (((m >> 0u64) & 0xff) == ((h >> 56u64) & 0xff) && ((m >> 8u64) & 0xff) == ((h >> 48u64) & 0xff) && ((m >> 16u64) & 0xff) == ((h >> 40u64) & 0xff) && ((m >> 24u64) & 0xff) == ((h >> 32u64) & 0xff) && ((m >> 32u64) & 0xff) == ((h >> 24u64) & 0xff) && ((m >> 40u64) & 0xff) == ((h >> 16u64) & 0xff) && ((m >> 48u64) & 0xff) == ((h >> 8u64) & 0xff) && ((m >> 56u64) & 0xff) == ((h >> 0u64) & 0xff))
            &&& h % 11 == 4 ==> (((m >> 0u64) & 0xff) == ((h >> 8u64) & 0xff) && ((m >> 8u64) & 0xff) == ((h >> 16u64) & 0xff) && ((m >> 16u64) & 0xff) == ((h >> 24u64) & 0xff) && ((m >> 24u64) & 0xff) == ((h >> 32u64) & 0xff) && ((m >> 32u64) & 0xff) == ((h >> 40u64) & 0xff) && ((m >> 40u64) & 0xff) == ((h >> 48u64) & 0xff) && ((m >> 48u64) & 0xff) == ((h >> 56u64) & 0xff) && ((m >> 56u64) & 0xff) == ((h >> 0u64) & 0xff))
            &&& h % 11 == 5 ==> (((m >> 0u64) & 0xff) == ((h >> 0u64) & 0xff) && ((m >> 8u64) & 0xff) == ((h >> 16u64) & 0xff) && ((m >> 16u64) & 0xff) == ((h >> 32u64) & 0xff) && ((m >> 24u64) & 0xff) == ((h >> 48u64) & 0xff) && ((m >> 32u64) & 0xff) == ((h >> 8u64) & 0xff) && ((m >> 40u64) & 0xff) == ((h >> 24u64) & 0xff) && ((m >> 48u64) & 0xff) == ((h >> 40u64) & 0xff) && ((m >> 56u64) & 0xff) == ((h >> 56u64) & 0xff))
            &&& h % 11 == 6 ==> (((m >> 0u64) & 0xff) == ((h >> 0u64) & 0xff) && ((m >> 8u64) & 0xff) == ((h >> 24u64) & 0xff) && ((m >> 16u64) & 0xff) == ((h >> 48u64) & 0xff) && ((m >> 24u64) & 0xff) == ((h >> 8u64) & 0xff) && ((m >> 32u64) & 0xff) == ((h >> 32u64) & 0xff) && ((m >> 40u64) & 0xff) == ((h >> 56u64) & 0xff) && ((m >> 48u64) & 0xff) == ((h >> 16u64) & 0xff) && ((m >> 56u64) & 0xff) == ((h >> 40u64) & 0xff))
            &&& h % 11 == 7 ==> (((m >> 0u64) & 0xff) == ((h >> 0u64) & 0xff) && ((m >> 8u64) & 0xff) == ((h >> 32u64) & 0xff) && ((m >> 16u64) & 0xff) == ((h >> 8u64) & 0xff) && ((m >> 24u64) & 0xff) == ((h >> 40u64) & 0xff) && ((m >> 32u64) & 0xff) == ((h >> 16u64) & 0xff) && ((m >> 40u64) & 0xff) == ((h >> 48u64) & 0xff) && ((m >> 48u64) & 0xff) == ((h >> 24u64) & 0xff) && ((m >> 56u64) & 0xff) == ((h >> 56u64) & 0xff))
            &&& h % 11 == 8 ==> m == h ^ 0x00ff_00ff_00ff_00ffu64
            &&& h % 11 == 9 ==> m == h ^ 0x00ff_0000_ff00_00ffu64
            &&& h % 11 == 10 ==> m == h ^ 0x0000_00ff_0000_00ffu64
        }),
{
    let h = xored_state(hash, word);
    assert(!h == h ^ 0xffff_ffff_ffff_ffffu64) by (bit_vector);
    assert(((h << 1u64) | (h >> 63u64)) as int == (2 * (h as int)) % 0x1_0000_0000_0000_0000 + (h as int) / 0x8000_0000_0000_0000) by (bit_vector);
    assert(((from_le_bytes(byte_of(h, 7), byte_of(h, 6), byte_of(h, 5), byte_of(h, 4), byte_of(h, 3), byte_of(h, 2), byte_of(h, 1), byte_of(h, 0)) >> 0u64) & 0xff) == ((h >> 56u64) & 0xff) && ((from_le_bytes(byte_of(h, 7), byte_of(h, 6), byte_of(h, 5), byte_of(h, 4), byte_of(h, 3), byte_of(h, 2), byte_of(h, 1), byte_of(h, 0)) >> 8u64) & 0xff) == ((h >> 48u64) & 0xff) && ((from_le_bytes(byte_of(h, 7), byte_of(h, 6), byte_of(h, 5), byte_of(h, 4), byte_of(h, 3), byte_of(h, 2), byte_of(h, 1), byte_of(h, 0)) >> 16u64) & 0xff) == ((h >> 40u64) & 0xff) && ((from_le_bytes(byte_of(h, 7), byte_of(h, 6), byte_of(h, 5), byte_of(h, 4), byte_of(h, 3), byte_of(h, 2), byte_of(h, 1), byte_of(h, 0)) >> 24u64) & 0xff) == ((h >> 32u64) & 0xff) && ((from_le_bytes(byte_of(h, 7), byte_of(h, 6), byte_of(h, 5), byte_of(h, 4), byte_of(h, 3), byte_of(h, 2), byte_of(h, 1), byte_of(h, 0)) >> 32u64) & 0xff) == ((h >> 24u64) & 0xff) && ((from_le_bytes(byte_of(h, 7), byte_of(h, 6), byte_of(h, 5), byte_of(h, 4), byte_of(h, 3), byte_of(h, 2), byte_of(h, 1), byte_of(h, 0)) >> 40u64) & 0xff) == ((h >> 16u64) & 0xff) && ((from_le_bytes(byte_of(h, 7), byte_of(h, 6), byte_of(h, 5), byte_of(h, 4), byte_of(h, 3), byte_of(h, 2), byte_of(h, 1), byte_of(h, 0)) >> 48u64) & 0xff) == ((h >> 8u64) & 0xff) && ((from_le_bytes(byte_of(h, 7), byte_of(h, 6), byte_of(h, 5), byte_of(h, 4), byte_of(h, 3), byte_of(h, 2), byte_of(h, 1), byte_of(h, 0)) >> 56u64) & 0xff) == ((h >> 0u64) & 0xff)) by (bit_vector);
    assert(((from_le_bytes(byte_of(h, 1), byte_of(h, 2), byte_of(h, 3), byte_of(h, 4), byte_of(h, 5), byte_of(h, 6), byte_of(h, 7), byte_of(h, 0)) >> 0u64) & 0xff) == ((h >> 8u64) & 0xff) && ((from_le_bytes(byte_of(h, 1), byte_of(h, 2), byte_of(h, 3), byte_of(h, 4), byte_of(h, 5), byte_of(h, 6), byte_of(h, 7), byte_of(h, 0)) >> 8u64) & 0xff) == ((h >> 16u64) & 0xff) && ((from_le_bytes(byte_of(h, 1), byte_of(h, 2), byte_of(h, 3), byte_of(h, 4), byte_of(h, 5), byte_of(h, 6), byte_of(h, 7), byte_of(h, 0)) >> 16u64) & 0xff) == ((h >> 24u64) & 0xff) && ((from_le_bytes(byte_of(h, 1), byte_of(h, 2), byte_of(h, 3), byte_of(h, 4), byte_of(h, 5), byte_of(h, 6), byte_of(h, 7), byte_of(h, 0)) >> 24u64) & 0xff) == ((h >> 32u64) & 0xff) && ((from_le_bytes(byte_of(h, 1), byte_of(h, 2), byte_of(h, 3), byte_of(h, 4), byte_of(h, 5), byte_of(h, 6), byte_of(h, 7), byte_of(h, 0)) >> 32u64) & 0xff) == ((h >> 40u64) & 0xff) && ((from_le_bytes(byte_of(h, 1), byte_of(h, 2), byte_of(h, 3), byte_of(h, 4), byte_of(h, 5), byte_of(h, 6), byte_of(h, 7), byte_of(h, 0)) >> 40u64) & 0xff) == ((h >> 48u64) & 0xff) && ((from_le_bytes(byte_of(h, 1), byte_of(h, 2), byte_of(h, 3), byte_of(h, 4), byte_of(h, 5), byte_of(h, 6), byte_of(h, 7), byte_of(h, 0)) >> 48u64) & 0xff) == ((h >> 56u64) & 0xff) && ((from_le_bytes(byte_of(h, 1), byte_of(h, 2), byte_of(h, 3), byte_of(h, 4), byte_of(h, 5), byte_of(h, 6), byte_of(h, 7), byte_of(h, 0)) >> 56u64) & 0xff) == ((h >> 0u64) & 0xff)) by (bit_vector);
    assert(((from_le_bytes(byte_of(h, 0), byte_of(h, 2), byte_of(h, 4), byte_of(h, 6), byte_of(h, 1), byte_of(h, 3), byte_of(h, 5), byte_of(h, 7)) >> 0u64) & 0xff) == ((h >> 0u64) & 0xff) && ((from_le_bytes(byte_of(h, 0), byte_of(h, 2), byte_of(h, 4), byte_of(h, 6), byte_of(h, 1), byte_of(h, 3), byte_of(h, 5), byte_of(h, 7)) >> 8u64) & 0xff) == ((h >> 16u64) & 0xff) && ((from_le_bytes(byte_of(h, 0), byte_of(h, 2), byte_of(h, 4), byte_of(h, 6), byte_of(h, 1), byte_of(h, 3), byte_of(h, 5), byte_of(h, 7)) >> 16u64) & 0xff) == ((h >> 32u64) & 0xff) && ((from_le_bytes(byte_of(h, 0), byte_of(h, 2), byte_of(h, 4), byte_of(h, 6), byte_of(h, 1), byte_of(h, 3), byte_of(h, 5), byte_of(h, 7)) >> 24u64) & 0xff) == ((h >> 48u64) & 0xff) && ((from_le_bytes(byte_of(h, 0), byte_of(h, 2), byte_of(h, 4), byte_of(h, 6), byte_of(h, 1), byte_of(h, 3), byte_of(h, 5), byte_of(h, 7)) >> 32u64) & 0xff) == ((h >> 8u64) & 0xff) && ((from_le_bytes(byte_of(h, 0), byte_of(h, 2), byte_of(h, 4), byte_of(h, 6), byte_of(h, 1), byte_of(h, 3), byte_of(h, 5), byte_of(h, 7)) >> 40u64) & 0xff) == ((h >> 24u64) & 0xff) && ((from_le_bytes(byte_of(h, 0), byte_of(h, 2), byte_of(h, 4), byte_of(h, 6), byte_of(h, 1), byte_of(h, 3), byte_of(h, 5), byte_of(h, 7)) >> 48u64) & 0xff) == ((h >> 40u64) & 0xff) && ((from_le_bytes(byte_of(h, 0), byte_of(h, 2), byte_of(h, 4), byte_of(h, 6), byte_of(h, 1), byte_of(h, 3), byte_of(h, 5), byte_of(h, 7)) >> 56u64) & 0xff) == ((h >> 56u64) & 0xff)) by (bit_vector);
    assert(((from_le_bytes(byte_of(h, 0), byte_of(h, 3), byte_of(h, 6), byte_of(h, 1), byte_of(h, 4), byte_of(h, 7), byte_of(h, 2), byte_of(h, 5)) >> 0u64) & 0xff) == ((h >> 0u64) & 0xff) && ((from_le_bytes(byte_of(h, 0), byte_of(h, 3), byte_of(h, 6), byte_of(h, 1), byte_of(h, 4), byte_of(h, 7), byte_of(h, 2), byte_of(h, 5)) >> 8u64) & 0xff) == ((h >> 24u64) & 0xff) && ((from_le_bytes(byte_of(h, 0), byte_of(h, 3), byte_of(h, 6), byte_of(h, 1), byte_of(h, 4), byte_of(h, 7), byte_of(h, 2), byte_of(h, 5)) >> 16u64) & 0xff) == ((h >> 48u64) & 0xff) && ((from_le_bytes(byte_of(h, 0), byte_of(h, 3), byte_of(h, 6), byte_of(h, 1), byte_of(h, 4), byte_of(h, 7), byte_of(h, 2), byte_of(h, 5)) >> 24u64) & 0xff) == ((h >> 8u64) & 0xff) && ((from_le_bytes(byte_of(h, 0), byte_of(h, 3), byte_of(h, 6), byte_of(h, 1), byte_of(h, 4), byte_of(h, 7), byte_of(h, 2), byte_of(h, 5)) >> 32u64) & 0xff) == ((h >> 32u64) & 0xff) && ((from_le_bytes(byte_of(h, 0), byte_of(h, 3), byte_of(h, 6), byte_of(h, 1), byte_of(h, 4), byte_of(h, 7), byte_of(h, 2), byte_of(h, 5)) >> 40u64) & 0xff) == ((h >> 56u64) & 0xff) && ((from_le_bytes(byte_of(h, 0), byte_of(h, 3), byte_of(h, 6), byte_of(h, 1), byte_of(h, 4), byte_of(h, 7), byte_of(h, 2), byte_of(h, 5)) >> 48u64) & 0xff) == ((h >> 16u64) & 0xff) && ((from_le_bytes(byte_of(h, 0), byte_of(h, 3), byte_of(h, 6), byte_of(h, 1), byte_of(h, 4), byte_of(h, 7), byte_of(h, 2), byte_of(h, 5)) >> 56u64) & 0xff) == ((h >> 40u64) & 0xff)) by (bit_vector);
    assert(((from_le_bytes(byte_of(h, 0), byte_of(h, 4), byte_of(h, 1), byte_of(h, 5), byte_of(h, 2), byte_of(h, 6), byte_of(h, 3), byte_of(h, 7)) >> 0u64) & 0xff) == ((h >> 0u64) & 0xff) && ((from_le_bytes(byte_of(h, 0), byte_of(h, 4), byte_of(h, 1), byte_of(h, 5), byte_of(h, 2), byte_of(h, 6), byte_of(h, 3), byte_of(h, 7)) >> 8u64) & 0xff) == ((h >> 32u64) & 0xff) && ((from_le_bytes(byte_of(h, 0), byte_of(h, 4), byte_of(h, 1), byte_of(h, 5), byte_of(h, 2), byte_of(h, 6), byte_of(h, 3), byte_of(h, 7)) >> 16u64) & 0xff) == ((h >> 8u64) & 0xff) && ((from_le_bytes(byte_of(h, 0), byte_of(h, 4), byte_of(h, 1), byte_of(h, 5), byte_of(h, 2), byte_of(h, 6), byte_of(h, 3), byte_of(h, 7)) >> 24u64) & 0xff) == ((h >> 40u64) & 0xff) && ((from_le_bytes(byte_of(h, 0), byte_of(h, 4), byte_of(h, 1), byte_of(h, 5), byte_of(h, 2), byte_of(h, 6), byte_of(h, 3), byte_of(h, 7)) >> 32u64) & 0xff) == ((h >> 16u64) & 0xff) && ((from_le_bytes(byte_of(h, 0), byte_of(h, 4), byte_of(h, 1), byte_of(h, 5), byte_of(h, 2), byte_of(h, 6), byte_of(h, 3), byte_of(h, 7)) >> 40u64) & 0xff) == ((h >> 48u64) & 0xff) && ((from_le_bytes(byte_of(h, 0), byte_of(h, 4), byte_of(h, 1), byte_of(h, 5), byte_of(h, 2), byte_of(h, 6), byte_of(h, 3), byte_of(h, 7)) >> 48u64) & 0xff) == ((h >> 24u64) & 0xff) && ((from_le_bytes(byte_of(h, 0), byte_of(h, 4), byte_of(h, 1), byte_of(h, 5), byte_of(h, 2), byte_of(h, 6), byte_of(h, 3), byte_of(h, 7)) >> 56u64) & 0xff) == ((h >> 56u64) & 0xff)) by (bit_vector);
    assert(from_le_bytes(!byte_of(h, 0), byte_of(h, 1), !byte_of(h, 2), byte_of(h, 3), !byte_of(h, 4), byte_of(h, 5), !byte_of(h, 6), byte_of(h, 7)) == h ^ 0x00ff_00ff_00ff_00ffu64) by (bit_vector);
    assert(from_le_bytes(!byte_of(h, 0), byte_of(h, 1), byte_of(h, 2), !byte_of(h, 3), byte_of(h, 4), byte_of(h, 5), !byte_of(h, 6), byte_of(h, 7)) == h ^ 0x00ff_0000_ff00_00ffu64) by (bit_vector);
    assert(from_le_bytes(!byte_of(h, 0), byte_of(h, 1), byte_of(h, 2), byte_of(h, 3), !byte_of(h, 4), byte_of(h, 5), byte_of(h, 6), byte_of(h, 7)) == h ^ 0x0000_00ff_0000_00ffu64) by (bit_vector);
}


proof fn lemma_reversed_bits_bit(x: nat, n: nat, acc: nat, k: nat)
    ensures
        (reversed_bits(x, n, acc) / vstd::arithmetic::power2::pow2(k)) % 2 == if k < n {
            (x / vstd::arithmetic::power2::pow2((n - 1 - k) as nat)) % 2
        } else {
            (acc / vstd::arithmetic::power2::pow2((k - n) as nat)) % 2
        },
    decreases n,
{
    if n == 0 {
        assert(reversed_bits(x, n, acc) == acc);
    } else {
        let m = (n - 1) as nat;
        let acc2 = acc * 2 + x % 2;
        lemma_reversed_bits_bit(x / 2, m, acc2, k);
        if k < m {
            let j = (m - 1 - k) as nat;
            vstd::arithmetic::power2::lemma_pow2_pos(j);
            vstd::arithmetic::power2::lemma_pow2_unfold(j + 1);
            vstd::arithmetic::div_mod::lemma_div_denominator(x as int, 2, vstd::arithmetic::power2::pow2(j) as int);
            assert((n - 1 - k) as nat == j + 1);
            assert(reversed_bits(x, n, acc) == reversed_bits(x / 2, m, acc2));
            assert((x / 2) / vstd::arithmetic::power2::pow2(j) == x / vstd::arithmetic::power2::pow2(j + 1));
            assert((reversed_bits(x, n, acc) / vstd::arithmetic::power2::pow2(k)) % 2 == (x / vstd::arithmetic::power2::pow2(j + 1)) % 2);
        } else if k == m {
            assert(vstd::arithmetic::power2::pow2(0) == 1) by {
                vstd::arithmetic::power2::lemma_pow2(0);
                reveal(vstd::arithmetic::power::pow);
            }
            assert((n - 1 - k) as nat == 0);
            assert((k - m) as nat == 0);
            assert(acc2 / 1 == acc2);
            assert((reversed_bits(x, n, acc) / vstd::arithmetic::power2::pow2(k)) % 2 == acc2 % 2);
            assert(acc2 % 2 == x % 2) by (nonlinear_arith)
                requires acc2 == acc * 2 + x % 2;
            assert(x / vstd::arithmetic::power2::pow2(0) == x);
        } else {
            let j = (k - n) as nat;
            assert((k - m) as nat == j + 1);
            vstd::arithmetic::power2::lemma_pow2_pos(j);
            vstd::arithmetic::power2::lemma_pow2_unfold(j + 1);
            vstd::arithmetic::div_mod::lemma_div_denominator(acc2 as int, 2, vstd::arithmetic::power2::pow2(j) as int);
            assert(acc2 / 2 == acc);
            assert((reversed_bits(x, n, acc) / vstd::arithmetic::power2::pow2(k)) % 2 == (acc2 / vstd::arithmetic::power2::pow2(j + 1)) % 2);
        }
    }
}

proof fn lemma_reversed_bits_bound(x: nat, n: nat, acc: nat)
    ensures
        reversed_bits(x, n, acc) < (acc + 1) * vstd::arithmetic::power2::pow2(n),
    decreases n,
{
    vstd::arithmetic::power2::lemma_pow2_pos(n);
    if n == 0 {
        assert(vstd::arithmetic::power2::pow2(0) == 1) by {
            vstd::arithmetic::power2::lemma_pow2(0);
            reveal(vstd::arithmetic::power::pow);
        }
    } else {
        let m = (n - 1) as nat;
        let acc2 = acc * 2 + x % 2;
        lemma_reversed_bits_bound(x / 2, m, acc2);
        vstd::arithmetic::power2::lemma_pow2_unfold(n);
        let p = vstd::arithmetic::power2::pow2(m);
        assert((acc2 + 1) * p <= (acc + 1) * (2 * p)) by (nonlinear_arith)
            requires acc2 == acc * 2 + x % 2, x % 2 <= 1, p >= 0;
    }
}

/// Scramble 1 mirrors the xored state: bit `k` of the result is bit `63 - k`
/// of `h`.
pub proof fn lemma_mix_word_mirrors_bits(hash: u64, word: u32, k: u64)
    requires
        xored_state(hash, word) % 11 == 1,
        k < 64,
    ensures
        (mix_word(hash, word) >> k) & 1 == (xored_state(hash, word) >> (63 - k) as u64) & 1,
{
    let h = xored_state(hash, word);
    let m = mix_word(hash, word);
    assert(vstd::arithmetic::power2::pow2(64) == 0x1_0000_0000_0000_0000) by {
        vstd::arithmetic::power2::lemma2_to64();
    }
    lemma_reversed_bits_bound(h as nat, 64, 0);
    lemma_reversed_bits_bit(h as nat, 64, 0, k as nat);
    assert(m as nat == reversed_bits(h as nat, 64, 0));
    vstd::bits::lemma_u64_shr_is_div(m, k);
    vstd::bits::lemma_u64_shr_is_div(h, (63 - k) as u64);
    let a = m >> k;
    let b = h >> (63 - k) as u64;
    assert(a & 1 == a % 2 && b & 1 == b % 2) by (bit_vector);
}


/// Mixing in two runs of words one after the other is mixing in the whole run.
pub proof fn lemma_mix_words_concat(hash: u64, a: Seq<u32>, b: Seq<u32>)
    ensures
        mix_words(hash, a + b) == mix_words(mix_words(hash, a), b),
    decreases a.len(),
{
    if a.len() > 0 {
        assert((a + b).drop_first() =~= a.drop_first() + b);
        assert((a + b)[0] == a[0]);
        lemma_mix_words_concat(mix_word(hash, a[0]), a.drop_first(), b);
    } else {
        assert(a + b =~= b);
    }
}

} // verus!

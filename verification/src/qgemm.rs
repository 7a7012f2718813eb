//! Fused multi-row quantized matrix multiplication: the integer part.
//!
//! A multi-row pass multiplies one compressed weight matrix by several input
//! rows. These kernels decode each weight block once and apply it to every
//! input row. What a block contributes to a row is a handful of integer sums,
//! one per vector lane; scaling them and adding them up over the blocks is
//! left to the caller.

use vstd::prelude::*;

verus! {

/// Rows that one decoded block is applied to at a time.
pub const TILE: usize = 8;

/// Whether the machine has the vector instructions that the fast kernels are
/// written for.
pub fn supported(x86_64: bool, avx2: bool, fma: bool) -> (supported: bool)
    ensures
        supported == (x86_64 && avx2 && fma),
{
    x86_64 && avx2 && fma
}

/// `d * scale[sub] * q - dmin * min[sub]`, 256 weights in 8 sub-blocks. `d` and
/// `dmin` are the bits of half-precision numbers.
#[derive(Debug, Clone, Copy)]
pub struct Q4KBlock {
    pub d: u16,
    pub dmin: u16,
    pub scales: [u8; 12],
    pub qs: [u8; 128],
}

/// Six bits per weight: four in `ql`, two in `qh`, with signed scales.
#[derive(Debug, Clone, Copy)]
pub struct Q6KBlock {
    pub ql: [u8; 128],
    pub qh: [u8; 64],
    pub scales: [i8; 16],
    pub d: u16,
}

/// 32 signed weights and one scale.
#[derive(Debug, Clone, Copy)]
pub struct Q80Block {
    pub d: u16,
    pub qs: [i8; 32],
}

/// Quantized activations for the K kernels, with the sums of every 16 of them.
/// `d` is the bits of a single-precision number.
#[derive(Debug, Clone, Copy)]
pub struct Q8KBlock {
    pub d: u32,
    pub qs: [i8; 256],
    pub bsums: [i16; 16],
}

/// What a byte means as a signed number.
pub open spec fn signed(b: u8) -> int {
    if b < 128 {
        b as int
    } else {
        b - 256
    }
}

/// What a byte means as a signed number.
fn signed_byte(b: u8) -> (v: i8)
    ensures
        v == signed(b),
{
    if b < 128 {
        b as i8
    } else {
        (b as i16 - 256) as i8
    }
}

/// Two bytes, the lower one first.
pub open spec fn short(bytes: Seq<u8>, at: int) -> int {
    bytes[at] + 256 * bytes[at + 1]
}

/// Two bytes, the lower one first.
fn short_at(bytes: &[u8], at: usize) -> (v: u16)
    requires
        at + 1 < bytes@.len(),
    ensures
        v == short(bytes@, at as int),
{
    bytes[at] as u16 + 256 * (bytes[at + 1] as u16)
}

impl Q4KBlock {
    /// Reads a block from the 144 bytes that a file stores it in.
    pub fn from_bytes(bytes: &[u8]) -> (block: Q4KBlock)
        requires
            bytes@.len() == crate::gguf::GgmlType::Q4K.block_bytes(),
        ensures
            block.d == short(bytes@, 0),
            block.dmin == short(bytes@, 2),
            block.scales@ == bytes@.subrange(4, 16),
            block.qs@ == bytes@.subrange(16, 144),
    {
        let mut scales: [u8; 12] = [0; 12];
        let mut i: usize = 0;
        while i < 12
            invariant
                bytes@.len() == 144,
                i <= 12,
                forall|k: int| 0 <= k < i ==> scales@[k] == bytes@[4 + k],
            decreases 12 - i,
        {
            scales[i] = bytes[4 + i];
            i += 1;
        }
        let mut qs: [u8; 128] = [0; 128];
        let mut n: usize = 0;
        while n < 128
            invariant
                bytes@.len() == 144,
                n <= 128,
                forall|k: int| 0 <= k < n ==> qs@[k] == bytes@[16 + k],
            decreases 128 - n,
        {
            qs[n] = bytes[16 + n];
            n += 1;
        }
        proof {
            assert(scales@ =~= bytes@.subrange(4, 16));
            assert(qs@ =~= bytes@.subrange(16, 144));
        }
        Q4KBlock { d: short_at(bytes, 0), dmin: short_at(bytes, 2), scales, qs }
    }
}

impl Q6KBlock {
    /// Reads a block from the 210 bytes that a file stores it in.
    pub fn from_bytes(bytes: &[u8]) -> (block: Q6KBlock)
        requires
            bytes@.len() == crate::gguf::GgmlType::Q6K.block_bytes(),
        ensures
            block.ql@ == bytes@.subrange(0, 128),
            block.qh@ == bytes@.subrange(128, 192),
            forall|k: int| 0 <= k < 16 ==> #[trigger] block.scales@[k] == signed(bytes@[192 + k]),
            block.d == short(bytes@, 208),
    {
        let mut ql: [u8; 128] = [0; 128];
        let mut i: usize = 0;
        while i < 128
            invariant
                bytes@.len() == 210,
                i <= 128,
                forall|k: int| 0 <= k < i ==> ql@[k] == bytes@[k],
            decreases 128 - i,
        {
            ql[i] = bytes[i];
            i += 1;
        }
        let mut qh: [u8; 64] = [0; 64];
        let mut n: usize = 0;
        while n < 64
            invariant
                bytes@.len() == 210,
                n <= 64,
                forall|k: int| 0 <= k < n ==> qh@[k] == bytes@[128 + k],
            decreases 64 - n,
        {
            qh[n] = bytes[128 + n];
            n += 1;
        }
        let mut scales: [i8; 16] = [0; 16];
        let mut m: usize = 0;
        while m < 16
            invariant
                bytes@.len() == 210,
                m <= 16,
                forall|k: int| 0 <= k < m ==> #[trigger] scales@[k] == signed(bytes@[192 + k]),
            decreases 16 - m,
        {
            scales[m] = signed_byte(bytes[192 + m]);
            m += 1;
        }
        proof {
            assert(ql@ =~= bytes@.subrange(0, 128));
            assert(qh@ =~= bytes@.subrange(128, 192));
        }
        Q6KBlock { ql, qh, scales, d: short_at(bytes, 208) }
    }
}

impl Q80Block {
    /// Reads a block from the 34 bytes that a file stores it in.
    pub fn from_bytes(bytes: &[u8]) -> (block: Q80Block)
        requires
            bytes@.len() == crate::gguf::GgmlType::Q8_0.block_bytes(),
        ensures
            block.d == short(bytes@, 0),
            forall|k: int| 0 <= k < 32 ==> #[trigger] block.qs@[k] == signed(bytes@[2 + k]),
    {
        let mut qs: [i8; 32] = [0; 32];
        let mut i: usize = 0;
        while i < 32
            invariant
                bytes@.len() == 34,
                i <= 32,
                forall|k: int| 0 <= k < i ==> #[trigger] qs@[k] == signed(bytes@[2 + k]),
            decreases 32 - i,
        {
            qs[i] = signed_byte(bytes[2 + i]);
            i += 1;
        }
        Q80Block { d: short_at(bytes, 0), qs }
    }
}

/// The scale of a sub-block, six bits: those of the first four sub-blocks stand
/// together, those of the others are split.
pub open spec fn sub_scale(scales: Seq<u8>, k: int) -> u8 {
    if k < 4 {
        scales[k] & 63
    } else {
        (scales[k + 4] & 15) | ((scales[k - 4] >> 6) << 4)
    }
}

/// The minimum of a sub-block, six bits.
pub open spec fn sub_min(scales: Seq<u8>, k: int) -> u8 {
    if k < 4 {
        scales[k + 4] & 63
    } else {
        (scales[k + 4] >> 4) | ((scales[k] >> 6) << 4)
    }
}

/// Four bytes as one word, the lowest byte first.
pub open spec fn word(b0: u8, b1: u8, b2: u8, b3: u8) -> u32 {
    (b0 as u32) | ((b1 as u32) << 8) | ((b2 as u32) << 16) | ((b3 as u32) << 24)
}

/// One byte of a word, the lowest byte first.
pub open spec fn byte_of(w: u32, k: int) -> u8 {
    if k == 0 {
        (w & 255) as u8
    } else if k == 1 {
        ((w >> 8) & 255) as u8
    } else if k == 2 {
        ((w >> 16) & 255) as u8
    } else {
        ((w >> 24) & 255) as u8
    }
}

/// One byte of a list of words.
pub open spec fn packed(words: Seq<u32>, k: int) -> u8 {
    byte_of(words[k / 4], k % 4)
}

proof fn lemma_low_bits(b0: u8, b1: u8, b2: u8, b3: u8, w: u32)
    requires
        w == word(b0, b1, b2, b3) & 0x3f3f3f3f,
    ensures
        byte_of(w, 0) == b0 & 63,
        byte_of(w, 1) == b1 & 63,
        byte_of(w, 2) == b2 & 63,
        byte_of(w, 3) == b3 & 63,
{
    let v = (b0 as u32) | ((b1 as u32) << 8) | ((b2 as u32) << 16) | ((b3 as u32) << 24);
    assert((w & 255) as u8 == b0 & 63 && ((w >> 8) & 255) as u8 == b1 & 63 && ((w >> 16) & 255)
        as u8 == b2 & 63 && ((w >> 24) & 255) as u8 == b3 & 63) by (bit_vector)
        requires
            w == v & 0x3f3f3f3f,
            v == (b0 as u32) | ((b1 as u32) << 8) | ((b2 as u32) << 16) | ((b3 as u32) << 24),
    ;
}

proof fn lemma_split_low(
    b0: u8,
    b1: u8,
    b2: u8,
    b3: u8,
    c0: u8,
    c1: u8,
    c2: u8,
    c3: u8,
    w: u32,
)
    requires
        w == (word(b0, b1, b2, b3) & 0x0f0f0f0f) | (((word(c0, c1, c2, c3) >> 6) & 0x03030303)
            << 4),
    ensures
        byte_of(w, 0) == (b0 & 15) | ((c0 >> 6) << 4),
        byte_of(w, 1) == (b1 & 15) | ((c1 >> 6) << 4),
        byte_of(w, 2) == (b2 & 15) | ((c2 >> 6) << 4),
        byte_of(w, 3) == (b3 & 15) | ((c3 >> 6) << 4),
{
    let v = (b0 as u32) | ((b1 as u32) << 8) | ((b2 as u32) << 16) | ((b3 as u32) << 24);
    let u = (c0 as u32) | ((c1 as u32) << 8) | ((c2 as u32) << 16) | ((c3 as u32) << 24);
    assert((w & 255) as u8 == (b0 & 15) | ((c0 >> 6) << 4) && ((w >> 8) & 255) as u8 == (b1 & 15)
        | ((c1 >> 6) << 4) && ((w >> 16) & 255) as u8 == (b2 & 15) | ((c2 >> 6) << 4) && ((w >> 24)
        & 255) as u8 == (b3 & 15) | ((c3 >> 6) << 4)) by (bit_vector)
        requires
            w == (v & 0x0f0f0f0f) | (((u >> 6) & 0x03030303) << 4),
            v == (b0 as u32) | ((b1 as u32) << 8) | ((b2 as u32) << 16) | ((b3 as u32) << 24),
            u == (c0 as u32) | ((c1 as u32) << 8) | ((c2 as u32) << 16) | ((c3 as u32) << 24),
    ;
}

proof fn lemma_split_high(
    b0: u8,
    b1: u8,
    b2: u8,
    b3: u8,
    c0: u8,
    c1: u8,
    c2: u8,
    c3: u8,
    w: u32,
)
    requires
        w == ((word(b0, b1, b2, b3) >> 4) & 0x0f0f0f0f) | (((word(c0, c1, c2, c3) >> 6)
            & 0x03030303) << 4),
    ensures
        byte_of(w, 0) == (b0 >> 4) | ((c0 >> 6) << 4),
        byte_of(w, 1) == (b1 >> 4) | ((c1 >> 6) << 4),
        byte_of(w, 2) == (b2 >> 4) | ((c2 >> 6) << 4),
        byte_of(w, 3) == (b3 >> 4) | ((c3 >> 6) << 4),
{
    let v = (b0 as u32) | ((b1 as u32) << 8) | ((b2 as u32) << 16) | ((b3 as u32) << 24);
    let u = (c0 as u32) | ((c1 as u32) << 8) | ((c2 as u32) << 16) | ((c3 as u32) << 24);
    assert((w & 255) as u8 == (b0 >> 4) | ((c0 >> 6) << 4) && ((w >> 8) & 255) as u8 == (b1 >> 4)
        | ((c1 >> 6) << 4) && ((w >> 16) & 255) as u8 == (b2 >> 4) | ((c2 >> 6) << 4) && ((w >> 24)
        & 255) as u8 == (b3 >> 4) | ((c3 >> 6) << 4)) by (bit_vector)
        requires
            w == ((v >> 4) & 0x0f0f0f0f) | (((u >> 6) & 0x03030303) << 4),
            v == (b0 as u32) | ((b1 as u32) << 8) | ((b2 as u32) << 16) | ((b3 as u32) << 24),
            u == (c0 as u32) | ((c1 as u32) << 8) | ((c2 as u32) << 16) | ((c3 as u32) << 24),
    ;
}

/// Four bytes as one word, the lowest byte first.
fn word_at(bytes: &[u8; 12], at: usize) -> (w: u32)
    requires
        at + 3 < 12,
    ensures
        w == word(bytes@[at as int], bytes@[at + 1], bytes@[at + 2], bytes@[at + 3]),
{
    (bytes[at] as u32) | ((bytes[at + 1] as u32) << 8) | ((bytes[at + 2] as u32) << 16) | ((
    bytes[at + 3] as u32) << 24)
}

/// Unpacks the twelve packed scale bytes into eight scales, then eight
/// minimums, four to a word.
pub fn unpack_k_scales(scales: &[u8; 12]) -> (words: [u32; 4])
    ensures
        forall|k: int| 0 <= k < 8 ==> #[trigger] packed(words@, k) == sub_scale(scales@, k),
        forall|k: int|
            0 <= k < 8 ==> packed(words@, 8 + k) == #[trigger] sub_min(scales@, k),
{
    let w0: u32 = word_at(scales, 0);
    let w1: u32 = word_at(scales, 4);
    let w2: u32 = word_at(scales, 8);
    let mut words: [u32; 4] = [0; 4];
    words[0] = w0 & 0x3f3f3f3f;
    words[1] = (w2 & 0x0f0f0f0f) | (((w0 >> 6) & 0x03030303) << 4);
    words[2] = w1 & 0x3f3f3f3f;
    words[3] = ((w2 >> 4) & 0x0f0f0f0f) | (((w1 >> 6) & 0x03030303) << 4);
    proof {
        let s = scales@;
        lemma_low_bits(s[0], s[1], s[2], s[3], words@[0]);
        lemma_split_low(s[8], s[9], s[10], s[11], s[0], s[1], s[2], s[3], words@[1]);
        lemma_low_bits(s[4], s[5], s[6], s[7], words@[2]);
        lemma_split_high(s[8], s[9], s[10], s[11], s[4], s[5], s[6], s[7], words@[3]);
        assert forall|k: int| 0 <= k < 8 implies #[trigger] packed(words@, k) == sub_scale(
            s,
            k,
        ) by {
            assert(k == 0 || k == 1 || k == 2 || k == 3 || k == 4 || k == 5 || k == 6 || k == 7);
        }
        assert forall|k: int| 0 <= k < 8 implies packed(words@, 8 + k) == #[trigger] sub_min(
            s,
            k,
        ) by {
            assert(k == 0 || k == 1 || k == 2 || k == 3 || k == 4 || k == 5 || k == 6 || k == 7);
        }
    }
    words
}

/// One byte of a list of words.
fn unpacked(words: &[u32; 4], k: usize) -> (b: u8)
    requires
        k < 16,
    ensures
        b == packed(words@, k as int),
{
    let w: u32 = words[k / 4];
    let at: usize = k % 4;
    if at == 0 {
        let b: u32 = w & 255;
        assert(b <= 255) by (bit_vector)
            requires
                b == w & 255,
        ;
        b as u8
    } else if at == 1 {
        let b: u32 = (w >> 8) & 255;
        assert(b <= 255) by (bit_vector)
            requires
                b == (w >> 8) & 255,
        ;
        b as u8
    } else if at == 2 {
        let b: u32 = (w >> 16) & 255;
        assert(b <= 255) by (bit_vector)
            requires
                b == (w >> 16) & 255,
        ;
        b as u8
    } else {
        let b: u32 = (w >> 24) & 255;
        assert(b <= 255) by (bit_vector)
            requires
                b == (w >> 24) & 255,
        ;
        b as u8
    }
}

/// A weight of a block before its scale: the low or the high half of a byte.
pub open spec fn q4k_weight(block: Q4KBlock, n: int) -> int {
    let b = block.qs@[(n / 64) * 32 + n % 32] as int;
    if n % 64 < 32 {
        b % 16
    } else {
        b / 16
    }
}

/// A weight of a block before its scale: four bits of one byte, two of another,
/// less 32.
pub open spec fn q6k_weight(block: Q6KBlock, n: int) -> int {
    let half = n / 128;
    let group = (n % 128) / 32;
    let i = n % 32;
    let low = block.ql@[half * 64 + (group % 2) * 32 + i] as int;
    let high = block.qh@[half * 32 + i] as int;
    let nibble = if group < 2 {
        low % 16
    } else {
        low / 16
    };
    let pair = if group == 0 {
        high % 4
    } else if group == 1 {
        high / 4 % 4
    } else if group == 2 {
        high / 16 % 4
    } else {
        high / 64
    };
    nibble + 16 * pair - 32
}

/// The weights of a block.
pub open spec fn q4k_weights(block: Q4KBlock) -> Seq<i32> {
    Seq::new(256, |n: int| q4k_weight(block, n) as i32)
}

/// The factors of every 16 weights of a block.
pub open spec fn q4k_factors(block: Q4KBlock) -> Seq<i32> {
    Seq::new(16, |k: int| sub_scale(block.scales@, k / 2) as i32)
}

/// The weights of a block.
pub open spec fn q6k_weights(block: Q6KBlock) -> Seq<i32> {
    Seq::new(256, |n: int| q6k_weight(block, n) as i32)
}

/// The factors of every 16 weights of a block.
pub open spec fn q6k_factors(block: Q6KBlock) -> Seq<i32> {
    Seq::new(16, |k: int| block.scales@[k] as i32)
}

/// A block of 256 weights as it is multiplied: a factor for every 16 of them.
#[derive(Debug, Clone)]
pub struct Decoded {
    pub weights: Vec<i32>,
    pub factors: Vec<i32>,
}

impl Decoded {
    /// Every weight has seven bits and every factor eight.
    pub open spec fn wf(&self) -> bool {
        &&& self.weights@.len() == 256
        &&& self.factors@.len() == 16
        &&& forall|n: int| 0 <= n < 256 ==> -64 <= #[trigger] self.weights@[n] <= 64
        &&& forall|n: int| 0 <= n < 16 ==> -128 <= #[trigger] self.factors@[n] <= 128
    }
}

/// Decodes the weights and the scales of a block.
pub fn decode_q4k(block: &Q4KBlock) -> (decoded: Decoded)
    ensures
        decoded.wf(),
        decoded.weights@ == q4k_weights(*block),
        decoded.factors@ == q4k_factors(*block),
{
    let mut weights: Vec<i32> = Vec::new();
    let mut n: usize = 0;
    while n < 256
        invariant
            n <= 256,
            weights@.len() == n,
            forall|m: int| 0 <= m < n ==> #[trigger] weights@[m] == q4k_weight(*block, m),
            forall|m: int| 0 <= m < n ==> -64 <= #[trigger] weights@[m] <= 64,
        decreases 256 - n,
    {
        let b: u8 = block.qs[(n / 64) * 32 + n % 32];
        let q: u8 = if n % 64 < 32 {
            b % 16
        } else {
            b / 16
        };
        weights.push(q as i32);
        n += 1;
    }
    let words = unpack_k_scales(&block.scales);
    let mut factors: Vec<i32> = Vec::new();
    let mut k: usize = 0;
    while k < 16
        invariant
            k <= 16,
            factors@.len() == k,
            forall|m: int| 0 <= m < 8 ==> #[trigger] packed(words@, m) == sub_scale(block.scales@, m),
            forall|m: int|
                0 <= m < k ==> #[trigger] factors@[m] == sub_scale(block.scales@, m / 2),
            forall|m: int| 0 <= m < k ==> -128 <= #[trigger] factors@[m] <= 128,
        decreases 16 - k,
    {
        let scale: u8 = unpacked(&words, k / 2);
        proof {
            assert(packed(words@, k as int / 2) == sub_scale(block.scales@, k as int / 2));
            lemma_six_bits(block.scales@, k as int / 2);
        }
        factors.push(scale as i32);
        k += 1;
    }
    proof {
        assert(weights@ =~= q4k_weights(*block));
        assert(factors@ =~= q4k_factors(*block));
    }
    Decoded { weights, factors }
}

proof fn lemma_six_bits(scales: Seq<u8>, k: int)
    ensures
        sub_scale(scales, k) < 64,
        sub_min(scales, k) < 64,
{
    let a = scales[k];
    let b = scales[k + 4];
    let c = scales[k - 4];
    assert(a & 63 < 64 && b & 63 < 64 && (b & 15) | ((c >> 6) << 4) < 64 && (b >> 4) | ((a >> 6)
        << 4) < 64) by (bit_vector);
}

/// Decodes the weights and the scales of a block.
pub fn decode_q6k(block: &Q6KBlock) -> (decoded: Decoded)
    ensures
        decoded.wf(),
        decoded.weights@ == q6k_weights(*block),
        decoded.factors@ == q6k_factors(*block),
{
    let mut weights: Vec<i32> = Vec::new();
    let mut n: usize = 0;
    while n < 256
        invariant
            n <= 256,
            weights@.len() == n,
            forall|m: int| 0 <= m < n ==> #[trigger] weights@[m] == q6k_weight(*block, m),
            forall|m: int| 0 <= m < n ==> -64 <= #[trigger] weights@[m] <= 64,
        decreases 256 - n,
    {
        let half: usize = n / 128;
        let group: usize = (n % 128) / 32;
        let i: usize = n % 32;
        let low: u8 = block.ql[half * 64 + (group % 2) * 32 + i];
        let high: u8 = block.qh[half * 32 + i];
        let nibble: u8 = if group < 2 {
            low % 16
        } else {
            low / 16
        };
        let pair: u8 = if group == 0 {
            high % 4
        } else if group == 1 {
            high / 4 % 4
        } else if group == 2 {
            high / 16 % 4
        } else {
            high / 64
        };
        weights.push(nibble as i32 + 16 * (pair as i32) - 32);
        n += 1;
    }
    let mut factors: Vec<i32> = Vec::new();
    let mut k: usize = 0;
    while k < 16
        invariant
            k <= 16,
            factors@.len() == k,
            forall|m: int| 0 <= m < k ==> #[trigger] factors@[m] == block.scales@[m],
        decreases 16 - k,
    {
        factors.push(block.scales[k] as i32);
        k += 1;
    }
    proof {
        assert(weights@ =~= q6k_weights(*block));
        assert(factors@ =~= q6k_factors(*block));
    }
    Decoded { weights, factors }
}

/// Four products in a row.
pub open spec fn quad(q: Seq<i32>, x: Seq<i8>, at: int) -> int {
    q[at] * x[at] + q[at + 1] * x[at + 1] + q[at + 2] * x[at + 2] + q[at + 3] * x[at + 3]
}

/// The sum of one vector lane over the first `subs` sub-blocks: in each, four
/// products under their factor.
pub open spec fn lane_sum(q: Seq<i32>, f: Seq<i32>, x: Seq<i8>, lane: int, subs: int) -> int
    decreases subs,
{
    if subs <= 0 {
        0
    } else {
        lane_sum(q, f, x, lane, subs - 1) + f[2 * (subs - 1) + lane / 4] * quad(
            q,
            x,
            32 * (subs - 1) + 4 * lane,
        )
    }
}

/// The products of the first `n` weights and activations under their factors.
pub open spec fn dot(q: Seq<i32>, f: Seq<i32>, x: Seq<i8>, n: int) -> int
    decreases n,
{
    if n <= 0 {
        0
    } else {
        dot(q, f, x, n - 1) + f[(n - 1) / 16] * (q[n - 1] * x[n - 1])
    }
}

/// The sum of the first `lanes` lanes.
pub open spec fn lanes_total(q: Seq<i32>, f: Seq<i32>, x: Seq<i8>, lanes: int, subs: int) -> int
    decreases lanes,
{
    if lanes <= 0 {
        0
    } else {
        lanes_total(q, f, x, lanes - 1, subs) + lane_sum(q, f, x, lanes - 1, subs)
    }
}

/// The products of the first `lanes` lanes of one sub-block.
spec fn sub_total(q: Seq<i32>, f: Seq<i32>, x: Seq<i8>, sub: int, lanes: int) -> int
    decreases lanes,
{
    if lanes <= 0 {
        0
    } else {
        sub_total(q, f, x, sub, lanes - 1) + f[2 * sub + (lanes - 1) / 4] * quad(
            q,
            x,
            32 * sub + 4 * (lanes - 1),
        )
    }
}

proof fn lemma_swap(q: Seq<i32>, f: Seq<i32>, x: Seq<i8>, lanes: int, subs: int)
    requires
        0 <= lanes,
        0 < subs,
    ensures
        lanes_total(q, f, x, lanes, subs) == lanes_total(q, f, x, lanes, subs - 1) + sub_total(
            q,
            f,
            x,
            subs - 1,
            lanes,
        ),
    decreases lanes,
{
    if lanes > 0 {
        lemma_swap(q, f, x, lanes - 1, subs);
    }
}

proof fn lemma_no_subs(q: Seq<i32>, f: Seq<i32>, x: Seq<i8>, lanes: int)
    ensures
        lanes_total(q, f, x, lanes, 0) == 0,
    decreases lanes,
{
    if lanes > 0 {
        lemma_no_subs(q, f, x, lanes - 1);
    }
}

proof fn lemma_sub_is_dot(q: Seq<i32>, f: Seq<i32>, x: Seq<i8>, sub: int, lanes: int)
    requires
        0 <= sub,
        0 <= lanes <= 8,
    ensures
        sub_total(q, f, x, sub, lanes) == dot(q, f, x, 32 * sub + 4 * lanes) - dot(
            q,
            f,
            x,
            32 * sub,
        ),
    decreases lanes,
{
    if lanes > 0 {
        lemma_sub_is_dot(q, f, x, sub, lanes - 1);
        let at = 32 * sub + 4 * (lanes - 1);
        let factor = f[2 * sub + (lanes - 1) / 4] as int;
        reveal_with_fuel(dot, 5);
        assert(at / 16 == 2 * sub + (lanes - 1) / 4);
        assert((at + 1) / 16 == 2 * sub + (lanes - 1) / 4);
        assert((at + 2) / 16 == 2 * sub + (lanes - 1) / 4);
        assert((at + 3) / 16 == 2 * sub + (lanes - 1) / 4);
        let a = q[at] * x[at];
        let b = q[at + 1] * x[at + 1];
        let c = q[at + 2] * x[at + 2];
        let d = q[at + 3] * x[at + 3];
        assert(factor * (a + b + c + d) == factor * a + factor * b + factor * c + factor * d)
            by (nonlinear_arith);
    }
}

proof fn lemma_total(q: Seq<i32>, f: Seq<i32>, x: Seq<i8>, subs: int)
    requires
        0 <= subs,
    ensures
        lanes_total(q, f, x, 8, subs) == dot(q, f, x, 32 * subs),
    decreases subs,
{
    if subs == 0 {
        lemma_no_subs(q, f, x, 8);
    } else {
        lemma_total(q, f, x, subs - 1);
        lemma_swap(q, f, x, 8, subs);
        lemma_sub_is_dot(q, f, x, subs - 1, 8);
    }
}

/// The lanes of a block add up to the product of its weights, under their
/// factors, with the activations.
pub proof fn lanes_add_up_to_the_product(q: Seq<i32>, f: Seq<i32>, x: Seq<i8>)
    ensures
        lanes_total(q, f, x, 8, 8) == dot(q, f, x, 256),
{
    lemma_total(q, f, x, 8);
}

/// The lanes of one decoded block against one row of activations.
fn lanes_of(decoded: &Decoded, x: &Q8KBlock) -> (lanes: [i32; 8])
    requires
        decoded.wf(),
    ensures
        forall|lane: int|
            0 <= lane < 8 ==> #[trigger] lanes@[lane] == lane_sum(
                decoded.weights@,
                decoded.factors@,
                x.qs@,
                lane,
                8,
            ),
{
    let mut lanes: [i32; 8] = [0; 8];
    let mut lane: usize = 0;
    while lane < 8
        invariant
            decoded.wf(),
            lane <= 8,
            forall|l: int|
                0 <= l < lane ==> #[trigger] lanes@[l] == lane_sum(
                    decoded.weights@,
                    decoded.factors@,
                    x.qs@,
                    l,
                    8,
                ),
        decreases 8 - lane,
    {
        let mut sum: i32 = 0;
        let mut sub: usize = 0;
        while sub < 8
            invariant
                decoded.wf(),
                lane < 8,
                sub <= 8,
                sum == lane_sum(
                    decoded.weights@,
                    decoded.factors@,
                    x.qs@,
                    lane as int,
                    sub as int,
                ),
                -4_194_304 * sub <= sum <= 4_194_304 * sub,
            decreases 8 - sub,
        {
            let at: usize = 32 * sub + 4 * lane;
            let four: i32 = product(decoded.weights[at], x.qs[at]) + product(
                decoded.weights[at + 1],
                x.qs[at + 1],
            ) + product(decoded.weights[at + 2], x.qs[at + 2]) + product(
                decoded.weights[at + 3],
                x.qs[at + 3],
            );
            let factor: i32 = decoded.factors[2 * sub + lane / 4];
            proof {
                assert(-4_194_304 <= factor * four <= 4_194_304) by (nonlinear_arith)
                    requires
                        -128 <= factor <= 128,
                        -32768 <= four <= 32768,
                ;
            }
            sum = sum + factor * four;
            sub += 1;
        }
        lanes[lane] = sum;
        lane += 1;
    }
    lanes
}

/// The product of a weight and an activation.
fn product(q: i32, x: i8) -> (p: i32)
    requires
        -64 <= q <= 64,
    ensures
        p == q * x,
        -8192 <= p <= 8192,
{
    proof {
        assert(-8192 <= q * x <= 8192) by (nonlinear_arith)
            requires
                -64 <= q <= 64,
                -128 <= x <= 128,
        ;
    }
    q * (x as i32)
}

/// The sum of two 16-bit numbers, which wraps.
pub open spec fn wrapped_sum(a: i16, b: i16) -> int {
    if a + b > i16::MAX {
        a + b - 0x10000
    } else if a + b < i16::MIN {
        a + b + 0x10000
    } else {
        a + b
    }
}

/// One lane of the minimums' part: two minimums, each times the sum of the
/// activations of its sub-block.
pub open spec fn min_lane(scales: Seq<u8>, bsums: Seq<i16>, lane: int) -> int {
    sub_min(scales, 2 * lane) * wrapped_sum(bsums[4 * lane], bsums[4 * lane + 1]) + sub_min(
        scales,
        2 * lane + 1,
    ) * wrapped_sum(bsums[4 * lane + 2], bsums[4 * lane + 3])
}

/// The eight minimums of a block.
fn mins_of(block: &Q4KBlock) -> (mins: Vec<i32>)
    ensures
        mins@.len() == 8,
        forall|k: int| 0 <= k < 8 ==> #[trigger] mins@[k] == sub_min(block.scales@, k),
        forall|k: int| 0 <= k < 8 ==> 0 <= #[trigger] mins@[k] < 64,
{
    let words = unpack_k_scales(&block.scales);
    let mut mins: Vec<i32> = Vec::new();
    let mut k: usize = 0;
    while k < 8
        invariant
            k <= 8,
            mins@.len() == k,
            forall|m: int|
                0 <= m < 8 ==> packed(words@, 8 + m) == #[trigger] sub_min(block.scales@, m),
            forall|m: int| 0 <= m < k ==> #[trigger] mins@[m] == sub_min(block.scales@, m),
            forall|m: int| 0 <= m < k ==> 0 <= #[trigger] mins@[m] < 64,
        decreases 8 - k,
    {
        let min: u8 = unpacked(&words, 8 + k);
        proof {
            assert(min == sub_min(block.scales@, k as int));
            lemma_six_bits(block.scales@, k as int);
        }
        mins.push(min as i32);
        k += 1;
    }
    mins
}

/// The minimums' part of one block against one row of activations.
fn min_lanes_of(mins: &Vec<i32>, x: &Q8KBlock, Ghost(scales): Ghost<Seq<u8>>) -> (lanes: [i32; 4])
    requires
        mins@.len() == 8,
        forall|k: int| 0 <= k < 8 ==> #[trigger] mins@[k] == sub_min(scales, k),
        forall|k: int| 0 <= k < 8 ==> 0 <= #[trigger] mins@[k] < 64,
    ensures
        forall|lane: int|
            0 <= lane < 4 ==> #[trigger] lanes@[lane] == min_lane(scales, x.bsums@, lane),
{
    let mut lanes: [i32; 4] = [0; 4];
    let mut lane: usize = 0;
    while lane < 4
        invariant
            lane <= 4,
            mins@.len() == 8,
            forall|k: int| 0 <= k < 8 ==> #[trigger] mins@[k] == sub_min(scales, k),
            forall|k: int| 0 <= k < 8 ==> 0 <= #[trigger] mins@[k] < 64,
            forall|l: int| 0 <= l < lane ==> #[trigger] lanes@[l] == min_lane(scales, x.bsums@, l),
        decreases 4 - lane,
    {
        let a: i32 = mins[2 * lane];
        let b: i32 = mins[2 * lane + 1];
        let s: i16 = x.bsums[4 * lane].wrapping_add(x.bsums[4 * lane + 1]);
        let t: i16 = x.bsums[4 * lane + 2].wrapping_add(x.bsums[4 * lane + 3]);
        proof {
            assert(-2_097_152 <= a * s <= 2_097_152 && -2_097_152 <= b * t <= 2_097_152)
                by (nonlinear_arith)
                requires
                    0 <= a < 64,
                    0 <= b < 64,
                    -32768 <= s <= 32768,
                    -32768 <= t <= 32768,
            ;
        }
        lanes[lane] = a * (s as i32) + b * (t as i32);
        lane += 1;
    }
    lanes
}

/// What one block contributes to one row.
#[derive(Debug, Clone, Copy)]
pub struct BlockSums {
    pub lanes: [i32; 8],
    pub mins: [i32; 4],
}

/// Whether sums are those of a block against a row of activations.
pub open spec fn q4k_sums(sums: BlockSums, w: Q4KBlock, x: Q8KBlock) -> bool {
    &&& forall|lane: int|
        0 <= lane < 8 ==> #[trigger] sums.lanes@[lane] == lane_sum(
            q4k_weights(w),
            q4k_factors(w),
            x.qs@,
            lane,
            8,
        )
    &&& forall|lane: int|
        0 <= lane < 4 ==> #[trigger] sums.mins@[lane] == min_lane(w.scales@, x.bsums@, lane)
}

/// Whether sums are those of a block against a row of activations. There is no
/// minimums' part.
pub open spec fn q6k_sums(lanes: [i32; 8], w: Q6KBlock, x: Q8KBlock) -> bool {
    forall|lane: int|
        0 <= lane < 8 ==> #[trigger] lanes@[lane] == lane_sum(
            q6k_weights(w),
            q6k_factors(w),
            x.qs@,
            lane,
            8,
        )
}

/// An activation with the sign of a weight applied to it. The lowest number has
/// no opposite and stays.
pub open spec fn with_sign(y: i8, w: i8) -> int {
    if w == 0 {
        0
    } else if w > 0 || y == i8::MIN {
        y as int
    } else {
        -y
    }
}

/// The size of a weight.
pub open spec fn size_of_weight(w: i8) -> int {
    if w < 0 {
        -w
    } else {
        w as int
    }
}

/// The size of a weight, times the activation with the weight's sign.
pub open spec fn signed_product(w: i8, y: i8) -> int {
    size_of_weight(w) * with_sign(y, w)
}

/// Moving the sign from the weight to the activation keeps the product, but
/// for an activation that has no opposite under a negative weight.
pub proof fn signed_products_are_products(w: i8, y: i8)
    requires
        y != i8::MIN || w >= 0,
    ensures
        signed_product(w, y) == w * y,
{
    let a = w as int;
    let b = y as int;
    assert((-a) * (-b) == a * b) by (nonlinear_arith);
    assert(a == 0 ==> a * b == 0 && a * 0 == 0) by (nonlinear_arith);
}

/// One lane of a block of signed weights.
pub open spec fn q80_lane(w: Seq<i8>, y: Seq<i8>, lane: int) -> int {
    signed_product(w[4 * lane], y[4 * lane]) + signed_product(w[4 * lane + 1], y[4 * lane + 1])
        + signed_product(w[4 * lane + 2], y[4 * lane + 2]) + signed_product(
        w[4 * lane + 3],
        y[4 * lane + 3],
    )
}

/// The size of a weight, times the activation with the weight's sign.
fn sign_product(w: i8, y: i8) -> (p: i32)
    ensures
        p == signed_product(w, y),
        -16384 <= p <= 16384,
{
    let size: i32 = if w < 0 {
        -(w as i32)
    } else {
        w as i32
    };
    let moved: i32 = if w == 0 {
        0
    } else if w > 0 || y == i8::MIN {
        y as i32
    } else {
        -(y as i32)
    };
    proof {
        assert(-16384 <= size * moved <= 16384) by (nonlinear_arith)
            requires
                0 <= size <= 128,
                -128 <= moved <= 128,
        ;
    }
    size * moved
}

/// The lanes of one block of signed weights against one of activations.
fn q80_lanes(w: &Q80Block, y: &Q80Block) -> (lanes: [i32; 8])
    ensures
        forall|lane: int| 0 <= lane < 8 ==> #[trigger] lanes@[lane] == q80_lane(w.qs@, y.qs@, lane),
{
    let mut lanes: [i32; 8] = [0; 8];
    let mut lane: usize = 0;
    while lane < 8
        invariant
            lane <= 8,
            forall|l: int| 0 <= l < lane ==> #[trigger] lanes@[l] == q80_lane(w.qs@, y.qs@, l),
        decreases 8 - lane,
    {
        let at: usize = 4 * lane;
        lanes[lane] =
        sign_product(w.qs[at], y.qs[at]) + sign_product(w.qs[at + 1], y.qs[at + 1]) + sign_product(
            w.qs[at + 2],
            y.qs[at + 2],
        ) + sign_product(w.qs[at + 3], y.qs[at + 3]);
        lane += 1;
    }
    lanes
}

/// An activation block's place: the blocks of all rows at one position lie
/// together.
proof fn lemma_place(blocks: int, rows: int, block: int, row: int)
    requires
        0 <= block < blocks,
        0 <= row < rows,
    ensures
        0 <= block * rows + row < rows * blocks,
        0 <= block * rows <= rows * blocks,
{
    assert(0 <= block * rows && block * rows + rows <= rows * blocks) by (nonlinear_arith)
        requires
            0 <= block < blocks,
            0 < rows,
    ;
}

/// One tile of rows against a whole compressed weight row: what each block
/// contributes to each row. The block is decoded once and applied to every row.
pub fn q4k_tile(
    weight: &[Q4KBlock],
    inputs: &[Q8KBlock],
    rows: usize,
    base: usize,
    width: usize,
) -> (out: Vec<Vec<BlockSums>>)
    requires
        inputs@.len() == rows * weight@.len(),
        base + width <= rows,
    ensures
        out@.len() == width,
        forall|lane: int, block: int|
            0 <= lane < width && 0 <= block < weight@.len() ==> q4k_sums(
                #[trigger] out@[lane]@[block],
                weight@[block],
                inputs@[block * rows + base + lane],
            ),
        forall|lane: int| 0 <= lane < width ==> (#[trigger] out@[lane])@.len() == weight@.len(),
{
    let mut out: Vec<Vec<BlockSums>> = Vec::new();
    let mut fresh: usize = 0;
    while fresh < width
        invariant
            fresh <= width,
            out@.len() == fresh,
            forall|lane: int| 0 <= lane < fresh ==> (#[trigger] out@[lane])@.len() == 0,
        decreases width - fresh,
    {
        out.push(Vec::new());
        fresh += 1;
    }
    let mut block: usize = 0;
    while block < weight.len()
        invariant
            inputs@.len() == rows * weight@.len(),
            base + width <= rows,
            block <= weight@.len(),
            out@.len() == width,
            forall|lane: int| 0 <= lane < width ==> (#[trigger] out@[lane])@.len() == block,
            forall|lane: int, b: int|
                0 <= lane < width && 0 <= b < block ==> q4k_sums(
                    #[trigger] out@[lane]@[b],
                    weight@[b],
                    inputs@[b * rows + base + lane],
                ),
        decreases weight@.len() - block,
    {
        let w: &Q4KBlock = &weight[block];
        let decoded = decode_q4k(w);
        let mins = mins_of(w);
        let mut lane: usize = 0;
        while lane < width
            invariant
                inputs@.len() == rows * weight@.len(),
                base + width <= rows,
                block < weight@.len(),
                *w == weight@[block as int],
                decoded.wf(),
                decoded.weights@ == q4k_weights(*w),
                decoded.factors@ == q4k_factors(*w),
                mins@.len() == 8,
                forall|k: int| 0 <= k < 8 ==> #[trigger] mins@[k] == sub_min(w.scales@, k),
                forall|k: int| 0 <= k < 8 ==> 0 <= #[trigger] mins@[k] < 64,
                lane <= width,
                out@.len() == width,
                forall|l: int|
                    0 <= l < width ==> (#[trigger] out@[l])@.len() == if l < lane {
                        block + 1
                    } else {
                        block as int
                    },
                forall|l: int, b: int|
                    0 <= l < width && 0 <= b < out@[l]@.len() ==> q4k_sums(
                        #[trigger] out@[l]@[b],
                        weight@[b],
                        inputs@[b * rows + base + l],
                    ),
            decreases width - lane,
        {
            let count: usize = inputs.len();
            proof {
                assert(count == rows * weight@.len());
                lemma_place(weight@.len() as int, rows as int, block as int, base + lane);
            }
            let x: &Q8KBlock = &inputs[block * rows + base + lane];
            let sums = BlockSums {
                lanes: lanes_of(&decoded, x),
                mins: min_lanes_of(&mins, x, Ghost(w.scales@)),
            };
            proof {
                assert(q4k_sums(sums, *w, *x));
            }
            let ghost before = out@;
            out[lane].push(sums);
            proof {
                assert forall|l: int, b: int|
                    0 <= l < width && 0 <= b < out@[l]@.len() implies q4k_sums(
                    #[trigger] out@[l]@[b],
                    weight@[b],
                    inputs@[b * rows + base + l],
                ) by {
                    if l == lane && b == block {
                        assert(out@[l]@[b] == sums);
                    } else {
                        assert(out@[l]@[b] == before[l]@[b]);
                    }
                }
            }
            lane += 1;
        }
        block += 1;
    }
    out
}

/// One tile of rows against a whole compressed weight row.
pub fn q6k_tile(
    weight: &[Q6KBlock],
    inputs: &[Q8KBlock],
    rows: usize,
    base: usize,
    width: usize,
) -> (out: Vec<Vec<[i32; 8]>>)
    requires
        inputs@.len() == rows * weight@.len(),
        base + width <= rows,
    ensures
        out@.len() == width,
        forall|lane: int, block: int|
            0 <= lane < width && 0 <= block < weight@.len() ==> q6k_sums(
                #[trigger] out@[lane]@[block],
                weight@[block],
                inputs@[block * rows + base + lane],
            ),
        forall|lane: int| 0 <= lane < width ==> (#[trigger] out@[lane])@.len() == weight@.len(),
{
    let mut out: Vec<Vec<[i32; 8]>> = Vec::new();
    let mut fresh: usize = 0;
    while fresh < width
        invariant
            fresh <= width,
            out@.len() == fresh,
            forall|lane: int| 0 <= lane < fresh ==> (#[trigger] out@[lane])@.len() == 0,
        decreases width - fresh,
    {
        out.push(Vec::new());
        fresh += 1;
    }
    let mut block: usize = 0;
    while block < weight.len()
        invariant
            inputs@.len() == rows * weight@.len(),
            base + width <= rows,
            block <= weight@.len(),
            out@.len() == width,
            forall|lane: int| 0 <= lane < width ==> (#[trigger] out@[lane])@.len() == block,
            forall|lane: int, b: int|
                0 <= lane < width && 0 <= b < block ==> q6k_sums(
                    #[trigger] out@[lane]@[b],
                    weight@[b],
                    inputs@[b * rows + base + lane],
                ),
        decreases weight@.len() - block,
    {
        let w: &Q6KBlock = &weight[block];
        let decoded = decode_q6k(w);
        let mut lane: usize = 0;
        while lane < width
            invariant
                inputs@.len() == rows * weight@.len(),
                base + width <= rows,
                block < weight@.len(),
                *w == weight@[block as int],
                decoded.wf(),
                decoded.weights@ == q6k_weights(*w),
                decoded.factors@ == q6k_factors(*w),
                lane <= width,
                out@.len() == width,
                forall|l: int|
                    0 <= l < width ==> (#[trigger] out@[l])@.len() == if l < lane {
                        block + 1
                    } else {
                        block as int
                    },
                forall|l: int, b: int|
                    0 <= l < width && 0 <= b < out@[l]@.len() ==> q6k_sums(
                        #[trigger] out@[l]@[b],
                        weight@[b],
                        inputs@[b * rows + base + l],
                    ),
            decreases width - lane,
        {
            let count: usize = inputs.len();
            proof {
                assert(count == rows * weight@.len());
                lemma_place(weight@.len() as int, rows as int, block as int, base + lane);
            }
            let x: &Q8KBlock = &inputs[block * rows + base + lane];
            let sums = lanes_of(&decoded, x);
            proof {
                assert(q6k_sums(sums, *w, *x));
            }
            let ghost before = out@;
            out[lane].push(sums);
            proof {
                assert forall|l: int, b: int|
                    0 <= l < width && 0 <= b < out@[l]@.len() implies q6k_sums(
                    #[trigger] out@[l]@[b],
                    weight@[b],
                    inputs@[b * rows + base + l],
                ) by {
                    if l == lane && b == block {
                        assert(out@[l]@[b] == sums);
                    } else {
                        assert(out@[l]@[b] == before[l]@[b]);
                    }
                }
            }
            lane += 1;
        }
        block += 1;
    }
    out
}

/// Whether sums are those of a block of signed weights against activations.
pub open spec fn q80_sums(lanes: [i32; 8], w: Q80Block, y: Q80Block) -> bool {
    forall|lane: int| 0 <= lane < 8 ==> #[trigger] lanes@[lane] == q80_lane(w.qs@, y.qs@, lane)
}

/// One tile of rows against a whole compressed weight row. Activations and
/// weights share the block format.
pub fn q80_tile(
    weight: &[Q80Block],
    inputs: &[Q80Block],
    rows: usize,
    base: usize,
    width: usize,
) -> (out: Vec<Vec<[i32; 8]>>)
    requires
        inputs@.len() == rows * weight@.len(),
        base + width <= rows,
    ensures
        out@.len() == width,
        forall|lane: int, block: int|
            0 <= lane < width && 0 <= block < weight@.len() ==> q80_sums(
                #[trigger] out@[lane]@[block],
                weight@[block],
                inputs@[block * rows + base + lane],
            ),
        forall|lane: int| 0 <= lane < width ==> (#[trigger] out@[lane])@.len() == weight@.len(),
{
    let mut out: Vec<Vec<[i32; 8]>> = Vec::new();
    let mut lane: usize = 0;
    while lane < width
        invariant
            inputs@.len() == rows * weight@.len(),
            base + width <= rows,
            lane <= width,
            out@.len() == lane,
            forall|l: int| 0 <= l < lane ==> (#[trigger] out@[l])@.len() == weight@.len(),
            forall|l: int, b: int|
                0 <= l < lane && 0 <= b < weight@.len() ==> q80_sums(
                    #[trigger] out@[l]@[b],
                    weight@[b],
                    inputs@[b * rows + base + l],
                ),
        decreases width - lane,
    {
        let mut row: Vec<[i32; 8]> = Vec::new();
        let mut block: usize = 0;
        while block < weight.len()
            invariant
                inputs@.len() == rows * weight@.len(),
                base + width <= rows,
                lane < width,
                block <= weight@.len(),
                row@.len() == block,
                forall|b: int|
                    0 <= b < block ==> q80_sums(
                        #[trigger] row@[b],
                        weight@[b],
                        inputs@[b * rows + base + lane],
                    ),
            decreases weight@.len() - block,
        {
            let count: usize = inputs.len();
            proof {
                assert(count == rows * weight@.len());
                lemma_place(weight@.len() as int, rows as int, block as int, base + lane);
            }
            row.push(q80_lanes(&weight[block], &inputs[block * rows + base + lane]));
            block += 1;
        }
        out.push(row);
        lane += 1;
    }
    out
}

/// The tiles that rows are processed in: whole ones, then what is left.
pub open spec fn tiles(rows: int) -> Seq<(usize, usize)>
    decreases rows,
{
    if rows <= 0 {
        Seq::empty()
    } else if rows % TILE as int == 0 {
        tiles(rows - TILE).push(((rows - TILE) as usize, TILE))
    } else {
        tiles(rows - rows % TILE as int).push(
            ((rows - rows % TILE as int) as usize, (rows % TILE as int) as usize),
        )
    }
}

/// The tiles that rows are processed in, each by its first row and its width.
pub fn row_tiles(rows: usize) -> (list: Vec<(usize, usize)>)
    ensures
        list@ == tiles(rows as int),
{
    let mut list: Vec<(usize, usize)> = Vec::new();
    let mut base: usize = 0;
    while rows - base >= TILE
        invariant
            base <= rows,
            base % TILE == 0,
            list@ == tiles(base as int),
        decreases rows - base,
    {
        list.push((base, TILE));
        base += TILE;
    }
    if rows - base > 0 {
        list.push((base, rows - base));
    }
    list
}

/// The tiles cover every row, and follow each other without a gap.
pub proof fn tiles_cover_the_rows(rows: int)
    requires
        0 <= rows <= usize::MAX,
    ensures
        rows > 0 ==> tiles(rows).len() > 0 && tiles(rows)[0].0 == 0,
        rows > 0 ==> tiles(rows).last().0 + tiles(rows).last().1 == rows,
        forall|i: int|
            0 < i < tiles(rows).len() ==> (#[trigger] tiles(rows)[i]).0 == tiles(rows)[i - 1].0
                + tiles(rows)[i - 1].1,
        forall|i: int| 0 <= i < tiles(rows).len() ==> 0 < (#[trigger] tiles(rows)[i]).1 <= TILE,
    decreases rows,
{
    if rows > 0 {
        let before = if rows % TILE as int == 0 {
            rows - TILE
        } else {
            rows - rows % TILE as int
        };
        tiles_cover_the_rows(before);
        assert forall|i: int| 0 < i < tiles(rows).len() implies (#[trigger] tiles(rows)[i]).0
            == tiles(rows)[i - 1].0 + tiles(rows)[i - 1].1 by {
            if i < tiles(rows).len() - 1 {
                assert(tiles(rows)[i] == tiles(before)[i]);
            }
            assert(tiles(rows)[i - 1] == tiles(before)[i - 1]);
        }
    }
}

} // verus!

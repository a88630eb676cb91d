//! Packed-field decoding: the bit-level core of the region format.
//!
//! Sections store per-voxel palette indices, per-cell biome indices and
//! per-column surface heights as fixed-width unsigned fields packed into an
//! array of 64-bit words, read least-significant-bit first within each word.
//! Two layouts exist:
//!
//! * the *word-aligned* layout (block states, heightmaps): each word holds
//!   `64 / width` whole fields and the remaining high bits are unused, so a
//!   field never crosses a word boundary;
//! * the *bitstream* layout (biomes): fields are packed back to back over the
//!   whole array, so a field may span from the top of one word into the
//!   bottom of the next.
//!
//! The stored words are signed 64-bit integers; a word is always reinterpreted
//! as its unsigned bit pattern before any shift, so a set top bit never
//! sign-extends into a decoded field.

use vstd::prelude::*;
use vstd::arithmetic::power2::*;
use vstd::arithmetic::div_mod::*;
use vstd::arithmetic::mul::*;
use vstd::bits::*;

use crate::error::AnvilError;

verus! {

/// The unsigned bit pattern of the stored word `words[k]`.
pub open spec fn word_bits(words: Seq<i64>, k: int) -> nat {
    (words[k] as u64) as nat
}

/// How many whole fields of `width` bits fit in one 64-bit word.
pub open spec fn fields_per_word(width: nat) -> nat
    recommends
        1 <= width,
{
    (64 as nat) / width
}

/// Number of bits of `n`: 0 for 0, and `floor(log2 n) + 1` otherwise.
pub open spec fn bit_len(n: nat) -> nat
    decreases n,
{
    if n == 0 {
        0
    } else {
        1 + bit_len(n / 2)
    }
}

/// Field `i` under the word-aligned layout: the low `width` bits of word
/// `i / fields_per_word` after discarding `(i % fields_per_word) * width`
/// low bits.
pub open spec fn aligned_field(words: Seq<i64>, width: nat, i: nat) -> nat
    recommends
        1 <= width <= 64,
        i / fields_per_word(width) < words.len(),
{
    let epw = fields_per_word(width);
    (word_bits(words, (i / epw) as int) / pow2((i % epw) * width)) % pow2(width)
}

/// Whether field `i` of the word-aligned layout lies inside `len` words.
pub open spec fn aligned_in_range(len: nat, width: nat, i: nat) -> bool
    recommends
        1 <= width,
{
    i / fields_per_word(width) < len
}

/// Field `i` under the bitstream layout: bits `width * i` up to but not
/// including `width * (i + 1)` of the unbroken stream of words, each word
/// contributing its 64 bits least-significant first.  The two words the
/// field can touch are read as one 128-bit window.
pub open spec fn stream_field(words: Seq<i64>, width: nat, i: nat) -> nat
    recommends
        1 <= width <= 64,
        stream_in_range(words.len(), width, i),
{
    let wd = (width * i) / 64;
    let off = (width * i) % 64;
    let lo = word_bits(words, wd as int);
    let hi = if wd + 1 < words.len() {
        word_bits(words, wd as int + 1)
    } else {
        0
    };
    ((lo + hi * pow2(64)) / pow2(off)) % pow2(width)
}

/// Whether every bit of field `i` of the bitstream layout lies inside `len`
/// words.
pub open spec fn stream_in_range(len: nat, width: nat, i: nat) -> bool
    recommends
        1 <= width,
{
    (width * i + width - 1) / 64 < len
}

/// Returns the number of bits in the binary representation of `num`.
///
/// `bit_len(n - 1)` of a palette length `n` is the narrowest field width able
/// to index the whole palette.
pub fn bit_length(num: usize) -> (r: u32)
    ensures
        r == bit_len(num as nat),
{
    proof {
        lemma2_to64_rest();
        lemma_bit_len_le(num as nat, 64);
    }
    let mut n: usize = num;
    let mut r: u32 = 0;
    while n > 0
        invariant
            bit_len(num as nat) == r + bit_len(n as nat),
            bit_len(num as nat) <= 64,
        decreases n,
    {
        n = n / 2;
        r = r + 1;
    }
    r
}

/// `bit_len` never exceeds the bit count of any bound: `n < pow2(k)` forces
/// `bit_len(n) <= k`.
pub proof fn lemma_bit_len_le(n: nat, k: nat)
    requires
        n < pow2(k),
    ensures
        bit_len(n) <= k,
    decreases k,
{
    if n == 0 {
    } else if k == 0 {
        assert(pow2(0) == 1) by {
            lemma_pow2_unfold(1);
            lemma_pow2_pos(0);
            lemma2_to64();
        }
    } else {
        lemma_pow2_unfold(k);
        lemma_bit_len_le(n / 2, (k - 1) as nat);
    }
}

/// Every value of `bit_len(n)` bits is at least `n + 1`: `n < pow2(bit_len(n))`.
pub proof fn lemma_bit_len_bound(n: nat)
    ensures
        n < pow2(bit_len(n)),
    decreases n,
{
    if n == 0 {
        lemma2_to64();
    } else {
        lemma_bit_len_bound(n / 2);
        lemma_pow2_unfold(bit_len(n));
    }
}

/// Mask with the low `width` bits set.
fn low_mask(width: u32) -> (r: u64)
    requires
        1 <= width <= 64,
    ensures
        r == low_bits_mask(width as nat),
{
    if width == 64 {
        proof {
            lemma_low_bits_mask_values();
        }
        0xffff_ffff_ffff_ffffu64
    } else {
        proof {
            lemma_u64_pow2_no_overflow(width as nat);
            lemma_u64_shl_is_mul(1u64, width as u64);
        }
        (1u64 << (width as u64)) - 1
    }
}

/// Dropping a whole upper word from the 128-bit window does not change a
/// field that lies entirely in the lower word.
proof fn lemma_window_single(lo: u64, hi: nat, off: nat, width: nat)
    requires
        off < 64,
        1 <= width,
        off + width <= 64,
    ensures
        (((lo as nat) + hi * pow2(64)) / pow2(off)) % pow2(width) == ((lo as nat) / pow2(off))
            % pow2(width),
{
    let l = lo as int;
    let h = hi as int;
    let s = (64 - off) as nat;
    let u = (64 - off - width) as nat;
    lemma_pow2_pos(off);
    lemma_pow2_pos(s);
    lemma_pow2_pos(u);
    lemma_pow2_pos(width);
    lemma_pow2_adds(off, s);
    lemma_pow2_adds(u, width);
    assert(l + h * pow2(64) as int == l + (h * pow2(s) as int) * pow2(off) as int)
        by (nonlinear_arith)
        requires
            pow2(64) == pow2(off) * pow2(s),
    ;
    lemma_hoist_over_denominator(l, h * pow2(s) as int, pow2(off));
    let a = l / pow2(off) as int;
    assert((l + h * pow2(64) as int) / pow2(off) as int == a + h * pow2(s) as int);
    assert(a + h * pow2(s) as int == pow2(width) as int * (h * pow2(u) as int) + a)
        by (nonlinear_arith)
        requires
            pow2(s) == pow2(u) * pow2(width),
    ;
    lemma_mod_multiples_vanish(h * pow2(u) as int, a, pow2(width) as int);
}

/// Value of a field that spans from the top of one word into the next: the
/// upper bits of the low word supply the low part, the low bits of the high
/// word supply the high part.
proof fn lemma_window_span(lo: u64, hi: u64, off: nat, width: nat)
    requires
        off < 64,
        width <= 64,
        64 < off + width,
    ensures
        (((lo as nat) + (hi as nat) * pow2(64)) / pow2(off)) % pow2(width) == (lo as nat) / pow2(
            off,
        ) + ((hi as nat) % pow2((off + width - 64) as nat)) * pow2((64 - off) as nat),
{
    let l = lo as int;
    let h = hi as int;
    let s = (64 - off) as nat;
    let t = ((off + width) - 64) as nat;
    lemma_pow2_pos(off);
    lemma_pow2_pos(s);
    lemma_pow2_pos(t);
    lemma_pow2_pos(width);
    lemma_pow2_adds(off, s);
    lemma_pow2_adds(s, t);
    lemma2_to64_rest();
    assert(l + h * pow2(64) as int == l + (h * pow2(s) as int) * pow2(off) as int)
        by (nonlinear_arith)
        requires
            pow2(64) == pow2(off) * pow2(s),
    ;
    lemma_hoist_over_denominator(l, h * pow2(s) as int, pow2(off));
    let a = l / pow2(off) as int;
    assert((l + h * pow2(64) as int) / pow2(off) as int == a + h * pow2(s) as int);
    // a < 2^s because lo < 2^64 == 2^off * 2^s
    lemma_multiply_divide_lt(l, pow2(off) as int, pow2(s) as int);
    // split a + h * 2^s modulo 2^s * 2^t
    lemma_breakdown(a + h * pow2(s) as int, pow2(s) as int, pow2(t) as int);
    assert((a + h * pow2(s) as int) % pow2(s) as int == a) by {
        assert(a + h * pow2(s) as int == pow2(s) as int * h + a) by (nonlinear_arith);
        lemma_mod_multiples_vanish(h, a, pow2(s) as int);
        lemma_small_mod(a as nat, pow2(s));
    }
    assert((a + h * pow2(s) as int) / pow2(s) as int == h) by {
        lemma_hoist_over_denominator(a, h, pow2(s));
        lemma_basic_div(a, pow2(s) as int);
    }
    assert(pow2(s) as int * (h % pow2(t) as int) == (h % pow2(t) as int) * pow2(s) as int)
        by (nonlinear_arith);
}

/// Field `j` of a single word being assembled: the low `width` bits after
/// discarding `j * width` low bits.
spec fn word_field(acc: nat, width: nat, j: nat) -> nat {
    (acc / pow2(j * width)) % pow2(width)
}

/// Adding a value at or above bit `sh` does not change a field that lies
/// entirely below bit `sh`.
proof fn lemma_low_fields_unchanged(acc: nat, v: nat, sh: nat, low: nat, width: nat)
    requires
        low + width <= sh,
    ensures
        ((acc + v * pow2(sh)) / pow2(low)) % pow2(width) == (acc / pow2(low)) % pow2(width),
{
    let a = acc as int;
    let h = v as int;
    let s = (sh - low) as nat;
    let u = (sh - low - width) as nat;
    lemma_pow2_pos(low);
    lemma_pow2_pos(s);
    lemma_pow2_pos(u);
    lemma_pow2_pos(width);
    lemma_pow2_adds(low, s);
    lemma_pow2_adds(u, width);
    assert(a + h * pow2(sh) as int == a + (h * pow2(s) as int) * pow2(low) as int)
        by (nonlinear_arith)
        requires
            pow2(sh) == pow2(low) * pow2(s),
    ;
    lemma_hoist_over_denominator(a, h * pow2(s) as int, pow2(low));
    let q = a / pow2(low) as int;
    assert((a + h * pow2(sh) as int) / pow2(low) as int == q + h * pow2(s) as int);
    assert(q + h * pow2(s) as int == pow2(width) as int * (h * pow2(u) as int) + q)
        by (nonlinear_arith)
        requires
            pow2(s) == pow2(u) * pow2(width),
    ;
    lemma_mod_multiples_vanish(h * pow2(u) as int, q, pow2(width) as int);
}

/// A value placed at bit `sh` on top of bits that stay below `sh` reads back
/// unchanged.
proof fn lemma_new_field(acc: nat, v: nat, sh: nat, width: nat)
    requires
        acc < pow2(sh),
        v < pow2(width),
    ensures
        ((acc + v * pow2(sh)) / pow2(sh)) % pow2(width) == v,
{
    lemma_pow2_pos(sh);
    lemma_pow2_pos(width);
    lemma_hoist_over_denominator(acc as int, v as int, pow2(sh));
    lemma_basic_div(acc as int, pow2(sh) as int);
    lemma_small_mod(v, pow2(width));
}

/// Packs fixed-width values into a long-array under the word-aligned layout:
/// each word receives `64 / width` values, least-significant first, and the
/// last word is padded with zero bits.
///
/// The contract states the round-trip law of the layout: decoding any field
/// of the produced array under the word-aligned rule returns exactly the
/// value that was packed.
pub fn pack_fields(values: &Vec<u64>, width: u32) -> (r: Vec<i64>)
    requires
        1 <= width <= 64,
        values@.len() + 64 <= usize::MAX,
        forall|i: int| 0 <= i < values@.len() ==> values@[i] < pow2(width as nat),
    ensures
        values@.len() <= r@.len() * fields_per_word(width as nat),
        r@.len() == 0 || (r@.len() - 1) * fields_per_word(width as nat) < values@.len(),
        forall|i: int|
            0 <= i < values@.len() ==> aligned_field(r@, width as nat, i as nat) == values@[i],
{
    let epw: usize = (64 / width) as usize;
    proof {
        lemma_div_non_zero(64, width as int);
        lemma_div_nonincreasing(64, width as int);
        lemma_fundamental_div_mod(64, width as int);
        lemma2_to64();
        lemma2_to64_rest();
    }
    let mut words: Vec<i64> = Vec::new();
    let mut i: usize = 0;
    while i < values.len()
        invariant
            1 <= width <= 64,
            epw as int == 64 as int / width as int,
            (width as int) * (epw as int) <= 64,
            1 <= epw <= 64,
            values@.len() + 64 <= usize::MAX,
            forall|k: int| 0 <= k < values@.len() ==> values@[k] < pow2(width as nat),
            i as int == words@.len() as int * (epw as int),
            i == 0 || (words@.len() - 1) * (epw as int) < values@.len() as int,
            forall|k: int|
                0 <= k < i && k < values@.len() ==> aligned_field(
                    words@,
                    width as nat,
                    k as nat,
                ) == values@[k],
        decreases values@.len() + epw - i,
    {
        let ghost old_words = words@;
        proof {
            assert((0 as nat) * (width as nat) == 0) by (nonlinear_arith);
            lemma2_to64();
        }
        let mut acc: u64 = 0;
        let mut j: usize = 0;
        while j < epw
            invariant
                1 <= width <= 64,
                epw as int == 64 as int / width as int,
                (width as int) * (epw as int) <= 64,
                1 <= epw <= 64,
                j <= epw,
                i + epw <= usize::MAX,
                i < values@.len(),
                values@.len() + 64 <= usize::MAX,
                forall|k: int| 0 <= k < values@.len() ==> values@[k] < pow2(width as nat),
                acc < pow2((j as nat) * (width as nat)),
                forall|jj: int|
                    0 <= jj < j && i + jj < values@.len() ==> #[trigger] word_field(
                        acc as nat,
                        width as nat,
                        jj as nat,
                    ) == values@[i + jj],
            decreases epw - j,
        {
            let v: u64 = if i + j < values.len() {
                values[i + j]
            } else {
                0
            };
            proof {
                assert((j as int) * (width as int) + width as int <= 64) by (nonlinear_arith)
                    requires
                        0 <= j as int,
                        (j as int) + 1 <= epw as int,
                        (width as int) * (epw as int) <= 64,
                        1 <= width as int,
                ;
            }
            let shift: u32 = (j as u32) * width;
            proof {
                lemma_pow2_pos((shift as nat));
                lemma_pow2_pos(width as nat);
                lemma_pow2_adds((shift as nat), width as nat);
                if (shift as nat) + (width as nat) < 64 {
                    lemma_pow2_strictly_increases((shift as nat) + (width as nat), 64);
                }
                lemma2_to64();
                lemma2_to64_rest();
                assert(v < pow2(width as nat));
                assert((acc as int) + (v as int) * (pow2(shift as nat) as int) < (pow2(
                    (shift as nat) + (width as nat),
                ) as int)) by (nonlinear_arith)
                    requires
                        (acc as int) < pow2(shift as nat) as int,
                        (v as int) < pow2(width as nat) as int,
                        pow2((shift as nat) + (width as nat)) == pow2(shift as nat) * pow2(
                            width as nat,
                        ),
                        pow2(shift as nat) >= 1,
                ;
                lemma_u64_shl_is_mul(v, shift as u64);
            }
            let ghost prev = acc as nat;
            acc = acc + (v << (shift as u64));
            proof {
                assert(acc as nat == prev + (v as nat) * pow2(shift as nat));
                assert forall|jj: int| 0 <= jj < j && i + jj < values@.len() implies #[trigger] word_field(
                    acc as nat,
                    width as nat,
                    jj as nat,
                ) == values@[i + jj] by {
                    assert(word_field(prev, width as nat, jj as nat) == values@[i + jj]);
                    assert((jj as nat) * (width as nat) + (width as nat) <= (shift as nat))
                        by (nonlinear_arith)
                        requires
                            0 <= jj as int,
                            (jj as int) + 1 <= j as int,
                            shift as int == (j as int) * (width as int),
                            1 <= width as int,
                    ;
                    lemma_low_fields_unchanged(
                        prev,
                        v as nat,
                        shift as nat,
                        (jj as nat) * (width as nat),
                        width as nat,
                    );
                }
                lemma_new_field(prev, v as nat, shift as nat, width as nat);
                assert(word_field(acc as nat, width as nat, j as nat) == v);
                assert((j as nat + 1) * (width as nat) == (shift as nat) + (width as nat))
                    by (nonlinear_arith)
                    requires
                        shift as int == (j as int) * (width as int),
                ;
            }
            j = j + 1;
        }
        let w: i64 = #[verifier::truncate] (acc as i64);
        words.push(w);
        proof {
            assert(acc as i64 as u64 == acc) by (bit_vector);
            assert forall|k: int| 0 <= k < i + epw && k < values@.len() implies aligned_field(
                words@,
                width as nat,
                k as nat,
            ) == values@[k] by {
                if k < i {
                    assert(aligned_field(old_words, width as nat, k as nat) == values@[k]);
                    assert(k < (epw as int) * (old_words.len() as int)) by (nonlinear_arith)
                        requires
                            k < i as int,
                            i as int == old_words.len() as int * (epw as int),
                    ;
                    lemma_multiply_divide_lt(k, epw as int, old_words.len() as int);
                } else {
                    let kk = k - i;
                    lemma_fundamental_div_mod_converse(
                        k,
                        epw as int,
                        old_words.len() as int,
                        kk,
                    );
                    assert(word_field(acc as nat, width as nat, kk as nat) == values@[k]);
                    assert(word_bits(words@, old_words.len() as int) == acc as nat);
                }
            }
            assert((words@.len() as int) * (epw as int) == i + epw) by (nonlinear_arith)
                requires
                    words@.len() as int == old_words.len() as int + 1,
                    i as int == old_words.len() as int * (epw as int),
            ;
        }
        i = i + epw;
    }
    proof {
        if i == 0 {
            assert(words@.len() as int == 0) by (nonlinear_arith)
                requires
                    i as int == words@.len() as int * (epw as int),
                    i == 0,
                    1 <= epw as int,
            ;
        }
        assert(values@.len() as int <= words@.len() as int * (epw as int));
    }
    words
}

/// Reads field `index` of the word-aligned layout.
fn aligned_read(words: &Vec<i64>, width: u32, index: usize) -> (r: u64)
    requires
        1 <= width <= 64,
        aligned_in_range(words@.len(), width as nat, index as nat),
    ensures
        r == aligned_field(words@, width as nat, index as nat),
{
    let epw: usize = (64 / width) as usize;
    proof {
        lemma_div_non_zero(64, width as int);
        lemma_fundamental_div_mod(64, width as int);
        assert(((index % epw) as int) * (width as int) + width as int <= 64) by (nonlinear_arith)
            requires
                0 <= (index % epw) as int,
                ((index % epw) as int) < (epw as int),
                (width as int) * (epw as int) <= 64,
                1 <= width as int,
        ;
    }
    let wd: usize = index / epw;
    let shift: u32 = ((index % epw) as u32) * width;
    let w: u64 = #[verifier::truncate] (words[wd] as u64);
    let mask: u64 = low_mask(width);
    let r: u64 = (w >> (shift as u64)) & mask;
    proof {
        lemma2_to64();
        lemma_u64_shr_is_div(w, shift as u64);
        if width < 64 {
            lemma_u64_pow2_no_overflow(width as nat);
            lemma_u64_low_bits_mask_is_mod(w >> (shift as u64), width as nat);
        } else {
            assert(mask == 0xffff_ffff_ffff_ffffu64) by {
                lemma_low_bits_mask_values();
            }
            assert((w >> (shift as u64)) & 0xffff_ffff_ffff_ffffu64 == (w >> (shift as u64)))
                by (bit_vector);
            lemma2_to64_rest();
            lemma_small_mod((w >> (shift as u64)) as nat, pow2(64));
        }
    }
    r
}

/// Reads field `index` of the bitstream layout, combining two partial reads
/// when the field spans a word boundary.
fn stream_read(words: &Vec<i64>, width: u32, index: usize) -> (r: u64)
    requires
        1 <= width <= 64,
        (width as nat) * (index as nat) + (width as nat) <= usize::MAX,
        stream_in_range(words@.len(), width as nat, index as nat),
    ensures
        r == stream_field(words@, width as nat, index as nat),
{
    let bit: usize = (width as usize) * index;
    let wd: usize = bit / 64;
    let off: u32 = (bit % 64) as u32;
    proof {
        lemma_fundamental_div_mod(bit as int, 64);
        lemma_div_is_ordered(bit as int, bit as int + width as int - 1, 64);
    }
    if off + width <= 64 {
        let w: u64 = #[verifier::truncate] (words[wd] as u64);
        let mask: u64 = low_mask(width);
        let r: u64 = (w >> (off as u64)) & mask;
        proof {
            lemma2_to64();
            lemma_u64_shr_is_div(w, off as u64);
            if width < 64 {
                lemma_u64_pow2_no_overflow(width as nat);
                lemma_u64_low_bits_mask_is_mod(w >> (off as u64), width as nat);
            } else {
                assert(mask == 0xffff_ffff_ffff_ffffu64) by {
                    lemma_low_bits_mask_values();
                }
                assert((w >> (off as u64)) & 0xffff_ffff_ffff_ffffu64 == (w >> (off as u64)))
                    by (bit_vector);
                lemma2_to64_rest();
                lemma_small_mod((w >> (off as u64)) as nat, pow2(64));
            }
            let hi: nat = if wd + 1 < words@.len() {
                word_bits(words@, wd as int + 1)
            } else {
                0
            };
            lemma_window_single(w, hi, off as nat, width as nat);
        }
        r
    } else {
        proof {
            // the field reaches bit 64 of the window, so the next word exists
            lemma_fundamental_div_mod_converse(
                bit as int + width as int - 1,
                64,
                wd as int + 1,
                off as int + width as int - 1 - 64,
            );
        }
        let lo: u64 = #[verifier::truncate] (words[wd] as u64);
        let hi: u64 = #[verifier::truncate] (words[wd + 1] as u64);
        let s: u32 = 64 - off;
        let t: u32 = off + width - 64;
        let lo_part: u64 = lo >> (off as u64);
        let hi_part: u64 = hi & low_mask(t);
        proof {
            lemma_u64_pow2_no_overflow(t as nat);
            lemma_u64_shr_is_div(lo, off as u64);
            lemma_u64_low_bits_mask_is_mod(hi, t as nat);
            lemma2_to64_rest();
            lemma_pow2_pos(off as nat);
            lemma_pow2_pos(s as nat);
            lemma_pow2_pos(t as nat);
            lemma_pow2_adds(off as nat, s as nat);
            lemma_pow2_adds(s as nat, t as nat);
            if width < 64 {
                lemma_pow2_strictly_increases(width as nat, 64);
            }
            lemma_multiply_divide_lt(lo as int, pow2(off as nat) as int, pow2(s as nat) as int);
            lemma_mod_division_less_than_divisor(hi as int, pow2(t as nat) as int);
            assert(hi_part as int * pow2(s as nat) as int <= pow2(width as nat) - pow2(s as nat))
                by (nonlinear_arith)
                requires
                    (hi_part as int) < pow2(t as nat),
                    pow2(s as nat) * pow2(t as nat) == pow2(width as nat),
                    pow2(s as nat) >= 1,
            ;
            lemma_u64_shl_is_mul(hi_part, s as u64);
            lemma_window_span(lo, hi, off as nat, width as nat);
        }
        let r: u64 = lo_part + (hi_part << (s as u64));
        r
    }
}

/// Reads one fixed-width field from a packed long-array.
///
/// `spanning` selects the layout: `false` for the word-aligned layout of
/// block states and heightmaps, `true` for the unbroken bitstream layout of
/// biomes.  A read whose field lies past the end of `words` reports
/// `Truncated` instead of panicking.
pub fn packed_field(words: &Vec<i64>, width: u32, spanning: bool, index: usize) -> (r: Result<
    u64,
    AnvilError,
>)
    requires
        1 <= width <= 64,
        spanning ==> (width as nat) * (index as nat) + (width as nat) <= usize::MAX,
    ensures
        spanning ==> ((r is Ok) <==> stream_in_range(words@.len(), width as nat, index as nat)),
        spanning ==> (r matches Ok(v) ==> v == stream_field(words@, width as nat, index as nat)),
        !spanning ==> ((r is Ok) <==> aligned_in_range(words@.len(), width as nat, index as nat)),
        !spanning ==> (r matches Ok(v) ==> v == aligned_field(words@, width as nat, index as nat)),
        r matches Err(e) ==> e == AnvilError::Truncated,
{
    if !spanning {
        let epw: usize = (64 / width) as usize;
        proof {
            lemma_div_non_zero(64, width as int);
        }
        let wd: usize = index / epw;
        if wd >= words.len() {
            return Err(AnvilError::Truncated);
        }
        Ok(aligned_read(words, width, index))
    } else {
        let bit: usize = (width as usize) * index;
        let last: usize = bit + (width as usize - 1);
        let lwd: usize = last / 64;
        if lwd >= words.len() {
            return Err(AnvilError::Truncated);
        }
        Ok(stream_read(words, width, index))
    }
}

/// Field width of the block-state layout for a palette of `n` entries:
/// `bit_len(n - 1)`, but never below the format's 4-bit minimum.
pub open spec fn spec_block_state_width(n: nat) -> nat
    recommends
        1 <= n,
{
    if bit_len((n - 1) as nat) < 4 {
        4
    } else {
        bit_len((n - 1) as nat)
    }
}

/// Returns the field width the block-state layout uses for a palette of
/// `palette_len` entries: the bit length of the largest index, padded up to
/// the format's minimum of 4 bits.
pub fn block_state_width(palette_len: usize) -> (r: u32)
    requires
        1 <= palette_len,
    ensures
        r == spec_block_state_width(palette_len as nat),
        4 <= r <= 64,
{
    proof {
        lemma2_to64_rest();
        lemma_bit_len_le((palette_len - 1) as nat, 64);
    }
    let b: u32 = bit_length(palette_len - 1);
    if b < 4 {
        4
    } else {
        b
    }
}

/// Appends `b` below `a`: shifts `a` left by `length` bits and ORs `b`
/// into the freed positions.  Without an explicit `length` the bit length
/// of `b` itself is used, so the two operands never overlap; with a
/// narrower explicit length the high bits of `b` overlap the shifted `a`,
/// as the OR says.
pub fn bin_append(a: u32, b: u32, length: Option<u32>) -> (r: u32)
    requires
        ({
            let l: nat = if length is Some {
                length->0 as nat
            } else {
                bit_len(b as nat)
            };
            l < 32
        }),
    ensures
        ({
            let l: nat = if length is Some {
                length->0 as nat
            } else {
                bit_len(b as nat)
            };
            &&& r == (a << (l as u32)) | b
            &&& ((b as nat) < pow2(l) && (a as nat) * pow2(l) + b <= u32::MAX ==> r == (a as nat)
                * pow2(l) + b)
        }),
{
    let l: u32 = match length {
        Some(l) => l,
        None => bit_length(b as usize),
    };
    proof {
        if length is None {
            lemma_bit_len_bound(b as nat);
        }
        if (b as nat) < pow2(l as nat) && (a as nat) * pow2(l as nat) + b <= u32::MAX {
            lemma_u32_pow2_no_overflow(l as nat);
            lemma_u32_shl_is_mul(a, l);
            lemma_u32_shl_is_mul(1u32, l);
            assert((a << l) | b == (a << l) + b) by (bit_vector)
                requires
                    l < 32u32,
                    b < (1u32 << l),
            ;
        }
    }
    (a << l) | b
}

/// Number of leading 9-bit heightmap fields kept once the all-zero fields at
/// the stream's tail are discarded.
pub open spec fn hm_kept(words: Seq<i64>, n: nat) -> nat
    decreases n,
{
    if n == 0 {
        0
    } else if aligned_field(words, 9, (n - 1) as nat) == 0 {
        hm_kept(words, (n - 1) as nat)
    } else {
        n
    }
}

/// Decodes a packed heightmap long-array: each word holds seven 9-bit
/// fields under the word-aligned layout (63 usable bits per word), all-zero
/// fields at the stream's tail are padding and are discarded, and a field
/// value `v` is the world height `v - 64 - 1`.
pub fn unpack_heightmap(words: &Vec<i64>) -> (r: Result<Vec<i32>, AnvilError>)
    ensures
        (words@.len() * 7 <= usize::MAX) <==> (r is Ok),
        r matches Ok(h) ==> {
            &&& h@.len() == hm_kept(words@, words@.len() * 7)
            &&& forall|k: int|
                0 <= k < h@.len() ==> h@[k] == aligned_field(words@, 9, k as nat) - 65
        },
        r matches Err(e) ==> e == AnvilError::Truncated,
{
    if words.len() > usize::MAX / 7 {
        proof {
            assert(words@.len() * 7 > usize::MAX) by (nonlinear_arith)
                requires
                    words@.len() > (usize::MAX as int) / 7,
            ;
        }
        return Err(AnvilError::Truncated);
    }
    let total: usize = words.len() * 7;
    let mut m: usize = total;
    let mut stop: bool = false;
    while m > 0 && !stop
        invariant
            m <= total,
            total == words@.len() * 7,
            hm_kept(words@, total as nat) == hm_kept(words@, m as nat),
            stop ==> (m > 0 && aligned_field(words@, 9, (m - 1) as nat) != 0),
        decreases m + (if stop {
            0int
        } else {
            1int
        }),
    {
        proof {
            lemma_multiply_divide_lt(m as int - 1, 7, words@.len() as int);
        }
        let f: u64 = aligned_read(words, 9, m - 1);
        if f == 0 {
            m = m - 1;
        } else {
            stop = true;
        }
    }
    let kept: usize = m;
    let mut heights: Vec<i32> = Vec::new();
    let mut k: usize = 0;
    while k < kept
        invariant
            kept <= total,
            total == words@.len() * 7,
            heights@.len() == k,
            k <= kept,
            forall|kk: int|
                0 <= kk < k ==> heights@[kk] == aligned_field(words@, 9, kk as nat) - 65,
        decreases kept - k,
    {
        proof {
            lemma_multiply_divide_lt(k as int, 7, words@.len() as int);
            lemma2_to64();
            lemma_pow2_pos(9);
            lemma_mod_division_less_than_divisor(
                (word_bits(words@, (k as int) / 7) / pow2(((k as nat) % 7) * 9)) as int,
                pow2(9) as int,
            );
        }
        let f: u64 = aligned_read(words, 9, k);
        heights.push((f as i32) - 65);
        k = k + 1;
    }
    Ok(heights)
}

} // verus!


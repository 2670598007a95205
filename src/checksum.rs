//! The internet checksum (RFC 1071): a one's-complement sum of 16-bit
//! big-endian words, with carries folded back into the low 16 bits.
use vstd::prelude::*;

verus! {

/// The 16-bit big-endian word with high byte `hi` and low byte `lo`.
pub open spec fn word_of(hi: u8, lo: u8) -> nat {
    hi as nat * 256 + lo as nat
}

/// The 16-bit big-endian word stored at bytes `i` and `i + 1` of `s`.
pub open spec fn word_at(s: Seq<u8>, i: int) -> nat {
    word_of(s[i], s[i + 1])
}

/// Plain sum of the 16-bit big-endian words of `s`; an odd trailing byte is
/// the high byte of a last word whose low byte is zero.
pub open spec fn word_sum(s: Seq<u8>) -> nat
    decreases s.len(),
{
    if s.len() == 0 {
        0
    } else if s.len() == 1 {
        word_of(s[0], 0)
    } else {
        word_of(s[0], s[1]) + word_sum(s.subrange(2, s.len() as int))
    }
}

/// Adds the bits above the low 16 into the low 16, until none are left.
pub open spec fn fold_carries(x: nat) -> nat
    decreases x,
{
    if x < 0x10000 {
        x
    } else {
        fold_carries(x / 0x10000 + x % 0x10000)
    }
}

/// The internet checksum of `s`: the complement of its folded word sum.
pub open spec fn checksum_of(s: Seq<u8>) -> u16 {
    (0xffff - fold_carries(word_sum(s))) as u16
}

/// Folding leaves zero at zero, and otherwise the value in `1..=0xffff` that is
/// congruent to `x` modulo `0xffff`.
pub proof fn lemma_fold_carries_value(x: nat)
    ensures
        fold_carries(x) == (if x == 0 { 0 } else { ((x - 1) as nat % 0xffff) + 1 }),
    decreases x,
{
    if x >= 0x10000 {
        let q = x / 0x10000;
        let y = q + x % 0x10000;
        assert(x == q * 0x10000 + x % 0x10000);
        assert(y >= 1);
        lemma_fold_carries_value(y);
        assert((x - 1) as nat == (y - 1) as nat + q * 0xffff);
        vstd::arithmetic::div_mod::lemma_mod_multiples_vanish(q as int, (y - 1) as int, 0xffff);
    }
}

/// The word sum of a concatenation is the sum of the parts' word sums when
/// the first part has an even length.
pub proof fn lemma_word_sum_concat(a: Seq<u8>, b: Seq<u8>)
    requires
        a.len() % 2 == 0,
    ensures
        word_sum(a + b) == word_sum(a) + word_sum(b),
    decreases a.len(),
{
    if a.len() == 0 {
        assert(a + b =~= b);
    } else {
        let t = a.subrange(2, a.len() as int);
        assert((a + b).subrange(2, (a + b).len() as int) =~= t + b);
        lemma_word_sum_concat(t, b);
    }
}

/// The word sum of `s[lo..i + 2]` adds the word at `i` to that of `s[lo..i]`.
proof fn lemma_word_sum_step(s: Seq<u8>, lo: int, i: int)
    requires
        0 <= lo <= i,
        i + 2 <= s.len(),
        (i - lo) % 2 == 0,
    ensures
        word_sum(s.subrange(lo, i + 2)) == word_sum(s.subrange(lo, i)) + word_of(s[i], s[i + 1]),
{
    let a = s.subrange(lo, i);
    let b = s.subrange(i, i + 2);
    assert(s.subrange(lo, i + 2) =~= a + b);
    lemma_word_sum_concat(a, b);
    assert(b.subrange(2, 2) =~= Seq::<u8>::empty());
    assert(word_sum(Seq::<u8>::empty()) == 0);
    assert(b[0] == s[i] && b[1] == s[i + 1]);
    assert(word_sum(b) == word_of(s[i], s[i + 1]));
}

/// The word sum of `s[lo..i + 1]`, for a last odd byte at `i`.
proof fn lemma_word_sum_last(s: Seq<u8>, lo: int, i: int)
    requires
        0 <= lo <= i,
        i + 1 <= s.len(),
        (i - lo) % 2 == 0,
    ensures
        word_sum(s.subrange(lo, i + 1)) == word_sum(s.subrange(lo, i)) + word_of(s[i], 0),
{
    let a = s.subrange(lo, i);
    let b = s.subrange(i, i + 1);
    assert(s.subrange(lo, i + 1) =~= a + b);
    lemma_word_sum_concat(a, b);
    assert(b[0] == s[i]);
    assert(word_sum(b) == word_of(s[i], 0));
}

/// A sequence of odd length sums, and so checksums, as if it were padded
/// with one zero byte.
pub proof fn lemma_odd_length_padding(s: Seq<u8>)
    requires
        s.len() % 2 == 1,
    ensures
        word_sum(s.push(0)) == word_sum(s),
        checksum_of(s.push(0)) == checksum_of(s),
{
    let n = s.len() as int;
    let a = s.subrange(0, n - 1);
    let one = s.subrange(n - 1, n);
    let two = seq![s[n - 1], 0u8];
    assert(s =~= a + one);
    assert(s.push(0) =~= a + two);
    lemma_word_sum_concat(a, one);
    lemma_word_sum_concat(a, two);
    assert(two.subrange(2, 2) =~= Seq::<u8>::empty());
    assert(word_sum(two) == word_of(s[n - 1], 0) + word_sum(two.subrange(2, 2)));
    assert(word_sum(one) == word_of(s[n - 1], 0));
}

/// Folding after a partial fold gives what folding the whole sum gives.
pub proof fn lemma_fold_carries_absorbs(a: nat, b: nat)
    ensures
        fold_carries(fold_carries(a) + b) == fold_carries(a + b),
{
    lemma_fold_carries_value(a);
    lemma_fold_carries_value(a + b);
    let fa = fold_carries(a);
    lemma_fold_carries_value(fa + b);
    if a != 0 {
        let q = (a - 1) as nat / 0xffff;
        assert((a - 1) as nat == q * 0xffff + (a - 1) as nat % 0xffff);
        assert((a + b - 1) as nat == (fa + b - 1) as nat + q * 0xffff);
        vstd::arithmetic::div_mod::lemma_mod_multiples_vanish(q as int, (fa + b - 1) as int, 0xffff);
    }
}

/// Folds the carries of a 32-bit accumulator: while its high 16 bits are not
/// zero, they are added into its low 16 bits.
pub fn fold_carries_u32(sum: u32) -> (r: u16)
    ensures
        r as nat == fold_carries(sum as nat),
{
    let mut s: u32 = sum;
    while s >> 16u32 != 0
        invariant
            fold_carries(s as nat) == fold_carries(sum as nat),
        decreases s,
    {
        assert(s >> 16u32 == s / 0x10000 && s & 0xffffu32 == s % 0x10000) by (bit_vector);
        s = (s >> 16u32) + (s & 0xffffu32);
    }
    assert(s >> 16u32 == 0 ==> s < 0x10000) by (bit_vector);
    s as u16
}

/// Adds the 16-bit words of `data[lo..hi]` to the folded sum `acc`, folding
/// after each word; an odd last byte counts as a word with a zero low byte.
pub fn sum_words(acc: u16, data: &[u8], lo: usize, hi: usize) -> (r: u16)
    requires
        lo <= hi <= data@.len(),
    ensures
        r as nat == fold_carries(acc as nat + word_sum(data@.subrange(lo as int, hi as int))),
{
    let mut a: u16 = acc;
    let mut i: usize = lo;
    proof {
        assert(data@.subrange(lo as int, lo as int) =~= Seq::<u8>::empty());
        lemma_fold_carries_value(acc as nat);
    }
    while hi - i > 1
        invariant
            lo <= i <= hi,
            hi <= data@.len(),
            (i - lo) % 2 == 0,
            a as nat == fold_carries(acc as nat + word_sum(data@.subrange(lo as int, i as int))),
        decreases hi - i,
    {
        let w: u32 = word(data[i], data[i + 1]);
        proof {
            lemma_word_sum_step(data@, lo as int, i as int);
            lemma_fold_carries_absorbs(acc as nat + word_sum(data@.subrange(lo as int, i as int)), w as nat);
        }
        a = fold_carries_u32(a as u32 + w);
        i = i + 2;
    }
    if i < hi {
        let w: u32 = word(data[i], 0);
        proof {
            lemma_word_sum_last(data@, lo as int, i as int);
            lemma_fold_carries_absorbs(acc as nat + word_sum(data@.subrange(lo as int, i as int)), w as nat);
        }
        a = fold_carries_u32(a as u32 + w);
    }
    a
}

/// The big-endian word made of two bytes.
fn word(hi: u8, lo: u8) -> (r: u32)
    ensures
        r as nat == word_of(hi, lo),
        r <= 0xffff,
{
    let h = hi as u32;
    let l = lo as u32;
    assert(h < 256 && l < 256 ==> (h << 8u32) | l == h * 256 + l && h * 256 + l <= 0xffff)
        by (bit_vector);
    (h << 8u32) | l
}

/// The internet checksum of `data[lo..hi]`.
pub fn checksum_range(data: &[u8], lo: usize, hi: usize) -> (r: u16)
    requires
        lo <= hi <= data@.len(),
    ensures
        r == checksum_of(data@.subrange(lo as int, hi as int)),
{
    let s = sum_words(0, data, lo, hi);
    assert(s <= 0xffff);
    assert(!s == 0xffff - s) by (bit_vector);
    !s
}

/// The internet checksum of all of `data`.
pub fn internet_checksum(data: &[u8]) -> (r: u16)
    ensures
        r == checksum_of(data@),
{
    assert(data@.subrange(0, data@.len() as int) =~= data@);
    checksum_range(data, 0, data.len())
}

} // verus!

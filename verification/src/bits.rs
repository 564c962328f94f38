use vstd::prelude::*;

verus! {

/// Number of bits stored in one word of a bitset.
pub const WORD_SIZE: usize = 64;

/// Whether bit `b` (counted from the least significant end) of `w` is set.
pub open spec fn has_bit(w: u64, b: u64) -> bool {
    b < 64 && (w >> b) & 1u64 == 1u64
}

/// The word that holds bit `index` of a bitset.
pub open spec fn word_of(index: int) -> int {
    index / 64
}

/// The position of bit `index` of a bitset inside its word.
pub open spec fn bit_of(index: int) -> u64 {
    (index % 64) as u64
}

/// The bits of a sequence of words, the first `len` of them, in order.
pub open spec fn bits_of_words(words: Seq<u64>, len: nat) -> Seq<bool> {
    Seq::new(len, |i: int| has_bit(words[word_of(i)], bit_of(i)))
}

/// The number of words needed for `len` bits.
pub open spec fn words_for(len: nat) -> nat {
    ((len + 63) / 64) as nat
}

pub proof fn lemma_or_bit(w: u64, b: u64, c: u64)
    requires
        b < 64,
        c < 64,
    ensures
        has_bit(w | (1u64 << b), c) == (has_bit(w, c) || b == c),
{
    assert(((w | (1u64 << b)) >> c) & 1u64 == 1u64 <==> (((w >> c) & 1u64 == 1u64) || b == c))
        by (bit_vector)
        requires
            b < 64,
            c < 64,
    ;
}

pub proof fn lemma_and_not_bit(w: u64, b: u64, c: u64)
    requires
        b < 64,
        c < 64,
    ensures
        has_bit(w & !(1u64 << b), c) == (has_bit(w, c) && b != c),
{
    assert(((w & !(1u64 << b)) >> c) & 1u64 == 1u64 <==> (((w >> c) & 1u64 == 1u64) && b != c))
        by (bit_vector)
        requires
            b < 64,
            c < 64,
    ;
}

pub proof fn lemma_and_mask_bit(w: u64, b: u64)
    requires
        b < 64,
    ensures
        (w & (1u64 << b) != 0) == has_bit(w, b),
{
    assert((w & (1u64 << b) != 0) <==> ((w >> b) & 1u64 == 1u64)) by (bit_vector)
        requires
            b < 64,
    ;
}

pub proof fn lemma_zero_has_no_bit(c: u64)
    ensures
        !has_bit(0, c),
{
    assert((0u64 >> c) & 1u64 == 0u64) by (bit_vector);
}

/// Where bit `index` of a bitset lives: the index of its word and the mask that selects it.
pub fn locate(index: usize) -> (r: (usize, u64))
    ensures
        r.0 == word_of(index as int),
        r.1 == 1u64 << bit_of(index as int),
        bit_of(index as int) < 64,
{
    let word = index >> 6usize;
    let bit = index & 63usize;
    assert(index >> 6usize == index / 64) by (bit_vector);
    assert(index & 63usize == index % 64) by (bit_vector);
    (word, 1u64 << (bit as u64))
}

/// Whether the bit selected by `mask` is set in `word`.
pub fn masked(word: u64, mask: u64) -> (r: bool)
    ensures
        r == (word & mask != 0),
{
    word & mask != 0
}

/// The number of trailing zero bits of `word`: 64 for zero, else the position of its lowest
/// set bit.
pub fn trailing_zeros(word: u64) -> (r: u64)
    ensures
        r <= 64,
        r < 64 ==> has_bit(word, r),
        forall|j: u64| j < r ==> !has_bit(word, j),
        r == 64 ==> forall|j: u64| !#[trigger] has_bit(word, j),
{
    let mut b: u64 = 0;
    while b < 64 && (word >> b) & 1u64 == 0
        invariant
            b <= 64,
            forall|j: u64| j < b ==> !has_bit(word, j),
        decreases 64 - b,
    {
        b = b + 1;
    }
    if b < 64 {
        assert((word >> b) & 1u64 != 0 ==> (word >> b) & 1u64 == 1u64) by (bit_vector);
    }
    b
}

} // verus!

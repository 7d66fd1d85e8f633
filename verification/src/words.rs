use vstd::prelude::*;

verus! {

/// The message parameter that carries an unsigned machine word.
#[derive(Clone, Copy, PartialEq, Eq, Debug)]
pub struct WPARAM(pub usize);

/// The message parameter that carries a signed machine word.
#[derive(Clone, Copy, PartialEq, Eq, Debug)]
pub struct LPARAM(pub isize);

/// Bits 16..32 of a word, read as an unsigned 16-bit number.
pub open spec fn high_word(v: int) -> int {
    (v / 0x10000) % 0x10000
}

/// Bits 0..16 of a word, read as an unsigned 16-bit number.
pub open spec fn low_word(v: int) -> int {
    v % 0x10000
}

/// A 16-bit pattern read in two's complement.
pub open spec fn as_signed16(w: int) -> int {
    if w >= 0x8000 { w - 0x10000 } else { w }
}

/// The two halves of a word, put back together, give its low 32 bits.
pub proof fn lemma_halves_rebuild_word(v: int)
    ensures
        high_word(v) * 0x10000 + low_word(v) == v % 0x1_0000_0000,
        0 <= high_word(v) < 0x10000,
        0 <= low_word(v) < 0x10000,
{
    let a = v / 0x10000;
    let r = v % 0x10000;
    let b = a % 0x10000;
    let c = a / 0x10000;
    assert(v == 0x10000 * a + r);
    assert(a == 0x10000 * c + b);
    assert(0 <= r < 0x10000 && 0 <= b < 0x10000);
    assert(v == 0x1_0000_0000 * c + (0x10000 * b + r)) by (nonlinear_arith)
        requires
            v == 0x10000 * a + r,
            a == 0x10000 * c + b,
    ;
    vstd::arithmetic::div_mod::lemma_fundamental_div_mod_converse(
        v,
        0x1_0000_0000,
        c,
        0x10000 * b + r,
    );
}

/// A signed half, read back as 16 unsigned bits, is the unsigned half.
pub proof fn lemma_signed_half_is_unsigned_half(w: int)
    requires
        0 <= w < 0x10000,
    ensures
        -0x8000 <= as_signed16(w) < 0x8000,
        as_signed16(w) % 0x10000 == w,
{
}

/// Splits a message parameter into its two 16-bit halves.
pub trait HiLoWord {
    fn hiword(&self) -> u16;
    fn loword(&self) -> u16;
    fn signed_hiword(&self) -> i16;
    fn signed_loword(&self) -> i16;
}

proof fn lemma_usize_words(v: usize)
    ensures
        (v >> 16usize) & 0xFFFFusize == high_word(v as int),
        v & 0xFFFFusize == low_word(v as int),
{
    assert((v >> 16usize) & 0xFFFFusize == (v / 0x10000usize) % 0x10000usize) by (bit_vector);
    assert(v & 0xFFFFusize == v % 0x10000usize) by (bit_vector);
}

proof fn lemma_signed16(w: usize)
    requires
        w < 0x10000,
    ensures
        (w as i16) as int == as_signed16(w as int),
{
    assert(w < 0x10000usize ==> ((w as i16) as int == if w >= 0x8000usize { w - 0x10000 } else { w as int })) by (bit_vector);
}

proof fn lemma_isize_words(v: isize)
    ensures
        0 <= (v >> 16isize) & 0xFFFFisize < 0x10000,
        0 <= v & 0xFFFFisize < 0x10000,
        ((v >> 16isize) & 0xFFFFisize) as int == high_word(v as int),
        (v & 0xFFFFisize) as int == low_word(v as int),
{
    assert(0 <= (v >> 16isize) & 0xFFFFisize < 0x10000isize) by (bit_vector);
    assert(0 <= v & 0xFFFFisize < 0x10000isize) by (bit_vector);
    assert((v >> 16isize) & 0xFFFFisize == (v >> 16isize) % 0x10000isize) by (bit_vector);
    assert(v & 0xFFFFisize == v % 0x10000isize) by (bit_vector);
    assert(v >> 16isize == v / 0x10000isize) by (bit_vector);
}

impl HiLoWord for WPARAM {
    fn hiword(&self) -> (r: u16)
        ensures
            r as int == high_word(self.0 as int),
    {
        proof { lemma_usize_words(self.0); }
        ((self.0 >> 16) & 0xFFFF) as u16
    }

    fn loword(&self) -> (r: u16)
        ensures
            r as int == low_word(self.0 as int),
    {
        proof { lemma_usize_words(self.0); }
        (self.0 & 0xFFFF) as u16
    }

    fn signed_hiword(&self) -> (r: i16)
        ensures
            r as int == as_signed16(high_word(self.0 as int)),
    {
        proof {
            lemma_usize_words(self.0);
            lemma_signed16((self.0 >> 16) & 0xFFFF);
        }
        ((self.0 >> 16) & 0xFFFF) as i16
    }

    fn signed_loword(&self) -> (r: i16)
        ensures
            r as int == as_signed16(low_word(self.0 as int)),
    {
        proof {
            lemma_usize_words(self.0);
            lemma_signed16(self.0 & 0xFFFF);
        }
        (self.0 & 0xFFFF) as i16
    }
}

proof fn lemma_signed16_of_isize(w: isize)
    requires
        0 <= w < 0x10000,
    ensures
        (w as i16) as int == as_signed16(w as int),
{
    assert(0 <= w < 0x10000isize ==> ((w as i16) as int == if w >= 0x8000isize { w - 0x10000 } else { w as int })) by (bit_vector);
}

impl HiLoWord for LPARAM {
    fn hiword(&self) -> (r: u16)
        ensures
            r as int == high_word(self.0 as int),
    {
        proof { lemma_isize_words(self.0); }
        ((self.0 >> 16) & 0xFFFF) as u16
    }

    fn loword(&self) -> (r: u16)
        ensures
            r as int == low_word(self.0 as int),
    {
        proof { lemma_isize_words(self.0); }
        (self.0 & 0xFFFF) as u16
    }

    fn signed_hiword(&self) -> (r: i16)
        ensures
            r as int == as_signed16(high_word(self.0 as int)),
    {
        proof {
            lemma_isize_words(self.0);
            lemma_signed16_of_isize((self.0 >> 16) & 0xFFFF);
        }
        ((self.0 >> 16) & 0xFFFF) as i16
    }

    fn signed_loword(&self) -> (r: i16)
        ensures
            r as int == as_signed16(low_word(self.0 as int)),
    {
        proof {
            lemma_isize_words(self.0);
            lemma_signed16_of_isize(self.0 & 0xFFFF);
        }
        (self.0 & 0xFFFF) as i16
    }
}

} // verus!

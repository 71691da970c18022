//! Rendezvous codes: fixed-length identifiers over a sixteen-symbol
//! alphabet, generated randomly and collision-checked by the registry.

use vstd::prelude::*;

verus! {

/// Number of symbols in a rendezvous code.
pub const CODE_LEN: usize = 8;

/// The sixteen symbols a rendezvous code is drawn from.
pub open spec fn code_alphabet() -> Seq<char> {
    seq!['0', '1', '2', '3', '4', '5', '6', '7', '8', '9', 'A', 'B', 'C', 'D', 'E', 'F']
}

/// A well-formed rendezvous code: exactly [`CODE_LEN`] symbols, each drawn
/// from [`code_alphabet`].
pub open spec fn is_code(c: Seq<char>) -> bool {
    &&& c.len() == CODE_LEN
    &&& forall|i: int| 0 <= i < c.len() ==> code_alphabet().contains(#[trigger] c[i])
}

/// The alphabet as an executable vector, for handing to the generator.
pub fn make_alphabet() -> (v: Vec<char>)
    ensures
        v@ == code_alphabet(),
{
    let mut v: Vec<char> = Vec::new();
    v.push('0');
    v.push('1');
    v.push('2');
    v.push('3');
    v.push('4');
    v.push('5');
    v.push('6');
    v.push('7');
    v.push('8');
    v.push('9');
    v.push('A');
    v.push('B');
    v.push('C');
    v.push('D');
    v.push('E');
    v.push('F');
    proof {
        assert(v@ =~= code_alphabet());
    }
    v
}

/// Relies on `String::push`: appends the given character to the string.
#[verifier::external_body]
pub(crate) fn push_char(s: &mut String, c: char)
    ensures
        final(s)@ == old(s)@.push(c),
{
    s.push(c);
}

/// Relies on `nanoid::format` with nanoid's default random source: a
/// sixteen-symbol alphabet takes its power-of-two fast path, which returns
/// exactly `len` characters, each taken from `alphabet`.
#[verifier::external_body]
pub(crate) fn random_code(alphabet: &Vec<char>, len: usize) -> (r: String)
    requires
        alphabet@.len() == 16,
    ensures
        r@.len() == len,
        forall|i: int| 0 <= i < r@.len() ==> alphabet@.contains(#[trigger] r@[i]),
{
    nanoid::format(nanoid::rngs::default, alphabet.as_slice(), len)
}

/// The symbol standing for the value `d` of a single base-16 digit.
pub open spec fn hex_digit(d: u32) -> char {
    if d == 0 {
        '0'
    } else if d == 1 {
        '1'
    } else if d == 2 {
        '2'
    } else if d == 3 {
        '3'
    } else if d == 4 {
        '4'
    } else if d == 5 {
        '5'
    } else if d == 6 {
        '6'
    } else if d == 7 {
        '7'
    } else if d == 8 {
        '8'
    } else if d == 9 {
        '9'
    } else if d == 10 {
        'A'
    } else if d == 11 {
        'B'
    } else if d == 12 {
        'C'
    } else if d == 13 {
        'D'
    } else if d == 14 {
        'E'
    } else {
        'F'
    }
}

/// The rendezvous code spelling `k` as eight base-16 digits.  Every value of
/// the code space is reached this way, which makes a free code findable by
/// enumeration whenever the registry is not full.
pub open spec fn hex8(k: u32) -> Seq<char> {
    seq![
        hex_digit((k >> 28) & 0xF),
        hex_digit((k >> 24) & 0xF),
        hex_digit((k >> 20) & 0xF),
        hex_digit((k >> 16) & 0xF),
        hex_digit((k >> 12) & 0xF),
        hex_digit((k >> 8) & 0xF),
        hex_digit((k >> 4) & 0xF),
        hex_digit(k & 0xF),
    ]
}

/// Distinct values spell distinct codes.
pub proof fn lemma_hex8_injective(k1: u32, k2: u32)
    requires
        hex8(k1) == hex8(k2),
    ensures
        k1 == k2,
{
    assert(hex8(k1)[0] == hex8(k2)[0]);
    assert(hex8(k1)[1] == hex8(k2)[1]);
    assert(hex8(k1)[2] == hex8(k2)[2]);
    assert(hex8(k1)[3] == hex8(k2)[3]);
    assert(hex8(k1)[4] == hex8(k2)[4]);
    assert(hex8(k1)[5] == hex8(k2)[5]);
    assert(hex8(k1)[6] == hex8(k2)[6]);
    assert(hex8(k1)[7] == hex8(k2)[7]);
    assert(((k1 >> 28) & 0xF) < 16 && ((k2 >> 28) & 0xF) < 16) by (bit_vector);
    assert(((k1 >> 24) & 0xF) < 16 && ((k2 >> 24) & 0xF) < 16) by (bit_vector);
    assert(((k1 >> 20) & 0xF) < 16 && ((k2 >> 20) & 0xF) < 16) by (bit_vector);
    assert(((k1 >> 16) & 0xF) < 16 && ((k2 >> 16) & 0xF) < 16) by (bit_vector);
    assert(((k1 >> 12) & 0xF) < 16 && ((k2 >> 12) & 0xF) < 16) by (bit_vector);
    assert(((k1 >> 8) & 0xF) < 16 && ((k2 >> 8) & 0xF) < 16) by (bit_vector);
    assert(((k1 >> 4) & 0xF) < 16 && ((k2 >> 4) & 0xF) < 16) by (bit_vector);
    assert((k1 & 0xF) < 16 && (k2 & 0xF) < 16) by (bit_vector);
    assert((k1 >> 28) & 0xF == (k2 >> 28) & 0xF);
    assert((k1 >> 24) & 0xF == (k2 >> 24) & 0xF);
    assert((k1 >> 20) & 0xF == (k2 >> 20) & 0xF);
    assert((k1 >> 16) & 0xF == (k2 >> 16) & 0xF);
    assert((k1 >> 12) & 0xF == (k2 >> 12) & 0xF);
    assert((k1 >> 8) & 0xF == (k2 >> 8) & 0xF);
    assert((k1 >> 4) & 0xF == (k2 >> 4) & 0xF);
    assert(k1 & 0xF == k2 & 0xF);
    assert(((k1 >> 28) & 0xF == (k2 >> 28) & 0xF && (k1 >> 24) & 0xF == (k2 >> 24) & 0xF
        && (k1 >> 20) & 0xF == (k2 >> 20) & 0xF && (k1 >> 16) & 0xF == (k2 >> 16) & 0xF && (k1
        >> 12) & 0xF == (k2 >> 12) & 0xF && (k1 >> 8) & 0xF == (k2 >> 8) & 0xF && (k1 >> 4) & 0xF
        == (k2 >> 4) & 0xF && k1 & 0xF == k2 & 0xF) ==> k1 == k2) by (bit_vector);
}

/// Every base-16 digit's symbol stands in the alphabet.
pub proof fn lemma_alphabet_digit(d: u32)
    requires
        d < 16,
    ensures
        code_alphabet().contains(hex_digit(d)),
{
    assert(code_alphabet()[d as int] == hex_digit(d));
}

/// A spelled-out value is a well-formed code.
pub proof fn lemma_hex8_is_code(k: u32)
    ensures
        is_code(hex8(k)),
{
    assert(((k >> 28) & 0xF) < 16) by (bit_vector);
    assert(((k >> 24) & 0xF) < 16) by (bit_vector);
    assert(((k >> 20) & 0xF) < 16) by (bit_vector);
    assert(((k >> 16) & 0xF) < 16) by (bit_vector);
    assert(((k >> 12) & 0xF) < 16) by (bit_vector);
    assert(((k >> 8) & 0xF) < 16) by (bit_vector);
    assert(((k >> 4) & 0xF) < 16) by (bit_vector);
    assert((k & 0xF) < 16) by (bit_vector);
    assert forall|i: int| 0 <= i < hex8(k).len() implies code_alphabet().contains(
        #[trigger] hex8(k)[i],
    ) by {
        if i == 0 {
            lemma_alphabet_digit((k >> 28) & 0xF);
        } else if i == 1 {
            lemma_alphabet_digit((k >> 24) & 0xF);
        } else if i == 2 {
            lemma_alphabet_digit((k >> 20) & 0xF);
        } else if i == 3 {
            lemma_alphabet_digit((k >> 16) & 0xF);
        } else if i == 4 {
            lemma_alphabet_digit((k >> 12) & 0xF);
        } else if i == 5 {
            lemma_alphabet_digit((k >> 8) & 0xF);
        } else if i == 6 {
            lemma_alphabet_digit((k >> 4) & 0xF);
        } else {
            lemma_alphabet_digit(k & 0xF);
        }
    }
}

/// The value `d` of a single base-16 digit as its symbol.
pub(crate) fn hex_digit_exec(d: u32) -> (c: char)
    requires
        d < 16,
    ensures
        c == hex_digit(d),
{
    if d == 0 {
        '0'
    } else if d == 1 {
        '1'
    } else if d == 2 {
        '2'
    } else if d == 3 {
        '3'
    } else if d == 4 {
        '4'
    } else if d == 5 {
        '5'
    } else if d == 6 {
        '6'
    } else if d == 7 {
        '7'
    } else if d == 8 {
        '8'
    } else if d == 9 {
        '9'
    } else if d == 10 {
        'A'
    } else if d == 11 {
        'B'
    } else if d == 12 {
        'C'
    } else if d == 13 {
        'D'
    } else if d == 14 {
        'E'
    } else {
        'F'
    }
}

/// Spell `k` as an eight-digit rendezvous code.
pub fn hex8_exec(k: u32) -> (s: String)
    ensures
        s@ == hex8(k),
{
    assert(((k >> 28) & 0xF) < 16) by (bit_vector);
    assert(((k >> 24) & 0xF) < 16) by (bit_vector);
    assert(((k >> 20) & 0xF) < 16) by (bit_vector);
    assert(((k >> 16) & 0xF) < 16) by (bit_vector);
    assert(((k >> 12) & 0xF) < 16) by (bit_vector);
    assert(((k >> 8) & 0xF) < 16) by (bit_vector);
    assert(((k >> 4) & 0xF) < 16) by (bit_vector);
    assert((k & 0xF) < 16) by (bit_vector);
    let mut s = String::new();
    push_char(&mut s, hex_digit_exec((k >> 28) & 0xF));
    push_char(&mut s, hex_digit_exec((k >> 24) & 0xF));
    push_char(&mut s, hex_digit_exec((k >> 20) & 0xF));
    push_char(&mut s, hex_digit_exec((k >> 16) & 0xF));
    push_char(&mut s, hex_digit_exec((k >> 12) & 0xF));
    push_char(&mut s, hex_digit_exec((k >> 8) & 0xF));
    push_char(&mut s, hex_digit_exec((k >> 4) & 0xF));
    push_char(&mut s, hex_digit_exec(k & 0xF));
    proof {
        assert(s@ =~= hex8(k));
    }
    s
}

} // verus!

//! The randomized base-62 codec for share transport.
//!
//! Encoding prefixes the payload with ten bytes — a fixed marker byte of one
//! followed by nine random bytes — reads the whole as one big-endian number
//! and writes that number in base 62, least significant digit first.  The
//! random prefix makes every encoding of the same payload different;
//! decoding reverses the digits, rebuilds the number, writes it back as
//! bytes and drops the ten-byte prefix.

use vstd::arithmetic::div_mod::lemma_fundamental_div_mod;
use vstd::arithmetic::div_mod::lemma_fundamental_div_mod_converse;
use vstd::prelude::*;

use crate::error::SsssError;

verus! {

pub const B62_ALPHABET: [char; 62] = [
    '0', '1', '2', '3', '4', '5', '6', '7', '8', '9', 'A', 'B', 'C', 'D', 'E', 'F', 'G', 'H', 'I',
    'J', 'K', 'L', 'M', 'N', 'O', 'P', 'Q', 'R', 'S', 'T', 'U', 'V', 'W', 'X', 'Y', 'Z', 'a', 'b',
    'c', 'd', 'e', 'f', 'g', 'h', 'i', 'j', 'k', 'l', 'm', 'n', 'o', 'p', 'q', 'r', 's', 't', 'u',
    'v', 'w', 'x', 'y', 'z',
];

/// Whether a character belongs to the base-62 alphabet.
pub open spec fn is_b62_char(c: char) -> bool {
    ('0' as u32 <= c as u32 && c as u32 <= '9' as u32) || ('A' as u32 <= c as u32 && c as u32
        <= 'Z' as u32) || ('a' as u32 <= c as u32 && c as u32 <= 'z' as u32)
}

/// The digit value of a base-62 character.
pub open spec fn b62_digit(c: char) -> nat {
    if '0' as u32 <= c as u32 && c as u32 <= '9' as u32 {
        (c as u32 - '0' as u32) as nat
    } else if 'A' as u32 <= c as u32 && c as u32 <= 'Z' as u32 {
        (c as u32 - 'A' as u32 + 10) as nat
    } else if 'a' as u32 <= c as u32 && c as u32 <= 'z' as u32 {
        (c as u32 - 'a' as u32 + 36) as nat
    } else {
        0
    }
}

/// The number written by a digit string, least significant digit first.
pub open spec fn b62_value(s: Seq<char>) -> nat
    decreases s.len(),
{
    if s.len() == 0 {
        0
    } else {
        b62_digit(s[0]) + 62 * b62_value(s.skip(1))
    }
}

/// Powers of 62.
pub open spec fn pow62(n: nat) -> nat
    decreases n,
{
    if n == 0 {
        1
    } else {
        62 * pow62((n - 1) as nat)
    }
}

/// The number read from a byte sequence in big-endian order.
pub open spec fn be_value(b: Seq<u8>) -> nat
    decreases b.len(),
{
    if b.len() == 0 {
        0
    } else {
        be_value(b.drop_last()) * 256 + b.last() as nat
    }
}

/// The shortest big-endian byte sequence writing a number, a single zero
/// byte for zero.
pub open spec fn min_be_bytes(v: nat) -> Seq<u8>
    decreases v,
{
    if v < 256 {
        seq![v as u8]
    } else {
        min_be_bytes(v / 256).push((v % 256) as u8)
    }
}

/// What decoding computes from a digit string whose characters are all in
/// the alphabet: the bytes of its number with the ten prefix bytes dropped.
pub open spec fn decode_spec(s: Seq<char>) -> Seq<u8> {
    if s.len() == 0 {
        Seq::empty()
    } else {
        let m = min_be_bytes(b62_value(s));
        if m.len() >= 10 {
            m.skip(10)
        } else {
            Seq::empty()
        }
    }
}

/// The digit string `s` writes the number read from a marker byte of one,
/// the given nine-byte random pad and then the payload.
pub open spec fn encoding_with_pad(s: Seq<char>, bytes: Seq<u8>, pad: Seq<u8>) -> bool {
    pad.len() == 9 && b62_value(s) == be_value(seq![1u8] + pad + bytes)
}

/// The digit string `s` is a possible encoding of the payload `bytes`: all
/// characters are alphabet digits, the most significant digit is non-zero,
/// and some nine-byte pad completes the prefixed number.
pub open spec fn is_b62_encoding_of(s: Seq<char>, bytes: Seq<u8>) -> bool {
    s.len() > 0 && (forall|i: int| 0 <= i < s.len() ==> is_b62_char(#[trigger] s[i])) && b62_digit(
        s.last(),
    ) != 0 && (exists|pad: Seq<u8>| #[trigger] encoding_with_pad(s, bytes, pad))
}

/// The position of the first character outside the alphabet.
pub open spec fn first_invalid(s: Seq<char>) -> int
    decreases s.len(),
{
    if s.len() == 0 {
        0
    } else if !is_b62_char(s[0]) {
        0
    } else {
        1 + first_invalid(s.skip(1))
    }
}

#[verifier::rlimit(50)]
proof fn lemma_alphabet()
    ensures
        forall|d: int|
            0 <= d < 62 ==> is_b62_char(#[trigger] B62_ALPHABET@[d]) && b62_digit(
                B62_ALPHABET@[d],
            ) == d,
{
}

proof fn lemma_first_invalid(s: Seq<char>, i: int)
    requires
        0 <= i < s.len(),
        forall|j: int| 0 <= j < i ==> is_b62_char(#[trigger] s[j]),
        !is_b62_char(s[i]),
    ensures
        first_invalid(s) == i,
    decreases i,
{
    if i > 0 {
        lemma_first_invalid(s.skip(1), i - 1);
    }
}

/// Appending a digit adds its value at the next power of the base.
proof fn lemma_b62_value_snoc(s: Seq<char>, c: char)
    ensures
        b62_value(s.push(c)) == b62_value(s) + b62_digit(c) * pow62(s.len()),
    decreases s.len(),
{
    if s.len() == 0 {
        assert(s.push(c).skip(1) =~= Seq::<char>::empty());
        assert(s.push(c)[0] == c);
        assert(b62_value(Seq::<char>::empty()) == 0);
        assert(b62_value(s.push(c)) == b62_digit(c) + 62 * 0);
        assert(pow62(s.len()) == 1);
    } else {
        lemma_b62_value_snoc(s.skip(1), c);
        assert(s.push(c).skip(1) =~= s.skip(1).push(c));
        assert(s.push(c)[0] == s[0]);
        let tail = b62_value(s.skip(1));
        let d = b62_digit(c);
        let p = pow62((s.len() - 1) as nat);
        assert(b62_value(s.push(c)) == b62_digit(s[0]) + 62 * (tail + d * p));
        assert(62 * (tail + d * p) == 62 * tail + d * (62 * p)) by (nonlinear_arith);
        assert(pow62(s.len()) == 62 * pow62((s.len() - 1) as nat));
        assert(b62_value(s) == b62_digit(s[0]) + 62 * tail);
    }
}

/// A byte sequence with a non-zero first byte reads as a positive number.
proof fn lemma_be_value_positive(b: Seq<u8>)
    requires
        b.len() > 0,
        b[0] != 0,
    ensures
        be_value(b) >= 1,
    decreases b.len(),
{
    if b.len() == 1 {
        assert(b.drop_last() =~= Seq::<u8>::empty());
    } else {
        lemma_be_value_positive(b.drop_last());
        assert(b.drop_last()[0] == b[0]);
    }
}

/// Writing back the number read from a byte sequence with a non-zero first
/// byte recovers exactly that sequence.
proof fn lemma_min_be_of_be(b: Seq<u8>)
    requires
        b.len() > 0,
        b[0] != 0,
    ensures
        min_be_bytes(be_value(b)) == b,
    decreases b.len(),
{
    if b.len() == 1 {
        assert(b.drop_last() =~= Seq::<u8>::empty());
        assert(be_value(b) == b[0]);
        assert(min_be_bytes(be_value(b)) =~= b);
    } else {
        let w = be_value(b.drop_last());
        let last = b.last();
        lemma_be_value_positive(b.drop_last());
        assert(be_value(b) == w * 256 + last);
        assert(w * 256 >= 256) by (nonlinear_arith)
            requires
                w >= 1,
        ;
        lemma_fundamental_div_mod_converse(be_value(b) as int, 256, w as int, last as int);
        lemma_min_be_of_be(b.drop_last());
        assert(min_be_bytes(be_value(b)) =~= b);
    }
}

/// Decoding recovers exactly the payload from any possible encoding of it.
pub proof fn lemma_codec_round_trip(s: Seq<char>, bytes: Seq<u8>)
    requires
        is_b62_encoding_of(s, bytes),
    ensures
        decode_spec(s) == bytes,
{
    let pad = choose|pad: Seq<u8>| #[trigger] encoding_with_pad(s, bytes, pad);
    let input = seq![1u8] + pad + bytes;
    assert(input.len() == 10 + bytes.len());
    assert(input[0] == 1);
    lemma_min_be_of_be(input);
    assert(min_be_bytes(b62_value(s)) == input);
    assert(input.skip(10) =~= bytes);
}

/// The base-62 digit of one character: the digit classes are the decimal
/// digits, the upper-case letters from ten, and the lower-case letters from
/// thirty-six; everything else is rejected.
pub fn char_to_remainder(c: char) -> (r: Result<u64, SsssError>)
    ensures
        match r {
            Ok(d) => is_b62_char(c) && d as nat == b62_digit(c) && d < 62,
            Err(e) => !is_b62_char(c) && e == (SsssError::BadCharacter { c }),
        },
{
    let u: u32 = c as u32;
    if '0' as u32 <= u && u <= '9' as u32 {
        Ok((u - '0' as u32) as u64)
    } else if 'A' as u32 <= u && u <= 'Z' as u32 {
        Ok((u - 'A' as u32 + 10) as u64)
    } else if 'a' as u32 <= u && u <= 'z' as u32 {
        Ok((u - 'a' as u32 + 36) as u64)
    } else {
        Err(SsssError::BadCharacter { c })
    }
}

/// Encode a byte sequence as a randomized base-62 digit string.  The empty
/// sequence encodes as the empty string; any other encodes as a digit
/// string of its number behind a fresh random prefix, so that repeated
/// calls on the same bytes yield different strings.
pub fn encode(bytes: &[u8]) -> (r: String)
    ensures
        bytes@.len() == 0 ==> r@.len() == 0,
        bytes@.len() > 0 ==> is_b62_encoding_of(r@, bytes@),
{
    if bytes.len() == 0 {
        return String::new();
    }
    let mut rng = crate::rng::new_rng();
    let nonce = crate::rng::fill_random_bytes(&mut rng, 10);
    let ghost pad = nonce@.skip(1);
    let mut input: Vec<u8> = Vec::new();
    input.push(1);
    let mut k: usize = 1;
    while k < 10
        invariant
            1 <= k <= 10,
            nonce@.len() == 10,
            input@.len() == k,
            input@ =~= seq![1u8] + nonce@.subrange(1, k as int),
        decreases 10 - k,
    {
        input.push(nonce[k]);
        proof {
            assert(input@ =~= seq![1u8] + nonce@.subrange(1, k as int + 1));
        }
        k += 1;
    }
    let mut m: usize = 0;
    while m < bytes.len()
        invariant
            m <= bytes@.len(),
            nonce@.len() == 10,
            pad == nonce@.skip(1),
            input@ =~= seq![1u8] + pad + bytes@.subrange(0, m as int),
        decreases bytes@.len() - m,
    {
        input.push(bytes[m]);
        proof {
            assert(input@ =~= seq![1u8] + pad + bytes@.subrange(0, m as int + 1));
        }
        m += 1;
    }
    proof {
        assert(input@ =~= seq![1u8] + pad + bytes@);
        lemma_be_value_positive(input@);
    }
    let mut val = crate::bigint::big_from_bytes_be(input.as_slice());
    let ghost v0 = crate::bigint::big_val(val);
    let mut digits: Vec<char> = Vec::new();
    proof {
        assert(b62_value(digits@) == 0);
        assert(pow62(0) == 1);
    }
    while !crate::bigint::big_is_zero(&val)
        invariant
            v0 == b62_value(digits@) + crate::bigint::big_val(val) * pow62(digits@.len()),
            forall|i: int| 0 <= i < digits@.len() ==> is_b62_char(#[trigger] digits@[i]),
            crate::bigint::big_val(val) == 0 && digits@.len() > 0 ==> b62_digit(digits@.last())
                != 0,
        decreases crate::bigint::big_val(val),
    {
        let ghost v = crate::bigint::big_val(val);
        let ghost prev = digits@;
        let ghost len = digits@.len();
        let (q, d) = crate::bigint::big_div_rem(val, 62);
        let ghost qv = crate::bigint::big_val(q);
        proof {
            lemma_fundamental_div_mod(v as int, 62);
            assert(v == 62 * qv + d);
            assert(qv < v);
            lemma_alphabet();
        }
        digits.push(B62_ALPHABET[d as usize]);
        val = q;
        proof {
            let c = B62_ALPHABET@[d as int];
            assert(digits@ == prev.push(c));
            lemma_b62_value_snoc(prev, c);
            assert(b62_value(digits@) == b62_value(prev) + d * pow62(len));
            assert((62 * qv + d as nat) * pow62(len) == d * pow62(len) + qv * (62 * pow62(len)))
                by (nonlinear_arith);
            assert(pow62(len + 1) == 62 * pow62(len));
            assert(v * pow62(len) == d * pow62(len) + qv * pow62(len + 1));
            if qv == 0 {
                assert(d != 0);
                assert(digits@.last() == c);
            }
        }
    }
    proof {
        if digits@.len() == 0 {
            assert(v0 == 0);
            assert(false);
        }
        assert(b62_value(digits@) == v0) by {
            assert(crate::bigint::big_val(val) * pow62(digits@.len()) == 0) by (nonlinear_arith)
                requires
                    crate::bigint::big_val(val) == 0,
            ;
        }
        assert(encoding_with_pad(digits@, bytes@, pad));
    }
    crate::text::string_from_chars(&digits)
}

/// Decode a base-62 digit string back to the bytes it carries: the digits
/// are read into a number, the number written as its shortest big-endian
/// byte sequence, and the ten prefix bytes dropped.  The empty string
/// decodes to the empty sequence; a character outside the alphabet is
/// rejected.
pub fn decode(input: &str) -> (r: Result<Vec<u8>, SsssError>)
    ensures
        match r {
            Ok(b) => (forall|i: int| 0 <= i < input@.len() ==> is_b62_char(#[trigger] input@[i]))
                && b@ == decode_spec(input@),
            Err(e) => {
                &&& !(forall|i: int|
                    0 <= i < input@.len() ==> is_b62_char(#[trigger] input@[i]))
                &&& e == (SsssError::BadCharacter { c: input@[first_invalid(input@)] })
            },
        },
{
    let n: usize = input.unicode_len();
    let mut digits: Vec<u64> = Vec::new();
    let mut i: usize = 0;
    while i < n
        invariant
            i <= n,
            n == input@.len(),
            digits@.len() == i,
            forall|j: int|
                0 <= j < i ==> is_b62_char(#[trigger] input@[j]) && digits@[j] as nat
                    == b62_digit(input@[j]),
        decreases n - i,
    {
        let c = input.get_char(i);
        match char_to_remainder(c) {
            Ok(d) => {
                digits.push(d);
            },
            Err(e) => {
                proof {
                    lemma_first_invalid(input@, i as int);
                }
                return Err(e);
            },
        }
        i += 1;
    }
    if n == 0 {
        return Ok(Vec::new());
    }
    let mut val = crate::bigint::big_from_u64(0);
    let mut k: usize = n;
    proof {
        assert(input@.skip(n as int) =~= Seq::<char>::empty());
    }
    while k > 0
        invariant
            k <= n,
            n == input@.len(),
            digits@.len() == n,
            forall|j: int|
                0 <= j < n ==> is_b62_char(#[trigger] input@[j]) && digits@[j] as nat
                    == b62_digit(input@[j]),
            crate::bigint::big_val(val) == b62_value(input@.skip(k as int)),
        decreases k,
    {
        k -= 1;
        let t = crate::bigint::big_mul_u64(val, 62);
        val = crate::bigint::big_add_u64(t, digits[k]);
        proof {
            assert(input@.skip(k as int).skip(1) =~= input@.skip(k as int + 1));
            assert(input@.skip(k as int)[0] == input@[k as int]);
        }
    }
    proof {
        assert(input@.skip(0) =~= input@);
    }
    let bytes = crate::bigint::big_to_bytes_be(&val);
    let mut out: Vec<u8> = Vec::new();
    if bytes.len() >= 10 {
        let mut t: usize = 10;
        while t < bytes.len()
            invariant
                10 <= t <= bytes@.len(),
                out@ =~= bytes@.subrange(10, t as int),
            decreases bytes@.len() - t,
        {
            out.push(bytes[t]);
            proof {
                assert(out@ =~= bytes@.subrange(10, t as int + 1));
            }
            t += 1;
        }
        proof {
            assert(out@ =~= bytes@.skip(10));
        }
    }
    Ok(out)
}

} // verus!

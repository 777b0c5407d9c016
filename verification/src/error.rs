//! The closed set of failures the library can report.

use vstd::prelude::*;

verus! {

/// Every failure raised by configuration validation, by secret validation,
/// by share-set validation and by the share codec.
#[derive(Clone, Copy, Debug, PartialEq, Eq, Structural)]
pub enum SsssError {
    /// The configured threshold is zero.
    ThresholdZero,
    /// The configured number of shares is zero.
    SharesZero,
    /// The configured threshold exceeds the configured number of shares.
    ThresholdTooLow { threshold: u8, shares: u8 },
    /// The secret to split is empty.
    EmptySecret,
    /// The secret to split is longer than the configured maximum.
    SecretLength { length: usize, max: usize },
    /// No share could be decoded at all.
    EmptySharesMap,
    /// The decoded shares carry an empty payload.
    EmptyShare,
    /// The decoded shares carry payloads of differing lengths.
    ShareLengthMismatch,
    /// A share token does not consist of two encoded parts.
    InvalidShareFormat,
    /// A share token holds a character outside the base-62 alphabet.
    BadCharacter { c: char },
    /// A share index does not fit in a single byte once one-based.
    IndexOutOfRange { index: usize },
}

pub const DEC_DIGITS: [char; 10] = ['0', '1', '2', '3', '4', '5', '6', '7', '8', '9'];

/// The character for one decimal digit.
pub open spec fn dec_digit_char(d: int) -> char {
    DEC_DIGITS@[d]
}

/// The decimal text of a non-negative number, most significant digit first.
pub open spec fn dec_digits(n: int) -> Seq<char>
    decreases n,
{
    if n < 10 {
        seq![dec_digit_char(if n < 0 {
            0
        } else {
            n % 10
        })]
    } else {
        dec_digits(n / 10).push(dec_digit_char(n % 10))
    }
}

/// Append the decimal text of `n` to a character vector.
fn push_dec_digits(n: u64, out: &mut Vec<char>)
    ensures
        final(out)@ == old(out)@ + dec_digits(n as int),
    decreases n,
{
    if n >= 10 {
        push_dec_digits(n / 10, out);
    }
    out.push(DEC_DIGITS[(n % 10) as usize]);
    proof {
        assert(out@ =~= old(out)@ + dec_digits(n as int));
    }
}

/// Append the decimal text of `n` to a string.
fn append_dec(s: &mut String, n: u64)
    ensures
        final(s)@ == old(s)@ + dec_digits(n as int),
{
    let mut v: Vec<char> = Vec::new();
    push_dec_digits(n, &mut v);
    let t = crate::text::string_from_chars(&v);
    s.append(t.as_str());
}

impl SsssError {
    /// The text that describes this error.
    pub open spec fn spec_message(self) -> Seq<char> {
        match self {
            SsssError::ThresholdZero => "The threshold must be greater than 0"@,
            SsssError::SharesZero => "The number of shares must be greater than 0"@,
            SsssError::ThresholdTooLow { threshold, shares } => {
                "You have specified an invalid threshold.  It must be less than or equal to the number of shares. ("@
                    + dec_digits(threshold as int) + " is not <= "@ + dec_digits(shares as int)
                    + ")"@
            },
            SsssError::EmptySecret => "The secret cannot be empty"@,
            SsssError::SecretLength { length, max } => {
                "The secret length '"@ + dec_digits(length as int)
                    + "' is longer than the maximum allowed '"@ + dec_digits(max as int) + "'"@
            },
            SsssError::EmptySharesMap => "The shares map cannot be empty"@,
            SsssError::EmptyShare => "A share cannot be empty"@,
            SsssError::ShareLengthMismatch => "The shares must be the same length"@,
            SsssError::InvalidShareFormat => "The share format is invalid"@,
            SsssError::BadCharacter { c } => {
                "The character '"@ + seq![c] + "' is not a valid base62 character"@
            },
            SsssError::IndexOutOfRange { index } => {
                "The share index '"@ + dec_digits(index as int) + "' is out of range"@
            },
        }
    }

    /// The error rendered as text.
    pub fn message(&self) -> (s: String)
        ensures
            s@ == self.spec_message(),
    {
        match self {
            SsssError::ThresholdZero => String::from_str("The threshold must be greater than 0"),
            SsssError::SharesZero => String::from_str(
                "The number of shares must be greater than 0",
            ),
            SsssError::ThresholdTooLow { threshold, shares } => {
                let mut s = String::from_str(
                    "You have specified an invalid threshold.  It must be less than or equal to the number of shares. (",
                );
                append_dec(&mut s, *threshold as u64);
                s.append(" is not <= ");
                append_dec(&mut s, *shares as u64);
                s.append(")");
                s
            },
            SsssError::EmptySecret => String::from_str("The secret cannot be empty"),
            SsssError::SecretLength { length, max } => {
                let mut s = String::from_str("The secret length '");
                append_dec(&mut s, *length as u64);
                s.append("' is longer than the maximum allowed '");
                append_dec(&mut s, *max as u64);
                s.append("'");
                s
            },
            SsssError::EmptySharesMap => String::from_str("The shares map cannot be empty"),
            SsssError::EmptyShare => String::from_str("A share cannot be empty"),
            SsssError::ShareLengthMismatch => String::from_str(
                "The shares must be the same length",
            ),
            SsssError::InvalidShareFormat => String::from_str("The share format is invalid"),
            SsssError::BadCharacter { c } => {
                let mut s = String::from_str("The character '");
                let t = crate::text::char_to_string(*c);
                s.append(t.as_str());
                s.append("' is not a valid base62 character");
                s
            },
            SsssError::IndexOutOfRange { index } => {
                let mut s = String::from_str("The share index '");
                append_dec(&mut s, *index as u64);
                s.append("' is out of range");
                s
            },
        }
    }
}

} // verus!

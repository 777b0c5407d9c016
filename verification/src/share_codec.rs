//! The share token format: `<encoded index>:<encoded payload>`.
//!
//! Each side of the colon is a randomized base-62 encoding; the index side
//! carries exactly one byte, the one-based share index.

use vstd::prelude::*;

use crate::base62::decode_spec;
use crate::base62::first_invalid;
use crate::base62::is_b62_char;
use crate::base62::is_b62_encoding_of;
use crate::base62::lemma_codec_round_trip;
use crate::error::SsssError;

verus! {

/// The position of the first colon, or the length when there is none.
pub open spec fn first_colon(s: Seq<char>) -> int
    decreases s.len(),
{
    if s.len() == 0 {
        0
    } else if s[0] == ':' {
        0
    } else {
        1 + first_colon(s.skip(1))
    }
}

/// Whether the string holds exactly one colon.
pub open spec fn exactly_one_colon(s: Seq<char>) -> bool {
    let k = first_colon(s);
    k < s.len() && first_colon(s.skip(k + 1)) == s.len() - k - 1
}

/// What decoding computes from a share token: the one-based index byte and
/// the payload bytes, or nothing when the token is malformed.
pub open spec fn decode_share_spec(s: Seq<char>) -> Option<(u8, Seq<u8>)> {
    if !exactly_one_colon(s) {
        None
    } else {
        let k = first_colon(s);
        let left = s.subrange(0, k);
        let right = s.subrange(k + 1, s.len() as int);
        if !(forall|i: int| 0 <= i < left.len() ==> is_b62_char(#[trigger] left[i])) {
            None
        } else if decode_spec(left).len() != 1 {
            None
        } else if !(forall|i: int| 0 <= i < right.len() ==> is_b62_char(#[trigger] right[i])) {
            None
        } else {
            Some((decode_spec(left)[0], decode_spec(right)))
        }
    }
}

/// The error reported for a malformed share token.
pub open spec fn decode_share_err(s: Seq<char>) -> SsssError {
    if !exactly_one_colon(s) {
        SsssError::InvalidShareFormat
    } else {
        let k = first_colon(s);
        let left = s.subrange(0, k);
        let right = s.subrange(k + 1, s.len() as int);
        if !(forall|i: int| 0 <= i < left.len() ==> is_b62_char(#[trigger] left[i])) {
            SsssError::BadCharacter { c: left[first_invalid(left)] }
        } else if decode_spec(left).len() != 1 {
            SsssError::InvalidShareFormat
        } else {
            SsssError::BadCharacter { c: right[first_invalid(right)] }
        }
    }
}

proof fn lemma_first_colon_none(s: Seq<char>)
    requires
        forall|j: int| 0 <= j < s.len() ==> s[j] != ':',
    ensures
        first_colon(s) == s.len(),
    decreases s.len(),
{
    if s.len() > 0 {
        lemma_first_colon_none(s.skip(1));
    }
}

proof fn lemma_first_colon_at(s: Seq<char>, i: int)
    requires
        0 <= i < s.len(),
        s[i] == ':',
        forall|j: int| 0 <= j < i ==> s[j] != ':',
    ensures
        first_colon(s) == i,
    decreases i,
{
    if i > 0 {
        lemma_first_colon_at(s.skip(1), i - 1);
    }
}

/// A well-formed pair of encoded parts decodes to the index byte and the
/// payload it was built from.
proof fn lemma_token_decodes(l: Seq<char>, r: Seq<char>, idx: u8, payload: Seq<u8>)
    requires
        is_b62_encoding_of(l, seq![idx]),
        (r.len() == 0 && payload.len() == 0) || is_b62_encoding_of(r, payload),
    ensures
        decode_share_spec(l + seq![':'] + r) == Some((idx, payload)),
{
    let s = l + seq![':'] + r;
    let k = l.len() as int;
    assert(s.len() == l.len() + 1 + r.len());
    assert(s[k] == ':');
    assert(forall|j: int| 0 <= j < k ==> s[j] == l[j]);
    assert(forall|j: int| 0 <= j < k ==> is_b62_char(#[trigger] l[j]));
    assert(forall|j: int| 0 <= j < k ==> s[j] != ':') by {
        assert(forall|j: int| 0 <= j < k ==> is_b62_char(#[trigger] s[j]));
    }
    lemma_first_colon_at(s, k);
    assert(s.skip(k + 1) =~= r);
    if r.len() == 0 {
        lemma_first_colon_none(s.skip(k + 1));
    } else {
        assert(forall|j: int| 0 <= j < r.len() ==> is_b62_char(#[trigger] r[j]));
        lemma_first_colon_none(s.skip(k + 1));
    }
    assert(exactly_one_colon(s));
    assert(s.subrange(0, k) =~= l);
    assert(s.subrange(k + 1, s.len() as int) =~= r);
    lemma_codec_round_trip(l, seq![idx]);
    assert(decode_spec(l) == seq![idx]);
    assert(decode_spec(l).len() == 1);
    assert(decode_spec(l)[0] == idx);
    if r.len() == 0 {
        assert(decode_spec(r) =~= payload);
    } else {
        lemma_codec_round_trip(r, payload);
    }
}

/// Serialize one share: the zero-based index is made one-based, both it and
/// the payload are base-62 encoded, and the two parts are joined by a
/// colon.  An index that does not fit a single byte once one-based is
/// rejected.
pub fn encode_share(tuple: (usize, Vec<u8>)) -> (r: Result<String, SsssError>)
    ensures
        match r {
            Ok(t) => tuple.0 < 255 && decode_share_spec(t@) == Some(
                ((tuple.0 + 1) as u8, tuple.1@),
            ),
            Err(e) => tuple.0 >= 255 && e == (SsssError::IndexOutOfRange { index: tuple.0 }),
        },
{
    let (i, payload) = tuple;
    if i >= 255 {
        return Err(SsssError::IndexOutOfRange { index: i });
    }
    let idx: u8 = (i + 1) as u8;
    let mut idx_bytes: Vec<u8> = Vec::new();
    idx_bytes.push(idx);
    let idx_enc = crate::base62::encode(idx_bytes.as_slice());
    let share_enc = crate::base62::encode(payload.as_slice());
    let mut token = idx_enc;
    token.append(":");
    token.append(share_enc.as_str());
    proof {
        assert(idx_bytes@ =~= seq![idx]);
        assert(token@ =~= idx_enc@ + ":"@ + share_enc@);
        reveal_strlit(":");
        assert(":"@ =~= seq![':']);
        lemma_token_decodes(idx_enc@, share_enc@, idx, payload@);
    }
    Ok(token)
}

/// Deserialize one share token: split on the single colon, decode both
/// sides, and require the index side to carry exactly one byte.
pub fn decode_share(share: String) -> (r: Result<(u8, Vec<u8>), SsssError>)
    ensures
        match r {
            Ok(p) => decode_share_spec(share@) == Some((p.0, p.1@)),
            Err(e) => decode_share_spec(share@) is None && e == decode_share_err(share@),
        },
{
    let s = share.as_str();
    let n: usize = s.unicode_len();
    let mut colon: usize = n;
    let mut extra: bool = false;
    let mut i: usize = 0;
    while i < n
        invariant
            i <= n,
            n == s@.len(),
            colon == n || (colon < i && s@[colon as int] == ':'),
            forall|j: int| 0 <= j < i && j < colon ==> s@[j] != ':',
            colon == n ==> !extra,
            extra <==> exists|j: int| colon < j < i && s@[j] == ':',
        decreases n - i,
    {
        let c = s.get_char(i);
        if c == ':' {
            if colon == n {
                colon = i;
            } else {
                extra = true;
            }
        }
        i += 1;
    }
    if colon == n {
        proof {
            lemma_first_colon_none(s@);
        }
        return Err(SsssError::InvalidShareFormat);
    }
    proof {
        lemma_first_colon_at(s@, colon as int);
    }
    if extra {
        proof {
            let j = choose|j: int| colon < j < n && s@[j] == ':';
            assert(s@.skip(colon as int + 1)[j - colon - 1] == ':');
            lemma_first_colon_le(s@.skip(colon as int + 1), j - colon - 1);
        }
        return Err(SsssError::InvalidShareFormat);
    }
    proof {
        assert(forall|j: int| colon < j < n ==> s@[j] != ':');
        assert(forall|j: int|
            0 <= j < s@.skip(colon as int + 1).len() ==> #[trigger] s@.skip(colon as int + 1)[j]
                != ':');
        lemma_first_colon_none(s@.skip(colon as int + 1));
        assert(exactly_one_colon(s@));
    }
    let left = s.substring_char(0, colon);
    let right = s.substring_char(colon + 1, n);
    let idx_bytes = match crate::base62::decode(left) {
        Ok(b) => b,
        Err(e) => {
            return Err(e);
        },
    };
    if idx_bytes.len() != 1 {
        return Err(SsssError::InvalidShareFormat);
    }
    let idx: u8 = idx_bytes[0];
    let payload = match crate::base62::decode(right) {
        Ok(b) => b,
        Err(e) => {
            return Err(e);
        },
    };
    Ok((idx, payload))
}

proof fn lemma_first_colon_le(s: Seq<char>, j: int)
    requires
        0 <= j < s.len(),
        s[j] == ':',
    ensures
        first_colon(s) <= j,
    decreases j,
{
    if j > 0 && s[0] != ':' {
        lemma_first_colon_le(s.skip(1), j - 1);
    }
}

/// Swap the rows and columns of a rectangular table.
pub fn transpose<T: Copy>(v: &Vec<Vec<T>>) -> (r: Vec<Vec<T>>)
    requires
        forall|j: int| 0 <= j < v@.len() ==> #[trigger] v@[j]@.len() == v@[0]@.len(),
    ensures
        r@.len() == if v@.len() == 0 {
            0int
        } else {
            v@[0]@.len() as int
        },
        forall|i: int| 0 <= i < r@.len() ==> #[trigger] r@[i]@.len() == v@.len(),
        forall|i: int, j: int|
            0 <= i < r@.len() && 0 <= j < v@.len() ==> #[trigger] r@[i]@[j] == v@[j]@[i],
{
    let mut r: Vec<Vec<T>> = Vec::new();
    if v.len() == 0 {
        return r;
    }
    let cols: usize = v[0].len();
    let mut i: usize = 0;
    while i < cols
        invariant
            i <= cols,
            cols == v@[0]@.len(),
            v@.len() > 0,
            forall|j: int| 0 <= j < v@.len() ==> #[trigger] v@[j]@.len() == cols,
            r@.len() == i,
            forall|k: int| 0 <= k < i ==> #[trigger] r@[k]@.len() == v@.len(),
            forall|k: int, j: int|
                0 <= k < i && 0 <= j < v@.len() ==> #[trigger] r@[k]@[j] == v@[j]@[k],
        decreases cols - i,
    {
        let mut row: Vec<T> = Vec::new();
        let mut j: usize = 0;
        while j < v.len()
            invariant
                j <= v@.len(),
                i < cols,
                forall|l: int| 0 <= l < v@.len() ==> #[trigger] v@[l]@.len() == cols,
                row@.len() == j,
                forall|l: int| 0 <= l < j ==> #[trigger] row@[l] == v@[l]@[i as int],
            decreases v@.len() - j,
        {
            row.push(v[j][i]);
            j += 1;
        }
        r.push(row);
        i += 1;
    }
    r
}

} // verus!

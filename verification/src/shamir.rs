//! The sharing protocol: split a secret into share tokens and reconstruct
//! it from enough of them.

use vstd::prelude::*;

use crate::error::SsssError;
use crate::share_codec::decode_share_spec;

verus! {

/// Configuration for [`gen_shares`]: how many shares to produce, how many
/// of them are needed to reconstruct, and how long a secret may be.
///
/// The default configuration produces 5 shares with a threshold of 3 and
/// admits secrets of up to 65535 bytes.
#[derive(Clone, Copy, Debug)]
pub struct SsssConfig {
    num_shares: u8,
    threshold: u8,
    max_secret_size: usize,
}

/// A builder for [`SsssConfig`], starting from the default values.
#[derive(Clone, Copy, Debug)]
pub struct SsssConfigBuilder {
    /// The total shares to generate from a secret.
    pub num_shares: u8,
    /// The number of shares required to unlock a secret.
    pub threshold: u8,
    /// The maximum secret size in bytes.
    pub max_secret_size: usize,
}

impl SsssConfigBuilder {
    /// Set the total shares to generate.
    pub fn num_shares(self, n: u8) -> (b: Self)
        ensures
            b.num_shares == n,
            b.threshold == self.threshold,
            b.max_secret_size == self.max_secret_size,
    {
        SsssConfigBuilder { num_shares: n, threshold: self.threshold, max_secret_size: self.max_secret_size }
    }

    /// Set the number of shares required to unlock.
    pub fn threshold(self, t: u8) -> (b: Self)
        ensures
            b.num_shares == self.num_shares,
            b.threshold == t,
            b.max_secret_size == self.max_secret_size,
    {
        SsssConfigBuilder { num_shares: self.num_shares, threshold: t, max_secret_size: self.max_secret_size }
    }

    /// Set the maximum secret size in bytes.
    pub fn max_secret_size(self, m: usize) -> (b: Self)
        ensures
            b.num_shares == self.num_shares,
            b.threshold == self.threshold,
            b.max_secret_size == m,
    {
        SsssConfigBuilder { num_shares: self.num_shares, threshold: self.threshold, max_secret_size: m }
    }

    /// Finish the configuration.
    pub fn build(self) -> (c: SsssConfig)
        ensures
            c.spec_num_shares() == self.num_shares,
            c.spec_threshold() == self.threshold,
            c.spec_max_secret_size() == self.max_secret_size,
    {
        SsssConfig {
            num_shares: self.num_shares,
            threshold: self.threshold,
            max_secret_size: self.max_secret_size,
        }
    }
}

/// The error validation raises for a configuration, if any: a zero share
/// count, then a zero threshold, then a threshold above the share count.
pub open spec fn config_err(c: SsssConfig) -> Option<SsssError> {
    if c.spec_num_shares() == 0 {
        Some(SsssError::SharesZero)
    } else if c.spec_threshold() == 0 {
        Some(SsssError::ThresholdZero)
    } else if c.spec_threshold() > c.spec_num_shares() {
        Some(
            SsssError::ThresholdTooLow {
                threshold: c.spec_threshold(),
                shares: c.spec_num_shares(),
            },
        )
    } else {
        None
    }
}

/// The error [`gen_shares`] raises for its arguments, if any: the secret is
/// checked before the configuration.
pub open spec fn split_err(c: SsssConfig, secret: Seq<u8>) -> Option<SsssError> {
    if secret.len() == 0 {
        Some(SsssError::EmptySecret)
    } else if secret.len() > c.spec_max_secret_size() {
        Some(
            SsssError::SecretLength {
                length: secret.len() as usize,
                max: c.spec_max_secret_size(),
            },
        )
    } else {
        config_err(c)
    }
}

impl SsssConfig {
    /// The configured total number of shares.
    pub closed spec fn spec_num_shares(self) -> u8 {
        self.num_shares
    }

    /// The configured threshold.
    pub closed spec fn spec_threshold(self) -> u8 {
        self.threshold
    }

    /// The configured maximum secret size.
    pub closed spec fn spec_max_secret_size(self) -> usize {
        self.max_secret_size
    }

    /// Start building a configuration from the default values.
    pub fn builder() -> (b: SsssConfigBuilder)
        ensures
            b.num_shares == 5,
            b.threshold == 3,
            b.max_secret_size == 65535,
    {
        SsssConfigBuilder { num_shares: 5, threshold: 3, max_secret_size: 65535 }
    }

    /// Check the configuration: the share count and the threshold must be
    /// positive, and the threshold must not exceed the share count.
    pub fn validate(&self) -> (r: Result<(), SsssError>)
        ensures
            match r {
                Ok(_) => config_err(*self) is None && 1 <= self.spec_threshold()
                    <= self.spec_num_shares(),
                Err(e) => config_err(*self) == Some(e),
            },
    {
        if self.num_shares == 0 {
            Err(SsssError::SharesZero)
        } else if self.threshold == 0 {
            Err(SsssError::ThresholdZero)
        } else if self.threshold > self.num_shares {
            Err(SsssError::ThresholdTooLow { threshold: self.threshold, shares: self.num_shares })
        } else {
            Ok(())
        }
    }
}

impl Default for SsssConfig {
    /// The default configuration: 5 shares, threshold 3, secrets of up to
    /// 65535 bytes.
    fn default() -> (c: Self)
        ensures
            c.spec_num_shares() == 5,
            c.spec_threshold() == 3,
            c.spec_max_secret_size() == 65535,
    {
        SsssConfig::builder().build()
    }
}

/// Check the arguments of [`gen_shares`]: the secret must be non-empty and
/// within the configured size, and the configuration must be valid.
pub fn validate_split_args(config: &SsssConfig, secret: &[u8]) -> (r: Result<(), SsssError>)
    ensures
        match r {
            Ok(_) => split_err(*config, secret@) is None && secret@.len() >= 1 && 1
                <= config.spec_threshold() <= config.spec_num_shares(),
            Err(e) => split_err(*config, secret@) == Some(e),
        },
{
    if secret.len() == 0 {
        Err(SsssError::EmptySecret)
    } else if secret.len() > config.max_secret_size {
        Err(
            SsssError::SecretLength { length: secret.len(), max: config.max_secret_size },
        )
    } else {
        config.validate()
    }
}

/// The polynomials behind one run of [`gen_shares`]: one per secret byte,
/// each of the threshold's length, holding the secret byte as its constant
/// term, with degree exactly one less than the threshold.
pub open spec fn wf_polys(polys: Seq<Seq<u8>>, t: u8, secret: Seq<u8>) -> bool {
    polys.len() == secret.len() && forall|p: int|
        0 <= p < polys.len() ==> (#[trigger] polys[p]).len() == t as nat && polys[p][0]
            == secret[p] && crate::gf256::gf_degree(polys[p]) == t - 1
}

/// The payload of the share at the field element `x`: every polynomial
/// evaluated there, in secret-byte order.
pub open spec fn share_payload(polys: Seq<Seq<u8>>, x: u8) -> Seq<u8> {
    Seq::new(polys.len(), |p: int| crate::gf256::gf_eval(polys[p], x))
}

/// Generate share tokens for a secret.
///
/// Every valid call returns exactly `num_shares` tokens; the token at
/// position `i` decodes to the one-based index `i + 1` and to the payload
/// holding each secret byte's polynomial evaluated at that index.
pub fn gen_shares(config: &SsssConfig, secret: &[u8]) -> (r: Result<Vec<String>, SsssError>)
    ensures
        match r {
            Ok(tokens) => {
                &&& split_err(*config, secret@) is None
                &&& tokens@.len() == config.spec_num_shares() as nat
                &&& exists|polys: Seq<Seq<u8>>|
                    #[trigger] wf_polys(polys, config.spec_threshold(), secret@) && forall|i: int|
                        0 <= i < tokens@.len() ==> decode_share_spec(tokens@[i]@) == Some(
                            ((i + 1) as u8, share_payload(polys, (i + 1) as u8)),
                        )
            },
            Err(e) => split_err(*config, secret@) == Some(e),
        },
{
    match validate_split_args(config, secret) {
        Err(e) => {
            return Err(e);
        },
        Ok(_) => {},
    }
    let n: u8 = config.num_shares;
    let t: u8 = config.threshold;
    let mut rows: Vec<Vec<u8>> = Vec::new();
    let ghost mut gpolys: Seq<Seq<u8>> = Seq::empty();
    let mut p: usize = 0;
    while p < secret.len()
        invariant
            p <= secret@.len(),
            rows@.len() == p,
            gpolys.len() == p,
            1 <= t <= n,
            forall|q: int|
                0 <= q < p ==> (#[trigger] gpolys[q]).len() == t as nat && gpolys[q][0]
                    == secret@[q] && crate::gf256::gf_degree(gpolys[q]) == t - 1,
            forall|q: int| 0 <= q < p ==> (#[trigger] rows@[q])@.len() == n as nat,
            forall|q: int, i: int|
                0 <= q < p && 0 <= i < n ==> (#[trigger] rows@[q]@[i]) == crate::gf256::gf_eval(
                    gpolys[q],
                    (i + 1) as u8,
                ),
        decreases secret@.len() - p,
    {
        let poly = crate::gf256::generate_coeffs(t, secret[p]);
        let mut row: Vec<u8> = Vec::new();
        let mut i: usize = 0;
        while i < n as usize
            invariant
                i <= n as usize,
                poly@.len() == t as nat,
                1 <= t,
                row@.len() == i,
                forall|l: int|
                    0 <= l < i ==> (#[trigger] row@[l]) == crate::gf256::gf_eval(
                        poly@,
                        (l + 1) as u8,
                    ),
            decreases n as usize - i,
        {
            let y = crate::gf256::eval(poly.as_slice(), (i + 1) as u8);
            row.push(y);
            i += 1;
        }
        rows.push(row);
        proof {
            gpolys = gpolys.push(poly@);
        }
        p += 1;
    }
    let shares_bytes = crate::share_codec::transpose(&rows);
    proof {
        assert(wf_polys(gpolys, t, secret@));
        if rows@.len() == 0 {
            assert(false);
        }
        assert(shares_bytes@.len() == n as nat);
    }
    let ghost gshares = shares_bytes@;
    let mut remaining = shares_bytes;
    let mut tokens: Vec<String> = Vec::new();
    let total: usize = remaining.len();
    proof {
        assert(total == n as usize);
    }
    let mut i: usize = 0;
    while i < total
        invariant
            gshares.len() == n as nat,
            total == n as usize,
            i <= n as usize,
            remaining@ =~= gshares.skip(i as int),
            tokens@.len() == i,
            secret@.len() >= 1,
            gpolys.len() == secret@.len(),
            forall|k: int| 0 <= k < n ==> (#[trigger] gshares[k])@.len() == secret@.len(),
            forall|k: int, q: int|
                0 <= k < n && 0 <= q < secret@.len() ==> (#[trigger] gshares[k]@[q])
                    == crate::gf256::gf_eval(gpolys[q], (k + 1) as u8),
            forall|k: int|
                0 <= k < i ==> decode_share_spec((#[trigger] tokens@[k])@) == Some(
                    ((k + 1) as u8, share_payload(gpolys, (k + 1) as u8)),
                ),
        decreases total - i,
    {
        let row = remaining.remove(0);
        proof {
            assert(row@ == gshares[i as int]@);
            assert(remaining@ =~= gshares.skip(i as int + 1));
        }
        match crate::share_codec::encode_share((i, row)) {
            Ok(tok) => {
                proof {
                    assert(gshares[i as int]@ =~= share_payload(gpolys, (i + 1) as u8));
                }
                tokens.push(tok);
            },
            Err(_) => {
                proof {
                    assert(false);
                }
                return Err(SsssError::IndexOutOfRange { index: i });
            },
        }
        i += 1;
    }
    Ok(tokens)
}

/// The views of a sequence of token strings.
pub open spec fn token_views(shares: Seq<String>) -> Seq<Seq<char>> {
    shares.map_values(|s: String| s@)
}

/// The view of a decoded share list.
pub open spec fn pairs_view(s: Seq<(u8, Vec<u8>)>) -> Seq<(u8, Seq<u8>)> {
    s.map_values(|pr: (u8, Vec<u8>)| (pr.0, pr.1@))
}

/// Whether some entry carries the index `k`.
pub open spec fn has_key(m: Seq<(u8, Seq<u8>)>, k: u8) -> bool {
    exists|j: int| 0 <= j < m.len() && (#[trigger] m[j]).0 == k
}

/// The position of the first entry carrying the index `k`.
pub open spec fn key_index(m: Seq<(u8, Seq<u8>)>, k: u8) -> int
    decreases m.len(),
{
    if m.len() == 0 {
        0
    } else if m[0].0 == k {
        0
    } else {
        1 + key_index(m.skip(1), k)
    }
}

/// Insert a decoded share: a payload under an index already present
/// replaces the old payload in place, any other is appended.
pub open spec fn upsert(m: Seq<(u8, Seq<u8>)>, k: u8, v: Seq<u8>) -> Seq<(u8, Seq<u8>)> {
    if has_key(m, k) {
        m.update(key_index(m, k), (k, v))
    } else {
        m.push((k, v))
    }
}

/// The decoded share set of a token list: each token that decodes at all is
/// inserted in order, every other is dropped.
pub open spec fn decoded_map(tokens: Seq<Seq<char>>) -> Seq<(u8, Seq<u8>)>
    decreases tokens.len(),
{
    if tokens.len() == 0 {
        Seq::empty()
    } else {
        let prev = decoded_map(tokens.drop_last());
        match decode_share_spec(tokens.last()) {
            Some(p) => upsert(prev, p.0, p.1),
            None => prev,
        }
    }
}

/// No two entries carry the same index.
pub open spec fn distinct_keys(m: Seq<(u8, Seq<u8>)>) -> bool {
    forall|i: int, j: int| 0 <= i < j < m.len() ==> m[i].0 != m[j].0
}

/// All payloads have the length of the first one.
pub open spec fn equal_len_payloads(pairs: Seq<(u8, Seq<u8>)>) -> bool {
    forall|j: int| 0 <= j < pairs.len() ==> (#[trigger] pairs[j]).1.len() == pairs[0].1.len()
}

/// The interpolation points for byte position `p`: each share's index with
/// its payload byte there.
pub open spec fn points_at(pairs: Seq<(u8, Seq<u8>)>, p: int) -> Seq<(u8, u8)> {
    pairs.map_values(|pr: (u8, Seq<u8>)| (pr.0, pr.1[p]))
}

proof fn lemma_key_index_of(m: Seq<(u8, Seq<u8>)>, k: u8, j: int)
    requires
        0 <= j < m.len(),
        m[j].0 == k,
        forall|l: int| 0 <= l < j ==> (#[trigger] m[l]).0 != k,
    ensures
        has_key(m, k),
        key_index(m, k) == j,
    decreases j,
{
    if j > 0 {
        lemma_key_index_of(m.skip(1), k, j - 1);
    }
}

proof fn lemma_key_index_props(m: Seq<(u8, Seq<u8>)>, k: u8)
    requires
        has_key(m, k),
    ensures
        0 <= key_index(m, k) < m.len(),
        m[key_index(m, k)].0 == k,
        forall|l: int| 0 <= l < key_index(m, k) ==> (#[trigger] m[l]).0 != k,
    decreases m.len(),
{
    if m.len() > 0 && m[0].0 != k {
        assert(has_key(m.skip(1), k)) by {
            let j = choose|j: int| 0 <= j < m.len() && (#[trigger] m[j]).0 == k;
            assert(m.skip(1)[j - 1].0 == k);
        }
        lemma_key_index_props(m.skip(1), k);
        assert(forall|l: int|
            1 <= l < key_index(m, k) ==> (#[trigger] m[l]).0 == m.skip(1)[l - 1].0);
    }
}

proof fn lemma_upsert_distinct(m: Seq<(u8, Seq<u8>)>, k: u8, v: Seq<u8>)
    requires
        distinct_keys(m),
    ensures
        distinct_keys(upsert(m, k, v)),
{
    if has_key(m, k) {
        lemma_key_index_props(m, k);
    }
}

proof fn lemma_decoded_map_distinct(tokens: Seq<Seq<char>>)
    ensures
        distinct_keys(decoded_map(tokens)),
    decreases tokens.len(),
{
    if tokens.len() > 0 {
        lemma_decoded_map_distinct(tokens.drop_last());
        match decode_share_spec(tokens.last()) {
            Some(p) => {
                lemma_upsert_distinct(decoded_map(tokens.drop_last()), p.0, p.1);
            },
            None => {},
        }
    }
}

proof fn lemma_decoded_map_all_distinct(tokens: Seq<Seq<char>>, pairs: Seq<(u8, Seq<u8>)>)
    requires
        pairs.len() == tokens.len(),
        forall|i: int|
            0 <= i < tokens.len() ==> decode_share_spec(#[trigger] tokens[i]) == Some(pairs[i]),
        distinct_keys(pairs),
    ensures
        decoded_map(tokens) == pairs,
    decreases tokens.len(),
{
    if tokens.len() == 0 {
        assert(decoded_map(tokens) =~= pairs);
    } else {
        assert(forall|i: int|
            0 <= i < tokens.len() - 1 ==> #[trigger] tokens.drop_last()[i] == tokens[i]);
        assert(forall|i: int|
            0 <= i < pairs.len() - 1 ==> #[trigger] pairs.drop_last()[i] == pairs[i]);
        lemma_decoded_map_all_distinct(tokens.drop_last(), pairs.drop_last());
        let prev = decoded_map(tokens.drop_last());
        let last = pairs.last();
        assert(decode_share_spec(tokens.last()) == Some(last));
        assert(!has_key(prev, last.0)) by {
            if has_key(prev, last.0) {
                let j = choose|j: int| 0 <= j < prev.len() && (#[trigger] prev[j]).0 == last.0;
                assert(pairs[j].0 == pairs[pairs.len() - 1].0);
                assert(false);
            }
        }
        assert((last.0, last.1) == last);
        assert(decoded_map(tokens) == prev.push(last));
        assert(prev.push(last) =~= pairs);
    }
}

/// Shares selected from one generation run with pairwise distinct indices
/// decode to exactly those shares, in order; every payload has the
/// secret's length, so what reconstruction interpolates from them has the
/// secret's length too.
pub proof fn lemma_reconstruction_shape(
    tokens: Seq<Seq<char>>,
    polys: Seq<Seq<u8>>,
    t: u8,
    secret: Seq<u8>,
    xs: Seq<u8>,
)
    requires
        wf_polys(polys, t, secret),
        secret.len() > 0,
        tokens.len() > 0,
        xs.len() == tokens.len(),
        forall|i: int, j: int| 0 <= i < j < xs.len() ==> xs[i] != xs[j],
        forall|i: int|
            0 <= i < tokens.len() ==> decode_share_spec(#[trigger] tokens[i]) == Some(
                (xs[i], share_payload(polys, xs[i])),
            ),
    ensures
        decoded_map(tokens).len() == tokens.len(),
        forall|j: int|
            0 <= j < tokens.len() ==> #[trigger] decoded_map(tokens)[j] == (
                xs[j],
                share_payload(polys, xs[j]),
            ),
        decoded_map(tokens)[0].1.len() == secret.len(),
        equal_len_payloads(decoded_map(tokens)),
{
    let pairs = Seq::new(tokens.len(), |i: int| (xs[i], share_payload(polys, xs[i])));
    assert(distinct_keys(pairs));
    lemma_decoded_map_all_distinct(tokens, pairs);
    assert(forall|j: int|
        0 <= j < pairs.len() ==> (#[trigger] pairs[j]).1.len() == secret.len());
}

/// With a threshold of one every share carries the secret itself: at each
/// byte position, the interpolation of a single share's byte there is
/// exactly the secret byte.
pub proof fn lemma_single_share_reconstruction(
    polys: Seq<Seq<u8>>,
    secret: Seq<u8>,
    x: u8,
    p: int,
)
    requires
        wf_polys(polys, 1, secret),
        0 <= p < secret.len(),
    ensures
        crate::gf256::gf_interpolate(points_at(seq![(x, share_payload(polys, x))], p))
            == secret[p],
{
    let pair = (x, share_payload(polys, x));
    let pts = points_at(seq![pair], p);
    assert(pts.len() == 1);
    assert(pts[0] == (x, share_payload(polys, x)[p]));
    assert(share_payload(polys, x)[p] == crate::gf256::gf_eval(polys[p], x));
    let poly = polys[p];
    assert(poly.len() == 1);
    assert(poly.skip(1) =~= Seq::<u8>::empty());
    assert(crate::gf256::gf_eval(Seq::<u8>::empty(), x) == 0);
    crate::gf256::lemma_mul_zero(x);
    crate::gf256::lemma_add_identity(poly[0]);
    assert(crate::gf256::gf_eval(poly, x) == poly[0]);
    assert(poly[0] == secret[p]);
    assert(crate::gf256::lag_basis(pts, 0, 0) == 1);
    assert(crate::gf256::lag_basis(pts, 0, 1) == 1);
    crate::gf256::lemma_mul_identity(pts[0].1);
    assert(crate::gf256::interp_acc(pts, 0) == 0);
    crate::gf256::lemma_add_identity(pts[0].1);
    assert(crate::gf256::gf_interpolate(pts) == pts[0].1);
}

/// With a threshold of one, reconstruction from a single share of a
/// generation run recovers the secret exactly: the decoded set holds that
/// one share, and interpolating it gives the secret byte at every
/// position.
pub proof fn lemma_single_share_unlock(
    tok: Seq<char>,
    polys: Seq<Seq<u8>>,
    secret: Seq<u8>,
    x: u8,
)
    requires
        wf_polys(polys, 1, secret),
        secret.len() > 0,
        decode_share_spec(tok) == Some((x, share_payload(polys, x))),
    ensures
        decoded_map(seq![tok]).len() == 1,
        decoded_map(seq![tok])[0].1.len() == secret.len(),
        forall|p: int|
            0 <= p < secret.len() ==> crate::gf256::gf_interpolate(
                #[trigger] points_at(decoded_map(seq![tok]), p),
            ) == secret[p],
{
    lemma_reconstruction_shape(seq![tok], polys, 1, secret, seq![x]);
    let pairs = decoded_map(seq![tok]);
    assert(pairs[0] == (x, share_payload(polys, x)));
    assert forall|p: int|
        0 <= p < secret.len() implies crate::gf256::gf_interpolate(
        #[trigger] points_at(pairs, p),
    ) == secret[p] by {
        lemma_single_share_reconstruction(polys, secret, x, p);
        assert(points_at(pairs, p) =~= points_at(seq![(x, share_payload(polys, x))], p));
    }
}

/// Insert one decoded share into the list, replacing the payload of an
/// index already present.
fn upsert_entry(decoded: &mut Vec<(u8, Vec<u8>)>, k: u8, v: Vec<u8>)
    ensures
        pairs_view(final(decoded)@) == upsert(pairs_view(old(decoded)@), k, v@),
{
    let ghost m = pairs_view(decoded@);
    let n: usize = decoded.len();
    let mut j: usize = 0;
    while j < n
        invariant
            j <= n,
            n == decoded@.len(),
            decoded@ == old(decoded)@,
            m == pairs_view(decoded@),
            m.len() == n,
            forall|l: int| 0 <= l < n ==> #[trigger] m[l] == (decoded@[l].0, decoded@[l].1@),
            forall|l: int| 0 <= l < j ==> (#[trigger] m[l]).0 != k,
        decreases n - j,
    {
        if decoded[j].0 == k {
            proof {
                lemma_key_index_of(m, k, j as int);
            }
            decoded.set(j, (k, v));
            proof {
                assert(upsert(m, k, v@) == m.update(j as int, (k, v@)));
                assert(pairs_view(decoded@) =~= m.update(j as int, (k, v@)));
            }
            return;
        }
        j += 1;
    }
    decoded.push((k, v));
    proof {
        assert(!has_key(m, k));
        assert(pairs_view(decoded@) =~= m.push((k, v@)));
    }
}

/// Check the decoded share set: it must be non-empty and all payloads must
/// share one non-zero length, which is returned.
fn validate_join_args(decoded: &Vec<(u8, Vec<u8>)>) -> (r: Result<usize, SsssError>)
    ensures
        ({
            let m = pairs_view(decoded@);
            match r {
                Ok(len) => m.len() > 0 && len == m[0].1.len() && len > 0 && equal_len_payloads(m),
                Err(e) => {
                    if m.len() == 0 {
                        e == SsssError::EmptySharesMap
                    } else if m[0].1.len() == 0 {
                        e == SsssError::EmptyShare
                    } else {
                        !equal_len_payloads(m) && e == SsssError::ShareLengthMismatch
                    }
                },
            }
        }),
{
    let ghost m = pairs_view(decoded@);
    proof {
        assert(forall|l: int|
            0 <= l < m.len() ==> #[trigger] m[l] == (decoded@[l].0, decoded@[l].1@));
    }
    if decoded.len() == 0 {
        return Err(SsssError::EmptySharesMap);
    }
    let len: usize = decoded[0].1.len();
    if len == 0 {
        return Err(SsssError::EmptyShare);
    }
    let mut j: usize = 1;
    while j < decoded.len()
        invariant
            1 <= j <= decoded@.len(),
            m == pairs_view(decoded@),
            m.len() == decoded@.len(),
            forall|l: int| 0 <= l < m.len() ==> #[trigger] m[l] == (decoded@[l].0, decoded@[l].1@),
            len == m[0].1.len(),
            len > 0,
            forall|l: int| 0 <= l < j ==> (#[trigger] m[l]).1.len() == len,
        decreases decoded@.len() - j,
    {
        if decoded[j].1.len() != len {
            proof {
                assert((m[j as int]).1.len() != m[0].1.len());
            }
            return Err(SsssError::ShareLengthMismatch);
        }
        j += 1;
    }
    Ok(len)
}

/// Attempt to unlock the secret from share tokens.
///
/// Tokens that do not decode are dropped; decoded shares with a repeated
/// index keep only the payload seen last.  The remaining set must be
/// non-empty with payloads of one non-zero common length; the secret byte
/// at each position is the Lagrange interpolation at zero of the shares'
/// bytes there.  With fewer shares than the threshold the shares were made
/// with, the result is well-formed but wrong.
pub fn unlock(shares: &[String]) -> (r: Result<Vec<u8>, SsssError>)
    ensures
        ({
            let pairs = decoded_map(token_views(shares@));
            match r {
                Ok(secret) => {
                    &&& pairs.len() > 0
                    &&& pairs[0].1.len() > 0
                    &&& equal_len_payloads(pairs)
                    &&& secret@.len() == pairs[0].1.len()
                    &&& forall|p: int|
                        0 <= p < secret@.len() ==> secret@[p] == crate::gf256::gf_interpolate(
                            #[trigger] points_at(pairs, p),
                        )
                },
                Err(e) => {
                    if pairs.len() == 0 {
                        e == SsssError::EmptySharesMap
                    } else if pairs[0].1.len() == 0 {
                        e == SsssError::EmptyShare
                    } else {
                        !equal_len_payloads(pairs) && e == SsssError::ShareLengthMismatch
                    }
                },
            }
        }),
{
    let ghost tv = token_views(shares@);
    let mut decoded: Vec<(u8, Vec<u8>)> = Vec::new();
    let n: usize = shares.len();
    let mut i: usize = 0;
    proof {
        assert(tv.take(0) =~= Seq::<Seq<char>>::empty());
        assert(pairs_view(decoded@) =~= Seq::<(u8, Seq<u8>)>::empty());
    }
    while i < n
        invariant
            i <= n,
            n == shares@.len(),
            tv == token_views(shares@),
            tv.len() == n,
            forall|l: int| 0 <= l < n ==> #[trigger] tv[l] == shares@[l]@,
            pairs_view(decoded@) == decoded_map(tv.take(i as int)),
        decreases n - i,
    {
        let tok = shares[i].clone();
        match crate::share_codec::decode_share(tok) {
            Ok(kv) => {
                let (k, v) = kv;
                upsert_entry(&mut decoded, k, v);
            },
            Err(_) => {},
        }
        proof {
            assert(tv.take(i as int + 1).drop_last() =~= tv.take(i as int));
            assert(tv.take(i as int + 1).last() == shares@[i as int]@);
        }
        i += 1;
    }
    proof {
        assert(tv.take(n as int) =~= tv);
        lemma_decoded_map_distinct(tv);
    }
    let ghost pairs = decoded_map(token_views(shares@));
    let secret_len: usize = match validate_join_args(&decoded) {
        Ok(l) => l,
        Err(e) => {
            return Err(e);
        },
    };
    proof {
        assert(forall|l: int|
            0 <= l < pairs.len() ==> #[trigger] pairs[l] == (decoded@[l].0, decoded@[l].1@));
    }
    let mut secret: Vec<u8> = Vec::new();
    let mut p: usize = 0;
    while p < secret_len
        invariant
            p <= secret_len,
            pairs == pairs_view(decoded@),
            pairs.len() == decoded@.len(),
            pairs.len() > 0,
            distinct_keys(pairs),
            forall|l: int|
                0 <= l < pairs.len() ==> #[trigger] pairs[l] == (decoded@[l].0, decoded@[l].1@),
            secret_len == pairs[0].1.len(),
            forall|l: int| 0 <= l < pairs.len() ==> (#[trigger] pairs[l]).1.len() == secret_len,
            secret@.len() == p,
            forall|q: int|
                0 <= q < p ==> secret@[q] == crate::gf256::gf_interpolate(
                    #[trigger] points_at(pairs, q),
                ),
        decreases secret_len - p,
    {
        let mut points: Vec<Vec<u8>> = Vec::new();
        let mut j: usize = 0;
        while j < decoded.len()
            invariant
                j <= decoded@.len(),
                p < secret_len,
                pairs.len() == decoded@.len(),
                forall|l: int|
                    0 <= l < pairs.len() ==> #[trigger] pairs[l] == (
                        decoded@[l].0,
                        decoded@[l].1@,
                    ),
                forall|l: int|
                    0 <= l < pairs.len() ==> (#[trigger] pairs[l]).1.len() == secret_len,
                points@.len() == j,
                forall|l: int| 0 <= l < j ==> (#[trigger] points@[l])@.len() == 2,
                forall|l: int|
                    0 <= l < j ==> (#[trigger] points@[l])@[0] == pairs[l].0 && points@[l]@[1]
                        == pairs[l].1[p as int],
            decreases decoded@.len() - j,
        {
            proof {
                assert(pairs[j as int].1.len() == secret_len);
                assert(decoded@[j as int].1@.len() == secret_len);
            }
            let mut pt: Vec<u8> = Vec::new();
            pt.push(decoded[j].0);
            pt.push(decoded[j].1[p]);
            points.push(pt);
            j += 1;
        }
        proof {
            assert(forall|a: int, b: int|
                0 <= a < b < points@.len() ==> points@[a]@[0] != points@[b]@[0]);
        }
        let y = crate::gf256::interpolate(points);
        proof {
            assert(crate::gf256::pts_pairs(points.deep_view()) =~= points_at(pairs, p as int));
        }
        secret.push(y);
        p += 1;
    }
    Ok(secret)
}

} // verus!

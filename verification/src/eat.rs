//! EAT (Entity Attestation Token): the canonical wire format of an
//! attestation. A token is a CBOR map with text keys; this module writes it
//! and reads it back as a function on bytes.
use vstd::prelude::*;
use vstd::utf8::{decode_utf8, encode_utf8, valid_utf8};

use crate::cbor::{
    be_bytes, push_be, head, parse_head, push_head, read_head, skip_item, skip_one, skip_tags, tag_prefix_len, is_utf8,
};
use crate::crypto::{sha256, sha256_digest};
use crate::text::{decimal, push_decimal, push_str};
use crate::platform::{platform_from_u8, platform_of_code, Platform};

verus! {

broadcast use vstd::utf8::group_utf8_lib;

/// Schema version. Tokens with any other version are refused.
pub const EAT_VERSION: u32 = 2;

/// Profile identifier, carried under the EAT `eat_profile` claim.
pub const EAT_PROFILE: &'static str = "https://bountynet.dev/eat/v2";

/// Levels of nesting allowed inside the value of a claim this schema does
/// not know (such values are skipped).
pub const MAX_NESTING: u64 = 255;

/// Errors produced by encoding or decoding a token.
#[allow(inconsistent_fields)]
#[derive(Debug)]
pub enum EatError {
    Encode(String),
    Decode(String),
    VersionMismatch { expected: u32, got: u32 },
    ProfileMismatch { expected: String, got: String },
    LengthMismatch { field: &'static str, expected: usize, got: usize },
}

/// The attestation payload.
#[derive(Debug, Clone)]
pub struct EatToken {
    /// Schema version; equals [`EAT_VERSION`] on every token this crate reads.
    pub version: u32,
    /// Profile URI; equals [`EAT_PROFILE`] on every token this crate reads.
    pub eat_profile: String,
    /// Application identity (sha384 of the runner sources).
    pub value_x: [u8; 48],
    /// TEE platform discriminant: 1=Nitro, 2=SevSnp, 3=Tdx, 0=none.
    pub platform: u8,
    /// Platform measurement taken from the quote.
    pub platform_measurement: Vec<u8>,
    /// Raw TEE evidence.
    pub platform_quote: Vec<u8>,
    /// sha256 of the TLS server SPKI.
    pub tls_spki_hash: [u8; 32],
    /// Source tree hash (sha384).
    pub source_hash: [u8; 48],
    /// Artifact hash (sha384).
    pub artifact_hash: [u8; 48],
    /// Issued-at, unix seconds.
    pub iat: u64,
    /// 32-byte freshness nonce.
    pub eat_nonce: [u8; 32],
    /// The previous stage's token, CBOR-encoded; empty for stage 0.
    pub previous_attestation: Vec<u8>,
}

/// The mathematical content of an [`EatToken`].
pub struct EatModel {
    pub version: u32,
    pub eat_profile: Seq<char>,
    pub value_x: Seq<u8>,
    pub platform: u8,
    pub platform_measurement: Seq<u8>,
    pub platform_quote: Seq<u8>,
    pub tls_spki_hash: Seq<u8>,
    pub source_hash: Seq<u8>,
    pub artifact_hash: Seq<u8>,
    pub iat: u64,
    pub eat_nonce: Seq<u8>,
    pub previous_attestation: Seq<u8>,
}

impl View for EatToken {
    type V = EatModel;

    open spec fn view(&self) -> EatModel {
        EatModel {
            version: self.version,
            eat_profile: self.eat_profile@,
            value_x: self.value_x@,
            platform: self.platform,
            platform_measurement: self.platform_measurement@,
            platform_quote: self.platform_quote@,
            tls_spki_hash: self.tls_spki_hash@,
            source_hash: self.source_hash@,
            artifact_hash: self.artifact_hash@,
            iat: self.iat,
            eat_nonce: self.eat_nonce@,
            previous_attestation: self.previous_attestation@,
        }
    }
}

/// The fixed sizes of the hash and nonce claims, and lengths that fit the
/// CBOR length field; every model of an [`EatToken`] has them.
pub open spec fn well_sized(m: EatModel) -> bool {
    &&& m.value_x.len() == 48
    &&& m.tls_spki_hash.len() == 32
    &&& m.source_hash.len() == 48
    &&& m.artifact_hash.len() == 48
    &&& m.eat_nonce.len() == 32
    &&& encode_utf8(m.eat_profile).len() <= u64::MAX
    &&& m.platform_measurement.len() <= u64::MAX
    &&& m.platform_quote.len() <= u64::MAX
    &&& m.previous_attestation.len() <= u64::MAX
}

/// A claim value as it stands in the CBOR map.
pub enum ClaimValue {
    Uint(u64),
    Text(Seq<char>),
    Bytes(Seq<u8>),
}

/// Number of claims in the schema.
pub const N_CLAIMS: usize = 12;

/// The key of each claim, in declaration order.
pub open spec fn claim_name(i: int) -> Seq<char> {
    if i == 0 {
        "version"@
    } else if i == 1 {
        "eat_profile"@
    } else if i == 2 {
        "value_x"@
    } else if i == 3 {
        "platform"@
    } else if i == 4 {
        "platform_measurement"@
    } else if i == 5 {
        "platform_quote"@
    } else if i == 6 {
        "tls_spki_hash"@
    } else if i == 7 {
        "source_hash"@
    } else if i == 8 {
        "artifact_hash"@
    } else if i == 9 {
        "iat"@
    } else if i == 10 {
        "eat_nonce"@
    } else {
        "previous_attestation"@
    }
}

/// The UTF-8 bytes of a claim key.
pub open spec fn claim_key(i: int) -> Seq<u8> {
    encode_utf8(claim_name(i))
}

/// The value of claim `i` of a model.
pub open spec fn claim_value(m: EatModel, i: int) -> ClaimValue {
    if i == 0 {
        ClaimValue::Uint(m.version as u64)
    } else if i == 1 {
        ClaimValue::Text(m.eat_profile)
    } else if i == 2 {
        ClaimValue::Bytes(m.value_x)
    } else if i == 3 {
        ClaimValue::Uint(m.platform as u64)
    } else if i == 4 {
        ClaimValue::Bytes(m.platform_measurement)
    } else if i == 5 {
        ClaimValue::Bytes(m.platform_quote)
    } else if i == 6 {
        ClaimValue::Bytes(m.tls_spki_hash)
    } else if i == 7 {
        ClaimValue::Bytes(m.source_hash)
    } else if i == 8 {
        ClaimValue::Bytes(m.artifact_hash)
    } else if i == 9 {
        ClaimValue::Uint(m.iat)
    } else if i == 10 {
        ClaimValue::Bytes(m.eat_nonce)
    } else {
        ClaimValue::Bytes(m.previous_attestation)
    }
}

/// The encoding of a claim value: unsigned integer, text string or byte
/// string, each with a shortest head.
pub open spec fn encode_value(v: ClaimValue) -> Seq<u8> {
    match v {
        ClaimValue::Uint(a) => head(0, a),
        ClaimValue::Text(t) => head(3, encode_utf8(t).len() as u64) + encode_utf8(t),
        ClaimValue::Bytes(b) => head(2, b.len() as u64) + b,
    }
}

/// The encoding of one map entry: the key as a text string, then the value.
pub open spec fn encode_claim(m: EatModel, i: int) -> Seq<u8> {
    head(3, claim_key(i).len() as u64) + claim_key(i) + encode_value(claim_value(m, i))
}

/// How many claims a model writes: all twelve, except that an empty
/// `previous_attestation` is left out.
pub open spec fn claim_count(m: EatModel) -> nat {
    if m.previous_attestation.len() == 0 {
        11
    } else {
        12
    }
}

/// The claims a model writes, in declaration order.
pub open spec fn written_claims(m: EatModel) -> Seq<int> {
    Seq::new(claim_count(m), |i: int| i)
}

pub open spec fn encode_claims(m: EatModel, ids: Seq<int>) -> Seq<u8>
    decreases ids.len(),
{
    if ids.len() == 0 {
        seq![]
    } else {
        encode_claim(m, ids[0]) + encode_claims(m, ids.drop_first())
    }
}

/// The CBOR encoding of a token: a map head with the number of claims
/// written, then each claim in declaration order.
pub open spec fn eat_encode(m: EatModel) -> Seq<u8> {
    head(5, written_claims(m).len() as u64) + encode_claims(m, written_claims(m))
}

pub proof fn lemma_encode_claims_push(m: EatModel, ids: Seq<int>, i: int)
    ensures
        encode_claims(m, ids.push(i)) == encode_claims(m, ids) + encode_claim(m, i),
    decreases ids.len(),
{
    if ids.len() == 0 {
        assert(ids.push(i).drop_first() == ids);
    } else {
        assert(ids.push(i).drop_first() == ids.drop_first().push(i));
        lemma_encode_claims_push(m, ids.drop_first(), i);
    }
}

// ---------------------------------------------------------------- writing

/// The key of claim `i`.
pub fn claim_name_str(i: usize) -> (s: &'static str)
    requires
        i < N_CLAIMS,
    ensures
        s@ == claim_name(i as int),
{
    if i == 0 {
        "version"
    } else if i == 1 {
        "eat_profile"
    } else if i == 2 {
        "value_x"
    } else if i == 3 {
        "platform"
    } else if i == 4 {
        "platform_measurement"
    } else if i == 5 {
        "platform_quote"
    } else if i == 6 {
        "tls_spki_hash"
    } else if i == 7 {
        "source_hash"
    } else if i == 8 {
        "artifact_hash"
    } else if i == 9 {
        "iat"
    } else if i == 10 {
        "eat_nonce"
    } else {
        "previous_attestation"
    }
}

/// Appends a byte string.
pub fn push_bytes(out: &mut Vec<u8>, b: &[u8])
    ensures
        final(out)@ == old(out)@ + b@,
{
    for i in 0..b.len()
        invariant
            out@ == old(out)@ + b@.take(i as int),
    {
        out.push(b[i]);
        assert(b@.take(i + 1) == b@.take(i as int).push(b@[i as int]));
    }
    assert(b@.take(b@.len() as int) == b@);
}

fn push_key(out: &mut Vec<u8>, i: usize)
    requires
        i < N_CLAIMS,
    ensures
        final(out)@ == old(out)@ + head(3, claim_key(i as int).len() as u64) + claim_key(i as int),
{
    let k = claim_name_str(i).as_bytes();
    push_head(out, 3, k.len() as u64);
    push_bytes(out, k);
    assert(final(out)@ == old(out)@ + head(3, claim_key(i as int).len() as u64) + claim_key(
        i as int,
    ));
}

fn push_uint_claim(out: &mut Vec<u8>, i: usize, a: u64)
    requires
        i < N_CLAIMS,
    ensures
        final(out)@ == old(out)@ + head(3, claim_key(i as int).len() as u64) + claim_key(i as int)
            + encode_value(ClaimValue::Uint(a)),
{
    push_key(out, i);
    push_head(out, 0, a);
}

fn push_bytes_claim(out: &mut Vec<u8>, i: usize, b: &[u8])
    requires
        i < N_CLAIMS,
    ensures
        final(out)@ == old(out)@ + head(3, claim_key(i as int).len() as u64) + claim_key(i as int)
            + encode_value(ClaimValue::Bytes(b@)),
{
    push_key(out, i);
    push_head(out, 2, b.len() as u64);
    push_bytes(out, b);
}

fn push_claim(out: &mut Vec<u8>, t: &EatToken, i: usize)
    requires
        i < N_CLAIMS,
    ensures
        final(out)@ == old(out)@ + encode_claim(t@, i as int),
{
    if i == 0 {
        push_uint_claim(out, 0, t.version as u64);
    } else if i == 1 {
        push_key(out, 1);
        let p = t.eat_profile.as_str().as_bytes();
        push_head(out, 3, p.len() as u64);
        push_bytes(out, p);
    } else if i == 2 {
        push_bytes_claim(out, 2, &t.value_x);
    } else if i == 3 {
        push_uint_claim(out, 3, t.platform as u64);
    } else if i == 4 {
        push_bytes_claim(out, 4, t.platform_measurement.as_slice());
    } else if i == 5 {
        push_bytes_claim(out, 5, t.platform_quote.as_slice());
    } else if i == 6 {
        push_bytes_claim(out, 6, &t.tls_spki_hash);
    } else if i == 7 {
        push_bytes_claim(out, 7, &t.source_hash);
    } else if i == 8 {
        push_bytes_claim(out, 8, &t.artifact_hash);
    } else if i == 9 {
        push_uint_claim(out, 9, t.iat);
    } else if i == 10 {
        push_bytes_claim(out, 10, &t.eat_nonce);
    } else {
        push_bytes_claim(out, 11, t.previous_attestation.as_slice());
    }
}

impl EatToken {
    /// Encode to CBOR bytes.
    pub fn to_cbor(&self) -> (r: Result<Vec<u8>, EatError>)
        ensures
            r matches Ok(bytes) && bytes@ == eat_encode(self@),
    {
        let mut out: Vec<u8> = Vec::new();
        let n: usize = if self.previous_attestation.len() > 0 {
            12
        } else {
            11
        };
        push_head(&mut out, 5, n as u64);
        let ghost m = self@;
        let ghost ids = written_claims(m);
        let ghost h = out@;
        assert(ids.take(0) == Seq::<int>::empty());
        for i in 0..n
            invariant
                n == claim_count(m),
                ids == written_claims(m),
                m == self@,
                out@ == h + encode_claims(m, ids.take(i as int)),
        {
            push_claim(&mut out, self, i);
            proof {
                assert(ids.take(i + 1) == ids.take(i as int).push(i as int));
                lemma_encode_claims_push(m, ids.take(i as int), i as int);
            }
        }
        assert(ids.take(n as int) == ids);
        Ok(out)
    }
}

// ---------------------------------------------------------------- reading

/// Why a byte string is not a token.
#[derive(Debug, Clone, Copy, PartialEq, Eq, Structural)]
pub enum ClaimError {
    /// Not a CBOR map whose keys are text strings, or not well-formed CBOR.
    Malformed,
    /// The claim's value has the wrong CBOR type or is malformed.
    Invalid(usize),
    /// The claim occurs twice.
    Duplicate(usize),
    /// A required claim is absent.
    Missing(usize),
    /// A fixed-size claim has the wrong number of bytes (claim, got).
    Length(usize, usize),
    /// An integer claim is larger than its type holds (claim, value).
    OutOfRange(usize, u64),
    /// An integer claim is negative.
    Negative(usize),
}

/// Reads a key: a text string (after any tags) of at most 4096 bytes of
/// well-formed UTF-8. Gives the key's bytes and the length read.
pub open spec fn parse_key(s: Seq<u8>) -> Option<(Seq<u8>, int)> {
    let t = tag_prefix_len(s);
    match parse_head(s.skip(t)) {
        Some((major, a, n)) => if major == 3 && a <= 4096 && 0 <= t && t + n + a <= s.len()
            && valid_utf8(s.subrange(t + n, t + n + a)) {
            Some((s.subrange(t + n, t + n + a), t + n + a))
        } else {
            None
        },
        None => None,
    }
}

pub open spec fn claim_of_key_from(k: Seq<u8>, i: int) -> Option<int>
    decreases 12 - i,
{
    if i >= 12 || i < 0 {
        None
    } else if k == claim_key(i) {
        Some(i)
    } else {
        claim_of_key_from(k, i + 1)
    }
}

/// The claim a key names, if any.
pub open spec fn claim_of_key(k: Seq<u8>) -> Option<int> {
    claim_of_key_from(k, 0)
}

/// The claims whose value is an unsigned integer, and their largest value.
pub open spec fn uint_claim_max(i: int) -> Option<u64> {
    if i == 0 {
        Some(u32::MAX as u64)
    } else if i == 3 {
        Some(u8::MAX as u64)
    } else if i == 9 {
        Some(u64::MAX)
    } else {
        None
    }
}

/// The claims whose byte string has a fixed size, and that size.
pub open spec fn claim_fixed_len(i: int) -> Option<nat> {
    if i == 2 || i == 7 || i == 8 {
        Some(48)
    } else if i == 6 || i == 10 {
        Some(32)
    } else {
        None
    }
}

/// Reads the value of claim `i` (after any tags): an unsigned integer in
/// range, a text string of well-formed UTF-8 (claim 1), or a byte string of
/// the claim's fixed size where it has one.
pub open spec fn parse_claim(i: int, s: Seq<u8>) -> Result<(ClaimValue, int), ClaimError> {
    let t = tag_prefix_len(s);
    match parse_head(s.skip(t)) {
        None => Err(ClaimError::Invalid(i as usize)),
        Some((major, a, n)) => if 0 > t || t + n > s.len() {
            Err(ClaimError::Malformed)
        } else if uint_claim_max(i) is Some {
            if major == 0 && a <= uint_claim_max(i)->0 {
                Ok((ClaimValue::Uint(a), t + n))
            } else if major == 0 {
                Err(ClaimError::OutOfRange(i as usize, a))
            } else if major == 1 {
                Err(ClaimError::Negative(i as usize))
            } else {
                Err(ClaimError::Invalid(i as usize))
            }
        } else if i == 1 {
            if major == 3 && t + n + a <= s.len() && valid_utf8(s.subrange(t + n, t + n + a)) {
                Ok((ClaimValue::Text(decode_utf8(s.subrange(t + n, t + n + a))), t + n + a))
            } else {
                Err(ClaimError::Invalid(i as usize))
            }
        } else if major == 2 && t + n + a <= s.len() {
            if claim_fixed_len(i) is Some && a != claim_fixed_len(i)->0 {
                Err(ClaimError::Length(i as usize, a as usize))
            } else {
                Ok((ClaimValue::Bytes(s.subrange(t + n, t + n + a)), t + n + a))
            }
        } else {
            Err(ClaimError::Invalid(i as usize))
        },
    }
}

/// Reads `count` map entries into `acc` (one slot per claim). A known
/// claim that is already present is a duplicate; the value of an unknown
/// key is skipped.
pub open spec fn decode_claims(s: Seq<u8>, count: nat, acc: Seq<Option<ClaimValue>>) -> Result<
    Seq<Option<ClaimValue>>,
    ClaimError,
>
    decreases count,
{
    if count == 0 {
        Ok(acc)
    } else {
        match parse_key(s) {
            None => Err(ClaimError::Malformed),
            Some((k, kn)) => if kn < 0 || kn > s.len() {
                Err(ClaimError::Malformed)
            } else {
                match claim_of_key(k) {
                    Some(i) => if acc[i] is Some {
                        Err(ClaimError::Duplicate(i as usize))
                    } else {
                        match parse_claim(i, s.skip(kn)) {
                            Err(e) => Err(e),
                            Ok((v, vn)) => if 0 <= vn <= s.len() - kn {
                                decode_claims(s.skip(kn + vn), (count - 1) as nat, acc.update(i, Some(v)))
                            } else {
                                Err(ClaimError::Malformed)
                            },
                        }
                    },
                    None => match skip_item(s.skip(kn), MAX_NESTING as nat) {
                        None => Err(ClaimError::Malformed),
                        Some(vn) => if 0 <= vn <= s.len() - kn {
                            decode_claims(s.skip(kn + vn), (count - 1) as nat, acc)
                        } else {
                            Err(ClaimError::Malformed)
                        },
                    },
                }
            },
        }
    }
}

pub open spec fn no_claims() -> Seq<Option<ClaimValue>> {
    Seq::new(12, |i: int| None)
}

pub open spec fn first_missing_from(acc: Seq<Option<ClaimValue>>, i: int) -> Option<int>
    decreases 11 - i,
{
    if i >= 11 || i < 0 {
        None
    } else if acc[i] is None {
        Some(i)
    } else {
        first_missing_from(acc, i + 1)
    }
}

/// The first required claim (all but `previous_attestation`) that is absent.
pub open spec fn first_missing(acc: Seq<Option<ClaimValue>>) -> Option<int> {
    first_missing_from(acc, 0)
}

pub open spec fn uint_of(v: Option<ClaimValue>) -> u64 {
    match v {
        Some(ClaimValue::Uint(a)) => a,
        _ => 0,
    }
}

pub open spec fn text_of(v: Option<ClaimValue>) -> Seq<char> {
    match v {
        Some(ClaimValue::Text(t)) => t,
        _ => seq![],
    }
}

pub open spec fn bytes_of(v: Option<ClaimValue>) -> Seq<u8> {
    match v {
        Some(ClaimValue::Bytes(b)) => b,
        _ => seq![],
    }
}

/// The model that a full set of claims describes.
pub open spec fn model_of_claims(acc: Seq<Option<ClaimValue>>) -> EatModel {
    EatModel {
        version: uint_of(acc[0]) as u32,
        eat_profile: text_of(acc[1]),
        value_x: bytes_of(acc[2]),
        platform: uint_of(acc[3]) as u8,
        platform_measurement: bytes_of(acc[4]),
        platform_quote: bytes_of(acc[5]),
        tls_spki_hash: bytes_of(acc[6]),
        source_hash: bytes_of(acc[7]),
        artifact_hash: bytes_of(acc[8]),
        iat: uint_of(acc[9]),
        eat_nonce: bytes_of(acc[10]),
        previous_attestation: bytes_of(acc[11]),
    }
}

/// Reads a token: a map (after any tags) of claims; bytes after the map are
/// not read.
pub open spec fn eat_decode(s: Seq<u8>) -> Result<EatModel, ClaimError> {
    let t = tag_prefix_len(s);
    match parse_head(s.skip(t)) {
        Some((major, count, n)) => if major == 5 && 0 <= t && t + n <= s.len() {
            match decode_claims(s.skip(t + n), count as nat, no_claims()) {
                Ok(acc) => match first_missing(acc) {
                    Some(i) => Err(ClaimError::Missing(i as usize)),
                    None => Ok(model_of_claims(acc)),
                },
                Err(e) => Err(e),
            }
        } else {
            Err(ClaimError::Malformed)
        },
        None => Err(ClaimError::Malformed),
    }
}

/// A claim value as read.
pub enum Claim {
    Uint(u64),
    Text(String),
    Bytes(Vec<u8>),
}

impl View for Claim {
    type V = ClaimValue;

    open spec fn view(&self) -> ClaimValue {
        match self {
            Claim::Uint(a) => ClaimValue::Uint(*a),
            Claim::Text(t) => ClaimValue::Text(t@),
            Claim::Bytes(b) => ClaimValue::Bytes(b@),
        }
    }
}

pub open spec fn claim_opt_view(o: Option<Claim>) -> Option<ClaimValue> {
    match o {
        Some(c) => Some(c@),
        None => None,
    }
}

pub open spec fn claims_view(v: Seq<Option<Claim>>) -> Seq<Option<ClaimValue>> {
    Seq::new(v.len(), |i: int| claim_opt_view(v[i]))
}

/// The value has the type and size that claim `i` calls for.
pub open spec fn claim_fits(i: int, v: ClaimValue) -> bool {
    match v {
        ClaimValue::Uint(a) => uint_claim_max(i) is Some && a <= uint_claim_max(i)->0,
        ClaimValue::Text(_) => i == 1,
        ClaimValue::Bytes(b) => uint_claim_max(i) is None && i != 1 && 0 <= i < 12 && (
        claim_fixed_len(i) is Some ==> b.len() == claim_fixed_len(i)->0),
    }
}

pub open spec fn claims_fit(acc: Seq<Option<ClaimValue>>) -> bool {
    forall|j: int| 0 <= j < acc.len() ==> (#[trigger] acc[j] matches Some(v) ==> claim_fits(j, v))
}

/// Byte-wise equality.
pub fn bytes_eq(a: &[u8], b: &[u8]) -> (r: bool)
    ensures
        r == (a@ == b@),
{
    if a.len() != b.len() {
        return false;
    }
    for i in 0..a.len()
        invariant
            a@.len() == b@.len(),
            forall|j: int| 0 <= j < i ==> a@[j] == b@[j],
    {
        if a[i] != b[i] {
            return false;
        }
    }
    assert(a@ == b@);
    true
}

/// Reads a key at `pos`; gives the byte range of the key, whose end is
/// where the value starts.
fn read_key(bytes: &[u8], pos: usize) -> (r: Option<(usize, usize)>)
    requires
        pos <= bytes@.len(),
    ensures
        match r {
            Some((kb, ke)) => pos <= kb <= ke <= bytes@.len() && parse_key(bytes@.skip(pos as int))
                == Some((bytes@.subrange(kb as int, ke as int), ke - pos)),
            None => parse_key(bytes@.skip(pos as int)) is None,
        },
{
    let ghost s = bytes@.skip(pos as int);
    assert(bytes@.len() == bytes.len());
    let t = skip_tags(bytes, pos);
    assert(s.skip(t - pos) == bytes@.skip(t as int));
    proof {
        crate::cbor::lemma_parse_head_len(bytes@.skip(t as int));
    }
    match read_head(bytes, t) {
        Some((major, a, n)) => {
            if major != 3 || a > 4096 || a > (bytes.len() - t - n) as u64 {
                return None;
            }
            let kb = t + n;
            let ke = kb + a as usize;
            assert(s.subrange(t - pos + n, t - pos + n + a) == bytes@.subrange(kb as int, ke as int));
            if !is_utf8(bytes, kb, ke) {
                return None;
            }
            Some((kb, ke))
        },
        None => None,
    }
}

/// The claim a key names, if any.
fn claim_of_key_exec(k: &[u8]) -> (r: Option<usize>)
    ensures
        match r {
            Some(i) => i < 12 && claim_of_key(k@) == Some(i as int),
            None => claim_of_key(k@) is None,
        },
{
    let mut i: usize = 0;
    while i < N_CLAIMS
        invariant
            i <= 12,
            claim_of_key(k@) == claim_of_key_from(k@, i as int),
        decreases 12 - i,
    {
        if bytes_eq(k, claim_name_str(i).as_bytes()) {
            return Some(i);
        }
        i = i + 1;
    }
    None
}

fn read_claim(bytes: &[u8], pos: usize, i: usize) -> (r: Result<(Claim, usize), ClaimError>)
    requires
        pos <= bytes@.len(),
        i < 12,
    ensures
        match r {
            Ok((c, q)) => pos <= q <= bytes@.len() && parse_claim(i as int, bytes@.skip(pos as int))
                == Ok::<_, ClaimError>((c@, q - pos)) && claim_fits(i as int, c@),
            Err(e) => parse_claim(i as int, bytes@.skip(pos as int)) == Err::<(ClaimValue, int), _>(e)
                && names_a_claim(e),
        },
{
    let ghost s = bytes@.skip(pos as int);
    assert(bytes@.len() == bytes.len());
    let t = skip_tags(bytes, pos);
    assert(s.skip(t - pos) == bytes@.skip(t as int));
    proof {
        crate::cbor::lemma_parse_head_len(bytes@.skip(t as int));
    }
    let (major, a, n) = match read_head(bytes, t) {
        Some(h) => h,
        None => return Err(ClaimError::Invalid(i)),
    };
    let body = t + n;
    if i == 0 || i == 3 || i == 9 {
        let max: u64 = if i == 0 {
            0xffff_ffff
        } else if i == 3 {
            0xff
        } else {
            0xffff_ffff_ffff_ffff
        };
        if major == 0 && a <= max {
            return Ok((Claim::Uint(a), body));
        } else if major == 0 {
            return Err(ClaimError::OutOfRange(i, a));
        } else if major == 1 {
            return Err(ClaimError::Negative(i));
        } else {
            return Err(ClaimError::Invalid(i));
        }
    }
    if major != (if i == 1 { 3u8 } else { 2u8 }) || a > (bytes.len() - body) as u64 {
        return Err(ClaimError::Invalid(i));
    }
    let end = body + a as usize;
    assert(s.subrange(t - pos + n, t - pos + n + a) == bytes@.subrange(body as int, end as int));
    if i == 1 {
        match core::str::from_utf8(&bytes[body..end]) {
            Ok(text) => {
                return Ok((Claim::Text(text.to_owned()), end));
            },
            Err(_) => {
                return Err(ClaimError::Invalid(i));
            },
        }
    }
    let fixed: usize = if i == 2 || i == 7 || i == 8 {
        48
    } else if i == 6 || i == 10 {
        32
    } else {
        0
    };
    if fixed > 0 && a != fixed as u64 {
        return Err(ClaimError::Length(i, a as usize));
    }
    Ok((Claim::Bytes(vstd::slice::slice_to_vec(&bytes[body..end])), end))
}

/// Reads `count` map entries starting at `start` (see [`decode_claims`]).
fn read_claims(bytes: &[u8], start: usize, count: u64) -> (r: Result<Vec<Option<Claim>>, ClaimError>)
    requires
        start <= bytes@.len(),
    ensures
        match r {
            Ok(acc) => acc@.len() == 12 && decode_claims(bytes@.skip(start as int), count as nat, no_claims())
                == Ok::<_, ClaimError>(claims_view(acc@)) && claims_fit(claims_view(acc@)),
            Err(e) => decode_claims(bytes@.skip(start as int), count as nat, no_claims()) == Err::<
                Seq<Option<ClaimValue>>,
                _,
            >(e) && names_a_claim(e),
        },
{
    let mut acc: Vec<Option<Claim>> = Vec::new();
    for j in 0..N_CLAIMS
        invariant
            acc@.len() == j,
            forall|l: int| 0 <= l < j ==> acc@[l] is None,
    {
        acc.push(None);
    }
    assert(claims_view(acc@) == no_claims());
    let mut pos = start;
    let mut k: u64 = 0;
    while k < count
        invariant
            start <= pos <= bytes@.len(),
            k <= count,
            acc@.len() == 12,
            claims_fit(claims_view(acc@)),
            decode_claims(bytes@.skip(start as int), count as nat, no_claims()) == decode_claims(
                bytes@.skip(pos as int),
                (count - k) as nat,
                claims_view(acc@),
            ),
        decreases count - k,
    {
        let ghost s = bytes@.skip(pos as int);
        let ghost av = claims_view(acc@);
        let (kb, ke) = match read_key(bytes, pos) {
            Some(r) => r,
            None => return Err(ClaimError::Malformed),
        };
        assert(s.skip(ke - pos) == bytes@.skip(ke as int));
        match claim_of_key_exec(&bytes[kb..ke]) {
            Some(i) => {
                if acc[i].is_some() {
                    return Err(ClaimError::Duplicate(i));
                }
                match read_claim(bytes, ke, i) {
                    Ok((c, q)) => {
                        let ghost cv = c@;
                        acc.set(i, Some(c));
                        assert(claims_view(acc@) == av.update(i as int, Some(cv)));
                        assert(s.skip(q - pos) == bytes@.skip(q as int));
                        pos = q;
                    },
                    Err(e) => {
                        return Err(e);
                    },
                }
            },
            None => {
                match skip_one(bytes, ke, MAX_NESTING) {
                    Some(q) => {
                        assert(s.skip(q - pos) == bytes@.skip(q as int));
                        pos = q;
                    },
                    None => {
                        return Err(ClaimError::Malformed);
                    },
                }
            },
        }
        k = k + 1;
    }
    Ok(acc)
}

fn take_uint(o: Option<Claim>) -> (r: u64)
    ensures
        r == uint_of(claim_opt_view(o)),
{
    match o {
        Some(Claim::Uint(a)) => a,
        _ => 0,
    }
}

fn take_text(o: Option<Claim>) -> (r: String)
    ensures
        r@ == text_of(claim_opt_view(o)),
{
    match o {
        Some(Claim::Text(t)) => t,
        _ => String::new(),
    }
}

fn take_bytes(o: Option<Claim>) -> (r: Vec<u8>)
    ensures
        r@ == bytes_of(claim_opt_view(o)),
{
    match o {
        Some(Claim::Bytes(b)) => b,
        _ => Vec::new(),
    }
}

/// The 48 bytes of `v` as an array.
pub fn array48(v: &[u8]) -> (r: [u8; 48])
    requires
        v@.len() == 48,
    ensures
        r@ == v@,
{
    let mut a = [0u8; 48];
    for i in 0..48
        invariant
            v@.len() == 48,
            forall|j: int| 0 <= j < i ==> a@[j] == v@[j],
    {
        a[i] = v[i];
    }
    assert(a@ == v@);
    a
}

/// The 32 bytes of `v` as an array.
pub fn array32(v: &[u8]) -> (r: [u8; 32])
    requires
        v@.len() == 32,
    ensures
        r@ == v@,
{
    let mut a = [0u8; 32];
    for i in 0..32
        invariant
            v@.len() == 32,
            forall|j: int| 0 <= j < i ==> a@[j] == v@[j],
    {
        a[i] = v[i];
    }
    assert(a@ == v@);
    a
}

/// Builds the token that a full, fitting set of claims describes.
fn token_of_claims(acc: Vec<Option<Claim>>) -> (r: EatToken)
    requires
        acc@.len() == 12,
        claims_fit(claims_view(acc@)),
        first_missing(claims_view(acc@)) is None,
    ensures
        r@ == model_of_claims(claims_view(acc@)),
{
    let ghost av = claims_view(acc@);
    proof {
        reveal_with_fuel(first_missing_from, 12);
        assert(av[2] is Some && av[6] is Some && av[7] is Some && av[8] is Some && av[10] is Some);
        assert(claim_fits(2, av[2]->0) && claim_fits(6, av[6]->0) && claim_fits(7, av[7]->0));
        assert(claim_fits(8, av[8]->0) && claim_fits(10, av[10]->0));
        assert(claim_fits(0, av[0]->0) && claim_fits(3, av[3]->0));
    }
    let mut acc = acc;
    let previous_attestation = take_bytes(acc.pop().unwrap());
    let eat_nonce = take_bytes(acc.pop().unwrap());
    let iat = take_uint(acc.pop().unwrap());
    let artifact_hash = take_bytes(acc.pop().unwrap());
    let source_hash = take_bytes(acc.pop().unwrap());
    let tls_spki_hash = take_bytes(acc.pop().unwrap());
    let platform_quote = take_bytes(acc.pop().unwrap());
    let platform_measurement = take_bytes(acc.pop().unwrap());
    let platform = take_uint(acc.pop().unwrap());
    let value_x = take_bytes(acc.pop().unwrap());
    let eat_profile = take_text(acc.pop().unwrap());
    let version = take_uint(acc.pop().unwrap());
    EatToken {
        version: version as u32,
        eat_profile,
        value_x: array48(value_x.as_slice()),
        platform: platform as u8,
        platform_measurement,
        platform_quote,
        tls_spki_hash: array32(tls_spki_hash.as_slice()),
        source_hash: array48(source_hash.as_slice()),
        artifact_hash: array48(artifact_hash.as_slice()),
        iat,
        eat_nonce: array32(eat_nonce.as_slice()),
        previous_attestation,
    }
}

/// The first required claim that is absent.
fn find_missing(acc: &Vec<Option<Claim>>) -> (r: Option<usize>)
    requires
        acc@.len() == 12,
    ensures
        match r {
            Some(i) => i < 11 && first_missing(claims_view(acc@)) == Some(i as int),
            None => first_missing(claims_view(acc@)) is None,
        },
{
    let ghost av = claims_view(acc@);
    let mut i: usize = 0;
    while i < 11
        invariant
            i <= 11,
            acc@.len() == 12,
            av == claims_view(acc@),
            first_missing(av) == first_missing_from(av, i as int),
        decreases 11 - i,
    {
        if acc[i].is_none() {
            return Some(i);
        }
        i = i + 1;
    }
    None
}

/// The text of a decoding failure. A missing, duplicate or wrong-length
/// field reads as the semantic error that deserializing the token's fields
/// reports for it; a malformed map or a value of the wrong kind has a text
/// of its own.
pub open spec fn failure_text(e: ClaimError) -> Seq<char> {
    match e {
        ClaimError::Malformed => "not a CBOR map of claims"@,
        ClaimError::Invalid(i) => "invalid value for claim `"@ + claim_name(i as int) + "`"@,
        ClaimError::Duplicate(i) => "Semantic(None, \"duplicate field `"@ + claim_name(i as int)
            + "`\")"@,
        ClaimError::Missing(i) => "Semantic(None, \"missing field `"@ + claim_name(i as int)
            + "`\")"@,
        ClaimError::Length(i, got) => "Semantic(None, \"invalid length "@ + decimal(got as nat)
            + ", expected "@ + decimal(claim_fixed_len(i as int)->0) + "-byte array\")"@,
        ClaimError::OutOfRange(i, a) => "Semantic(None, \"invalid value: integer `"@ + decimal(
            a as nat,
        ) + "`, expected "@ + uint_type_name(i as int) + "\")"@,
        ClaimError::Negative(_) => "Semantic(None, \"unexpected negative integer\")"@,
    }
}

/// The Rust type of an integer claim.
pub open spec fn uint_type_name(i: int) -> Seq<char> {
    if i == 0 {
        "u32"@
    } else if i == 3 {
        "u8"@
    } else {
        "u64"@
    }
}

/// `err` is how [`EatToken::from_cbor`] reports the decoding failure `e`:
/// as a decode error with its text.
pub open spec fn reports(err: EatError, e: ClaimError) -> bool {
    err matches EatError::Decode(msg) && msg@ == failure_text(e)
}

/// The claim that a failure names is one of the schema's.
pub open spec fn names_a_claim(e: ClaimError) -> bool {
    match e {
        ClaimError::Invalid(i) => i < 12,
        ClaimError::Duplicate(i) => i < 12,
        ClaimError::Missing(i) => i < 12,
        ClaimError::Length(i, _) => i < 12 && claim_fixed_len(i as int) is Some,
        ClaimError::OutOfRange(i, _) => i == 0 || i == 3,
        ClaimError::Negative(i) => i < 12,
        _ => true,
    }
}

fn failure_error(e: ClaimError) -> (err: EatError)
    requires
        names_a_claim(e),
    ensures
        reports(err, e),
{
    let (prefix, i, suffix): (&str, usize, &str) = match e {
        ClaimError::Malformed => {
            return EatError::Decode("not a CBOR map of claims".to_owned());
        },
        ClaimError::Length(i, got) => {
            let expected: u64 = if i == 6 || i == 10 {
                32
            } else {
                48
            };
            let mut msg = "Semantic(None, \"invalid length ".to_owned();
            push_decimal(&mut msg, got as u64);
            push_str(&mut msg, ", expected ");
            push_decimal(&mut msg, expected);
            push_str(&mut msg, "-byte array\")");
            return EatError::Decode(msg);
        },
        ClaimError::OutOfRange(i, a) => {
            let mut msg = "Semantic(None, \"invalid value: integer `".to_owned();
            push_decimal(&mut msg, a);
            push_str(&mut msg, "`, expected ");
            push_str(&mut msg, if i == 0 { "u32" } else { "u8" });
            push_str(&mut msg, "\")");
            return EatError::Decode(msg);
        },
        ClaimError::Negative(_) => {
            return EatError::Decode("Semantic(None, \"unexpected negative integer\")".to_owned());
        },
        ClaimError::Invalid(i) => ("invalid value for claim `", i, "`"),
        ClaimError::Duplicate(i) => ("Semantic(None, \"duplicate field `", i, "`\")"),
        ClaimError::Missing(i) => ("Semantic(None, \"missing field `", i, "`\")"),
    };
    let mut msg = prefix.to_owned();
    push_str(&mut msg, claim_name_str(i));
    push_str(&mut msg, suffix);
    EatError::Decode(msg)
}

/// The tokens that [`EatToken::from_cbor`] accepts: well-formed, at the
/// current schema version and profile.
pub open spec fn eat_parse(s: Seq<u8>) -> Option<EatModel> {
    match eat_decode(s) {
        Ok(m) => if m.version == EAT_VERSION && m.eat_profile == EAT_PROFILE@ {
            Some(m)
        } else {
            None
        },
        Err(_) => None,
    }
}

/// How [`EatToken::from_cbor`] answers the bytes `s`.
pub open spec fn from_cbor_result(s: Seq<u8>, r: Result<EatToken, EatError>) -> bool {
    match eat_decode(s) {
        Ok(m) => if m.version != EAT_VERSION {
            r matches Err(EatError::VersionMismatch { expected, got }) && expected == EAT_VERSION
                && got == m.version
        } else if m.eat_profile != EAT_PROFILE@ {
            r matches Err(EatError::ProfileMismatch { expected, got }) && expected@ == EAT_PROFILE@
                && got@ == m.eat_profile
        } else {
            r matches Ok(t) && t@ == m
        },
        Err(e) => r matches Err(err) && reports(err, e),
    }
}

impl EatToken {
    /// Checks the schema version and the profile.
    fn validate_shape(&self) -> (r: Result<(), EatError>)
        ensures
            if self.version != EAT_VERSION {
                r matches Err(EatError::VersionMismatch { expected, got }) && expected == EAT_VERSION
                    && got == self.version
            } else if self.eat_profile@ != EAT_PROFILE@ {
                r matches Err(EatError::ProfileMismatch { expected, got }) && expected@
                    == EAT_PROFILE@ && got@ == self.eat_profile@
            } else {
                r is Ok
            },
    {
        if self.version != EAT_VERSION {
            return Err(EatError::VersionMismatch { expected: EAT_VERSION, got: self.version });
        }
        let same = bytes_eq(self.eat_profile.as_str().as_bytes(), EAT_PROFILE.as_bytes());
        proof {
            if same {
                assert(decode_utf8(encode_utf8(self.eat_profile@)) == decode_utf8(encode_utf8(EAT_PROFILE@)));
            }
        }
        if !same {
            return Err(
                EatError::ProfileMismatch {
                    expected: EAT_PROFILE.to_owned(),
                    got: self.eat_profile.clone(),
                },
            );
        }
        Ok(())
    }

    /// Decode a CBOR byte slice into a token, then check its version and
    /// profile. The embedded platform quote is not verified here.
    pub fn from_cbor(bytes: &[u8]) -> (r: Result<Self, EatError>)
        ensures
            from_cbor_result(bytes@, r),
            r is Ok <==> eat_parse(bytes@) is Some,
            r matches Ok(t) ==> eat_parse(bytes@) == Some(t@),
    {
        assert(bytes@.skip(0) == bytes@);
        assert(bytes@.len() == bytes.len());
        let t = skip_tags(bytes, 0);
        proof {
            crate::cbor::lemma_parse_head_len(bytes@.skip(t as int));
        }
        let (major, count, n) = match read_head(bytes, t) {
            Some(h) => h,
            None => return Err(failure_error(ClaimError::Malformed)),
        };
        if major != 5 {
            return Err(failure_error(ClaimError::Malformed));
        }
        assert(bytes@.skip(t + n) == bytes@.skip(t as int).skip(n as int));
        let acc = match read_claims(bytes, t + n, count) {
            Ok(acc) => acc,
            Err(e) => return Err(failure_error(e)),
        };
        if let Some(i) = find_missing(&acc) {
            return Err(failure_error(ClaimError::Missing(i)));
        }
        let token = token_of_claims(acc);
        match token.validate_shape() {
            Ok(()) => Ok(token),
            Err(e) => Err(e),
        }
    }
}

// ---------------------------------------------------------------- binding

/// Commitment to the previous stage: 32 zero bytes for a root (stage 0),
/// else sha256 of the previous stage's CBOR.
pub open spec fn previous_hash_of(m: EatModel) -> Seq<u8> {
    if m.previous_attestation.len() == 0 {
        Seq::new(32, |i: int| 0u8)
    } else {
        sha256(m.previous_attestation)
    }
}

/// The message whose sha256 is the binding: every claim but the platform
/// quote and measurement, fixed-width integers big-endian, the profile
/// prefixed with its byte length (as a 32-bit number), and the previous
/// stage through its fixed-size commitment.
pub open spec fn binding_preimage(m: EatModel) -> Seq<u8> {
    be_bytes(m.version as nat, 4) + be_bytes(
        (encode_utf8(m.eat_profile).len() as u32) as nat,
        4,
    ) + encode_utf8(m.eat_profile) + m.value_x + seq![m.platform] + m.tls_spki_hash
        + m.source_hash + m.artifact_hash + be_bytes(m.iat as nat, 8) + m.eat_nonce
        + previous_hash_of(m)
}

/// The 32-byte binding of a model.
pub open spec fn binding_of(m: EatModel) -> Seq<u8> {
    sha256(binding_preimage(m))
}

impl EatToken {
    /// The 32-byte binding that goes into the TEE quote's
    /// `report_data[0..32]`.
    pub fn binding_bytes(&self) -> (r: [u8; 32])
        ensures
            r@ == binding_of(self@),
    {
        let mut h: Vec<u8> = Vec::new();
        push_be(&mut h, self.version as u64, 4);
        let p = self.eat_profile.as_str().as_bytes();
        push_be(&mut h, (p.len() as u32) as u64, 4);
        push_bytes(&mut h, p);
        push_bytes(&mut h, &self.value_x);
        h.push(self.platform);
        push_bytes(&mut h, &self.tls_spki_hash);
        push_bytes(&mut h, &self.source_hash);
        push_bytes(&mut h, &self.artifact_hash);
        push_be(&mut h, self.iat, 8);
        push_bytes(&mut h, &self.eat_nonce);
        let prev = self.previous_hash();
        push_bytes(&mut h, &prev);
        assert(h@ == binding_preimage(self@));
        sha256_digest(h.as_slice())
    }

    /// Commitment to the previous stage.
    pub fn previous_hash(&self) -> (r: [u8; 32])
        ensures
            r@ == previous_hash_of(self@),
    {
        if self.previous_attestation.len() == 0 {
            let z = [0u8; 32];
            assert(z@ == Seq::new(32, |i: int| 0u8));
            z
        } else {
            sha256_digest(self.previous_attestation.as_slice())
        }
    }

    /// Whether this token chains to a previous stage's token.
    pub fn has_previous(&self) -> (r: bool)
        ensures
            r == (self.previous_attestation@.len() > 0),
    {
        self.previous_attestation.len() > 0
    }

    /// Decode the previous stage's token, if there is one.
    pub fn decode_previous(&self) -> (r: Result<Option<Self>, EatError>)
        ensures
            self.previous_attestation@.len() == 0 ==> r matches Ok(None),
            self.previous_attestation@.len() > 0 ==> match r {
                Ok(Some(t)) => from_cbor_result(self.previous_attestation@, Ok(t)),
                Ok(None) => false,
                Err(e) => from_cbor_result(self.previous_attestation@, Err(e)),
            },
    {
        if self.previous_attestation.len() == 0 {
            return Ok(None);
        }
        match Self::from_cbor(self.previous_attestation.as_slice()) {
            Ok(t) => Ok(Some(t)),
            Err(e) => Err(e),
        }
    }

    /// Chain this token to a previous stage (to be done before the binding
    /// is computed for quote collection).
    pub fn set_previous(&mut self, previous_cbor: Vec<u8>)
        ensures
            final(self)@ == (EatModel { previous_attestation: previous_cbor@, ..old(self)@ }),
    {
        self.previous_attestation = previous_cbor;
    }

    /// The platform that the discriminant names, if any.
    pub fn platform_enum(&self) -> (r: Option<Platform>)
        ensures
            r == platform_of_code(self.platform),
    {
        platform_from_u8(self.platform)
    }
}

// ---------------------------------------------------------------- messages

/// The text of an error, as the error's display form reads.
pub open spec fn eat_error_text(e: EatError) -> Seq<char> {
    match e {
        EatError::Encode(m) => "CBOR encode failed: "@ + m@,
        EatError::Decode(m) => "CBOR decode failed: "@ + m@,
        EatError::VersionMismatch { expected, got } => "schema version mismatch: expected "@
            + decimal(expected as nat) + ", got "@ + decimal(got as nat),
        EatError::ProfileMismatch { expected, got } => "profile mismatch: expected "@ + expected@
            + ", got "@ + got@,
        EatError::LengthMismatch { field, expected, got } => "field length invalid: "@ + field@
            + " expected "@ + decimal(expected as nat) + " got "@ + decimal(got as nat),
    }
}

/// The text of the error that [`EatToken::from_cbor`] gives for bytes it
/// refuses.
pub open spec fn parse_failure_text(s: Seq<u8>) -> Seq<char> {
    match eat_decode(s) {
        Ok(m) => if m.version != EAT_VERSION {
            "schema version mismatch: expected "@ + decimal(EAT_VERSION as nat) + ", got "@ + decimal(
                m.version as nat,
            )
        } else {
            "profile mismatch: expected "@ + EAT_PROFILE@ + ", got "@ + m.eat_profile
        },
        Err(e) => "CBOR decode failed: "@ + failure_text(e),
    }
}

/// The error that [`EatToken::from_cbor`] gives reads as [`parse_failure_text`].
pub proof fn lemma_from_cbor_error_text(s: Seq<u8>, e: EatError)
    requires
        from_cbor_result(s, Err(e)),
    ensures
        eat_error_text(e) == parse_failure_text(s),
{
}

impl EatError {
    /// The error's text (its display form).
    pub fn message(&self) -> (r: String)
        ensures
            r@ == eat_error_text(*self),
    {
        match self {
            EatError::Encode(m) => {
                let mut r = "CBOR encode failed: ".to_owned();
                push_str(&mut r, m.as_str());
                r
            },
            EatError::Decode(m) => {
                let mut r = "CBOR decode failed: ".to_owned();
                push_str(&mut r, m.as_str());
                r
            },
            EatError::VersionMismatch { expected, got } => {
                let mut r = "schema version mismatch: expected ".to_owned();
                push_decimal(&mut r, *expected as u64);
                push_str(&mut r, ", got ");
                push_decimal(&mut r, *got as u64);
                r
            },
            EatError::ProfileMismatch { expected, got } => {
                let mut r = "profile mismatch: expected ".to_owned();
                push_str(&mut r, expected.as_str());
                push_str(&mut r, ", got ");
                push_str(&mut r, got.as_str());
                r
            },
            EatError::LengthMismatch { field, expected, got } => {
                let mut r = "field length invalid: ".to_owned();
                push_str(&mut r, field);
                push_str(&mut r, " expected ");
                push_decimal(&mut r, *expected as u64);
                push_str(&mut r, " got ");
                push_decimal(&mut r, *got as u64);
                r
            },
        }
    }
}

} // verus!

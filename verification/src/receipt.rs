//! The receipt returned for an attestation or verification request: a
//! projection of a token and its chain plus the verdict reached on it.
use vstd::prelude::*;

use crate::eat::EatToken;
use crate::encoding::{hex_encode, hex_lower};

verus! {

/// Top-level decision for a receipt or a verification request.
#[derive(Debug, Clone, Copy, PartialEq, Eq, Structural)]
pub enum Verdict {
    /// A hardware quote was present and verified against a pinned vendor root.
    Verified,
    /// No hardware quote: a software witness receipt.
    Witness,
    /// A hardware quote was present but failed verification.
    Failed,
}

/// The lower-case name of a verdict.
pub open spec fn verdict_name(v: Verdict) -> Seq<char> {
    match v {
        Verdict::Verified => "verified"@,
        Verdict::Witness => "witness"@,
        Verdict::Failed => "failed"@,
    }
}

impl Verdict {
    pub fn as_str(&self) -> (s: &'static str)
        ensures
            s@ == verdict_name(*self),
    {
        match self {
            Verdict::Verified => "verified",
            Verdict::Witness => "witness",
            Verdict::Failed => "failed",
        }
    }
}

/// One stage in a build→runtime chain, with its own verification result.
#[derive(Debug, Clone)]
pub struct StageView {
    /// "stage0" (root / build) or "stage1+" (runtime, chains a previous).
    pub stage: String,
    pub platform: String,
    pub verdict: Verdict,
    pub value_x: String,
    pub value_x_short: String,
    pub source_hash: String,
    pub artifact_hash: String,
    pub tls_spki_hash: String,
    pub iat: u64,
    /// Platform measurements taken from the quote during verification, as
    /// (name, lower-case hex) pairs, one per name in ascending name order.
    pub measurements: Vec<(String, String)>,
    pub detail: String,
}

/// The full receipt.
#[derive(Debug, Clone)]
pub struct Receipt {
    /// Stable id: hex of the first 8 bytes of the sha256 of the token's CBOR.
    pub id: String,
    pub verdict: Verdict,
    /// Stages, runtime-first (stage1 then stage0).
    pub chain: Vec<StageView>,
    /// Whether `value_x` is the same in every stage of the chain.
    pub value_x_stable: bool,
    pub eat_version: u32,
    pub eat_profile: String,
    /// The raw token: base64 of its CBOR.
    pub eat_cbor_b64: String,
    pub detail: String,
}

/// The platform name shown for a discriminant.
pub open spec fn platform_label(code: u8) -> Seq<char> {
    if code == 1 {
        "nitro"@
    } else if code == 2 {
        "sev-snp"@
    } else if code == 3 {
        "tdx"@
    } else {
        "software-witness"@
    }
}

/// The stage name: "stage0" for a root, "stage1+" otherwise.
pub open spec fn stage_label(is_root: bool) -> Seq<char> {
    if is_root {
        "stage0"@
    } else {
        "stage1+"@
    }
}

/// The view is the projection of the token that [`stage_view`] renders.
pub open spec fn renders(
    v: StageView,
    token: EatToken,
    is_root: bool,
    verdict: Verdict,
    measurements: Seq<(String, String)>,
    detail: Seq<char>,
) -> bool {
    &&& v.stage@ == stage_label(is_root)
    &&& v.platform@ == platform_label(token.platform)
    &&& v.verdict == verdict
    &&& v.value_x@ == hex_lower(token.value_x@)
    &&& v.value_x_short@ == hex_lower(token.value_x@.take(8))
    &&& v.source_hash@ == hex_lower(token.source_hash@)
    &&& v.artifact_hash@ == hex_lower(token.artifact_hash@)
    &&& v.tls_spki_hash@ == hex_lower(token.tls_spki_hash@)
    &&& v.iat == token.iat
    &&& v.measurements@ == measurements
    &&& v.detail@ == detail
}

/// A rendered stage shows the token's own claims: each hash as the
/// lower-case hex of that same claim of the token (the artifact hash of the
/// artifact claim, the source hash of the source claim), the token's
/// `iat`, and the verdict, measurements and detail it was given.
pub proof fn lemma_stage_shows_token(
    v: StageView,
    token: EatToken,
    is_root: bool,
    verdict: Verdict,
    measurements: Seq<(String, String)>,
    detail: Seq<char>,
)
    requires
        renders(v, token, is_root, verdict, measurements, detail),
    ensures
        v.value_x@ == hex_lower(token.value_x@),
        v.value_x_short@ == hex_lower(token.value_x@.take(8)),
        v.source_hash@ == hex_lower(token.source_hash@),
        v.artifact_hash@ == hex_lower(token.artifact_hash@),
        v.tls_spki_hash@ == hex_lower(token.tls_spki_hash@),
        v.iat == token.iat,
        v.verdict == verdict,
        v.measurements@ == measurements,
        v.detail@ == detail,
{
}

/// Render a [`StageView`] from a decoded token plus its verification outcome.
pub fn stage_view(
    token: &EatToken,
    is_root: bool,
    verdict: Verdict,
    measurements: Vec<(String, String)>,
    detail: String,
) -> (v: StageView)
    ensures
        renders(v, *token, is_root, verdict, measurements@, detail@),
        v.value_x@ == hex_lower(token.value_x@),
        v.source_hash@ == hex_lower(token.source_hash@),
        v.artifact_hash@ == hex_lower(token.artifact_hash@),
        v.tls_spki_hash@ == hex_lower(token.tls_spki_hash@),
        v.iat == token.iat,
        v.verdict == verdict,
{
    let platform = if token.platform == 1 {
        "nitro"
    } else if token.platform == 2 {
        "sev-snp"
    } else if token.platform == 3 {
        "tdx"
    } else {
        "software-witness"
    };
    StageView {
        stage: if is_root {
            "stage0".to_owned()
        } else {
            "stage1+".to_owned()
        },
        platform: platform.to_owned(),
        verdict,
        value_x: hex_encode(&token.value_x),
        value_x_short: hex_encode(&token.value_x[0..8]),
        source_hash: hex_encode(&token.source_hash),
        artifact_hash: hex_encode(&token.artifact_hash),
        tls_spki_hash: hex_encode(&token.tls_spki_hash),
        iat: token.iat,
        measurements,
        detail,
    }
}

} // verus!

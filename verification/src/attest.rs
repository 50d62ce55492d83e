//! The decisions of the attest pipeline: assemble the token for a built
//! source, chain a previous stage, bind the token into `report_data`, and
//! attach the collected hardware quote.
use vstd::prelude::*;

use vstd::utf8::encode_utf8;

use crate::cbor::be_bytes;
use crate::crypto::{random_nonce, sha384, sha384_digest};
use crate::eat::{
    binding_of, eat_parse, parse_failure_text, EatModel, EatToken, EAT_PROFILE, EAT_VERSION,
};
use crate::platform::{platform_code, platform_to_u8, Platform};
use crate::quote_source::CollectedQuote;
use crate::text::{chars_of, push_str, string_from_chars};

verus! {

/// Identity and artifact derived from a submitted source tree.
pub struct BuildOutput {
    pub value_x: [u8; 48],
    pub source_hash: [u8; 48],
    pub artifact_hash: [u8; 48],
    pub build_mode: String,
    pub log: String,
}

/// One file's part of a source tree's identity: its relative path, a NUL
/// byte, its length as 8 big-endian bytes, and its contents.
pub open spec fn tree_entry(path: Seq<char>, contents: Seq<u8>) -> Seq<u8> {
    encode_utf8(path) + seq![0u8] + be_bytes(contents.len(), 8) + contents
}

/// The message whose sha384 identifies a source tree: the entries of its
/// files, in the order given.
pub open spec fn tree_preimage(files: Seq<(String, Vec<u8>)>) -> Seq<u8>
    decreases files.len(),
{
    if files.len() == 0 {
        seq![]
    } else {
        tree_preimage(files.drop_last()) + tree_entry(files.last().0@, files.last().1@)
    }
}

/// The identity (`value_x`) of a source tree from its regular files, as
/// (relative path, contents) pairs in path order.
pub fn tree_identity(files: &Vec<(String, Vec<u8>)>) -> (r: [u8; 48])
    ensures
        r@ == sha384(tree_preimage(files@)),
{
    let mut msg: Vec<u8> = Vec::new();
    for i in 0..files.len()
        invariant
            msg@ == tree_preimage(files@.take(i as int)),
    {
        let ghost before = msg@;
        crate::eat::push_bytes(&mut msg, files[i].0.as_str().as_bytes());
        msg.push(0u8);
        crate::cbor::push_be(&mut msg, files[i].1.len() as u64, 8);
        crate::eat::push_bytes(&mut msg, files[i].1.as_slice());
        assert(files@.take(i + 1).drop_last() == files@.take(i as int));
        assert(msg@ == before + tree_entry(files@[i as int].0@, files@[i as int].1@));
    }
    assert(files@.take(files@.len() as int) == files@);
    sha384_digest(msg.as_slice())
}

/// The message whose sha384 is a witnessed source's artifact hash: a
/// domain-separation prefix, then the source identity.
pub open spec fn witness_artifact_preimage(value_x: Seq<u8>) -> Seq<u8> {
    encode_utf8("attestation-service:artifact:witness:v1"@) + value_x
}

/// The build output of the identity-only builder, which runs no code: the
/// source identity stands for both the source and the artifact, and the
/// artifact hash is a domain-separated digest of it.
pub fn witness_build(value_x: [u8; 48]) -> (r: BuildOutput)
    ensures
        r.value_x == value_x,
        r.source_hash == value_x,
        r.artifact_hash@ == sha384(witness_artifact_preimage(value_x@)),
        r.build_mode@ == "witness"@,
        r.log@ == "identity-only: source unpacked and hashed; no isolated build executed"@,
{
    let mut msg: Vec<u8> = Vec::new();
    crate::eat::push_bytes(&mut msg, "attestation-service:artifact:witness:v1".as_bytes());
    crate::eat::push_bytes(&mut msg, &value_x);
    let artifact_hash = sha384_digest(msg.as_slice());
    BuildOutput {
        value_x,
        source_hash: value_x,
        artifact_hash,
        build_mode: "witness".to_owned(),
        log: "identity-only: source unpacked and hashed; no isolated build executed".to_owned(),
    }
}

/// The most characters of a build log that a build output keeps.
pub const MAX_LOG_CHARS: usize = 4000;

/// The text of a failed build command.
pub open spec fn build_failure_text(status: Seq<char>, log: Seq<char>) -> Seq<char> {
    "build command failed ("@ + status + "): "@ + log
}

/// The build output of a configured build command, from the source
/// identity, the identity of the tree after the command ran, and how the
/// command finished: its log is stdout then stderr; a failed command is an
/// error carrying the whole log, a successful one keeps the first
/// [`MAX_LOG_CHARS`] characters of it.
pub fn command_build(
    value_x: [u8; 48],
    artifact_hash: [u8; 48],
    success: bool,
    status: &str,
    stdout: &str,
    stderr: &str,
) -> (r: Result<BuildOutput, String>)
    ensures
        !success ==> (r matches Err(msg) && msg@ == build_failure_text(status@, stdout@ + stderr@)),
        success ==> (r matches Ok(b) && b.value_x == value_x && b.source_hash == value_x
            && b.artifact_hash == artifact_hash && b.build_mode@ == "command"@ && b.log@ == (
        stdout@ + stderr@).take(
            if stdout@.len() + stderr@.len() <= MAX_LOG_CHARS {
                (stdout@.len() + stderr@.len()) as int
            } else {
                MAX_LOG_CHARS as int
            },
        )),
{
    let mut log = String::new();
    push_str(&mut log, stdout);
    push_str(&mut log, stderr);
    if !success {
        let mut msg = "build command failed (".to_owned();
        push_str(&mut msg, status);
        push_str(&mut msg, "): ");
        push_str(&mut msg, log.as_str());
        return Err(msg);
    }
    let cs = chars_of(log.as_str());
    let n = if cs.len() <= MAX_LOG_CHARS { cs.len() } else { MAX_LOG_CHARS };
    let kept = string_from_chars(&cs.as_slice()[0..n]);
    assert(cs@.subrange(0, n as int) == log@.take(n as int));
    Ok(BuildOutput {
        value_x,
        source_hash: value_x,
        artifact_hash,
        build_mode: "command".to_owned(),
        log: kept,
    })
}

/// Options of an attest request.
pub struct AttestOptions {
    /// 32-byte freshness nonce (else random).
    pub nonce: Option<[u8; 32]>,
    /// CBOR of a previous-stage token to chain onto (makes this stage1+).
    pub previous_cbor: Option<Vec<u8>>,
    /// sha256 of the TLS SPKI to bind; zero if not applicable.
    pub tls_spki_hash: Option<[u8; 32]>,
}

impl Default for AttestOptions {
    fn default() -> (r: Self)
        ensures
            r.nonce is None,
            r.previous_cbor is None,
            r.tls_spki_hash is None,
    {
        AttestOptions { nonce: None, previous_cbor: None, tls_spki_hash: None }
    }
}

/// The token assembled for a build before any quote is collected: current
/// version and profile, no platform, quote or measurement, no previous
/// stage.
pub open spec fn fresh_token(
    build: BuildOutput,
    tls_spki_hash: Seq<u8>,
    iat: u64,
    nonce: Seq<u8>,
) -> EatModel {
    EatModel {
        version: EAT_VERSION,
        eat_profile: EAT_PROFILE@,
        value_x: build.value_x@,
        platform: 0,
        platform_measurement: seq![],
        platform_quote: seq![],
        tls_spki_hash,
        source_hash: build.source_hash@,
        artifact_hash: build.artifact_hash@,
        iat,
        eat_nonce: nonce,
        previous_attestation: seq![],
    }
}

/// A fresh token carries the build's identity as the build gave it: its
/// `value_x`, its source hash and its artifact hash, each in its own claim.
pub proof fn lemma_fresh_token_carries_build(
    build: BuildOutput,
    tls_spki_hash: Seq<u8>,
    iat: u64,
    nonce: Seq<u8>,
)
    ensures
        fresh_token(build, tls_spki_hash, iat, nonce).value_x == build.value_x@,
        fresh_token(build, tls_spki_hash, iat, nonce).source_hash == build.source_hash@,
        fresh_token(build, tls_spki_hash, iat, nonce).artifact_hash == build.artifact_hash@,
        fresh_token(build, tls_spki_hash, iat, nonce).tls_spki_hash == tls_spki_hash,
        fresh_token(build, tls_spki_hash, iat, nonce).iat == iat,
        fresh_token(build, tls_spki_hash, iat, nonce).eat_nonce == nonce,
{
}

/// Assemble the token for a build.
pub fn new_eat(build: &BuildOutput, tls_spki_hash: Option<[u8; 32]>, iat: u64, nonce: [u8; 32]) -> (r: EatToken)
    ensures
        r.value_x == build.value_x,
        r.source_hash == build.source_hash,
        r.artifact_hash == build.artifact_hash,
        r@ == fresh_token(
            *build,
            match tls_spki_hash {
                Some(h) => h@,
                None => Seq::new(32, |i: int| 0u8),
            },
            iat,
            nonce@,
        ),
{
    let tls = match tls_spki_hash {
        Some(h) => h,
        None => {
            let z = [0u8; 32];
            assert(z@ == Seq::new(32, |i: int| 0u8));
            z
        },
    };
    EatToken {
        version: EAT_VERSION,
        eat_profile: EAT_PROFILE.to_owned(),
        value_x: build.value_x,
        platform: 0,
        platform_measurement: Vec::new(),
        platform_quote: Vec::new(),
        tls_spki_hash: tls,
        source_hash: build.source_hash,
        artifact_hash: build.artifact_hash,
        iat,
        eat_nonce: nonce,
        previous_attestation: Vec::new(),
    }
}

/// The nonce to use: the requested one, else 32 random bytes.
pub fn choose_nonce(requested: Option<[u8; 32]>) -> (r: [u8; 32])
    ensures
        requested matches Some(n) ==> r == n,
{
    match requested {
        Some(n) => n,
        None => random_nonce(),
    }
}

/// Chain `eat` to a previous stage, after checking that the previous stage
/// is a valid token; a refused previous stage leaves `eat` unchanged.
pub fn chain_previous(eat: &mut EatToken, previous: Vec<u8>) -> (r: Result<(), String>)
    ensures
        match eat_parse(previous@) {
            Some(_) => r is Ok && final(eat)@ == (EatModel {
                previous_attestation: previous@,
                ..old(eat)@
            }),
            None => r matches Err(msg) && msg@ == "previous attestation is not a valid EAT: "@
                + parse_failure_text(previous@) && final(eat)@ == old(eat)@,
        },
{
    match EatToken::from_cbor(previous.as_slice()) {
        Ok(_) => {
            eat.set_previous(previous);
            Ok(())
        },
        Err(e) => {
            proof {
                crate::eat::lemma_from_cbor_error_text(previous@, e);
            }
            let mut msg = "previous attestation is not a valid EAT: ".to_owned();
            let text = e.message();
            push_str(&mut msg, text.as_str());
            Err(msg)
        },
    }
}

/// The 64-byte `report_data` a quote must bind: the token's binding, then
/// the first 32 bytes of its `value_x`.
pub open spec fn report_data_of(m: EatModel) -> Seq<u8> {
    binding_of(m) + m.value_x.take(32)
}

/// Compute the `report_data` for a token.
pub fn report_data(eat: &EatToken) -> (r: [u8; 64])
    ensures
        r@ == report_data_of(eat@),
{
    let binding = eat.binding_bytes();
    let mut rd = [0u8; 64];
    for i in 0..32
        invariant
            forall|j: int| 0 <= j < i ==> rd@[j] == binding@[j],
    {
        rd[i] = binding[i];
    }
    for i in 32..64
        invariant
            forall|j: int| 0 <= j < 32 ==> rd@[j] == binding@[j],
            forall|j: int| 32 <= j < i ==> rd@[j] == eat.value_x@[j - 32],
    {
        rd[i] = eat.value_x[i - 32];
    }
    assert(rd@ == report_data_of(eat@));
    rd
}

/// Attach a collected quote: its platform's discriminant, the raw quote and
/// the measurement replace the empty ones; every other claim is kept.
pub fn attach_quote(eat: &mut EatToken, quote: CollectedQuote)
    ensures
        final(eat)@ == (EatModel {
            platform: platform_code(quote.platform),
            platform_quote: quote.raw_quote@,
            platform_measurement: quote.measurement@,
            ..old(eat)@
        }),
{
    eat.platform = platform_to_u8(quote.platform);
    eat.platform_quote = quote.raw_quote;
    eat.platform_measurement = quote.measurement;
}

/// Why issuance is refused when no hardware quote source is configured.
pub fn no_quote_source_error() -> (r: String)
    ensures
        r@ == "issuance refused: no hardware quote source configured. This service only issues hardware-rooted receipts; set AS_QUOTE_SOURCE."@,
{
    "issuance refused: no hardware quote source configured. This service only issues hardware-rooted receipts; set AS_QUOTE_SOURCE.".to_owned()
}

/// Why issuance is refused when the quote source found no TEE.
pub fn no_quote_error() -> (r: String)
    ensures
        r@ == "issuance refused: hardware quote source returned no quote (no TEE present)"@,
{
    "issuance refused: hardware quote source returned no quote (no TEE present)".to_owned()
}

/// Prepare a token for a build: assemble it and chain the previous stage
/// if one is given (a previous stage that is not a valid token refuses the
/// request).
pub fn prepare(build: &BuildOutput, opts: AttestOptions, iat: u64) -> (r: Result<EatToken, String>)
    ensures
        r matches Ok(t) ==> t.value_x == build.value_x && t.source_hash == build.source_hash
            && t.artifact_hash == build.artifact_hash,
        match r {
            Ok(t) => {
                &&& (opts.nonce matches Some(n) ==> t.eat_nonce@ == n@)
                &&& t@ == (EatModel {
                    previous_attestation: match opts.previous_cbor {
                        Some(p) => p@,
                        None => seq![],
                    },
                    ..fresh_token(
                        *build,
                        match opts.tls_spki_hash {
                            Some(h) => h@,
                            None => Seq::new(32, |i: int| 0u8),
                        },
                        iat,
                        t.eat_nonce@,
                    )
                })
                &&& opts.previous_cbor matches Some(p) ==> eat_parse(p@) is Some
            },
            Err(msg) => opts.previous_cbor matches Some(p) && eat_parse(p@) is None && msg@
                == "previous attestation is not a valid EAT: "@ + parse_failure_text(p@),
        },
{
    let nonce = choose_nonce(opts.nonce);
    let mut eat = new_eat(build, opts.tls_spki_hash, iat, nonce);
    let ghost fresh = eat@;
    if let Some(prev) = opts.previous_cbor {
        match chain_previous(&mut eat, prev) {
            Ok(()) => {},
            Err(e) => return Err(e),
        }
    } else {
        assert(eat@ == (EatModel { previous_attestation: seq![], ..fresh }));
    }
    Ok(eat)
}

/// Bind a prepared token for a quote on `platform`: the token takes the
/// platform's discriminant, and the `report_data` the quote must carry is
/// computed from the token as it now stands.
pub fn bind_for_quote(eat: &mut EatToken, platform: Platform) -> (rd: [u8; 64])
    ensures
        final(eat)@ == (EatModel { platform: platform_code(platform), ..old(eat)@ }),
        rd@ == report_data_of(final(eat)@),
{
    eat.platform = platform_to_u8(platform);
    report_data(eat)
}

/// Why issuance is refused when the quote is for another platform than the
/// one the token was bound for.
pub open spec fn platform_mismatch_text() -> Seq<char> {
    "issuance refused: the collected quote is for a different platform than the one bound into report_data"@
}

/// Finish issuance with what the quote source returned for a bound token: a
/// quote for the bound platform is attached, which leaves the binding and
/// the `report_data` unchanged; a quote for another platform, or no quote
/// (no TEE present), refuses issuance.
pub fn finish_attestation(eat: EatToken, collected: Option<CollectedQuote>) -> (r: Result<EatToken, String>)
    ensures
        match collected {
            Some(q) => if platform_code(q.platform) == eat.platform {
                r matches Ok(t) && t@ == (EatModel {
                    platform_quote: q.raw_quote@,
                    platform_measurement: q.measurement@,
                    ..eat@
                }) && binding_of(t@) == binding_of(eat@) && report_data_of(t@) == report_data_of(eat@)
            } else {
                r matches Err(msg) && msg@ == platform_mismatch_text()
            },
            None => r matches Err(msg) && msg@
                == "issuance refused: hardware quote source returned no quote (no TEE present)"@,
        },
{
    match collected {
        Some(q) => {
            if platform_to_u8(q.platform) != eat.platform {
                return Err(
                    "issuance refused: the collected quote is for a different platform than the one bound into report_data".to_owned(),
                );
            }
            let ghost before = eat@;
            let mut eat = eat;
            attach_quote(&mut eat, q);
            proof {
                lemma_attach_keeps_binding(before, eat@);
            }
            Ok(eat)
        },
        None => Err(no_quote_error()),
    }
}

/// Attaching a quote for the platform the token was bound for leaves the
/// binding and the `report_data` unchanged, so the quote collected for a
/// token still binds it afterwards.
pub proof fn lemma_attach_keeps_binding(before: EatModel, after: EatModel)
    requires
        after == (EatModel {
            platform_quote: after.platform_quote,
            platform_measurement: after.platform_measurement,
            ..before
        }),
    ensures
        binding_of(after) == binding_of(before),
        report_data_of(after) == report_data_of(before),
{
    crate::eat_laws::lemma_binding_ignores_quote(before, after);
}

/// The token that issuance completes carries, in its binding, exactly the
/// `report_data` handed to the quote source: the quote binds the issued
/// token.
pub proof fn lemma_issued_token_is_bound(
    prepared: EatModel,
    bound: EatModel,
    rd: Seq<u8>,
    platform: Platform,
    issued: EatModel,
    quote: Seq<u8>,
    measurement: Seq<u8>,
)
    requires
        bound == (EatModel { platform: platform_code(platform), ..prepared }),
        rd == report_data_of(bound),
        rd.len() == 64,
        prepared.value_x.len() == 48,
        issued == (EatModel { platform_quote: quote, platform_measurement: measurement, ..bound }),
    ensures
        rd == report_data_of(issued),
        rd.take(32) == binding_of(issued),
        rd.skip(32) == issued.value_x.take(32),
{
    lemma_attach_keeps_binding(bound, issued);
    assert(rd.take(32) =~= binding_of(issued));
    assert(rd.skip(32) =~= issued.value_x.take(32));
}

} // verus!

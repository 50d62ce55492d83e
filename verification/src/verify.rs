//! The verification engine's decisions: decode a submitted token, walk its
//! build→runtime chain, turn each stage's quote-verification outcome into a
//! stage view, and reach the receipt's verdict.
use vstd::prelude::*;
use vstd::utf8::{decode_utf8, encode_utf8, valid_utf8};

use crate::crypto::{sha256, sha256_digest};
use crate::eat::{
    binding_of, eat_encode, eat_parse, parse_failure_text, well_sized, EatModel, EatToken,
    EAT_PROFILE, EAT_VERSION,
};
use crate::cbor::tag_prefix_len;
use crate::encoding::{
    base64_decode, base64_decoded, base64_encode, base64_encoded, hex_encode, hex_lower, is_base64_char,
    is_base64_text,
};
use crate::platform::{platform_name, platform_of_code, Platform};
use crate::measurements::{measurements_of, report_map, shows, sorted_names};
use crate::receipt::{renders, stage_view, Receipt, StageView, Verdict};
use crate::text::{decimal, push_decimal, push_str, trim_chars};

verus! {

/// How [`decode_eat`] answers a request body: the token it holds as raw
/// CBOR, else as base64 text (surrounding white space ignored).
pub open spec fn decode_eat_result(body: Seq<u8>, r: Result<EatToken, String>) -> bool {
    match eat_parse(body) {
        Some(m) => r matches Ok(t) && t@ == m,
        None => if !valid_utf8(body) {
            r matches Err(msg) && msg@ == "body is neither CBOR nor UTF-8 base64"@
        } else {
            match base64_decoded(encode_utf8(trim_chars(decode_utf8(body)))) {
                Err(e) => r matches Err(msg) && msg@ == "not CBOR and not valid base64: "@ + e,
                Ok(raw) => match eat_parse(raw) {
                    Some(m) => r matches Ok(t) && t@ == m,
                    None => r matches Err(msg) && msg@ == "decoded base64 is not a valid EAT: "@
                        + parse_failure_text(raw),
                },
            }
        },
    }
}

/// The base64 text `text` decodes to the bytes whose encoding it is.
pub open spec fn base64_round_trip_at(text: Seq<char>) -> bool {
    forall|d: Seq<u8>| #[trigger] base64_encoded(d) == text ==> base64_decoded(encode_utf8(text))
        == Ok::<Seq<u8>, Seq<char>>(d)
}

/// Decode a token from raw CBOR, or from a base64-encoded CBOR string.
pub fn decode_eat(body: &[u8]) -> (r: Result<EatToken, String>)
    ensures
        decode_eat_result(body@, r),
        eat_parse(body@) is None && valid_utf8(body@) ==> base64_round_trip_at(
            trim_chars(decode_utf8(body@)),
        ),
{
    if let Ok(t) = EatToken::from_cbor(body) {
        return Ok(t);
    }
    let text = match core::str::from_utf8(body) {
        Ok(s) => s,
        Err(_) => return Err("body is neither CBOR nor UTF-8 base64".to_owned()),
    };
    let trimmed = text.trim();
    let input = trimmed.as_bytes();
    let decoded = base64_decode(input);
    proof {
        assert(input@ == encode_utf8(trimmed@));
        vstd::utf8::encode_utf8_valid_utf8(trimmed@);
        vstd::utf8::encode_utf8_decode_utf8(trimmed@);
        assert(decode_utf8(input@) == trimmed@);
        assert(valid_utf8(input@));
        assert forall|d: Seq<u8>| #[trigger] base64_encoded(d) == trimmed@ implies base64_decoded(
            encode_utf8(trimmed@),
        ) == Ok::<Seq<u8>, Seq<char>>(d) by {
            assert(crate::encoding::decodes_encodings(input@, decoded));
        }
    }
    let raw = match decoded {
        Ok(raw) => raw,
        Err(e) => {
            let mut msg = "not CBOR and not valid base64: ".to_owned();
            push_str(&mut msg, e.as_str());
            return Err(msg);
        },
    };
    match EatToken::from_cbor(raw.as_slice()) {
        Ok(t) => Ok(t),
        Err(e) => {
            proof {
                crate::eat::lemma_from_cbor_error_text(raw@, e);
            }
            let mut msg = "decoded base64 is not a valid EAT: ".to_owned();
            let text = e.message();
            push_str(&mut msg, text.as_str());
            Err(msg)
        },
    }
}

/// The quote check a stage calls for: its platform and binding, when the
/// token names a hardware platform and carries a quote.
pub open spec fn quote_check(m: EatModel) -> Option<(Platform, Seq<u8>)> {
    match platform_of_code(m.platform) {
        Some(p) => if m.platform_quote.len() > 0 {
            Some((p, binding_of(m)))
        } else {
            None
        },
        None => None,
    }
}

/// A stage's quote is checked exactly when the stage names a hardware
/// platform (any of them) and carries a non-empty quote, and then it is
/// checked for that platform against the stage's binding.
pub proof fn lemma_quote_checked_for_every_platform(m: EatModel, p: Platform)
    ensures
        quote_check(m) is Some <==> (platform_of_code(m.platform) is Some && m.platform_quote.len()
            > 0),
        m.platform == crate::platform::platform_code(p) && m.platform_quote.len() > 0 ==> quote_check(m)
            == Some((p, binding_of(m))),
        m.platform_quote.len() == 0 ==> quote_check(m) is None,
{
    crate::platform::platform_code_roundtrip(p, m.platform);
}

/// The platform and binding against which a stage's quote is to be
/// verified; `None` when the stage holds no hardware quote.
pub fn quote_request(token: &EatToken) -> (r: Option<(Platform, [u8; 32])>)
    ensures
        match r {
            Some((p, b)) => quote_check(token@) == Some((p, b@)),
            None => quote_check(token@) is None,
        },
        r is Some <==> (platform_of_code(token.platform) is Some && token.platform_quote@.len() > 0),
        r matches Some((p, b)) ==> crate::platform::platform_code(p) == token.platform && b@
            == binding_of(token@),
{
    match token.platform_enum() {
        Some(p) => {
            if token.platform_quote.len() > 0 {
                Some((p, token.binding_bytes()))
            } else {
                None
            }
        },
        None => None,
    }
}

/// The detail of a stage without a hardware quote.
pub open spec fn no_quote_detail() -> Seq<char> {
    "no hardware quote present — refused (attestation requires a hardware root of trust)"@
}

/// The view of a stage, given what the quote verifier answered for it: a
/// stage without a hardware quote is a software witness whatever the
/// outcome; a stage with one is `Verified` with the extracted measurements
/// when the verifier accepted it and `Failed` with its error otherwise.
pub open spec fn stage_outcome_view(
    v: StageView,
    token: EatToken,
    outcome: Option<Result<Seq<(String, Vec<u8>)>, Seq<char>>>,
) -> bool {
    let is_root = token.previous_attestation@.len() == 0;
    match quote_check(token@) {
        Some((p, _)) => match outcome {
            Some(Ok(meas)) => renders(v, token, is_root, Verdict::Verified, v.measurements@, "quote verified against pinned "@ + platform_name(p) + " vendor root"@)
                && sorted_names(v.measurements@) && shows(v.measurements@, report_map(meas)),
            Some(Err(e)) => renders(v, token, is_root, Verdict::Failed, seq![], e),
            None => false,
        },
        None => renders(v, token, is_root, Verdict::Witness, seq![], no_quote_detail()),
    }
}

/// Render a stage from the quote verifier's answer for it: `Ok` with the
/// measurements it extracted or `Err` with its error text. A stage that
/// carries a hardware quote must come with the verifier's answer; for a
/// stage without one the outcome is ignored.
pub fn stage_from_outcome(
    token: &EatToken,
    outcome: Option<Result<Vec<(String, Vec<u8>)>, String>>,
) -> (v: StageView)
    requires
        quote_check(token@) is Some ==> outcome is Some,
    ensures
        stage_outcome_view(v, *token, outcome_view(outcome)),
{
    let is_root = !token.has_previous();
    match quote_request(token) {
        Some((p, _)) => match outcome {
            Some(Ok(meas)) => {
                let m = measurements_of(&meas);
                let mut detail = "quote verified against pinned ".to_owned();
                push_str(&mut detail, p.as_str());
                push_str(&mut detail, " vendor root");
                stage_view(token, is_root, Verdict::Verified, m, detail)
            },
            Some(Err(e)) => stage_view(token, is_root, Verdict::Failed, Vec::new(), e),
            None => vstd::pervasive::unreached(),
        },
        None => stage_view(
            token,
            is_root,
            Verdict::Witness,
            Vec::new(),
            "no hardware quote present — refused (attestation requires a hardware root of trust)".to_owned(),
        ),
    }
}

/// The spec value of a quote verifier's answer.
pub open spec fn outcome_view(
    outcome: Option<Result<Vec<(String, Vec<u8>)>, String>>,
) -> Option<Result<Seq<(String, Vec<u8>)>, Seq<char>>> {
    match outcome {
        Some(Ok(meas)) => Some(Ok(meas@)),
        Some(Err(e)) => Some(Err(e@)),
        None => None,
    }
}

/// The stages of a chain, runtime first: the token, then each previous
/// stage that decodes, until a root or a previous stage that does not
/// decode.
pub open spec fn stage_chain(m: EatModel) -> Seq<EatModel>
    decreases m.previous_attestation.len(),
{
    if m.previous_attestation.len() == 0 {
        seq![m]
    } else {
        match eat_parse(m.previous_attestation) {
            Some(p) => {
                proof {
                    crate::eat_laws::lemma_previous_shorter(m.previous_attestation);
                }
                seq![m] + stage_chain(p)
            },
            None => seq![m],
        }
    }
}

pub open spec fn models(ts: Seq<EatToken>) -> Seq<EatModel> {
    Seq::new(ts.len(), |i: int| ts[i]@)
}

/// Collect a token and its chain of previous stages, runtime first.
pub fn collect_chain(token: EatToken) -> (chain: Vec<EatToken>)
    ensures
        models(chain@) == stage_chain(token@),
{
    let ghost top = token@;
    let mut chain: Vec<EatToken> = Vec::new();
    let mut cursor = token;
    loop
        invariant
            top == token@,
            models(chain@) + stage_chain(cursor@) == stage_chain(top),
        decreases cursor.previous_attestation@.len(),
    {
        let ghost c = cursor@;
        let ghost before = models(chain@);
        match cursor.decode_previous() {
            Ok(Some(prev)) => {
                proof {
                    crate::eat_laws::lemma_previous_shorter(c.previous_attestation);
                    assert(eat_parse(c.previous_attestation) == Some(prev@));
                }
                chain.push(cursor);
                assert(models(chain@) == before.push(c));
                assert(stage_chain(c) == seq![c] + stage_chain(prev@));
                assert(before + stage_chain(c) == before.push(c) + stage_chain(prev@));
                cursor = prev;
            },
            _ => {
                proof {
                    if c.previous_attestation.len() > 0 {
                        assert(eat_parse(c.previous_attestation) is None);
                    }
                }
                chain.push(cursor);
                assert(models(chain@) == before.push(c));
                assert(stage_chain(c) == seq![c]);
                assert(before + seq![c] == before.push(c));
                return chain;
            },
        }
    }
}

/// `value_x` is the same in every stage.
pub open spec fn value_x_stable(ms: Seq<EatModel>) -> bool {
    forall|i: int| 0 <= i < ms.len() - 1 ==> #[trigger] ms[i].value_x == ms[i + 1].value_x
}

/// Some stage has the verdict `v`.
pub open spec fn some_stage(vs: Seq<StageView>, v: Verdict) -> bool {
    exists|i: int| 0 <= i < vs.len() && #[trigger] vs[i].verdict == v
}

/// The receipt's verdict and detail for a chain.
pub open spec fn chain_decision(stable: bool, vs: Seq<StageView>) -> (Verdict, Seq<char>) {
    if !stable {
        (Verdict::Failed, "value_x is not stable across the chain — runtime is not the built source"@)
    } else if some_stage(vs, Verdict::Failed) {
        (Verdict::Failed, "one or more stages failed verification"@)
    } else if some_stage(vs, Verdict::Verified) {
        (
            Verdict::Verified,
            decimal(vs.len()) + " stage(s) verified against pinned vendor roots"@,
        )
    } else {
        (
            Verdict::Witness,
            "no hardware quote in the chain — refused (attestation requires a hardware root)"@,
        )
    }
}

fn stable_exec(chain: &Vec<EatToken>) -> (r: bool)
    ensures
        r == value_x_stable(models(chain@)),
{
    let n = chain.len();
    if n < 2 {
        return true;
    }
    for i in 1..n
        invariant
            n == chain@.len(),
            forall|j: int| 0 <= j < i - 1 ==> #[trigger] models(chain@)[j].value_x == models(chain@)[j + 1].value_x,
    {
        if !crate::eat::bytes_eq(&chain[i - 1].value_x, &chain[i].value_x) {
            assert(models(chain@)[i - 1].value_x != models(chain@)[(i - 1) + 1].value_x);
            return false;
        }
        assert(models(chain@)[i - 1].value_x == models(chain@)[(i - 1) + 1].value_x);
    }
    true
}

fn some_stage_exec(vs: &Vec<StageView>, v: Verdict) -> (r: bool)
    ensures
        r == some_stage(vs@, v),
{
    for i in 0..vs.len()
        invariant
            forall|j: int| 0 <= j < i ==> #[trigger] vs@[j].verdict != v,
    {
        if vs[i].verdict == v {
            return true;
        }
    }
    false
}

/// Assemble the receipt for a token, its chain (runtime first) and one view
/// per stage.
fn receipt_of(token: &EatToken, chain: &Vec<EatToken>, views: Vec<StageView>) -> (r: Receipt)
    ensures
        r.id@ == hex_lower(sha256(eat_encode(token@)).take(8)),
        r.value_x_stable == value_x_stable(models(chain@)),
        (r.verdict, r.detail@) == chain_decision(r.value_x_stable, views@),
        r.chain@ == views@,
        r.eat_version == token.version,
        r.eat_profile@ == token.eat_profile@,
        r.eat_cbor_b64@ == base64_encoded(eat_encode(token@)),
        is_base64_text(r.eat_cbor_b64@),
{
    let stable = stable_exec(chain);
    let any_failed = some_stage_exec(&views, Verdict::Failed);
    let any_verified = some_stage_exec(&views, Verdict::Verified);
    let (verdict, detail) = if !stable {
        (Verdict::Failed, "value_x is not stable across the chain — runtime is not the built source".to_owned())
    } else if any_failed {
        (Verdict::Failed, "one or more stages failed verification".to_owned())
    } else if any_verified {
        let mut d = String::new();
        push_decimal(&mut d, views.len() as u64);
        push_str(&mut d, " stage(s) verified against pinned vendor roots");
        (Verdict::Verified, d)
    } else {
        (Verdict::Witness, "no hardware quote in the chain — refused (attestation requires a hardware root)".to_owned())
    };
    let cbor = match token.to_cbor() {
        Ok(c) => c,
        Err(_) => Vec::new(),
    };
    let digest = sha256_digest(cbor.as_slice());
    Receipt {
        id: hex_encode(&digest[0..8]),
        verdict,
        chain: views,
        value_x_stable: stable,
        eat_version: token.version,
        eat_profile: token.eat_profile.clone(),
        eat_cbor_b64: base64_encode(cbor.as_slice()),
        detail,
    }
}

/// Verify a token's chain, as [`collect_chain`] gives it (runtime first),
/// given the quote verifier's answer for each stage, and assemble its
/// receipt: stage `i` is rendered from `chain[i]` and `outcomes[i]`, and
/// the first stage is the token itself.
pub fn receipt_for_chain(
    token: &EatToken,
    chain: &Vec<EatToken>,
    outcomes: Vec<Option<Result<Vec<(String, Vec<u8>)>, String>>>,
) -> (r: Receipt)
    requires
        models(chain@) == stage_chain(token@),
        outcomes@.len() == chain@.len(),
        forall|i: int| 0 <= i < chain@.len() && quote_check(#[trigger] chain@[i]@) is Some ==> outcomes@[i] is Some,
    ensures
        r.chain@.len() == chain@.len(),
        r.chain@.len() >= 1,
        r.chain@[0].value_x@ == hex_lower(token.value_x@),
        r.chain@[0].stage@ == crate::receipt::stage_label(token.previous_attestation@.len() == 0),
        r.chain@[0].iat == token.iat,
        forall|i: int| 0 <= i < chain@.len() ==> stage_outcome_view(#[trigger] r.chain@[i], chain@[i], outcome_view(outcomes@[i])),
        r.id@ == hex_lower(sha256(eat_encode(token@)).take(8)),
        r.value_x_stable == value_x_stable(models(chain@)),
        (r.verdict, r.detail@) == chain_decision(r.value_x_stable, r.chain@),
        r.eat_version == token.version,
        r.eat_profile@ == token.eat_profile@,
        r.eat_cbor_b64@ == base64_encoded(eat_encode(token@)),
        is_base64_text(r.eat_cbor_b64@),
{
    let mut views: Vec<StageView> = Vec::new();
    let mut rest = outcomes;
    let ghost all = rest@;
    let mut i: usize = 0;
    while i < chain.len()
        invariant
            all.len() == chain@.len(),
            i <= chain@.len(),
            views@.len() == i,
            rest@ == all.skip(i as int),
            forall|k: int| 0 <= k < chain@.len() && quote_check(#[trigger] chain@[k]@) is Some ==> all[k] is Some,
            forall|k: int| 0 <= k < i ==> stage_outcome_view(#[trigger] views@[k], chain@[k], outcome_view(all[k])),
        decreases chain@.len() - i,
    {
        let ghost before = views@;
        let outcome = rest.remove(0);
        assert(outcome == all[i as int]);
        let v = stage_from_outcome(&chain[i], outcome);
        views.push(v);
        assert forall|k: int| 0 <= k < i + 1 implies stage_outcome_view(#[trigger] views@[k], chain@[k], outcome_view(all[k])) by {
            if k < i {
                assert(views@[k] == before[k]);
            }
        }
        assert(rest@ == all.skip(i + 1));
        i = i + 1;
    }
    let r = receipt_of(token, chain, views);
    proof {
        lemma_first_stage_is_token(*token, chain@, r, all.map_values(|o| outcome_view(o)));
    }
    r
}

/// The first stage of a token's receipt is the token itself: its view
/// shows the token's `value_x` and the token's stage name.
pub proof fn lemma_first_stage_is_token(token: EatToken, chain: Seq<EatToken>, r: Receipt, outcomes: Seq<Option<Result<Seq<(String, Vec<u8>)>, Seq<char>>>>)
    requires
        models(chain) == stage_chain(token@),
        r.chain@.len() == chain.len(),
        outcomes.len() == chain.len(),
        forall|i: int| 0 <= i < chain.len() ==> stage_outcome_view(#[trigger] r.chain@[i], chain[i], outcomes[i]),
    ensures
        r.chain@.len() >= 1,
        r.chain@[0].value_x@ == hex_lower(token.value_x@),
        r.chain@[0].stage@ == crate::receipt::stage_label(token.previous_attestation@.len() == 0),
        r.chain@[0].iat == token.iat,
{
    lemma_stage_chain(token@);
    assert(models(chain)[0] == token@);
    assert(stage_outcome_view(r.chain@[0], chain[0], outcomes[0]));
}

/// An ASCII white-space character (space, tab, line feed, vertical tab,
/// form feed, carriage return).
pub open spec fn is_ascii_white(c: char) -> bool {
    c == ' ' || ('\u{9}' <= c && c <= '\u{d}')
}

/// Bytes that open with an ASCII character (or are empty) hold no token:
/// a token starts with a map or tag head.
proof fn lemma_ascii_start_not_token(s: Seq<u8>)
    requires
        s.len() == 0 || s[0] < 128,
    ensures
        eat_parse(s) is None,
{
    if s.len() > 0 {
        assert(s[0] / 32 < 4);
        assert(tag_prefix_len(s) == 0);
        assert(s.skip(0) == s);
    }
}

/// A token's base64 text, as a receipt carries it, decodes back to the
/// token, also with ASCII white space around it: what [`decode_eat`]
/// promises for such a body is the token.
pub proof fn lemma_decode_eat_recovers(
    m: EatModel,
    text: Seq<char>,
    pre: Seq<char>,
    post: Seq<char>,
    res: Result<EatToken, String>,
)
    requires
        well_sized(m),
        m.version == EAT_VERSION,
        m.eat_profile == EAT_PROFILE@,
        text == base64_encoded(eat_encode(m)),
        is_base64_text(text),
        forall|i: int| 0 <= i < pre.len() ==> is_ascii_white(#[trigger] pre[i]),
        forall|i: int| 0 <= i < post.len() ==> is_ascii_white(#[trigger] post[i]),
        decode_eat_result(encode_utf8(pre + text + post), res),
        eat_parse(encode_utf8(pre + text + post)) is None && valid_utf8(encode_utf8(pre + text + post))
            ==> base64_round_trip_at(trim_chars(decode_utf8(encode_utf8(pre + text + post)))),
    ensures
        res matches Ok(t) && t@ == m,
{
    let chars = pre + text + post;
    assert(vstd::utf8::is_ascii_chars(chars)) by {
        assert forall|i: int| 0 <= i < chars.len() implies '\0' <= #[trigger] chars[i] <= '\u{7f}' by {
            if i < pre.len() {
                assert(chars[i] == pre[i]);
            } else if i < pre.len() + text.len() {
                assert(chars[i] == text[i - pre.len()]);
            } else {
                assert(chars[i] == post[i - pre.len() - text.len()]);
            }
        }
    }
    let body = encode_utf8(chars);
    vstd::utf8::is_ascii_chars_encode_utf8(chars);
    if chars.len() > 0 {
        assert(chars[0] as u8 == body[0]);
        assert((chars[0] as u32) < 128);
    }
    lemma_ascii_start_not_token(body);
    vstd::utf8::encode_utf8_valid_utf8(chars);
    vstd::utf8::encode_utf8_decode_utf8(chars);
    assert(crate::text::all_white(pre)) by {
        assert forall|i: int| 0 <= i < pre.len() implies crate::text::is_white_space(#[trigger] pre[i]) by {
            assert(is_ascii_white(pre[i]));
        }
    }
    assert(crate::text::all_white(post)) by {
        assert forall|i: int| 0 <= i < post.len() implies crate::text::is_white_space(#[trigger] post[i]) by {
            assert(is_ascii_white(post[i]));
        }
    }
    if text.len() > 0 {
        assert(is_base64_char(text[0]));
        assert(is_base64_char(text[text.len() - 1]));
    }
    crate::text::lemma_trim_padded(pre, text, post);
    crate::eat_laws::lemma_cbor_roundtrip(m, seq![]);
}

/// A receipt is `Verified` exactly when `value_x` is stable across the
/// chain, no stage failed and some stage verified; it is a `Witness` when
/// `value_x` is stable and no stage carried a hardware quote that was
/// checked (no stage verified or failed); otherwise it is `Failed`.
pub proof fn lemma_verdict(stable: bool, vs: Seq<StageView>)
    ensures
        (chain_decision(stable, vs).0 == Verdict::Verified) == (stable && !some_stage(
            vs,
            Verdict::Failed,
        ) && some_stage(vs, Verdict::Verified)),
        (chain_decision(stable, vs).0 == Verdict::Witness) == (stable && !some_stage(
            vs,
            Verdict::Failed,
        ) && !some_stage(vs, Verdict::Verified)),
        (chain_decision(stable, vs).0 == Verdict::Failed) == (!stable || some_stage(
            vs,
            Verdict::Failed,
        )),
{
}

/// A stage without a hardware quote is a software witness, whatever the
/// verifier answered, with no measurements; a stage with one is `Verified`
/// exactly when the verifier accepted its quote and `Failed` exactly when
/// the verifier refused it.
pub proof fn lemma_stage_verdict(
    v: StageView,
    token: EatToken,
    outcome: Option<Result<Seq<(String, Vec<u8>)>, Seq<char>>>,
)
    requires
        stage_outcome_view(v, token, outcome),
    ensures
        v.verdict == Verdict::Witness <==> quote_check(token@) is None,
        v.verdict == Verdict::Witness ==> v.measurements@.len() == 0,
        v.verdict == Verdict::Verified <==> (quote_check(token@) is Some && outcome matches Some(Ok(_))),
        v.verdict == Verdict::Failed <==> (quote_check(token@) is Some && outcome matches Some(Err(_))),
        v.stage@ == crate::receipt::stage_label(token.previous_attestation@.len() == 0),
{
}

/// The chain starts with the token itself, and each later stage is the
/// decoding of the previous one's `previous_attestation`; the last stage
/// is a root or carries a previous stage that does not decode.
pub proof fn lemma_stage_chain(m: EatModel)
    ensures
        stage_chain(m).len() >= 1,
        stage_chain(m)[0] == m,
        m.previous_attestation.len() > 0 && eat_parse(m.previous_attestation) is Some ==> stage_chain(m)
            == seq![m] + stage_chain(eat_parse(m.previous_attestation)->0),
        m.previous_attestation.len() == 0 || eat_parse(m.previous_attestation) is None ==> stage_chain(m)
            == seq![m],
{
    if m.previous_attestation.len() > 0 {
        if let Some(p) = eat_parse(m.previous_attestation) {
            crate::eat_laws::lemma_previous_shorter(m.previous_attestation);
        }
    }
}

} // verus!

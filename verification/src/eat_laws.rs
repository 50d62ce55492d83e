//! Facts about the token wire format: the decoder inverts the encoder, and
//! a decoded token's previous stage is shorter than the token.
use vstd::prelude::*;
use vstd::utf8::{decode_utf8, encode_utf8, is_ascii_chars, valid_utf8};

use crate::cbor::{head, lemma_parse_head, parse_head, tag_prefix_len};
use crate::eat::{
    claim_fits, claim_key, claim_name, claim_of_key, claim_of_key_from,
    claim_value, decode_claims, eat_decode, eat_encode, encode_claims, encode_value,
    first_missing, model_of_claims, no_claims, parse_claim, parse_key, well_sized,
    written_claims, eat_parse, ClaimValue, EatModel, EAT_PROFILE, EAT_VERSION,
    binding_of, binding_preimage, previous_hash_of,
};

verus! {

broadcast use vstd::utf8::group_utf8_lib;

proof fn lemma_no_tags(s: Seq<u8>)
    requires
        parse_head(s) matches Some((major, _a, _n)) && major != 6,
    ensures
        tag_prefix_len(s) == 0,
{
}

proof fn lemma_claim_names()
    ensures
        forall|i: int| 0 <= i < 12 ==> is_ascii_chars(#[trigger] claim_name(i)) && 3 <= claim_name(i).len() <= 20,
        forall|i: int, j: int| 0 <= i < 12 && 0 <= j < 12 && i != j ==> #[trigger] claim_name(i) != #[trigger] claim_name(j),
{
    reveal_strlit("version");
    reveal_strlit("eat_profile");
    reveal_strlit("value_x");
    reveal_strlit("platform");
    reveal_strlit("platform_measurement");
    reveal_strlit("platform_quote");
    reveal_strlit("tls_spki_hash");
    reveal_strlit("source_hash");
    reveal_strlit("artifact_hash");
    reveal_strlit("iat");
    reveal_strlit("eat_nonce");
    reveal_strlit("previous_attestation");
    assert(claim_name(0)[1] != claim_name(2)[1]);
    assert(claim_name(1)[0] != claim_name(7)[0]);
    assert(claim_name(4)[1] != claim_name(11)[1]);
    assert(claim_name(6)[0] != claim_name(8)[0]);
    assert forall|i: int, j: int| 0 <= i < 12 && 0 <= j < 12 && i != j implies #[trigger] claim_name(i)
        != #[trigger] claim_name(j) by {
        if claim_name(i).len() == claim_name(j).len() {
            if (i == 0 && j == 2) || (i == 2 && j == 0) {
                assert(claim_name(i)[1] != claim_name(j)[1]);
            } else if (i == 4 && j == 11) || (i == 11 && j == 4) {
                assert(claim_name(i)[1] != claim_name(j)[1]);
            } else {
                assert(claim_name(i)[0] != claim_name(j)[0]);
            }
        }
    }
}

proof fn lemma_claim_keys()
    ensures
        forall|i: int| 0 <= i < 12 ==> valid_utf8(#[trigger] claim_key(i)) && 3 <= claim_key(i).len() <= 20,
        forall|i: int, j: int| 0 <= i < 12 && 0 <= j < 12 && i != j ==> #[trigger] claim_key(i) != #[trigger] claim_key(j),
{
    lemma_claim_names();
    assert forall|i: int| 0 <= i < 12 implies valid_utf8(#[trigger] claim_key(i)) && 3 <= claim_key(i).len() <= 20 by {
        vstd::utf8::is_ascii_chars_encode_utf8(claim_name(i));
    }
    assert forall|i: int, j: int| 0 <= i < 12 && 0 <= j < 12 && i != j implies #[trigger] claim_key(i) != #[trigger] claim_key(j) by {
        if claim_key(i) == claim_key(j) {
            assert(decode_utf8(claim_key(i)) == claim_name(i));
            assert(decode_utf8(claim_key(j)) == claim_name(j));
        }
    }
}

proof fn lemma_claim_of_key_from(i: int, j: int)
    requires
        0 <= j <= i < 12,
    ensures
        claim_of_key_from(claim_key(i), j) == Some(i),
    decreases i - j,
{
    lemma_claim_keys();
    if j < i {
        assert(claim_key(i) != claim_key(j));
        lemma_claim_of_key_from(i, j + 1);
    }
}

/// Every claim key names its own claim.
pub proof fn lemma_claim_of_key(i: int)
    requires
        0 <= i < 12,
    ensures
        claim_of_key(claim_key(i)) == Some(i),
{
    lemma_claim_of_key_from(i, 0);
}

proof fn lemma_parse_key_written(i: int, rest: Seq<u8>)
    requires
        0 <= i < 12,
    ensures
        parse_key(head(3, claim_key(i).len() as u64) + claim_key(i) + rest) == Some((
            claim_key(i),
            (head(3, claim_key(i).len() as u64).len() + claim_key(i).len()) as int,
        )),
{
    lemma_claim_keys();
    let k = claim_key(i);
    let h = head(3, k.len() as u64);
    let s = h + k + rest;
    assert(s == h + (k + rest));
    lemma_parse_head(3, k.len() as u64, k + rest);
    lemma_no_tags(s);
    assert(s.skip(0) == s);
    assert(s.subrange(h.len() as int, (h.len() + k.len()) as int) == k);
}

proof fn lemma_parse_claim_written(i: int, v: ClaimValue, rest: Seq<u8>)
    requires
        0 <= i < 12,
        claim_fits(i, v),
        v matches ClaimValue::Text(t) ==> encode_utf8(t).len() <= u64::MAX,
        v matches ClaimValue::Bytes(b) ==> b.len() <= u64::MAX,
    ensures
        parse_claim(i, encode_value(v) + rest) == Ok::<_, crate::eat::ClaimError>((v, encode_value(v).len() as int)),
{
    let s = encode_value(v) + rest;
    assert(s.skip(0) == s);
    match v {
        ClaimValue::Uint(a) => {
            lemma_parse_head(0, a, rest);
            lemma_no_tags(s);
        },
        ClaimValue::Text(t) => {
            let b = encode_utf8(t);
            let h = head(3, b.len() as u64);
            assert(s == h + (b + rest));
            lemma_parse_head(3, b.len() as u64, b + rest);
            lemma_no_tags(s);
            assert(s.subrange(h.len() as int, (h.len() + b.len()) as int) == b);
        },
        ClaimValue::Bytes(b) => {
            let h = head(2, b.len() as u64);
            assert(s == h + (b + rest));
            lemma_parse_head(2, b.len() as u64, b + rest);
            lemma_no_tags(s);
            assert(s.subrange(h.len() as int, (h.len() + b.len()) as int) == b);
        },
    }
}

/// `acc` with the claims `ids` of `m` filled in.
pub open spec fn fill_claims(acc: Seq<Option<ClaimValue>>, m: EatModel, ids: Seq<int>) -> Seq<
    Option<ClaimValue>,
>
    decreases ids.len(),
{
    if ids.len() == 0 {
        acc
    } else {
        fill_claims(acc.update(ids[0], Some(claim_value(m, ids[0]))), m, ids.drop_first())
    }
}

proof fn lemma_fill_claims(acc: Seq<Option<ClaimValue>>, m: EatModel, ids: Seq<int>, j: int)
    requires
        0 <= j < acc.len(),
        forall|k: int| 0 <= k < ids.len() ==> 0 <= #[trigger] ids[k] < acc.len(),
    ensures
        fill_claims(acc, m, ids).len() == acc.len(),
        fill_claims(acc, m, ids)[j] == if ids.contains(j) {
            Some(claim_value(m, j))
        } else {
            acc[j]
        },
    decreases ids.len(),
{
    if ids.len() > 0 {
        let acc2 = acc.update(ids[0], Some(claim_value(m, ids[0])));
        assert forall|k: int| 0 <= k < ids.drop_first().len() implies 0 <= #[trigger] ids.drop_first()[k] < acc2.len() by {
            assert(ids.drop_first()[k] == ids[k + 1]);
        }
        lemma_fill_claims(acc2, m, ids.drop_first(), j);
        if ids.drop_first().contains(j) {
            let k = choose|k: int| 0 <= k < ids.drop_first().len() && ids.drop_first()[k] == j;
            assert(ids[k + 1] == j);
        }
        if ids.contains(j) && j != ids[0] {
            let k = choose|k: int| 0 <= k < ids.len() && ids[k] == j;
            assert(ids.drop_first()[k - 1] == j);
        }
    }
}

/// Claims of `m` that fit their slots, with lengths that fit a head.
pub open spec fn claims_writable(m: EatModel, ids: Seq<int>) -> bool {
    &&& forall|k: int| 0 <= k < ids.len() ==> 0 <= #[trigger] ids[k] < 12
    &&& forall|k: int, l: int| 0 <= k < l < ids.len() ==> #[trigger] ids[k] != #[trigger] ids[l]
    &&& forall|k: int| 0 <= k < ids.len() ==> claim_fits(#[trigger] ids[k], claim_value(m, ids[k]))
    &&& well_sized(m)
}

#[verifier::rlimit(50)]
proof fn lemma_decode_claims_written(
    m: EatModel,
    ids: Seq<int>,
    rest: Seq<u8>,
    acc: Seq<Option<ClaimValue>>,
    extra: nat,
)
    requires
        claims_writable(m, ids),
        acc.len() == 12,
        forall|k: int| 0 <= k < ids.len() ==> acc[#[trigger] ids[k]] is None,
    ensures
        decode_claims(encode_claims(m, ids) + rest, ids.len() + extra, acc) == decode_claims(
            rest,
            extra,
            fill_claims(acc, m, ids),
        ),
    decreases ids.len(),
{
    if ids.len() == 0 {
        assert(encode_claims(m, ids) + rest == rest);
    } else {
        let i = ids[0];
        let k = claim_key(i);
        let h = head(3, k.len() as u64);
        let v = claim_value(m, i);
        let tail = encode_claims(m, ids.drop_first()) + rest;
        let s = encode_claims(m, ids) + rest;
        assert(s == h + k + (encode_value(v) + tail));
        lemma_parse_key_written(i, encode_value(v) + tail);
        lemma_claim_of_key(i);
        let kn = h.len() + k.len();
        assert(s.skip(kn as int) == encode_value(v) + tail);
        assert(claim_fits(ids[0], claim_value(m, ids[0])));
        lemma_parse_claim_written(i, v, tail);
        let vn = encode_value(v).len();
        assert(s.skip((kn + vn) as int) == tail);
        let acc2 = acc.update(i, Some(v));
        let ids2 = ids.drop_first();
        assert forall|k2: int| 0 <= k2 < ids2.len() implies acc2[#[trigger] ids2[k2]] is None by {
            assert(ids2[k2] == ids[k2 + 1]);
            assert(ids[0] != ids[k2 + 1]);
        }
        assert(claims_writable(m, ids2)) by {
            assert forall|a: int| 0 <= a < ids2.len() implies 0 <= #[trigger] ids2[a] < 12 by {
                assert(ids2[a] == ids[a + 1]);
            }
            assert forall|a: int, b: int| 0 <= a < b < ids2.len() implies #[trigger] ids2[a] != #[trigger] ids2[b] by {
                assert(ids2[a] == ids[a + 1] && ids2[b] == ids[b + 1]);
            }
            assert forall|a: int| 0 <= a < ids2.len() implies claim_fits(#[trigger] ids2[a], claim_value(m, ids2[a])) by {
                assert(ids2[a] == ids[a + 1]);
            }
        }
        lemma_decode_claims_written(m, ids2, rest, acc2, extra);
        assert((ids.len() + extra - 1) as nat == ids2.len() + extra);
        assert(fill_claims(acc, m, ids) == fill_claims(acc2, m, ids2));
    }
}

/// Reading a written token gives the token back, whatever bytes follow it.
#[verifier::rlimit(50)]
pub proof fn lemma_eat_decode_encode(m: EatModel, rest: Seq<u8>)
    requires
        well_sized(m),
    ensures
        eat_decode(eat_encode(m) + rest) == Ok::<_, crate::eat::ClaimError>(m),
{
    let ids = written_claims(m);
    let n = ids.len();
    let h = head(5, n as u64);
    let body = encode_claims(m, ids) + rest;
    let s = eat_encode(m) + rest;
    assert(s == h + body);
    lemma_parse_head(5, n as u64, body);
    lemma_no_tags(s);
    assert(s.skip(0) == s);
    assert(s.skip(h.len() as int) == body);
    assert(claims_writable(m, ids)) by {
        assert forall|k: int| 0 <= k < ids.len() implies claim_fits(#[trigger] ids[k], claim_value(m, ids[k])) by {
            assert(ids[k] == k);
        }
    }
    lemma_decode_claims_written(m, ids, rest, no_claims(), 0);
    let acc = fill_claims(no_claims(), m, ids);
    assert forall|j: int| 0 <= j < 12 implies #[trigger] acc[j] == if ids.contains(j) {
        Some(claim_value(m, j))
    } else {
        None::<ClaimValue>
    } by {
        lemma_fill_claims(no_claims(), m, ids, j);
    }
    assert forall|j: int| 0 <= j < 11 implies #[trigger] ids.contains(j) by {
        assert(ids[j] == j);
    }
    if m.previous_attestation.len() > 0 {
        assert(ids[11] == 11);
        assert(ids.contains(11));
    } else {
        assert(!ids.contains(11));
    }
    lemma_fill_claims(no_claims(), m, ids, 0);
    assert(acc.len() == 12);
    lemma_model_of_filled(m, acc);
}

proof fn lemma_model_of_filled(m: EatModel, acc: Seq<Option<ClaimValue>>)
    requires
        acc.len() == 12,
        forall|j: int| 0 <= j < 11 ==> #[trigger] acc[j] == Some(claim_value(m, j)),
        acc[11] == if m.previous_attestation.len() > 0 {
            Some(claim_value(m, 11))
        } else {
            None::<ClaimValue>
        },
    ensures
        first_missing(acc) is None,
        model_of_claims(acc) == m,
{
    reveal_with_fuel(crate::eat::first_missing_from, 12);
    assert(acc[0] == Some(ClaimValue::Uint(m.version as u64)));
    assert(acc[1] == Some(ClaimValue::Text(m.eat_profile)));
    assert(acc[2] == Some(ClaimValue::Bytes(m.value_x)));
    assert(acc[3] == Some(ClaimValue::Uint(m.platform as u64)));
    assert(acc[4] == Some(ClaimValue::Bytes(m.platform_measurement)));
    assert(acc[5] == Some(ClaimValue::Bytes(m.platform_quote)));
    assert(acc[6] == Some(ClaimValue::Bytes(m.tls_spki_hash)));
    assert(acc[7] == Some(ClaimValue::Bytes(m.source_hash)));
    assert(acc[8] == Some(ClaimValue::Bytes(m.artifact_hash)));
    assert(acc[9] == Some(ClaimValue::Uint(m.iat)));
    assert(acc[10] == Some(ClaimValue::Bytes(m.eat_nonce)));
    if m.previous_attestation.len() == 0 {
        assert(m.previous_attestation =~= Seq::<u8>::empty());
    }
    let r = model_of_claims(acc);
    assert(r.version == m.version && r.platform == m.platform && r.iat == m.iat);
    assert(r.previous_attestation == m.previous_attestation);
}

/// A claim under a key that names no claim of the schema is skipped,
/// whatever byte string it holds: a written token with one such entry
/// added reads back as the token.
#[verifier::rlimit(50)]
pub proof fn lemma_unknown_claim_skipped(m: EatModel, key: Seq<u8>, value: Seq<u8>, rest: Seq<u8>)
    requires
        well_sized(m),
        valid_utf8(key),
        key.len() <= 4096,
        claim_of_key(key) is None,
        value.len() <= u64::MAX,
    ensures
        eat_decode(
            head(5, (written_claims(m).len() + 1) as u64) + encode_claims(m, written_claims(m)) + (
            head(3, key.len() as u64) + key + head(2, value.len() as u64) + value) + rest,
        ) == Ok::<_, crate::eat::ClaimError>(m),
        m.version == EAT_VERSION && m.eat_profile == EAT_PROFILE@ ==> eat_parse(
            head(5, (written_claims(m).len() + 1) as u64) + encode_claims(m, written_claims(m)) + (
            head(3, key.len() as u64) + key + head(2, value.len() as u64) + value) + rest,
        ) == Some(m),
{
    let ids = written_claims(m);
    let n = ids.len();
    let h = head(5, (n + 1) as u64);
    let hk = head(3, key.len() as u64);
    let hv = head(2, value.len() as u64);
    let entry = hk + key + hv + value;
    let after = entry + rest;
    let body = encode_claims(m, ids) + after;
    let s = h + encode_claims(m, ids) + entry + rest;
    assert(s == h + body);
    lemma_parse_head(5, (n + 1) as u64, body);
    lemma_no_tags(s);
    assert(s.skip(0) == s);
    assert(s.skip(h.len() as int) == body);
    assert(claims_writable(m, ids)) by {
        assert forall|k: int| 0 <= k < ids.len() implies claim_fits(#[trigger] ids[k], claim_value(m, ids[k])) by {
            assert(ids[k] == k);
        }
    }
    lemma_decode_claims_written(m, ids, after, no_claims(), 1);
    let acc = fill_claims(no_claims(), m, ids);
    // The added entry: a text key naming no claim, then a byte string.
    assert(after == hk + (key + (hv + value + rest)));
    lemma_parse_head(3, key.len() as u64, key + (hv + value + rest));
    lemma_no_tags(after);
    assert(after.skip(0) == after);
    assert(after.subrange(hk.len() as int, (hk.len() + key.len()) as int) == key);
    let kn = hk.len() + key.len();
    assert(parse_key(after) == Some((key, kn as int)));
    assert(after.skip(kn as int) == hv + value + rest);
    crate::cbor::lemma_skip_byte_string(value, crate::eat::MAX_NESTING as nat, rest);
    let vn = hv.len() + value.len();
    assert(after.skip(kn as int).skip(vn as int) == rest);
    assert(after.skip((kn + vn) as int) == rest);
    assert(decode_claims(after, 1, acc) == decode_claims(rest, 0, acc));
    assert forall|j: int| 0 <= j < 12 implies #[trigger] acc[j] == if ids.contains(j) {
        Some(claim_value(m, j))
    } else {
        None::<ClaimValue>
    } by {
        lemma_fill_claims(no_claims(), m, ids, j);
    }
    assert forall|j: int| 0 <= j < 11 implies #[trigger] ids.contains(j) by {
        assert(ids[j] == j);
    }
    if m.previous_attestation.len() > 0 {
        assert(ids[11] == 11);
        assert(ids.contains(11));
    } else {
        assert(!ids.contains(11));
    }
    lemma_fill_claims(no_claims(), m, ids, 0);
    assert(acc.len() == 12);
    lemma_model_of_filled(m, acc);
}

/// A token at the current version and profile reads back from its own
/// encoding, whatever bytes follow it.
pub proof fn lemma_cbor_roundtrip(m: EatModel, rest: Seq<u8>)
    requires
        well_sized(m),
        m.version == EAT_VERSION,
        m.eat_profile == EAT_PROFILE@,
    ensures
        eat_parse(eat_encode(m) + rest) == Some(m),
        eat_parse(eat_encode(m)) == Some(m),
{
    lemma_eat_decode_encode(m, rest);
    lemma_eat_decode_encode(m, seq![]);
    assert(eat_encode(m) + Seq::<u8>::empty() == eat_encode(m));
}

/// Every byte string held in `acc` is shorter than `bound`.
pub open spec fn bytes_shorter(acc: Seq<Option<ClaimValue>>, bound: nat) -> bool {
    forall|j: int| 0 <= j < acc.len() ==> (#[trigger] acc[j] matches Some(ClaimValue::Bytes(b))
        ==> b.len() < bound)
}

proof fn lemma_claim_of_key_range(k: Seq<u8>, j: int)
    ensures
        claim_of_key_from(k, j) matches Some(i) ==> 0 <= i < 12,
    decreases 12 - j,
{
    if 0 <= j < 12 {
        lemma_claim_of_key_range(k, j + 1);
    }
}

proof fn lemma_decode_claims_shorter(
    s: Seq<u8>,
    count: nat,
    acc: Seq<Option<ClaimValue>>,
    bound: nat,
)
    requires
        s.len() < bound,
        acc.len() == 12,
        bytes_shorter(acc, bound),
        decode_claims(s, count, acc) is Ok,
    ensures
        decode_claims(s, count, acc)->Ok_0.len() == 12,
        bytes_shorter(decode_claims(s, count, acc)->Ok_0, bound),
    decreases count,
{
    if count > 0 {
        let (k, kn) = parse_key(s)->0;
        lemma_claim_of_key_range(k, 0);
        match claim_of_key(k) {
            Some(i) => {
                let sv = s.skip(kn);
                let (v, vn) = parse_claim(i, sv)->Ok_0;
                let t2 = tag_prefix_len(sv);
                crate::cbor::lemma_parse_head_len(sv.skip(t2));
                let acc2 = acc.update(i, Some(v));
                assert(bytes_shorter(acc2, bound)) by {
                    assert forall|j: int| 0 <= j < acc2.len() implies (#[trigger] acc2[j] matches Some(
                        ClaimValue::Bytes(b),
                    ) ==> b.len() < bound) by {
                        if j == i {
                            match v {
                                ClaimValue::Bytes(b) => {
                                    assert(b.len() <= sv.len());
                                },
                                _ => {},
                            }
                        } else {
                            assert(acc2[j] == acc[j]);
                        }
                    }
                }
                lemma_decode_claims_shorter(s.skip(kn + vn), (count - 1) as nat, acc2, bound);
            },
            None => {
                let vn = crate::cbor::skip_item(s.skip(kn), crate::eat::MAX_NESTING as nat)->0;
                lemma_decode_claims_shorter(s.skip(kn + vn), (count - 1) as nat, acc, bound);
            },
        }
    }
}

/// The previous stage carried by a decoded token is shorter than the token's
/// own bytes, so walking a chain of stages ends.
pub proof fn lemma_previous_shorter(s: Seq<u8>)
    ensures
        eat_decode(s) matches Ok(m) ==> m.previous_attestation.len() < s.len(),
        eat_parse(s) matches Some(m) ==> m.previous_attestation.len() < s.len(),
{
    if eat_decode(s) is Ok {
        let t = tag_prefix_len(s);
        let (major, count, n) = parse_head(s.skip(t))->0;
        crate::cbor::lemma_parse_head_len(s.skip(t));
        assert(bytes_shorter(no_claims(), s.len()));
        lemma_decode_claims_shorter(s.skip(t + n), count as nat, no_claims(), s.len());
        let acc = decode_claims(s.skip(t + n), count as nat, no_claims())->Ok_0;
        assert(acc[11] matches Some(ClaimValue::Bytes(b)) ==> b.len() < s.len());
    }
}

/// The two models differ at most in the platform quote and measurement.
pub open spec fn same_but_quote(a: EatModel, b: EatModel) -> bool {
    &&& a.version == b.version
    &&& a.eat_profile == b.eat_profile
    &&& a.value_x == b.value_x
    &&& a.platform == b.platform
    &&& a.tls_spki_hash == b.tls_spki_hash
    &&& a.source_hash == b.source_hash
    &&& a.artifact_hash == b.artifact_hash
    &&& a.iat == b.iat
    &&& a.eat_nonce == b.eat_nonce
    &&& a.previous_attestation == b.previous_attestation
}

/// The binding excludes the platform quote and measurement: tokens that
/// differ only there have the same binding (so attaching a quote after
/// computing the binding leaves it unchanged).
pub proof fn lemma_binding_ignores_quote(a: EatModel, b: EatModel)
    requires
        same_but_quote(a, b),
    ensures
        binding_preimage(a) == binding_preimage(b),
        binding_of(a) == binding_of(b),
{
}

/// The two models differ at most in the previous stage.
pub open spec fn same_but_previous(a: EatModel, b: EatModel) -> bool {
    &&& a.version == b.version
    &&& a.eat_profile == b.eat_profile
    &&& a.value_x == b.value_x
    &&& a.platform == b.platform
    &&& a.tls_spki_hash == b.tls_spki_hash
    &&& a.source_hash == b.source_hash
    &&& a.artifact_hash == b.artifact_hash
    &&& a.iat == b.iat
    &&& a.eat_nonce == b.eat_nonce
}

/// The binding commits to the previous stage: for tokens that differ only
/// in their previous stage, the bound messages are equal exactly when the
/// previous-stage commitments are.
pub proof fn lemma_binding_commits_previous(a: EatModel, b: EatModel)
    requires
        same_but_previous(a, b),
        previous_hash_of(a).len() == previous_hash_of(b).len(),
    ensures
        binding_preimage(a) == binding_preimage(b) <==> previous_hash_of(a) == previous_hash_of(b),
{
    let pa = binding_preimage(a);
    let pb = binding_preimage(b);
    let ha = previous_hash_of(a);
    let hb = previous_hash_of(b);
    let prefix = pa.subrange(0, pa.len() - ha.len());
    assert(pa == prefix + ha);
    assert(pb == prefix + hb);
    if pa == pb {
        assert(ha == pa.subrange(prefix.len() as int, pa.len() as int));
        assert(hb == pb.subrange(prefix.len() as int, pb.len() as int));
    }
}

/// Every token the decoder accepts is at the current schema version and
/// profile (tokens of other versions are refused).
pub proof fn lemma_accepted_is_current(s: Seq<u8>)
    ensures
        eat_parse(s) matches Some(m) ==> m.version == EAT_VERSION && m.eat_profile == EAT_PROFILE@,
        eat_parse(s) is Some <==> (eat_decode(s) matches Ok(m) && m.version == EAT_VERSION
            && m.eat_profile == EAT_PROFILE@),
{
}

/// Distinct tokens have distinct encodings.
pub proof fn lemma_encode_injective(a: EatModel, b: EatModel)
    requires
        well_sized(a),
        well_sized(b),
        eat_encode(a) == eat_encode(b),
    ensures
        a == b,
{
    lemma_eat_decode_encode(a, seq![]);
    lemma_eat_decode_encode(b, seq![]);
    assert(eat_encode(a) + Seq::<u8>::empty() == eat_encode(a));
    assert(eat_encode(b) + Seq::<u8>::empty() == eat_encode(b));
}

} // verus!

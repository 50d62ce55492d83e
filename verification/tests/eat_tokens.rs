use attestation_service::eat::{EatError, EatToken, EAT_PROFILE, EAT_VERSION};
use attestation_service::platform::{platform_from_u8, platform_to_u8, Platform};
use ciborium::value::Value;
use serde::de::Error as _;
use sha2::{Digest, Sha256};

fn sample() -> EatToken {
    EatToken {
        version: EAT_VERSION,
        eat_profile: EAT_PROFILE.to_string(),
        value_x: [0x11; 48],
        platform: 3,
        platform_measurement: vec![0x22; 48],
        platform_quote: vec![0x33; 256],
        tls_spki_hash: [0x44; 32],
        source_hash: [0x55; 48],
        artifact_hash: [0x66; 48],
        iat: 1_713_312_000,
        eat_nonce: [0x77; 32],
        previous_attestation: Vec::new(),
    }
}

fn text(s: &str) -> Value {
    Value::Text(s.to_string())
}

/// The sample token written with ciborium's own value encoder.
fn sample_value(extra: Option<(Value, Value)>) -> Value {
    let t = sample();
    let mut entries = vec![
        (text("version"), Value::Integer(t.version.into())),
        (text("eat_profile"), text(&t.eat_profile)),
        (text("value_x"), Value::Bytes(t.value_x.to_vec())),
        (text("platform"), Value::Integer(t.platform.into())),
        (text("platform_measurement"), Value::Bytes(t.platform_measurement.clone())),
        (text("platform_quote"), Value::Bytes(t.platform_quote.clone())),
        (text("tls_spki_hash"), Value::Bytes(t.tls_spki_hash.to_vec())),
        (text("source_hash"), Value::Bytes(t.source_hash.to_vec())),
        (text("artifact_hash"), Value::Bytes(t.artifact_hash.to_vec())),
        (text("iat"), Value::Integer(t.iat.into())),
        (text("eat_nonce"), Value::Bytes(t.eat_nonce.to_vec())),
    ];
    if let Some(e) = extra {
        entries.push(e);
    }
    Value::Map(entries)
}

fn cbor_of(v: &Value) -> Vec<u8> {
    let mut out = Vec::new();
    ciborium::ser::into_writer(v, &mut out).unwrap();
    out
}

fn assert_same(a: &EatToken, b: &EatToken) {
    assert_eq!(a.version, b.version);
    assert_eq!(a.eat_profile, b.eat_profile);
    assert_eq!(a.value_x, b.value_x);
    assert_eq!(a.platform, b.platform);
    assert_eq!(a.platform_measurement, b.platform_measurement);
    assert_eq!(a.platform_quote, b.platform_quote);
    assert_eq!(a.tls_spki_hash, b.tls_spki_hash);
    assert_eq!(a.source_hash, b.source_hash);
    assert_eq!(a.artifact_hash, b.artifact_hash);
    assert_eq!(a.iat, b.iat);
    assert_eq!(a.eat_nonce, b.eat_nonce);
    assert_eq!(a.previous_attestation, b.previous_attestation);
}

#[test]
fn cbor_roundtrip() {
    let t = sample();
    let bytes = t.to_cbor().unwrap();
    let back = EatToken::from_cbor(&bytes).unwrap();
    assert_eq!(back.value_x, t.value_x);
    assert_eq!(back.platform, t.platform);
}

#[test]
fn binding_excludes_platform_quote_and_measurement() {
    let t1 = sample();
    let mut t2 = t1.clone();
    t2.platform_quote = vec![0xff; 16];
    t2.platform_measurement = vec![0xee; 96];
    assert_eq!(t1.binding_bytes(), t2.binding_bytes());
}

#[test]
fn chain_commits_previous_hash_into_binding() {
    let stage0 = sample();
    let stage0_cbor = stage0.to_cbor().unwrap();
    let mut stage1 = sample();
    let before = stage1.binding_bytes();
    stage1.set_previous(stage0_cbor.clone());
    let after = stage1.binding_bytes();
    assert_ne!(before, after);
    let expected: [u8; 32] = Sha256::digest(&stage0_cbor).into();
    assert_eq!(stage1.previous_hash(), expected);
}

#[test]
fn encoding_matches_ciborium_byte_for_byte() {
    assert_eq!(sample().to_cbor().unwrap(), cbor_of(&sample_value(None)));
}

#[test]
fn encoding_with_previous_matches_ciborium() {
    let mut t = sample();
    t.set_previous(vec![1, 2, 3]);
    let v = sample_value(Some((text("previous_attestation"), Value::Bytes(vec![1, 2, 3]))));
    assert_eq!(t.to_cbor().unwrap(), cbor_of(&v));
    let back = EatToken::from_cbor(&t.to_cbor().unwrap()).unwrap();
    assert_same(&back, &t);
}

#[test]
fn full_roundtrip_keeps_every_claim() {
    let mut t = sample();
    t.platform_quote = Vec::new();
    t.platform_measurement = vec![9; 3];
    t.iat = u64::MAX;
    let back = EatToken::from_cbor(&t.to_cbor().unwrap()).unwrap();
    assert_same(&back, &t);
}

#[test]
fn decoder_skips_unknown_claims_and_reordering() {
    let mut v = sample_value(Some((
        text("binding_suite"),
        Value::Array(vec![Value::Integer(1.into()), Value::Map(vec![(text("a"), Value::Null)])]),
    )));
    if let Value::Map(entries) = &mut v {
        entries.reverse();
    }
    let back = EatToken::from_cbor(&cbor_of(&v)).unwrap();
    assert_same(&back, &sample());
}

#[test]
fn decoder_ignores_trailing_bytes() {
    let mut bytes = sample().to_cbor().unwrap();
    bytes.extend_from_slice(&[0xff, 0x00]);
    assert!(EatToken::from_cbor(&bytes).is_ok());
}

#[test]
fn decoder_rejects_wrong_version() {
    let mut t = sample();
    t.version = 1;
    match EatToken::from_cbor(&t.to_cbor().unwrap()) {
        Err(EatError::VersionMismatch { expected, got }) => {
            assert_eq!(expected, 2);
            assert_eq!(got, 1);
        },
        _ => panic!("expected a version mismatch"),
    }
}

#[test]
fn decoder_rejects_wrong_profile() {
    let mut t = sample();
    t.eat_profile = "https://example.org/other".to_string();
    let err = EatToken::from_cbor(&t.to_cbor().unwrap()).err().unwrap();
    assert_eq!(
        err.message(),
        "profile mismatch: expected https://bountynet.dev/eat/v2, got https://example.org/other"
    );
}

#[test]
fn decoder_rejects_short_hash() {
    let mut v = sample_value(None);
    if let Value::Map(entries) = &mut v {
        entries[2].1 = Value::Bytes(vec![0; 47]);
    }
    let err = EatToken::from_cbor(&cbor_of(&v)).err().unwrap();
    assert!(matches!(err, EatError::Decode(_)));
    assert_eq!(err.message(), decode_failure(DeError::invalid_length(47, &"48-byte array")));
    assert_eq!(
        err.message(),
        "CBOR decode failed: Semantic(None, \"invalid length 47, expected 48-byte array\")"
    );
}

type DeError = ciborium::de::Error<std::io::Error>;

/// How the token's decoder reports a deserialization error of `ciborium`.
fn decode_failure(e: DeError) -> String {
    format!("CBOR decode failed: {}", e)
}

#[test]
fn decoder_rejects_missing_claim() {
    let mut v = sample_value(None);
    if let Value::Map(entries) = &mut v {
        entries.remove(9);
    }
    let err = EatToken::from_cbor(&cbor_of(&v)).err().unwrap();
    assert_eq!(err.message(), decode_failure(serde::de::Error::missing_field("iat")));
}

#[test]
fn decoder_rejects_duplicate_claim() {
    let v = sample_value(Some((text("platform"), Value::Integer(1.into()))));
    let err = EatToken::from_cbor(&cbor_of(&v)).err().unwrap();
    assert_eq!(err.message(), decode_failure(serde::de::Error::duplicate_field("platform")));
}

#[test]
fn decoder_rejects_out_of_range_platform() {
    let mut v = sample_value(None);
    if let Value::Map(entries) = &mut v {
        entries[3].1 = Value::Integer(256.into());
    }
    let err = EatToken::from_cbor(&cbor_of(&v)).err().unwrap();
    // What ciborium itself reports for 256 read as the `u8` claim.
    let direct = ciborium::de::from_reader::<u8, _>(&[0x19u8, 0x01, 0x00][..]).err().unwrap();
    assert_eq!(err.message(), decode_failure(direct));
    let mut v = sample_value(None);
    if let Value::Map(entries) = &mut v {
        entries[0].1 = Value::Integer((-1).into());
    }
    let err = EatToken::from_cbor(&cbor_of(&v)).err().unwrap();
    let direct = ciborium::de::from_reader::<u32, _>(&[0x20u8][..]).err().unwrap();
    assert_eq!(err.message(), decode_failure(direct));
    let mut v = sample_value(None);
    if let Value::Map(entries) = &mut v {
        entries[3].1 = Value::Text("tdx".into());
    }
    let err = EatToken::from_cbor(&cbor_of(&v)).err().unwrap();
    assert_eq!(err.message(), "CBOR decode failed: invalid value for claim `platform`");
}

#[test]
fn decoder_rejects_non_map() {
    let err = EatToken::from_cbor(&[0x83, 0x01, 0x02, 0x03]).err().unwrap();
    assert_eq!(err.message(), "CBOR decode failed: not a CBOR map of claims");
    assert!(EatToken::from_cbor(&[]).is_err());
}

#[test]
fn previous_hash_is_zero_for_a_root() {
    let t = sample();
    assert!(!t.has_previous());
    assert_eq!(t.previous_hash(), [0u8; 32]);
    assert!(t.decode_previous().unwrap().is_none());
}

#[test]
fn decode_previous_reads_the_chained_stage() {
    let stage0 = sample();
    let mut stage1 = sample();
    stage1.value_x = [0x99; 48];
    stage1.set_previous(stage0.to_cbor().unwrap());
    assert!(stage1.has_previous());
    let prev = stage1.decode_previous().unwrap().unwrap();
    assert_same(&prev, &stage0);
    stage1.set_previous(vec![0x01]);
    assert!(stage1.decode_previous().is_err());
}

#[test]
fn binding_matches_the_documented_preimage() {
    let t = sample();
    let mut h = Sha256::new();
    h.update(t.version.to_be_bytes());
    h.update((t.eat_profile.len() as u32).to_be_bytes());
    h.update(t.eat_profile.as_bytes());
    h.update(t.value_x);
    h.update([t.platform]);
    h.update(t.tls_spki_hash);
    h.update(t.source_hash);
    h.update(t.artifact_hash);
    h.update(t.iat.to_be_bytes());
    h.update(t.eat_nonce);
    h.update([0u8; 32]);
    let expected: [u8; 32] = h.finalize().into();
    assert_eq!(t.binding_bytes(), expected);
}

#[test]
fn platform_discriminants_roundtrip() {
    for p in [Platform::Nitro, Platform::SevSnp, Platform::Tdx] {
        assert_eq!(platform_from_u8(platform_to_u8(p)), Some(p));
    }
    assert_eq!(platform_to_u8(Platform::SevSnp), 2);
    assert_eq!(platform_from_u8(0), None);
    assert_eq!(Platform::SevSnp.as_str(), "sev-snp");
    let mut t = sample();
    assert_eq!(t.platform_enum(), Some(Platform::Tdx));
    t.platform = 0;
    assert_eq!(t.platform_enum(), None);
}

#[test]
fn error_messages_read_as_displayed() {
    assert_eq!(
        EatError::VersionMismatch { expected: 2, got: 7 }.message(),
        "schema version mismatch: expected 2, got 7"
    );
    assert_eq!(
        EatError::LengthMismatch { field: "eat_nonce", expected: 32, got: 31 }.message(),
        "field length invalid: eat_nonce expected 32 got 31"
    );
    assert_eq!(EatError::Encode("x".to_string()).message(), "CBOR encode failed: x");
}

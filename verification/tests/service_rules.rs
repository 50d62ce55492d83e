use base64::Engine;
use sha2::{Digest, Sha384};
use attestation_service::attest::{
    bind_for_quote, chain_previous, choose_nonce, command_build, finish_attestation, new_eat,
    prepare, report_data, witness_build, AttestOptions, BuildOutput,
};
use attestation_service::config::{
    build_command_from_config, parse_platform, parse_quote_source, quote_source_from_config,
    service_mode,
};
use attestation_service::eat::{EatToken, EAT_PROFILE, EAT_VERSION};
use attestation_service::platform::Platform;
use attestation_service::quote_source::{parse_command, CollectedQuote, CommandQuoteSource};
use attestation_service::receipt::{stage_view, Verdict};
use attestation_service::request::{
    b64_decode, field_role, hex32, nonce_from_field, parse_query, FieldRole,
};
use attestation_service::verify::{
    collect_chain, decode_eat, quote_request, receipt_for_chain, stage_from_outcome,
};

fn build() -> BuildOutput {
    BuildOutput {
        value_x: [0xaa; 48],
        source_hash: [0xbb; 48],
        artifact_hash: [0xcc; 48],
        build_mode: "witness".to_string(),
        log: String::new(),
    }
}

fn token(platform: u8, quote: Vec<u8>) -> EatToken {
    let mut t = new_eat(&build(), None, 1_700_000_000, [7u8; 32]);
    t.platform = platform;
    t.platform_quote = quote;
    t
}

#[test]
fn command_quote_source_rejects_empty_command() {
    assert!(CommandQuoteSource::new(" ".into(), Platform::Tdx).is_err());
}

#[test]
fn parse_quote_source_accepts_platform_command_pair() {
    let (platform, command) = parse_quote_source("sev-snp:uq azure collect").unwrap();
    assert!(matches!(platform, Platform::SevSnp));
    assert_eq!(command, "uq azure collect");
}

#[test]
fn parse_quote_source_rejects_missing_command() {
    let err = parse_quote_source("tdx:   ").unwrap_err();
    assert!(err.to_string().contains("command must not be empty"));
}

#[test]
fn parse_quote_source_rejects_unknown_platform() {
    let err = parse_quote_source("desktop-tpm:collect").unwrap_err();
    assert!(err.to_string().contains("unknown AS_QUOTE_SOURCE platform"));
}

#[test]
fn parse_quote_source_needs_a_colon() {
    assert_eq!(
        parse_quote_source("tdx").unwrap_err(),
        "AS_QUOTE_SOURCE must be '<platform>:<command>'"
    );
    let (p, c) = parse_quote_source(" TDX :get-quote --hex:x").unwrap();
    assert_eq!(p, Platform::Tdx);
    assert_eq!(c, "get-quote --hex:x");
}

#[test]
fn parse_platform_names() {
    assert_eq!(parse_platform("  Nitro ", "X").unwrap(), Platform::Nitro);
    assert_eq!(parse_platform("snp", "X").unwrap(), Platform::SevSnp);
    assert_eq!(parse_platform("SEV-SNP", "X").unwrap(), Platform::SevSnp);
    assert_eq!(
        parse_platform(" TPM ", "AS_PLATFORM").unwrap_err(),
        "unknown AS_PLATFORM 'tpm' (expected nitro | sev-snp | tdx)"
    );
}

#[test]
fn quote_source_configuration_fails_closed() {
    let s = |v: &str| Some(v.to_string());
    assert!(quote_source_from_config(None, None, None).unwrap().is_none());
    assert!(quote_source_from_config(s("  "), s(""), None).unwrap().is_none());
    let q = quote_source_from_config(s("tdx: get-quote"), None, None).unwrap().unwrap();
    assert_eq!(q.platform, Platform::Tdx);
    assert_eq!(q.command, "get-quote");
    let q = quote_source_from_config(None, s("get-quote -x"), s("nitro")).unwrap().unwrap();
    assert_eq!(q.platform, Platform::Nitro);
    assert_eq!(q.command, "get-quote -x");
    assert_eq!(
        quote_source_from_config(s("tdx:q"), s("q"), None).err().unwrap(),
        "set either AS_QUOTE_SOURCE or AS_QUOTE_CMD + AS_PLATFORM, not both"
    );
    assert_eq!(
        quote_source_from_config(None, s("q"), None).err().unwrap(),
        "AS_QUOTE_CMD is set but AS_PLATFORM is missing (expected nitro | sev-snp | tdx)"
    );
    assert_eq!(
        quote_source_from_config(None, None, s("tdx")).err().unwrap(),
        "AS_PLATFORM is set but AS_QUOTE_CMD is missing"
    );
    assert!(build_command_from_config(s(" ")).is_none());
    assert_eq!(build_command_from_config(s("make")).unwrap(), "make");
    assert_eq!(service_mode("witness", None), "build=witness quote=none (verify-only; issuance refused)");
    assert_eq!(service_mode("command", Some("command")), "build=command quote=command");
}

#[test]
fn command_argv_appends_report_data_hex() {
    assert_eq!(parse_command("  a\tb  c ").unwrap(), vec!["a", "b", "c"]);
    assert_eq!(parse_command(" \n ").unwrap_err(), "quote command must not be empty");
    let q = CommandQuoteSource::new("uq quote --hex".to_string(), Platform::Tdx).unwrap();
    let mut rd = [0u8; 64];
    rd[0] = 0xab;
    rd[63] = 0x01;
    let argv = q.argv(&rd).unwrap();
    assert_eq!(argv.len(), 4);
    assert_eq!(argv[0], "uq");
    assert_eq!(argv[3], format!("ab{}01", "00".repeat(62)));
    assert_eq!(q.name(), "command");
}

#[test]
fn command_output_decides_the_quote() {
    let q = CommandQuoteSource::new("x".to_string(), Platform::SevSnp).unwrap();
    assert_eq!(
        q.quote_from_output(false, "exit status: 1", "boom", vec![1]).err().unwrap(),
        "quote command failed (exit status: 1): boom"
    );
    assert_eq!(
        q.quote_from_output(true, "", "", Vec::new()).err().unwrap(),
        "quote command produced no output"
    );
    let got = q.quote_from_output(true, "", "", vec![5, 6]).ok().unwrap();
    assert_eq!(got.platform, Platform::SevSnp);
    assert_eq!(got.raw_quote, vec![5, 6]);
    assert!(got.measurement.is_empty());
}

#[test]
fn query_parameters_last_value_wins() {
    let q = parse_query(Some("nonce=ab&x&tls_spki=1=2&nonce=cd&"));
    assert_eq!(q.get("nonce").unwrap(), "cd");
    assert_eq!(q.get("tls_spki").unwrap(), "1=2");
    assert!(q.get("x").is_none());
    assert!(parse_query(None).get("nonce").is_none());
}

#[test]
fn hex_and_base64_values() {
    let h = "00".repeat(31) + "Ff";
    let v = hex32(&format!("  {}\n", h)).unwrap();
    assert_eq!(v[31], 0xff);
    assert!(hex32("abc").is_none());
    assert!(hex32(&"00".repeat(31)).is_none());
    assert_eq!(b64_decode(" aGVsbG8= ").unwrap(), b"hello".to_vec());
    assert!(b64_decode("aGVsbG8").is_none());
    assert_eq!(nonce_from_field(h.as_bytes()).unwrap(), v);
    assert!(nonce_from_field(&[0xff]).is_none());
}

#[test]
fn form_field_roles() {
    assert_eq!(field_role("src"), FieldRole::Source);
    assert_eq!(field_role("file"), FieldRole::Source);
    assert_eq!(field_role("previous"), FieldRole::Previous);
    assert_eq!(field_role("nonce"), FieldRole::Nonce);
    assert_eq!(field_role("Src"), FieldRole::Other);
}

#[test]
fn attest_assembles_and_binds() {
    let opts = AttestOptions { nonce: Some([3u8; 32]), previous_cbor: None, tls_spki_hash: None };
    let mut eat = prepare(&build(), opts, 42).unwrap();
    assert_eq!(eat.version, EAT_VERSION);
    assert_eq!(eat.eat_profile, EAT_PROFILE);
    assert_eq!(eat.platform, 0);
    assert_eq!(eat.eat_nonce, [3u8; 32]);
    assert_eq!(eat.tls_spki_hash, [0u8; 32]);
    assert_eq!(eat.iat, 42);
    let unbound = eat.binding_bytes();
    let rd = bind_for_quote(&mut eat, Platform::Tdx);
    assert_eq!(eat.platform, 3);
    assert_ne!(rd[..32], unbound);
    assert_eq!(rd[..32], eat.binding_bytes());
    assert_eq!(rd[32..], [0xaa; 32]);
    assert_eq!(rd, report_data(&eat));
    let issued = finish_attestation(
        eat.clone(),
        Some(CollectedQuote { platform: Platform::Tdx, raw_quote: vec![1, 2], measurement: vec![7] }),
    )
    .ok()
    .unwrap();
    assert_eq!(issued.platform, 3);
    assert_eq!(issued.platform_quote, vec![1, 2]);
    assert_eq!(issued.platform_measurement, vec![7]);
    // The quote collected for `rd` binds the token as issued.
    assert_eq!(rd[..32], issued.binding_bytes());
    assert_eq!(rd, report_data(&issued));
    assert_eq!(
        finish_attestation(
            eat.clone(),
            Some(CollectedQuote { platform: Platform::Nitro, raw_quote: vec![1], measurement: vec![] }),
        )
        .err()
        .unwrap(),
        "issuance refused: the collected quote is for a different platform than the one bound into report_data"
    );
    assert_eq!(
        finish_attestation(eat, None).err().unwrap(),
        "issuance refused: hardware quote source returned no quote (no TEE present)"
    );
}

#[test]
fn builders_outputs() {
    let w = witness_build([5; 48]);
    assert_eq!(w.value_x, [5; 48]);
    assert_eq!(w.source_hash, [5; 48]);
    let mut h = Sha384::new();
    h.update(b"attestation-service:artifact:witness:v1");
    h.update([5u8; 48]);
    let expected: [u8; 48] = h.finalize().into();
    assert_eq!(w.artifact_hash, expected);
    assert_ne!(w.artifact_hash, [5; 48]);
    assert_eq!(w.build_mode, "witness");
    assert_eq!(w.log, "identity-only: source unpacked and hashed; no isolated build executed");

    let ok = command_build([1; 48], [2; 48], true, "exit status: 0", "out\n", "err").ok().unwrap();
    assert_eq!(ok.value_x, [1; 48]);
    assert_eq!(ok.source_hash, [1; 48]);
    assert_eq!(ok.artifact_hash, [2; 48]);
    assert_eq!(ok.build_mode, "command");
    assert_eq!(ok.log, "out\nerr");
    let long = "é".repeat(4100);
    let cut = command_build([1; 48], [2; 48], true, "exit status: 0", &long, "").ok().unwrap();
    assert_eq!(cut.log.chars().count(), 4000);
    assert_eq!(cut.log, "é".repeat(4000));
    assert_eq!(
        command_build([1; 48], [2; 48], false, "exit status: 2", "a", "b").err().unwrap(),
        "build command failed (exit status: 2): ab"
    );
}

#[test]
fn attest_chains_a_valid_previous_stage_only() {
    let stage0 = token(0, Vec::new());
    let cbor = stage0.to_cbor().unwrap();
    let opts = AttestOptions { nonce: None, previous_cbor: Some(cbor.clone()), tls_spki_hash: Some([1; 32]) };
    let eat = prepare(&build(), opts, 1).unwrap();
    assert_eq!(eat.previous_attestation, cbor);
    assert_eq!(eat.tls_spki_hash, [1; 32]);
    let mut t = token(0, Vec::new());
    let err = chain_previous(&mut t, vec![0xa0]).unwrap_err();
    assert_eq!(
        err,
        "previous attestation is not a valid EAT: CBOR decode failed: Semantic(None, \"missing field `version`\")"
    );
    assert!(t.previous_attestation.is_empty());
    let opts = AttestOptions { nonce: None, previous_cbor: Some(vec![1]), tls_spki_hash: None };
    assert!(prepare(&build(), opts, 1).is_err());
    assert_eq!(choose_nonce(Some([9; 32])), [9; 32]);
    let opts = AttestOptions::default();
    assert!(opts.nonce.is_none() && opts.previous_cbor.is_none() && opts.tls_spki_hash.is_none());
}

#[test]
fn decode_eat_accepts_cbor_and_base64() {
    let t = token(3, vec![1]);
    let cbor = t.to_cbor().unwrap();
    assert_eq!(decode_eat(&cbor).unwrap().value_x, t.value_x);
    let b64 = format!("\n  {}  \n", base64_text(&cbor));
    assert_eq!(decode_eat(b64.as_bytes()).unwrap().platform, 3);
    assert_eq!(decode_eat(&[0xff, 0xfe]).unwrap_err(), "body is neither CBOR nor UTF-8 base64");
    assert!(decode_eat(b"not base64!").unwrap_err().starts_with("not CBOR and not valid base64: "));
    assert_eq!(
        decode_eat(b"oA==").unwrap_err(),
        "decoded base64 is not a valid EAT: CBOR decode failed: Semantic(None, \"missing field `version`\")"
    );
}

fn base64_text(b: &[u8]) -> String {
    base64::engine::general_purpose::STANDARD.encode(b)
}

#[test]
fn chain_walk_and_receipt_verdicts() {
    let stage0 = token(3, vec![9]);
    let mut stage1 = token(3, vec![8]);
    stage1.set_previous(stage0.to_cbor().unwrap());
    let chain = collect_chain(stage1.clone());
    assert_eq!(chain.len(), 2);
    assert_eq!(chain[1].platform_quote, vec![9]);
    let (p, binding) = quote_request(&chain[0]).unwrap();
    assert_eq!(p, Platform::Tdx);
    assert_eq!(binding, chain[0].binding_bytes());
    let outcomes: Vec<_> =
        chain.iter().map(|_| Some(Ok(vec![("MRTD".to_string(), vec![0xab, 0x01])]))).collect();
    let r = receipt_for_chain(&stage1, &chain, outcomes);
    let views = &r.chain;
    assert_eq!(views[0].stage, "stage1+");
    assert_eq!(views[1].stage, "stage0");
    assert_eq!(views[0].value_x, "aa".repeat(48));
    assert_eq!(views[0].measurements, vec![("MRTD".to_string(), "ab01".to_string())]);
    assert_eq!(views[0].detail, "quote verified against pinned tdx vendor root");
    assert_eq!(r.verdict, Verdict::Verified);
    assert!(r.value_x_stable);
    assert_eq!(r.detail, "2 stage(s) verified against pinned vendor roots");
    assert_eq!(r.eat_cbor_b64, base64_text(&stage1.to_cbor().unwrap()));
    assert_eq!(r.id.len(), 16);
    assert_eq!(r.eat_version, 2);
}

#[test]
fn receipt_fails_on_unstable_value_x_or_failed_stage() {
    let stage0 = token(3, vec![9]);
    let mut stage1 = token(3, vec![8]);
    stage1.value_x = [1; 48];
    stage1.set_previous(stage0.to_cbor().unwrap());
    let chain = collect_chain(stage1.clone());
    let r = receipt_for_chain(&stage1, &chain, vec![Some(Ok(vec![])), Some(Ok(vec![]))]);
    assert_eq!(r.chain[0].value_x, "01".repeat(48));
    assert_eq!(r.verdict, Verdict::Failed);
    assert!(!r.value_x_stable);
    let lone = token(2, vec![1]);
    let chain = collect_chain(lone.clone());
    let r = receipt_for_chain(&lone, &chain, vec![Some(Err("bad signature".to_string()))]);
    assert_eq!(r.chain[0].verdict, Verdict::Failed);
    assert_eq!(r.chain[0].detail, "bad signature");
    assert_eq!(r.verdict, Verdict::Failed);
    assert_eq!(r.detail, "one or more stages failed verification");
}

#[test]
fn stage_without_quote_is_a_witness() {
    let t = token(3, Vec::new());
    assert!(quote_request(&t).is_none());
    let v = stage_from_outcome(&t, Some(Ok(vec![("MRTD".to_string(), vec![1])])));
    assert_eq!(v.verdict, Verdict::Witness);
    assert!(v.measurements.is_empty());
    assert_eq!(v.platform, "tdx");
    assert_eq!(
        v.detail,
        "no hardware quote present — refused (attestation requires a hardware root of trust)"
    );
    let w = token(0, vec![1]);
    assert!(quote_request(&w).is_none());
    let v = stage_from_outcome(&w, None);
    assert_eq!(v.verdict, Verdict::Witness);
    assert_eq!(v.platform, "software-witness");
    assert_eq!(Verdict::Witness.as_str(), "witness");
    assert_eq!(Verdict::Verified.as_str(), "verified");

    // A chain of witness stages is a witness receipt; a verified stage over
    // a witness root verifies.
    let stage0 = token(0, Vec::new());
    let mut stage1 = token(0, Vec::new());
    stage1.set_previous(stage0.to_cbor().unwrap());
    let chain = collect_chain(stage1.clone());
    let r = receipt_for_chain(&stage1, &chain, vec![None, None]);
    assert_eq!(r.verdict, Verdict::Witness);
    assert_eq!(
        r.detail,
        "no hardware quote in the chain — refused (attestation requires a hardware root)"
    );
    let mut stage1 = token(3, vec![4]);
    stage1.set_previous(stage0.to_cbor().unwrap());
    let chain = collect_chain(stage1.clone());
    let r = receipt_for_chain(&stage1, &chain, vec![Some(Ok(vec![])), None]);
    assert_eq!(r.chain[1].verdict, Verdict::Witness);
    assert_eq!(r.verdict, Verdict::Verified);
    assert_eq!(r.detail, "2 stage(s) verified against pinned vendor roots");
}

#[test]
fn stage_view_renders_hex() {
    let t = token(1, vec![1]);
    let v = stage_view(&t, true, Verdict::Verified, Vec::new(), "d".to_string());
    assert_eq!(v.value_x, "aa".repeat(48));
    assert_eq!(v.value_x_short, "aa".repeat(8));
    assert_eq!(v.source_hash, "bb".repeat(48));
    assert_eq!(v.platform, "nitro");
    assert_eq!(v.stage, "stage0");
    assert_eq!(v.iat, 1_700_000_000);
}

#[test]
fn measurements_are_sorted_by_name_last_report_wins() {
    let t = token(3, vec![1]);
    let report = vec![
        ("RTMR0".to_string(), vec![0x01]),
        ("MRTD".to_string(), vec![0xab]),
        ("RTMR0".to_string(), vec![0x02, 0xff]),
        ("Mrtd".to_string(), vec![]),
    ];
    let v = stage_from_outcome(&t, Some(Ok(report)));
    assert_eq!(
        v.measurements,
        vec![
            ("MRTD".to_string(), "ab".to_string()),
            ("Mrtd".to_string(), String::new()),
            ("RTMR0".to_string(), "02ff".to_string()),
        ]
    );
    assert_eq!(
        attestation_service::measurements::measurements_of(&vec![
            ("b".to_string(), vec![1]),
            ("a".to_string(), vec![2]),
            ("ab".to_string(), vec![3]),
        ]),
        vec![
            ("a".to_string(), "02".to_string()),
            ("ab".to_string(), "03".to_string()),
            ("b".to_string(), "01".to_string()),
        ]
    );
    assert!(attestation_service::measurements::name_lt("a", "ab"));
    assert!(!attestation_service::measurements::name_lt("b", "ab"));
}

#[test]
fn tree_identity_hashes_entries_in_order() {
    let files = vec![("a.txt".to_string(), b"hi".to_vec()), ("d/b".to_string(), Vec::new())];
    let mut h = Sha384::new();
    h.update(b"a.txt\0");
    h.update(2u64.to_be_bytes());
    h.update(b"hi");
    h.update(b"d/b\0");
    h.update(0u64.to_be_bytes());
    let expected: [u8; 48] = h.finalize().into();
    assert_eq!(attestation_service::attest::tree_identity(&files), expected);
    assert_ne!(
        attestation_service::attest::tree_identity(&vec![files[1].clone(), files[0].clone()]),
        expected
    );
}

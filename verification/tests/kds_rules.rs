use attestation_service::kds::{
    cert_chain_from_pem, cert_chain_status_error, cert_chain_url, extract_kds_params,
    parse_pem_certs, pem_to_der, vcek_from_body, vcek_status_error, vcek_url,
};

fn report(version: u32) -> Vec<u8> {
    let mut r = vec![0u8; 0x188];
    r[0..4].copy_from_slice(&version.to_le_bytes());
    for i in 0x140..0x180 {
        r[i] = (i - 0x140) as u8;
    }
    r[0x180] = 3;
    r[0x181] = 0;
    r[0x186] = 8;
    r[0x187] = 115;
    r
}

#[test]
fn kds_params_from_a_report() {
    let (product, chip, bl, tee, snp, ucode) = extract_kds_params(&report(2)).unwrap();
    assert_eq!(product, "Milan");
    assert_eq!(chip.len(), 64);
    assert_eq!(chip[1], 1);
    assert_eq!((bl, tee, snp, ucode), (3, 0, 8, 115));
    assert_eq!(extract_kds_params(&report(5)).unwrap().0, "Genoa");
    assert_eq!(extract_kds_params(&report(7)).unwrap_err(), "Unknown SNP version 7");
    assert_eq!(extract_kds_params(&[0u8; 10]).unwrap_err(), "Report too short: 10 bytes");
}

#[test]
fn kds_urls() {
    assert_eq!(
        vcek_url("Milan", &[0xde, 0xad], 3, 0, 8, 115),
        "https://kdsintf.amd.com/vcek/v1/Milan/dead?blSPL=3&teeSPL=0&snpSPL=8&ucodeSPL=115"
    );
    assert_eq!(cert_chain_url("Genoa"), "https://kdsintf.amd.com/vcek/v1/Genoa/cert_chain");
    assert_eq!(vcek_status_error("404 Not Found", "u"), "KDS returned 404 Not Found: u");
    assert_eq!(cert_chain_status_error("500"), "KDS cert chain returned 500");
}

const PEM: &str = "-----BEGIN CERTIFICATE-----\naGVs\nbG8=\n-----END CERTIFICATE-----\n\
junk\n-----BEGIN CERTIFICATE-----\nd29y bGQ=\r\n-----END CERTIFICATE-----\n\
-----BEGIN CERTIFICATE-----\n!!!!\n-----END CERTIFICATE-----\n";

#[test]
fn pem_blocks_decode_in_order() {
    let certs = parse_pem_certs(PEM);
    assert_eq!(certs, vec![b"hello".to_vec(), b"world".to_vec()]);
    assert_eq!(pem_to_der(PEM.as_bytes()).unwrap(), b"hello".to_vec());
    assert!(pem_to_der(b"\xff\xfe").is_none());
    assert!(pem_to_der(b"no certificates").is_none());
    let (ask, ark) = cert_chain_from_pem(PEM).unwrap();
    assert_eq!(ask, b"hello".to_vec());
    assert_eq!(ark, b"world".to_vec());
    assert_eq!(
        cert_chain_from_pem("-----BEGIN CERTIFICATE-----aGk=-----END CERTIFICATE-----").unwrap_err(),
        "Expected 2 certs (ASK + ARK), got 1"
    );
}

#[test]
fn vcek_body_pem_or_der() {
    assert_eq!(vcek_from_body(PEM.as_bytes()).unwrap(), b"hello".to_vec());
    assert_eq!(vcek_from_body(&[0x30, 0x82]).unwrap(), vec![0x30, 0x82]);
    assert_eq!(
        vcek_from_body(b"-----BEGIN nothing").unwrap_err(),
        "Failed to parse PEM from KDS"
    );
}

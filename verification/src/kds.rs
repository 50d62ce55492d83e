//! AMD Key Distribution Service (KDS) rules: the SNP report fields that
//! name a chip and its TCB, the KDS URLs built from them, and the PEM
//! certificate bodies KDS answers with. The HTTP requests are the caller's.
use vstd::prelude::*;
use vstd::utf8::{decode_utf8, encode_utf8, valid_utf8};

use crate::encoding::{base64_decode, base64_decoded, hex_encode, hex_lower};
use crate::text::{chars_of, decimal, is_white_space, is_white_space_char, push_decimal, push_str};

verus! {

/// Base URL of AMD's public KDS.
pub const KDS_BASE: &'static str = "https://kdsintf.amd.com";

/// The little-endian number that four bytes denote.
pub open spec fn le32(b0: u8, b1: u8, b2: u8, b3: u8) -> nat {
    b0 as nat + 256 * b1 as nat + 65536 * b2 as nat + 16777216 * b3 as nat
}

/// The KDS product family of an SNP report version.
pub open spec fn product_of_version(v: nat) -> Option<Seq<char>> {
    if v == 2 {
        Some("Milan"@)
    } else if v == 5 {
        Some("Genoa"@)
    } else {
        None
    }
}

/// How [`extract_kds_params`] answers a report.
pub open spec fn kds_params_of(
    report: Seq<u8>,
    r: Result<(String, Vec<u8>, u8, u8, u8, u8), String>,
) -> bool {
    if report.len() < 0x188 {
        r matches Err(msg) && msg@ == "Report too short: "@ + decimal(report.len()) + " bytes"@
    } else {
        let v = le32(report[0], report[1], report[2], report[3]);
        match product_of_version(v) {
            None => r matches Err(msg) && msg@ == "Unknown SNP version "@ + decimal(v),
            Some(product) => r matches Ok((p, chip_id, bl, tee, snp, ucode)) && p@ == product
                && chip_id@ == report.subrange(0x140, 0x180) && bl == report[0x180] && tee
                == report[0x181] && snp == report[0x186] && ucode == report[0x187],
        }
    }
}

/// Extract the SNP report fields needed for a KDS URL: product family, chip
/// id and the bootloader, TEE, SNP and microcode security patch levels.
pub fn extract_kds_params(report: &[u8]) -> (r: Result<(String, Vec<u8>, u8, u8, u8, u8), String>)
    ensures
        kds_params_of(report@, r),
{
    if report.len() < 0x188 {
        let mut msg = "Report too short: ".to_owned();
        push_decimal(&mut msg, report.len() as u64);
        push_str(&mut msg, " bytes");
        return Err(msg);
    }
    let version: u32 = report[0] as u32 + 256 * (report[1] as u32) + 65536 * (report[2] as u32)
        + 16777216 * (report[3] as u32);
    let product = if version == 2 {
        "Milan"
    } else if version == 5 {
        "Genoa"
    } else {
        let mut msg = "Unknown SNP version ".to_owned();
        push_decimal(&mut msg, version as u64);
        return Err(msg);
    };
    let chip_id = vstd::slice::slice_to_vec(&report[0x140..0x180]);
    Ok((product.to_owned(), chip_id, report[0x180], report[0x181], report[0x186], report[0x187]))
}

/// The KDS URL of the VCEK certificate of a chip at a TCB.
pub open spec fn vcek_url_text(
    product: Seq<char>,
    chip_id: Seq<u8>,
    bl_spl: u8,
    tee_spl: u8,
    snp_spl: u8,
    ucode_spl: u8,
) -> Seq<char> {
    KDS_BASE@ + "/vcek/v1/"@ + product + "/"@ + hex_lower(chip_id) + "?blSPL="@ + decimal(
        bl_spl as nat,
    ) + "&teeSPL="@ + decimal(tee_spl as nat) + "&snpSPL="@ + decimal(snp_spl as nat)
        + "&ucodeSPL="@ + decimal(ucode_spl as nat)
}

/// Build the VCEK URL.
pub fn vcek_url(
    product: &str,
    chip_id: &[u8],
    bl_spl: u8,
    tee_spl: u8,
    snp_spl: u8,
    ucode_spl: u8,
) -> (r: String)
    ensures
        r@ == vcek_url_text(product@, chip_id@, bl_spl, tee_spl, snp_spl, ucode_spl),
{
    let mut url = KDS_BASE.to_owned();
    push_str(&mut url, "/vcek/v1/");
    push_str(&mut url, product);
    push_str(&mut url, "/");
    let hex = hex_encode(chip_id);
    push_str(&mut url, hex.as_str());
    push_str(&mut url, "?blSPL=");
    push_decimal(&mut url, bl_spl as u64);
    push_str(&mut url, "&teeSPL=");
    push_decimal(&mut url, tee_spl as u64);
    push_str(&mut url, "&snpSPL=");
    push_decimal(&mut url, snp_spl as u64);
    push_str(&mut url, "&ucodeSPL=");
    push_decimal(&mut url, ucode_spl as u64);
    url
}

/// Build the URL of a product family's ASK + ARK chain.
pub fn cert_chain_url(product: &str) -> (r: String)
    ensures
        r@ == KDS_BASE@ + "/vcek/v1/"@ + product@ + "/cert_chain"@,
{
    let mut url = KDS_BASE.to_owned();
    push_str(&mut url, "/vcek/v1/");
    push_str(&mut url, product);
    push_str(&mut url, "/cert_chain");
    url
}

// ---------------------------------------------------------------- PEM

pub open spec fn begin_marker() -> Seq<char> {
    "-----BEGIN CERTIFICATE-----"@
}

pub open spec fn end_marker() -> Seq<char> {
    "-----END CERTIFICATE-----"@
}

/// First index at or after `i` where `pat` occurs in `s`.
pub open spec fn find_sub_from(s: Seq<char>, pat: Seq<char>, i: int) -> Option<int>
    decreases s.len() + 1 - i,
{
    if i < 0 || i + pat.len() > s.len() {
        None
    } else if s.subrange(i, i + pat.len()) == pat {
        Some(i)
    } else {
        find_sub_from(s, pat, i + 1)
    }
}

/// The pieces of `s` between the occurrences of a non-empty `pat`, found
/// left to right (`str::split`).
pub open spec fn split_on(s: Seq<char>, pat: Seq<char>) -> Seq<Seq<char>>
    decreases s.len(),
{
    match find_sub_from(s, pat, 0) {
        Some(i) => if pat.len() > 0 && 0 <= i && i + pat.len() <= s.len() {
            seq![s.take(i)] + split_on(s.skip(i + pat.len()), pat)
        } else {
            seq![s]
        },
        None => seq![s],
    }
}

/// `s` without its white space.
pub open spec fn without_white_space(s: Seq<char>) -> Seq<char>
    decreases s.len(),
{
    if s.len() == 0 {
        seq![]
    } else if is_white_space(s.last()) {
        without_white_space(s.drop_last())
    } else {
        without_white_space(s.drop_last()).push(s.last())
    }
}

/// The certificate in a PEM block: the base64 after its BEGIN marker, white
/// space removed, when it decodes.
pub open spec fn block_der(block: Seq<char>) -> Option<Seq<u8>> {
    match find_sub_from(block, begin_marker(), 0) {
        Some(j) => match base64_decoded(
            encode_utf8(without_white_space(block.skip(j + begin_marker().len()))),
        ) {
            Ok(der) => Some(der),
            Err(_) => None,
        },
        None => None,
    }
}

pub open spec fn blocks_der(blocks: Seq<Seq<char>>) -> Seq<Seq<u8>>
    decreases blocks.len(),
{
    if blocks.len() == 0 {
        seq![]
    } else {
        match block_der(blocks[0]) {
            Some(d) => seq![d] + blocks_der(blocks.drop_first()),
            None => blocks_der(blocks.drop_first()),
        }
    }
}

/// The certificates of a PEM text, in order: one per END-marker-separated
/// block that holds a BEGIN marker followed by valid base64.
pub open spec fn pem_certs(pem: Seq<char>) -> Seq<Seq<u8>> {
    blocks_der(split_on(pem, end_marker()))
}

pub open spec fn bytes_view(v: Seq<Vec<u8>>) -> Seq<Seq<u8>> {
    Seq::new(v.len(), |i: int| v[i]@)
}

fn find_sub_exec(s: &[char], pat: &[char], from: usize) -> (r: Option<usize>)
    requires
        from <= s@.len(),
    ensures
        match r {
            Some(i) => find_sub_from(s@, pat@, from as int) == Some(i as int),
            None => find_sub_from(s@, pat@, from as int) is None,
        },
{
    let mut i = from;
    while i <= s.len() && pat.len() <= s.len() - i
        invariant
            from <= i,
            s@.len() == s.len(),
            find_sub_from(s@, pat@, from as int) == find_sub_from(s@, pat@, i as int),
        decreases s@.len() + 1 - i,
    {
        let mut same = true;
        let mut k: usize = 0;
        while k < pat.len()
            invariant
                i + pat@.len() <= s@.len(),
                s@.len() == s.len(),
                k <= pat@.len(),
                same == (forall|j: int| 0 <= j < k ==> s@[i + j] == pat@[j]),
            decreases pat@.len() - k,
        {
            if s[i + k] != pat[k] {
                same = false;
            }
            k = k + 1;
        }
        if same {
            assert(s@.subrange(i as int, i + pat@.len()) == pat@);
            return Some(i);
        } else {
            assert(s@.subrange(i as int, i + pat@.len()) != pat@) by {
                let j = choose|j: int| 0 <= j < pat@.len() && s@[i + j] != pat@[j];
                assert(s@.subrange(i as int, i + pat@.len())[j] == s@[i + j]);
            }
        }
        i = i + 1;
    }
    None
}

fn remove_white_space(s: &[char]) -> (r: String)
    ensures
        r@ == without_white_space(s@),
{
    let mut out = String::new();
    for i in 0..s.len()
        invariant
            out@ == without_white_space(s@.take(i as int)),
    {
        assert(s@.take(i + 1).drop_last() == s@.take(i as int));
        if !is_white_space_char(s[i]) {
            out.push(s[i]);
        }
    }
    assert(s@.take(s@.len() as int) == s@);
    out
}

fn block_der_exec(block: &[char], begin: &[char]) -> (r: Option<Vec<u8>>)
    requires
        begin@ == begin_marker(),
    ensures
        match r {
            Some(d) => block_der(block@) == Some(d@),
            None => block_der(block@) is None,
        },
{
    let j = match find_sub_exec(block, begin, 0) {
        Some(j) => j,
        None => return None,
    };
    let ghost fj = find_sub_from(block@, begin@, 0);
    proof {
        lemma_find_sub_from(block@, begin@, 0);
    }
    assert(j + begin@.len() <= block@.len());
    assert(block@.len() == block.len() && begin@.len() == begin.len());
    let cleaned = remove_white_space(&block[j + begin.len()..block.len()]);
    assert(block@.subrange(j + begin@.len(), block@.len() as int) == block@.skip(j + begin@.len()));
    match base64_decode(cleaned.as_str().as_bytes()) {
        Ok(der) => Some(der),
        Err(_) => None,
    }
}

pub proof fn lemma_find_sub_from(s: Seq<char>, pat: Seq<char>, i: int)
    ensures
        find_sub_from(s, pat, i) matches Some(j) ==> i <= j && 0 <= j && j + pat.len() <= s.len(),
    decreases s.len() + 1 - i,
{
    if !(i < 0 || i + pat.len() > s.len()) && s.subrange(i, i + pat.len()) != pat {
        lemma_find_sub_from(s, pat, i + 1);
    }
}

/// The DER certificates of a PEM text (see [`pem_certs`]).
pub fn parse_pem_certs(pem: &str) -> (r: Vec<Vec<u8>>)
    ensures
        bytes_view(r@) == pem_certs(pem@),
{
    let cs = chars_of(pem);
    let begin = chars_of("-----BEGIN CERTIFICATE-----");
    let end = chars_of("-----END CERTIFICATE-----");
    proof {
        reveal_strlit("-----END CERTIFICATE-----");
    }
    let mut certs: Vec<Vec<u8>> = Vec::new();
    let mut pos: usize = 0;
    assert(cs@.skip(0) == cs@);
    loop
        invariant
            cs@ == pem@,
            begin@ == begin_marker(),
            end@ == end_marker(),
            end@.len() > 0,
            pos <= cs@.len(),
            bytes_view(certs@) + blocks_der(split_on(cs@.skip(pos as int), end@)) == pem_certs(pem@),
        decreases cs@.len() - pos,
    {
        let ghost rest = cs@.skip(pos as int);
        let ghost before = bytes_view(certs@);
        let rest_slice = &cs.as_slice()[pos..cs.len()];
        assert(rest_slice@ == rest);
        match find_sub_exec(rest_slice, end.as_slice(), 0) {
            Some(i) => {
                proof {
                    lemma_find_sub_from(rest, end@, 0);
                }
                let block = &rest_slice[0..i];
                assert(block@ == rest.take(i as int));
                let next = pos + i + end.len();
                assert(rest.skip(i + end@.len()) == cs@.skip(next as int));
                assert(split_on(rest, end@) == seq![rest.take(i as int)] + split_on(
                    cs@.skip(next as int),
                    end@,
                ));
                let ghost tail = split_on(cs@.skip(next as int), end@);
                assert((seq![rest.take(i as int)] + tail).drop_first() == tail);
                match block_der_exec(block, begin.as_slice()) {
                    Some(d) => {
                        certs.push(d);
                        assert(bytes_view(certs@) == before.push(block_der(block@)->0));
                        assert(before + blocks_der(seq![rest.take(i as int)] + tail) == bytes_view(
                            certs@,
                        ) + blocks_der(tail));
                    },
                    None => {},
                }
                pos = next;
            },
            None => {
                assert(split_on(rest, end@) == seq![rest]);
                assert(seq![rest].drop_first() == Seq::<Seq<char>>::empty());
                match block_der_exec(rest_slice, begin.as_slice()) {
                    Some(d) => {
                        let ghost dv = d@;
                        certs.push(d);
                        assert(bytes_view(certs@) == before.push(dv));
                        assert(blocks_der(seq![rest]) == seq![dv] + blocks_der(Seq::<Seq<char>>::empty()));
                        assert(before + seq![dv] == before.push(dv));
                    },
                    None => {
                        assert(blocks_der(seq![rest]) == blocks_der(Seq::<Seq<char>>::empty()));
                        assert(before + Seq::<Seq<u8>>::empty() == before);
                    },
                }
                return certs;
            },
        }
    }
}

/// The first certificate of a PEM byte string; `None` when it is not UTF-8
/// or holds no certificate.
pub fn pem_to_der(pem_bytes: &[u8]) -> (r: Option<Vec<u8>>)
    ensures
        match r {
            Some(d) => valid_utf8(pem_bytes@) && pem_certs(decode_utf8(pem_bytes@)).len() > 0 && d@
                == pem_certs(decode_utf8(pem_bytes@))[0],
            None => !valid_utf8(pem_bytes@) || pem_certs(decode_utf8(pem_bytes@)).len() == 0,
        },
{
    let pem = match core::str::from_utf8(pem_bytes) {
        Ok(s) => s,
        Err(_) => return None,
    };
    let mut certs = parse_pem_certs(pem);
    if certs.len() == 0 {
        return None;
    }
    Some(certs.remove(0))
}

/// What a VCEK response body gives: the first certificate of a PEM body
/// (one that starts with `-----BEGIN`), else the body itself as DER.
pub fn vcek_from_body(body: &[u8]) -> (r: Result<Vec<u8>, String>)
    ensures
        ({
            let prefix = encode_utf8("-----BEGIN"@);
            if body@.len() >= prefix.len() && body@.take(prefix.len() as int) == prefix {
                match r {
                    Ok(d) => valid_utf8(body@) && pem_certs(decode_utf8(body@)).len() > 0 && d@
                        == pem_certs(decode_utf8(body@))[0],
                    Err(msg) => (!valid_utf8(body@) || pem_certs(decode_utf8(body@)).len() == 0)
                        && msg@ == "Failed to parse PEM from KDS"@,
                }
            } else {
                r matches Ok(d) && d@ == body@
            }
        }),
{
    let prefix = "-----BEGIN".as_bytes();
    if body.len() >= prefix.len() && crate::eat::bytes_eq(&body[0..prefix.len()], prefix) {
        match pem_to_der(body) {
            Some(d) => Ok(d),
            None => Err("Failed to parse PEM from KDS".to_owned()),
        }
    } else {
        Ok(vstd::slice::slice_to_vec(body))
    }
}

/// The ASK and ARK of a cert-chain response: its first two certificates.
pub fn cert_chain_from_pem(pem: &str) -> (r: Result<(Vec<u8>, Vec<u8>), String>)
    ensures
        pem_certs(pem@).len() < 2 ==> (r matches Err(msg) && msg@ == "Expected 2 certs (ASK + ARK), got "@
            + decimal(pem_certs(pem@).len())),
        pem_certs(pem@).len() >= 2 ==> (r matches Ok((ask, ark)) && ask@ == pem_certs(pem@)[0]
            && ark@ == pem_certs(pem@)[1]),
{
    let mut certs = parse_pem_certs(pem);
    if certs.len() < 2 {
        let mut msg = "Expected 2 certs (ASK + ARK), got ".to_owned();
        push_decimal(&mut msg, certs.len() as u64);
        return Err(msg);
    }
    let ghost all = bytes_view(certs@);
    let ask = certs.remove(0);
    let ark = certs.remove(0);
    assert(ark@ == all[1]);
    Ok((ask, ark))
}

/// The error for a VCEK request that KDS answered with a failure status.
pub fn vcek_status_error(status: &str, url: &str) -> (r: String)
    ensures
        r@ == "KDS returned "@ + status@ + ": "@ + url@,
{
    let mut msg = "KDS returned ".to_owned();
    push_str(&mut msg, status);
    push_str(&mut msg, ": ");
    push_str(&mut msg, url);
    msg
}

/// The error for a cert-chain request that KDS answered with a failure
/// status.
pub fn cert_chain_status_error(status: &str) -> (r: String)
    ensures
        r@ == "KDS cert chain returned "@ + status@,
{
    let mut msg = "KDS cert chain returned ".to_owned();
    push_str(&mut msg, status);
    msg
}

} // verus!

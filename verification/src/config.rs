//! Service configuration rules: which hardware quote source to use, read
//! from `AS_QUOTE_SOURCE` (or the older `AS_QUOTE_CMD` + `AS_PLATFORM`), and
//! which builder, from `AS_BUILD_CMD`. The environment itself is read by the
//! caller; these functions decide on the values.
use vstd::prelude::*;

use crate::platform::{platform_name, Platform};
use crate::text::{is_white_space, trim_end_chars, trim_start_chars};
use crate::quote_source::CommandQuoteSource;
use crate::text::{
    ascii_lowercase, chars_of, find_char, find_char_exec, push_str, str_eq, string_from_chars, trim_chars,
    unicode_lowercase, words,
};

verus! {

/// The platform a configured name denotes (case-insensitive, surrounding
/// white space ignored).
pub open spec fn platform_named(v: Seq<char>) -> Option<Platform> {
    let l = unicode_lowercase(trim_chars(v));
    if l == "nitro"@ {
        Some(Platform::Nitro)
    } else if l == "sev-snp"@ || l == "snp"@ {
        Some(Platform::SevSnp)
    } else if l == "tdx"@ {
        Some(Platform::Tdx)
    } else {
        None
    }
}

/// The platform an ASCII configured name denotes: as [`platform_named`],
/// with the lower-casing spelled out.
pub open spec fn ascii_platform_named(v: Seq<char>) -> Option<Platform> {
    let l = ascii_lowercase(trim_chars(v));
    if l == "nitro"@ {
        Some(Platform::Nitro)
    } else if l == "sev-snp"@ || l == "snp"@ {
        Some(Platform::SevSnp)
    } else if l == "tdx"@ {
        Some(Platform::Tdx)
    } else {
        None
    }
}

/// Each platform's canonical name names it: the ASCII reading of a
/// configured name inverts [`Platform::as_str`].
pub proof fn lemma_platform_name_parses(p: Platform)
    ensures
        ascii_platform_named(platform_name(p)) == Some(p),
        vstd::utf8::is_ascii_chars(platform_name(p)),
{
    reveal_strlit("nitro");
    reveal_strlit("sev-snp");
    reveal_strlit("tdx");
    let s = platform_name(p);
    assert(s.len() > 0 && !is_white_space(s[0]) && !is_white_space(s.last()));
    assert(trim_start_chars(s) == s);
    assert(trim_end_chars(s) == s);
    assert(ascii_lowercase(s) =~= s);
    assert("nitro"@.len() == 5 && "sev-snp"@.len() == 7 && "tdx"@.len() == 3);
    reveal_strlit("snp");
    assert("snp"@[0] != "tdx"@[0]);
    assert("snp"@ != "tdx"@);
}

/// The text of an unknown platform name.
pub open spec fn unknown_platform_text(value: Seq<char>, name: Seq<char>) -> Seq<char> {
    "unknown "@ + name + " '"@ + unicode_lowercase(trim_chars(value))
        + "' (expected nitro | sev-snp | tdx)"@
}

/// Parse a platform name; `name` says where the value came from.
pub fn parse_platform(value: &str, name: &str) -> (r: Result<Platform, String>)
    ensures
        match platform_named(value@) {
            Some(p) => r == Ok::<Platform, String>(p),
            None => r matches Err(msg) && msg@ == unknown_platform_text(value@, name@),
        },
        vstd::utf8::is_ascii_chars(value@) ==> platform_named(value@) == ascii_platform_named(value@)
            && unknown_platform_text(value@, name@) == "unknown "@ + name@ + " '"@
            + ascii_lowercase(trim_chars(value@)) + "' (expected nitro | sev-snp | tdx)"@,
{
    let trimmed = value.trim();
    proof {
        if vstd::utf8::is_ascii_chars(value@) {
            crate::text::lemma_trim_ascii(value@);
        }
    }
    let lower = trimmed.to_lowercase();
    let l = lower.as_str();
    if str_eq(l, "nitro") {
        Ok(Platform::Nitro)
    } else if str_eq(l, "sev-snp") || str_eq(l, "snp") {
        Ok(Platform::SevSnp)
    } else if str_eq(l, "tdx") {
        Ok(Platform::Tdx)
    } else {
        let mut msg = "unknown ".to_owned();
        push_str(&mut msg, name);
        push_str(&mut msg, " '");
        push_str(&mut msg, l);
        push_str(&mut msg, "' (expected nitro | sev-snp | tdx)");
        Err(msg)
    }
}

/// Why a `<platform>:<command>` value is refused, if it is.
pub open spec fn quote_source_error(source: Seq<char>) -> Option<Seq<char>> {
    match find_char(source, ':') {
        None => Some("AS_QUOTE_SOURCE must be '<platform>:<command>'"@),
        Some(i) => match platform_named(source.take(i)) {
            None => Some(unknown_platform_text(source.take(i), "AS_QUOTE_SOURCE platform"@)),
            Some(p) => if trim_chars(source.skip(i + 1)).len() == 0 {
                Some("AS_QUOTE_SOURCE command must not be empty"@)
            } else {
                None
            },
        },
    }
}

/// How [`parse_quote_source`] answers a `<platform>:<command>` value.
pub open spec fn quote_source_parsed(source: Seq<char>, r: Result<(Platform, String), String>) -> bool {
    match quote_source_error(source) {
        Some(text) => r matches Err(msg) && msg@ == text,
        None => {
            let i = find_char(source, ':')->0;
            r matches Ok((q, command)) && q == platform_named(source.take(i))->0 && command@
                == trim_chars(source.skip(i + 1))
        },
    }
}

/// Parse `AS_QUOTE_SOURCE`: a platform name, a colon, then the collector
/// command (trimmed, not empty).
pub fn parse_quote_source(source: &str) -> (r: Result<(Platform, String), String>)
    ensures
        quote_source_parsed(source@, r),
{
    let cs = chars_of(source);
    let colon = match find_char_exec(cs.as_slice(), ':', 0) {
        Some(i) => i,
        None => return Err("AS_QUOTE_SOURCE must be '<platform>:<command>'".to_owned()),
    };
    proof {
        crate::text::lemma_find_char_from(cs@, ':', 0);
    }
    assert(colon < cs.len());
    let platform_text = string_from_chars(&cs.as_slice()[0..colon]);
    let command_text = string_from_chars(&cs.as_slice()[colon + 1..cs.len()]);
    assert(cs@.subrange(0, colon as int) == source@.take(colon as int));
    assert(cs@.subrange(colon + 1, cs@.len() as int) == source@.skip(colon + 1));
    let platform = match parse_platform(platform_text.as_str(), "AS_QUOTE_SOURCE platform") {
        Ok(p) => p,
        Err(e) => return Err(e),
    };
    let command = command_text.as_str().trim();
    if command.is_empty() {
        return Err("AS_QUOTE_SOURCE command must not be empty".to_owned());
    }
    Ok((platform, command.to_owned()))
}

/// A configuration value counts as set when it holds more than white space.
pub open spec fn is_set(v: Option<String>) -> bool {
    v matches Some(s) && trim_chars(s@).len() > 0
}

fn set_value(v: Option<String>) -> (r: Option<String>)
    ensures
        r is Some <==> is_set(v),
        r matches Some(s) ==> v == Some(s),
{
    match v {
        Some(s) => {
            if s.as_str().trim().is_empty() {
                None
            } else {
                Some(s)
            }
        },
        None => None,
    }
}

/// How [`quote_source_from_config`] answers the three settings.
pub open spec fn quote_source_chosen(
    source: Option<String>,
    cmd: Option<String>,
    platform: Option<String>,
    r: Result<Option<CommandQuoteSource>, String>,
) -> bool {
    if is_set(source) && !is_set(cmd) && !is_set(platform) {
        let s = source->0@;
        match quote_source_error(s) {
            Some(text) => r matches Err(msg) && msg@ == text,
            None => {
                let i = find_char(s, ':')->0;
                r matches Ok(Some(q)) && q.platform == platform_named(s.take(i))->0 && q.command@
                    == trim_chars(s.skip(i + 1))
            },
        }
    } else if is_set(source) {
        r matches Err(msg) && msg@
            == "set either AS_QUOTE_SOURCE or AS_QUOTE_CMD + AS_PLATFORM, not both"@
    } else if is_set(cmd) && is_set(platform) {
        match platform_named(platform->0@) {
            None => r matches Err(msg) && msg@ == unknown_platform_text(
                platform->0@,
                "AS_PLATFORM"@,
            ),
            Some(p) => if words(cmd->0@).len() > 0 {
                r matches Ok(Some(q)) && q.platform == p && q.command@ == cmd->0@
            } else {
                r matches Err(msg) && msg@ == "quote command must not be empty"@
            },
        }
    } else if is_set(cmd) {
        r matches Err(msg) && msg@
            == "AS_QUOTE_CMD is set but AS_PLATFORM is missing (expected nitro | sev-snp | tdx)"@
    } else if is_set(platform) {
        r matches Err(msg) && msg@ == "AS_PLATFORM is set but AS_QUOTE_CMD is missing"@
    } else {
        r matches Ok(None)
    }
}

/// Choose the hardware quote source from the values of `AS_QUOTE_SOURCE`,
/// `AS_QUOTE_CMD` and `AS_PLATFORM`. `Ok(None)` means verify-only.
pub fn quote_source_from_config(
    source: Option<String>,
    cmd: Option<String>,
    platform: Option<String>,
) -> (r: Result<Option<CommandQuoteSource>, String>)
    ensures
        quote_source_chosen(source, cmd, platform, r),
{
    let ghost (s0, c0, p0) = (source, cmd, platform);
    let source = set_value(source);
    let cmd = set_value(cmd);
    let platform = set_value(platform);
    match (source, cmd, platform) {
        (Some(source), None, None) => {
            let parsed = parse_quote_source(source.as_str());
            match parsed {
                Ok((p, command)) => {
                    proof {
                        let i = find_char(source@, ':')->0;
                        crate::text::lemma_trimmed_has_word(source@.skip(i + 1));
                    }
                    match CommandQuoteSource::new(command, p) {
                        Ok(q) => Ok(Some(q)),
                        Err(e) => Err(e),
                    }
                },
                Err(e) => Err(e),
            }
        },
        (Some(_), Some(_), _) | (Some(_), _, Some(_)) => Err(
            "set either AS_QUOTE_SOURCE or AS_QUOTE_CMD + AS_PLATFORM, not both".to_owned(),
        ),
        (None, Some(command), Some(platform)) => {
            let p = match parse_platform(platform.as_str(), "AS_PLATFORM") {
                Ok(p) => p,
                Err(e) => return Err(e),
            };
            match CommandQuoteSource::new(command, p) {
                Ok(q) => Ok(Some(q)),
                Err(e) => Err(e),
            }
        },
        (None, Some(_), None) => Err(
            "AS_QUOTE_CMD is set but AS_PLATFORM is missing (expected nitro | sev-snp | tdx)".to_owned(),
        ),
        (None, None, Some(_)) => Err("AS_PLATFORM is set but AS_QUOTE_CMD is missing".to_owned()),
        (None, None, None) => Ok(None),
    }
}

/// The build command from `AS_BUILD_CMD`, when it holds more than white
/// space; otherwise the source tree is witnessed as-is.
pub fn build_command_from_config(value: Option<String>) -> (r: Option<String>)
    ensures
        r is Some <==> is_set(value),
        r matches Some(s) ==> value == Some(s),
{
    set_value(value)
}

/// The mode line: the builder's name and the quote source's name, or a note
/// that issuance is refused without one.
pub fn service_mode(builder: &str, quote_source: Option<&str>) -> (r: String)
    ensures
        r@ == "build="@ + builder@ + " quote="@ + match quote_source {
            Some(q) => q@,
            None => "none (verify-only; issuance refused)"@,
        },
{
    let mut r = "build=".to_owned();
    push_str(&mut r, builder);
    push_str(&mut r, " quote=");
    match quote_source {
        Some(q) => push_str(&mut r, q),
        None => push_str(&mut r, "none (verify-only; issuance refused)"),
    }
    r
}

} // verus!

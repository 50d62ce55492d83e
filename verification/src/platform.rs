use vstd::prelude::*;

verus! {

/// TEE platform identifier.
#[derive(Debug, Clone, Copy, PartialEq, Eq, Structural)]
pub enum Platform {
    Nitro,
    SevSnp,
    Tdx,
}

/// The canonical lower-case name of each platform.
pub open spec fn platform_name(p: Platform) -> Seq<char> {
    match p {
        Platform::Nitro => "nitro"@,
        Platform::SevSnp => "sev-snp"@,
        Platform::Tdx => "tdx"@,
    }
}

/// Wire discriminant of each platform (0 is reserved for "no hardware quote").
pub open spec fn platform_code(p: Platform) -> u8 {
    match p {
        Platform::Nitro => 1,
        Platform::SevSnp => 2,
        Platform::Tdx => 3,
    }
}

/// Inverse of [`platform_code`] on the codes it produces; `None` elsewhere.
pub open spec fn platform_of_code(code: u8) -> Option<Platform> {
    if code == 1 {
        Some(Platform::Nitro)
    } else if code == 2 {
        Some(Platform::SevSnp)
    } else if code == 3 {
        Some(Platform::Tdx)
    } else {
        None
    }
}

impl Platform {
    pub fn as_str(&self) -> (s: &'static str)
        ensures
            s@ == platform_name(*self),
    {
        match self {
            Platform::Nitro => "nitro",
            Platform::SevSnp => "sev-snp",
            Platform::Tdx => "tdx",
        }
    }
}

/// Discriminant encoding for [`Platform`].
pub fn platform_to_u8(p: Platform) -> (code: u8)
    ensures
        code == platform_code(p),
{
    match p {
        Platform::Nitro => 1,
        Platform::SevSnp => 2,
        Platform::Tdx => 3,
    }
}

/// Resolve a wire discriminant to a platform.
pub fn platform_from_u8(code: u8) -> (p: Option<Platform>)
    ensures
        p == platform_of_code(code),
{
    match code {
        1 => Some(Platform::Nitro),
        2 => Some(Platform::SevSnp),
        3 => Some(Platform::Tdx),
        _ => None,
    }
}

/// Decoding a platform's own discriminant gives the platform back, and
/// every code that decodes to a platform is that platform's discriminant.
pub proof fn platform_code_roundtrip(p: Platform, code: u8)
    ensures
        platform_of_code(platform_code(p)) == Some(p),
        platform_of_code(code) matches Some(q) ==> platform_code(q) == code,
{
}

} // verus!

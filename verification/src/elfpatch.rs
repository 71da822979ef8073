//! Rewriting an ELF binary in memory, through the `arwen` rewriter.
//!
//! What the rewriter computes from an image — whether it parses, its
//! program-header types, RPATH entries, interpreter and e_type, and the
//! rewritten image for a given RUNPATH and interpreter — are functions of
//! the bytes alone, so each is given a name here; the trusted layer
//! states that arwen returns the named results, and the functions of this
//! module are verified against the names. What to write — the RUNPATH
//! list and the interpreter — is decided by the `elf` module.

use vstd::prelude::*;
use crate::db::vstrs;
use crate::ZbError;

verus! {

/// Whether arwen parses these bytes as an ELF image.
pub uninterp spec fn elf_parses(b: Seq<u8>) -> bool;

/// The `p_type` of each program header of the image, in order.
pub uninterp spec fn elf_segment_types_of(b: Seq<u8>) -> Seq<u32>;

/// The image's DT_RUNPATH (or DT_RPATH) entries, split at colons.
pub uninterp spec fn elf_rpaths_of(b: Seq<u8>) -> Seq<Seq<char>>;

/// The image's PT_INTERP bytes, if it has that segment.
pub uninterp spec fn elf_interp_of(b: Seq<u8>) -> Option<Seq<u8>>;

/// The image's ELF header e_type field.
pub uninterp spec fn elf_e_type_of(b: Seq<u8>) -> u16;

/// The image arwen writes back after setting the RUNPATH (where one is
/// given) and the interpreter (where one is given).
pub uninterp spec fn elf_patched_image(
    b: Seq<u8>,
    runpath: Option<Seq<char>>,
    interp: Option<Seq<char>>,
) -> Seq<u8>;

/// Bytes decoded as UTF-8 with replacement characters where invalid.
pub uninterp spec fn utf8_lossy_of(b: Seq<u8>) -> Seq<char>;

/// ELF e_type of an executable image.
pub const ET_EXEC: u16 = 2;

/// ELF e_type of a shared object (also position-independent executables).
pub const ET_DYN: u16 = 3;

/// ELF p_type of the dynamic segment.
pub const PT_DYNAMIC: u32 = 2;

/// The image has a dynamic segment: some program header is PT_DYNAMIC.
pub open spec fn elf_has_dynamic(b: Seq<u8>) -> bool {
    exists|i: int|
        0 <= i < elf_segment_types_of(b).len() && elf_segment_types_of(b)[i] == PT_DYNAMIC
}

/// A parsed image's dynamic metadata, as plain values.
struct RawElf {
    segment_types: Vec<u32>,
    rpaths: Vec<String>,
    interpreter: Option<Vec<u8>>,
    e_type: u16,
}

/// Relies on arwen::elf::ElfContainer::parse, and on the readers of its
/// result — builder().segments, get_rpath, elf_interpreter, header —
/// which convert the parsed image to plain values: parsing succeeds on
/// exactly the images `elf_parses` holds of, and each field is the named
/// function of the bytes.
#[verifier::external_body]
fn elf_read_raw(content: &[u8]) -> (r: Option<RawElf>)
    ensures
        r is Some <==> elf_parses(content@),
        r matches Some(raw) ==> raw.segment_types@ == elf_segment_types_of(content@) && vstrs(
            raw.rpaths@,
        ) == elf_rpaths_of(content@) && (match raw.interpreter {
            Some(b) => elf_interp_of(content@) == Some(b@),
            None => elf_interp_of(content@) is None,
        }) && raw.e_type == elf_e_type_of(content@),
{
    match arwen::elf::ElfContainer::parse(content) {
        Ok(c) => Some(RawElf {
            segment_types: c.inner.builder().segments.iter().map(|s| s.p_type).collect(),
            rpaths: c.get_rpath(),
            interpreter: c.inner.elf_interpreter().map(|b| b.to_vec()),
            e_type: c.inner.builder().header.e_type,
        }),
        Err(_) => None,
    }
}

/// Relies on arwen's rewriter — ElfContainer::parse, set_page_size (kept
/// at the image's own page size), set_runpath, set_interpreter, write:
/// the written image is a function of the input image and the two
/// settings, named `elf_patched_image`. An image that does not parse
/// yields nothing; a setting the image cannot take is tolerated, and the
/// final write validates the result.
#[verifier::external_body]
fn elf_rewrite_raw(content: &[u8], runpath: Option<&str>, interpreter: Option<&str>) -> (r: Option<
    Vec<u8>,
>)
    ensures
        !elf_parses(content@) ==> r is None,
        r matches Some(v) ==> elf_parses(content@) && v@ == elf_patched_image(
            content@,
            match runpath {
                Some(s) => Some(s@),
                None => None,
            },
            match interpreter {
                Some(s) => Some(s@),
                None => None,
            },
        ),
{
    let mut c = match arwen::elf::ElfContainer::parse(content) {
        Ok(c) => c,
        Err(_) => return None,
    };
    let _ = c.set_page_size(c.get_page_size());
    if let Some(rp) = runpath { let _ = c.set_runpath(rp); }
    if let Some(ip) = interpreter { let _ = c.set_interpreter(ip); }
    let mut out: Vec<u8> = Vec::new();
    match c.write(&mut out) {
        Ok(()) => Some(out),
        Err(_) => None,
    }
}

/// Relies on String::from_utf8_lossy: the bytes decoded as UTF-8, with
/// replacement characters where they are not valid — a function of the
/// bytes alone, named `utf8_lossy_of`.
#[verifier::external_body]
fn bytes_to_string_lossy(b: &Vec<u8>) -> (r: String)
    ensures
        r@ == utf8_lossy_of(b@),
{
    String::from_utf8_lossy(b.as_slice()).to_string()
}

/// What the relocator needs to know about one ELF binary.
pub struct ElfInfo {
    /// The current RPATH/RUNPATH entries.
    pub rpaths: Vec<String>,
    /// The current PT_INTERP path, decoded, if the binary has one.
    pub interpreter: Option<String>,
    /// Whether the binary runs as a program: ET_EXEC, or ET_DYN with an
    /// interpreter.
    pub is_executable: bool,
}

/// The metadata is exactly the image's: the named RPATH entries, the
/// named interpreter decoded, and the executable flag computed from the
/// named e_type and interpreter.
pub open spec fn elf_info_of(info: ElfInfo, b: Seq<u8>) -> bool {
    &&& vstrs(info.rpaths@) == elf_rpaths_of(b)
    &&& match (info.interpreter, elf_interp_of(b)) {
        (Some(s), Some(raw)) => s@ == utf8_lossy_of(raw),
        (None, None) => true,
        _ => false,
    }
    &&& info.is_executable == (elf_e_type_of(b) == ET_EXEC || (elf_e_type_of(b) == ET_DYN
        && elf_interp_of(b) is Some))
}

fn storage_error() -> (r: ZbError)
    ensures
        r is StoreCorruption,
{
    ZbError::StoreCorruption { message: "failed to rewrite an ELF image".to_owned() }
}

/// Read the dynamic metadata of an ELF image: an error on exactly the
/// images the rewriter cannot parse, `None` on exactly the parsed images
/// without a dynamic segment — which the relocator leaves unchanged — and
/// otherwise the image's metadata.
pub fn elf_read_info(content: &Vec<u8>) -> (r: Result<Option<ElfInfo>, ZbError>)
    ensures
        r is Err <==> !elf_parses(content@),
        r matches Err(e) ==> e is StoreCorruption,
        (r matches Ok(i) && i is None) <==> (elf_parses(content@) && !elf_has_dynamic(content@)),
        r matches Ok(Some(info)) ==> elf_info_of(info, content@),
{
    let raw = match elf_read_raw(content.as_slice()) {
        Some(raw) => raw,
        None => {
            return Err(storage_error());
        },
    };
    let ghost types = elf_segment_types_of(content@);
    let mut dynamic = false;
    let mut i: usize = 0;
    while i < raw.segment_types.len()
        invariant
            raw.segment_types@ == types,
            i <= types.len(),
            dynamic == exists|j: int| 0 <= j < i && types[j] == PT_DYNAMIC,
        decreases raw.segment_types.len() - i,
    {
        if raw.segment_types[i] == PT_DYNAMIC {
            dynamic = true;
            proof {
                assert(types[i as int] == PT_DYNAMIC);
            }
        }
        i = i + 1;
    }
    proof {
        assert(dynamic == elf_has_dynamic(content@));
    }
    if !dynamic {
        return Ok(None);
    }
    let is_executable = raw.e_type == ET_EXEC || (raw.e_type == ET_DYN
        && raw.interpreter.is_some());
    let interpreter = match raw.interpreter {
        Some(b) => Some(bytes_to_string_lossy(&b)),
        None => None,
    };
    Ok(Some(ElfInfo { rpaths: raw.rpaths, interpreter, is_executable }))
}

/// Rewrite an ELF image: set the RUNPATH to `runpath` (unless it is
/// empty) and the interpreter to `interpreter` where one is given. The
/// result, when the rewriter accepts the image, is exactly the named
/// rewritten image; the caller replaces the file with it by an atomic
/// rename outside the library.
pub fn elf_apply_patch(content: &Vec<u8>, runpath: &str, interpreter: &Option<String>) -> (r:
    Result<Vec<u8>, ZbError>)
    ensures
        r matches Err(e) ==> e is StoreCorruption,
        !elf_parses(content@) ==> r is Err,
        r matches Ok(v) ==> elf_parses(content@) && v@ == elf_patched_image(
            content@,
            if runpath@.len() > 0 {
                Some(runpath@)
            } else {
                None
            },
            match interpreter {
                Some(s) => Some(s@),
                None => None,
            },
        ),
{
    let rp: Option<&str> = if runpath.unicode_len() > 0 {
        Some(runpath)
    } else {
        None
    };
    let ip: Option<&str> = match interpreter {
        Some(s) => Some(s.as_str()),
        None => None,
    };
    match elf_rewrite_raw(content.as_slice(), rp, ip) {
        Some(v) => Ok(v),
        None => Err(storage_error()),
    }
}

} // verus!

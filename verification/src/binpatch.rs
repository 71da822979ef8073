//! The embedded-string patch for binaries: hard-coded Homebrew prefixes
//! are overwritten in place at path boundaries, padded with NULs, and a
//! prefix longer than the one it replaces is refused — the bytes then
//! stay exactly as they were.
//!
//! Also the magic-number tests that pick which files the binary passes
//! see at all.

use vstd::prelude::*;
use vstd::string::StringSliceAdditionalSpecFns;
use vstd::pervasive::VecAdditionalExecFns;

verus! {

/// An occurrence only counts at a path boundary: the byte after it is a
/// NUL, a slash, or the end of the data.
pub open spec fn boundary_ok(data: Seq<u8>, end: int) -> bool {
    end == data.len() || data[end] == 0u8 || data[end] == 47u8
}

/// `old` sits in `data` at `i`, ending at a path boundary.
pub open spec fn prefix_match_at(data: Seq<u8>, old: Seq<u8>, i: int) -> bool {
    0 <= i && i + old.len() <= data.len() && data.subrange(i, i + old.len()) == old && boundary_ok(
        data,
        i + old.len(),
    )
}

/// `data` with `new` written at `i` and NULs padding the rest of the
/// `oldlen` bytes the match covered.
pub open spec fn overwrite_at(data: Seq<u8>, i: int, new: Seq<u8>, oldlen: int) -> Seq<u8> {
    Seq::new(
        data.len(),
        |j: int|
            if i <= j && j < i + new.len() {
                new[j - i]
            } else if i + new.len() <= j && j < i + oldlen {
                0u8
            } else {
                data[j]
            },
    )
}

/// The scan from position `i`: every boundary occurrence of `old` is
/// overwritten; the scan steps one byte at a time over the patched data.
pub open spec fn spec_patch_prefix_from(data: Seq<u8>, old: Seq<u8>, new: Seq<u8>, i: int) -> Seq<
    u8,
>
    decreases data.len() - i,
    when 0 <= i && old.len() > 0 && new.len() <= old.len()
{
    if i + old.len() > data.len() {
        data
    } else if prefix_match_at(data, old, i) {
        spec_patch_prefix_from(overwrite_at(data, i, new, old.len() as int), old, new, i + 1)
    } else {
        spec_patch_prefix_from(data, old, new, i + 1)
    }
}

/// The whole embedded-string patch for one prefix: a replacement longer
/// than the original is refused outright.
pub open spec fn spec_patch_prefix(data: Seq<u8>, old: Seq<u8>, new: Seq<u8>) -> Seq<u8> {
    if new.len() <= old.len() {
        spec_patch_prefix_from(data, old, new, 0)
    } else {
        data
    }
}

fn bytes_eq(a: &Vec<u8>, b: &Vec<u8>) -> (r: bool)
    ensures
        r == (a@ == b@),
{
    if a.len() != b.len() {
        return false;
    }
    let mut i: usize = 0;
    while i < a.len()
        invariant
            a@.len() == b@.len(),
            i <= a@.len(),
            forall|j: int| 0 <= j < i ==> a@[j] == b@[j],
        decreases a.len() - i,
    {
        if a[i] != b[i] {
            proof {
                if a@ == b@ {
                    assert(a@[i as int] == b@[i as int]);
                }
            }
            return false;
        }
        i = i + 1;
    }
    proof {
        assert(a@ =~= b@);
    }
    true
}

/// Decide a boundary match of `old` in `data` at `i`.
fn match_at(data: &Vec<u8>, old: &Vec<u8>, i: usize) -> (r: bool)
    requires
        i <= data@.len(),
        i + old@.len() <= data@.len(),
    ensures
        r == prefix_match_at(data@, old@, i as int),
{
    let mut k: usize = 0;
    while k < old.len()
        invariant
            i + old@.len() <= data.len(),
            k <= old@.len(),
            forall|j: int| 0 <= j < k ==> data@[i + j] == old@[j],
        decreases old.len() - k,
    {
        if data[i + k] != old[k] {
            proof {
                if prefix_match_at(data@, old@, i as int) {
                    assert(data@.subrange(i as int, i + old@.len() as int)[k as int] == data@[i
                        + k]);
                }
            }
            return false;
        }
        k = k + 1;
    }
    proof {
        assert(data@.subrange(i as int, i + old@.len() as int) =~= old@);
    }
    let end = i + old.len();
    if end == data.len() {
        true
    } else {
        let b = data[end];
        b == 0 || b == 47
    }
}

/// Patch every boundary occurrence of `old_prefix` to `new_prefix`,
/// padding with NULs. A longer `new_prefix` leaves the data untouched.
pub fn patch_binary_prefix(data: &Vec<u8>, old_prefix: &Vec<u8>, new_prefix: &Vec<u8>) -> (r: Vec<
    u8,
>)
    requires
        old_prefix@.len() > 0,
    ensures
        r@ == spec_patch_prefix(data@, old_prefix@, new_prefix@),
        new_prefix@.len() > old_prefix@.len() ==> r@ == data@,
{
    let mut out: Vec<u8> = Vec::new();
    let mut c: usize = 0;
    while c < data.len()
        invariant
            c <= data@.len(),
            out@ =~= data@.take(c as int),
        decreases data.len() - c,
    {
        out.push(data[c]);
        c = c + 1;
        proof {
            assert(out@ =~= data@.take(c as int));
        }
    }
    proof {
        assert(data@.take(data@.len() as int) =~= data@);
        assert(out@ == data@);
    }
    if new_prefix.len() > old_prefix.len() {
        return out;
    }
    let mut i: usize = 0;
    while i < out.len() && old_prefix.len() <= out.len() - i
        invariant
            old_prefix@.len() > 0,
            new_prefix@.len() <= old_prefix@.len(),
            i <= out@.len(),
            out@.len() == data@.len(),
            spec_patch_prefix_from(data@, old_prefix@, new_prefix@, 0) == spec_patch_prefix_from(
                out@,
                old_prefix@,
                new_prefix@,
                i as int,
            ),
        decreases out.len() - i,
    {
        if match_at(&out, old_prefix, i) {
            let n = out.len();
            let ghost before = out@;
            let mut k: usize = 0;
            while k < new_prefix.len()
                invariant
                    n == out@.len(),
                    i + old_prefix@.len() <= out@.len(),
                    new_prefix@.len() <= old_prefix@.len(),
                    k <= new_prefix@.len(),
                    out@.len() == before.len(),
                    forall|j: int|
                        0 <= j < out@.len() ==> out@[j] == if i <= j && j < i + k {
                            new_prefix@[j - i]
                        } else {
                            before[j]
                        },
                decreases new_prefix.len() - k,
            {
                out.set(i + k, new_prefix[k]);
                k = k + 1;
            }
            let mut k2: usize = new_prefix.len();
            while k2 < old_prefix.len()
                invariant
                    n == out@.len(),
                    i + old_prefix@.len() <= out@.len(),
                    new_prefix@.len() <= k2 <= old_prefix@.len(),
                    out@.len() == before.len(),
                    forall|j: int|
                        0 <= j < out@.len() ==> out@[j] == if i <= j && j < i
                            + new_prefix@.len() {
                            new_prefix@[j - i]
                        } else if i + new_prefix@.len() <= j && j < i + k2 {
                            0u8
                        } else {
                            before[j]
                        },
                decreases old_prefix.len() - k2,
            {
                out.set(i + k2, 0);
                k2 = k2 + 1;
            }
            proof {
                assert(out@ =~= overwrite_at(
                    before,
                    i as int,
                    new_prefix@,
                    old_prefix@.len() as int,
                ));
            }
            i = i + 1;
        } else {
            i = i + 1;
        }
    }
    proof {
        assert(i as int + old_prefix@.len() > out@.len());
        assert(spec_patch_prefix_from(out@, old_prefix@, new_prefix@, i as int) == out@);
    }
    out
}

// ---------------------------------------------------------------------------
// The canonical-prefix driver
// ---------------------------------------------------------------------------

/// One step of the driver: the chosen prefix itself is skipped.
pub open spec fn spec_patch_step(data: Seq<u8>, old: Seq<u8>, new: Seq<u8>) -> Seq<u8> {
    if old == new {
        data
    } else {
        spec_patch_prefix(data, old, new)
    }
}

/// Every canonical Homebrew prefix patched in order, against the bytes of
/// the chosen prefix.
pub open spec fn spec_patch_canonical(data: Seq<u8>, new: Seq<u8>) -> Seq<u8> {
    let s1 = spec_patch_step(data, "/opt/homebrew".spec_bytes(), new);
    let s2 = spec_patch_step(s1, "/usr/local/Homebrew".spec_bytes(), new);
    let s3 = spec_patch_step(s2, "/usr/local".spec_bytes(), new);
    spec_patch_step(s3, "/home/linuxbrew/.linuxbrew".spec_bytes(), new)
}

/// Rewrite every boundary occurrence of a canonical Homebrew prefix in a
/// binary to `new_prefix`, padding with NULs; occurrences the prefix will
/// not fit over are left alone, as is a canonical prefix equal to the
/// chosen one.
pub fn patch_macho_embedded(data: &Vec<u8>, new_prefix: &str) -> (r: Vec<u8>)
    ensures
        r@ == spec_patch_canonical(data@, new_prefix.spec_bytes()),
{
    proof {
        reveal_strlit("/opt/homebrew");
        reveal_strlit("/usr/local/Homebrew");
        reveal_strlit("/usr/local");
        reveal_strlit("/home/linuxbrew/.linuxbrew");
    }
    let nv = new_prefix.as_bytes_vec();
    let c1 = "/opt/homebrew".as_bytes_vec();
    let c2 = "/usr/local/Homebrew".as_bytes_vec();
    let c3 = "/usr/local".as_bytes_vec();
    let c4 = "/home/linuxbrew/.linuxbrew".as_bytes_vec();
    let s1 = if bytes_eq(&c1, &nv) {
        data.clone()
    } else {
        patch_binary_prefix(data, &c1, &nv)
    };
    let s2 = if bytes_eq(&c2, &nv) {
        s1
    } else {
        patch_binary_prefix(&s1, &c2, &nv)
    };
    let s3 = if bytes_eq(&c3, &nv) {
        s2
    } else {
        patch_binary_prefix(&s2, &c3, &nv)
    };
    if bytes_eq(&c4, &nv) {
        s3
    } else {
        patch_binary_prefix(&s3, &c4, &nv)
    }
}

// ---------------------------------------------------------------------------
// Magic numbers
// ---------------------------------------------------------------------------

/// The four ELF magic bytes open the file.
pub open spec fn spec_is_elf(data: Seq<u8>) -> bool {
    data.len() >= 4 && data[0] == 0x7fu8 && data[1] == 0x45u8 && data[2] == 0x4cu8 && data[3]
        == 0x46u8
}

pub fn is_elf_magic(data: &Vec<u8>) -> (r: bool)
    ensures
        r == spec_is_elf(data@),
{
    data.len() >= 4 && data[0] == 0x7f && data[1] == 0x45 && data[2] == 0x4c && data[3] == 0x46
}

/// The five Mach-O magics: 32- and 64-bit, fat, and the two byte-swapped
/// forms, read as the file's first four bytes.
pub open spec fn spec_is_macho(data: Seq<u8>) -> bool {
    data.len() >= 4 && {
        ||| (data[0] == 0xfeu8 && data[1] == 0xedu8 && data[2] == 0xfau8 && data[3] == 0xceu8)
        ||| (data[0] == 0xfeu8 && data[1] == 0xedu8 && data[2] == 0xfau8 && data[3] == 0xcfu8)
        ||| (data[0] == 0xcau8 && data[1] == 0xfeu8 && data[2] == 0xbau8 && data[3] == 0xbeu8)
        ||| (data[0] == 0xceu8 && data[1] == 0xfau8 && data[2] == 0xedu8 && data[3] == 0xfeu8)
        ||| (data[0] == 0xcfu8 && data[1] == 0xfau8 && data[2] == 0xedu8 && data[3] == 0xfeu8)
    }
}

pub fn is_macho_magic(data: &Vec<u8>) -> (r: bool)
    ensures
        r == spec_is_macho(data@),
{
    if data.len() < 4 {
        return false;
    }
    let b0 = data[0];
    let b1 = data[1];
    let b2 = data[2];
    let b3 = data[3];
    (b0 == 0xfe && b1 == 0xed && b2 == 0xfa && b3 == 0xce) || (b0 == 0xfe && b1 == 0xed && b2
        == 0xfa && b3 == 0xcf) || (b0 == 0xca && b1 == 0xfe && b2 == 0xba && b3 == 0xbe) || (b0
        == 0xce && b1 == 0xfa && b2 == 0xed && b3 == 0xfe) || (b0 == 0xcf && b1 == 0xfa && b2
        == 0xed && b3 == 0xfe)
}

/// A NUL among the first 8 KiB marks a file as binary: the text pass
/// skips it.
pub open spec fn spec_head_has_nul(data: Seq<u8>) -> bool {
    exists|i: int| 0 <= i < data.len() && i < 8192 && data[i] == 0u8
}

pub fn head_has_nul(data: &Vec<u8>) -> (r: bool)
    ensures
        r == spec_head_has_nul(data@),
{
    let mut i: usize = 0;
    while i < data.len() && i < 8192
        invariant
            i <= data@.len(),
            forall|j: int| 0 <= j < i ==> data@[j] != 0u8,
        decreases data.len() - i,
    {
        if data[i] == 0 {
            return true;
        }
        i = i + 1;
    }
    false
}

} // verus!

//! The ELF relocation decisions: which RPATH entries survive and what
//! joins them, which dynamic linker a binary should get, and how a
//! bundled glibc is detected. All of it is pure; reading directories and
//! testing paths for existence happen outside the library.

use vstd::prelude::*;
use vstd::seq_lib::*;
use crate::replace::{
    spec_replace_all, replace_all, occurs, contains_seq, str_to_chars, chars_to_string,
};
use crate::relocate::prefix_token;
use crate::text::{lex_lt, lemma_lex_trans, lemma_lex_trichotomy, str_lt, str_eq};
use crate::db::vstrs;

verus! {

/// An RPATH entry survives when, after expansion, it points below the
/// new prefix or is relative to the binary's own location.
pub open spec fn runpath_keep(entry: Seq<char>, prefix: Seq<char>) -> bool {
    prefix.is_prefix_of(entry) || "$ORIGIN"@.is_prefix_of(entry)
}

/// The surviving RPATH entries: each has its placeholder expanded to the
/// prefix, and only those below the prefix or `$ORIGIN`-relative stay.
pub open spec fn spec_runpath_entries(olds: Seq<Seq<char>>, prefix: Seq<char>) -> Seq<Seq<char>> {
    olds.map_values(|o: Seq<char>| spec_replace_all(o, prefix_token(), prefix)).filter(
        |o: Seq<char>| runpath_keep(o, prefix),
    )
}

/// The final RPATH list: the survivors, with `<prefix>/lib` appended when
/// none of them is it already.
pub open spec fn spec_runpath(olds: Seq<Seq<char>>, prefix: Seq<char>, lib: Seq<char>) -> Seq<
    Seq<char>,
> {
    let kept = spec_runpath_entries(olds, prefix);
    if kept.contains(lib) {
        kept
    } else {
        kept.push(lib)
    }
}

proof fn lemma_runpath_push(olds: Seq<Seq<char>>, o: Seq<char>, prefix: Seq<char>)
    ensures
        spec_runpath_entries(olds.push(o), prefix) == ({
            let m = spec_replace_all(o, prefix_token(), prefix);
            if runpath_keep(m, prefix) {
                spec_runpath_entries(olds, prefix).push(m)
            } else {
                spec_runpath_entries(olds, prefix)
            }
        }),
{
    reveal(Seq::filter);
    let f = |x: Seq<char>| spec_replace_all(x, prefix_token(), prefix);
    let mapped = olds.map_values(f);
    assert(olds.push(o).map_values(f) =~= mapped.push(f(o)));
    assert(mapped.push(f(o)).drop_last() =~= mapped);
    assert(mapped.push(f(o)).last() == f(o));
    if runpath_keep(f(o), prefix) {
        assert(spec_runpath_entries(olds.push(o), prefix) =~= spec_runpath_entries(
            olds,
            prefix,
        ).push(f(o)));
    } else {
        assert(spec_runpath_entries(olds.push(o), prefix) =~= spec_runpath_entries(olds, prefix));
    }
}

/// Decide `pre@ == the start of s@`.
pub fn vec_starts_with(s: &Vec<char>, pre: &Vec<char>) -> (r: bool)
    ensures
        r == pre@.is_prefix_of(s@),
{
    if pre.len() > s.len() {
        return false;
    }
    let mut i: usize = 0;
    while i < pre.len()
        invariant
            pre@.len() <= s@.len(),
            i <= pre@.len(),
            forall|j: int| 0 <= j < i ==> s@[j] == pre@[j],
        decreases pre.len() - i,
    {
        if s[i] != pre[i] {
            proof {
                if pre@.is_prefix_of(s@) {
                    assert(s@.subrange(0, pre@.len() as int)[i as int] == s@[i as int]);
                }
            }
            return false;
        }
        i = i + 1;
    }
    proof {
        assert(s@.subrange(0, pre@.len() as int) =~= pre@);
    }
    true
}

/// Compute the RPATH list the binary gets: expand, filter, and make sure
/// `lib_path` is on it.
pub fn compute_runpath(old_rpaths: &Vec<String>, prefix: &str, lib_path: &str) -> (r: Vec<String>)
    ensures
        vstrs(r@) == spec_runpath(vstrs(old_rpaths@), prefix@, lib_path@),
{
    proof {
        reveal_strlit("@@HOMEBREW_PREFIX@@");
        reveal_strlit("$ORIGIN");
    }
    let ghost olds = vstrs(old_rpaths@);
    let tp = str_to_chars("@@HOMEBREW_PREFIX@@");
    let pv = str_to_chars(prefix);
    let ov = str_to_chars("$ORIGIN");
    let mut kept: Vec<String> = Vec::new();
    let mut i: usize = 0;
    while i < old_rpaths.len()
        invariant
            olds == vstrs(old_rpaths@),
            olds.len() == old_rpaths@.len(),
            i <= old_rpaths@.len(),
            tp@ == prefix_token(),
            tp@.len() > 0,
            pv@ == prefix@,
            ov@ == "$ORIGIN"@,
            vstrs(kept@).len() == kept@.len(),
            vstrs(kept@) =~= spec_runpath_entries(olds.take(i as int), prefix@),
        decreases old_rpaths.len() - i,
    {
        proof {
            lemma_runpath_push(olds.take(i as int), olds[i as int], prefix@);
            assert(olds.take(i as int).push(olds[i as int]) =~= olds.take(i as int + 1));
        }
        let ec = str_to_chars(old_rpaths[i].as_str());
        let mc = replace_all(&ec, &tp, &pv);
        if vec_starts_with(&mc, &pv) || vec_starts_with(&mc, &ov) {
            kept.push(chars_to_string(&mc));
        }
        i = i + 1;
        proof {
            assert(vstrs(kept@) =~= spec_runpath_entries(olds.take(i as int), prefix@));
        }
    }
    proof {
        assert(olds.take(olds.len() as int) =~= olds);
    }
    let ghost entries = spec_runpath_entries(olds, prefix@);
    let mut found = false;
    let mut j: usize = 0;
    while j < kept.len()
        invariant
            vstrs(kept@) == entries,
            entries.len() == kept@.len(),
            j <= kept@.len(),
            found ==> entries.contains(lib_path@),
            !found ==> forall|k: int| 0 <= k < j ==> entries[k] != lib_path@,
        decreases kept.len() - j,
    {
        if !found && str_eq(kept[j].as_str(), lib_path) {
            found = true;
            proof {
                assert(entries[j as int] == lib_path@);
            }
        }
        j = j + 1;
    }
    if !found {
        kept.push(lib_path.to_owned());
        proof {
            assert(!entries.contains(lib_path@));
            assert(vstrs(kept@) =~= entries.push(lib_path@));
        }
    }
    kept
}

/// The joined RPATH string: entries separated by colons.
pub open spec fn spec_join_colon(v: Seq<Seq<char>>) -> Seq<char>
    decreases v.len(),
{
    if v.len() == 0 {
        Seq::empty()
    } else if v.len() == 1 {
        v[0]
    } else {
        v[0] + seq![':'] + spec_join_colon(v.skip(1))
    }
}

proof fn lemma_join_colon_push(v: Seq<Seq<char>>, x: Seq<char>)
    requires
        v.len() > 0,
    ensures
        spec_join_colon(v.push(x)) == spec_join_colon(v) + seq![':'] + x,
    decreases v.len(),
{
    if v.len() == 1 {
        assert(v.push(x)[0] == v[0]);
        assert(v.push(x).skip(1) =~= seq![x]);
        assert(spec_join_colon(seq![x]) == x);
    } else {
        assert(v.push(x)[0] == v[0]);
        assert(v.push(x).skip(1) =~= v.skip(1).push(x));
        lemma_join_colon_push(v.skip(1), x);
        assert(spec_join_colon(v.push(x)) =~= spec_join_colon(v) + seq![':'] + x);
    }
}

/// Join RPATH entries with `:`.
pub fn join_colon(v: &Vec<String>) -> (r: String)
    ensures
        r@ == spec_join_colon(vstrs(v@)),
{
    proof {
        reveal_strlit(":");
    }
    let ghost m = vstrs(v@);
    let mut out = String::new();
    let mut i: usize = 0;
    while i < v.len()
        invariant
            m == vstrs(v@),
            m.len() == v@.len(),
            i <= v@.len(),
            out@ =~= spec_join_colon(m.take(i as int)),
            ":"@ == seq![':'],
        decreases v.len() - i,
    {
        proof {
            if i > 0 {
                lemma_join_colon_push(m.take(i as int), m[i as int]);
            }
            assert(m.take(i as int).push(m[i as int]) =~= m.take(i as int + 1));
        }
        if i > 0 {
            out.append(":");
        }
        out.append(v[i].as_str());
        i = i + 1;
        proof {
            assert(out@ =~= spec_join_colon(m.take(i as int)));
        }
    }
    proof {
        assert(m.take(m.len() as int) =~= m);
    }
    out
}

// ---------------------------------------------------------------------------
// Interpreter choice
// ---------------------------------------------------------------------------

pub open spec fn vopt(o: Option<String>) -> Option<Seq<char>> {
    match o {
        Some(s) => Some(s@),
        None => None,
    }
}

/// The expanded interpreter path, when the current one holds the
/// placeholder: the placeholder replaced by the prefix.
pub fn expand_interpreter(current: &str, prefix: &str) -> (r: Option<String>)
    ensures
        match r {
            Some(e) => occurs(current@, prefix_token()) && e@ == spec_replace_all(
                current@,
                prefix_token(),
                prefix@,
            ),
            None => !occurs(current@, prefix_token()),
        },
{
    proof {
        reveal_strlit("@@HOMEBREW_PREFIX@@");
    }
    let cc = str_to_chars(current);
    let tp = str_to_chars("@@HOMEBREW_PREFIX@@");
    if contains_seq(&cc, &tp) {
        let pv = str_to_chars(prefix);
        Some(chars_to_string(&replace_all(&cc, &tp, &pv)))
    } else {
        None
    }
}

/// Which dynamic linker the binary gets. A placeholder interpreter is
/// expanded and used when the expanded path exists, with the system
/// linker as fallback; any other interpreter is replaced by the detected
/// default (the bundled glibc's linker when one is installed, else the
/// system's).
pub fn choose_interpreter(
    current: &str,
    prefix: &str,
    expanded_exists: bool,
    default_ld: &Option<String>,
    system_ld: &Option<String>,
) -> (r: Option<String>)
    ensures
        occurs(current@, prefix_token()) && expanded_exists ==> vopt(r) == Some(
            spec_replace_all(current@, prefix_token(), prefix@),
        ),
        occurs(current@, prefix_token()) && !expanded_exists ==> vopt(r) == vopt(*system_ld),
        !occurs(current@, prefix_token()) ==> vopt(r) == vopt(*default_ld),
{
    match expand_interpreter(current, prefix) {
        Some(e) => {
            if expanded_exists {
                Some(e)
            } else {
                match system_ld {
                    Some(s) => Some(s.clone()),
                    None => None,
                }
            }
        },
        None => {
            match default_ld {
                Some(s) => Some(s.clone()),
                None => None,
            }
        },
    }
}

// ---------------------------------------------------------------------------
// Linker detection
// ---------------------------------------------------------------------------

/// The lexicographically greatest version: with several glibc versions
/// installed, the newest wins.
pub fn newest_version(versions: &Vec<String>) -> (r: Option<String>)
    ensures
        match r {
            Some(m) => versions@.len() > 0 && (exists|i: int|
                0 <= i < versions@.len() && versions@[i]@ == m@) && (forall|i: int|
                0 <= i < versions@.len() ==> !lex_lt(m@, versions@[i]@)),
            None => versions@.len() == 0,
        },
{
    if versions.len() == 0 {
        return None;
    }
    let mut best = versions[0].clone();
    proof {
        lemma_lex_trichotomy(best@, versions@[0]@);
    }
    let mut i: usize = 1;
    while i < versions.len()
        invariant
            1 <= i <= versions@.len(),
            exists|k: int| 0 <= k < versions@.len() && versions@[k]@ == best@,
            forall|k: int| 0 <= k < i ==> !lex_lt(best@, versions@[k]@),
        decreases versions.len() - i,
    {
        if str_lt(best.as_str(), versions[i].as_str()) {
            let ghost ob = best@;
            best = versions[i].clone();
            proof {
                assert forall|k: int| 0 <= k < i + 1 implies !lex_lt(best@, versions@[k]@) by {
                    if k < i && lex_lt(best@, versions@[k]@) {
                        lemma_lex_trans(ob, best@, versions@[k]@);
                    }
                    if k == i {
                        lemma_lex_trichotomy(best@, versions@[k]@);
                    }
                }
            }
        }
        i = i + 1;
    }
    Some(best)
}

/// A file name that names a dynamic linker: `ld-linux*` with `.so` in
/// it, or an `ld64.so.*` variant.
pub open spec fn spec_is_ld_name(n: Seq<char>) -> bool {
    ("ld-linux"@.is_prefix_of(n) && occurs(n, ".so"@)) || "ld64.so."@.is_prefix_of(n)
}

pub fn is_ld_so_name(name: &str) -> (r: bool)
    ensures
        r == spec_is_ld_name(name@),
{
    proof {
        reveal_strlit("ld-linux");
        reveal_strlit(".so");
        reveal_strlit("ld64.so.");
    }
    let nc = str_to_chars(name);
    let p1 = str_to_chars("ld-linux");
    let so = str_to_chars(".so");
    let p2 = str_to_chars("ld64.so.");
    (vec_starts_with(&nc, &p1) && contains_seq(&nc, &so)) || vec_starts_with(&nc, &p2)
}

/// The first dynamic-linker name in a lib directory's listing, in the
/// order given.
pub fn first_ld_in(names: &Vec<String>) -> (r: Option<String>)
    ensures
        match r {
            Some(x) => exists|i: int|
                0 <= i < names@.len() && names@[i]@ == x@ && spec_is_ld_name(x@) && (forall|j: int|
                    0 <= j < i ==> !spec_is_ld_name(names@[j]@)),
            None => forall|j: int| 0 <= j < names@.len() ==> !spec_is_ld_name(names@[j]@),
        },
{
    let mut i: usize = 0;
    while i < names.len()
        invariant
            i <= names@.len(),
            forall|j: int| 0 <= j < i ==> !spec_is_ld_name(names@[j]@),
        decreases names.len() - i,
    {
        if is_ld_so_name(names[i].as_str()) {
            return Some(names[i].clone());
        }
        i = i + 1;
    }
    None
}

/// Whether some name of a lib directory names a dynamic linker.
pub open spec fn has_ld_name(names: Seq<Seq<char>>) -> bool {
    exists|m: int| 0 <= m < names.len() && spec_is_ld_name(names[m])
}

/// `n` is the first dynamic-linker name of the listing.
pub open spec fn is_first_ld(names: Seq<Seq<char>>, n: Seq<char>) -> bool {
    exists|i: int|
        0 <= i < names.len() && names[i] == n && spec_is_ld_name(n) && (forall|j: int|
            0 <= j < i ==> !spec_is_ld_name(names[j]))
}

/// One version directory of a bundled glibc keg: the version name, and
/// the file names of its lib directory (empty when there is none).
pub struct GlibcVersionDir {
    pub version: String,
    pub lib_names: Vec<String>,
}

#[verifier::ext_equal]
pub ghost struct GlibcDirModel {
    pub version: Seq<char>,
    pub lib_names: Seq<Seq<char>>,
}

impl View for GlibcVersionDir {
    type V = GlibcDirModel;

    open spec fn view(&self) -> GlibcDirModel {
        GlibcDirModel { version: self.version@, lib_names: vstrs(self.lib_names@) }
    }
}

/// Pick the bundled dynamic linker: among the version directories whose
/// lib holds a linker name, the lexicographically greatest version wins —
/// falling back past newer versions without one — and the linker is the
/// first matching name of that directory's listing. `None` exactly when
/// no directory holds a linker.
pub fn detect_glibc_ld(dirs: &Vec<GlibcVersionDir>) -> (r: Option<(String, String)>)
    ensures
        match r {
            Some(p) => (exists|i: int|
                0 <= i < dirs@.len() && dirs@[i]@.version == p.0@ && is_first_ld(
                    dirs@[i]@.lib_names,
                    p.1@,
                )) && (forall|j: int|
                0 <= j < dirs@.len() && has_ld_name(dirs@[j]@.lib_names) ==> !lex_lt(
                    p.0@,
                    dirs@[j]@.version,
                )),
            None => forall|j: int| 0 <= j < dirs@.len() ==> !has_ld_name(dirs@[j]@.lib_names),
        },
{
    let mut best: Option<(String, String)> = None;
    let mut i: usize = 0;
    while i < dirs.len()
        invariant
            i <= dirs@.len(),
            match best {
                Some(p) => (exists|k: int|
                    0 <= k < i && dirs@[k]@.version == p.0@ && is_first_ld(
                        dirs@[k]@.lib_names,
                        p.1@,
                    )) && (forall|j: int|
                    0 <= j < i && has_ld_name(dirs@[j]@.lib_names) ==> !lex_lt(
                        p.0@,
                        dirs@[j]@.version,
                    )),
                None => forall|j: int| 0 <= j < i ==> !has_ld_name(dirs@[j]@.lib_names),
            },
        decreases dirs.len() - i,
    {
        let ghost d = dirs@[i as int]@;
        match first_ld_in(&dirs[i].lib_names) {
            Some(n) => {
                proof {
                    let w = choose|w: int|
                        0 <= w < dirs[i as int].lib_names@.len()
                            && dirs[i as int].lib_names@[w]@ == n@ && spec_is_ld_name(n@) && (
                        forall|j: int|
                            0 <= j < w ==> !spec_is_ld_name(dirs[i as int].lib_names@[j]@));
                    assert(d.lib_names[w] == n@);
                    assert(is_first_ld(d.lib_names, n@));
                    assert(has_ld_name(d.lib_names));
                }
                let replace = match &best {
                    Some(p) => str_lt(p.0.as_str(), dirs[i].version.as_str()),
                    None => true,
                };
                if replace {
                    let ghost old_best = best;
                    best = Some((dirs[i].version.clone(), n));
                    proof {
                        assert forall|j: int|
                            0 <= j < i + 1 && has_ld_name(
                                dirs@[j]@.lib_names,
                            ) implies !lex_lt(d.version, dirs@[j]@.version) by {
                            if j == i as int {
                                lemma_lex_trichotomy(d.version, dirs@[j]@.version);
                            } else {
                                match old_best {
                                    Some(p) => {
                                        if lex_lt(d.version, dirs@[j]@.version) {
                                            lemma_lex_trans(p.0@, d.version, dirs@[j]@.version);
                                        }
                                    },
                                    None => {},
                                }
                            }
                        }
                    }
                } else {
                    proof {
                        match &best {
                            Some(p) => {
                                assert(!lex_lt(p.0@, d.version));
                            },
                            None => {},
                        }
                    }
                }
            },
            None => {
                proof {
                    assert forall|m: int|
                        0 <= m < d.lib_names.len() implies !spec_is_ld_name(d.lib_names[m]) by {
                        assert(d.lib_names[m] == dirs[i as int].lib_names@[m]@);
                    }
                    assert(!has_ld_name(d.lib_names));
                }
            },
        }
        i = i + 1;
    }
    best
}

/// The fixed list of system dynamic-linker paths, tried in order: the
/// first that exists on the machine is the system linker.
pub fn system_ld_candidates() -> (r: Vec<String>)
    ensures
        r@.len() == 10,
        r@[0]@ == "/lib64/ld-linux-x86-64.so.2"@,
        r@[1]@ == "/usr/lib64/ld-linux-x86-64.so.2"@,
        r@[2]@ == "/lib/ld-linux-aarch64.so.1"@,
        r@[3]@ == "/usr/lib/ld-linux-aarch64.so.1"@,
        r@[4]@ == "/lib/ld-linux-armhf.so.3"@,
        r@[5]@ == "/usr/lib/ld-linux-armhf.so.3"@,
        r@[6]@ == "/lib/ld-linux.so.3"@,
        r@[7]@ == "/lib/ld-linux.so.2"@,
        r@[8]@ == "/lib64/ld64.so.2"@,
        r@[9]@ == "/lib64/ld64.so.1"@,
{
    let mut v: Vec<String> = Vec::new();
    v.push("/lib64/ld-linux-x86-64.so.2".to_owned());
    v.push("/usr/lib64/ld-linux-x86-64.so.2".to_owned());
    v.push("/lib/ld-linux-aarch64.so.1".to_owned());
    v.push("/usr/lib/ld-linux-aarch64.so.1".to_owned());
    v.push("/lib/ld-linux-armhf.so.3".to_owned());
    v.push("/usr/lib/ld-linux-armhf.so.3".to_owned());
    v.push("/lib/ld-linux.so.3".to_owned());
    v.push("/lib/ld-linux.so.2".to_owned());
    v.push("/lib64/ld64.so.2".to_owned());
    v.push("/lib64/ld64.so.1".to_owned());
    v
}

/// The first index at which `present` holds, or the length.
pub open spec fn first_true(present: Seq<bool>) -> int
    decreases present.len(),
{
    if present.len() == 0 {
        0
    } else if present[0] {
        0
    } else {
        1 + first_true(present.skip(1))
    }
}

pub proof fn lemma_first_true_bounds(s: Seq<bool>)
    ensures
        0 <= first_true(s) <= s.len(),
    decreases s.len(),
{
    if s.len() > 0 && !s[0] {
        lemma_first_true_bounds(s.skip(1));
    }
}

/// The first candidate that is present on disk, in order: the caller
/// reports with `present[i]` whether `candidates[i]` exists.
pub fn first_present(candidates: &Vec<String>, present: &Vec<bool>) -> (r: Option<String>)
    requires
        candidates@.len() == present@.len(),
    ensures
        0 <= first_true(present@) <= present@.len(),
        ({
            let p = first_true(present@);
            match r {
                Some(x) => p < present@.len() && x@ == candidates@[p]@,
                None => p == present@.len(),
            }
        }),
{
    let ghost m = present@;
    let mut i: usize = 0;
    proof {
        assert(m.skip(0) =~= m);
    }
    while i < present.len()
        invariant
            candidates@.len() == m.len(),
            m == present@,
            m.len() == present@.len(),
            i <= m.len(),
            first_true(m) == i + first_true(m.skip(i as int)),
        decreases present.len() - i,
    {
        proof {
            assert(m.skip(i as int)[0] == m[i as int]);
            assert(m.skip(i as int).skip(1) =~= m.skip(i as int + 1));
        }
        if present[i] {
            return Some(candidates[i].clone());
        }
        i = i + 1;
    }
    proof {
        assert(m.skip(m.len() as int).len() == 0);
    }
    None
}

} // verus!

//! Version self-correction in library paths: a bottle may reference a
//! stale version of its own package, as in `…/<name>/<old version>/…`;
//! the first such segment is rewritten to the installed version. This is
//! what drives the install-name patching of Mach-O load commands.

use vstd::prelude::*;
use crate::replace::{
    occurs_at, spec_replace_all, replace_all, matches_at, str_to_chars, chars_to_string,
};
use crate::relocate::{prefix_token, cellar_token, chars_eq};

verus! {

/// Index of the first slash, or the length if there is none.
pub open spec fn first_slash(s: Seq<char>) -> nat
    decreases s.len(),
{
    if s.len() == 0 {
        0
    } else if s[0] == '/' {
        0
    } else {
        1 + first_slash(s.skip(1))
    }
}

pub proof fn lemma_first_slash_le(s: Seq<char>)
    ensures
        first_slash(s) <= s.len(),
    decreases s.len(),
{
    if s.len() > 0 && s[0] != '/' {
        lemma_first_slash_le(s.skip(1));
    }
}

proof fn lemma_first_slash_props(s: Seq<char>)
    ensures
        first_slash(s) <= s.len(),
        first_slash(s) < s.len() ==> s[first_slash(s) as int] == '/',
        forall|j: int| 0 <= j < first_slash(s) ==> s[j] != '/',
    decreases s.len(),
{
    lemma_first_slash_le(s);
    if s.len() > 0 && s[0] != '/' {
        lemma_first_slash_props(s.skip(1));
        assert forall|j: int| 0 <= j < first_slash(s) implies s[j] != '/' by {
            if j > 0 {
                assert(s.skip(1)[j - 1] == s[j]);
            }
        }
    }
}

/// The path segment pattern `/<name>/`.
pub open spec fn seg_pat(name: Seq<char>) -> Seq<char> {
    seq!['/'] + name + seq!['/']
}

/// At `i`, `s` reads `/<name>/<segment>/` with a non-empty, slash-free
/// segment.
pub open spec fn ver_match_at(s: Seq<char>, name: Seq<char>, i: int) -> bool {
    occurs_at(s, seg_pat(name), i) && {
        let t = s.skip(i + seg_pat(name).len() as int);
        0 < first_slash(t) && first_slash(t) < t.len()
    }
}

/// The version segment that a match at `i` carries.
pub open spec fn ver_at(s: Seq<char>, name: Seq<char>, i: int) -> Seq<char> {
    let start = i + seg_pat(name).len() as int;
    s.subrange(start, start + first_slash(s.skip(start)) as int)
}

/// Rewrite the first `/<name>/<segment>/` whose segment differs from
/// `version` — the rest of the path is kept as it stands — and leave a
/// path whose first such segment is already `version` unchanged.
pub open spec fn spec_fix_version(s: Seq<char>, name: Seq<char>, version: Seq<char>) -> Seq<char>
    decreases s.len(),
    when name.len() > 0
{
    if s.len() == 0 {
        s
    } else if ver_match_at(s, name, 0) {
        if ver_at(s, name, 0) == version {
            s
        } else {
            let start = seg_pat(name).len() as int;
            let seg_end = start + first_slash(s.skip(start)) as int;
            seg_pat(name) + version + seq!['/'] + s.skip(seg_end + 1)
        }
    } else {
        seq![s[0]] + spec_fix_version(s.skip(1), name, version)
    }
}

/// Find the slash that closes the segment starting at `from`, or the end.
fn find_slash_from(s: &Vec<char>, from: usize) -> (r: usize)
    requires
        from <= s@.len(),
    ensures
        r - from == first_slash(s@.skip(from as int)),
        r <= s@.len(),
{
    let ghost t0 = s@.skip(from as int);
    let mut i: usize = from;
    proof {
        assert(t0.skip(0) =~= t0);
    }
    while i < s.len() && s[i] != '/'
        invariant
            from <= i <= s.len(),
            t0 == s@.skip(from as int),
            first_slash(t0) == i - from + first_slash(t0.skip(i - from)),
        decreases s.len() - i,
    {
        proof {
            assert(t0.skip(i - from)[0] == s@[i as int]);
            assert(t0.skip(i - from).skip(1) =~= t0.skip(i + 1 - from));
        }
        i = i + 1;
    }
    proof {
        if i < s.len() {
            assert(t0.skip(i - from)[0] == s@[i as int]);
        } else {
            assert(t0.skip(i - from).len() == 0);
        }
    }
    i
}

/// Decide a version-segment match of `name` at `i`, and hand back the
/// segment's closing slash.
fn ver_match_exec(s: &Vec<char>, pat: &Vec<char>, ghost_name: Ghost<Seq<char>>, i: usize) -> (r:
    Option<usize>)
    requires
        i <= s@.len(),
        pat@ == seg_pat(ghost_name@),
    ensures
        match r {
            Some(j) => ver_match_at(s@, ghost_name@, i as int) && j == i + pat@.len()
                + first_slash(s@.skip(i + pat@.len())) && j < s@.len(),
            None => !ver_match_at(s@, ghost_name@, i as int),
        },
{
    let ghost name = ghost_name@;
    let n = s.len();
    if !matches_at(s, pat, i) {
        return None;
    }
    let start = i + pat.len();
    let j = find_slash_from(s, start);
    proof {
        lemma_first_slash_props(s@.skip(start as int));
    }
    if j == start || j >= s.len() {
        proof {
            assert(!ver_match_at(s@, name, i as int));
        }
        None
    } else {
        Some(j)
    }
}

/// Rewrite the first stale `/<name>/<version>/` segment of a path to the
/// installed version; a path whose first such segment is current, or that
/// has none, comes back unchanged.
pub fn fix_version_in_path(s: &Vec<char>, name: &str, version: &str) -> (r: Vec<char>)
    requires
        name@.len() > 0,
    ensures
        r@ == spec_fix_version(s@, name@, version@),
{
    let ghost whole = spec_fix_version(s@, name@, version@);
    let mut pat: Vec<char> = Vec::new();
    pat.push('/');
    let mut nc = str_to_chars(name);
    pat.append(&mut nc);
    pat.push('/');
    proof {
        assert(pat@ =~= seg_pat(name@));
    }
    let vv = str_to_chars(version);
    let mut out: Vec<char> = Vec::new();
    let mut i: usize = 0;
    proof {
        assert(s@.skip(0) =~= s@);
    }
    while i < s.len()
        invariant
            name@.len() > 0,
            pat@ == seg_pat(name@),
            vv@ == version@,
            i <= s@.len(),
            whole == spec_fix_version(s@, name@, version@),
            whole == out@ + spec_fix_version(s@.skip(i as int), name@, version@),
        decreases s.len() - i,
    {
        let ghost seg = s@.skip(i as int);
        match ver_match_exec(s, &pat, Ghost(name@), i) {
            Some(j) => {
                proof {
                    assert(ver_match_at(seg, name@, 0)) by {
                        assert(seg.subrange(0, pat@.len() as int) =~= s@.subrange(
                            i as int,
                            i + pat@.len(),
                        ));
                        assert(seg.skip(pat@.len() as int) =~= s@.skip(i + pat@.len()));
                    }
                    assert(ver_at(seg, name@, 0) =~= s@.subrange(i + pat@.len(), j as int)) by {
                        assert(seg.skip(pat@.len() as int) =~= s@.skip(i + pat@.len()));
                        assert(seg.subrange(
                            pat@.len() as int,
                            pat@.len() + first_slash(seg.skip(pat@.len() as int)) as int,
                        ) =~= s@.subrange(i + pat@.len(), j as int));
                    }
                }
                // the version segment: s[i + pat.len() .. j]
                let mut ver: Vec<char> = Vec::new();
                let mut k: usize = i + pat.len();
                while k < j
                    invariant
                        i + pat@.len() <= k <= j,
                        j <= s@.len(),
                        ver@ =~= s@.subrange(i + pat@.len(), k as int),
                    decreases j - k,
                {
                    ver.push(s[k]);
                    k = k + 1;
                    proof {
                        assert(ver@ =~= s@.subrange(i + pat@.len(), k as int));
                    }
                }
                let same = chars_eq(&ver, &vv);
                if same {
                    // The first candidate segment is current: the path is kept.
                    let mut rest: Vec<char> = Vec::new();
                    let mut k2: usize = i;
                    while k2 < s.len()
                        invariant
                            i <= k2 <= s.len(),
                            rest@ =~= s@.subrange(i as int, k2 as int),
                        decreases s.len() - k2,
                    {
                        rest.push(s[k2]);
                        k2 = k2 + 1;
                        proof {
                            assert(rest@ =~= s@.subrange(i as int, k2 as int));
                        }
                    }
                    out.append(&mut rest);
                    proof {
                        assert(spec_fix_version(seg, name@, version@) == seg);
                        assert(seg =~= s@.subrange(i as int, s@.len() as int));
                        assert(whole =~= out@);
                    }
                    return out;
                } else {
                    // Rewrite `/<name>/<segment>/` as `/<name>/<version>/`.
                    let mut patched: Vec<char> = Vec::new();
                    let mut pc = pat.clone();
                    proof {
                        assert(pc@ == pat@);
                    }
                    out.append(&mut pc);
                    let mut vc = str_to_chars(version);
                    out.append(&mut vc);
                    out.push('/');
                    let mut k3: usize = j + 1;
                    while k3 < s.len()
                        invariant
                            j + 1 <= k3 <= s.len(),
                            patched@ =~= s@.subrange(j + 1, k3 as int),
                        decreases s.len() - k3,
                    {
                        patched.push(s[k3]);
                        k3 = k3 + 1;
                        proof {
                            assert(patched@ =~= s@.subrange(j + 1, k3 as int));
                        }
                    }
                    out.append(&mut patched);
                    proof {
                        assert(seg.skip(pat@.len() + first_slash(seg.skip(pat@.len() as int)) as int
                            + 1) =~= s@.skip(j + 1));
                        assert(spec_fix_version(seg, name@, version@) =~= seg_pat(name@) + version@
                            + seq!['/'] + s@.skip(j + 1));
                        assert(whole =~= out@);
                    }
                    return out;
                }
            },
            None => {
                proof {
                    assert(!ver_match_at(seg, name@, 0)) by {
                        if ver_match_at(seg, name@, 0) {
                            assert(seg.subrange(0, pat@.len() as int) =~= s@.subrange(
                                i as int,
                                i + pat@.len(),
                            ));
                            assert(s@.subrange(i as int, i + pat@.len()) == seg_pat(name@));
                            assert(seg.skip(pat@.len() as int) =~= s@.skip(i + pat@.len()));
                            assert(ver_match_at(s@, name@, i as int));
                        }
                    }
                    assert(seg[0] == s@[i as int]);
                    assert(seg.skip(1) =~= s@.skip(i as int + 1));
                }
                out.push(s[i]);
                i = i + 1;
                proof {
                    assert(whole =~= out@ + spec_fix_version(s@.skip(i as int), name@, version@));
                }
            },
        }
    }
    proof {
        assert(s@.skip(s@.len() as int).len() == 0);
        assert(whole =~= out@);
    }
    out
}

/// The otool-driven load-command decision: a dependency path has its
/// placeholder tokens expanded and a stale version of this package's own
/// segment corrected. `Some` is the path to patch in; `None` means the
/// path is already right.
pub open spec fn spec_patch_path(
    old: Seq<char>,
    cellar: Seq<char>,
    prefix: Seq<char>,
    name: Seq<char>,
    version: Seq<char>,
) -> Seq<char> {
    spec_fix_version(
        spec_replace_all(spec_replace_all(old, cellar_token(), cellar), prefix_token(), prefix),
        name,
        version,
    )
}

pub fn patch_path(old_path: &str, cellar: &str, prefix: &str, name: &str, version: &str) -> (r:
    Option<String>)
    requires
        name@.len() > 0,
    ensures
        match r {
            Some(out) => out@ == spec_patch_path(old_path@, cellar@, prefix@, name@, version@)
                && out@ != old_path@,
            None => spec_patch_path(old_path@, cellar@, prefix@, name@, version@) == old_path@,
        },
{
    proof {
        reveal_strlit("@@HOMEBREW_CELLAR@@");
        reveal_strlit("@@HOMEBREW_PREFIX@@");
    }
    let chars = str_to_chars(old_path);
    let s1 = replace_all(&chars, &str_to_chars("@@HOMEBREW_CELLAR@@"), &str_to_chars(cellar));
    let s2 = replace_all(&s1, &str_to_chars("@@HOMEBREW_PREFIX@@"), &str_to_chars(prefix));
    let s3 = fix_version_in_path(&s2, name, version);
    if chars_eq(&s3, &chars) {
        None
    } else {
        Some(chars_to_string(&s3))
    }
}

} // verus!

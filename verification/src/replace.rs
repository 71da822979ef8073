//! Substitution of a pattern throughout a character sequence, with the
//! facts relocation rests on: replacing every occurrence leaves none
//! behind when the replacement shares no character with the pattern, and
//! substitution is the identity on text free of the pattern.

use vstd::prelude::*;
use vstd::seq_lib::*;

verus! {

/// `pat` occurs in `s` at position `i`.
pub open spec fn occurs_at(s: Seq<char>, pat: Seq<char>, i: int) -> bool {
    0 <= i && i + pat.len() <= s.len() && s.subrange(i, i + pat.len()) == pat
}

/// `pat` occurs somewhere in `s`.
pub open spec fn occurs(s: Seq<char>, pat: Seq<char>) -> bool {
    exists|i: int| occurs_at(s, pat, i)
}

/// No character of `a` appears in `b`.
pub open spec fn chars_disjoint(a: Seq<char>, b: Seq<char>) -> bool {
    forall|i: int, j: int| 0 <= i < a.len() && 0 <= j < b.len() ==> a[i] != b[j]
}

/// `s` with every occurrence of `pat` replaced by `rep`, scanning left to
/// right; an occurrence that starts inside an earlier match is not seen.
pub open spec fn spec_replace_all(s: Seq<char>, pat: Seq<char>, rep: Seq<char>) -> Seq<char>
    decreases s.len(),
    when pat.len() > 0
{
    if s.len() == 0 {
        s
    } else if occurs_at(s, pat, 0) {
        rep + spec_replace_all(s.skip(pat.len() as int), pat, rep)
    } else {
        seq![s[0]] + spec_replace_all(s.skip(1), pat, rep)
    }
}

/// Occurrences in a suffix are occurrences in the whole, shifted.
pub proof fn lemma_occurs_shift(s: Seq<char>, pat: Seq<char>, k: int)
    requires
        0 <= k <= s.len(),
    ensures
        forall|i: int|
            occurs_at(s.skip(k), pat, i) <==> (0 <= i && occurs_at(s, pat, i + k)),
{
    assert forall|i: int|
        occurs_at(s.skip(k), pat, i) <==> (0 <= i && occurs_at(s, pat, i + k)) by {
        if 0 <= i && i + pat.len() <= s.len() - k {
            assert(s.skip(k).subrange(i, i + pat.len() as int) =~= s.subrange(
                i + k,
                i + k + pat.len() as int,
            ));
        }
    }
}

/// Substitution is the identity on text free of the pattern.
pub proof fn lemma_replace_identity(s: Seq<char>, pat: Seq<char>, rep: Seq<char>)
    requires
        pat.len() > 0,
        !occurs(s, pat),
    ensures
        spec_replace_all(s, pat, rep) == s,
    decreases s.len(),
{
    if s.len() > 0 {
        assert(!occurs_at(s, pat, 0));
        lemma_occurs_shift(s, pat, 1);
        assert(!occurs(s.skip(1), pat));
        lemma_replace_identity(s.skip(1), pat, rep);
        assert(seq![s[0]] + s.skip(1) =~= s);
    }
}

/// A non-empty sequence whose characters avoid `rep` and which prefixes
/// the substituted text already prefixed the original text.
proof fn lemma_prefix_descends(t: Seq<char>, pat: Seq<char>, rep: Seq<char>, q: Seq<char>)
    requires
        pat.len() > 0,
        rep.len() > 0,
        q.len() > 0,
        chars_disjoint(rep, q),
        q.is_prefix_of(spec_replace_all(t, pat, rep)),
    ensures
        q.is_prefix_of(t),
    decreases t.len(),
{
    let out = spec_replace_all(t, pat, rep);
    if t.len() == 0 {
        assert(out.len() == 0);
    } else if occurs_at(t, pat, 0) {
        assert(out == rep + spec_replace_all(t.skip(pat.len() as int), pat, rep));
        assert(q[0] == out[0] && out[0] == rep[0]);
    } else {
        let tail = spec_replace_all(t.skip(1), pat, rep);
        assert(out == seq![t[0]] + tail);
        assert(q[0] == out[0] && out[0] == t[0]);
        if q.len() == 1 {
            assert(q =~= t.subrange(0, 1));
        } else {
            let q1 = q.skip(1);
            assert(q1.is_prefix_of(tail)) by {
                assert(q1 =~= out.subrange(1, q.len() as int).subrange(0, q.len() - 1));
                assert(out.subrange(1, q.len() as int) =~= tail.subrange(0, q.len() - 1));
                assert(q1 =~= tail.subrange(0, q.len() - 1));
            }
            assert(chars_disjoint(rep, q1)) by {
                assert forall|i: int, j: int|
                    0 <= i < rep.len() && 0 <= j < q1.len() implies rep[i] != q1[j] by {
                    assert(q1[j] == q[j + 1]);
                }
            }
            lemma_prefix_descends(t.skip(1), pat, rep, q1);
            assert(q.is_prefix_of(t)) by {
                assert(q1 =~= t.skip(1).subrange(0, q.len() - 1));
                assert(t.subrange(0, q.len() as int) =~= seq![t[0]] + t.skip(1).subrange(
                    0,
                    q.len() - 1,
                ));
                assert(q =~= seq![q[0]] + q1);
            }
        }
    }
}

/// After substitution no occurrence of `p` remains, provided `rep` shares
/// no character with `p` and every occurrence of `p` in the original was
/// an occurrence of the pattern (so either `p` is the pattern itself, or
/// the original was already free of `p`).
pub proof fn lemma_replace_all_free(s: Seq<char>, pat: Seq<char>, rep: Seq<char>, p: Seq<char>)
    requires
        pat.len() > 0,
        rep.len() > 0,
        p.len() > 0,
        chars_disjoint(rep, p),
        forall|i: int| occurs_at(s, p, i) ==> occurs_at(s, pat, i),
    ensures
        !occurs(spec_replace_all(s, pat, rep), p),
    decreases s.len(),
{
    let out = spec_replace_all(s, pat, rep);
    if s.len() == 0 {
        assert(out.len() == 0);
        assert forall|q: int| !occurs_at(out, p, q) by {}
    } else if occurs_at(s, pat, 0) {
        let rest = s.skip(pat.len() as int);
        let tail = spec_replace_all(rest, pat, rep);
        assert(out == rep + tail);
        lemma_occurs_shift(s, p, pat.len() as int);
        lemma_occurs_shift(s, pat, pat.len() as int);
        lemma_replace_all_free(rest, pat, rep, p);
        assert forall|q: int| !occurs_at(out, p, q) by {
            if 0 <= q && q + p.len() <= out.len() {
                if q < rep.len() {
                    if occurs_at(out, p, q) {
                        assert(out.subrange(q, q + p.len() as int)[0] == out[q]);
                        assert(out[q] == rep[q]);
                        assert(rep[q] != p[0]);
                    }
                } else {
                    if occurs_at(out, p, q) {
                        assert(out.subrange(q, q + p.len() as int) =~= tail.subrange(
                            q - rep.len(),
                            q - rep.len() + p.len(),
                        ));
                        assert(occurs_at(tail, p, q - rep.len()));
                    }
                }
            }
        }
    } else {
        let tail = spec_replace_all(s.skip(1), pat, rep);
        assert(out == seq![s[0]] + tail);
        lemma_occurs_shift(s, p, 1);
        lemma_occurs_shift(s, pat, 1);
        lemma_replace_all_free(s.skip(1), pat, rep, p);
        assert forall|q: int| !occurs_at(out, p, q) by {
            if 0 <= q && q + p.len() <= out.len() {
                if q >= 1 {
                    if occurs_at(out, p, q) {
                        assert(out.subrange(q, q + p.len() as int) =~= tail.subrange(
                            q - 1,
                            q - 1 + p.len(),
                        ));
                        assert(occurs_at(tail, p, q - 1));
                    }
                } else {
                    if occurs_at(out, p, 0) {
                        assert(p[0] == out[0] && out[0] == s[0]);
                        if p.len() == 1 {
                            assert(s.subrange(0, 1) =~= p);
                            assert(occurs_at(s, p, 0));
                            assert(occurs_at(s, pat, 0));
                        } else {
                            let p1 = p.skip(1);
                            assert(p1.is_prefix_of(tail)) by {
                                assert(out.subrange(0, p.len() as int) == p);
                                assert(p1 =~= out.subrange(1, p.len() as int));
                                assert(out.subrange(1, p.len() as int) =~= tail.subrange(
                                    0,
                                    p.len() - 1,
                                ));
                            }
                            assert(chars_disjoint(rep, p1)) by {
                                assert forall|i: int, j: int|
                                    0 <= i < rep.len() && 0 <= j < p1.len() implies rep[i]
                                    != p1[j] by {
                                    assert(p1[j] == p[j + 1]);
                                }
                            }
                            lemma_prefix_descends(s.skip(1), pat, rep, p1);
                            assert(occurs_at(s, p, 0)) by {
                                assert(p1 =~= s.skip(1).subrange(0, p.len() - 1));
                                assert(s.subrange(0, p.len() as int) =~= seq![s[0]] + s.skip(
                                    1,
                                ).subrange(0, p.len() - 1));
                                assert(p =~= seq![p[0]] + p1);
                            }
                            assert(occurs_at(s, pat, 0));
                        }
                    }
                }
            }
        }
    }
}

// ---------------------------------------------------------------------------
// Executable substitution
// ---------------------------------------------------------------------------

/// Decide whether `pat` occurs in `s` at `i`.
pub fn matches_at(s: &Vec<char>, pat: &Vec<char>, i: usize) -> (r: bool)
    requires
        i <= s@.len(),
    ensures
        r == occurs_at(s@, pat@, i as int),
{
    if pat.len() > s.len() - i {
        assert(!occurs_at(s@, pat@, i as int));
        return false;
    }
    let mut k: usize = 0;
    while k < pat.len()
        invariant
            i + pat.len() <= s.len(),
            k <= pat.len(),
            forall|j: int| 0 <= j < k ==> s@[i + j] == pat@[j],
        decreases pat.len() - k,
    {
        if s[i + k] != pat[k] {
            proof {
                if occurs_at(s@, pat@, i as int) {
                    assert(s@.subrange(i as int, i + pat@.len() as int)[k as int] == s@[i + k]);
                }
            }
            return false;
        }
        k = k + 1;
    }
    proof {
        assert(s@.subrange(i as int, i + pat@.len() as int) =~= pat@);
    }
    true
}

/// Decide whether `pat` occurs anywhere in `s`.
pub fn contains_seq(s: &Vec<char>, pat: &Vec<char>) -> (r: bool)
    requires
        pat@.len() > 0,
    ensures
        r == occurs(s@, pat@),
{
    let mut i: usize = 0;
    while i < s.len()
        invariant
            i <= s@.len(),
            forall|j: int| 0 <= j < i ==> !occurs_at(s@, pat@, j),
        decreases s.len() - i,
    {
        if matches_at(s, pat, i) {
            return true;
        }
        i = i + 1;
    }
    proof {
        if occurs(s@, pat@) {
            let w = choose|w: int| occurs_at(s@, pat@, w);
            assert(w < s@.len() || !occurs_at(s@, pat@, w));
        }
    }
    false
}

/// Replace every occurrence of `pat` in `s` by `rep`, left to right.
pub fn replace_all(s: &Vec<char>, pat: &Vec<char>, rep: &Vec<char>) -> (r: Vec<char>)
    requires
        pat@.len() > 0,
    ensures
        r@ == spec_replace_all(s@, pat@, rep@),
{
    let ghost whole = spec_replace_all(s@, pat@, rep@);
    let mut out: Vec<char> = Vec::new();
    let mut i: usize = 0;
    proof {
        assert(s@.skip(0) =~= s@);
    }
    while i < s.len()
        invariant
            pat@.len() > 0,
            i <= s@.len(),
            whole == spec_replace_all(s@, pat@, rep@),
            whole == out@ + spec_replace_all(s@.skip(i as int), pat@, rep@),
        decreases s.len() - i,
    {
        let ghost seg = s@.skip(i as int);
        proof {
            lemma_occurs_shift(s@, pat@, i as int);
        }
        if matches_at(s, pat, i) {
            proof {
                assert(occurs_at(seg, pat@, 0));
                assert(seg.skip(pat@.len() as int) =~= s@.skip(i + pat@.len()));
            }
            let ghost prev = out@;
            let mut k: usize = 0;
            while k < rep.len()
                invariant
                    k <= rep@.len(),
                    out@ =~= prev + rep@.take(k as int),
                decreases rep.len() - k,
            {
                out.push(rep[k]);
                k = k + 1;
                proof {
                    assert(out@ =~= prev + rep@.take(k as int));
                }
            }
            proof {
                assert(out@ =~= prev + rep@);
            }
            i = i + pat.len();
            proof {
                assert(whole =~= out@ + spec_replace_all(s@.skip(i as int), pat@, rep@));
            }
        } else {
            proof {
                assert(!occurs_at(seg, pat@, 0));
                assert(seg[0] == s@[i as int]);
                assert(seg.skip(1) =~= s@.skip(i as int + 1));
            }
            out.push(s[i]);
            i = i + 1;
            proof {
                assert(whole =~= out@ + spec_replace_all(s@.skip(i as int), pat@, rep@));
            }
        }
    }
    proof {
        assert(s@.skip(s@.len() as int).len() == 0);
        assert(whole =~= out@);
    }
    out
}

/// The characters of `s`, as a vector.
pub fn str_to_chars(s: &str) -> (r: Vec<char>)
    ensures
        r@ == s@,
{
    let n = s.unicode_len();
    let mut out: Vec<char> = Vec::new();
    let mut i: usize = 0;
    while i < n
        invariant
            n == s@.len(),
            i <= n,
            out@ =~= s@.take(i as int),
        decreases n - i,
    {
        out.push(s.get_char(i));
        i = i + 1;
        proof {
            assert(out@ =~= s@.take(i as int));
        }
    }
    proof {
        assert(s@.take(s@.len() as int) =~= s@);
    }
    out
}

/// Relies on String::push: appends exactly one character.
#[verifier::external_body]
fn push_char(s: &mut String, c: char)
    ensures
        final(s)@ == old(s)@.push(c),
{
    s.push(c);
}

/// The string of exactly these characters.
pub fn chars_to_string(v: &Vec<char>) -> (r: String)
    ensures
        r@ == v@,
{
    let mut out = String::new();
    let mut i: usize = 0;
    while i < v.len()
        invariant
            i <= v@.len(),
            out@ =~= v@.take(i as int),
        decreases v.len() - i,
    {
        push_char(&mut out, v[i]);
        i = i + 1;
        proof {
            assert(out@ =~= v@.take(i as int));
        }
    }
    proof {
        assert(v@.take(v@.len() as int) =~= v@);
    }
    out
}

} // verus!

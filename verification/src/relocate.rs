//! The text relocation pass: bottles embed `@@HOMEBREW_…@@` placeholder
//! tokens and hard-coded Homebrew prefixes, and every text file of a keg
//! has them rewritten to the chosen prefix.
//!
//! Reading and writing the files, and the permission dance around a
//! read-only file, happen outside the library; these functions map old
//! contents to new contents.

use vstd::prelude::*;
use crate::replace::{
    spec_replace_all, replace_all, occurs, chars_disjoint, contains_seq, str_to_chars,
    chars_to_string, lemma_replace_all_free, lemma_replace_identity,
};
use crate::text::str_eq;

verus! {

pub open spec fn prefix_token() -> Seq<char> {
    "@@HOMEBREW_PREFIX@@"@
}

pub open spec fn cellar_token() -> Seq<char> {
    "@@HOMEBREW_CELLAR@@"@
}

pub open spec fn repository_token() -> Seq<char> {
    "@@HOMEBREW_REPOSITORY@@"@
}

pub open spec fn library_token() -> Seq<char> {
    "@@HOMEBREW_LIBRARY@@"@
}

pub open spec fn perl_token() -> Seq<char> {
    "@@HOMEBREW_PERL@@"@
}

pub open spec fn java_token() -> Seq<char> {
    "@@HOMEBREW_JAVA@@"@
}

/// The canonical Homebrew install prefixes that bottles hard-code.
pub open spec fn canonical_prefixes() -> Seq<Seq<char>> {
    seq![
        "/opt/homebrew"@,
        "/usr/local/Homebrew"@,
        "/usr/local"@,
        "/home/linuxbrew/.linuxbrew"@,
    ]
}

/// The two-token substitution: placeholder prefix and cellar.
pub open spec fn spec_patch_text(s: Seq<char>, prefix: Seq<char>, cellar: Seq<char>) -> Seq<char> {
    spec_replace_all(spec_replace_all(s, prefix_token(), prefix), cellar_token(), cellar)
}

/// Rewrite the placeholder tokens of one text file: the prefix token
/// becomes the chosen prefix and the cellar token the chosen cellar.
/// `None` means the file holds neither token and nothing need be written;
/// the substitution would have left it unchanged.
pub fn patch_text_content(content: &str, prefix: &str, cellar: &str) -> (r: Option<String>)
    ensures
        match r {
            Some(out) => (occurs(content@, prefix_token()) || occurs(content@, cellar_token()))
                && out@ == spec_patch_text(content@, prefix@, cellar@),
            None => !occurs(content@, prefix_token()) && !occurs(content@, cellar_token())
                && spec_patch_text(content@, prefix@, cellar@) == content@,
        },
{
    proof {
        reveal_strlit("@@HOMEBREW_PREFIX@@");
        reveal_strlit("@@HOMEBREW_CELLAR@@");
    }
    let chars = str_to_chars(content);
    let tp = str_to_chars("@@HOMEBREW_PREFIX@@");
    let tc = str_to_chars("@@HOMEBREW_CELLAR@@");
    let has_prefix = contains_seq(&chars, &tp);
    let has_cellar = contains_seq(&chars, &tc);
    if !has_prefix && !has_cellar {
        proof {
            lemma_replace_identity(content@, prefix_token(), prefix@);
            lemma_replace_identity(content@, cellar_token(), cellar@);
        }
        None
    } else {
        let pv = str_to_chars(prefix);
        let cv = str_to_chars(cellar);
        let r1 = replace_all(&chars, &tp, &pv);
        let r2 = replace_all(&r1, &tc, &cv);
        Some(chars_to_string(&r2))
    }
}

/// Law: the text pass is idempotent. Once the tokens are rewritten to
/// values that share no character with a token — as every path of plain
/// lower-case characters does — a second pass finds no token and leaves
/// every byte as it was.
pub proof fn lemma_text_pass_idempotent(s: Seq<char>, prefix: Seq<char>, cellar: Seq<char>)
    requires
        prefix.len() > 0,
        cellar.len() > 0,
        chars_disjoint(prefix, prefix_token()),
        chars_disjoint(prefix, cellar_token()),
        chars_disjoint(cellar, prefix_token()),
        chars_disjoint(cellar, cellar_token()),
    ensures
        spec_patch_text(spec_patch_text(s, prefix, cellar), prefix, cellar) == spec_patch_text(
            s,
            prefix,
            cellar,
        ),
{
    reveal_strlit("@@HOMEBREW_PREFIX@@");
    reveal_strlit("@@HOMEBREW_CELLAR@@");
    let p = prefix_token();
    let c = cellar_token();
    let r1 = spec_replace_all(s, p, prefix);
    let r2 = spec_replace_all(r1, c, cellar);
    lemma_replace_all_free(s, p, prefix, p);
    lemma_replace_all_free(r1, c, cellar, c);
    lemma_replace_all_free(r1, c, cellar, p);
    lemma_replace_identity(r2, p, prefix);
    lemma_replace_identity(r2, c, cellar);
}

// ---------------------------------------------------------------------------
// The full token table, with the hard-coded prefixes
// ---------------------------------------------------------------------------

/// Every placeholder token rewritten: prefix, cellar, repository (the
/// prefix again), library (`<prefix>/Library`), and the fixed perl and
/// java interpreters.
pub open spec fn spec_patch_tokens_full(s: Seq<char>, prefix: Seq<char>, cellar: Seq<char>) -> Seq<
    char,
> {
    let s1 = spec_replace_all(s, prefix_token(), prefix);
    let s2 = spec_replace_all(s1, cellar_token(), cellar);
    let s3 = spec_replace_all(s2, repository_token(), prefix);
    let s4 = spec_replace_all(s3, library_token(), prefix + "/Library"@);
    let s5 = spec_replace_all(s4, perl_token(), "/usr/bin/perl"@);
    spec_replace_all(s5, java_token(), "/usr/bin/java"@)
}

/// One hard-coded prefix rewritten, unless it is the chosen prefix
/// itself.
pub open spec fn spec_patch_one_prefix(s: Seq<char>, old: Seq<char>, prefix: Seq<char>) -> Seq<
    char,
> {
    if old == prefix {
        s
    } else {
        spec_replace_all(s, old, prefix)
    }
}

/// Every canonical Homebrew prefix rewritten to the chosen prefix, in
/// their fixed order.
pub open spec fn spec_patch_hardcoded(s: Seq<char>, prefix: Seq<char>) -> Seq<char> {
    let s1 = spec_patch_one_prefix(s, canonical_prefixes()[0], prefix);
    let s2 = spec_patch_one_prefix(s1, canonical_prefixes()[1], prefix);
    let s3 = spec_patch_one_prefix(s2, canonical_prefixes()[2], prefix);
    spec_patch_one_prefix(s3, canonical_prefixes()[3], prefix)
}

/// The whole substitution of the full text pass.
pub open spec fn spec_patch_text_full(s: Seq<char>, prefix: Seq<char>, cellar: Seq<char>) -> Seq<
    char,
> {
    spec_patch_hardcoded(spec_patch_tokens_full(s, prefix, cellar), prefix)
}

/// Rewrite every placeholder token of one text file — prefix, cellar,
/// repository, library, perl and java — without touching hard-coded
/// prefixes: the substitution of the text pass as it runs on every
/// platform. `None` means it leaves the contents unchanged and nothing
/// need be written.
pub fn patch_text_tokens(content: &str, prefix: &str, cellar: &str) -> (r: Option<String>)
    ensures
        match r {
            Some(out) => out@ == spec_patch_tokens_full(content@, prefix@, cellar@) && out@
                != content@,
            None => spec_patch_tokens_full(content@, prefix@, cellar@) == content@,
        },
{
    proof {
        reveal_strlit("@@HOMEBREW_PREFIX@@");
        reveal_strlit("@@HOMEBREW_CELLAR@@");
        reveal_strlit("@@HOMEBREW_REPOSITORY@@");
        reveal_strlit("@@HOMEBREW_LIBRARY@@");
        reveal_strlit("@@HOMEBREW_PERL@@");
        reveal_strlit("@@HOMEBREW_JAVA@@");
        reveal_strlit("/Library");
        reveal_strlit("/usr/bin/perl");
        reveal_strlit("/usr/bin/java");
    }
    let chars = str_to_chars(content);
    let s6 = run_token_table(&chars, prefix, cellar);
    if chars_eq(&s6, &chars) {
        None
    } else {
        Some(chars_to_string(&s6))
    }
}

/// The six-token substitution table, applied in order.
fn run_token_table(chars: &Vec<char>, prefix: &str, cellar: &str) -> (r: Vec<char>)
    ensures
        r@ == spec_patch_tokens_full(chars@, prefix@, cellar@),
{
    proof {
        reveal_strlit("@@HOMEBREW_PREFIX@@");
        reveal_strlit("@@HOMEBREW_CELLAR@@");
        reveal_strlit("@@HOMEBREW_REPOSITORY@@");
        reveal_strlit("@@HOMEBREW_LIBRARY@@");
        reveal_strlit("@@HOMEBREW_PERL@@");
        reveal_strlit("@@HOMEBREW_JAVA@@");
        reveal_strlit("/Library");
        reveal_strlit("/usr/bin/perl");
        reveal_strlit("/usr/bin/java");
    }
    let pv = str_to_chars(prefix);
    let cv = str_to_chars(cellar);
    let mut library = prefix.to_owned();
    library.append("/Library");
    let lv = str_to_chars(library.as_str());
    let s1 = replace_all(chars, &str_to_chars("@@HOMEBREW_PREFIX@@"), &pv);
    let s2 = replace_all(&s1, &str_to_chars("@@HOMEBREW_CELLAR@@"), &cv);
    let s3 = replace_all(&s2, &str_to_chars("@@HOMEBREW_REPOSITORY@@"), &pv);
    let s4 = replace_all(&s3, &str_to_chars("@@HOMEBREW_LIBRARY@@"), &lv);
    let s5 = replace_all(&s4, &str_to_chars("@@HOMEBREW_PERL@@"), &str_to_chars("/usr/bin/perl"));
    replace_all(&s5, &str_to_chars("@@HOMEBREW_JAVA@@"), &str_to_chars("/usr/bin/java"))
}

/// Decide `a@ == b@` on character vectors.
pub fn chars_eq(a: &Vec<char>, b: &Vec<char>) -> (r: bool)
    ensures
        r == (a@ == b@),
{
    if a.len() != b.len() {
        return false;
    }
    let mut i: usize = 0;
    while i < a.len()
        invariant
            a@.len() == b@.len(),
            i <= a@.len(),
            forall|j: int| 0 <= j < i ==> a@[j] == b@[j],
        decreases a.len() - i,
    {
        if a[i] != b[i] {
            proof {
                if a@ == b@ {
                    assert(a@[i as int] == b@[i as int]);
                }
            }
            return false;
        }
        i = i + 1;
    }
    proof {
        assert(a@ =~= b@);
    }
    true
}

/// Apply one hard-coded prefix rewrite.
fn patch_one_prefix(s: &Vec<char>, old: &str, prefix: &str) -> (r: Vec<char>)
    requires
        old@.len() > 0,
    ensures
        r@ == spec_patch_one_prefix(s@, old@, prefix@),
{
    if str_eq(old, prefix) {
        let mut out: Vec<char> = Vec::new();
        let mut i: usize = 0;
        while i < s.len()
            invariant
                i <= s@.len(),
                out@ =~= s@.take(i as int),
            decreases s.len() - i,
        {
            out.push(s[i]);
            i = i + 1;
            proof {
                assert(out@ =~= s@.take(i as int));
            }
        }
        proof {
            assert(s@.take(s@.len() as int) =~= s@);
        }
        out
    } else {
        let ov = str_to_chars(old);
        let pv = str_to_chars(prefix);
        replace_all(s, &ov, &pv)
    }
}

/// Rewrite every placeholder token and every hard-coded Homebrew prefix
/// in one text file. `None` means the substitution leaves the contents
/// unchanged and nothing need be written.
pub fn patch_text_content_full(content: &str, prefix: &str, cellar: &str) -> (r: Option<String>)
    ensures
        match r {
            Some(out) => out@ == spec_patch_text_full(content@, prefix@, cellar@) && out@
                != content@,
            None => spec_patch_text_full(content@, prefix@, cellar@) == content@,
        },
{
    proof {
        reveal_strlit("@@HOMEBREW_PREFIX@@");
        reveal_strlit("@@HOMEBREW_CELLAR@@");
        reveal_strlit("@@HOMEBREW_REPOSITORY@@");
        reveal_strlit("@@HOMEBREW_LIBRARY@@");
        reveal_strlit("@@HOMEBREW_PERL@@");
        reveal_strlit("@@HOMEBREW_JAVA@@");
        reveal_strlit("/opt/homebrew");
        reveal_strlit("/usr/local/Homebrew");
        reveal_strlit("/usr/local");
        reveal_strlit("/home/linuxbrew/.linuxbrew");
        reveal_strlit("/Library");
        reveal_strlit("/usr/bin/perl");
        reveal_strlit("/usr/bin/java");
    }
    let chars = str_to_chars(content);
    let s6 = run_token_table(&chars, prefix, cellar);
    let h1 = patch_one_prefix(&s6, "/opt/homebrew", prefix);
    let h2 = patch_one_prefix(&h1, "/usr/local/Homebrew", prefix);
    let h3 = patch_one_prefix(&h2, "/usr/local", prefix);
    let h4 = patch_one_prefix(&h3, "/home/linuxbrew/.linuxbrew", prefix);
    if chars_eq(&h4, &chars) {
        None
    } else {
        Some(chars_to_string(&h4))
    }
}

} // verus!

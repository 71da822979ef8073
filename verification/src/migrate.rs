//! Migration from an existing Homebrew installation: classifying what
//! `brew` reports as installed.
//!
//! Running `brew` and decoding its JSON happen outside the library; the
//! functions here take the reported fields as plain values.

use vstd::prelude::*;
use vstd::seq_lib::*;
use crate::text::str_eq;
use crate::replace::{str_to_chars, chars_to_string};

verus! {

/// One package reported by Homebrew.
#[derive(Debug, Clone)]
pub struct HomebrewPackage {
    pub name: String,
    pub tap: String,
    pub is_cask: bool,
}

#[verifier::ext_equal]
pub ghost struct PackageModel {
    pub name: Seq<char>,
    pub tap: Seq<char>,
    pub is_cask: bool,
}

impl View for HomebrewPackage {
    type V = PackageModel;

    open spec fn view(&self) -> PackageModel {
        PackageModel { name: self.name@, tap: self.tap@, is_cask: self.is_cask }
    }
}

pub open spec fn vpkgs(s: Seq<HomebrewPackage>) -> Seq<PackageModel> {
    s.map_values(|p: HomebrewPackage| p@)
}

/// What can move over: only command-line formulas from the core tap.
pub struct HomebrewMigrationPackages {
    /// Formulas from homebrew/core, which can be migrated.
    pub formulas: Vec<HomebrewPackage>,
    /// Formulas from other taps, which cannot.
    pub non_core_formulas: Vec<HomebrewPackage>,
    /// Casks, which cannot.
    pub casks: Vec<HomebrewPackage>,
}

pub open spec fn is_core_formula(p: PackageModel) -> bool {
    !p.is_cask && p.tap == "homebrew/core"@
}

pub open spec fn is_non_core_formula(p: PackageModel) -> bool {
    !p.is_cask && p.tap != "homebrew/core"@
}

pub open spec fn is_cask(p: PackageModel) -> bool {
    p.is_cask
}

impl HomebrewPackage {
    /// A fresh record with the same contents.
    pub fn duplicate(&self) -> (r: HomebrewPackage)
        ensures
            r@ == self@,
    {
        HomebrewPackage { name: self.name.clone(), tap: self.tap.clone(), is_cask: self.is_cask }
    }
}

/// One formula entry as `brew info --json=v1 --installed` reports it: its
/// `name` string, and its `tap` string if the entry carries one.
/// An entry without a name is skipped; a missing tap means the core tap.
pub fn formula_from_fields(name: Option<String>, tap: Option<String>) -> (r: Option<
    HomebrewPackage,
>)
    ensures
        match name {
            Some(n) => r matches Some(p) && p@ == (PackageModel {
                name: n@,
                tap: match tap {
                    Some(t) => t@,
                    None => "homebrew/core"@,
                },
                is_cask: false,
            }),
            None => r is None,
        },
{
    match name {
        Some(n) => {
            let t = match tap {
                Some(t) => t,
                None => "homebrew/core".to_owned(),
            };
            Some(HomebrewPackage { name: n, tap: t, is_cask: false })
        },
        None => None,
    }
}

// ---------------------------------------------------------------------------
// Cask listing: one cask per non-empty line
// ---------------------------------------------------------------------------

/// Index of the first line feed, or the length if there is none.
/// Stays within the length by construction.
pub open spec fn line_break(s: Seq<char>) -> nat
    decreases s.len(),
{
    if s.len() == 0 {
        0
    } else if s[0] == '\n' {
        0
    } else {
        1 + line_break(s.skip(1))
    }
}

pub proof fn lemma_line_break_le(s: Seq<char>)
    ensures
        line_break(s) <= s.len(),
    decreases s.len(),
{
    if s.len() > 0 && s[0] != '\n' {
        lemma_line_break_le(s.skip(1));
    }
}

/// A single trailing carriage return is not part of the line.
pub open spec fn strip_cr(l: Seq<char>) -> Seq<char> {
    if l.len() > 0 && l.last() == '\r' {
        l.drop_last()
    } else {
        l
    }
}

/// The lines of `s`: split at each line feed, with a carriage return
/// directly before a line feed not part of its line, and no empty final
/// line when the text ends with a line feed. A final line without a
/// terminator keeps a trailing carriage return. This is how `str::lines`
/// cuts text.
pub open spec fn spec_lines(s: Seq<char>) -> Seq<Seq<char>>
    decreases s.len(),
    via spec_lines_decreases
{
    if s.len() == 0 {
        Seq::empty()
    } else {
        let i = line_break(s) as int;
        if i == s.len() {
            seq![s.take(i)]
        } else {
            seq![strip_cr(s.take(i))] + spec_lines(s.skip(i + 1))
        }
    }
}

#[via_fn]
proof fn spec_lines_decreases(s: Seq<char>) {
    lemma_line_break_le(s);
}

/// Find the line feed that ends the line starting at `from`, or the end.
fn find_newline_from(s: &Vec<char>, from: usize) -> (r: usize)
    requires
        from <= s@.len(),
    ensures
        r - from == line_break(s@.skip(from as int)),
        r <= s@.len(),
{
    let ghost t0 = s@.skip(from as int);
    let mut i: usize = from;
    proof {
        assert(t0.skip(0) =~= t0);
    }
    while i < s.len() && s[i] != '\n'
        invariant
            from <= i <= s.len(),
            t0 == s@.skip(from as int),
            line_break(t0) == i - from + line_break(t0.skip(i - from)),
        decreases s.len() - i,
    {
        proof {
            assert(t0.skip(i - from)[0] == s@[i as int]);
            assert(t0.skip(i - from).skip(1) =~= t0.skip(i + 1 - from));
        }
        i = i + 1;
    }
    proof {
        if i < s.len() {
            assert(t0.skip(i - from)[0] == s@[i as int]);
        } else {
            assert(t0.skip(i - from).len() == 0);
        }
    }
    i
}

/// Split text into its lines, exactly as `spec_lines` cuts it.
pub fn split_lines(s: &str) -> (r: Vec<String>)
    ensures
        vstrs_m(r@) == spec_lines(s@),
{
    let ghost whole = spec_lines(s@);
    let chars = str_to_chars(s);
    let mut out: Vec<String> = Vec::new();
    let mut pos: usize = 0;
    proof {
        assert(s@.skip(0) =~= s@);
    }
    while pos < chars.len()
        invariant
            chars@ == s@,
            pos <= s@.len(),
            whole == spec_lines(s@),
            whole == vstrs_m(out@) + spec_lines(s@.skip(pos as int)),
        decreases chars.len() - pos,
    {
        let ghost seg = s@.skip(pos as int);
        let j = find_newline_from(&chars, pos);
        let mut line: Vec<char> = Vec::new();
        let mut k: usize = pos;
        while k < j
            invariant
                pos <= k <= j,
                j <= chars@.len(),
                chars@ == s@,
                line@ =~= s@.subrange(pos as int, k as int),
            decreases j - k,
        {
            line.push(chars[k]);
            k = k + 1;
            proof {
                assert(line@ =~= s@.subrange(pos as int, k as int));
            }
        }
        proof {
            assert(line@ =~= seg.take(line_break(seg) as int));
        }
        if j == chars.len() {
            // The final line has no terminator and keeps its bytes as
            // they stand.
            out.push(chars_to_string(&line));
            pos = j;
            proof {
                lemma_line_break_le(seg);
                assert(line_break(seg) == seg.len());
                assert(seg.take(seg.len() as int) =~= seg);
                assert(spec_lines(seg) =~= seq![seg]);
                assert(vstrs_m(out@) =~= whole);
                assert(s@.skip(pos as int).len() == 0);
                assert(vstrs_m(out@) + spec_lines(s@.skip(pos as int)) =~= whole);
            }
        } else {
            if line.len() > 0 && line[line.len() - 1] == '\r' {
                let _ = line.pop();
            }
            proof {
                assert(line@ =~= strip_cr(seg.take(line_break(seg) as int)));
            }
            out.push(chars_to_string(&line));
            pos = j + 1;
            proof {
                assert(seg.skip(line_break(seg) as int + 1) =~= s@.skip(pos as int));
                assert(spec_lines(seg) =~= seq![strip_cr(seg.take(line_break(seg) as int))]
                    + spec_lines(s@.skip(pos as int)));
                assert(vstrs_m(out@) + spec_lines(s@.skip(pos as int)) =~= whole);
            }
        }
    }
    proof {
        assert(s@.skip(pos as int).len() == 0);
        assert(vstrs_m(out@) =~= whole);
    }
    out
}

pub open spec fn vstrs_m(s: Seq<String>) -> Seq<Seq<char>> {
    s.map_values(|x: String| x@)
}

/// The cask entry a non-empty line names.
pub open spec fn cask_model(line: Seq<char>) -> PackageModel {
    PackageModel { name: line, tap: "homebrew/cask"@, is_cask: true }
}

/// The casks named by a listing: one per non-empty line.
pub open spec fn casks_of(lines: Seq<Seq<char>>) -> Seq<PackageModel> {
    lines.filter(|l: Seq<char>| l.len() > 0).map_values(|l: Seq<char>| cask_model(l))
}

proof fn lemma_casks_of_push(lines: Seq<Seq<char>>, l: Seq<char>)
    ensures
        casks_of(lines.push(l)) == if l.len() > 0 {
            casks_of(lines).push(cask_model(l))
        } else {
            casks_of(lines)
        },
{
    reveal(Seq::filter);
    assert(lines.push(l).drop_last() =~= lines);
    assert(lines.push(l).last() == l);
    if l.len() > 0 {
        assert(casks_of(lines.push(l)) =~= casks_of(lines).push(cask_model(l)));
    } else {
        assert(casks_of(lines.push(l)) =~= casks_of(lines));
    }
}

/// Parse the plain-text output of `brew list --cask`: one cask per
/// non-empty line, all under the cask tap.
pub fn parse_casks_from_plain_text(output: &str) -> (r: Vec<HomebrewPackage>)
    ensures
        vpkgs(r@) == casks_of(spec_lines(output@)),
{
    let lines = split_lines(output);
    let ghost ls = vstrs_m(lines@);
    let mut out: Vec<HomebrewPackage> = Vec::new();
    let mut i: usize = 0;
    while i < lines.len()
        invariant
            i <= lines.len(),
            ls == vstrs_m(lines@),
            ls.len() == lines@.len(),
            vpkgs(out@).len() == out@.len(),
            vpkgs(out@) =~= casks_of(ls.take(i as int)),
        decreases lines.len() - i,
    {
        proof {
            lemma_casks_of_push(ls.take(i as int), ls[i as int]);
            assert(ls.take(i as int).push(ls[i as int]) =~= ls.take(i as int + 1));
        }
        if lines[i].as_str().unicode_len() > 0 {
            out.push(
                HomebrewPackage {
                    name: lines[i].clone(),
                    tap: "homebrew/cask".to_owned(),
                    is_cask: true,
                },
            );
        }
        i = i + 1;
        proof {
            assert(vpkgs(out@) =~= casks_of(ls.take(i as int)));
        }
    }
    proof {
        assert(ls.take(ls.len() as int) =~= ls);
    }
    out
}

// ---------------------------------------------------------------------------
// Categorisation
// ---------------------------------------------------------------------------

pub open spec fn core_formulas_of(ps: Seq<PackageModel>) -> Seq<PackageModel> {
    ps.filter(|p: PackageModel| is_core_formula(p))
}

pub open spec fn non_core_formulas_of(ps: Seq<PackageModel>) -> Seq<PackageModel> {
    ps.filter(|p: PackageModel| is_non_core_formula(p))
}

pub open spec fn casks_among(ps: Seq<PackageModel>) -> Seq<PackageModel> {
    ps.filter(|p: PackageModel| is_cask(p))
}

proof fn lemma_categorize_push(ps: Seq<PackageModel>, p: PackageModel)
    ensures
        core_formulas_of(ps.push(p)) == if is_core_formula(p) {
            core_formulas_of(ps).push(p)
        } else {
            core_formulas_of(ps)
        },
        non_core_formulas_of(ps.push(p)) == if is_non_core_formula(p) {
            non_core_formulas_of(ps).push(p)
        } else {
            non_core_formulas_of(ps)
        },
        casks_among(ps.push(p)) == if is_cask(p) {
            casks_among(ps).push(p)
        } else {
            casks_among(ps)
        },
{
    reveal(Seq::filter);
    assert(ps.push(p).drop_last() =~= ps);
    assert(ps.push(p).last() == p);
    if is_core_formula(p) {
        assert(core_formulas_of(ps.push(p)) =~= core_formulas_of(ps).push(p));
    } else {
        assert(core_formulas_of(ps.push(p)) =~= core_formulas_of(ps));
    }
    if is_non_core_formula(p) {
        assert(non_core_formulas_of(ps.push(p)) =~= non_core_formulas_of(ps).push(p));
    } else {
        assert(non_core_formulas_of(ps.push(p)) =~= non_core_formulas_of(ps));
    }
    if is_cask(p) {
        assert(casks_among(ps.push(p)) =~= casks_among(ps).push(p));
    } else {
        assert(casks_among(ps.push(p)) =~= casks_among(ps));
    }
}

/// Sort packages into what can migrate and what cannot: core formulas
/// migrate; formulas of other taps and casks do not.
pub fn categorize_packages(packages: &Vec<HomebrewPackage>) -> (r: HomebrewMigrationPackages)
    ensures
        vpkgs(r.formulas@) == core_formulas_of(vpkgs(packages@)),
        vpkgs(r.non_core_formulas@) == non_core_formulas_of(vpkgs(packages@)),
        vpkgs(r.casks@) == casks_among(vpkgs(packages@)),
{
    let ghost ps = vpkgs(packages@);
    let mut formulas: Vec<HomebrewPackage> = Vec::new();
    let mut non_core: Vec<HomebrewPackage> = Vec::new();
    let mut casks: Vec<HomebrewPackage> = Vec::new();
    let mut i: usize = 0;
    while i < packages.len()
        invariant
            i <= packages.len(),
            ps == vpkgs(packages@),
            ps.len() == packages@.len(),
            vpkgs(formulas@).len() == formulas@.len(),
            vpkgs(non_core@).len() == non_core@.len(),
            vpkgs(casks@).len() == casks@.len(),
            vpkgs(formulas@) =~= core_formulas_of(ps.take(i as int)),
            vpkgs(non_core@) =~= non_core_formulas_of(ps.take(i as int)),
            vpkgs(casks@) =~= casks_among(ps.take(i as int)),
        decreases packages.len() - i,
    {
        proof {
            lemma_categorize_push(ps.take(i as int), ps[i as int]);
            assert(ps.take(i as int).push(ps[i as int]) =~= ps.take(i as int + 1));
        }
        let p = &packages[i];
        if p.is_cask {
            casks.push(p.duplicate());
        } else if str_eq(p.tap.as_str(), "homebrew/core") {
            formulas.push(p.duplicate());
        } else {
            non_core.push(p.duplicate());
        }
        i = i + 1;
        proof {
            assert(vpkgs(formulas@) =~= core_formulas_of(ps.take(i as int)));
            assert(vpkgs(non_core@) =~= non_core_formulas_of(ps.take(i as int)));
            assert(vpkgs(casks@) =~= casks_among(ps.take(i as int)));
        }
    }
    proof {
        assert(ps.take(ps.len() as int) =~= ps);
    }
    HomebrewMigrationPackages { formulas, non_core_formulas: non_core, casks }
}

} // verus!

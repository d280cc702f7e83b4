//! The four-way classification of dependencies and packages.
//!
//! A [`ProjectAnalysis`] holds the three read-only inputs — installed
//! packages, declared dependencies, imported module names — with every
//! package and dependency identifier normalized at construction, and
//! classifies each dependency or package as used, unused, untracked or
//! uninstalled.

use vstd::prelude::*;
use crate::config::Config;
use crate::dependencies::{DepModel, Dependency};
use crate::packages::{Package, PackageState, PkgModel};
use crate::text::{
    chars_vec, string_from_chars, lowercase, dashes, norm_of, clone_strings, contains_string,
    eq_chars,
};

verus! {

/// The mathematical model of an [`AnalysisElement`].
#[verifier::ext_equal]
pub ghost struct ElemModel {
    pub package: Option<PkgModel>,
    pub dependency: Option<DepModel>,
}

/// One classification result: the package it concerns, when one is
/// installed, and the linked declaration, when one was made.
#[derive(Debug, Clone, PartialEq, Eq)]
pub struct AnalysisElement {
    pub package: Option<Package>,
    pub dependency: Option<Dependency>,
}

impl View for AnalysisElement {
    type V = ElemModel;

    open spec fn view(&self) -> ElemModel {
        ElemModel { package: self.package.deep_view(), dependency: self.dependency.deep_view() }
    }
}

impl DeepView for AnalysisElement {
    type V = ElemModel;

    open spec fn deep_view(&self) -> ElemModel {
        self.view()
    }
}

/// The mathematical model of a [`ProjectAnalysis`].
#[verifier::ext_equal]
pub ghost struct AnalysisModel {
    pub packages: Seq<PkgModel>,
    pub dependencies: Seq<DepModel>,
    pub imports: Seq<Seq<char>>,
}

/// The three inputs of the classification, identifiers normalized.
pub struct ProjectAnalysis {
    pub packages: Vec<Package>,
    pub dependencies: Vec<Dependency>,
    pub imports: Vec<String>,
}

impl View for ProjectAnalysis {
    type V = AnalysisModel;

    open spec fn view(&self) -> AnalysisModel {
        AnalysisModel {
            packages: self.packages.deep_view(),
            dependencies: self.dependencies.deep_view(),
            imports: self.imports.deep_view(),
        }
    }
}

/// The package answers for the dependency: the normalized identifiers are
/// equal.
pub open spec fn id_match(p: PkgModel, d: DepModel) -> bool {
    p.id == d.id
}

/// Some alias of the package is imported.
pub open spec fn aliases_hit(p: PkgModel, imports: Seq<Seq<char>>) -> bool {
    exists|i: int| 0 <= i < p.aliases.len() && imports.contains(#[trigger] p.aliases[i])
}

/// The find condition of the classifier: an id match, with the alias overlap
/// as asked for.
pub open spec fn pkg_cond(p: PkgModel, d: DepModel, imports: Seq<Seq<char>>, hit: bool) -> bool {
    id_match(p, d) && aliases_hit(p, imports) == hit
}

/// The first package matching the condition, if any.
pub open spec fn find_pkg(
    pkgs: Seq<PkgModel>,
    d: DepModel,
    imports: Seq<Seq<char>>,
    hit: bool,
) -> Option<PkgModel>
    decreases pkgs.len(),
{
    if pkgs.len() == 0 {
        None
    } else if pkg_cond(pkgs[0], d, imports, hit) {
        Some(pkgs[0])
    } else {
        find_pkg(pkgs.drop_first(), d, imports, hit)
    }
}

/// The interpreter-provided pseudo-dependencies: the interpreter itself, the
/// package manager and the build backend. These are never reported unused or
/// uninstalled.
pub open spec fn is_pseudo(id: Seq<char>) -> bool {
    id == "python"@ || id == "pip"@ || id == "setuptools"@
}

/// Some declared dependency carries this identifier.
pub open spec fn has_dep_with_id(deps: Seq<DepModel>, id: Seq<char>) -> bool {
    exists|i: int| 0 <= i < deps.len() && #[trigger] deps[i].id == id
}

/// Some installed package carries this identifier.
pub open spec fn has_pkg_with_id(pkgs: Seq<PkgModel>, id: Seq<char>) -> bool {
    exists|i: int| 0 <= i < pkgs.len() && #[trigger] pkgs[i].id == id
}

/// The used elements among the first `n` dependencies: a dependency is used
/// when a package with its id has an imported alias.
pub open spec fn used_sub(m: AnalysisModel, n: int) -> Seq<ElemModel>
    decreases n,
{
    if n <= 0 {
        Seq::empty()
    } else {
        used_sub(m, n - 1) + (match find_pkg(m.packages, m.dependencies[n - 1], m.imports, true) {
            Some(p) => seq![
                ElemModel { package: Some(p), dependency: Some(m.dependencies[n - 1]) },
            ],
            None => Seq::empty(),
        })
    }
}

pub open spec fn used_of(m: AnalysisModel) -> Seq<ElemModel> {
    used_sub(m, m.dependencies.len() as int)
}

/// The element's package names `x` among its own requirements.
pub open spec fn elem_has_req(e: ElemModel, x: Seq<char>) -> bool {
    e.package matches Some(p) && p.requirements.contains(x)
}

/// `x` is required by some package already classified as used: the
/// transitive exemption of the unused rule.
pub open spec fn used_requirement(m: AnalysisModel, x: Seq<char>) -> bool {
    exists|i: int| 0 <= i < used_of(m).len() && elem_has_req(#[trigger] used_of(m)[i], x)
}

/// The unused elements among the first `n` dependencies: a dependency is
/// unused when a package with its id has no imported alias, unless that
/// package is required by a used one or the dependency is a
/// pseudo-dependency.
pub open spec fn unused_sub(m: AnalysisModel, n: int) -> Seq<ElemModel>
    decreases n,
{
    if n <= 0 {
        Seq::empty()
    } else {
        let d = m.dependencies[n - 1];
        unused_sub(m, n - 1) + (match find_pkg(m.packages, d, m.imports, false) {
            Some(p) => if !used_requirement(m, p.id) && !is_pseudo(d.id) {
                seq![ElemModel { package: Some(p), dependency: Some(d) }]
            } else {
                Seq::empty()
            },
            None => Seq::empty(),
        })
    }
}

pub open spec fn unused_of(m: AnalysisModel) -> Seq<ElemModel> {
    unused_sub(m, m.dependencies.len() as int)
}

/// The untracked elements among the first `n` packages: a package is
/// untracked when one of its aliases is imported but no dependency carries
/// its id.
pub open spec fn untracked_sub(m: AnalysisModel, n: int) -> Seq<ElemModel>
    decreases n,
{
    if n <= 0 {
        Seq::empty()
    } else {
        let p = m.packages[n - 1];
        untracked_sub(m, n - 1) + (if aliases_hit(p, m.imports) && !has_dep_with_id(
            m.dependencies,
            p.id,
        ) {
            seq![ElemModel { package: Some(p), dependency: None }]
        } else {
            Seq::empty()
        })
    }
}

pub open spec fn untracked_of(m: AnalysisModel) -> Seq<ElemModel> {
    untracked_sub(m, m.packages.len() as int)
}

/// The uninstalled elements among the first `n` dependencies: a dependency
/// is uninstalled when no package carries its id but its normalized id is
/// imported, unless it is a pseudo-dependency.
pub open spec fn uninstalled_sub(m: AnalysisModel, n: int) -> Seq<ElemModel>
    decreases n,
{
    if n <= 0 {
        Seq::empty()
    } else {
        let d = m.dependencies[n - 1];
        uninstalled_sub(m, n - 1) + (if !has_pkg_with_id(m.packages, d.id) && m.imports.contains(
            d.id,
        ) && !is_pseudo(d.id) {
            seq![ElemModel { package: None, dependency: Some(d) }]
        } else {
            Seq::empty()
        })
    }
}

pub open spec fn uninstalled_of(m: AnalysisModel) -> Seq<ElemModel> {
    uninstalled_sub(m, m.dependencies.len() as int)
}

/// No two installed packages share an identifier, as holds of an index
/// built from one metadata directory per distribution.
pub open spec fn distinct_pkg_ids(pkgs: Seq<PkgModel>) -> bool {
    forall|i: int, j: int| 0 <= i < j < pkgs.len() ==> pkgs[i].id != pkgs[j].id
}

/// What the find condition yields: a package from the index, with the
/// dependency's identifier and exactly the asked-for alias overlap.
proof fn lemma_find_pkg_props(pkgs: Seq<PkgModel>, d: DepModel, imports: Seq<Seq<char>>, hit: bool)
    ensures
        find_pkg(pkgs, d, imports, hit) matches Some(p) ==> pkgs.contains(p) && p.id == d.id
            && aliases_hit(p, imports) == hit,
    decreases pkgs.len(),
{
    if pkgs.len() > 0 {
        if pkg_cond(pkgs[0], d, imports, hit) {
            assert(pkgs[0] == pkgs.index(0));
        } else {
            lemma_find_pkg_props(pkgs.drop_first(), d, imports, hit);
            let r = find_pkg(pkgs.drop_first(), d, imports, hit);
            if r is Some {
                let p = r->0;
                let w = choose|w: int|
                    0 <= w < pkgs.drop_first().len() && pkgs.drop_first()[w] == p;
                assert(pkgs[w + 1] == p);
            }
        }
    }
}

/// `e` is the used element of the `k`-th dependency.
pub open spec fn is_used_elem_of(m: AnalysisModel, e: ElemModel, k: int) -> bool {
    &&& 0 <= k < m.dependencies.len()
    &&& find_pkg(m.packages, m.dependencies[k], m.imports, true) matches Some(p) && e == (
    ElemModel { package: Some(p), dependency: Some(m.dependencies[k]) })
}

/// `e` is the unused element of the `k`-th dependency.
pub open spec fn is_unused_elem_of(m: AnalysisModel, e: ElemModel, k: int) -> bool {
    &&& 0 <= k < m.dependencies.len()
    &&& !is_pseudo(m.dependencies[k].id)
    &&& find_pkg(m.packages, m.dependencies[k], m.imports, false) matches Some(p) && e == (
    ElemModel { package: Some(p), dependency: Some(m.dependencies[k]) }) && !used_requirement(
        m,
        p.id,
    )
}

proof fn lemma_used_elem(m: AnalysisModel, n: int, i: int)
    requires
        n <= m.dependencies.len(),
        0 <= i < used_sub(m, n).len(),
    ensures
        exists|k: int| #[trigger] is_used_elem_of(m, used_sub(m, n)[i], k),
    decreases n,
{
    if n > 0 {
        let prev = used_sub(m, n - 1);
        if i < prev.len() {
            lemma_used_elem(m, n - 1, i);
            let k = choose|k: int| is_used_elem_of(m, prev[i], k);
            assert(is_used_elem_of(m, used_sub(m, n)[i], k));
        } else {
            assert(is_used_elem_of(m, used_sub(m, n)[i], n - 1));
        }
    }
}

proof fn lemma_unused_elem(m: AnalysisModel, n: int, i: int)
    requires
        n <= m.dependencies.len(),
        0 <= i < unused_sub(m, n).len(),
    ensures
        exists|k: int| #[trigger] is_unused_elem_of(m, unused_sub(m, n)[i], k),
    decreases n,
{
    if n > 0 {
        let prev = unused_sub(m, n - 1);
        if i < prev.len() {
            lemma_unused_elem(m, n - 1, i);
            let k = choose|k: int| is_unused_elem_of(m, prev[i], k);
            assert(is_unused_elem_of(m, unused_sub(m, n)[i], k));
        } else {
            assert(is_unused_elem_of(m, unused_sub(m, n)[i], n - 1));
        }
    }
}

/// For identical inputs whose package index holds each identifier once, the
/// used and unused classifications are mutually exclusive: no dependency
/// identifier appears in both.
pub proof fn lemma_used_unused_exclusive(m: AnalysisModel, i: int, j: int)
    requires
        distinct_pkg_ids(m.packages),
        0 <= i < used_of(m).len(),
        0 <= j < unused_of(m).len(),
    ensures
        used_of(m)[i].dependency is Some,
        unused_of(m)[j].dependency is Some,
        used_of(m)[i].dependency->0.id != unused_of(m)[j].dependency->0.id,
{
    let n = m.dependencies.len() as int;
    lemma_used_elem(m, n, i);
    lemma_unused_elem(m, n, j);
    let k1 = choose|k: int| is_used_elem_of(m, used_of(m)[i], k);
    let k2 = choose|k: int| is_unused_elem_of(m, unused_of(m)[j], k);
    let d1 = m.dependencies[k1];
    let d2 = m.dependencies[k2];
    lemma_find_pkg_props(m.packages, d1, m.imports, true);
    lemma_find_pkg_props(m.packages, d2, m.imports, false);
    let p1 = find_pkg(m.packages, d1, m.imports, true)->0;
    let p2 = find_pkg(m.packages, d2, m.imports, false)->0;
    if d1.id == d2.id {
        let a1 = choose|a: int| 0 <= a < m.packages.len() && m.packages[a] == p1;
        let a2 = choose|a: int| 0 <= a < m.packages.len() && m.packages[a] == p2;
        assert(m.packages[a1].id == m.packages[a2].id);
        assert(a1 == a2);
        assert(aliases_hit(p1, m.imports) && !aliases_hit(p1, m.imports));
    }
}

proof fn lemma_find_pkg_exists(pkgs: Seq<PkgModel>, d: DepModel, imports: Seq<Seq<char>>, hit: bool)
    ensures
        find_pkg(pkgs, d, imports, hit) is Some <==> exists|i: int|
            0 <= i < pkgs.len() && pkg_cond(#[trigger] pkgs[i], d, imports, hit),
    decreases pkgs.len(),
{
    if pkgs.len() > 0 {
        lemma_find_pkg_exists(pkgs.drop_first(), d, imports, hit);
        if !pkg_cond(pkgs[0], d, imports, hit) {
            if find_pkg(pkgs.drop_first(), d, imports, hit) is Some {
                let i = choose|i: int|
                    0 <= i < pkgs.drop_first().len() && pkg_cond(
                        #[trigger] pkgs.drop_first()[i],
                        d,
                        imports,
                        hit,
                    );
                assert(pkg_cond(pkgs[i + 1], d, imports, hit));
            }
            if exists|i: int| 0 <= i < pkgs.len() && pkg_cond(#[trigger] pkgs[i], d, imports, hit) {
                let i = choose|i: int|
                    0 <= i < pkgs.len() && pkg_cond(#[trigger] pkgs[i], d, imports, hit);
                assert(pkg_cond(pkgs.drop_first()[i - 1], d, imports, hit));
            }
        }
    }
}

proof fn lemma_used_sub_has_dep(m: AnalysisModel, n: int, k: int)
    requires
        0 <= k < n <= m.dependencies.len(),
        find_pkg(m.packages, m.dependencies[k], m.imports, true) is Some,
    ensures
        exists|i: int|
            0 <= i < used_sub(m, n).len() && (#[trigger] used_sub(m, n)[i]).dependency == Some(
                m.dependencies[k],
            ),
    decreases n,
{
    if k == n - 1 {
        let s = used_sub(m, n);
        assert(s[s.len() - 1].dependency == Some(m.dependencies[k]));
    } else {
        lemma_used_sub_has_dep(m, n - 1, k);
        let i = choose|i: int|
            0 <= i < used_sub(m, n - 1).len() && (#[trigger] used_sub(m, n - 1)[i]).dependency
                == Some(m.dependencies[k]);
        assert(used_sub(m, n)[i].dependency == Some(m.dependencies[k]));
    }
}

/// The used rule, as an equivalence: a dependency is classified used exactly
/// when some installed package carries its identifier and one of that
/// package's aliases is imported.
pub proof fn lemma_used_characterization(m: AnalysisModel, k: int)
    requires
        0 <= k < m.dependencies.len(),
    ensures
        (exists|i: int|
            0 <= i < used_of(m).len() && (#[trigger] used_of(m)[i]).dependency == Some(
                m.dependencies[k],
            )) <==> exists|j: int|
            0 <= j < m.packages.len() && id_match(#[trigger] m.packages[j], m.dependencies[k])
                && aliases_hit(m.packages[j], m.imports),
{
    let d = m.dependencies[k];
    lemma_find_pkg_exists(m.packages, d, m.imports, true);
    if exists|j: int|
        0 <= j < m.packages.len() && id_match(#[trigger] m.packages[j], d) && aliases_hit(
            m.packages[j],
            m.imports,
        ) {
        let j = choose|j: int|
            0 <= j < m.packages.len() && id_match(#[trigger] m.packages[j], d) && aliases_hit(
                m.packages[j],
                m.imports,
            );
        assert(pkg_cond(m.packages[j], d, m.imports, true));
        lemma_used_sub_has_dep(m, m.dependencies.len() as int, k);
    }
    if exists|i: int|
        0 <= i < used_of(m).len() && (#[trigger] used_of(m)[i]).dependency == Some(d) {
        let i = choose|i: int|
            0 <= i < used_of(m).len() && (#[trigger] used_of(m)[i]).dependency == Some(d);
        lemma_used_elem(m, m.dependencies.len() as int, i);
        let k2 = choose|k2: int| is_used_elem_of(m, used_of(m)[i], k2);
        assert(m.dependencies[k2] == d);
        assert(find_pkg(m.packages, d, m.imports, true) is Some);
        let j = choose|j: int|
            0 <= j < m.packages.len() && pkg_cond(#[trigger] m.packages[j], d, m.imports, true);
        assert(id_match(m.packages[j], d) && aliases_hit(m.packages[j], m.imports));
    }
}

/// Transitive exemption: a package required by a used package is never
/// reported unused, though it is never directly imported itself.
pub proof fn lemma_transitive_exemption(m: AnalysisModel, j: int)
    requires
        0 <= j < unused_of(m).len(),
    ensures
        unused_of(m)[j].package is Some,
        !used_requirement(m, unused_of(m)[j].package->0.id),
{
    lemma_unused_elem(m, m.dependencies.len() as int, j);
    let k = choose|k: int| is_unused_elem_of(m, unused_of(m)[j], k);
    assert(is_unused_elem_of(m, unused_of(m)[j], k));
}

/// Re-running the classification on identical inputs yields the identical
/// result set: each classification is a function of the model alone.
pub proof fn lemma_classification_deterministic(m1: AnalysisModel, m2: AnalysisModel)
    requires
        m1 == m2,
    ensures
        used_of(m1) == used_of(m2),
        unused_of(m1) == unused_of(m2),
        untracked_of(m1) == untracked_of(m2),
        uninstalled_of(m1) == uninstalled_of(m2),
{
}

proof fn lemma_aliases_hit_imports(p: PkgModel, i1: Seq<Seq<char>>, i2: Seq<Seq<char>>)
    requires
        forall|x: Seq<char>| i1.contains(x) == i2.contains(x),
    ensures
        aliases_hit(p, i1) == aliases_hit(p, i2),
{
    if aliases_hit(p, i1) {
        let w = choose|w: int| 0 <= w < p.aliases.len() && i1.contains(#[trigger] p.aliases[w]);
        assert(i2.contains(p.aliases[w]));
    }
    if aliases_hit(p, i2) {
        let w = choose|w: int| 0 <= w < p.aliases.len() && i2.contains(#[trigger] p.aliases[w]);
        assert(i1.contains(p.aliases[w]));
    }
}

proof fn lemma_find_pkg_imports(
    pkgs: Seq<PkgModel>,
    d: DepModel,
    i1: Seq<Seq<char>>,
    i2: Seq<Seq<char>>,
    hit: bool,
)
    requires
        forall|x: Seq<char>| i1.contains(x) == i2.contains(x),
    ensures
        find_pkg(pkgs, d, i1, hit) == find_pkg(pkgs, d, i2, hit),
    decreases pkgs.len(),
{
    if pkgs.len() > 0 {
        lemma_aliases_hit_imports(pkgs[0], i1, i2);
        lemma_find_pkg_imports(pkgs.drop_first(), d, i1, i2, hit);
    }
}

proof fn lemma_used_sub_imports(m1: AnalysisModel, m2: AnalysisModel, n: int)
    requires
        m1.packages == m2.packages,
        m1.dependencies == m2.dependencies,
        forall|x: Seq<char>| m1.imports.contains(x) == m2.imports.contains(x),
    ensures
        used_sub(m1, n) == used_sub(m2, n),
    decreases n,
{
    if n > 0 {
        lemma_used_sub_imports(m1, m2, n - 1);
        lemma_find_pkg_imports(m1.packages, m1.dependencies[n - 1], m1.imports, m2.imports, true);
    }
}

proof fn lemma_unused_sub_imports(m1: AnalysisModel, m2: AnalysisModel, n: int)
    requires
        m1.packages == m2.packages,
        m1.dependencies == m2.dependencies,
        forall|x: Seq<char>| m1.imports.contains(x) == m2.imports.contains(x),
    ensures
        unused_sub(m1, n) == unused_sub(m2, n),
    decreases n,
{
    if n > 0 {
        lemma_unused_sub_imports(m1, m2, n - 1);
        lemma_find_pkg_imports(m1.packages, m1.dependencies[n - 1], m1.imports, m2.imports, false);
        lemma_used_sub_imports(m1, m2, m1.dependencies.len() as int);
        assert(used_of(m1) == used_of(m2));
        assert forall|x: Seq<char>| #[trigger] used_requirement(m1, x) == used_requirement(
            m2,
            x,
        ) by {
            if used_requirement(m1, x) {
                let i = choose|i: int|
                    0 <= i < used_of(m1).len() && elem_has_req(#[trigger] used_of(m1)[i], x);
                assert(elem_has_req(used_of(m2)[i], x));
            }
            if used_requirement(m2, x) {
                let i = choose|i: int|
                    0 <= i < used_of(m2).len() && elem_has_req(#[trigger] used_of(m2)[i], x);
                assert(elem_has_req(used_of(m1)[i], x));
            }
        }
    }
}

proof fn lemma_untracked_sub_imports(m1: AnalysisModel, m2: AnalysisModel, n: int)
    requires
        m1.packages == m2.packages,
        m1.dependencies == m2.dependencies,
        forall|x: Seq<char>| m1.imports.contains(x) == m2.imports.contains(x),
    ensures
        untracked_sub(m1, n) == untracked_sub(m2, n),
    decreases n,
{
    if n > 0 {
        lemma_untracked_sub_imports(m1, m2, n - 1);
        if 0 < n <= m1.packages.len() {
            lemma_aliases_hit_imports(m1.packages[n - 1], m1.imports, m2.imports);
        }
    }
}

proof fn lemma_uninstalled_sub_imports(m1: AnalysisModel, m2: AnalysisModel, n: int)
    requires
        m1.packages == m2.packages,
        m1.dependencies == m2.dependencies,
        forall|x: Seq<char>| m1.imports.contains(x) == m2.imports.contains(x),
    ensures
        uninstalled_sub(m1, n) == uninstalled_sub(m2, n),
    decreases n,
{
    if n > 0 {
        lemma_uninstalled_sub_imports(m1, m2, n - 1);
    }
}

/// The order (and multiplicity) in which the scanner's imports arrive never
/// changes a classification: two models equal but for the arrangement of
/// their import sets classify identically.
pub proof fn lemma_classification_import_order(m1: AnalysisModel, m2: AnalysisModel)
    requires
        m1.packages == m2.packages,
        m1.dependencies == m2.dependencies,
        forall|x: Seq<char>| m1.imports.contains(x) == m2.imports.contains(x),
    ensures
        used_of(m1) == used_of(m2),
        unused_of(m1) == unused_of(m2),
        untracked_of(m1) == untracked_of(m2),
        uninstalled_of(m1) == uninstalled_of(m2),
{
    lemma_used_sub_imports(m1, m2, m1.dependencies.len() as int);
    lemma_unused_sub_imports(m1, m2, m1.dependencies.len() as int);
    lemma_untracked_sub_imports(m1, m2, m1.packages.len() as int);
    lemma_uninstalled_sub_imports(m1, m2, m1.dependencies.len() as int);
}

/// A package model with its identifiers normalized.
pub open spec fn norm_pkg(p: PkgModel) -> PkgModel {
    PkgModel {
        id: norm_of(p.id),
        size: p.size,
        aliases: p.aliases,
        requirements: p.requirements.map_values(|x: Seq<char>| norm_of(x)),
    }
}

/// A dependency model with its identifier normalized.
pub open spec fn norm_dep(d: DepModel) -> DepModel {
    DepModel { id: norm_of(d.id), version: d.version, category: d.category }
}

/// The whole model with every identifier normalized; imports and aliases
/// are module names, not identifiers, and keep their exact spelling.
pub open spec fn norm_model(m: AnalysisModel) -> AnalysisModel {
    AnalysisModel {
        packages: m.packages.map_values(|p: PkgModel| norm_pkg(p)),
        dependencies: m.dependencies.map_values(|d: DepModel| norm_dep(d)),
        imports: m.imports,
    }
}

/// A string in normalized identifier form.
fn normalize_id(s: &String) -> (r: String)
    ensures
        r@ == norm_of(s@),
{
    let lowered = lowercase(s.as_str());
    let dashed = dashes(&chars_vec(lowered.as_str()));
    string_from_chars(&dashed)
}

/// Every string normalized.
fn normalize_ids(v: &Vec<String>) -> (r: Vec<String>)
    ensures
        r.deep_view() == v.deep_view().map_values(|x: Seq<char>| norm_of(x)),
{
    let mut out: Vec<String> = Vec::new();
    let mut i: usize = 0;
    while i < v.len()
        invariant
            i <= v@.len(),
            out.deep_view() =~= v.deep_view().map_values(|x: Seq<char>| norm_of(x)).subrange(
                0,
                i as int,
            ),
        decreases v@.len() - i,
    {
        let ghost dv0 = out.deep_view();
        let n = normalize_id(&v[i]);
        let ghost nv = n@;
        out.push(n);
        proof {
            assert(out.deep_view() =~= dv0.push(nv));
            assert(out.deep_view() =~= v.deep_view().map_values(
                |x: Seq<char>| norm_of(x),
            ).subrange(0, i + 1));
        }
        i = i + 1;
    }
    proof {
        let mv = v.deep_view().map_values(|x: Seq<char>| norm_of(x));
        assert(mv.subrange(0, mv.len() as int) =~= mv);
    }
    out
}

/// A copy of the package, field for field.
fn copy_package(p: &Package) -> (r: Package)
    ensures
        r@ == p@,
{
    let r = Package {
        id: p.id.clone(),
        size: p.size,
        aliases: clone_strings(&p.aliases),
        requirements: clone_strings(&p.requirements),
    };
    proof {
        assert(r@ =~= p@);
    }
    r
}

/// A copy of the dependency, field for field.
fn copy_dependency(d: &Dependency) -> (r: Dependency)
    ensures
        r@ == d@,
{
    let version = match &d.version {
        Some(s) => Some(s.clone()),
        None => None,
    };
    let category = match &d.category {
        Some(s) => Some(s.clone()),
        None => None,
    };
    let r = Dependency { id: d.id.clone(), version, category };
    proof {
        assert(r@ =~= d@);
    }
    r
}

/// Whether the identifier is one of the pseudo-dependencies.
fn is_pseudo_id(s: &String) -> (r: bool)
    ensures
        r == is_pseudo(s@),
{
    let v = chars_vec(s.as_str());
    eq_chars(&v, &chars_vec("python")) || eq_chars(&v, &chars_vec("pip")) || eq_chars(
        &v,
        &chars_vec("setuptools"),
    )
}

/// Whether some alias of the package is imported.
fn package_hits(p: &Package, imports: &Vec<String>) -> (r: bool)
    ensures
        r == aliases_hit(p@, imports.deep_view()),
{
    let mut i: usize = 0;
    while i < p.aliases.len()
        invariant
            i <= p.aliases@.len(),
            forall|k: int| 0 <= k < i ==> !imports.deep_view().contains(
                #[trigger] p@.aliases[k],
            ),
        decreases p.aliases@.len() - i,
    {
        if contains_string(imports, &p.aliases[i]) {
            proof {
                assert(imports.deep_view().contains(p@.aliases[i as int]));
            }
            return true;
        }
        i = i + 1;
    }
    false
}

proof fn lemma_find_pkg_at(
    pkgs: Seq<PkgModel>,
    d: DepModel,
    imports: Seq<Seq<char>>,
    hit: bool,
    j: int,
)
    requires
        0 <= j < pkgs.len(),
        pkg_cond(pkgs[j], d, imports, hit),
        forall|k: int| 0 <= k < j ==> !pkg_cond(#[trigger] pkgs[k], d, imports, hit),
    ensures
        find_pkg(pkgs, d, imports, hit) == Some(pkgs[j]),
    decreases j,
{
    if j > 0 {
        lemma_find_pkg_at(pkgs.drop_first(), d, imports, hit, j - 1);
    }
}

proof fn lemma_find_pkg_none(pkgs: Seq<PkgModel>, d: DepModel, imports: Seq<Seq<char>>, hit: bool)
    requires
        forall|k: int| 0 <= k < pkgs.len() ==> !pkg_cond(#[trigger] pkgs[k], d, imports, hit),
    ensures
        find_pkg(pkgs, d, imports, hit) is None,
    decreases pkgs.len(),
{
    if pkgs.len() > 0 {
        lemma_find_pkg_none(pkgs.drop_first(), d, imports, hit);
    }
}

impl ProjectAnalysis {
    /// Gathers the three inputs, normalizing every package and dependency
    /// identifier (and the requirement lists, which name packages) once,
    /// here, so that all comparison below is on normalized ids.
    pub fn new(packages: Vec<Package>, dependencies: Vec<Dependency>, imports: Vec<String>) -> (r:
        ProjectAnalysis)
        ensures
            r@ == norm_model(
                AnalysisModel {
                    packages: packages.deep_view(),
                    dependencies: dependencies.deep_view(),
                    imports: imports.deep_view(),
                },
            ),
    {
        let ghost pm = packages.deep_view().map_values(|p: PkgModel| norm_pkg(p));
        let ghost dm = dependencies.deep_view().map_values(|d: DepModel| norm_dep(d));
        let mut npkgs: Vec<Package> = Vec::new();
        let mut i: usize = 0;
        while i < packages.len()
            invariant
                i <= packages@.len(),
                pm == packages.deep_view().map_values(|p: PkgModel| norm_pkg(p)),
                npkgs.deep_view() =~= pm.subrange(0, i as int),
            decreases packages@.len() - i,
        {
            let ghost dv0 = npkgs.deep_view();
            let p = &packages[i];
            let np = Package {
                id: normalize_id(&p.id),
                size: p.size,
                aliases: clone_strings(&p.aliases),
                requirements: normalize_ids(&p.requirements),
            };
            proof {
                assert(p@ == packages.deep_view()[i as int]);
                assert(np@ =~= norm_pkg(packages.deep_view()[i as int]));
            }
            npkgs.push(np);
            proof {
                assert(npkgs.deep_view() =~= dv0.push(norm_pkg(packages.deep_view()[i as int])));
                assert(npkgs.deep_view() =~= pm.subrange(0, i + 1));
            }
            i = i + 1;
        }
        let mut ndeps: Vec<Dependency> = Vec::new();
        let mut j: usize = 0;
        while j < dependencies.len()
            invariant
                j <= dependencies@.len(),
                dm == dependencies.deep_view().map_values(|d: DepModel| norm_dep(d)),
                ndeps.deep_view() =~= dm.subrange(0, j as int),
            decreases dependencies@.len() - j,
        {
            let ghost dv0 = ndeps.deep_view();
            let d = &dependencies[j];
            let version = match &d.version {
                Some(s) => Some(s.clone()),
                None => None,
            };
            let category = match &d.category {
                Some(s) => Some(s.clone()),
                None => None,
            };
            let nd = Dependency { id: normalize_id(&d.id), version, category };
            proof {
                assert(d@ == dependencies.deep_view()[j as int]);
                assert(nd@ =~= norm_dep(dependencies.deep_view()[j as int]));
            }
            ndeps.push(nd);
            proof {
                assert(ndeps.deep_view() =~= dv0.push(norm_dep(dependencies.deep_view()[j as int])));
                assert(ndeps.deep_view() =~= dm.subrange(0, j + 1));
            }
            j = j + 1;
        }
        let r = ProjectAnalysis { packages: npkgs, dependencies: ndeps, imports };
        proof {
            assert(pm.subrange(0, pm.len() as int) =~= pm);
            assert(dm.subrange(0, dm.len() as int) =~= dm);
            assert(r@ =~= norm_model(
                AnalysisModel {
                    packages: packages.deep_view(),
                    dependencies: dependencies.deep_view(),
                    imports: imports.deep_view(),
                },
            ));
        }
        r
    }

    /// The first package matching the find condition for this dependency.
    fn find_package(&self, d: &Dependency, hit: bool) -> (r: Option<usize>)
        ensures
            match r {
                Some(j) => {
                    &&& j < self@.packages.len()
                    &&& find_pkg(self@.packages, d@, self@.imports, hit) == Some(
                        self@.packages[j as int],
                    )
                },
                None => find_pkg(self@.packages, d@, self@.imports, hit) is None,
            },
    {
        let mut j: usize = 0;
        while j < self.packages.len()
            invariant
                j <= self.packages@.len(),
                forall|k: int| 0 <= k < j ==> !pkg_cond(
                    #[trigger] self@.packages[k],
                    d@,
                    self@.imports,
                    hit,
                ),
            decreases self.packages@.len() - j,
        {
            let p = &self.packages[j];
            proof {
                assert(p@ == self@.packages[j as int]);
            }
            let matches_id = p.id.eq(&d.id);
            let hits = package_hits(p, &self.imports);
            if matches_id && hits == hit {
                proof {
                    lemma_find_pkg_at(self@.packages, d@, self@.imports, hit, j as int);
                }
                return Some(j);
            }
            j = j + 1;
        }
        proof {
            lemma_find_pkg_none(self@.packages, d@, self@.imports, hit);
        }
        None
    }

    /// The used dependencies: declared, installed under the same id, and
    /// imported through one of the package's aliases.
    pub fn get_used(&self) -> (r: Vec<AnalysisElement>)
        ensures
            r.deep_view() == used_of(self@),
    {
        let mut out: Vec<AnalysisElement> = Vec::new();
        let mut i: usize = 0;
        while i < self.dependencies.len()
            invariant
                i <= self.dependencies@.len(),
                out.deep_view() =~= used_sub(self@, i as int),
            decreases self.dependencies@.len() - i,
        {
            let ghost dv0 = out.deep_view();
            let d = &self.dependencies[i];
            proof {
                assert(d@ == self@.dependencies[i as int]);
            }
            match self.find_package(d, true) {
                Some(j) => {
                    let e = AnalysisElement {
                        package: Some(copy_package(&self.packages[j])),
                        dependency: Some(copy_dependency(d)),
                    };
                    let ghost ev = e@;
                    out.push(e);
                    proof {
                        assert(out.deep_view() =~= dv0.push(ev));
                    }
                },
                None => {},
            }
            proof {
                assert(out.deep_view() =~= used_sub(self@, i + 1));
            }
            i = i + 1;
        }
        out
    }

    /// The unused dependencies: declared and installed under the same id,
    /// with no imported alias — unless the package is required by a used
    /// package (the transitive exemption) or the dependency is
    /// pseudo-provided by the interpreter.
    pub fn get_unused(&self) -> (r: Vec<AnalysisElement>)
        ensures
            r.deep_view() == unused_of(self@),
    {
        let used = self.get_used();
        // the requirements of every used package, as one list
        let mut reqs: Vec<String> = Vec::new();
        let mut a: usize = 0;
        while a < used.len()
            invariant
                a <= used@.len(),
                used.deep_view() == used_of(self@),
                forall|x: Seq<char>| #[trigger] reqs.deep_view().contains(x) == exists|b: int|
                    0 <= b < a && elem_has_req(used.deep_view()[b], x),
            decreases used@.len() - a,
        {
            match &used[a].package {
                Some(p) => {
                    let mut c: usize = 0;
                    while c < p.requirements.len()
                        invariant
                            c <= p.requirements@.len(),
                            used.deep_view() == used_of(self@),
                            a < used@.len(),
                            used@[a as int].package is Some,
                            p == used@[a as int].package->0,
                            forall|x: Seq<char>| #[trigger] reqs.deep_view().contains(x) == (
                            (exists|b: int|
                                0 <= b < a && elem_has_req(used.deep_view()[b], x)) || (
                            exists|t: int| 0 <= t < c && p@.requirements[t] == x)),
                        decreases p.requirements@.len() - c,
                    {
                        let ghost rdv = reqs.deep_view();
                        reqs.push(p.requirements[c].clone());
                        proof {
                            assert(reqs.deep_view() =~= rdv.push(p@.requirements[c as int]));
                            assert forall|x: Seq<char>| #[trigger] reqs.deep_view().contains(x)
                                implies ((exists|b: int|
                                0 <= b < a && elem_has_req(used.deep_view()[b], x)) || (
                            exists|t: int| 0 <= t < c + 1 && p@.requirements[t] == x)) by {
                                if x != p@.requirements[c as int] {
                                    assert(rdv.contains(x));
                                }
                            }
                            assert forall|x: Seq<char>|
                                ((exists|b: int|
                                    0 <= b < a && elem_has_req(used.deep_view()[b], x)) || (
                                exists|t: int| 0 <= t < c + 1 && p@.requirements[t] == x))
                                implies #[trigger] reqs.deep_view().contains(x) by {
                                if exists|t: int| 0 <= t < c + 1 && p@.requirements[t] == x {
                                    let t = choose|t: int|
                                        0 <= t < c + 1 && p@.requirements[t] == x;
                                    if t < c {
                                        assert(rdv.contains(x));
                                        let w = choose|w: int|
                                            0 <= w < rdv.len() && rdv[w] == x;
                                        assert(reqs.deep_view()[w] == x);
                                    } else {
                                        assert(reqs.deep_view()[rdv.len() as int] == x);
                                    }
                                } else {
                                    assert(rdv.contains(x));
                                    let w = choose|w: int| 0 <= w < rdv.len() && rdv[w] == x;
                                    assert(reqs.deep_view()[w] == x);
                                }
                            }
                        }
                        c = c + 1;
                    }
                    proof {
                        assert(used.deep_view()[a as int].package->0 == p@);
                        assert forall|x: Seq<char>| #[trigger] reqs.deep_view().contains(x)
                            == exists|b: int|
                            0 <= b < a + 1 && elem_has_req(used.deep_view()[b], x) by {
                            if reqs.deep_view().contains(x) {
                                if !(exists|b: int|
                                    0 <= b < a && elem_has_req(used.deep_view()[b], x)) {
                                    assert(elem_has_req(used.deep_view()[a as int], x));
                                }
                            } else {
                                if exists|b: int|
                                    0 <= b < a + 1 && elem_has_req(used.deep_view()[b], x) {
                                    let b = choose|b: int|
                                        0 <= b < a + 1 && elem_has_req(used.deep_view()[b], x);
                                    if b == a {
                                        assert(p@.requirements.contains(x));
                                        let t = choose|t: int|
                                            0 <= t < p@.requirements.len() && p@.requirements[t]
                                                == x;
                                        assert(0 <= t < p.requirements@.len()
                                            && p@.requirements[t] == x);
                                    }
                                }
                            }
                        }
                    }
                },
                None => {
                    proof {
                        assert forall|x: Seq<char>| #[trigger] reqs.deep_view().contains(x)
                            == exists|b: int|
                            0 <= b < a + 1 && elem_has_req(used.deep_view()[b], x) by {
                            if exists|b: int|
                                0 <= b < a + 1 && elem_has_req(used.deep_view()[b], x) {
                                let b = choose|b: int|
                                    0 <= b < a + 1 && elem_has_req(used.deep_view()[b], x);
                                assert(b < a);
                            }
                        }
                    }
                },
            }
            a = a + 1;
        }
        proof {
            assert forall|x: Seq<char>| #[trigger] reqs.deep_view().contains(x)
                == used_requirement(self@, x) by {}
        }
        let mut out: Vec<AnalysisElement> = Vec::new();
        let mut i: usize = 0;
        while i < self.dependencies.len()
            invariant
                i <= self.dependencies@.len(),
                forall|x: Seq<char>| #[trigger] reqs.deep_view().contains(x) == used_requirement(
                    self@,
                    x,
                ),
                out.deep_view() =~= unused_sub(self@, i as int),
            decreases self.dependencies@.len() - i,
        {
            let ghost dv0 = out.deep_view();
            let d = &self.dependencies[i];
            proof {
                assert(d@ == self@.dependencies[i as int]);
            }
            match self.find_package(d, false) {
                Some(j) => {
                    let p = &self.packages[j];
                    proof {
                        assert(p@ == self@.packages[j as int]);
                    }
                    let exempt = contains_string(&reqs, &p.id);
                    let pseudo = is_pseudo_id(&d.id);
                    if !exempt && !pseudo {
                        let e = AnalysisElement {
                            package: Some(copy_package(p)),
                            dependency: Some(copy_dependency(d)),
                        };
                        let ghost ev = e@;
                        out.push(e);
                        proof {
                            assert(out.deep_view() =~= dv0.push(ev));
                        }
                    }
                },
                None => {},
            }
            proof {
                assert(out.deep_view() =~= unused_sub(self@, i + 1));
            }
            i = i + 1;
        }
        out
    }

    /// Whether any declared dependency carries the package's id.
    fn is_declared(&self, p: &Package) -> (r: bool)
        ensures
            r == has_dep_with_id(self@.dependencies, p@.id),
    {
        let mut i: usize = 0;
        while i < self.dependencies.len()
            invariant
                i <= self.dependencies@.len(),
                forall|k: int| 0 <= k < i ==> #[trigger] self@.dependencies[k].id != p@.id,
            decreases self.dependencies@.len() - i,
        {
            if self.dependencies[i].id.eq(&p.id) {
                proof {
                    assert(self@.dependencies[i as int].id == p@.id);
                }
                return true;
            }
            i = i + 1;
        }
        false
    }

    /// Whether any installed package carries the dependency's id.
    fn is_installed(&self, d: &Dependency) -> (r: bool)
        ensures
            r == has_pkg_with_id(self@.packages, d@.id),
    {
        let mut i: usize = 0;
        while i < self.packages.len()
            invariant
                i <= self.packages@.len(),
                forall|k: int| 0 <= k < i ==> #[trigger] self@.packages[k].id != d@.id,
            decreases self.packages@.len() - i,
        {
            if self.packages[i].id.eq(&d.id) {
                proof {
                    assert(self@.packages[i as int].id == d@.id);
                }
                return true;
            }
            i = i + 1;
        }
        false
    }

    /// The untracked packages: installed and imported through an alias, but
    /// declared by no dependency.
    pub fn get_untracked(&self) -> (r: Vec<AnalysisElement>)
        ensures
            r.deep_view() == untracked_of(self@),
    {
        let mut out: Vec<AnalysisElement> = Vec::new();
        let mut i: usize = 0;
        while i < self.packages.len()
            invariant
                i <= self.packages@.len(),
                out.deep_view() =~= untracked_sub(self@, i as int),
            decreases self.packages@.len() - i,
        {
            let ghost dv0 = out.deep_view();
            let p = &self.packages[i];
            proof {
                assert(p@ == self@.packages[i as int]);
            }
            if package_hits(p, &self.imports) && !self.is_declared(p) {
                let e = AnalysisElement { package: Some(copy_package(p)), dependency: None };
                let ghost ev = e@;
                out.push(e);
                proof {
                    assert(out.deep_view() =~= dv0.push(ev));
                }
            }
            proof {
                assert(out.deep_view() =~= untracked_sub(self@, i + 1));
            }
            i = i + 1;
        }
        out
    }

    /// The uninstalled dependencies: declared and imported by their own
    /// (normalized) id, but installed under no package.
    pub fn get_uninstalled(&self) -> (r: Vec<AnalysisElement>)
        ensures
            r.deep_view() == uninstalled_of(self@),
    {
        let mut out: Vec<AnalysisElement> = Vec::new();
        let mut i: usize = 0;
        while i < self.dependencies.len()
            invariant
                i <= self.dependencies@.len(),
                out.deep_view() =~= uninstalled_sub(self@, i as int),
            decreases self.dependencies@.len() - i,
        {
            let ghost dv0 = out.deep_view();
            let d = &self.dependencies[i];
            proof {
                assert(d@ == self@.dependencies[i as int]);
            }
            if !self.is_installed(d) && contains_string(&self.imports, &d.id) && !is_pseudo_id(
                &d.id,
            ) {
                let e = AnalysisElement { package: None, dependency: Some(copy_dependency(d)) };
                let ghost ev = e@;
                out.push(e);
                proof {
                    assert(out.deep_view() =~= dv0.push(ev));
                }
            }
            proof {
                assert(out.deep_view() =~= uninstalled_sub(self@, i + 1));
            }
            i = i + 1;
        }
        out
    }

    /// The classification the configuration asks for.
    pub fn scan(&self, config: &Config) -> (r: Vec<AnalysisElement>)
        ensures
            config.package_state is Used ==> r.deep_view() == used_of(self@),
            config.package_state is Unused ==> r.deep_view() == unused_of(self@),
            config.package_state is Untracked ==> r.deep_view() == untracked_of(self@),
            config.package_state is Uninstalled ==> r.deep_view() == uninstalled_of(self@),
    {
        match config.package_state {
            PackageState::Used => self.get_used(),
            PackageState::Unused => self.get_unused(),
            PackageState::Untracked => self.get_untracked(),
            PackageState::Uninstalled => self.get_uninstalled(),
        }
    }
}

} // verus!

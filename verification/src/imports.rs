//! Source imports: stemming of dotted module paths and the deduplicated
//! collection of top-level module names.
//!
//! `import a.b.c` contributes `a`; `from a.b import x` contributes `a`; a
//! relative `from . import x` contributes nothing. Parsing the source is an
//! external concern; the scanner hands the library one import statement per
//! `import`/`from` found, already split out of the syntax tree.

use vstd::prelude::*;
use crate::text::{
    chars_vec, string_from_chars, first_ix, lemma_first_ix, subvec, contains_string,
    clone_strings,
};

verus! {

/// The leading part of a dotted module path.
pub open spec fn stem_of(s: Seq<char>) -> Seq<char> {
    let i = first_ix(s, '.');
    if i < 0 {
        s
    } else {
        s.subrange(0, i)
    }
}

/// Extract the first part of an import statement, e.g. `os.path` -> `os`.
pub fn stem_import(import: &str) -> (r: String)
    ensures
        r@ == stem_of(import@),
{
    let v = chars_vec(import);
    proof {
        lemma_first_ix(v@, '.');
    }
    let mut j: usize = 0;
    while j < v.len() && v[j] != '.'
        invariant
            j <= v@.len(),
            forall|k: int| 0 <= k < j ==> v@[k] != '.',
        decreases v@.len() - j,
    {
        j = j + 1;
    }
    proof {
        if j < v@.len() {
            assert(first_ix(v@, '.') == j);
        } else {
            assert(first_ix(v@, '.') == -1);
        }
    }
    let stem = subvec(&v, 0, j);
    proof {
        if j == v@.len() {
            assert(stem@ =~= v@);
        }
    }
    string_from_chars(&stem)
}

/// One import statement of a source file: a plain `import` with its dotted
/// names, or a `from ... import` with its module — `None` for a relative
/// `from . import`.
#[derive(Debug, Clone, PartialEq, Eq)]
pub enum ImportStmt {
    Import(Vec<String>),
    ImportFrom(Option<String>),
}

/// The stems one statement contributes.
pub open spec fn stmt_stems(s: ImportStmt) -> Seq<Seq<char>> {
    match s {
        ImportStmt::Import(names) => names.deep_view().map_values(|n: Seq<char>| stem_of(n)),
        ImportStmt::ImportFrom(m) => match m {
            Some(x) => seq![stem_of(x@)],
            None => Seq::empty(),
        },
    }
}

/// `acc` extended with the first `n` items, skipping those already present.
pub open spec fn add_distinct(acc: Seq<Seq<char>>, items: Seq<Seq<char>>, n: int) -> Seq<
    Seq<char>,
>
    decreases n,
{
    if n <= 0 {
        acc
    } else {
        let prev = add_distinct(acc, items, n - 1);
        if prev.contains(items[n - 1]) {
            prev
        } else {
            prev.push(items[n - 1])
        }
    }
}

/// The distinct stems of the first `n` statements, in order of first
/// appearance.
pub open spec fn imports_sub(stmts: Seq<ImportStmt>, n: int) -> Seq<Seq<char>>
    decreases n,
{
    if n <= 0 {
        Seq::empty()
    } else {
        let prev = imports_sub(stmts, n - 1);
        add_distinct(prev, stmt_stems(stmts[n - 1]), stmt_stems(stmts[n - 1]).len() as int)
    }
}

/// The distinct stems of all the statements.
pub open spec fn imports_of(stmts: Seq<ImportStmt>) -> Seq<Seq<char>> {
    imports_sub(stmts, stmts.len() as int)
}

/// No value occurs twice.
pub open spec fn no_dups(ss: Seq<Seq<char>>) -> bool {
    forall|i: int, j: int| 0 <= i < j < ss.len() ==> ss[i] != ss[j]
}

/// What lands in the accumulator: exactly what was there or among the items
/// taken — so the collected set does not depend on the order items arrive.
pub proof fn lemma_add_distinct_membership(
    acc: Seq<Seq<char>>,
    items: Seq<Seq<char>>,
    n: int,
    x: Seq<char>,
)
    requires
        n <= items.len(),
    ensures
        add_distinct(acc, items, n).contains(x) <==> (acc.contains(x) || exists|k: int|
            0 <= k < n && items[k] == x),
    decreases n,
{
    if n > 0 {
        lemma_add_distinct_membership(acc, items, n - 1, x);
        let prev = add_distinct(acc, items, n - 1);
        if !prev.contains(items[n - 1]) {
            let cur = prev.push(items[n - 1]);
            assert forall|y: Seq<char>| cur.contains(y) implies (prev.contains(y) || y == items[n
                - 1]) by {
                let w = choose|w: int| 0 <= w < cur.len() && cur[w] == y;
                if w < prev.len() {
                    assert(prev[w] == y);
                }
            }
            assert forall|y: Seq<char>| prev.contains(y) implies cur.contains(y) by {
                let w = choose|w: int| 0 <= w < prev.len() && prev[w] == y;
                assert(cur[w] == y);
            }
            assert(cur[prev.len() as int] == items[n - 1]);
        }
    }
}

/// Adding distinct items preserves distinctness.
pub proof fn lemma_add_distinct_no_dups(acc: Seq<Seq<char>>, items: Seq<Seq<char>>, n: int)
    requires
        n <= items.len(),
        no_dups(acc),
    ensures
        no_dups(add_distinct(acc, items, n)),
    decreases n,
{
    if n > 0 {
        lemma_add_distinct_no_dups(acc, items, n - 1);
        let prev = add_distinct(acc, items, n - 1);
        if !prev.contains(items[n - 1]) {
            let cur = prev.push(items[n - 1]);
            assert forall|i: int, j: int| 0 <= i < j < cur.len() implies cur[i] != cur[j] by {
                if j == prev.len() {
                    if cur[i] == cur[j] {
                        assert(prev[i] == items[n - 1]);
                        assert(prev.contains(items[n - 1]));
                    }
                }
            }
        }
    }
}

/// A module name is collected exactly when some statement contributes it:
/// the set of imports does not depend on the order the statements arrive.
pub proof fn lemma_imports_membership(stmts: Seq<ImportStmt>, n: int, x: Seq<char>)
    requires
        n <= stmts.len(),
    ensures
        imports_sub(stmts, n).contains(x) <==> exists|k: int|
            0 <= k < n && stmt_stems(#[trigger] stmts[k]).contains(x),
    decreases n,
{
    if n > 0 {
        lemma_imports_membership(stmts, n - 1, x);
        let prev = imports_sub(stmts, n - 1);
        let stems = stmt_stems(stmts[n - 1]);
        lemma_add_distinct_membership(prev, stems, stems.len() as int, x);
    }
}

/// The collected imports hold each module name once.
pub proof fn lemma_imports_no_dups(stmts: Seq<ImportStmt>, n: int)
    requires
        n <= stmts.len(),
    ensures
        no_dups(imports_sub(stmts, n)),
    decreases n,
{
    if n <= 0 {
        assert(no_dups(Seq::<Seq<char>>::empty()));
    } else {
        lemma_imports_no_dups(stmts, n - 1);
        let prev = imports_sub(stmts, n - 1);
        let stems = stmt_stems(stmts[n - 1]);
        lemma_add_distinct_no_dups(prev, stems, stems.len() as int);
    }
}

/// Collects the distinct top-level module names the statements import.
pub fn collect_imports(stmts: &Vec<ImportStmt>) -> (r: Vec<String>)
    ensures
        r.deep_view() == imports_of(stmts@),
{
    let mut out: Vec<String> = Vec::new();
    let mut i: usize = 0;
    while i < stmts.len()
        invariant
            i <= stmts@.len(),
            out.deep_view() =~= imports_sub(stmts@, i as int),
        decreases stmts@.len() - i,
    {
        let ghost prev = out.deep_view();
        let ghost stems = stmt_stems(stmts@[i as int]);
        match &stmts[i] {
            ImportStmt::Import(names) => {
                let mut c: usize = 0;
                while c < names.len()
                    invariant
                        c <= names@.len(),
                        stems == names.deep_view().map_values(|n: Seq<char>| stem_of(n)),
                        out.deep_view() =~= add_distinct(prev, stems, c as int),
                    decreases names@.len() - c,
                {
                    let ghost dv0 = out.deep_view();
                    let stem = stem_import(names[c].as_str());
                    proof {
                        assert(names[c as int]@ == names.deep_view()[c as int]);
                        assert(stem@ == stems[c as int]);
                    }
                    if !contains_string(&out, &stem) {
                        let ghost sv = stem@;
                        out.push(stem);
                        proof {
                            assert(out.deep_view() =~= dv0.push(sv));
                        }
                    }
                    proof {
                        assert(out.deep_view() =~= add_distinct(prev, stems, c + 1));
                    }
                    c = c + 1;
                }
                proof {
                    assert(out.deep_view() =~= add_distinct(prev, stems, stems.len() as int));
                }
            },
            ImportStmt::ImportFrom(m) => {
                match m {
                    Some(x) => {
                        let ghost dv0 = out.deep_view();
                        let stem = stem_import(x.as_str());
                        proof {
                            assert(stem@ == stems[0]);
                        }
                        if !contains_string(&out, &stem) {
                            let ghost sv = stem@;
                            out.push(stem);
                            proof {
                                assert(out.deep_view() =~= dv0.push(sv));
                            }
                        }
                        proof {
                            assert(add_distinct(prev, stems, 0) == prev);
                            assert(out.deep_view() =~= add_distinct(prev, stems, 1));
                        }
                    },
                    None => {
                        proof {
                            assert(out.deep_view() =~= add_distinct(
                                prev,
                                stems,
                                stems.len() as int,
                            ));
                        }
                    },
                }
            },
        }
        proof {
            assert(out.deep_view() =~= imports_sub(stmts@, i + 1));
        }
        i = i + 1;
    }
    out
}

/// Merges one file's imports into the running union, keeping each name
/// once. The union is commutative as a set: what lands in it does not
/// depend on the merge order.
pub fn merge_imports(acc: &Vec<String>, more: &Vec<String>) -> (r: Vec<String>)
    ensures
        r.deep_view() == add_distinct(acc.deep_view(), more.deep_view(), more.deep_view().len() as int),
{
    let mut out = clone_strings(acc);
    let mut i: usize = 0;
    while i < more.len()
        invariant
            i <= more@.len(),
            out.deep_view() =~= add_distinct(acc.deep_view(), more.deep_view(), i as int),
        decreases more@.len() - i,
    {
        let ghost dv0 = out.deep_view();
        let s = more[i].clone();
        if !contains_string(&out, &s) {
            let ghost sv = s@;
            out.push(s);
            proof {
                assert(out.deep_view() =~= dv0.push(sv));
            }
        }
        proof {
            assert(out.deep_view() =~= add_distinct(acc.deep_view(), more.deep_view(), i + 1));
        }
        i = i + 1;
    }
    out
}

} // verus!

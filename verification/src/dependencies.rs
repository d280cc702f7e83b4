//! Declared dependencies: the entity, its builder, and the extraction of
//! declarations from the project manifest.
//!
//! The manifest parses into a generic table/scalar tree, which a depth-first
//! walk searches for dependency tables: any table whose joined dotted path
//! ends with `dependencies`, however it is named or nested. Every direct
//! child of such a table is a declaration.

use vstd::prelude::*;
use crate::cli::DepType;
use crate::exit_codes::AuditError;
use crate::text::{
    chars_vec, string_from_chars, clone_strings, join_char, join_chars, ends_with,
    ends_with_chars, lines_of, lines_chars, first_sub_ix, lemma_first_sub_ix, find_sub, subvec,
};

verus! {

/// The mathematical model of a [`Dependency`].
#[verifier::ext_equal]
pub ghost struct DepModel {
    pub id: Seq<char>,
    pub version: Option<Seq<char>>,
    pub category: Option<Seq<char>>,
}

/// A dependency declared in the manifest: its identifier, the declared
/// version if one was given, and the dotted path of the table that declared
/// it.
#[derive(Debug, Clone, PartialEq, Eq)]
pub struct Dependency {
    pub id: String,
    pub version: Option<String>,
    pub category: Option<String>,
}

impl View for Dependency {
    type V = DepModel;

    open spec fn view(&self) -> DepModel {
        DepModel {
            id: self.id@,
            version: self.version.deep_view(),
            category: self.category.deep_view(),
        }
    }
}

impl DeepView for Dependency {
    type V = DepModel;

    open spec fn deep_view(&self) -> DepModel {
        self.view()
    }
}

impl Dependency {
    pub fn id(&self) -> (r: &str)
        ensures
            r@ == self@.id,
    {
        self.id.as_str()
    }

    pub fn version(&self) -> (r: Option<&String>)
        ensures
            match r {
                Some(s) => self@.version == Some(s@),
                None => self@.version is None,
            },
    {
        self.version.as_ref()
    }

    pub fn category(&self) -> (r: Option<&String>)
        ensures
            match r {
                Some(s) => self@.category == Some(s@),
                None => self@.category is None,
            },
    {
        self.category.as_ref()
    }
}

pub struct DependencyBuilder {
    pub id: String,
    pub version: Option<String>,
    pub category: Option<String>,
}

impl DependencyBuilder {
    pub fn new(id: String) -> (r: Self)
        ensures
            r.id@ == id@,
            r.version is None,
            r.category is None,
    {
        Self { id, version: None, category: None }
    }

    pub fn version(self, version: String) -> (r: Self)
        ensures
            r.id == self.id,
            r.version == Some(version),
            r.category == self.category,
    {
        Self { version: Some(version), ..self }
    }

    pub fn category(self, category: String) -> (r: Self)
        ensures
            r.id == self.id,
            r.version == self.version,
            r.category == Some(category),
    {
        Self { category: Some(category), ..self }
    }

    pub fn build(self) -> (r: Dependency)
        ensures
            r@.id == self.id@,
            r@.version == self.version.deep_view(),
            r@.category == self.category.deep_view(),
    {
        Dependency { id: self.id, version: self.version, category: self.category }
    }
}

/// The manifest as a generic tree: what the extraction reads of it is the
/// string values and the nesting of tables; every other value is opaque.
pub enum ManifestValue {
    Text(String),
    Table(Vec<(String, ManifestValue)>),
    Other,
}

#[verifier::external_type_specification]
#[verifier::external_body]
pub struct ExTomlValue(toml::Value);

/// What parsing the text as a TOML document yields: `None` when the text is
/// not valid TOML. The TOML grammar takes pages to state, so the result is
/// named, not spelled out; it depends on the text alone.
pub uninterp spec fn parsed_toml_of(s: Seq<char>) -> Option<toml::Value>;

/// Relies on toml::from_str for `Value`: whether a document parses, and the
/// value that results, depend on the text alone.
#[verifier::external_body]
fn parse_toml(text: &str) -> (r: Option<toml::Value>)
    ensures
        r == parsed_toml_of(text@),
{
    toml::from_str::<toml::Value>(text).ok()
}

/// What a parsed TOML value holds, in the library's own manifest model:
/// strings as text, tables as key/value entries, everything else opaque.
/// The value is an outside type Verus cannot look into, so its contents are
/// named; they depend on the value alone.
pub uninterp spec fn manifest_value_of(v: toml::Value) -> ManifestValue;

/// Relies on toml::Value's variants: each maps to one variant of the
/// library's manifest tree, field for field, so the result depends on the
/// value alone.
#[verifier::external_body]
fn manifest_value(v: &toml::Value) -> (r: ManifestValue)
    ensures
        r == manifest_value_of(*v),
{
    match v {
        toml::Value::String(s) => ManifestValue::Text(s.clone()),
        toml::Value::Table(t) => ManifestValue::Table(
            t.iter().map(|(k, c)| (k.clone(), manifest_value(c))).collect(),
        ),
        _ => ManifestValue::Other,
    }
}

/// A path of table keys names dependency declarations exactly when its
/// joined dotted form ends with `dependencies`.
pub open spec fn is_dep_path(path: Seq<Seq<char>>) -> bool {
    ends_with(join_char(path, '.'), "dependencies"@)
}

/// The string under the first `version` key of a declaration table, if the
/// key is there and holds a string.
pub open spec fn version_in(entries: Seq<(String, ManifestValue)>) -> Option<Seq<char>>
    decreases entries.len(),
{
    if entries.len() == 0 {
        None
    } else if entries[0].0@ == "version"@ {
        match entries[0].1 {
            ManifestValue::Text(s) => Some(s@),
            _ => None,
        }
    } else {
        version_in(entries.drop_first())
    }
}

/// The declarations one direct child of a dependency table yields: a string
/// value is a version, a table declares with its `version` entry if present,
/// anything else declares nothing.
pub open spec fn dep_entry(e: (String, ManifestValue), cat: Seq<char>) -> Seq<DepModel> {
    match e.1 {
        ManifestValue::Text(s) => seq![
            DepModel { id: e.0@, version: Some(s@), category: Some(cat) },
        ],
        ManifestValue::Table(tentries) => seq![
            DepModel { id: e.0@, version: version_in(tentries@), category: Some(cat) },
        ],
        ManifestValue::Other => Seq::empty(),
    }
}

/// The declarations of the first `n` children of a dependency table.
pub open spec fn dep_table_deps(
    entries: Seq<(String, ManifestValue)>,
    cat: Seq<char>,
    n: int,
) -> Seq<DepModel>
    decreases n,
{
    if n <= 0 {
        Seq::empty()
    } else {
        dep_table_deps(entries, cat, n - 1) + dep_entry(entries[n - 1], cat)
    }
}

/// The declarations found under a manifest value reached along `path`.
pub open spec fn deps_of_value(v: ManifestValue, path: Seq<Seq<char>>) -> Seq<DepModel>
    decreases v, 1int, 0int,
{
    match v {
        ManifestValue::Table(entries) => if is_dep_path(path) {
            dep_table_deps(entries@, join_char(path, '.'), entries@.len() as int)
        } else {
            child_deps(entries@, path, entries@.len() as int)
        },
        _ => Seq::empty(),
    }
}

/// The declarations found under the first `n` children of a table that is
/// not itself a dependency table: only child tables are entered, with the
/// path extended by their key.
pub open spec fn child_deps(
    entries: Seq<(String, ManifestValue)>,
    path: Seq<Seq<char>>,
    n: int,
) -> Seq<DepModel>
    decreases entries, 0int, n,
{
    if n <= 0 || n > entries.len() {
        Seq::empty()
    } else {
        let e = entries[n - 1];
        child_deps(entries, path, n - 1) + (match e.1 {
            ManifestValue::Table(_) => deps_of_value(e.1, path.push(e.0@)),
            _ => Seq::empty(),
        })
    }
}

/// The declarations of the whole manifest text, when it parses.
pub open spec fn manifest_deps_of(s: Seq<char>) -> Seq<DepModel> {
    deps_of_value(manifest_value_of(parsed_toml_of(s)->0), Seq::empty())
}

proof fn lemma_version_in_skip(entries: Seq<(String, ManifestValue)>, i: int)
    requires
        0 <= i <= entries.len(),
        forall|k: int| 0 <= k < i ==> #[trigger] entries[k].0@ != "version"@,
    ensures
        version_in(entries) == version_in(entries.subrange(i, entries.len() as int)),
    decreases i,
{
    if i > 0 {
        lemma_version_in_skip(entries.drop_first(), i - 1);
        assert(entries.drop_first().subrange(i - 1, entries.drop_first().len() as int)
            =~= entries.subrange(i, entries.len() as int));
    } else {
        assert(entries.subrange(0, entries.len() as int) =~= entries);
    }
}

/// The `version` entry of a declaration table, executed.
fn find_version(entries: &Vec<(String, ManifestValue)>) -> (r: Option<String>)
    ensures
        r.deep_view() == version_in(entries@),
{
    let vkey = string_from_chars(&chars_vec("version"));
    let mut i: usize = 0;
    while i < entries.len()
        invariant
            i <= entries@.len(),
            vkey@ == "version"@,
            forall|k: int| 0 <= k < i ==> #[trigger] entries@[k].0@ != "version"@,
        decreases entries@.len() - i,
    {
        let e = &entries[i];
        if e.0.eq(&vkey) {
            proof {
                lemma_version_in_skip(entries@, i as int);
                let tail = entries@.subrange(i as int, entries@.len() as int);
                assert(tail[0] == entries@[i as int]);
            }
            match &e.1 {
                ManifestValue::Text(s) => {
                    return Some(s.clone());
                },
                _ => {
                    return None;
                },
            }
        }
        i = i + 1;
    }
    proof {
        lemma_version_in_skip(entries@, entries@.len() as int);
        assert(entries@.subrange(entries@.len() as int, entries@.len() as int)
            =~= Seq::<(String, ManifestValue)>::empty());
    }
    None
}

/// Walks one manifest value, appending every declaration found under it.
fn walk_value(v: &ManifestValue, path: &Vec<String>, out: &mut Vec<Dependency>)
    ensures
        final(out).deep_view() == old(out).deep_view() + deps_of_value(*v, path.deep_view()),
    decreases *v,
{
    match v {
        ManifestValue::Table(entries) => {
            let joined = join_chars(&strings_to_charvecs(path), '.');
            let dep_suffix = chars_vec("dependencies");
            if ends_with_chars(&joined, &dep_suffix) {
                let cat = string_from_chars(&joined);
                let ghost catv = join_char(path.deep_view(), '.');
                let mut i: usize = 0;
                while i < entries.len()
                    invariant
                        i <= entries@.len(),
                        cat@ == catv,
                        out.deep_view() =~= old(out).deep_view() + dep_table_deps(
                            entries@,
                            catv,
                            i as int,
                        ),
                    decreases entries@.len() - i,
                {
                    let ghost dv0 = out.deep_view();
                    let e = &entries[i];
                    proof {
                        assert(*e == entries@[i as int]);
                    }
                    match &e.1 {
                        ManifestValue::Text(s) => {
                            out.push(
                                Dependency {
                                    id: e.0.clone(),
                                    version: Some(s.clone()),
                                    category: Some(cat.clone()),
                                },
                            );
                        },
                        ManifestValue::Table(tentries) => {
                            let ver = find_version(tentries);
                            out.push(
                                Dependency {
                                    id: e.0.clone(),
                                    version: ver,
                                    category: Some(cat.clone()),
                                },
                            );
                        },
                        ManifestValue::Other => {},
                    }
                    proof {
                        assert(out.deep_view() =~= dv0 + dep_entry(entries@[i as int], catv));
                        assert(out.deep_view() =~= old(out).deep_view() + dep_table_deps(
                            entries@,
                            catv,
                            i + 1,
                        ));
                    }
                    i = i + 1;
                }
                proof {
                    assert(deps_of_value(*v, path.deep_view()) == dep_table_deps(
                        entries@,
                        catv,
                        entries@.len() as int,
                    ));
                }
            } else {
                let mut i: usize = 0;
                while i < entries.len()
                    invariant
                        i <= entries@.len(),
                        *v == ManifestValue::Table(*entries),
                        !is_dep_path(path.deep_view()),
                        out.deep_view() =~= old(out).deep_view() + child_deps(
                            entries@,
                            path.deep_view(),
                            i as int,
                        ),
                    decreases entries@.len() - i,
                {
                    let ghost dv0 = out.deep_view();
                    let e = &entries[i];
                    proof {
                        assert(*e == entries@[i as int]);
                    }
                    match &e.1 {
                        ManifestValue::Table(_) => {
                            let mut p2 = clone_strings(path);
                            p2.push(e.0.clone());
                            proof {
                                assert(p2.deep_view() =~= path.deep_view().push(e.0@));
                                let ghost gv = *v;
                                let ghost ge = entries@[i as int];
                                assert(gv is Table);
                                assert(decreases_to!(gv => gv->Table_0));
                                assert(decreases_to!(gv->Table_0 => gv->Table_0@));
                                assert(gv->Table_0@ == entries@);
                                assert(decreases_to!(entries@ => ge));
                                assert(decreases_to!(ge => ge.1));
                            }
                            walk_value(&e.1, &p2, out);
                        },
                        _ => {},
                    }
                    proof {
                        assert(out.deep_view() =~= old(out).deep_view() + child_deps(
                            entries@,
                            path.deep_view(),
                            i + 1,
                        ));
                    }
                    i = i + 1;
                }
            }
        },
        _ => {
            proof {
                assert(out.deep_view() =~= old(out).deep_view() + deps_of_value(
                    *v,
                    path.deep_view(),
                ));
            }
        },
    }
}

/// The character vectors of the strings.
fn strings_to_charvecs(v: &Vec<String>) -> (r: Vec<Vec<char>>)
    ensures
        r.deep_view() == v.deep_view(),
{
    let mut out: Vec<Vec<char>> = Vec::new();
    let mut i: usize = 0;
    while i < v.len()
        invariant
            i <= v@.len(),
            out.deep_view() =~= v.deep_view().subrange(0, i as int),
        decreases v@.len() - i,
    {
        let ghost dv0 = out.deep_view();
        let piece = chars_vec(v[i].as_str());
        let ghost pv = piece@;
        proof {
            assert(piece.deep_view() =~= pv);
        }
        out.push(piece);
        proof {
            assert(out.deep_view() =~= dv0.push(pv));
            assert(out.deep_view() =~= v.deep_view().subrange(0, i + 1));
        }
        i = i + 1;
    }
    proof {
        assert(v.deep_view().subrange(0, v.deep_view().len() as int) =~= v.deep_view());
    }
    out
}

/// The declaration a pinned line contributes: one `==` splits it into id and
/// version; a line with no `==`, or more than one, declares nothing.
pub open spec fn pip_dep_of_line(l: Seq<char>) -> Option<DepModel> {
    let i = first_sub_ix(l, "=="@);
    if i >= 0 && first_sub_ix(l.skip(i + 2), "=="@) < 0 {
        Some(
            DepModel { id: l.subrange(0, i), version: Some(l.skip(i + 2)), category: None },
        )
    } else {
        None
    }
}

/// The distinct declarations of the first `n` pinned lines.
pub open spec fn pip_deps(lines: Seq<Seq<char>>, n: int) -> Seq<DepModel>
    decreases n,
{
    if n <= 0 {
        Seq::empty()
    } else {
        let prev = pip_deps(lines, n - 1);
        match pip_dep_of_line(lines[n - 1]) {
            Some(d) => if prev.contains(d) {
                prev
            } else {
                prev.push(d)
            },
            None => prev,
        }
    }
}

/// The declarations of a whole pinned-line manifest text.
pub open spec fn pip_deps_of(s: Seq<char>) -> Seq<DepModel> {
    pip_deps(lines_of(s), lines_of(s).len() as int)
}

/// Whether the two options hold equal strings.
fn opt_string_eq(a: &Option<String>, b: &Option<String>) -> (r: bool)
    ensures
        r == (a.deep_view() == b.deep_view()),
{
    match (a, b) {
        (Some(x), Some(y)) => x.eq(y),
        (None, None) => true,
        _ => false,
    }
}

/// Whether the two dependencies are equal, field for field.
fn dep_eq(a: &Dependency, b: &Dependency) -> (r: bool)
    ensures
        r == (a@ == b@),
{
    let ids = a.id.eq(&b.id);
    let vers = opt_string_eq(&a.version, &b.version);
    let cats = opt_string_eq(&a.category, &b.category);
    proof {
        if ids && vers && cats {
            assert(a@ =~= b@);
        }
    }
    ids && vers && cats
}

/// Whether `v` holds a dependency equal to `d`.
fn contains_dep(v: &Vec<Dependency>, d: &Dependency) -> (r: bool)
    ensures
        r == v.deep_view().contains(d@),
{
    let mut i: usize = 0;
    while i < v.len()
        invariant
            i <= v@.len(),
            forall|k: int| 0 <= k < i ==> v.deep_view()[k] != d@,
        decreases v@.len() - i,
    {
        if dep_eq(&v[i], d) {
            proof {
                assert(v.deep_view()[i as int] == d@);
            }
            return true;
        }
        i = i + 1;
    }
    proof {
        if v.deep_view().contains(d@) {
            let k = choose|k: int| 0 <= k < v.deep_view().len() && v.deep_view()[k] == d@;
            assert(v.deep_view()[k] == d@);
        }
    }
    false
}

/// Reads the declarations out of a pinned-line manifest text: each line of
/// the form id, `==`, version.
pub fn get_pip_dependencies(text: &str) -> (r: Vec<Dependency>)
    ensures
        r.deep_view() == pip_deps_of(text@),
{
    let tv = chars_vec(text);
    let lines = lines_chars(&tv);
    let pat = chars_vec("==");
    proof {
        reveal_strlit("==");
    }
    let mut out: Vec<Dependency> = Vec::new();
    let mut i: usize = 0;
    while i < lines.len()
        invariant
            i <= lines@.len(),
            lines.deep_view() == lines_of(tv@),
            tv@ == text@,
            pat@ == "=="@,
            pat@.len() == 2,
            out.deep_view() =~= pip_deps(lines_of(tv@), i as int),
        decreases lines@.len() - i,
    {
        let ghost dv0 = out.deep_view();
        let line = &lines[i];
        proof {
            assert(line@ =~= lines.deep_view()[i as int]);
            assert(line@ == lines_of(tv@)[i as int]);
        }
        match find_sub(line, &pat) {
            Some(p) => {
                proof {
                    lemma_first_sub_ix(line@, pat@);
                }
                let llen = line.len();
                let rest = subvec(line, p + 2, llen);
                proof {
                    assert(rest@ =~= line@.skip(p + 2));
                }
                match find_sub(&rest, &pat) {
                    Some(_) => {},
                    None => {
                        let dep = Dependency {
                            id: string_from_chars(&subvec(line, 0, p)),
                            version: Some(string_from_chars(&rest)),
                            category: None,
                        };
                        proof {
                            assert(pip_dep_of_line(line@) == Some(dep@));
                        }
                        if !contains_dep(&out, &dep) {
                            let ghost dm = dep@;
                            out.push(dep);
                            proof {
                                assert(out.deep_view() =~= dv0.push(dm));
                            }
                        }
                    },
                }
            },
            None => {},
        }
        proof {
            assert(out.deep_view() =~= pip_deps(lines_of(tv@), i + 1));
        }
        i = i + 1;
    }
    out
}

/// Reads the manifest's declarations, in the format the configuration names.
/// Only a structured manifest can fail to parse; that failure is fatal.
pub fn get_dependencies(dep_type: &DepType, text: &str) -> (r: Result<
    Vec<Dependency>,
    AuditError,
>)
    ensures
        dep_type is Pip ==> (r matches Ok(ds) && ds.deep_view() == pip_deps_of(text@)),
        dep_type is Poetry ==> {
            &&& r is Ok <==> parsed_toml_of(text@) is Some
            &&& (r matches Ok(ds) ==> ds.deep_view() == manifest_deps_of(text@))
            &&& (r matches Err(e) ==> e == AuditError::FatalConfiguration)
        },
{
    match dep_type {
        DepType::Pip => Ok(get_pip_dependencies(text)),
        DepType::Poetry => get_poetry_dependencies(text),
    }
}

/// Reads the declarations out of a structured manifest text. An unparseable
/// manifest is fatal: there is no basis to classify against.
pub fn get_poetry_dependencies(text: &str) -> (r: Result<Vec<Dependency>, AuditError>)
    ensures
        r is Ok <==> parsed_toml_of(text@) is Some,
        r matches Ok(ds) ==> ds.deep_view() == manifest_deps_of(text@),
        r matches Err(e) ==> e == AuditError::FatalConfiguration,
{
    match parse_toml(text) {
        None => Err(AuditError::FatalConfiguration),
        Some(v) => {
            let tree = manifest_value(&v);
            let mut out: Vec<Dependency> = Vec::new();
            let path: Vec<String> = Vec::new();
            proof {
                assert(out.deep_view() =~= Seq::<DepModel>::empty());
                assert(path.deep_view() =~= Seq::<Seq<char>>::empty());
            }
            walk_value(&tree, &path, &mut out);
            proof {
                assert(out.deep_view() =~= manifest_deps_of(text@));
            }
            Ok(out)
        },
    }
}

} // verus!

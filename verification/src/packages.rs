//! Installed packages: the entity, its builder, and the parsing of on-disk
//! package metadata into (id, aliases).
//!
//! Two metadata layouts are understood: the wheel style, a `Name:` header
//! file beside a file listing installed paths, and the legacy egg style, a
//! `Name:` header file beside a flat list of top-level module names.

use vstd::prelude::*;
use crate::text::{
    chars_vec, string_from_chars, lowercase, lower_of, dashes, dashes_of, lines_chars, lines_of,
    starts_with, starts_with_chars, split_char, split_chars, ends_with, ends_with_chars, subvec,
    first_ix, lemma_first_ix, match_at, contains_sub, trim_chars, trim_of, eq_chars,
    contains_string,
};

verus! {

/// The classification a package or dependency can fall under.
#[derive(Debug, Clone, Copy, PartialEq, Eq, Hash)]
pub enum PackageState {
    /// Installed, actively used in the project, and declared in the manifest.
    Used,
    /// Installed and declared in the manifest but not used in the project.
    Unused,
    /// Installed and actively used in the project but missing from the manifest.
    Untracked,
    /// Declared in the manifest and imported, but not installed.
    Uninstalled,
}

/// The mathematical model of a [`Package`].
#[verifier::ext_equal]
pub ghost struct PkgModel {
    pub id: Seq<char>,
    pub size: u64,
    pub aliases: Seq<Seq<char>>,
    pub requirements: Seq<Seq<char>>,
}

/// An installed distribution: its identifier, the top-level modules it
/// provides (aliases), its on-disk size, and the package ids its own
/// metadata requires.
#[derive(Debug, Clone, PartialEq, Eq)]
pub struct Package {
    pub id: String,
    pub size: u64,
    pub aliases: Vec<String>,
    pub requirements: Vec<String>,
}

impl View for Package {
    type V = PkgModel;

    open spec fn view(&self) -> PkgModel {
        PkgModel {
            id: self.id@,
            size: self.size,
            aliases: self.aliases.deep_view(),
            requirements: self.requirements.deep_view(),
        }
    }
}

impl DeepView for Package {
    type V = PkgModel;

    open spec fn deep_view(&self) -> PkgModel {
        self.view()
    }
}

impl Package {
    pub fn id(&self) -> (r: &str)
        ensures
            r@ == self@.id,
    {
        self.id.as_str()
    }

    pub fn aliases(&self) -> (r: &Vec<String>)
        ensures
            r.deep_view() == self@.aliases,
    {
        &self.aliases
    }

    pub fn size(&self) -> (r: u64)
        ensures
            r == self@.size,
    {
        self.size
    }

    pub fn requirements(&self) -> (r: &Vec<String>)
        ensures
            r.deep_view() == self@.requirements,
    {
        &self.requirements
    }
}

pub struct PackageBuilder {
    pub id: String,
    pub size: u64,
    pub aliases: Vec<String>,
    pub requirements: Vec<String>,
}

impl PackageBuilder {
    pub fn new(id: String, aliases: Vec<String>, size: u64) -> (r: Self)
        ensures
            r.id@ == id@,
            r.size == size,
            r.aliases.deep_view() == aliases.deep_view(),
            r.requirements.deep_view() =~= Seq::<Seq<char>>::empty(),
    {
        let requirements: Vec<String> = Vec::new();
        proof {
            assert(requirements.deep_view() =~= Seq::<Seq<char>>::empty());
        }
        Self { id, size, aliases, requirements }
    }

    pub fn size(self, size: u64) -> (r: Self)
        ensures
            r == (Self { size, ..self }),
    {
        Self { size, ..self }
    }

    pub fn aliases(self, aliases: Vec<String>) -> (r: Self)
        ensures
            r == (Self { aliases, ..self }),
    {
        Self { aliases, ..self }
    }

    pub fn requirements(self, requirements: Vec<String>) -> (r: Self)
        ensures
            r == (Self { requirements, ..self }),
    {
        Self { requirements, ..self }
    }

    /// Finishes the package; the identifier keeps its case but every
    /// underscore becomes a hyphen.
    pub fn build(self) -> (r: Package)
        ensures
            r@.id == dashes_of(self.id@),
            r@.size == self.size,
            r@.aliases == self.aliases.deep_view(),
            r@.requirements == self.requirements.deep_view(),
    {
        let idv = chars_vec(self.id.as_str());
        let dashed = dashes(&idv);
        Package {
            id: string_from_chars(&dashed),
            size: self.size,
            aliases: self.aliases,
            requirements: self.requirements,
        }
    }
}

/// A validated, non-empty set of environment package directories.
pub struct SitePackages {
    paths: Vec<String>,
}

impl View for SitePackages {
    type V = Seq<Seq<char>>;

    closed spec fn view(&self) -> Seq<Seq<char>> {
        self.paths.deep_view()
    }
}

impl SitePackages {
    /// Keeps the given directories; with none at all there is nothing to
    /// index, which is fatal.
    pub fn new(paths: Vec<String>) -> (r: Result<SitePackages, crate::exit_codes::AuditError>)
        ensures
            r is Ok <==> paths@.len() > 0,
            r matches Ok(s) ==> s@ == paths.deep_view(),
            r matches Err(e) ==> e == crate::exit_codes::AuditError::FatalConfiguration,
    {
        if paths.len() == 0 {
            Err(crate::exit_codes::AuditError::FatalConfiguration)
        } else {
            Ok(SitePackages { paths })
        }
    }

    pub fn paths(&self) -> (r: &Vec<String>)
        ensures
            r.deep_view() == self@,
    {
        &self.paths
    }
}

/// The interpreter names its package directories on lines mentioning
/// `site-packages`; each such line is kept, trimmed of the quoting around it.
pub open spec fn site_paths_of(out: Seq<char>) -> Seq<Seq<char>> {
    site_lines(lines_of(out), lines_of(out).len() as int)
}

pub open spec fn has_site(l: Seq<char>) -> bool {
    exists|j: int| match_at(l, "site-packages"@, j)
}

pub open spec fn site_lines(lines: Seq<Seq<char>>, n: int) -> Seq<Seq<char>>
    decreases n,
{
    if n <= 0 {
        Seq::empty()
    } else {
        let prev = site_lines(lines, n - 1);
        let l = lines[n - 1];
        if has_site(l) {
            if prev.contains(trim_of(l)) {
                prev
            } else {
                prev.push(trim_of(l))
            }
        } else {
            prev
        }
    }
}

/// The package directories found in the interpreter's output.
pub fn site_packages_from_output(output: &str) -> (r: Vec<String>)
    ensures
        r.deep_view() == site_paths_of(output@),
{
    let ov = chars_vec(output);
    let lines = lines_chars(&ov);
    let pat = chars_vec("site-packages");
    proof {
        reveal_strlit("site-packages");
    }
    let mut out: Vec<String> = Vec::new();
    let mut i: usize = 0;
    while i < lines.len()
        invariant
            i <= lines@.len(),
            lines.deep_view() == lines_of(ov@),
            ov@ == output@,
            pat@ == "site-packages"@,
            pat@.len() > 0,
            out.deep_view() =~= site_lines(lines_of(ov@), i as int),
        decreases lines@.len() - i,
    {
        let ghost dv0 = out.deep_view();
        let line = &lines[i];
        proof {
            assert(line@ =~= lines.deep_view()[i as int]);
            assert(line@ == lines_of(ov@)[i as int]);
        }
        if contains_sub(line, &pat) {
            let trimmed = string_from_chars(&trim_chars(line));
            if !contains_string(&out, &trimmed) {
                let ghost tv = trimmed@;
                out.push(trimmed);
                proof {
                    assert(out.deep_view() =~= dv0.push(tv));
                }
            }
        }
        proof {
            assert(out.deep_view() =~= site_lines(lines_of(ov@), i + 1));
        }
        i = i + 1;
    }
    proof {
        assert(out.deep_view() =~= site_paths_of(output@));
    }
    out
}

/// The value of the first `Name: ` header among the lines, if one is there.
pub open spec fn find_name(lines: Seq<Seq<char>>) -> Option<Seq<char>>
    decreases lines.len(),
{
    if lines.len() == 0 {
        None
    } else if starts_with(lines[0], "Name: "@) {
        Some(lines[0].skip("Name: "@.len() as int))
    } else {
        find_name(lines.drop_first())
    }
}

proof fn lemma_find_name_skip(lines: Seq<Seq<char>>, i: int)
    requires
        0 <= i <= lines.len(),
        forall|k: int| 0 <= k < i ==> !starts_with(lines[k], "Name: "@),
    ensures
        find_name(lines) == find_name(lines.subrange(i, lines.len() as int)),
    decreases i,
{
    if i > 0 {
        lemma_find_name_skip(lines.drop_first(), i - 1);
        assert(lines.drop_first().subrange(i - 1, lines.drop_first().len() as int) =~= lines
            .subrange(i, lines.len() as int));
    } else {
        assert(lines.subrange(0, lines.len() as int) =~= lines);
    }
}

/// The package name declared by the metadata lines, lowercased, if any.
fn metadata_name(lines: &Vec<Vec<char>>) -> (r: Option<String>)
    ensures
        ({
            let name = find_name(lines.deep_view());
            match r {
                Some(s) => name is Some && s@ == lower_of(name.unwrap()),
                None => name is None,
            }
        }),
{
    let prefix = chars_vec("Name: ");
    proof {
        reveal_strlit("Name: ");
    }
    let mut i: usize = 0;
    while i < lines.len()
        invariant
            i <= lines@.len(),
            prefix@ == "Name: "@,
            prefix@.len() == 6,
            forall|k: int| 0 <= k < i ==> !starts_with(lines.deep_view()[k], "Name: "@),
        decreases lines@.len() - i,
    {
        let line = &lines[i];
        proof {
            assert(line@ =~= lines.deep_view()[i as int]);
        }
        if starts_with_chars(line, &prefix) {
            let rest = subvec(line, 6, line.len());
            let rest_str = string_from_chars(&rest);
            let lowered = lowercase(rest_str.as_str());
            proof {
                lemma_find_name_skip(lines.deep_view(), i as int);
                let tail = lines.deep_view().subrange(i as int, lines.deep_view().len() as int);
                assert(tail[0] == lines.deep_view()[i as int]);
                assert(find_name(tail) == Some(tail[0].skip(6)));
                assert(rest@ =~= lines.deep_view()[i as int].skip(6));
            }
            return Some(lowered);
        }
        i = i + 1;
    }
    proof {
        lemma_find_name_skip(lines.deep_view(), lines.deep_view().len() as int);
        assert(lines.deep_view().subrange(
            lines.deep_view().len() as int,
            lines.deep_view().len() as int,
        ) =~= Seq::<Seq<char>>::empty());
    }
    None
}

/// A path component that names a real directory entry.
pub open spec fn plain_component(c: Seq<char>) -> bool {
    c.len() > 0 && c != "."@ && c != ".."@
}

/// A path component naming a Python source file.
pub open spec fn py_component(c: Seq<char>) -> bool {
    ends_with(c, ".py"@) && c.len() > ".py"@.len()
}

/// The alias a line of the installed-paths listing contributes: the first
/// component of the path before the first comma, kept only for a `.py` path
/// of more than one component.
pub open spec fn record_alias_of_line(l: Seq<char>) -> Option<Seq<char>> {
    let path = if first_ix(l, ',') >= 0 {
        l.subrange(0, first_ix(l, ','))
    } else {
        l
    };
    let comps = split_char(path, '/');
    if comps.len() >= 2 && plain_component(comps[0]) && py_component(comps.last()) {
        Some(comps[0])
    } else {
        None
    }
}

/// The distinct aliases the listing's first `n` lines contribute, in order of
/// first appearance.
pub open spec fn record_aliases(lines: Seq<Seq<char>>, n: int) -> Seq<Seq<char>>
    decreases n,
{
    if n <= 0 {
        Seq::empty()
    } else {
        let prev = record_aliases(lines, n - 1);
        match record_alias_of_line(lines[n - 1]) {
            Some(a) => if prev.contains(a) {
                prev
            } else {
                prev.push(a)
            },
            None => prev,
        }
    }
}

/// The alias of one listing line, executed.
fn record_line_alias(line: &Vec<char>) -> (r: Option<Vec<char>>)
    ensures
        ({
            let spec_r = record_alias_of_line(line@);
            match r {
                Some(a) => spec_r is Some && a@ == spec_r.unwrap(),
                None => spec_r is None,
            }
        }),
{
    proof {
        reveal_strlit(".");
        reveal_strlit("..");
        reveal_strlit(".py");
        lemma_first_ix(line@, ',');
    }
    // the path is everything before the first comma
    let mut j: usize = 0;
    while j < line.len() && line[j] != ','
        invariant
            j <= line@.len(),
            forall|k: int| 0 <= k < j ==> line@[k] != ',',
        decreases line@.len() - j,
    {
        j = j + 1;
    }
    let path = subvec(line, 0, j);
    proof {
        if j < line@.len() {
            assert(first_ix(line@, ',') == j);
        } else {
            assert(first_ix(line@, ',') == -1);
            assert(path@ =~= line@);
        }
    }
    let comps = split_chars(&path, '/');
    if comps.len() < 2 {
        return None;
    }
    let first = &comps[0];
    let last = &comps[comps.len() - 1];
    proof {
        assert(first@ == split_char(path@, '/')[0]);
        assert(last@ == split_char(path@, '/').last());
    }
    let dot = chars_vec(".");
    let dotdot = chars_vec("..");
    let dot_py = chars_vec(".py");
    if first.len() == 0 || eq_chars(first, &dot) || eq_chars(first, &dotdot) {
        return None;
    }
    if !ends_with_chars(last, &dot_py) || last.len() <= 3 {
        return None;
    }
    Some(subvec(first, 0, first.len()))
}

/// The distinct aliases of the whole listing, executed.
fn record_aliases_exec(content: &Vec<char>) -> (r: Vec<String>)
    ensures
        r.deep_view() == record_aliases(lines_of(content@), lines_of(content@).len() as int),
{
    let lines = lines_chars(content);
    let mut out: Vec<String> = Vec::new();
    let mut i: usize = 0;
    while i < lines.len()
        invariant
            i <= lines@.len(),
            lines.deep_view() == lines_of(content@),
            out.deep_view() =~= record_aliases(lines_of(content@), i as int),
        decreases lines@.len() - i,
    {
        let ghost dv0 = out.deep_view();
        let line = &lines[i];
        proof {
            assert(line@ =~= lines.deep_view()[i as int]);
            assert(line@ == lines_of(content@)[i as int]);
        }
        match record_line_alias(line) {
            Some(a) => {
                let s = string_from_chars(&a);
                if !contains_string(&out, &s) {
                    let ghost sv = s@;
                    out.push(s);
                    proof {
                        assert(out.deep_view() =~= dv0.push(sv));
                    }
                }
            },
            None => {},
        }
        proof {
            assert(out.deep_view() =~= record_aliases(lines_of(content@), i + 1));
        }
        i = i + 1;
    }
    out
}

/// The distinct lines of a flat top-level module listing, in order of first
/// appearance.
pub open spec fn egg_aliases(lines: Seq<Seq<char>>, n: int) -> Seq<Seq<char>>
    decreases n,
{
    if n <= 0 {
        Seq::empty()
    } else {
        let prev = egg_aliases(lines, n - 1);
        if prev.contains(lines[n - 1]) {
            prev
        } else {
            prev.push(lines[n - 1])
        }
    }
}

fn egg_aliases_exec(content: &Vec<char>) -> (r: Vec<String>)
    ensures
        r.deep_view() == egg_aliases(lines_of(content@), lines_of(content@).len() as int),
{
    let lines = lines_chars(content);
    let mut out: Vec<String> = Vec::new();
    let mut i: usize = 0;
    while i < lines.len()
        invariant
            i <= lines@.len(),
            lines.deep_view() == lines_of(content@),
            out.deep_view() =~= egg_aliases(lines_of(content@), i as int),
        decreases lines@.len() - i,
    {
        let ghost dv0 = out.deep_view();
        let line = &lines[i];
        proof {
            assert(line@ =~= lines.deep_view()[i as int]);
            assert(line@ == lines_of(content@)[i as int]);
        }
        let s = string_from_chars(line);
        if !contains_string(&out, &s) {
            let ghost sv = s@;
            out.push(s);
            proof {
                assert(out.deep_view() =~= dv0.push(sv));
            }
        }
        proof {
            assert(out.deep_view() =~= egg_aliases(lines_of(content@), i + 1));
        }
        i = i + 1;
    }
    out
}

/// Reads a wheel-style metadata pair: the `Name:` header gives the id
/// (lowercased), the path listing gives the aliases. Nothing is returned
/// when the name is missing or no listed path qualifies as an alias: such a
/// directory is skipped, not indexed.
pub fn process_dist_info(metadata: &str, record: &str) -> (r: Option<(String, Vec<String>)>)
    ensures
        ({
            let name = find_name(lines_of(metadata@));
            let aliases = record_aliases(lines_of(record@), lines_of(record@).len() as int);
            match r {
                Some((id, al)) => {
                    &&& name is Some
                    &&& id@ == lower_of(name.unwrap())
                    &&& al.deep_view() == aliases
                    &&& aliases.len() > 0
                },
                None => name is None || aliases.len() == 0,
            }
        }),
{
    let mv = chars_vec(metadata);
    let mlines = lines_chars(&mv);
    let name = match metadata_name(&mlines) {
        Some(n) => n,
        None => {
            return None;
        },
    };
    let rv = chars_vec(record);
    let aliases = record_aliases_exec(&rv);
    if aliases.len() == 0 {
        return None;
    }
    Some((name, aliases))
}

/// Reads an egg-style metadata pair: the `Name:` header gives the id
/// (lowercased), and every line of the top-level listing is an alias.
pub fn process_egg_info(pkg_info: &str, top_level: &str) -> (r: Option<(String, Vec<String>)>)
    ensures
        ({
            let name = find_name(lines_of(pkg_info@));
            let aliases = egg_aliases(lines_of(top_level@), lines_of(top_level@).len() as int);
            match r {
                Some((id, al)) => {
                    &&& name is Some
                    &&& id@ == lower_of(name.unwrap())
                    &&& al.deep_view() == aliases
                    &&& aliases.len() > 0
                },
                None => name is None || aliases.len() == 0,
            }
        }),
{
    let mv = chars_vec(pkg_info);
    let mlines = lines_chars(&mv);
    let name = match metadata_name(&mlines) {
        Some(n) => n,
        None => {
            return None;
        },
    };
    let tv = chars_vec(top_level);
    let aliases = egg_aliases_exec(&tv);
    if aliases.len() == 0 {
        return None;
    }
    Some((name, aliases))
}

/// The sum of the sequence, as an unbounded integer.
pub open spec fn sum_of(s: Seq<u64>, n: int) -> int
    decreases n,
{
    if n <= 0 {
        0
    } else {
        sum_of(s, n - 1) + s[n - 1]
    }
}

/// The total of the per-alias sizes, saturating at the largest representable
/// size.
pub fn total_size(sizes: &Vec<u64>) -> (r: u64)
    ensures
        ({
            let total = sum_of(sizes@, sizes@.len() as int);
            if total <= u64::MAX {
                r == total
            } else {
                r == u64::MAX
            }
        }),
{
    let mut acc: u64 = 0;
    let mut i: usize = 0;
    while i < sizes.len()
        invariant
            i <= sizes@.len(),
            ({
                let total = sum_of(sizes@, i as int);
                if total <= u64::MAX {
                    acc == total
                } else {
                    acc == u64::MAX
                }
            }),
        decreases sizes@.len() - i,
    {
        proof {
            lemma_sum_nonneg(sizes@, i as int);
        }
        let x = sizes[i];
        if acc > u64::MAX - x {
            acc = u64::MAX;
        } else {
            acc = acc + x;
        }
        i = i + 1;
    }
    acc
}

proof fn lemma_sum_nonneg(s: Seq<u64>, n: int)
    ensures
        sum_of(s, n) >= 0,
    decreases n,
{
    if n > 0 {
        lemma_sum_nonneg(s, n - 1);
    }
}

} // verus!

//! Character-level text utilities shared by the scanner, the manifest
//! extractor and the package indexer.
//!
//! Exec code works on `Vec<char>`; the conversions to and from `String` and
//! the Unicode case folding are the only operations taken on trust.

use vstd::prelude::*;

verus! {

/// Index of the first occurrence of `sep` in `s`, or -1 if `sep` does not occur.
pub open spec fn first_ix(s: Seq<char>, sep: char) -> int
    decreases s.len(),
{
    if s.len() == 0 {
        -1
    } else if s[0] == sep {
        0
    } else {
        let r = first_ix(s.drop_first(), sep);
        if r < 0 {
            -1
        } else {
            r + 1
        }
    }
}

pub(crate) proof fn lemma_first_ix(s: Seq<char>, sep: char)
    ensures
        ({
            let i = first_ix(s, sep);
            &&& -1 <= i < s.len()
            &&& i >= 0 ==> s[i] == sep && (forall|j: int| 0 <= j < i ==> s[j] != sep)
            &&& i == -1 ==> forall|j: int| 0 <= j < s.len() ==> s[j] != sep
        }),
    decreases s.len(),
{
    if s.len() == 0 {
    } else if s[0] == sep {
    } else {
        lemma_first_ix(s.drop_first(), sep);
        let r = first_ix(s.drop_first(), sep);
        if r >= 0 {
            assert forall|j: int| 0 <= j < r + 1 implies s[j] != sep by {
                if j > 0 {
                    assert(s.drop_first()[j - 1] != sep);
                }
            }
        } else {
            assert forall|j: int| 0 <= j < s.len() implies s[j] != sep by {
                if j > 0 {
                    assert(s.drop_first()[j - 1] != sep);
                }
            }
        }
    }
}

/// The pieces of `s` between occurrences of `sep`; always at least one piece.
pub open spec fn split_char(s: Seq<char>, sep: char) -> Seq<Seq<char>>
    decreases s.len(),
{
    let i = first_ix(s, sep);
    if i < 0 || i >= s.len() {
        seq![s]
    } else {
        seq![s.subrange(0, i)] + split_char(s.subrange(i + 1, s.len() as int), sep)
    }
}

/// Index of the first occurrence of the (non-empty) pattern `pat` in `s`, or -1.
pub open spec fn first_sub_ix(s: Seq<char>, pat: Seq<char>) -> int
    decreases s.len(),
{
    if s.len() < pat.len() {
        -1
    } else if s.subrange(0, pat.len() as int) == pat {
        0
    } else if s.len() == 0 {
        -1
    } else {
        let r = first_sub_ix(s.drop_first(), pat);
        if r < 0 {
            -1
        } else {
            r + 1
        }
    }
}

/// `pat` occurs in `s` starting at position `i`.
pub open spec fn match_at(s: Seq<char>, pat: Seq<char>, i: int) -> bool {
    0 <= i && i + pat.len() <= s.len() && s.subrange(i, i + pat.len()) == pat
}

pub(crate) proof fn lemma_first_sub_ix(s: Seq<char>, pat: Seq<char>)
    requires
        pat.len() > 0,
    ensures
        ({
            let i = first_sub_ix(s, pat);
            &&& -1 <= i && i + pat.len() <= s.len() + pat.len()
            &&& i >= 0 ==> match_at(s, pat, i) && (forall|j: int|
                0 <= j < i ==> !match_at(s, pat, j))
            &&& i == -1 ==> forall|j: int| !match_at(s, pat, j)
        }),
    decreases s.len(),
{
    if s.len() < pat.len() {
        assert forall|j: int| !match_at(s, pat, j) by {}
    } else if s.subrange(0, pat.len() as int) == pat {
        assert(match_at(s, pat, 0));
    } else {
        lemma_first_sub_ix(s.drop_first(), pat);
        let r = first_sub_ix(s.drop_first(), pat);
        assert(!match_at(s, pat, 0));
        assert forall|j: int| 1 <= j implies match_at(s, pat, j) == match_at(
            s.drop_first(),
            pat,
            j - 1,
        ) by {
            if match_at(s, pat, j) {
                assert(s.drop_first().subrange(j - 1, j - 1 + pat.len()) =~= s.subrange(
                    j,
                    j + pat.len(),
                ));
            }
            if match_at(s.drop_first(), pat, j - 1) {
                assert(s.subrange(j, j + pat.len()) =~= s.drop_first().subrange(
                    j - 1,
                    j - 1 + pat.len(),
                ));
            }
        }
    }
}

/// `pre` is a prefix of `s`.
pub open spec fn starts_with(s: Seq<char>, pre: Seq<char>) -> bool {
    s.len() >= pre.len() && s.subrange(0, pre.len() as int) == pre
}

/// `suf` is a suffix of `s`.
pub open spec fn ends_with(s: Seq<char>, suf: Seq<char>) -> bool {
    s.len() >= suf.len() && s.subrange(s.len() - suf.len(), s.len() as int) == suf
}

/// A final carriage return is dropped, as `str::lines` does.
pub open spec fn strip_cr(l: Seq<char>) -> Seq<char> {
    if l.len() > 0 && l.last() == '\r' {
        l.drop_last()
    } else {
        l
    }
}

/// The lines of `s`: pieces between newlines, without a final empty piece,
/// each without a trailing carriage return.
pub open spec fn lines_of(s: Seq<char>) -> Seq<Seq<char>> {
    if s.len() == 0 {
        Seq::empty()
    } else {
        let raw = if s.last() == '\n' {
            split_char(s, '\n').drop_last()
        } else {
            split_char(s, '\n')
        };
        raw.map_values(|l: Seq<char>| strip_cr(l))
    }
}

/// The parts joined with `sep` between consecutive parts.
pub open spec fn join_char(parts: Seq<Seq<char>>, sep: char) -> Seq<char>
    decreases parts.len(),
{
    if parts.len() == 0 {
        Seq::empty()
    } else if parts.len() == 1 {
        parts[0]
    } else {
        join_char(parts.drop_last(), sep) + seq![sep] + parts.last()
    }
}

/// Every underscore replaced by a hyphen.
pub open spec fn dashes_of(s: Seq<char>) -> Seq<char> {
    s.map_values(
        |c: char|
            if c == '_' {
                '-'
            } else {
                c
            },
    )
}

/// The case folding of `s`, as `str::to_lowercase` computes it. Unicode
/// case folding takes pages to state, so it is named, not spelled out; it
/// depends on the characters alone.
pub uninterp spec fn lower_of(s: Seq<char>) -> Seq<char>;

/// A package or dependency identifier in normalized form: case folded, with
/// underscores replaced by hyphens.
pub open spec fn norm_of(s: Seq<char>) -> Seq<char> {
    dashes_of(lower_of(s))
}

/// Relies on str::chars: it yields exactly the characters of the string, in order.
#[verifier::external_body]
pub(crate) fn chars_vec(s: &str) -> (r: Vec<char>)
    ensures
        r@ == s@,
{
    s.chars().collect()
}

/// Relies on String's FromIterator over char: the built string holds exactly
/// the given characters, in order.
#[verifier::external_body]
pub(crate) fn string_from_chars(v: &Vec<char>) -> (r: String)
    ensures
        r@ == v@,
{
    v.iter().collect()
}

/// Relies on str::to_lowercase: the result depends on the characters alone.
#[verifier::external_body]
pub(crate) fn lowercase(s: &str) -> (r: String)
    ensures
        r@ == lower_of(s@),
{
    s.to_lowercase()
}

/// Copy of `v[from..to]`.
pub(crate) fn subvec(v: &Vec<char>, from: usize, to: usize) -> (r: Vec<char>)
    requires
        from <= to <= v@.len(),
    ensures
        r@ == v@.subrange(from as int, to as int),
{
    let mut r: Vec<char> = Vec::new();
    let mut k: usize = from;
    while k < to
        invariant
            from <= k <= to <= v@.len(),
            r@ == v@.subrange(from as int, k as int),
        decreases to - k,
    {
        r.push(v[k]);
        assert(v@.subrange(from as int, k as int).push(v@[k as int]) =~= v@.subrange(
            from as int,
            k + 1 as int,
        ));
        k = k + 1;
    }
    r
}

/// The pieces of `v` between occurrences of `sep`.
pub(crate) fn split_chars(v: &Vec<char>, sep: char) -> (r: Vec<Vec<char>>)
    ensures
        r.deep_view() == split_char(v@, sep),
{
    let len = v.len();
    let mut pieces: Vec<Vec<char>> = Vec::new();
    let mut start: usize = 0;
    proof {
        assert(pieces.deep_view() =~= Seq::<Seq<char>>::empty());
        assert(v@.subrange(0, len as int) =~= v@);
        assert(split_char(v@, sep) =~= pieces.deep_view() + split_char(
            v@.subrange(0, len as int),
            sep,
        ));
    }
    loop
        invariant_except_break
            split_char(v@, sep) =~= pieces.deep_view() + split_char(
                v@.subrange(start as int, len as int),
                sep,
            ),
        invariant
            start <= len,
            len == v@.len(),
        ensures
            pieces.deep_view() == split_char(v@, sep),
        decreases len - start,
    {
        let ghost rem = v@.subrange(start as int, len as int);
        let ghost dv0 = pieces.deep_view();
        let mut j: usize = start;
        while j < len && v[j] != sep
            invariant
                start <= j <= len,
                len == v@.len(),
                forall|k: int| start <= k < j ==> v@[k] != sep,
            decreases len - j,
        {
            j = j + 1;
        }
        proof {
            lemma_first_ix(rem, sep);
            assert forall|k: int| 0 <= k < j - start implies rem[k] != sep by {
                assert(rem[k] == v@[start + k]);
            }
        }
        if j < len {
            // separator found at j
            let piece = subvec(v, start, j);
            let ghost pv = piece@;
            proof {
                assert(rem[j - start] == v@[j as int]);
                assert(first_ix(rem, sep) == j - start);
                assert(piece.deep_view() =~= pv);
                assert(rem.subrange(0, j - start) =~= pv);
                assert(rem.subrange(j - start + 1, rem.len() as int) =~= v@.subrange(
                    j as int + 1,
                    len as int,
                ));
                assert(split_char(rem, sep) =~= seq![pv] + split_char(
                    v@.subrange(j as int + 1, len as int),
                    sep,
                ));
            }
            pieces.push(piece);
            proof {
                assert(pieces.deep_view() =~= dv0.push(pv));
                assert(split_char(v@, sep) =~= pieces.deep_view() + split_char(
                    v@.subrange(j as int + 1, len as int),
                    sep,
                ));
            }
            start = j + 1;
        } else {
            // no separator in the remainder
            let piece = subvec(v, start, len);
            let ghost pv = piece@;
            proof {
                assert(first_ix(rem, sep) == -1);
                assert(piece.deep_view() =~= pv);
                assert(split_char(rem, sep) =~= seq![pv]);
            }
            pieces.push(piece);
            proof {
                assert(pieces.deep_view() =~= dv0.push(pv));
                assert(pieces.deep_view() =~= split_char(v@, sep));
            }
            break ;
        }
    }
    pieces
}

/// Split produces at least one piece.
pub(crate) proof fn lemma_split_len(s: Seq<char>, sep: char)
    ensures
        split_char(s, sep).len() >= 1,
    decreases s.len(),
{
    let i = first_ix(s, sep);
    if !(i < 0 || i >= s.len()) {
        lemma_split_len(s.subrange(i + 1, s.len() as int), sep);
    }
}

/// The characters trimmed around a path taken from interpreter output:
/// ASCII whitespace, single quotes and commas.
pub open spec fn path_trim_char(c: char) -> bool {
    c == ' ' || c == '\t' || c == '\r' || c == '\n' || c == '\'' || c == ','
}

pub open spec fn trim_start_of(s: Seq<char>) -> Seq<char>
    decreases s.len(),
{
    if s.len() > 0 && path_trim_char(s[0]) {
        trim_start_of(s.drop_first())
    } else {
        s
    }
}

pub open spec fn trim_end_of(s: Seq<char>) -> Seq<char>
    decreases s.len(),
{
    if s.len() > 0 && path_trim_char(s.last()) {
        trim_end_of(s.drop_last())
    } else {
        s
    }
}

/// `s` without leading and trailing trim characters.
pub open spec fn trim_of(s: Seq<char>) -> Seq<char> {
    trim_end_of(trim_start_of(s))
}

proof fn lemma_trim_start(s: Seq<char>, i: int)
    requires
        0 <= i <= s.len(),
        forall|k: int| 0 <= k < i ==> path_trim_char(s[k]),
        i < s.len() ==> !path_trim_char(s[i]),
    ensures
        trim_start_of(s) =~= s.subrange(i, s.len() as int),
    decreases i,
{
    if i == 0 {
    } else {
        lemma_trim_start(s.drop_first(), i - 1);
        assert(s.drop_first().subrange(i - 1, s.drop_first().len() as int) =~= s.subrange(
            i,
            s.len() as int,
        ));
    }
}

proof fn lemma_trim_end(s: Seq<char>, j: int)
    requires
        0 <= j <= s.len(),
        forall|k: int| j <= k < s.len() ==> path_trim_char(s[k]),
        j > 0 ==> !path_trim_char(s[j - 1]),
    ensures
        trim_end_of(s) =~= s.subrange(0, j),
    decreases s.len() - j,
{
    if j == s.len() {
    } else {
        lemma_trim_end(s.drop_last(), j);
        assert(s.drop_last().subrange(0, j) =~= s.subrange(0, j));
    }
}

/// Whether two character vectors hold the same characters.
pub(crate) fn eq_chars(a: &Vec<char>, b: &Vec<char>) -> (r: bool)
    ensures
        r == (a@ == b@),
{
    if a.len() != b.len() {
        return false;
    }
    let mut i: usize = 0;
    while i < a.len()
        invariant
            i <= a@.len(),
            a@.len() == b@.len(),
            forall|k: int| 0 <= k < i ==> a@[k] == b@[k],
        decreases a@.len() - i,
    {
        if a[i] != b[i] {
            return false;
        }
        i = i + 1;
    }
    proof {
        assert(a@ =~= b@);
    }
    true
}

/// Whether `pre` is a prefix of `v`.
pub(crate) fn starts_with_chars(v: &Vec<char>, pre: &Vec<char>) -> (r: bool)
    ensures
        r == starts_with(v@, pre@),
{
    if v.len() < pre.len() {
        return false;
    }
    let mut i: usize = 0;
    while i < pre.len()
        invariant
            i <= pre@.len() <= v@.len(),
            forall|k: int| 0 <= k < i ==> v@[k] == pre@[k],
        decreases pre@.len() - i,
    {
        if v[i] != pre[i] {
            proof {
                assert(v@.subrange(0, pre@.len() as int)[i as int] != pre@[i as int]);
            }
            return false;
        }
        i = i + 1;
    }
    proof {
        assert(v@.subrange(0, pre@.len() as int) =~= pre@);
    }
    true
}

/// Whether `suf` is a suffix of `v`.
pub(crate) fn ends_with_chars(v: &Vec<char>, suf: &Vec<char>) -> (r: bool)
    ensures
        r == ends_with(v@, suf@),
{
    if v.len() < suf.len() {
        return false;
    }
    let off = v.len() - suf.len();
    let mut i: usize = 0;
    while i < suf.len()
        invariant
            i <= suf@.len(),
            off + suf@.len() == v@.len(),
            v@.len() <= usize::MAX,
            forall|k: int| 0 <= k < i ==> v@[off + k] == suf@[k],
        decreases suf@.len() - i,
    {
        if v[off + i] != suf[i] {
            proof {
                assert(v@.subrange(off as int, v@.len() as int)[i as int] != suf@[i as int]);
            }
            return false;
        }
        i = i + 1;
    }
    proof {
        assert(v@.subrange(off as int, v@.len() as int) =~= suf@);
    }
    true
}

/// The lines of `v`, as `str::lines` yields them.
pub(crate) fn lines_chars(v: &Vec<char>) -> (r: Vec<Vec<char>>)
    ensures
        r.deep_view() == lines_of(v@),
{
    if v.len() == 0 {
        let r: Vec<Vec<char>> = Vec::new();
        proof {
            assert(r.deep_view() =~= lines_of(v@));
        }
        return r;
    }
    let mut raw = split_chars(v, '\n');
    proof {
        lemma_split_len(v@, '\n');
    }
    if v[v.len() - 1] == '\n' {
        raw.pop();
    }
    let ghost target = if v@.last() == '\n' {
        split_char(v@, '\n').drop_last()
    } else {
        split_char(v@, '\n')
    };
    proof {
        assert(raw.deep_view() =~= target);
    }
    let mut out: Vec<Vec<char>> = Vec::new();
    let mut i: usize = 0;
    while i < raw.len()
        invariant
            i <= raw@.len(),
            raw.deep_view() =~= target,
            out.deep_view() =~= target.map_values(|l: Seq<char>| strip_cr(l)).subrange(
                0,
                i as int,
            ),
        decreases raw@.len() - i,
    {
        let ghost dv0 = out.deep_view();
        let line = &raw[i];
        let stripped: Vec<char> = if line.len() > 0 && line[line.len() - 1] == '\r' {
            subvec(line, 0, line.len() - 1)
        } else {
            subvec(line, 0, line.len())
        };
        proof {
            assert(line@.subrange(0, line@.len() as int) =~= line@);
            assert(line@.len() > 0 && line@.last() == '\r' ==> line@.subrange(
                0,
                line@.len() - 1,
            ) =~= line@.drop_last());
            assert(stripped@ =~= strip_cr(raw.deep_view()[i as int]));
            assert(stripped.deep_view() =~= stripped@);
        }
        let ghost sv = stripped@;
        out.push(stripped);
        proof {
            assert(out.deep_view() =~= dv0.push(sv));
            assert(out.deep_view() =~= target.map_values(|l: Seq<char>| strip_cr(l)).subrange(
                0,
                i + 1,
            ));
        }
        i = i + 1;
    }
    proof {
        let m = target.map_values(|l: Seq<char>| strip_cr(l));
        assert(m.subrange(0, m.len() as int) =~= m);
        assert(out.deep_view() =~= lines_of(v@));
    }
    out
}

/// The parts joined with `sep`.
pub(crate) fn join_chars(parts: &Vec<Vec<char>>, sep: char) -> (r: Vec<char>)
    ensures
        r@ == join_char(parts.deep_view(), sep),
{
    let ghost dv = parts.deep_view();
    let mut acc: Vec<char> = Vec::new();
    if parts.len() == 0 {
        proof {
            assert(acc@ =~= join_char(dv, sep));
        }
        return acc;
    }
    let mut i: usize = 0;
    while i < parts.len()
        invariant
            i <= parts@.len(),
            parts@.len() > 0,
            dv == parts.deep_view(),
            acc@ =~= join_char(dv.subrange(0, i as int), sep),
        decreases parts@.len() - i,
    {
        if i > 0 {
            acc.push(sep);
        }
        let mut piece = parts[i].clone();
        proof {
            assert(piece@ =~= dv[i as int]);
        }
        acc.append(&mut piece);
        proof {
            assert(dv.subrange(0, i + 1).drop_last() =~= dv.subrange(0, i as int));
            assert(dv.subrange(0, i + 1).last() == dv[i as int]);
            if i == 0 {
                assert(acc@ =~= join_char(dv.subrange(0, 1), sep));
            } else {
                assert(acc@ =~= join_char(dv.subrange(0, i + 1), sep));
            }
        }
        i = i + 1;
    }
    proof {
        assert(dv.subrange(0, dv.len() as int) =~= dv);
    }
    acc
}

/// `v` with every underscore replaced by a hyphen.
pub(crate) fn dashes(v: &Vec<char>) -> (r: Vec<char>)
    ensures
        r@ == dashes_of(v@),
{
    let mut out: Vec<char> = Vec::new();
    let mut i: usize = 0;
    while i < v.len()
        invariant
            i <= v@.len(),
            out@ =~= dashes_of(v@.subrange(0, i as int)),
        decreases v@.len() - i,
    {
        let c = v[i];
        if c == '_' {
            out.push('-');
        } else {
            out.push(c);
        }
        proof {
            assert(out@ =~= dashes_of(v@.subrange(0, i + 1)));
        }
        i = i + 1;
    }
    proof {
        assert(v@.subrange(0, v@.len() as int) =~= v@);
    }
    out
}

/// First position where the pattern occurs, if it occurs.
pub(crate) fn find_sub(v: &Vec<char>, pat: &Vec<char>) -> (r: Option<usize>)
    requires
        pat@.len() > 0,
    ensures
        ({
            let i = first_sub_ix(v@, pat@);
            if i < 0 {
                r is None
            } else {
                r == Some(i as usize)
            }
        }),
{
    proof {
        lemma_first_sub_ix(v@, pat@);
    }
    if v.len() < pat.len() {
        return None;
    }
    let last_start = v.len() - pat.len();
    let mut i: usize = 0;
    while i <= last_start
        invariant
            i <= last_start + 1,
            last_start == v@.len() - pat@.len(),
            last_start < v@.len() <= usize::MAX,
            pat@.len() > 0,
            forall|j: int| 0 <= j < i ==> !match_at(v@, pat@, j),
        decreases last_start - i + 1,
    {
        let mut k: usize = 0;
        let mut hit = true;
        while k < pat.len()
            invariant
                k <= pat@.len(),
                i + pat@.len() <= v@.len(),
                v@.len() <= usize::MAX,
                hit ==> forall|t: int| 0 <= t < k ==> v@[i + t] == pat@[t],
                !hit ==> !match_at(v@, pat@, i as int),
            ensures
                i + pat@.len() <= v@.len(),
                hit ==> forall|t: int| 0 <= t < pat@.len() ==> v@[i + t] == pat@[t],
                !hit ==> !match_at(v@, pat@, i as int),
            decreases pat@.len() - k,
        {
            if v[i + k] != pat[k] {
                hit = false;
                proof {
                    assert(v@.subrange(i as int, i + pat@.len())[k as int] != pat@[k as int]);
                    assert(!match_at(v@, pat@, i as int));
                }
                break ;
            }
            k = k + 1;
        }
        if hit {
            proof {
                assert(v@.subrange(i as int, i + pat@.len()) =~= pat@);
                assert(match_at(v@, pat@, i as int));
                lemma_first_sub_ix(v@, pat@);
            }
            return Some(i);
        }
        proof {
            assert(!match_at(v@, pat@, i as int));
        }
        i = i + 1;
    }
    proof {
        assert forall|j: int| 0 <= j implies !match_at(v@, pat@, j) by {
            if j < i {
            } else {
                assert(j + pat@.len() > v@.len());
            }
        }
        assert(first_sub_ix(v@, pat@) == -1) by {
            lemma_first_sub_ix(v@, pat@);
        }
    }
    None
}

/// Whether the pattern occurs anywhere in `v`.
pub(crate) fn contains_sub(v: &Vec<char>, pat: &Vec<char>) -> (r: bool)
    requires
        pat@.len() > 0,
    ensures
        r == exists|j: int| match_at(v@, pat@, j),
{
    proof {
        lemma_first_sub_ix(v@, pat@);
    }
    let r = find_sub(v, pat);
    r.is_some()
}

/// `v` without leading and trailing trim characters.
pub(crate) fn trim_chars(v: &Vec<char>) -> (r: Vec<char>)
    ensures
        r@ == trim_of(v@),
{
    let mut a: usize = 0;
    while a < v.len() && is_path_trim_char(v[a])
        invariant
            a <= v@.len(),
            forall|k: int| 0 <= k < a ==> path_trim_char(v@[k]),
        decreases v@.len() - a,
    {
        a = a + 1;
    }
    proof {
        lemma_trim_start(v@, a as int);
    }
    let ghost mid = v@.subrange(a as int, v@.len() as int);
    let mut b: usize = v.len();
    while b > a && is_path_trim_char(v[b - 1])
        invariant
            a <= b <= v@.len(),
            forall|k: int| b <= k < v@.len() ==> path_trim_char(v@[k]),
        decreases b,
    {
        b = b - 1;
    }
    proof {
        assert forall|k: int| b - a <= k < mid.len() implies path_trim_char(mid[k]) by {
            assert(mid[k] == v@[a + k]);
        }
        if b > a {
            assert(mid[b - a - 1] == v@[b - 1]);
        }
        lemma_trim_end(mid, b - a);
        assert(mid.subrange(0, b - a) =~= v@.subrange(a as int, b as int));
    }
    subvec(v, a, b)
}

/// Whether `v` holds a string with the same characters as `s`.
pub(crate) fn contains_string(v: &Vec<String>, s: &String) -> (r: bool)
    ensures
        r == v.deep_view().contains(s@),
{
    let mut i: usize = 0;
    while i < v.len()
        invariant
            i <= v@.len(),
            forall|k: int| 0 <= k < i ==> v.deep_view()[k] != s@,
        decreases v@.len() - i,
    {
        if v[i].eq(s) {
            proof {
                assert(v.deep_view()[i as int] == s@);
            }
            return true;
        }
        i = i + 1;
    }
    proof {
        if v.deep_view().contains(s@) {
            let k = choose|k: int| 0 <= k < v.deep_view().len() && v.deep_view()[k] == s@;
            assert(v.deep_view()[k] == s@);
        }
    }
    false
}

/// A copy of the strings, character for character.
pub(crate) fn clone_strings(v: &Vec<String>) -> (r: Vec<String>)
    ensures
        r.deep_view() == v.deep_view(),
{
    let mut out: Vec<String> = Vec::new();
    let mut i: usize = 0;
    while i < v.len()
        invariant
            i <= v@.len(),
            out.deep_view() =~= v.deep_view().subrange(0, i as int),
        decreases v@.len() - i,
    {
        let ghost dv0 = out.deep_view();
        out.push(v[i].clone());
        proof {
            assert(out.deep_view() =~= dv0.push(v.deep_view()[i as int]));
            assert(out.deep_view() =~= v.deep_view().subrange(0, i + 1));
        }
        i = i + 1;
    }
    proof {
        assert(v.deep_view().subrange(0, v.deep_view().len() as int) =~= v.deep_view());
    }
    out
}

/// Exec test for [`path_trim_char`].
pub(crate) fn is_path_trim_char(c: char) -> (r: bool)
    ensures
        r == path_trim_char(c),
{
    c == ' ' || c == '\t' || c == '\r' || c == '\n' || c == '\'' || c == ','
}

} // verus!

//! Path components, as `std::path::Path::components` yields them on the host
//! that runs the tool (Windows drive-letter and relative paths, or Unix
//! paths), and the parent directories under which a copied directory is
//! placed inside a package.
use vstd::prelude::*;
use crate::text::{join, lemma_filter_all, lemma_split_join, split, split_chars, string_of, views};

verus! {

/// The path syntax of the host: Windows (`\` and `/` separate, drive
/// prefixes such as `C:`) or Unix (`/` separates, no prefixes).
#[derive(Clone, Copy, Debug)]
pub enum PathSyntax {
    Windows,
    Unix,
}

/// The separator that components are cut at once a path is normalized.
pub open spec fn sep(syntax: PathSyntax) -> char {
    match syntax {
        PathSyntax::Windows => '\\',
        PathSyntax::Unix => '/',
    }
}

/// `/` and `\` both separate components on Windows.
pub open spec fn is_separator(c: char) -> bool {
    c == '\\' || c == '/'
}

/// An ASCII letter, the only drive letters that Windows paths accept.
pub open spec fn is_ascii_letter(c: char) -> bool {
    ('a' <= c && c <= 'z') || ('A' <= c && c <= 'Z')
}

/// `p` with every separator written as [`sep`]: on Windows every `/`
/// becomes `\`, on Unix nothing changes.
pub open spec fn normalized(p: Seq<char>, syntax: PathSyntax) -> Seq<char> {
    match syntax {
        PathSyntax::Windows => p.map_values(|c: char| if c == '/' { '\\' } else { c }),
        PathSyntax::Unix => p,
    }
}

/// `p` starts with a drive prefix such as `C:`, which only Windows knows.
pub open spec fn has_drive(p: Seq<char>, syntax: PathSyntax) -> bool {
    syntax is Windows && p.len() >= 2 && is_ascii_letter(p[0]) && p[1] == ':'
}

/// `p` starts with two separators: the UNC, verbatim and device forms, whose
/// prefixes this model does not cover.
pub open spec fn is_unc_like(p: Seq<char>) -> bool {
    p.len() >= 2 && is_separator(p[0]) && is_separator(p[1])
}

/// What follows the drive prefix, if any.
pub open spec fn after_prefix(n: Seq<char>, syntax: PathSyntax) -> Seq<char> {
    if has_drive(n, syntax) {
        n.skip(2)
    } else {
        n
    }
}

/// A separator follows the prefix: the path has a root.
pub open spec fn has_root(n: Seq<char>, syntax: PathSyntax) -> bool {
    after_prefix(n, syntax).len() > 0 && after_prefix(n, syntax)[0] == sep(syntax)
}

/// The text after the prefix and the root.
pub open spec fn body(n: Seq<char>, syntax: PathSyntax) -> Seq<char> {
    if has_root(n, syntax) {
        after_prefix(n, syntax).drop_first()
    } else {
        after_prefix(n, syntax)
    }
}

/// A piece that names a directory: not empty and not `.`.
pub open spec fn is_normal(piece: Seq<char>) -> bool {
    piece.len() > 0 && piece != seq!['.']
}

/// The components of a path: the drive prefix (`C:`, Windows only), the
/// root, a leading `.` of a path without root, then each piece between
/// separators that is neither empty nor `.`.
pub open spec fn components(p: Seq<char>, syntax: PathSyntax) -> Seq<Seq<char>> {
    let n = normalized(p, syntax);
    let pieces = split(body(n, syntax), sep(syntax));
    let prefix = if has_drive(n, syntax) {
        seq![n.take(2)]
    } else {
        seq![]
    };
    let root = if has_root(n, syntax) {
        seq![seq![sep(syntax)]]
    } else {
        seq![]
    };
    let cur = if !has_root(n, syntax) && pieces[0] == seq!['.'] {
        seq![seq!['.']]
    } else {
        seq![]
    };
    prefix + root + cur + pieces.filter(|x: Seq<char>| is_normal(x))
}

/// The components of `p` between its first two and its last: for an absolute
/// Windows path such as `C:\a\b\c`, the parent directories `a`, `b` without
/// the drive.
pub open spec fn inner_components(p: Seq<char>, syntax: PathSyntax) -> Seq<Seq<char>> {
    let c = components(p, syntax);
    if c.len() <= 2 {
        seq![]
    } else {
        c.subrange(2, c.len() - 1)
    }
}

/// Whether `p` starts with two separators (see [`is_unc_like`]).
pub fn is_unc_like_path(p: &str) -> (r: bool)
    ensures
        r == is_unc_like(p@),
{
    let v = crate::text::chars_of(p);
    v.len() >= 2 && (v[0] == '\\' || v[0] == '/') && (v[1] == '\\' || v[1] == '/')
}

/// The components of `p` (see [`components`]).
pub fn components_chars(p: &Vec<char>, syntax: PathSyntax) -> (r: Vec<Vec<char>>)
    requires
        syntax is Windows ==> !is_unc_like(p@),
    ensures
        views(r@) == components(p@, syntax),
{
    let windows = match syntax {
        PathSyntax::Windows => true,
        PathSyntax::Unix => false,
    };
    let sep_c: char = if windows { '\\' } else { '/' };
    let ghost n = normalized(p@, syntax);
    let mut norm: Vec<char> = Vec::new();
    let mut i: usize = 0;
    while i < p.len()
        invariant
            i <= p.len(),
            n == normalized(p@, syntax),
            windows == (syntax is Windows),
            norm@ == n.take(i as int),
        decreases p.len() - i,
    {
        let c = p[i];
        norm.push(if windows && c == '/' { '\\' } else { c });
        assert(n.take(i + 1) == n.take(i as int).push(n[i as int]));
        i += 1;
    }
    assert(norm@ == n);
    let drive = windows && norm.len() >= 2 && ((norm[0] >= 'a' && norm[0] <= 'z') || (norm[0] >= 'A'
        && norm[0] <= 'Z')) && norm[1] == ':';
    let start: usize = if drive { 2 } else { 0 };
    let root = start < norm.len() && norm[start] == sep_c;
    let body_start: usize = if root { start + 1 } else { start };
    let mut rest: Vec<char> = Vec::new();
    let mut j: usize = body_start;
    while j < norm.len()
        invariant
            body_start <= j <= norm.len(),
            rest@ == norm@.subrange(body_start as int, j as int),
        decreases norm.len() - j,
    {
        rest.push(norm[j]);
        j += 1;
    }
    proof {
        assert(sep_c == sep(syntax));
        assert(drive == has_drive(n, syntax));
        assert(after_prefix(n, syntax) == n.subrange(start as int, n.len() as int));
        assert(root == has_root(n, syntax));
        assert(rest@ == body(n, syntax));
    }
    let pieces = split_chars(&rest, sep_c);
    assert(pieces@.len() == views(pieces@).len());
    let mut out: Vec<Vec<char>> = Vec::new();
    if drive {
        let mut d: Vec<char> = Vec::new();
        d.push(norm[0]);
        d.push(norm[1]);
        assert(d@ == n.take(2));
        out.push(d);
    }
    if root {
        let mut r: Vec<char> = Vec::new();
        r.push(sep_c);
        out.push(r);
    }
    let ghost head = views(out@);
    let first_is_dot = pieces[0].len() == 1 && pieces[0][0] == '.';
    proof {
        assert(first_is_dot == (views(pieces@)[0] == seq!['.'])) by {
            if views(pieces@)[0] == seq!['.'] {
                assert(pieces@[0]@.len() == 1);
            }
            if first_is_dot {
                assert(pieces@[0]@ == seq!['.']);
            }
        }
    }
    if !root && first_is_dot {
        let mut dot: Vec<char> = Vec::new();
        dot.push('.');
        out.push(dot);
    }
    let ghost base = views(out@);
    let ghost ps = views(pieces@);
    let ghost keep = |x: Seq<char>| is_normal(x);
    assert(ps.take(0).filter(keep) == Seq::<Seq<char>>::empty()) by {
        reveal(Seq::filter);
    }
    assert(base + ps.take(0).filter(keep) == base);
    let mut k: usize = 0;
    while k < pieces.len()
        invariant
            k <= pieces.len(),
            ps == views(pieces@),
            keep == (|x: Seq<char>| is_normal(x)),
            views(out@) == base + ps.take(k as int).filter(keep),
        decreases pieces.len() - k,
    {
        let piece = &pieces[k];
        let normal = piece.len() > 0 && !(piece.len() == 1 && piece[0] == '.');
        proof {
            assert(ps[k as int] == piece@);
            assert(normal == is_normal(piece@)) by {
                if piece@ == seq!['.'] {
                    assert(piece@.len() == 1 && piece@[0] == '.');
                }
                if piece.len() == 1 && piece@[0] == '.' {
                    assert(piece@ == seq!['.']);
                }
            }
            assert(ps.take(k + 1) == ps.take(k as int).push(ps[k as int]));
            ps.take(k as int).lemma_filter_push(ps[k as int], keep);
        }
        if normal {
            let ghost old_out = out@;
            out.push(piece.clone());
            assert(views(out@) == views(old_out).push(piece@));
        }
        k += 1;
    }
    assert(ps.take(pieces.len() as int) == ps);
    out
}

/// The parent directories, without drive and root, under which a copy of
/// the directory `dir` is placed inside a package, `dir` read with the path
/// syntax of the host: `None` where there are none, the case in which the
/// copy would land in the package root.
pub fn target_subdirs(dir: &str, syntax: PathSyntax) -> (r: Option<Vec<String>>)
    requires
        syntax is Windows ==> !is_unc_like(dir@),
    ensures
        match r {
            Some(v) => inner_components(dir@, syntax).len() > 0 && v@.map_values(
                |s: String| s@,
            ) == inner_components(dir@, syntax),
            None => inner_components(dir@, syntax).len() == 0,
        },
{
    let p = crate::text::chars_of(dir);
    let comps = components_chars(&p, syntax);
    if comps.len() <= 2 {
        return None;
    }
    let ghost inner = inner_components(dir@, syntax);
    let mut out: Vec<String> = Vec::new();
    let mut i: usize = 2;
    while i < comps.len() - 1
        invariant
            2 <= i <= comps.len() - 1,
            inner == views(comps@).subrange(2, comps.len() - 1),
            out@.map_values(|s: String| s@) == inner.take(i - 2),
        decreases comps.len() - 1 - i,
    {
        let s = string_of(&comps[i]);
        let ghost old_out = out@;
        out.push(s);
        assert(out@.map_values(|s: String| s@) == old_out.map_values(|s: String| s@).push(
            comps@[i as int]@,
        ));
        assert(inner.take(i + 1 - 2) == inner.take(i - 2).push(inner[i - 2]));
        i += 1;
    }
    assert(inner.take(comps.len() - 1 - 2) == inner);
    if out.len() == 0 {
        return None;
    }
    Some(out)
}

/// Joining pieces that lack a character with a separator other than it
/// gives a text that lacks it.
proof fn lemma_join_lacks(parts: Seq<Seq<char>>, sep_c: char, x: char)
    requires
        x != sep_c,
        forall|i: int| 0 <= i < parts.len() ==> !(#[trigger] parts[i]).contains(x),
    ensures
        !join(parts, seq![sep_c]).contains(x),
    decreases parts.len(),
{
    if parts.len() == 1 {
        assert(!parts[0].contains(x));
    } else if parts.len() > 1 {
        let init = parts.drop_last();
        lemma_join_lacks(init, sep_c, x);
        let j = join(init, seq![sep_c]);
        let w = j + seq![sep_c] + parts.last();
        assert(!parts.last().contains(x)) by {
            assert(parts[parts.len() - 1] == parts.last());
        }
        if w.contains(x) {
            let m = choose|m: int| 0 <= m < w.len() && w[m] == x;
            if m < j.len() {
                assert(w[m] == j[m]);
            } else if m > j.len() {
                assert(w[m] == parts.last()[m - j.len() - 1]);
            }
        }
    }
}

/// A copied directory `X:\d1\...\dn\last` is placed under `d1\...\dn`: every
/// directory strictly between the root and the last component, in order,
/// however deep the path is.
pub proof fn lemma_drive_path_targets(drive: char, names: Seq<Seq<char>>)
    requires
        is_ascii_letter(drive),
        names.len() > 0,
        forall|i: int|
            0 <= i < names.len() ==> is_normal(#[trigger] names[i]) && !names[i].contains('\\')
                && !names[i].contains('/'),
    ensures
        inner_components(seq![drive, ':', '\\'] + join(names, seq!['\\']), PathSyntax::Windows)
            == names.drop_last(),
        inner_components(seq![drive, ':', '\\'] + join(names, seq!['\\']), PathSyntax::Windows).len()
            == names.len() - 1,
{
    let syntax = PathSyntax::Windows;
    let j = join(names, seq!['\\']);
    let p = seq![drive, ':', '\\'] + j;
    lemma_join_lacks(names, '\\', '/');
    assert(normalized(p, syntax) == p) by {
        assert forall|i: int| 0 <= i < p.len() implies p[i] != '/' by {
            if i >= 3 {
                assert(p[i] == j[i - 3]);
            }
        }
    }
    assert(has_drive(p, syntax));
    assert(after_prefix(p, syntax) == seq!['\\'] + j);
    assert(has_root(p, syntax));
    assert(body(p, syntax) == j);
    assert forall|i: int| 0 <= i < names.len() implies !(#[trigger] names[i]).contains('\\') by {}
    lemma_split_join(names, '\\');
    let pieces = split(body(p, syntax), sep(syntax));
    assert(pieces == names);
    lemma_filter_all(names, |x: Seq<char>| is_normal(x));
    let c = components(p, syntax);
    assert(c == seq![p.take(2)] + seq![seq!['\\']] + Seq::<Seq<char>>::empty() + names);
    assert(c.subrange(2, c.len() - 1) == names.drop_last());
}

} // verus!

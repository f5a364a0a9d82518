//! Text primitives on character sequences: the string operations that the
//! package builders use (trimming, line splitting, replacing, splitting on a
//! separator, joining, ordering), each stated over `Seq<char>` and computed on
//! `Vec<char>`.
use vstd::prelude::*;

verus! {

// ---------------------------------------------------------------------------
// Specifications
// ---------------------------------------------------------------------------

/// The Unicode `White_Space` characters, the set `char::is_whitespace` tests.
pub open spec fn is_whitespace(c: char) -> bool {
    let u = c as u32;
    ||| 0x09 <= u <= 0x0d
    ||| u == 0x20
    ||| u == 0x85
    ||| u == 0xa0
    ||| u == 0x1680
    ||| 0x2000 <= u <= 0x200a
    ||| u == 0x2028
    ||| u == 0x2029
    ||| u == 0x202f
    ||| u == 0x205f
    ||| u == 0x3000
}

/// `s` without its leading white space.
pub open spec fn trim_start(s: Seq<char>) -> Seq<char>
    decreases s.len(),
{
    if s.len() > 0 && is_whitespace(s[0]) {
        trim_start(s.drop_first())
    } else {
        s
    }
}

/// `s` without its trailing white space.
pub open spec fn trim_end(s: Seq<char>) -> Seq<char>
    decreases s.len(),
{
    if s.len() > 0 && is_whitespace(s.last()) {
        trim_end(s.drop_last())
    } else {
        s
    }
}

/// `s` without leading and trailing white space (`str::trim`).
pub open spec fn trim(s: Seq<char>) -> Seq<char> {
    trim_end(trim_start(s))
}

/// `p` is a prefix of `s`.
pub open spec fn starts_with(s: Seq<char>, p: Seq<char>) -> bool {
    p.len() <= s.len() && s.take(p.len() as int) == p
}

/// `p` occurs in `s` at position `i`.
pub open spec fn occurs_at(s: Seq<char>, p: Seq<char>, i: int) -> bool {
    0 <= i && i + p.len() <= s.len() && s.subrange(i, i + p.len()) == p
}

/// `p` occurs somewhere in `s`.
pub open spec fn contains(s: Seq<char>, p: Seq<char>) -> bool {
    exists|i: int| occurs_at(s, p, i)
}

/// Every occurrence of the non-empty `pat` in `s`, taken from left to right
/// without overlap, replaced by `rep` (`str::replace`).
pub open spec fn replace(s: Seq<char>, pat: Seq<char>, rep: Seq<char>) -> Seq<char>
    decreases s.len(),
{
    if pat.len() == 0 || s.len() < pat.len() {
        s
    } else if s.take(pat.len() as int) == pat {
        rep + replace(s.skip(pat.len() as int), pat, rep)
    } else {
        seq![s[0]] + replace(s.drop_first(), pat, rep)
    }
}

/// Reading `s` from the left and cutting at each `sep`: the pieces that a
/// separator has closed, and the piece still open after the last separator.
pub open spec fn split_fold(s: Seq<char>, sep: char) -> (Seq<Seq<char>>, Seq<char>)
    decreases s.len(),
{
    if s.len() == 0 {
        (seq![], seq![])
    } else {
        let (done, cur) = split_fold(s.drop_last(), sep);
        if s.last() == sep {
            (done.push(cur), seq![])
        } else {
            (done, cur.push(s.last()))
        }
    }
}

/// The pieces of `s` between occurrences of `sep`, empty ones included
/// (`str::split` with a character pattern).
pub open spec fn split(s: Seq<char>, sep: char) -> Seq<Seq<char>> {
    split_fold(s, sep).0.push(split_fold(s, sep).1)
}

/// `l` without one trailing carriage return.
pub open spec fn strip_cr(l: Seq<char>) -> Seq<char> {
    if l.len() > 0 && l.last() == '\r' {
        l.drop_last()
    } else {
        l
    }
}

/// The lines of `s` (`str::lines`): the text is cut after each `\n`; a line
/// ended by `\n` loses that `\n` and one `\r` before it; a final piece without
/// `\n` is a line as it stands if it is not empty.
pub open spec fn lines(s: Seq<char>) -> Seq<Seq<char>> {
    let (done, cur) = split_fold(s, '\n');
    let closed = done.map_values(|l: Seq<char>| strip_cr(l));
    if cur.len() == 0 {
        closed
    } else {
        closed.push(cur)
    }
}

/// The pieces joined with `sep` between each two (`[&str]::join`).
pub open spec fn join(parts: Seq<Seq<char>>, sep: Seq<char>) -> Seq<char>
    decreases parts.len(),
{
    if parts.len() == 0 {
        seq![]
    } else if parts.len() == 1 {
        parts[0]
    } else {
        join(parts.drop_last(), sep) + sep + parts.last()
    }
}

/// The text before the first `c` in `s` and the text after it, or `None`
/// where `c` does not occur (`str::split_once`).
pub open spec fn split_once(s: Seq<char>, c: char) -> Option<(Seq<char>, Seq<char>)>
    decreases s.len(),
{
    if s.len() == 0 {
        None
    } else if s[0] == c {
        Some((seq![], s.drop_first()))
    } else {
        match split_once(s.drop_first(), c) {
            Some((k, v)) => Some((seq![s[0]] + k, v)),
            None => None,
        }
    }
}

/// The texts held by a sequence of character vectors.
pub open spec fn views(v: Seq<Vec<char>>) -> Seq<Seq<char>> {
    v.map_values(|x: Vec<char>| x@)
}

/// The strict lexicographic order of character sequences, compared by code
/// point; on strings this is the order of `String`'s `Ord`.
pub open spec fn seq_lt(a: Seq<char>, b: Seq<char>) -> bool
    decreases a.len(),
{
    if b.len() == 0 {
        false
    } else if a.len() == 0 {
        true
    } else if (a[0] as int) < (b[0] as int) {
        true
    } else if a[0] == b[0] {
        seq_lt(a.drop_first(), b.drop_first())
    } else {
        false
    }
}

// ---------------------------------------------------------------------------
// Conversions between strings and character vectors
// ---------------------------------------------------------------------------

/// `String::push`: appends one character.
#[verifier::external_body]
fn string_push(s: &mut String, c: char)
    ensures
        final(s)@ == old(s)@.push(c),
{
    s.push(c);
}

/// The characters of `s`.
pub fn chars_of(s: &str) -> (v: Vec<char>)
    ensures
        v@ == s@,
{
    let mut v: Vec<char> = Vec::new();
    for c in it: s.chars()
        invariant
            it.seq() == s@,
            v@ == it.seq().take(it.index() as int),
    {
        v.push(c);
    }
    v
}

/// The string made of the characters of `v`.
pub fn string_of(v: &Vec<char>) -> (r: String)
    ensures
        r@ == v@,
{
    let mut r = String::new();
    let mut i: usize = 0;
    while i < v.len()
        invariant
            i <= v.len(),
            r@ == v@.take(i as int),
        decreases v.len() - i,
    {
        string_push(&mut r, v[i]);
        i += 1;
    }
    assert(v@.take(v.len() as int) == v@);
    r
}

/// Appends the characters of `b` to `a`.
pub fn append(a: &mut Vec<char>, b: &Vec<char>)
    ensures
        final(a)@ == old(a)@ + b@,
{
    let mut i: usize = 0;
    while i < b.len()
        invariant
            i <= b.len(),
            a@ == old(a)@ + b@.take(i as int),
        decreases b.len() - i,
    {
        a.push(b[i]);
        i += 1;
    }
    assert(b@.take(b.len() as int) == b@);
}

/// The characters of `v` from `lo` up to `hi`.
pub fn slice_of(v: &Vec<char>, lo: usize, hi: usize) -> (r: Vec<char>)
    requires
        lo <= hi <= v.len(),
    ensures
        r@ == v@.subrange(lo as int, hi as int),
{
    let mut r: Vec<char> = Vec::new();
    let mut i: usize = lo;
    while i < hi
        invariant
            lo <= i <= hi <= v.len(),
            r@ == v@.subrange(lo as int, i as int),
        decreases hi - i,
    {
        r.push(v[i]);
        i += 1;
    }
    r
}

/// Whether `a` and `b` hold the same characters.
pub fn same_chars(a: &Vec<char>, b: &Vec<char>) -> (r: bool)
    ensures
        r == (a@ == b@),
{
    if a.len() != b.len() {
        return false;
    }
    let mut i: usize = 0;
    while i < a.len()
        invariant
            i <= a.len() == b.len(),
            a@.take(i as int) == b@.take(i as int),
        decreases a.len() - i,
    {
        if a[i] != b[i] {
            assert(a@[i as int] != b@[i as int]);
            return false;
        }
        assert(a@.take(i + 1) == a@.take(i as int).push(a@[i as int]));
        assert(b@.take(i + 1) == b@.take(i as int).push(b@[i as int]));
        i += 1;
    }
    assert(a@.take(a.len() as int) == a@);
    assert(b@.take(b.len() as int) == b@);
    true
}

// ---------------------------------------------------------------------------
// Trimming and prefixes
// ---------------------------------------------------------------------------

/// `char::is_whitespace`.
pub fn is_whitespace_char(c: char) -> (r: bool)
    ensures
        r == is_whitespace(c),
{
    let u = c as u32;
    (0x09 <= u && u <= 0x0d) || u == 0x20 || u == 0x85 || u == 0xa0 || u == 0x1680 || (0x2000
        <= u && u <= 0x200a) || u == 0x2028 || u == 0x2029 || u == 0x202f || u == 0x205f || u
        == 0x3000
}

proof fn lemma_trim_start_skip(s: Seq<char>, i: int)
    requires
        0 <= i <= s.len(),
        forall|j: int| 0 <= j < i ==> is_whitespace(#[trigger] s[j]),
    ensures
        trim_start(s) == trim_start(s.skip(i)),
    decreases i,
{
    if i > 0 {
        assert(is_whitespace(s[0]));
        assert(s.drop_first().skip(i - 1) == s.skip(i));
        lemma_trim_start_skip(s.drop_first(), i - 1);
    } else {
        assert(s.skip(0) == s);
    }
}

proof fn lemma_trim_end_take(s: Seq<char>, j: int)
    requires
        0 <= j <= s.len(),
        forall|k: int| j <= k < s.len() ==> is_whitespace(#[trigger] s[k]),
    ensures
        trim_end(s) == trim_end(s.take(j)),
    decreases s.len() - j,
{
    if j < s.len() {
        assert(is_whitespace(s[s.len() - 1]));
        assert(s.drop_last().take(j) == s.take(j));
        lemma_trim_end_take(s.drop_last(), j);
    } else {
        assert(s.take(j) == s);
    }
}

/// `str::trim` on characters.
pub fn trim_chars(v: &Vec<char>) -> (r: Vec<char>)
    ensures
        r@ == trim(v@),
{
    let mut i: usize = 0;
    while i < v.len() && is_whitespace_char(v[i])
        invariant
            i <= v.len(),
            forall|j: int| 0 <= j < i ==> is_whitespace(#[trigger] v@[j]),
        decreases v.len() - i,
    {
        i += 1;
    }
    let mut j: usize = v.len();
    while j > i && is_whitespace_char(v[j - 1])
        invariant
            i <= j <= v.len(),
            forall|k: int| j <= k < v.len() ==> is_whitespace(#[trigger] v@[k]),
        decreases j - i,
    {
        j -= 1;
    }
    proof {
        lemma_trim_start_skip(v@, i as int);
        let t = v@.skip(i as int);
        assert(trim_start(t) == t);
        assert forall|k: int| j - i <= k < t.len() implies is_whitespace(#[trigger] t[k]) by {
            assert(t[k] == v@[k + i]);
        }
        lemma_trim_end_take(t, j - i);
        let u = t.take(j - i);
        assert(u == v@.subrange(i as int, j as int));
        if u.len() > 0 {
            assert(u.last() == v@[j - 1]);
        }
        assert(trim_end(u) == u);
    }
    slice_of(v, i, j)
}

/// Whether `p` is a prefix of `s`.
pub fn starts_with_chars(s: &Vec<char>, p: &Vec<char>) -> (r: bool)
    ensures
        r == starts_with(s@, p@),
{
    if p.len() > s.len() {
        return false;
    }
    let head = slice_of(s, 0, p.len());
    assert(head@ == s@.take(p.len() as int));
    same_chars(&head, p)
}


// ---------------------------------------------------------------------------
// Replacing
// ---------------------------------------------------------------------------

/// Whether `p` occurs in `s` at position `i`.
pub fn occurs_at_chars(s: &Vec<char>, p: &Vec<char>, i: usize) -> (r: bool)
    requires
        i <= s.len(),
    ensures
        r == occurs_at(s@, p@, i as int),
{
    if p.len() > s.len() - i {
        return false;
    }
    let piece = slice_of(s, i, i + p.len());
    same_chars(&piece, p)
}

/// `str::replace` on characters: each left-to-right, non-overlapping
/// occurrence of `pat` replaced by `rep`.
pub fn replace_chars(s: &Vec<char>, pat: &Vec<char>, rep: &Vec<char>) -> (r: Vec<char>)
    requires
        pat.len() > 0,
    ensures
        r@ == replace(s@, pat@, rep@),
{
    let mut out: Vec<char> = Vec::new();
    let mut i: usize = 0;
    assert(s@.skip(0) == s@);
    while i < s.len()
        invariant
            pat.len() > 0,
            i <= s.len(),
            out@ + replace(s@.skip(i as int), pat@, rep@) == replace(s@, pat@, rep@),
        decreases s.len() - i,
    {
        let ghost t = s@.skip(i as int);
        if occurs_at_chars(s, pat, i) {
            proof {
                assert(t.take(pat.len() as int) == s@.subrange(i as int, i + pat.len()));
                assert(t.skip(pat.len() as int) == s@.skip(i + pat.len()));
                assert(out@ + rep@ + replace(s@.skip(i + pat.len()), pat@, rep@) == out@ + (rep@
                    + replace(s@.skip(i + pat.len()), pat@, rep@)));
            }
            append(&mut out, rep);
            i += pat.len();
        } else {
            proof {
                if t.len() >= pat.len() {
                    assert(t.take(pat.len() as int) == s@.subrange(i as int, i + pat.len()));
                }
                assert(t.drop_first() == s@.skip(i + 1));
                if t.len() < pat.len() {
                    assert(s@.skip(i + 1).len() < pat.len());
                    assert(t == seq![t[0]] + t.drop_first());
                }
                assert(out@.push(s@[i as int]) + replace(s@.skip(i + 1), pat@, rep@) == out@ + (
                seq![t[0]] + replace(s@.skip(i + 1), pat@, rep@)));
            }
            out.push(s[i]);
            i += 1;
        }
    }
    assert(s@.skip(s.len() as int) == Seq::<char>::empty());
    out
}

// ---------------------------------------------------------------------------
// Splitting, lines, joining
// ---------------------------------------------------------------------------

/// Cuts `s` at each `sep`: the closed pieces and the open one after the last
/// separator.
pub fn split_fold_chars(s: &Vec<char>, sep: char) -> (r: (Vec<Vec<char>>, Vec<char>))
    ensures
        (views(r.0@), r.1@) == split_fold(s@, sep),
{
    let mut done: Vec<Vec<char>> = Vec::new();
    let mut cur: Vec<char> = Vec::new();
    let mut i: usize = 0;
    while i < s.len()
        invariant
            i <= s.len(),
            (views(done@), cur@) == split_fold(s@.take(i as int), sep),
        decreases s.len() - i,
    {
        let ghost pre = s@.take(i as int);
        assert(s@.take(i + 1).drop_last() == pre);
        assert(s@.take(i + 1).last() == s@[i as int]);
        if s[i] == sep {
            let ghost old_done = done@;
            let piece = cur;
            done.push(piece);
            cur = Vec::new();
            assert(views(done@) == views(old_done).push(
                split_fold(pre, sep).1,
            ));
        } else {
            cur.push(s[i]);
        }
        i += 1;
    }
    assert(s@.take(s.len() as int) == s@);
    (done, cur)
}

/// `str::split` on one character: all pieces, empty ones included.
pub fn split_chars(s: &Vec<char>, sep: char) -> (r: Vec<Vec<char>>)
    ensures
        views(r@) == split(s@, sep),
{
    let (mut done, cur) = split_fold_chars(s, sep);
    let ghost old_done = done@;
    done.push(cur);
    assert(views(done@) == views(old_done).push(
        split_fold(s@, sep).1,
    ));
    done
}

/// `l` without one trailing carriage return.
pub fn strip_cr_chars(l: Vec<char>) -> (r: Vec<char>)
    ensures
        r@ == strip_cr(l@),
{
    let mut l = l;
    if l.len() > 0 && l[l.len() - 1] == '\r' {
        l.pop();
    }
    l
}

/// `str::lines` on characters.
pub fn lines_chars(s: &Vec<char>) -> (r: Vec<Vec<char>>)
    ensures
        views(r@) == lines(s@),
{
    let (done, cur) = split_fold_chars(s, '\n');
    let ghost closed = views(done@).map_values(|l: Seq<char>| strip_cr(l));
    let mut out: Vec<Vec<char>> = Vec::new();
    let mut i: usize = 0;
    while i < done.len()
        invariant
            i <= done.len(),
            closed == views(done@).map_values(|l: Seq<char>| strip_cr(l)),
            views(out@) == closed.take(i as int),
        decreases done.len() - i,
    {
        let line = strip_cr_chars(done[i].clone());
        let ghost old_out = out@;
        out.push(line);
        assert(views(out@) == views(old_out).push(
            line@,
        ));
        assert(closed.take(i + 1) == closed.take(i as int).push(closed[i as int]));
        i += 1;
    }
    assert(closed.take(done.len() as int) == closed);
    if cur.len() > 0 {
        let ghost old_out = out@;
        out.push(cur);
        assert(views(out@) == views(old_out).push(
            split_fold(s@, '\n').1,
        ));
    }
    out
}

/// `[&str]::join` on characters.
pub fn join_chars(parts: &Vec<Vec<char>>, sep: &Vec<char>) -> (r: Vec<char>)
    ensures
        r@ == join(views(parts@), sep@),
{
    let ghost ps = views(parts@);
    let mut out: Vec<char> = Vec::new();
    let mut i: usize = 0;
    while i < parts.len()
        invariant
            i <= parts.len(),
            ps == views(parts@),
            out@ == join(ps.take(i as int), sep@),
        decreases parts.len() - i,
    {
        assert(ps.take(i + 1).drop_last() == ps.take(i as int));
        assert(ps.take(i + 1).last() == parts[i as int]@);
        if i > 0 {
            append(&mut out, sep);
        }
        append(&mut out, &parts[i]);
        i += 1;
    }
    assert(ps.take(parts.len() as int) == ps);
    out
}

// ---------------------------------------------------------------------------
// split_once and ordering
// ---------------------------------------------------------------------------

proof fn lemma_split_once_at(s: Seq<char>, c: char, i: int)
    requires
        0 <= i < s.len(),
        s[i] == c,
        forall|j: int| 0 <= j < i ==> s[j] != c,
    ensures
        split_once(s, c) == Some((s.take(i), s.skip(i + 1))),
    decreases i,
{
    if i == 0 {
        assert(s.take(0) == Seq::<char>::empty());
        assert(s.skip(1) == s.drop_first());
    } else {
        lemma_split_once_at(s.drop_first(), c, i - 1);
        assert(seq![s[0]] + s.drop_first().take(i - 1) == s.take(i));
        assert(s.drop_first().skip(i) == s.skip(i + 1));
    }
}

/// What `split_once` gives back: the text before the first `c`, free of
/// `c`, and the text after it.
pub proof fn lemma_split_once_parts(s: Seq<char>, c: char)
    ensures
        split_once(s, c) matches Some((k, v)) ==> !k.contains(c) && s == k + seq![c] + v,
        split_once(s, c) is None ==> !s.contains(c),
    decreases s.len(),
{
    if s.len() > 0 {
        lemma_split_once_parts(s.drop_first(), c);
        if s[0] == c {
            assert(s == seq![] + seq![c] + s.drop_first());
        } else {
            match split_once(s.drop_first(), c) {
                Some((k, v)) => {
                    assert(s.drop_first() == k + seq![c] + v);
                    assert(s == seq![s[0]] + s.drop_first());
                    assert(s == (seq![s[0]] + k) + seq![c] + v);
                    if (seq![s[0]] + k).contains(c) {
                        let j = choose|j: int| 0 <= j < k.len() + 1 && (seq![s[0]] + k)[j] == c;
                        assert(k[j - 1] == c);
                    }
                },
                None => {
                    if s.contains(c) {
                        let j = choose|j: int| 0 <= j < s.len() && s[j] == c;
                        assert(s.drop_first()[j - 1] == c);
                    }
                },
            }
        }
    }
}

proof fn lemma_split_once_none(s: Seq<char>, c: char)
    requires
        forall|j: int| 0 <= j < s.len() ==> s[j] != c,
    ensures
        split_once(s, c) is None,
    decreases s.len(),
{
    if s.len() > 0 {
        lemma_split_once_none(s.drop_first(), c);
    }
}

/// `str::split_once` on one character: the text before the first `c` and
/// the text after it, or `None` where `c` does not occur.
pub fn split_once_chars(s: &Vec<char>, c: char) -> (r: Option<(Vec<char>, Vec<char>)>)
    ensures
        match r {
            Some((k, v)) => split_once(s@, c) == Some((k@, v@)) && !k@.contains(c) && s@ == k@
                + seq![c] + v@,
            None => split_once(s@, c) is None && !s@.contains(c),
        },
{
    let mut i: usize = 0;
    while i < s.len()
        invariant
            i <= s.len(),
            forall|j: int| 0 <= j < i ==> s@[j] != c,
        decreases s.len() - i,
    {
        if s[i] == c {
            let k = slice_of(s, 0, i);
            let v = slice_of(s, i + 1, s.len());
            proof {
                lemma_split_once_at(s@, c, i as int);
                assert(s@ == k@ + seq![c] + v@);
                if k@.contains(c) {
                    let j = choose|j: int| 0 <= j < k@.len() && k@[j] == c;
                    assert(s@[j] == c);
                }
            }
            return Some((k, v));
        }
        i += 1;
    }
    proof {
        lemma_split_once_none(s@, c);
        if s@.contains(c) {
            let j = choose|j: int| 0 <= j < s@.len() && s@[j] == c;
            assert(s@[j] != c);
        }
    }
    None
}

/// Whether `a` comes strictly before `b` in the lexicographic order.
pub fn lt_chars(a: &Vec<char>, b: &Vec<char>) -> (r: bool)
    ensures
        r == seq_lt(a@, b@),
{
    let mut i: usize = 0;
    assert(a@.skip(0) == a@ && b@.skip(0) == b@);
    while i < a.len() && i < b.len()
        invariant
            i <= a.len(),
            i <= b.len(),
            seq_lt(a@, b@) == seq_lt(a@.skip(i as int), b@.skip(i as int)),
        decreases a.len() - i,
    {
        let x = a[i];
        let y = b[i];
        let ghost sa = a@.skip(i as int);
        let ghost sb = b@.skip(i as int);
        assert(sa[0] == x && sb[0] == y);
        if x < y {
            return true;
        }
        if x != y {
            return false;
        }
        assert(sa.drop_first() == a@.skip(i + 1));
        assert(sb.drop_first() == b@.skip(i + 1));
        i += 1;
    }
    b.len() > i
}


// ---------------------------------------------------------------------------
// The lexicographic order is a strict total order
// ---------------------------------------------------------------------------

/// No text comes before itself.
pub proof fn lemma_seq_lt_irreflexive(a: Seq<char>)
    ensures
        !seq_lt(a, a),
    decreases a.len(),
{
    if a.len() > 0 {
        lemma_seq_lt_irreflexive(a.drop_first());
    }
}

/// Of two texts at most one comes before the other.
pub proof fn lemma_seq_lt_asymmetric(a: Seq<char>, b: Seq<char>)
    ensures
        !(seq_lt(a, b) && seq_lt(b, a)),
    decreases a.len(),
{
    if a.len() > 0 && b.len() > 0 && a[0] == b[0] {
        lemma_seq_lt_asymmetric(a.drop_first(), b.drop_first());
    }
}

/// The order is transitive.
pub proof fn lemma_seq_lt_transitive(a: Seq<char>, b: Seq<char>, c: Seq<char>)
    requires
        seq_lt(a, b),
        seq_lt(b, c),
    ensures
        seq_lt(a, c),
    decreases a.len(),
{
    if a.len() > 0 && b.len() > 0 && c.len() > 0 && a[0] == b[0] && b[0] == c[0] {
        lemma_seq_lt_transitive(a.drop_first(), b.drop_first(), c.drop_first());
    }
}

/// Two texts are equal, or one comes before the other.
pub proof fn lemma_seq_lt_total(a: Seq<char>, b: Seq<char>)
    ensures
        seq_lt(a, b) || a == b || seq_lt(b, a),
    decreases a.len(),
{
    if a.len() == 0 && b.len() == 0 {
        assert(a == b);
    } else if a.len() > 0 && b.len() > 0 && a[0] == b[0] {
        lemma_seq_lt_total(a.drop_first(), b.drop_first());
        if a.drop_first() == b.drop_first() {
            assert(a == seq![a[0]] + a.drop_first());
            assert(b == seq![b[0]] + b.drop_first());
        }
    } else if a.len() > 0 && b.len() > 0 && a[0] != b[0] {
        assert((a[0] as int) != (b[0] as int));
    }
}

/// "Not after" is transitive: if `b` is not before `a` and `c` not before
/// `b`, then `c` is not before `a`.
pub proof fn lemma_seq_le_transitive(a: Seq<char>, b: Seq<char>, c: Seq<char>)
    requires
        !seq_lt(b, a),
        !seq_lt(c, b),
    ensures
        !seq_lt(c, a),
{
    if seq_lt(c, a) {
        lemma_seq_lt_total(c, b);
        if seq_lt(b, c) {
            lemma_seq_lt_transitive(b, c, a);
        }
    }
}


// ---------------------------------------------------------------------------
// What replacing removes
// ---------------------------------------------------------------------------

/// `a` and `b` agree wherever both have a character.
pub open spec fn compatible(a: Seq<char>, b: Seq<char>) -> bool {
    forall|j: int| 0 <= j < a.len() && j < b.len() ==> a[j] == b[j]
}

/// No occurrence of `pat` can overlap a copy of `rep`: none starts inside
/// `rep`, and none starts before `rep` and reaches into it.
pub open spec fn no_overlap(pat: Seq<char>, rep: Seq<char>) -> bool {
    &&& forall|k: int| 0 <= k < rep.len() ==> !compatible(#[trigger] rep.skip(k), pat)
    &&& forall|m: int| 1 <= m < pat.len() ==> !compatible(#[trigger] pat.skip(m), rep)
}

/// Where no occurrence of `pat` starts before position `n`, replacing keeps
/// the first `n` characters.
proof fn lemma_replace_kept_prefix(t: Seq<char>, pat: Seq<char>, rep: Seq<char>, n: int)
    requires
        pat.len() > 0,
        0 <= n <= t.len(),
        forall|i: int| 0 <= i < n ==> !starts_with(#[trigger] t.skip(i), pat),
    ensures
        replace(t, pat, rep) == t.take(n) + replace(t.skip(n), pat, rep),
    decreases n,
{
    if n == 0 {
        assert(t.skip(0) == t);
        assert(t.take(0) + replace(t, pat, rep) == replace(t, pat, rep));
    } else {
        assert(t.skip(0) == t);
        assert(!starts_with(t.skip(0), pat));
        let d = t.drop_first();
        assert forall|i: int| 0 <= i < n - 1 implies !starts_with(#[trigger] d.skip(i), pat) by {
            assert(d.skip(i) == t.skip(i + 1));
        }
        lemma_replace_kept_prefix(d, pat, rep, n - 1);
        assert(d.skip(n - 1) == t.skip(n));
        if t.len() >= pat.len() {
            assert(t.take(pat.len() as int) != pat);
        }
        assert(seq![t[0]] + d.take(n - 1) == t.take(n));
    }
}

/// The first position at or after `i` where `pat` occurs in `t`, or the
/// length of `t` where there is none.
proof fn first_match_from(t: Seq<char>, pat: Seq<char>, i: int) -> (n: int)
    requires
        0 <= i <= t.len(),
        forall|k: int| 0 <= k < i ==> !starts_with(#[trigger] t.skip(k), pat),
    ensures
        i <= n <= t.len(),
        forall|k: int| 0 <= k < n ==> !starts_with(#[trigger] t.skip(k), pat),
        n < t.len() ==> starts_with(t.skip(n), pat),
    decreases t.len() - i,
{
    if i == t.len() || starts_with(t.skip(i), pat) {
        i
    } else {
        first_match_from(t, pat, i + 1)
    }
}

/// Where `pat` and `rep` cannot overlap, replacing every occurrence of
/// `pat` by `rep` leaves no occurrence of `pat`.
pub proof fn lemma_replace_removes(s: Seq<char>, pat: Seq<char>, rep: Seq<char>)
    requires
        pat.len() > 0,
        no_overlap(pat, rep),
    ensures
        !contains(replace(s, pat, rep), pat),
    decreases s.len(),
{
    let out = replace(s, pat, rep);
    let plen = pat.len() as int;
    if s.len() < plen {
        assert(out == s);
        assert forall|q: int| !occurs_at(out, pat, q) by {}
    } else if s.take(plen) == pat {
        let rest = replace(s.skip(plen), pat, rep);
        lemma_replace_removes(s.skip(plen), pat, rep);
        assert(out == rep + rest);
        assert forall|q: int| !occurs_at(out, pat, q) by {
            if occurs_at(out, pat, q) {
                if q >= rep.len() {
                    assert(rest.subrange(q - rep.len(), q - rep.len() + plen) == out.subrange(
                        q,
                        q + plen,
                    ));
                    assert(occurs_at(rest, pat, q - rep.len()));
                } else {
                    assert forall|j: int|
                        0 <= j < rep.skip(q).len() && j < pat.len() implies rep.skip(q)[j]
                        == pat[j] by {
                        assert(out.subrange(q, q + plen)[j] == out[q + j]);
                    }
                    assert(compatible(rep.skip(q), pat));
                }
            }
        }
    } else {
        let t = s.drop_first();
        let rest = replace(t, pat, rep);
        lemma_replace_removes(t, pat, rep);
        assert(out == seq![s[0]] + rest);
        assert forall|q: int| !occurs_at(out, pat, q) by {
            if occurs_at(out, pat, q) {
                if q >= 1 {
                    assert(rest.subrange(q - 1, q - 1 + plen) == out.subrange(q, q + plen));
                    assert(occurs_at(rest, pat, q - 1));
                } else {
                    // the occurrence starts at the kept first character
                    let n = first_match_from(t, pat, 0);
                    lemma_replace_kept_prefix(t, pat, rep, n);
                    let tail = replace(t.skip(n), pat, rep);
                    assert(out == seq![s[0]] + t.take(n) + tail);
                    if 1 + n >= plen {
                        assert forall|j: int| 0 <= j < plen implies out[j] == s[j] by {
                            if j > 0 {
                                assert(out[j] == t.take(n)[j - 1]);
                            }
                        }
                        assert(out.subrange(0, plen) == s.take(plen));
                    } else {
                        let m = 1 + n;
                        assert(t.skip(n).take(plen) == pat);
                        assert(tail == rep + replace(t.skip(n).skip(plen), pat, rep));
                        assert forall|j: int|
                            0 <= j < pat.skip(m).len() && j < rep.len() implies pat.skip(m)[j]
                            == rep[j] by {
                            assert(out.subrange(0, plen)[m + j] == out[m + j]);
                            assert(out[m + j] == tail[j]);
                        }
                        assert(compatible(pat.skip(m), rep));
                    }
                }
            }
        }
    }
}


// ---------------------------------------------------------------------------
// Absence of a pattern in pieces and concatenations
// ---------------------------------------------------------------------------

/// `d` is a contiguous piece of `s`.
pub open spec fn is_piece_of(d: Seq<char>, s: Seq<char>) -> bool {
    exists|i: int, j: int| 0 <= i <= j <= s.len() && d == #[trigger] s.subrange(i, j)
}

/// A text without `p` has no piece with `p`.
pub proof fn lemma_piece_keeps_absence(d: Seq<char>, s: Seq<char>, p: Seq<char>)
    requires
        is_piece_of(d, s),
        !contains(s, p),
    ensures
        !contains(d, p),
{
    let (i, j) = choose|i: int, j: int| 0 <= i <= j <= s.len() && d == s.subrange(i, j);
    assert forall|q: int| !occurs_at(d, p, q) by {
        if occurs_at(d, p, q) {
            assert(s.subrange(i + q, i + q + p.len()) == d.subrange(q, q + p.len()));
            assert(occurs_at(s, p, i + q));
        }
    }
}

/// A piece of a piece is a piece.
pub proof fn lemma_piece_transitive(a: Seq<char>, b: Seq<char>, c: Seq<char>)
    requires
        is_piece_of(a, b),
        is_piece_of(b, c),
    ensures
        is_piece_of(a, c),
{
    let (i, j) = choose|i: int, j: int| 0 <= i <= j <= b.len() && a == b.subrange(i, j);
    let (k, l) = choose|k: int, l: int| 0 <= k <= l <= c.len() && b == c.subrange(k, l);
    assert(a == c.subrange(k + i, k + j));
}

/// Every piece that `split_fold` produces is a piece of the text, the open
/// one a suffix.
pub proof fn lemma_split_fold_pieces(s: Seq<char>, sep: char)
    ensures
        split_fold(s, sep).1.len() <= s.len(),
        split_fold(s, sep).1 == s.subrange(s.len() - split_fold(s, sep).1.len(), s.len() as int),
        forall|i: int|
            0 <= i < split_fold(s, sep).0.len() ==> is_piece_of(
                #[trigger] split_fold(s, sep).0[i],
                s,
            ),
    decreases s.len(),
{
    if s.len() > 0 {
        let t = s.drop_last();
        lemma_split_fold_pieces(t, sep);
        let (done, cur) = split_fold(t, sep);
        assert forall|i: int| 0 <= i < done.len() implies is_piece_of(#[trigger] done[i], s) by {
            let (a, b) = choose|a: int, b: int| 0 <= a <= b <= t.len() && done[i] == t.subrange(a, b);
            assert(done[i] == s.subrange(a, b));
        }
        assert(cur == t.subrange(t.len() - cur.len(), t.len() as int));
        assert(t.subrange(t.len() - cur.len(), t.len() as int) == s.subrange(
            t.len() - cur.len(),
            t.len() as int,
        ));
        if s.last() == sep {
            assert(split_fold(s, sep).0 == done.push(cur));
            assert(is_piece_of(cur, s));
            assert forall|i: int| 0 <= i < done.len() + 1 implies is_piece_of(
                #[trigger] done.push(cur)[i],
                s,
            ) by {
                if i < done.len() {
                    assert(done.push(cur)[i] == done[i]);
                }
            }
            assert(s.subrange(s.len() as int, s.len() as int) == Seq::<char>::empty());
        } else {
            assert(cur.push(s.last()) == s.subrange(s.len() - (cur.len() + 1), s.len() as int));
        }
    } else {
        assert(split_fold(s, sep).1 == s.subrange(0, 0));
    }
}

/// Every line of a text is a piece of it.
pub proof fn lemma_lines_pieces(s: Seq<char>)
    ensures
        forall|i: int| 0 <= i < lines(s).len() ==> is_piece_of(#[trigger] lines(s)[i], s),
{
    lemma_split_fold_pieces(s, '\n');
    let (done, cur) = split_fold(s, '\n');
    let closed = done.map_values(|l: Seq<char>| strip_cr(l));
    assert forall|i: int| 0 <= i < lines(s).len() implies is_piece_of(#[trigger] lines(s)[i], s) by {
        if i < done.len() {
            assert(closed[i] == strip_cr(done[i]));
            assert(lines(s)[i] == closed[i]);
            let d = done[i];
            assert(is_piece_of(done[i], s));
            if d.len() > 0 && d.last() == '\r' {
                assert(strip_cr(d) == d.subrange(0, d.len() - 1));
            } else {
                assert(strip_cr(d) == d.subrange(0, d.len() as int));
            }
            lemma_piece_transitive(strip_cr(d), d, s);
        } else {
            assert(lines(s)[i] == cur);
            assert(is_piece_of(cur, s));
        }
    }
}

proof fn lemma_trim_start_piece(s: Seq<char>)
    ensures
        exists|k: int| 0 <= k <= s.len() && trim_start(s) == #[trigger] s.skip(k),
    decreases s.len(),
{
    if s.len() > 0 && is_whitespace(s[0]) {
        lemma_trim_start_piece(s.drop_first());
        let k = choose|k: int|
            0 <= k <= s.drop_first().len() && trim_start(s.drop_first()) == #[trigger] s.drop_first().skip(k);
        assert(s.drop_first().skip(k) == s.skip(k + 1));
    } else {
        assert(s.skip(0) == s);
    }
}

proof fn lemma_trim_end_piece(s: Seq<char>)
    ensures
        exists|k: int| 0 <= k <= s.len() && trim_end(s) == #[trigger] s.take(k),
    decreases s.len(),
{
    if s.len() > 0 && is_whitespace(s.last()) {
        lemma_trim_end_piece(s.drop_last());
        let k = choose|k: int|
            0 <= k <= s.drop_last().len() && trim_end(s.drop_last()) == #[trigger] s.drop_last().take(k);
        assert(s.drop_last().take(k) == s.take(k));
    } else {
        assert(s.take(s.len() as int) == s);
    }
}

/// Trimming keeps a piece of the text.
pub proof fn lemma_trim_piece(s: Seq<char>)
    ensures
        is_piece_of(trim(s), s),
{
    lemma_trim_start_piece(s);
    let k = choose|k: int| 0 <= k <= s.len() && trim_start(s) == #[trigger] s.skip(k);
    let t = trim_start(s);
    lemma_trim_end_piece(t);
    let m = choose|m: int| 0 <= m <= t.len() && trim_end(t) == #[trigger] t.take(m);
    assert(trim(s) == s.subrange(k, k + m));
}

/// A pattern whose first character is missing from a text does not occur in
/// it.
pub proof fn lemma_absent_first_char(a: Seq<char>, p: Seq<char>)
    requires
        p.len() > 0,
        !a.contains(p[0]),
    ensures
        !contains(a, p),
{
    assert forall|q: int| !occurs_at(a, p, q) by {
        if occurs_at(a, p, q) {
            assert(a.subrange(q, q + p.len())[0] == a[q]);
        }
    }
}

/// No occurrence of `p` can cross from `a` into `b`: `a` does not end with a
/// character that `p` has before its last, or `b` does not start with a
/// character that `p` has after its first.
pub open spec fn boundary_safe(a: Seq<char>, b: Seq<char>, p: Seq<char>) -> bool {
    ||| a.len() == 0
    ||| b.len() == 0
    ||| !p.take(p.len() - 1).contains(a.last())
    ||| !p.skip(1).contains(b[0])
}

/// Joining two texts without `p` at a safe boundary gives a text without `p`.
pub proof fn lemma_concat_keeps_absence(a: Seq<char>, b: Seq<char>, p: Seq<char>)
    requires
        p.len() > 0,
        !contains(a, p),
        !contains(b, p),
        boundary_safe(a, b, p),
    ensures
        !contains(a + b, p),
{
    let w = a + b;
    let n = p.len() as int;
    assert forall|q: int| !occurs_at(w, p, q) by {
        if occurs_at(w, p, q) {
            if q + n <= a.len() {
                assert(a.subrange(q, q + n) == w.subrange(q, q + n));
                assert(occurs_at(a, p, q));
            } else if q >= a.len() {
                assert(b.subrange(q - a.len(), q - a.len() + n) == w.subrange(q, q + n));
                assert(occurs_at(b, p, q - a.len()));
            } else {
                let i = a.len() - 1 - q;
                assert(w.subrange(q, q + n)[i] == a.last());
                assert(p.take(n - 1)[i] == a.last());
                assert(w.subrange(q, q + n)[i + 1] == b[0]);
                assert(p.skip(1)[i] == b[0]);
            }
        }
    }
}


// ---------------------------------------------------------------------------
// Texts that the operations leave as they are
// ---------------------------------------------------------------------------

/// Replacing changes nothing in a text where the pattern does not occur.
pub proof fn lemma_replace_absent(s: Seq<char>, pat: Seq<char>, rep: Seq<char>)
    requires
        pat.len() > 0,
        !contains(s, pat),
    ensures
        replace(s, pat, rep) == s,
    decreases s.len(),
{
    if s.len() >= pat.len() {
        assert(s.subrange(0, pat.len() as int) == s.take(pat.len() as int));
        assert(!occurs_at(s, pat, 0));
        let d = s.drop_first();
        assert forall|q: int| !occurs_at(d, pat, q) by {
            if occurs_at(d, pat, q) {
                assert(s.subrange(q + 1, q + 1 + pat.len()) == d.subrange(q, q + pat.len()));
                assert(occurs_at(s, pat, q + 1));
            }
        }
        lemma_replace_absent(d, pat, rep);
        assert(s == seq![s[0]] + d);
    }
}

/// Cutting at `c` leaves a tail without `c` in the open piece.
proof fn lemma_split_fold_tail(x: Seq<char>, b: Seq<char>, c: char)
    requires
        !b.contains(c),
    ensures
        split_fold(x + b, c) == (split_fold(x, c).0, split_fold(x, c).1 + b),
    decreases b.len(),
{
    if b.len() == 0 {
        assert(x + b == x);
        assert(split_fold(x, c).1 + b == split_fold(x, c).1);
    } else {
        let bl = b.drop_last();
        assert(!bl.contains(c)) by {
            if bl.contains(c) {
                let j = choose|j: int| 0 <= j < bl.len() && bl[j] == c;
                assert(b[j] == c);
            }
        }
        lemma_split_fold_tail(x, bl, c);
        assert((x + b).drop_last() == x + bl);
        assert((x + b).last() == b.last());
        assert(b.last() != c) by {
            assert(b[b.len() - 1] == b.last());
        }
        assert(split_fold(x, c).1 + bl + seq![b.last()] == split_fold(x, c).1 + b);
    }
}

/// A non-empty text without a newline is a single line, itself.
pub proof fn lemma_single_line(t: Seq<char>)
    requires
        t.len() > 0,
        !t.contains('\n'),
    ensures
        lines(t) == seq![t],
{
    let e = Seq::<char>::empty();
    lemma_split_fold_tail(e, t, '\n');
    assert(e + t == t);
    assert(split_fold(e, '\n') == (Seq::<Seq<char>>::empty(), e));
    assert(e + t == t);
    let closed = Seq::<Seq<char>>::empty().map_values(|l: Seq<char>| strip_cr(l));
    assert(closed == Seq::<Seq<char>>::empty());
    assert(closed.push(t) == seq![t]);
}

/// Splitting `join(parts, [c])` at `c` gives the parts back when none holds
/// `c`.
pub proof fn lemma_split_join(parts: Seq<Seq<char>>, c: char)
    requires
        parts.len() > 0,
        forall|i: int| 0 <= i < parts.len() ==> !(#[trigger] parts[i]).contains(c),
    ensures
        split(join(parts, seq![c]), c) == parts,
    decreases parts.len(),
{
    let e = Seq::<char>::empty();
    if parts.len() == 1 {
        lemma_split_fold_tail(e, parts[0], c);
        assert(e + parts[0] == parts[0]);
        assert(split_fold(e, c) == (Seq::<Seq<char>>::empty(), e));
        assert(Seq::<Seq<char>>::empty().push(parts[0]) == parts);
    } else {
        let init = parts.drop_last();
        lemma_split_join(init, c);
        let j = join(init, seq![c]);
        let jc = j + seq![c];
        assert(jc.drop_last() == j);
        assert(jc.last() == c);
        assert(split_fold(jc, c) == (split(j, c), e));
        assert(!parts.last().contains(c)) by {
            assert(parts[parts.len() - 1] == parts.last());
        }
        lemma_split_fold_tail(jc, parts.last(), c);
        assert(join(parts, seq![c]) == jc + parts.last());
        assert(e + parts.last() == parts.last());
        assert(init.push(parts.last()) == parts);
    }
}

/// Keeping the pieces that satisfy `f` keeps them all when all do.
pub proof fn lemma_filter_all(s: Seq<Seq<char>>, f: spec_fn(Seq<char>) -> bool)
    requires
        forall|i: int| 0 <= i < s.len() ==> f(#[trigger] s[i]),
    ensures
        s.filter(f) == s,
    decreases s.len(),
{
    reveal(Seq::filter);
    if s.len() > 0 {
        lemma_filter_all(s.drop_last(), f);
        assert(f(s[s.len() - 1]));
        assert(s.drop_last().push(s.last()) == s);
    }
}

proof fn lemma_trim_start_first(s: Seq<char>)
    ensures
        trim_start(s).len() > 0 ==> !is_whitespace(trim_start(s)[0]),
    decreases s.len(),
{
    if s.len() > 0 && is_whitespace(s[0]) {
        lemma_trim_start_first(s.drop_first());
    }
}

proof fn lemma_trim_end_last(s: Seq<char>)
    ensures
        trim_end(s).len() > 0 ==> !is_whitespace(trim_end(s).last()),
    decreases s.len(),
{
    if s.len() > 0 && is_whitespace(s.last()) {
        lemma_trim_end_last(s.drop_last());
    }
}

/// Trimming leaves a text alone that neither starts nor ends with white
/// space.
pub proof fn lemma_trim_fixed(s: Seq<char>)
    requires
        s.len() > 0 ==> !is_whitespace(s[0]) && !is_whitespace(s.last()),
    ensures
        trim(s) == s,
{
}

/// Trimming twice is trimming once.
pub proof fn lemma_trim_idempotent(s: Seq<char>)
    ensures
        trim(trim(s)) == trim(s),
{
    let t = trim_start(s);
    lemma_trim_start_first(s);
    lemma_trim_end_last(t);
    lemma_trim_end_piece(t);
    let k = choose|k: int| 0 <= k <= t.len() && trim_end(t) == #[trigger] t.take(k);
    if trim(s).len() > 0 {
        assert(trim(s)[0] == t[0]);
    }
    lemma_trim_fixed(trim(s));
}

/// A piece of a text without `c` holds no `c`.
pub proof fn lemma_piece_lacks(d: Seq<char>, s: Seq<char>, c: char)
    requires
        is_piece_of(d, s),
        !s.contains(c),
    ensures
        !d.contains(c),
{
    let (i, j) = choose|i: int, j: int| 0 <= i <= j <= s.len() && d == s.subrange(i, j);
    if d.contains(c) {
        let m = choose|m: int| 0 <= m < d.len() && d[m] == c;
        assert(s[i + m] == c);
    }
}

/// Replacing a pattern by a text of its length keeps the length.
pub proof fn lemma_replace_same_length(s: Seq<char>, pat: Seq<char>, rep: Seq<char>)
    requires
        pat.len() > 0,
        rep.len() == pat.len(),
    ensures
        replace(s, pat, rep).len() == s.len(),
    decreases s.len(),
{
    if s.len() >= pat.len() {
        if s.take(pat.len() as int) == pat {
            lemma_replace_same_length(s.skip(pat.len() as int), pat, rep);
        } else {
            lemma_replace_same_length(s.drop_first(), pat, rep);
        }
    }
}

} // verus!

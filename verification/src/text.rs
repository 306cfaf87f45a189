use vstd::prelude::*;
use vstd::std_specs::iter::IteratorSpec;

verus! {

/// `String::push` appends exactly one character to the end of the string.
pub assume_specification[ String::push ](s: &mut String, c: char)
    ensures
        final(s)@ == old(s)@.push(c),
;

/// Collects the characters of `s` into a vector.
pub fn chars_of(s: &str) -> (v: Vec<char>)
    ensures
        v@ == s@,
{
    let mut v: Vec<char> = Vec::new();
    for c in it: s.chars()
        invariant
            v@ == it.seq().take(it.index()),
            it.seq() == s@,
    {
        v.push(c);
    }
    v
}

/// Builds a string out of the characters `v[from..to]`.
pub fn substring(v: &Vec<char>, from: usize, to: usize) -> (s: String)
    requires
        from <= to <= v.len(),
    ensures
        s@ == v@.subrange(from as int, to as int),
{
    let mut s = String::new();
    let mut i: usize = from;
    while i < to
        invariant
            from <= i <= to <= v.len(),
            s@ == v@.subrange(from as int, i as int),
        decreases to - i,
    {
        s.push(v[i]);
        i += 1;
    }
    s
}

/// Copies the characters `v[from..to]`.
pub fn subvec(v: &Vec<char>, from: usize, to: usize) -> (r: Vec<char>)
    requires
        from <= to <= v.len(),
    ensures
        r@ == v@.subrange(from as int, to as int),
{
    let mut r: Vec<char> = Vec::new();
    let mut i: usize = from;
    while i < to
        invariant
            from <= i <= to <= v.len(),
            r@ == v@.subrange(from as int, i as int),
        decreases to - i,
    {
        r.push(v[i]);
        i += 1;
    }
    r
}

/// Appends the characters of `more` to `out`.
pub fn extend(out: &mut Vec<char>, more: &Vec<char>)
    ensures
        final(out)@ == old(out)@ + more@,
{
    let mut i: usize = 0;
    assert(more@.take(0) =~= Seq::<char>::empty());
    assert(out@ + Seq::<char>::empty() =~= out@);
    while i < more.len()
        invariant
            i <= more.len(),
            out@ == old(out)@ + more@.take(i as int),
        decreases more.len() - i,
    {
        assert(more@.take(i as int).push(more@[i as int]) =~= more@.take(i + 1));
        assert((old(out)@ + more@.take(i as int)).push(more@[i as int]) =~= old(out)@
            + more@.take(i + 1));
        out.push(more[i]);
        i += 1;
    }
    assert(more@.take(more@.len() as int) =~= more@);
}

/// Appends the characters of `more` to `out`.
pub fn extend_str(out: &mut Vec<char>, more: &str)
    ensures
        final(out)@ == old(out)@ + more@,
{
    let v = chars_of(more);
    extend(out, &v);
}

/// Builds a string out of a vector of characters.
pub fn string_of(v: &Vec<char>) -> (s: String)
    ensures
        s@ == v@,
{
    let s = substring(v, 0, v.len());
    assert(v@.subrange(0, v.len() as int) == v@);
    s
}

/// Whether `c` is an upper-case letter of ISO 8859-1.
pub open spec fn is_upper(c: char) -> bool {
    ('A' <= c && c <= 'Z') || ('\u{c0}' <= c && c <= '\u{de}' && c != '\u{d7}')
}

/// The lower-case form of `c` within ISO 8859-1; other characters are unchanged.
pub open spec fn lower_char(c: char) -> char {
    if is_upper(c) {
        ((c as u8 + 32) as u8) as char
    } else {
        c
    }
}

/// The sequence `s` with every letter in lower case.
pub open spec fn lower_seq(s: Seq<char>) -> Seq<char> {
    Seq::new(s.len(), |i: int| lower_char(s[i]))
}

/// Lower-cases one character.
pub fn to_lower_char(c: char) -> (r: char)
    ensures
        r == lower_char(c),
{
    if ('A' <= c && c <= 'Z') || ('\u{c0}' <= c && c <= '\u{de}' && c != '\u{d7}') {
        let b: u8 = c as u8;
        (b + 32) as char
    } else {
        c
    }
}

/// Lower-cases every character of `v`.
pub fn to_lower(v: &Vec<char>) -> (r: Vec<char>)
    ensures
        r@ == lower_seq(v@),
{
    let mut r: Vec<char> = Vec::new();
    let mut i: usize = 0;
    while i < v.len()
        invariant
            i <= v.len(),
            r.len() == i,
            forall|j: int| 0 <= j < i ==> r@[j] == lower_char(#[trigger] v@[j]),
        decreases v.len() - i,
    {
        r.push(to_lower_char(v[i]));
        i += 1;
    }
    assert(r@ =~= lower_seq(v@));
    r
}

/// Whether two character vectors hold the same characters.
pub fn chars_eq(a: &Vec<char>, b: &Vec<char>) -> (r: bool)
    ensures
        r == (a@ == b@),
{
    if a.len() != b.len() {
        return false;
    }
    let mut i: usize = 0;
    while i < a.len()
        invariant
            i <= a.len(),
            a.len() == b.len(),
            forall|j: int| 0 <= j < i ==> a@[j] == b@[j],
        decreases a.len() - i,
    {
        if a[i] != b[i] {
            return false;
        }
        i += 1;
    }
    assert(a@ =~= b@);
    true
}

/// The sequence `s` with every occurrence of `q` written twice.
pub open spec fn doubled(s: Seq<char>, q: char) -> Seq<char>
    decreases s.len(),
{
    if s.len() == 0 {
        Seq::empty()
    } else if s.last() == q {
        doubled(s.drop_last(), q).push(q).push(q)
    } else {
        doubled(s.drop_last(), q).push(s.last())
    }
}

/// Appending one character to `s` appends its doubled form to `doubled(s, q)`.
pub proof fn lemma_doubled_push(s: Seq<char>, c: char, q: char)
    ensures
        doubled(s.push(c), q) == if c == q {
            doubled(s, q).push(q).push(q)
        } else {
            doubled(s, q).push(c)
        },
{
    assert(s.push(c).drop_last() =~= s);
}

/// Appends to `out` the characters of `s`, writing each `q` twice.
pub fn push_doubled(out: &mut String, s: &str, q: char)
    ensures
        final(out)@ == old(out)@ + doubled(s@, q),
{
    let v = chars_of(s);
    let mut i: usize = 0;
    assert(v@.take(0) =~= Seq::<char>::empty());
    while i < v.len()
        invariant
            i <= v.len(),
            v@ == s@,
            out@ == old(out)@ + doubled(v@.take(i as int), q),
        decreases v.len() - i,
    {
        let c = v[i];
        proof {
            lemma_doubled_push(v@.take(i as int), c, q);
            assert(v@.take(i as int).push(c) =~= v@.take(i + 1));
        }
        out.push(c);
        if c == q {
            out.push(q);
        }
        i += 1;
    }
    assert(v@.take(v.len() as int) =~= v@);
}

/// The character `c` written `n` times.
pub open spec fn repeated(c: char, n: int) -> Seq<char> {
    Seq::new(
        if n > 0 {
            n as nat
        } else {
            0
        },
        |i: int| c,
    )
}

/// The text `s` filled up with `fill` to the width `width`: behind the text
/// if `left` is set, else before it. A text that is wider stays as it is.
pub open spec fn padded(s: Seq<char>, width: int, fill: char, left: bool) -> Seq<char> {
    if left {
        s + repeated(fill, width - s.len())
    } else {
        repeated(fill, width - s.len()) + s
    }
}

/// Appends `c` to `out` `n` times.
pub fn push_repeated(out: &mut Vec<char>, c: char, n: usize)
    ensures
        final(out)@ == old(out)@ + repeated(c, n as int),
{
    let mut i: usize = 0;
    assert(out@ =~= old(out)@ + repeated(c, 0));
    while i < n
        invariant
            i <= n,
            out@ == old(out)@ + repeated(c, i as int),
        decreases n - i,
    {
        out.push(c);
        assert(out@ =~= old(out)@ + repeated(c, i + 1));
        i += 1;
    }
}

/// Appends to `out` the text `s` filled up with `fill` to the width `width`.
pub fn push_padded(out: &mut Vec<char>, s: &str, width: usize, fill: char, left: bool)
    ensures
        final(out)@ == old(out)@ + padded(s@, width as int, fill, left),
{
    let v = chars_of(s);
    let gap: usize = if v.len() < width {
        width - v.len()
    } else {
        0
    };
    assert(repeated(fill, gap as int) =~= repeated(fill, width - v@.len()));
    if left {
        extend(out, &v);
        push_repeated(out, fill, gap);
        assert(out@ =~= old(out)@ + padded(s@, width as int, fill, left));
    } else {
        push_repeated(out, fill, gap);
        extend(out, &v);
        assert(out@ =~= old(out)@ + padded(s@, width as int, fill, left));
    }
}

} // verus!

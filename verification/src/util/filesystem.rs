use crate::text::{chars_of, lower_seq, string_of, to_lower_char};
use vstd::prelude::*;

verus! {

/// The name of the manifest of an ip.
pub const IP_MANIFEST_FILE: &'static str = "Orbit.toml";

/// The name of the lock file of an ip.
pub const IP_LOCK_FILE: &'static str = "Orbit.lock";

/// The name of the file that lists what a walk over an ip leaves out.
pub const ORBIT_IGNORE_FILE: &'static str = ".orbitignore";

/// The name of the file that holds the checksum of an ip.
pub const ORBIT_SUM_FILE: &'static str = ".orbit-checksum";

/// The name of the file that holds what is known of an installation.
pub const ORBIT_METADATA_FILE: &'static str = ".orbit-metadata";

/// The name of the directory in which git keeps its data.
pub const GIT_DIR: &'static str = ".git";

/// A unit in which the size of a directory is given.
#[derive(Debug, Clone, Copy, PartialEq, Eq, Structural)]
pub enum Unit {
    MegaBytes,
    Bytes,
}

impl Unit {
    /// The number of bytes that make one of the unit.
    pub fn value(&self) -> (r: usize)
        ensures
            r == match self {
                Unit::MegaBytes => 1000000usize,
                Unit::Bytes => 1usize,
            },
    {
        match self {
            Unit::MegaBytes => 1000000,
            Unit::Bytes => 1,
        }
    }
}

/// The pieces of `s` between the separators `sep`, continued at index `i`
/// with the piece `cur` begun and the pieces `acc` complete.
pub open spec fn split_from(s: Seq<char>, sep: char, i: int, cur: Seq<char>, acc: Seq<Seq<char>>) -> Seq<
    Seq<char>,
>
    decreases s.len() - i,
{
    if i < 0 || i >= s.len() {
        acc.push(cur)
    } else if s[i] == sep {
        split_from(s, sep, i + 1, Seq::empty(), acc.push(cur))
    } else {
        split_from(s, sep, i + 1, cur.push(s[i]), acc)
    }
}

/// The pieces of `s` between the separators `sep`; one more than there are
/// separators, and empty where two separators meet.
pub open spec fn split(s: Seq<char>, sep: char) -> Seq<Seq<char>> {
    split_from(s, sep, 0, Seq::empty(), Seq::empty())
}

/// The views of a list of character vectors.
pub open spec fn views(v: Seq<Vec<char>>) -> Seq<Seq<char>> {
    v.map_values(|p: Vec<char>| p@)
}

/// Splits `s` at every `sep`.
pub fn split_chars(s: &Vec<char>, sep: char) -> (r: Vec<Vec<char>>)
    ensures
        views(r@) == split(s@, sep),
{
    let mut acc: Vec<Vec<char>> = Vec::new();
    let mut cur: Vec<char> = Vec::new();
    let mut i: usize = 0;
    assert(views(acc@) =~= Seq::<Seq<char>>::empty());
    while i < s.len()
        invariant
            i <= s.len(),
            split_from(s@, sep, i as int, cur@, views(acc@)) == split(s@, sep),
        decreases s.len() - i,
    {
        if s[i] == sep {
            assert(views(acc@.push(cur)) =~= views(acc@).push(cur@));
            acc.push(cur);
            cur = Vec::new();
        } else {
            cur.push(s[i]);
        }
        i += 1;
    }
    assert(views(acc@.push(cur)) =~= views(acc@).push(cur@));
    acc.push(cur);
    acc
}

/// The components among the pieces `segs[i..]` of a path, after those in
/// `acc`: every piece but the empty ones and the pieces `.` that do not
/// come first.
pub open spec fn keep_parts(segs: Seq<Seq<char>>, i: int, acc: Seq<Seq<char>>) -> Seq<Seq<char>>
    decreases segs.len() - i,
{
    if i < 0 || i >= segs.len() {
        acc
    } else if segs[i].len() == 0 || (i > 0 && segs[i] == seq!['.']) {
        keep_parts(segs, i + 1, acc)
    } else {
        keep_parts(segs, i + 1, acc.push(segs[i]))
    }
}

/// The components of a path written with `/`: the root `/` first if the
/// path starts with it, then every name. Repeated and trailing slashes and
/// the component `.` count for nothing, unless `.` comes first.
pub open spec fn path_parts(s: Seq<char>) -> Seq<Seq<char>> {
    let names = keep_parts(split(s, '/'), 0, Seq::empty());
    if s.len() > 0 && s[0] == '/' {
        seq![seq!['/']] + names
    } else {
        names
    }
}

/// Splits a path into its components.
pub fn parts_of(s: &Vec<char>) -> (r: Vec<Vec<char>>)
    ensures
        views(r@) == path_parts(s@),
{
    let segs = split_chars(s, '/');
    let mut out: Vec<Vec<char>> = Vec::new();
    if s.len() > 0 && s[0] == '/' {
        let root = vec!['/'];
        assert(root@ =~= seq!['/']);
        out.push(root);
        assert(views(out@) =~= seq![seq!['/']]);
    } else {
        assert(views(out@) =~= Seq::<Seq<char>>::empty());
    }
    let ghost head = views(out@);
    let mut i: usize = 0;
    let ghost mut acc: Seq<Seq<char>> = Seq::empty();
    assert(head + acc =~= head);
    while i < segs.len()
        invariant
            i <= segs.len(),
            views(segs@) == split(s@, '/'),
            views(out@) == head + acc,
            keep_parts(views(segs@), i as int, acc) == keep_parts(
                split(s@, '/'),
                0,
                Seq::empty(),
            ),
        decreases segs.len() - i,
    {
        let seg = &segs[i];
        assert(views(segs@)[i as int] == seg@);
        let is_dot = seg.len() == 1 && seg[0] == '.';
        proof {
            if is_dot {
                assert(seg@ =~= seq!['.']);
            }
            if seg@ == seq!['.'] {
                assert(seq!['.'].len() == 1 && seq!['.'][0] == '.');
            }
        }
        if seg.len() == 0 || (i > 0 && is_dot) {
        } else {
            let mut copy: Vec<char> = Vec::new();
            let mut k: usize = 0;
            while k < seg.len()
                invariant
                    k <= seg.len(),
                    copy@ == seg@.take(k as int),
                decreases seg.len() - k,
            {
                copy.push(seg[k]);
                assert(seg@.take(k as int).push(seg@[k as int]) =~= seg@.take(k + 1));
                k += 1;
            }
            assert(seg@.take(seg@.len() as int) =~= seg@);
            proof {
                assert(views(out@.push(copy)) =~= views(out@).push(copy@));
                assert((head + acc).push(seg@) =~= head + acc.push(seg@));
                acc = acc.push(seg@);
            }
            out.push(copy);
        }
        i += 1;
    }
    out
}

/// The components `parts[from..]` joined by `/`, appended to `acc`; after
/// the root no separator is written.
pub open spec fn join_from(parts: Seq<Seq<char>>, from: int, i: int, acc: Seq<char>) -> Seq<char>
    decreases parts.len() - i,
{
    if i < from || i >= parts.len() {
        acc
    } else if i == from || parts[i - 1] == seq!['/'] {
        join_from(parts, from, i + 1, acc + parts[i])
    } else {
        join_from(parts, from, i + 1, acc + seq!['/'] + parts[i])
    }
}

/// The path made of the components `parts[from..]`.
pub open spec fn join_parts(parts: Seq<Seq<char>>, from: int) -> Seq<char> {
    join_from(parts, from, from, Seq::empty())
}

/// Joins the components `parts[from..]` into a path.
pub fn join(parts: &Vec<Vec<char>>, from: usize) -> (r: Vec<char>)
    ensures
        r@ == join_parts(views(parts@), from as int),
{
    let mut out: Vec<char> = Vec::new();
    let mut i: usize = from;
    if from >= parts.len() {
        return out;
    }
    while i < parts.len()
        invariant
            from <= i <= parts.len(),
            join_from(views(parts@), from as int, i as int, out@) == join_parts(
                views(parts@),
                from as int,
            ),
        decreases parts.len() - i,
    {
        let ghost before = out@;
        let part = &parts[i];
        assert(views(parts@)[i as int] == part@);
        let after_root = i > from && parts[i - 1].len() == 1 && parts[i - 1][0] == '/';
        proof {
            if i > from {
                let prev = parts@[i - 1]@;
                assert(views(parts@)[i - 1] == prev);
                if after_root {
                    assert(prev =~= seq!['/']);
                }
                if prev == seq!['/'] {
                    assert(seq!['/'].len() == 1 && seq!['/'][0] == '/');
                }
            }
        }
        if !(i == from || after_root) {
            out.push('/');
        }
        let ghost mid = out@;
        let mut k: usize = 0;
        while k < part.len()
            invariant
                k <= part.len(),
                out@ == mid + part@.take(k as int),
            decreases part.len() - k,
        {
            out.push(part[k]);
            assert(part@.take(k as int).push(part@[k as int]) =~= part@.take(k + 1));
            k += 1;
        }
        proof {
            assert(part@.take(part@.len() as int) =~= part@);
            if !(i == from || after_root) {
                assert(mid =~= before + seq!['/']);
            }
        }
        i += 1;
    }
    out
}

/// The number of leading components that `base` and `full` have in common.
pub open spec fn common_parts(base: Seq<Seq<char>>, full: Seq<Seq<char>>, i: int) -> int
    decreases full.len() - i,
{
    if 0 <= i < full.len() && i < base.len() && base[i] == full[i] {
        common_parts(base, full, i + 1)
    } else {
        i
    }
}

/// The path `full` without the leading components that it shares with `base`.
pub open spec fn spec_remove_base(base: Seq<char>, full: Seq<char>) -> Seq<char> {
    let b = path_parts(base);
    let f = path_parts(full);
    join_parts(f, common_parts(b, f, 0))
}

/// Removes from the path `full` the leading components that it shares with
/// `base`, compared one by one from the start.
pub fn remove_base(base: &str, full: &str) -> (r: String)
    ensures
        r@ == spec_remove_base(base@, full@),
{
    let b = parts_of(&chars_of(base));
    let f = parts_of(&chars_of(full));
    let mut i: usize = 0;
    while i < f.len() && i < b.len() && crate::text::chars_eq(&b[i], &f[i])
        invariant
            i <= f.len(),
            common_parts(views(b@), views(f@), i as int) == common_parts(views(b@), views(f@), 0),
        decreases f.len() - i,
    {
        i += 1;
    }
    string_of(&join(&f, i))
}

/// The characters of `s` with every backslash turned into a slash.
pub open spec fn slashed(s: Seq<char>) -> Seq<char> {
    Seq::new(
        s.len(),
        |i: int|
            if s[i] == '\\' {
                '/'
            } else {
                s[i]
            },
    )
}

/// The path `s` written with slashes only and without a slash at its end.
pub open spec fn spec_std_str(s: Seq<char>) -> Seq<char> {
    let t = slashed(s);
    if t.len() > 0 && t.last() == '/' {
        t.drop_last()
    } else {
        t
    }
}

/// Writes a path with `/` in place of every `\` and without one trailing `/`.
pub fn into_std_str(path: &str) -> (r: String)
    ensures
        r@ == spec_std_str(path@),
{
    let v = chars_of(path);
    let mut out: Vec<char> = Vec::new();
    let mut i: usize = 0;
    while i < v.len()
        invariant
            i <= v.len(),
            out@.len() == i,
            forall|j: int| 0 <= j < i ==> out@[j] == slashed(v@)[j],
        decreases v.len() - i,
    {
        if v[i] == '\\' {
            out.push('/');
        } else {
            out.push(v[i]);
        }
        i += 1;
    }
    assert(out@ =~= slashed(v@));
    if out.len() > 0 && out[out.len() - 1] == '/' {
        out.pop();
        assert(out@ =~= slashed(v@).drop_last());
    }
    string_of(&out)
}

/// The index of the last `c` in `s[..n]`, or -1.
pub open spec fn last_index(s: Seq<char>, c: char, n: int) -> int
    decreases n,
{
    if n <= 0 {
        -1
    } else if s[n - 1] == c {
        n - 1
    } else {
        last_index(s, c, n - 1)
    }
}

/// The last `c` lies within the text, and none follows it.
pub proof fn lemma_last_index(s: Seq<char>, c: char, n: int)
    requires
        0 <= n <= s.len(),
    ensures
        -1 <= last_index(s, c, n) < n,
        last_index(s, c, n) >= 0 ==> s[last_index(s, c, n)] == c,
        forall|j: int| last_index(s, c, n) < j < n ==> s[j] != c,
    decreases n,
{
    if n > 0 && s[n - 1] != c {
        lemma_last_index(s, c, n - 1);
    }
}

/// Finds the last `c` in `v`; the result is one more than its index, or 0.
pub fn find_last(v: &Vec<char>, c: char) -> (r: usize)
    ensures
        r == last_index(v@, c, v@.len() as int) + 1,
        r <= v@.len(),
{
    proof {
        lemma_last_index(v@, c, v@.len() as int);
    }
    let mut n: usize = v.len();
    while n > 0 && v[n - 1] != c
        invariant
            n <= v.len(),
            last_index(v@, c, n as int) == last_index(v@, c, v@.len() as int),
        decreases n,
    {
        n -= 1;
    }
    n
}

/// The name of the file that a path leads to: what follows its last slash.
pub open spec fn file_name(s: Seq<char>) -> Seq<char> {
    s.subrange(last_index(s, '/', s.len() as int) + 1, s.len() as int)
}

/// The extension of a file name: what follows its last dot, if it has one.
pub open spec fn extension(s: Seq<char>) -> Option<Seq<char>> {
    let name = file_name(s);
    let dot = last_index(name, '.', name.len() as int);
    if dot < 0 {
        None
    } else {
        Some(name.subrange(dot + 1, name.len() as int))
    }
}

/// The stem of a file name: the name without its extension. A name that
/// has no dot but a first one is its own stem.
pub open spec fn file_stem(s: Seq<char>) -> Seq<char> {
    let name = file_name(s);
    let dot = last_index(name, '.', name.len() as int);
    if dot <= 0 {
        name
    } else {
        name.subrange(0, dot)
    }
}

/// The name of the file that the path leads to.
pub fn name_of(path: &Vec<char>) -> (r: Vec<char>)
    ensures
        r@ == file_name(path@),
{
    let start = find_last(path, '/');
    crate::text::subvec(path, start, path.len())
}

/// The stem of the file that the path leads to.
pub fn stem_of(path: &Vec<char>) -> (r: Vec<char>)
    ensures
        r@ == file_stem(path@),
{
    let name = name_of(path);
    let dot = find_last(&name, '.');
    if dot <= 1 {
        name
    } else {
        let r = crate::text::subvec(&name, 0, dot - 1);
        r
    }
}

/// Whether a path names a VHDL file: its extension is `vhd` or `vhdl`, in
/// whatever case.
pub open spec fn spec_is_vhdl(s: Seq<char>) -> bool {
    match extension(s) {
        Some(ext) => lower_seq(ext) == seq!['v', 'h', 'd'] || lower_seq(ext) == seq![
            'v',
            'h',
            'd',
            'l',
        ],
        None => false,
    }
}

/// Whether a path names a VHDL file.
pub fn is_vhdl(file: &str) -> (r: bool)
    ensures
        r == spec_is_vhdl(file@),
{
    let path = chars_of(file);
    let name = name_of(&path);
    let dot = find_last(&name, '.');
    if dot == 0 {
        return false;
    }
    let ext = crate::text::to_lower(&crate::text::subvec(&name, dot, name.len()));
    let a = vec!['v', 'h', 'd'];
    let b = vec!['v', 'h', 'd', 'l'];
    assert(a@ =~= seq!['v', 'h', 'd']);
    assert(b@ =~= seq!['v', 'h', 'd', 'l']);
    crate::text::chars_eq(&ext, &a) || crate::text::chars_eq(&ext, &b)
}

/// Whether `s` starts with `p`.
pub open spec fn starts_with(s: Seq<char>, p: Seq<char>) -> bool {
    p.len() <= s.len() && s.subrange(0, p.len() as int) == p
}

/// Whether `s` ends with `p`.
pub open spec fn ends_with(s: Seq<char>, p: Seq<char>) -> bool {
    p.len() <= s.len() && s.subrange(s.len() - p.len(), s.len() as int) == p
}

/// Whether a file is named as testbenches are: its stem, in lower case,
/// starts with `tb_` or ends with `_tb`.
pub open spec fn spec_is_bench_name(s: Seq<char>) -> bool {
    let stem = lower_seq(file_stem(s));
    starts_with(stem, seq!['t', 'b', '_']) || ends_with(stem, seq!['_', 't', 'b'])
}

/// Whether a file holds code of the design rather than of a testbench.
pub fn is_rtl(file: &str) -> (r: bool)
    ensures
        r == !spec_is_bench_name(file@),
{
    let path = chars_of(file);
    let stem = crate::text::to_lower(&stem_of(&path));
    let n = stem.len();
    if n < 3 {
        return true;
    }
    let head = stem[0] == 't' && stem[1] == 'b' && stem[2] == '_';
    let tail = stem[n - 3] == '_' && stem[n - 2] == 't' && stem[n - 1] == 'b';
    proof {
        let s = stem@;
        let h = s.subrange(0, 3);
        let t = s.subrange(n - 3, n as int);
        assert(h[0] == s[0] && h[1] == s[1] && h[2] == s[2]);
        assert(t[0] == s[n - 3] && t[1] == s[n - 2] && t[2] == s[n - 1]);
        if head {
            assert(h =~= seq!['t', 'b', '_']);
        }
        if tail {
            assert(t =~= seq!['_', 't', 'b']);
        }
        assert(seq!['t', 'b', '_'][0] == 't' && seq!['t', 'b', '_'][1] == 'b' && seq![
            't',
            'b',
            '_',
        ][2] == '_');
        assert(seq!['_', 't', 'b'][0] == '_' && seq!['_', 't', 'b'][1] == 't' && seq![
            '_',
            't',
            'b',
        ][2] == 'b');
    }
    !(head || tail)
}

/// Whether `s` names one of the files that describe an ip rather than
/// belong to its code: the manifest, the ignore file or the lock file.
pub fn is_orbit_metadata(s: &str) -> (r: bool)
    ensures
        r == (s@ == IP_MANIFEST_FILE@ || s@ == ORBIT_IGNORE_FILE@ || s@ == IP_LOCK_FILE@),
{
    let a = chars_of(s);
    crate::text::chars_eq(&a, &chars_of(IP_MANIFEST_FILE)) || crate::text::chars_eq(
        &a,
        &chars_of(ORBIT_IGNORE_FILE),
    ) || crate::text::chars_eq(&a, &chars_of(IP_LOCK_FILE))
}

/// Whether a file belongs to a minimal installation of an ip: VHDL code and
/// the files that describe the ip.
pub fn is_minimal(name: &str) -> (r: bool)
    ensures
        r == (spec_is_vhdl(name@) || name@ == IP_MANIFEST_FILE@ || name@ == ORBIT_IGNORE_FILE@
            || name@ == IP_LOCK_FILE@),
{
    is_vhdl(name) || is_orbit_metadata(name)
}

/// Calls `home::home_dir`, which names the home directory of the user, if
/// the environment tells it. Nothing is claimed of the result.
#[verifier::external_body]
fn home_directory() -> (r: Option<String>) {
    match home::home_dir() {
        Some(p) => Some(p.to_string_lossy().into_owned()),
        None => None,
    }
}

/// The name that a component of a path is written with: the root is
/// written with nothing.
pub open spec fn part_text(part: Seq<char>) -> Seq<char> {
    if part == seq!['/'] {
        Seq::empty()
    } else {
        part
    }
}

/// The components `parts[..n]`, each as it is written.
pub open spec fn part_texts(parts: Seq<Seq<char>>, n: int) -> Seq<Seq<char>>
    decreases n,
{
    if n <= 0 {
        Seq::empty()
    } else {
        part_texts(parts, n - 1).push(part_text(parts[n - 1]))
    }
}

/// The list `list` after the component `part` of a path was walked: `.`
/// stays where it is, `..` goes one up, any other name goes down.
pub open spec fn walked(list: Seq<Seq<char>>, part: Seq<char>) -> Seq<Seq<char>> {
    if part == seq!['.'] {
        list
    } else if part == seq!['.', '.'] {
        if list.len() > 0 {
            list.drop_last()
        } else {
            list
        }
    } else {
        list.push(part_text(part))
    }
}

/// The list `list` after the components `parts[from..n]` were walked.
pub open spec fn walked_all(list: Seq<Seq<char>>, parts: Seq<Seq<char>>, from: int, n: int) -> Seq<
    Seq<char>,
>
    decreases n - from,
{
    if n <= from {
        list
    } else {
        walked(walked_all(list, parts, from, n - 1), parts[n - 1])
    }
}

/// Where a path starts from: the home directory for `~`, the root for `/`,
/// else the current directory, from which the first component is walked.
pub open spec fn start_parts(
    first: Seq<char>,
    home: Option<Seq<char>>,
    cwd: Seq<char>,
) -> Seq<Seq<char>> {
    if first == seq!['~'] {
        match home {
            Some(h) => part_texts(path_parts(h), path_parts(h).len() as int),
            None => seq![first],
        }
    } else if first == seq!['/'] {
        seq![first]
    } else {
        walked(part_texts(path_parts(cwd), path_parts(cwd).len() as int), first)
    }
}

/// The texts `list[..n]` with a slash between every two of them.
pub open spec fn joined(list: Seq<Seq<char>>, n: int) -> Seq<char>
    decreases n,
{
    if n <= 0 {
        Seq::empty()
    } else if n == 1 {
        list[0]
    } else {
        joined(list, n - 1) + seq!['/'] + list[n - 1]
    }
}

/// The text `s[i..]` after `acc`, with one slash in place of every pair of
/// slashes, pairs taken from the left.
pub open spec fn squeezed(s: Seq<char>, i: int, acc: Seq<char>) -> Seq<char>
    decreases s.len() - i,
{
    if i < 0 || i >= s.len() {
        acc
    } else if s[i] == '/' && i + 1 < s.len() && s[i + 1] == '/' {
        squeezed(s, i + 2, acc.push('/'))
    } else {
        squeezed(s, i + 1, acc.push(s[i]))
    }
}

/// The path `p` in a form that shows where it leads: from the home
/// directory `home` if it starts with `~`, from the current directory
/// `cwd` if it is relative, with `.` and `..` walked, written with
/// single slashes.
pub open spec fn spec_standardize(p: Seq<char>, home: Option<Seq<char>>, cwd: Seq<char>) -> Seq<char> {
    let parts = path_parts(p);
    let list = if parts.len() == 0 {
        Seq::empty()
    } else {
        walked_all(start_parts(parts[0], home, cwd), parts, 1, parts.len() as int)
    };
    squeezed(slashed(joined(list, list.len() as int)), 0, Seq::empty())
}

/// Copies a component as it is written.
fn text_of(part: &Vec<char>) -> (r: Vec<char>)
    ensures
        r@ == part_text(part@),
{
    let root = vec!['/'];
    assert(root@ =~= seq!['/']);
    if crate::text::chars_eq(part, &root) {
        Vec::new()
    } else {
        let r = crate::text::subvec(part, 0, part.len());
        assert(r@ =~= part@);
        r
    }
}

/// Walks one component of a path.
fn walk(list: &mut Vec<Vec<char>>, part: &Vec<char>)
    ensures
        views(final(list)@) == walked(views(old(list)@), part@),
{
    let dot = vec!['.'];
    let dots = vec!['.', '.'];
    assert(dot@ =~= seq!['.']);
    assert(dots@ =~= seq!['.', '.']);
    if crate::text::chars_eq(part, &dot) {
    } else if crate::text::chars_eq(part, &dots) {
        if list.len() > 0 {
            list.pop();
            assert(views(list@) =~= views(old(list)@).drop_last());
        }
    } else {
        let t = text_of(part);
        assert(views(list@.push(t)) =~= views(list@).push(t@));
        list.push(t);
    }
}

/// The components of a path, each as it is written.
fn texts_of(path: &Vec<char>) -> (r: Vec<Vec<char>>)
    ensures
        views(r@) == part_texts(path_parts(path@), path_parts(path@).len() as int),
{
    let parts = parts_of(path);
    let mut out: Vec<Vec<char>> = Vec::new();
    let mut i: usize = 0;
    assert(views(out@) =~= part_texts(views(parts@), 0));
    while i < parts.len()
        invariant
            i <= parts.len(),
            views(out@) == part_texts(views(parts@), i as int),
        decreases parts.len() - i,
    {
        let t = text_of(&parts[i]);
        assert(views(parts@)[i as int] == parts@[i as int]@);
        assert(views(out@.push(t)) =~= views(out@).push(t@));
        out.push(t);
        i += 1;
    }
    out
}

/// Writes the path `p` in a form that shows where it leads, given the home
/// directory `home` of the user and the current directory `cwd`.
#[verifier::loop_isolation(false)]
pub fn standardize_with(p: &str, home: Option<&str>, cwd: &str) -> (r: String)
    ensures
        r@ == spec_standardize(
            p@,
            match home {
                Some(h) => Some(h@),
                None => None,
            },
            cwd@,
        ),
{
    let parts = parts_of(&chars_of(p));
    let mut list: Vec<Vec<char>> = Vec::new();
    if parts.len() > 0 {
        let first = &parts[0];
        assert(views(parts@)[0] == first@);
        let tilde = vec!['~'];
        let root = vec!['/'];
        assert(tilde@ =~= seq!['~']);
        assert(root@ =~= seq!['/']);
        if crate::text::chars_eq(first, &tilde) {
            match home {
                Some(h) => {
                    list = texts_of(&chars_of(h));
                },
                None => {
                    let copy = crate::text::subvec(first, 0, first.len());
                    assert(copy@ =~= first@);
                    list.push(copy);
                    assert(views(list@) =~= seq![first@]);
                },
            }
        } else if crate::text::chars_eq(first, &root) {
            let copy = crate::text::subvec(first, 0, first.len());
            assert(copy@ =~= first@);
            list.push(copy);
            assert(views(list@) =~= seq![first@]);
        } else {
            list = texts_of(&chars_of(cwd));
            walk(&mut list, first);
        }
        let mut i: usize = 1;
        while i < parts.len()
            invariant
                1 <= i <= parts.len(),
                views(list@) == walked_all(
                    start_parts(
                        views(parts@)[0],
                        match home {
                            Some(h) => Some(h@),
                            None => None,
                        },
                        cwd@,
                    ),
                    views(parts@),
                    1,
                    i as int,
                ),
            decreases parts.len() - i,
        {
            assert(views(parts@)[i as int] == parts@[i as int]@);
            walk(&mut list, &parts[i]);
            i += 1;
        }
    } else {
        assert(views(list@) =~= Seq::<Seq<char>>::empty());
    }
    let mut text: Vec<char> = Vec::new();
    let mut k: usize = 0;
    while k < list.len()
        invariant
            k <= list.len(),
            text@ == joined(views(list@), k as int),
        decreases list.len() - k,
    {
        if k > 0 {
            text.push('/');
        }
        assert(views(list@)[k as int] == list@[k as int]@);
        crate::text::extend(&mut text, &list[k]);
        k += 1;
    }
    let mut flat: Vec<char> = Vec::new();
    let mut j: usize = 0;
    while j < text.len()
        invariant
            j <= text.len(),
            flat@.len() == j,
            forall|x: int| 0 <= x < j ==> flat@[x] == slashed(text@)[x],
        decreases text.len() - j,
    {
        if text[j] == '\\' {
            flat.push('/');
        } else {
            flat.push(text[j]);
        }
        j += 1;
    }
    assert(flat@ =~= slashed(text@));
    let mut out: Vec<char> = Vec::new();
    let mut m: usize = 0;
    while m < flat.len()
        invariant
            m <= flat.len(),
            squeezed(flat@, m as int, out@) == squeezed(flat@, 0, Seq::empty()),
        decreases flat.len() - m,
    {
        if flat[m] == '/' && flat.len() - m > 1 && flat[m + 1] == '/' {
            out.push('/');
            m += 2;
        } else {
            out.push(flat[m]);
            m += 1;
        }
    }
    string_of(&out)
}

/// Writes the path `p` in a form that shows where it leads, given the
/// current directory `cwd`. The home directory of the user is asked of
/// the environment.
pub fn standardize(p: &str, cwd: &str) -> (r: String)
    ensures
        exists|home: Option<Seq<char>>| r@ == spec_standardize(p@, home, cwd@),
{
    match home_directory() {
        Some(h) => {
            let r = standardize_with(p, Some(h.as_str()), cwd);
            assert(r@ == spec_standardize(p@, Some(h@), cwd@));
            r
        },
        None => {
            let r = standardize_with(p, None, cwd);
            assert(r@ == spec_standardize(p@, None, cwd@));
            r
        },
    }
}

/// A path that can be written in a form that shows where it leads.
pub trait Standardize: Sized {
    /// The path `p` in that form, from the current directory `cwd`.
    fn standardize(p: &str, cwd: &str) -> (r: Self);
}

impl Standardize for String {
    fn standardize(p: &str, cwd: &str) -> (r: String)
        ensures
            exists|home: Option<Seq<char>>| r@ == spec_standardize(p@, home, cwd@),
    {
        crate::util::filesystem::standardize(p, cwd)
    }
}

/// Whether a path is relative: it does not start at the root.
pub open spec fn is_relative(s: Seq<char>) -> bool {
    !(s.len() > 0 && s[0] == '/')
}

/// The path `s`, which is given relative to some directory, in full, if
/// it is relative and `exists` says that it leads somewhere from that
/// directory; else as it is.
pub fn resolve_rel_path(s: &str, exists: bool, cwd: &str) -> (r: String)
    ensures
        if exists && is_relative(s@) {
            exists|home: Option<Seq<char>>| r@ == spec_standardize(s@, home, cwd@)
        } else {
            r@ == s@
        },
{
    let v = chars_of(s);
    let relative = !(v.len() > 0 && v[0] == '/');
    if exists && relative {
        standardize(s, cwd)
    } else {
        string_of(&v)
    }
}

/// The length of the name of a drive at the start of `s`: two where a
/// letter and a colon stand there, else none.
pub open spec fn drive_len(s: Seq<char>) -> int {
    if s.len() >= 2 && (('a' <= s[0] && s[0] <= 'z') || ('A' <= s[0] && s[0] <= 'Z')) && s[1]
        == ':' {
        2
    } else {
        0
    }
}

/// The path `s` without the name of a drive at its start.
pub open spec fn without_drive(s: Seq<char>) -> Seq<char> {
    s.subrange(drive_len(s), s.len() as int)
}

/// The path `p` in absolute form, without the name of a drive: `p`
/// itself if it starts at the root, else the form `canonical` in which
/// the file system knows it, if it knows it.
pub open spec fn spec_to_absolute(p: Seq<char>, canonical: Option<Seq<char>>) -> Option<Seq<char>> {
    if !is_relative(without_drive(p)) {
        Some(without_drive(p))
    } else {
        match canonical {
            Some(c) => Some(without_drive(c)),
            None => None,
        }
    }
}

/// The text `v` without the name of a drive at its start.
fn strip_drive(v: &Vec<char>) -> (r: Vec<char>)
    ensures
        r@ == without_drive(v@),
{
    let drive = v.len() >= 2 && (('a' <= v[0] && v[0] <= 'z') || ('A' <= v[0] && v[0] <= 'Z'))
        && v[1] == ':';
    if drive {
        crate::text::subvec(v, 2, v.len())
    } else {
        let r = crate::text::subvec(v, 0, v.len());
        assert(r@ =~= without_drive(v@));
        r
    }
}

/// The path `p` in absolute form, without the name of a drive.
///
/// A path that starts at the root, after the name of a drive if it has
/// one, is absolute already. For any other path `canonical` is the form
/// in which the file system knows it; there is none for a path that
/// leads nowhere, and then there is no absolute form.
pub fn to_absolute(p: &str, canonical: Option<&str>) -> (r: Option<String>)
    ensures
        match r {
            Some(t) => spec_to_absolute(
                p@,
                match canonical {
                    Some(c) => Some(c@),
                    None => None,
                },
            ) == Some(t@),
            None => canonical is None && is_relative(without_drive(p@)),
        },
{
    let own = strip_drive(&chars_of(p));
    if own.len() > 0 && own[0] == '/' {
        return Some(string_of(&own));
    }
    match canonical {
        Some(c) => Some(string_of(&strip_drive(&chars_of(c)))),
        None => None,
    }
}

/// Whether a walk over the files of an ip passes over the entry `name`:
/// the checksum, the data of git, the lock file and the data of an
/// installation are no files of the ip.
pub fn is_walk_excluded(name: &str) -> (r: bool)
    ensures
        r == (name@ == ORBIT_SUM_FILE@ || name@ == GIT_DIR@ || name@ == IP_LOCK_FILE@ || name@
            == ORBIT_METADATA_FILE@),
{
    let a = chars_of(name);
    crate::text::chars_eq(&a, &chars_of(ORBIT_SUM_FILE)) || crate::text::chars_eq(
        &a,
        &chars_of(GIT_DIR),
    ) || crate::text::chars_eq(&a, &chars_of(IP_LOCK_FILE)) || crate::text::chars_eq(
        &a,
        &chars_of(ORBIT_METADATA_FILE),
    )
}

} // verus!

use crate::text::{chars_of, string_of};
use crate::util::filesystem::{split, split_chars, split_from, views};
use crate::util::number::{all_digits, decimal, lemma_decimal, number_of, parse_u32, push_decimal};
use vstd::prelude::*;

verus! {

/// A full version: major, minor and patch number.
#[derive(Debug, Clone, Copy, PartialEq, Eq, Hash, Structural)]
pub struct Version {
    pub major: u32,
    pub minor: u32,
    pub patch: u32,
}

/// A version of which the minor and the patch number may be left open.
#[derive(Debug, Clone, Copy, PartialEq, Eq, Hash, Structural)]
pub struct PartialVersion {
    pub major: u32,
    pub minor: Option<u32>,
    pub patch: Option<u32>,
}

/// A version asked for: the latest, or one that a partial version describes.
#[derive(Debug, Clone, Copy, PartialEq, Eq, Hash, Structural)]
pub enum AnyVersion {
    Latest,
    Specific(PartialVersion),
}

/// Whether `a` is a lower version than `b`.
pub open spec fn version_lt(a: Version, b: Version) -> bool {
    a.major < b.major || (a.major == b.major && (a.minor < b.minor || (a.minor == b.minor
        && a.patch < b.patch)))
}

/// Whether the full version `v` is one of those that the partial version
/// `p` describes: the numbers that `p` gives are those of `v`.
pub open spec fn compatible(p: PartialVersion, v: Version) -> bool {
    &&& p.major == v.major
    &&& match p.minor {
        Some(m) => m == v.minor && match p.patch {
            Some(x) => x == v.patch,
            None => true,
        },
        None => true,
    }
}

/// Whether the version `v` is one of those asked for by `target`.
pub open spec fn satisfies(target: AnyVersion, v: Version) -> bool {
    match target {
        AnyVersion::Latest => true,
        AnyVersion::Specific(p) => compatible(p, v),
    }
}

/// The text of a full version: the three numbers with dots between them.
pub open spec fn version_text(v: Version) -> Seq<char> {
    decimal(v.major as nat) + seq!['.'] + decimal(v.minor as nat) + seq!['.'] + decimal(
        v.patch as nat,
    )
}

/// The text of a partial version: the numbers it gives, with dots between them.
pub open spec fn partial_text(p: PartialVersion) -> Seq<char> {
    match p.minor {
        None => decimal(p.major as nat),
        Some(m) => match p.patch {
            None => decimal(p.major as nat) + seq!['.'] + decimal(m as nat),
            Some(x) => decimal(p.major as nat) + seq!['.'] + decimal(m as nat) + seq!['.']
                + decimal(x as nat),
        },
    }
}

/// Whether `s` writes a number that fits a part of a version.
pub open spec fn is_number(s: Seq<char>) -> bool {
    s.len() > 0 && all_digits(s) && number_of(s) <= u32::MAX
}

/// The version that the text `s` writes, if it writes one: three numbers
/// with dots between them.
pub open spec fn spec_version(s: Seq<char>) -> Option<Version> {
    let parts = split(s, '.');
    if parts.len() == 3 && is_number(parts[0]) && is_number(parts[1]) && is_number(parts[2]) {
        Some(
            Version {
                major: number_of(parts[0]) as u32,
                minor: number_of(parts[1]) as u32,
                patch: number_of(parts[2]) as u32,
            },
        )
    } else {
        None
    }
}

/// The partial version that the text `s` writes, if it writes one: one,
/// two or three numbers with dots between them.
pub open spec fn spec_partial(s: Seq<char>) -> Option<PartialVersion> {
    let parts = split(s, '.');
    if 1 <= parts.len() <= 3 && forall|i: int| 0 <= i < parts.len() ==> is_number(#[trigger] parts[i]) {
        Some(
            PartialVersion {
                major: number_of(parts[0]) as u32,
                minor: if parts.len() >= 2 {
                    Some(number_of(parts[1]) as u32)
                } else {
                    None
                },
                patch: if parts.len() >= 3 {
                    Some(number_of(parts[2]) as u32)
                } else {
                    None
                },
            },
        )
    } else {
        None
    }
}

/// Splitting passes over a stretch that holds no separator in one go.
pub proof fn lemma_split_stretch(
    s: Seq<char>,
    sep: char,
    i: int,
    k: int,
    cur: Seq<char>,
    acc: Seq<Seq<char>>,
)
    requires
        0 <= i <= k <= s.len(),
        forall|j: int| i <= j < k ==> s[j] != sep,
    ensures
        split_from(s, sep, i, cur, acc) == split_from(s, sep, k, cur + s.subrange(i, k), acc),
    decreases k - i,
{
    if i < k {
        lemma_split_stretch(s, sep, i + 1, k, cur.push(s[i]), acc);
        assert(cur.push(s[i]) + s.subrange(i + 1, k) =~= cur + s.subrange(i, k));
    } else {
        assert(cur + s.subrange(i, k) =~= cur);
    }
}

/// A text without separator, then a separator, then more text: the first
/// piece is the text before the separator.
pub proof fn lemma_split_head(a: Seq<char>, rest: Seq<char>, sep: char, acc: Seq<Seq<char>>)
    requires
        forall|j: int| 0 <= j < a.len() ==> a[j] != sep,
    ensures
        split_from(a + seq![sep] + rest, sep, 0, Seq::empty(), acc) == split_from(
            a + seq![sep] + rest,
            sep,
            a.len() as int + 1,
            Seq::empty(),
            acc.push(a),
        ),
{
    let s = a + seq![sep] + rest;
    lemma_split_stretch(s, sep, 0, a.len() as int, Seq::empty(), acc);
    assert(Seq::<char>::empty() + s.subrange(0, a.len() as int) =~= a);
    assert(s[a.len() as int] == sep);
}

/// Splitting does not depend on what stands before the index it starts at.
pub proof fn lemma_split_shift(
    p: Seq<char>,
    s: Seq<char>,
    sep: char,
    i: int,
    cur: Seq<char>,
    acc: Seq<Seq<char>>,
)
    requires
        0 <= i <= s.len(),
    ensures
        split_from(p + s, sep, p.len() + i, cur, acc) == split_from(s, sep, i, cur, acc),
    decreases s.len() - i,
{
    if i < s.len() {
        assert((p + s)[p.len() + i] == s[i]);
        if s[i] == sep {
            lemma_split_shift(p, s, sep, i + 1, Seq::empty(), acc.push(cur));
        } else {
            lemma_split_shift(p, s, sep, i + 1, cur.push(s[i]), acc);
        }
    }
}

/// The pieces of texts without separator that were joined by separators
/// are those texts: the case of three.
pub proof fn lemma_split_three(a: Seq<char>, b: Seq<char>, c: Seq<char>, sep: char)
    requires
        forall|j: int| 0 <= j < a.len() ==> a[j] != sep,
        forall|j: int| 0 <= j < b.len() ==> b[j] != sep,
        forall|j: int| 0 <= j < c.len() ==> c[j] != sep,
    ensures
        split(a + seq![sep] + b + seq![sep] + c, sep) == seq![a, b, c],
{
    let s = a + seq![sep] + b + seq![sep] + c;
    let t = b + seq![sep] + c;
    assert(s =~= a + seq![sep] + t);
    lemma_split_head(a, t, sep, Seq::empty());
    lemma_split_shift(a + seq![sep], t, sep, 0, Seq::empty(), Seq::<Seq<char>>::empty().push(a));
    assert(a + seq![sep] + t =~= (a + seq![sep]) + t);
    lemma_split_head(b, c, sep, Seq::<Seq<char>>::empty().push(a));
    lemma_split_shift(b + seq![sep], c, sep, 0, Seq::empty(), seq![a].push(b));
    assert(b + seq![sep] + c =~= (b + seq![sep]) + c);
    lemma_split_stretch(c, sep, 0, c.len() as int, Seq::empty(), seq![a].push(b));
    assert(Seq::<char>::empty() + c.subrange(0, c.len() as int) =~= c);
    assert(Seq::<Seq<char>>::empty().push(a) =~= seq![a]);
    assert(seq![a].push(b).push(c) =~= seq![a, b, c]);
}

/// A number written in base ten holds no dot and no hyphen.
pub proof fn lemma_decimal_plain(n: nat)
    ensures
        forall|j: int| 0 <= j < decimal(n).len() ==> decimal(n)[j] != '.' && decimal(n)[j] != '-',
{
    lemma_decimal(n);
    assert forall|j: int| 0 <= j < decimal(n).len() implies decimal(n)[j] != '.' && decimal(n)[j]
        != '-' by {
        assert('0' <= decimal(n)[j] <= '9');
    }
}

/// The text of a version reads back as that version.
pub proof fn lemma_version_round_trip(v: Version)
    ensures
        spec_version(version_text(v)) == Some(v),
{
    let a = decimal(v.major as nat);
    let b = decimal(v.minor as nat);
    let c = decimal(v.patch as nat);
    lemma_decimal(v.major as nat);
    lemma_decimal(v.minor as nat);
    lemma_decimal(v.patch as nat);
    lemma_decimal_plain(v.major as nat);
    lemma_decimal_plain(v.minor as nat);
    lemma_decimal_plain(v.patch as nat);
    lemma_split_three(a, b, c, '.');
}

/// The text of a version holds no hyphen.
pub proof fn lemma_version_text_plain(v: Version)
    ensures
        forall|j: int| 0 <= j < version_text(v).len() ==> version_text(v)[j] != '-',
{
    lemma_decimal_plain(v.major as nat);
    lemma_decimal_plain(v.minor as nat);
    lemma_decimal_plain(v.patch as nat);
}

impl Version {
    /// The version 0.0.0.
    pub fn new() -> (r: Version)
        ensures
            r == (Version { major: 0, minor: 0, patch: 0 }),
    {
        Version { major: 0, minor: 0, patch: 0 }
    }

    /// This version with the major number `n`.
    pub fn major(self, n: u32) -> (r: Version)
        ensures
            r == (Version { major: n, ..self }),
    {
        Version { major: n, minor: self.minor, patch: self.patch }
    }

    /// This version with the minor number `n`.
    pub fn minor(self, n: u32) -> (r: Version)
        ensures
            r == (Version { minor: n, ..self }),
    {
        Version { major: self.major, minor: n, patch: self.patch }
    }

    /// This version with the patch number `n`.
    pub fn patch(self, n: u32) -> (r: Version)
        ensures
            r == (Version { patch: n, ..self }),
    {
        Version { major: self.major, minor: self.minor, patch: n }
    }

    /// Whether this is a lower version than `other`.
    pub fn is_lower(&self, other: &Version) -> (r: bool)
        ensures
            r == version_lt(*self, *other),
    {
        self.major < other.major || (self.major == other.major && (self.minor < other.minor || (
        self.minor == other.minor && self.patch < other.patch)))
    }

    /// The version as text: the three numbers with dots between them.
    pub fn to_string(&self) -> (s: String)
        ensures
            s@ == version_text(*self),
    {
        let mut out: Vec<char> = Vec::new();
        push_decimal(&mut out, self.major);
        out.push('.');
        push_decimal(&mut out, self.minor);
        out.push('.');
        push_decimal(&mut out, self.patch);
        assert(out@ =~= version_text(*self));
        string_of(&out)
    }

    /// Reads a version from text: three numbers with dots between them.
    pub fn from_str(s: &str) -> (r: Option<Version>)
        ensures
            r == spec_version(s@),
    {
        let parts = split_chars(&chars_of(s), '.');
        if parts.len() != 3 {
            return None;
        }
        assert(views(parts@)[0] == parts@[0]@ && views(parts@)[1] == parts@[1]@ && views(
            parts@,
        )[2] == parts@[2]@);
        let major = read_number(&parts[0]);
        let minor = read_number(&parts[1]);
        let patch = read_number(&parts[2]);
        match (major, minor, patch) {
            (Some(a), Some(b), Some(c)) => Some(Version { major: a, minor: b, patch: c }),
            _ => None,
        }
    }
}

/// Reads a whole text as a number.
pub fn read_number(v: &Vec<char>) -> (r: Option<u32>)
    ensures
        match r {
            Some(n) => is_number(v@) && n == number_of(v@),
            None => !is_number(v@),
        },
{
    assert(v@.subrange(0, v@.len() as int) =~= v@);
    parse_u32(v, 0, v.len())
}

impl PartialVersion {
    /// The partial version 0.
    pub fn new() -> (r: PartialVersion)
        ensures
            r == (PartialVersion { major: 0, minor: None, patch: None }),
    {
        PartialVersion { major: 0, minor: None, patch: None }
    }

    /// This version with the major number `n`.
    pub fn major(self, n: u32) -> (r: PartialVersion)
        ensures
            r == (PartialVersion { major: n, ..self }),
    {
        PartialVersion { major: n, minor: self.minor, patch: self.patch }
    }

    /// This version with the minor number `n`.
    pub fn minor(self, n: u32) -> (r: PartialVersion)
        ensures
            r == (PartialVersion { minor: Some(n), ..self }),
    {
        PartialVersion { major: self.major, minor: Some(n), patch: self.patch }
    }

    /// This version with the patch number `n`.
    pub fn patch(self, n: u32) -> (r: PartialVersion)
        ensures
            r == (PartialVersion { patch: Some(n), ..self }),
    {
        PartialVersion { major: self.major, minor: self.minor, patch: Some(n) }
    }

    /// The partial version as text.
    pub fn to_string(&self) -> (s: String)
        ensures
            s@ == partial_text(*self),
    {
        let mut out: Vec<char> = Vec::new();
        push_decimal(&mut out, self.major);
        match self.minor {
            Some(m) => {
                out.push('.');
                push_decimal(&mut out, m);
                match self.patch {
                    Some(x) => {
                        out.push('.');
                        push_decimal(&mut out, x);
                    },
                    None => {},
                }
            },
            None => {},
        }
        assert(out@ =~= partial_text(*self));
        string_of(&out)
    }

    /// Reads a partial version from text: one, two or three numbers with
    /// dots between them.
    pub fn from_str(s: &str) -> (r: Option<PartialVersion>)
        ensures
            r == spec_partial(s@),
    {
        let parts = split_chars(&chars_of(s), '.');
        let n = parts.len();
        if n < 1 || n > 3 {
            return None;
        }
        assert(views(parts@)[0] == parts@[0]@);
        let major = match read_number(&parts[0]) {
            Some(a) => a,
            None => {
                return None;
            },
        };
        let minor = if n >= 2 {
            assert(views(parts@)[1] == parts@[1]@);
            match read_number(&parts[1]) {
                Some(b) => Some(b),
                None => {
                    return None;
                },
            }
        } else {
            None
        };
        let patch = if n >= 3 {
            assert(views(parts@)[2] == parts@[2]@);
            match read_number(&parts[2]) {
                Some(c) => Some(c),
                None => {
                    return None;
                },
            }
        } else {
            None
        };
        Some(PartialVersion { major, minor, patch })
    }
}

/// Whether the full version `v` is one of those that the partial version
/// `p` describes.
pub fn is_compatible(p: &PartialVersion, v: &Version) -> (r: bool)
    ensures
        r == compatible(*p, *v),
{
    if p.major != v.major {
        return false;
    }
    match p.minor {
        Some(m) => {
            if m != v.minor {
                return false;
            }
            match p.patch {
                Some(x) => x == v.patch,
                None => true,
            }
        },
        None => true,
    }
}

impl AnyVersion {
    /// Whether the version `v` is one of those asked for.
    pub fn allows(&self, v: &Version) -> (r: bool)
        ensures
            r == satisfies(*self, *v),
    {
        match self {
            AnyVersion::Latest => true,
            AnyVersion::Specific(p) => is_compatible(p, v),
        }
    }

    /// Reads what version is asked for: `latest`, or a partial version.
    pub fn from_str(s: &str) -> (r: Option<AnyVersion>)
        ensures
            r == if s@ == "latest"@ {
                Some(AnyVersion::Latest)
            } else {
                match spec_partial(s@) {
                    Some(p) => Some(AnyVersion::Specific(p)),
                    None => None,
                }
            },
    {
        if crate::text::chars_eq(&chars_of(s), &chars_of("latest")) {
            return Some(AnyVersion::Latest);
        }
        match PartialVersion::from_str(s) {
            Some(p) => Some(AnyVersion::Specific(p)),
            None => None,
        }
    }

    /// The version asked for as text.
    pub fn to_string(&self) -> (s: String)
        ensures
            s@ == match self {
                AnyVersion::Latest => "latest"@,
                AnyVersion::Specific(p) => partial_text(*p),
            },
    {
        match self {
            AnyVersion::Latest => {
                let s = "latest";
                string_of(&chars_of(s))
            },
            AnyVersion::Specific(p) => p.to_string(),
        }
    }
}

} // verus!

use crate::text::{chars_eq, chars_of, string_of};
use vstd::prelude::*;
use vstd::std_specs::cmp::PartialEqSpecImpl;

verus! {

/// One part of the name of an ip: a letter, then letters, digits, hyphens
/// and underscores. Two parts are the same if they differ in case and in
/// the choice between hyphen and underscore only.
#[derive(Debug)]
pub struct PkgPart(pub String);

/// Why a text is no part of the name of an ip.
#[derive(Debug, Clone, Copy, PartialEq, Eq, Structural)]
pub enum PkgIdError {
    Empty,
    NotAlphabeticFirst,
    InvalidChar,
}

/// Whether `c` is a letter of the ASCII alphabet.
pub open spec fn is_ascii_letter(c: char) -> bool {
    ('a' <= c && c <= 'z') || ('A' <= c && c <= 'Z')
}

/// Whether `c` may stand in a part of the name of an ip.
pub open spec fn is_part_char(c: char) -> bool {
    is_ascii_letter(c) || ('0' <= c && c <= '9') || c == '-' || c == '_'
}

/// Whether `s` is a part of the name of an ip.
pub open spec fn is_part_name(s: Seq<char>) -> bool {
    &&& s.len() > 0
    &&& is_ascii_letter(s[0])
    &&& forall|i: int| 0 <= i < s.len() ==> is_part_char(#[trigger] s[i])
}

/// The form of `c` by which parts are compared: lower case, the hyphen as
/// an underscore.
pub open spec fn norm_char(c: char) -> char {
    if c == '-' {
        '_'
    } else if 'A' <= c && c <= 'Z' {
        ((c as u8 + 32) as u8) as char
    } else {
        c
    }
}

/// The form of `s` by which parts are compared.
pub open spec fn norm_name(s: Seq<char>) -> Seq<char> {
    Seq::new(s.len(), |i: int| norm_char(s[i]))
}

impl PkgPart {
    /// Whether the part is well formed.
    pub open spec fn wf(&self) -> bool {
        is_part_name(self.0@)
    }

    /// Whether two parts are the same name.
    pub open spec fn same(&self, other: &PkgPart) -> bool {
        norm_name(self.0@) == norm_name(other.0@)
    }

    /// Reads a part of the name of an ip.
    pub fn from_str(s: &str) -> (r: Result<PkgPart, PkgIdError>)
        ensures
            match r {
                Ok(p) => p.0@ == s@ && p.wf(),
                Err(_) => !is_part_name(s@),
            },
    {
        let v = chars_of(s);
        if v.len() == 0 {
            return Err(PkgIdError::Empty);
        }
        let c0 = v[0];
        if !(('a' <= c0 && c0 <= 'z') || ('A' <= c0 && c0 <= 'Z')) {
            return Err(PkgIdError::NotAlphabeticFirst);
        }
        let mut i: usize = 0;
        while i < v.len()
            invariant
                i <= v.len(),
                v@ == s@,
                forall|j: int| 0 <= j < i ==> is_part_char(#[trigger] v@[j]),
            decreases v.len() - i,
        {
            let c = v[i];
            if !(('a' <= c && c <= 'z') || ('A' <= c && c <= 'Z') || ('0' <= c && c <= '9') || c
                == '-' || c == '_') {
                assert(!is_part_char(v@[i as int]));
                return Err(PkgIdError::InvalidChar);
            }
            i += 1;
        }
        Ok(PkgPart(string_of(&v)))
    }

    /// The part as it was written.
    pub fn as_str(&self) -> (s: &str)
        ensures
            s@ == self.0@,
    {
        self.0.as_str()
    }

    /// The part as it was written.
    pub fn to_string(&self) -> (s: String)
        ensures
            s@ == self.0@,
    {
        self.0.clone()
    }

    /// The characters by which the part is compared.
    pub fn normalized(&self) -> (v: Vec<char>)
        ensures
            v@ == norm_name(self.0@),
    {
        let src = chars_of(self.0.as_str());
        let mut out: Vec<char> = Vec::new();
        let mut i: usize = 0;
        while i < src.len()
            invariant
                i <= src.len(),
                out@.len() == i,
                forall|j: int| 0 <= j < i ==> out@[j] == norm_char(#[trigger] src@[j]),
            decreases src.len() - i,
        {
            let c = src[i];
            if c == '-' {
                out.push('_');
            } else if 'A' <= c && c <= 'Z' {
                let b: u8 = c as u8;
                out.push((b + 32) as char);
            } else {
                out.push(c);
            }
            i += 1;
        }
        assert(out@ =~= norm_name(src@));
        out
    }

    /// The name by which a library of the ip is known: lower case, with
    /// underscores in place of hyphens.
    pub fn to_normal(&self) -> (s: String)
        ensures
            s@ == norm_name(self.0@),
    {
        string_of(&self.normalized())
    }

    /// Whether two parts are the same name.
    pub fn matches(&self, other: &PkgPart) -> (r: bool)
        ensures
            r == self.same(other),
    {
        chars_eq(&self.normalized(), &other.normalized())
    }
}

impl Clone for PkgPart {
    fn clone(&self) -> (r: Self)
        ensures
            r == *self,
    {
        PkgPart(self.0.clone())
    }
}

impl PartialEq for PkgPart {
    fn eq(&self, other: &Self) -> (r: bool) {
        self.matches(other)
    }
}

impl PartialEqSpecImpl for PkgPart {
    open spec fn obeys_eq_spec() -> bool {
        true
    }

    open spec fn eq_spec(&self, other: &Self) -> bool {
        self.same(other)
    }
}

impl Eq for PkgPart {

}

/// The full name of an ip: vendor, library and name, of which the first two
/// may be left open.
#[derive(Debug, PartialEq)]
pub struct PkgId {
    pub vendor: Option<PkgPart>,
    pub library: Option<PkgPart>,
    pub name: PkgPart,
}

/// The text of an optional part, with the dot that follows it.
pub open spec fn part_prefix(p: Option<PkgPart>) -> Seq<char> {
    match p {
        Some(part) => part.0@ + seq!['.'],
        None => Seq::empty(),
    }
}

/// The index of the first dot in `s[i..]`, or the length of the text.
pub open spec fn first_dot(s: Seq<char>, i: int) -> int
    decreases s.len() - i,
{
    if i < 0 || i >= s.len() {
        s.len() as int
    } else if s[i] == '.' {
        i
    } else {
        first_dot(s, i + 1)
    }
}

/// The parts of the name of an ip written as `s`: vendor, library and
/// name with dots between them, or library and name, or the name alone.
/// Each part must be well formed; no other text is a name.
pub open spec fn spec_pkgid(s: Seq<char>) -> Option<(Option<Seq<char>>, Option<Seq<char>>, Seq<char>)> {
    let n = s.len() as int;
    let a = first_dot(s, 0);
    let b = first_dot(s, a + 1);
    if a >= n {
        if is_part_name(s) {
            Some((None, None, s))
        } else {
            None
        }
    } else if b >= n {
        if is_part_name(s.subrange(0, a)) && is_part_name(s.subrange(a + 1, n)) {
            Some((None, Some(s.subrange(0, a)), s.subrange(a + 1, n)))
        } else {
            None
        }
    } else if is_part_name(s.subrange(0, a)) && is_part_name(s.subrange(a + 1, b))
        && is_part_name(s.subrange(b + 1, n)) {
        Some((Some(s.subrange(0, a)), Some(s.subrange(a + 1, b)), s.subrange(b + 1, n)))
    } else {
        None
    }
}

/// Finds the first dot in `v[from..]`.
pub fn find_dot(v: &Vec<char>, from: usize) -> (r: usize)
    ensures
        r == first_dot(v@, from as int),
        from <= v@.len() ==> from <= r <= v@.len(),
{
    let mut i: usize = from;
    while i < v.len() && v[i] != '.'
        invariant
            from <= i,
            from <= v@.len() ==> i <= v@.len(),
            first_dot(v@, i as int) == first_dot(v@, from as int),
        decreases v.len() - i,
    {
        i += 1;
    }
    if i >= v.len() {
        v.len()
    } else {
        i
    }
}

/// Reads the part of a name that stands in `v[from..to]`.
fn read_part(v: &Vec<char>, from: usize, to: usize) -> (r: Option<PkgPart>)
    requires
        from <= to <= v@.len(),
    ensures
        match r {
            Some(p) => p.0@ == v@.subrange(from as int, to as int) && p.wf(),
            None => !is_part_name(v@.subrange(from as int, to as int)),
        },
{
    match PkgPart::from_str(crate::text::substring(v, from, to).as_str()) {
        Ok(p) => Some(p),
        Err(_) => None,
    }
}

impl PkgId {
    /// Reads the name of an ip: `vendor.library.name`, `library.name`, or
    /// the name alone.
    pub fn from_str(s: &str) -> (r: Option<PkgId>)
        ensures
            match (r, spec_pkgid(s@)) {
                (Some(id), Some((vendor, library, name))) => {
                    &&& id.name.0@ == name
                    &&& match (id.library, library) {
                        (Some(a), Some(b)) => a.0@ == b,
                        (None, None) => true,
                        _ => false,
                    }
                    &&& match (id.vendor, vendor) {
                        (Some(a), Some(b)) => a.0@ == b,
                        (None, None) => true,
                        _ => false,
                    }
                    &&& id.wf()
                },
                (None, None) => true,
                _ => false,
            },
    {
        let v = chars_of(s);
        let n = v.len();
        let a = find_dot(&v, 0);
        if a >= n {
            assert(v@.subrange(0, n as int) =~= v@);
            return match read_part(&v, 0, n) {
                Some(name) => Some(PkgId { vendor: None, library: None, name }),
                None => None,
            };
        }
        let b = find_dot(&v, a + 1);
        if b >= n {
            return match (read_part(&v, 0, a), read_part(&v, a + 1, n)) {
                (Some(library), Some(name)) => Some(
                    PkgId { vendor: None, library: Some(library), name },
                ),
                _ => None,
            };
        }
        match (read_part(&v, 0, a), read_part(&v, a + 1, b), read_part(&v, b + 1, n)) {
            (Some(vendor), Some(library), Some(name)) => Some(
                PkgId { vendor: Some(vendor), library: Some(library), name },
            ),
            _ => None,
        }
    }

    /// Whether every part that is given is well formed.
    pub open spec fn wf(&self) -> bool {
        &&& self.name.wf()
        &&& self.library is Some ==> self.library->0.wf()
        &&& self.vendor is Some ==> self.vendor->0.wf()
    }

    /// The name alone, without vendor and library.
    pub fn new(name: PkgPart) -> (r: PkgId)
        ensures
            r.name == name,
            r.vendor is None,
            r.library is None,
    {
        PkgId { vendor: None, library: None, name }
    }

    /// The last part of the name.
    pub fn get_name(&self) -> (r: &PkgPart)
        ensures
            *r == self.name,
    {
        &self.name
    }

    /// The library, if it is given.
    pub fn get_library(&self) -> (r: &Option<PkgPart>)
        ensures
            *r == self.library,
    {
        &self.library
    }

    /// The vendor, if it is given.
    pub fn get_vendor(&self) -> (r: &Option<PkgPart>)
        ensures
            *r == self.vendor,
    {
        &self.vendor
    }

    /// The full name: the parts that are given, with dots between them.
    pub fn to_string(&self) -> (s: String)
        ensures
            s@ == part_prefix(self.vendor) + part_prefix(self.library) + self.name.0@,
    {
        let mut out: Vec<char> = Vec::new();
        match &self.vendor {
            Some(p) => {
                crate::text::extend(&mut out, &chars_of(p.as_str()));
                out.push('.');
            },
            None => {},
        }
        match &self.library {
            Some(p) => {
                crate::text::extend(&mut out, &chars_of(p.as_str()));
                out.push('.');
            },
            None => {},
        }
        crate::text::extend(&mut out, &chars_of(self.name.as_str()));
        assert(out@ =~= part_prefix(self.vendor) + part_prefix(self.library) + self.name.0@);
        string_of(&out)
    }
}

} // verus!

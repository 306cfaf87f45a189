use crate::ip::pkgid::PkgId;
use crate::text::{chars_of, extend_str, string_of};
use vstd::prelude::*;

verus! {

/// What is asked of the making of a new ip.
#[derive(Debug, PartialEq)]
pub struct New {
    pub ip: PkgId,
    pub rel_path: Option<String>,
    pub template: Option<String>,
    pub list: bool,
}

/// The text of a part of a name that is given.
pub open spec fn part_text(p: Option<crate::ip::pkgid::PkgPart>) -> Seq<char> {
    match p {
        Some(part) => part.0@,
        None => Seq::empty(),
    }
}

/// Where the new ip goes, under the directory `root`: to the path asked
/// for, or to the directories of its vendor, its library and its name.
pub open spec fn spec_destination(root: Seq<char>, ip: PkgId, rel_path: Option<String>) -> Seq<char> {
    match rel_path {
        Some(p) => root + seq!['/'] + p@,
        None => root + seq!['/'] + part_text(ip.vendor) + seq!['/'] + part_text(ip.library) + seq![
            '/',
        ] + ip.name.0@,
    }
}

impl New {
    /// Whether the name of the new ip is given in full: with vendor and library.
    pub fn is_fully_qualified(&self) -> (r: bool)
        ensures
            r == (self.ip.vendor is Some && self.ip.library is Some),
    {
        self.ip.vendor.is_some() && self.ip.library.is_some()
    }

    /// The directory of the new ip, under the directory `root`; `None` if
    /// no path is asked for and the name of the ip is not given in full.
    pub fn destination(&self, root: &str) -> (r: Option<String>)
        ensures
            match r {
                Some(p) => (self.rel_path is Some || (self.ip.vendor is Some && self.ip.library
                    is Some)) && p@ == spec_destination(root@, self.ip, self.rel_path),
                None => self.rel_path is None && !(self.ip.vendor is Some && self.ip.library
                    is Some),
            },
    {
        let mut out = chars_of(root);
        out.push('/');
        match &self.rel_path {
            Some(p) => {
                extend_str(&mut out, p.as_str());
            },
            None => match (&self.ip.vendor, &self.ip.library) {
                (Some(v), Some(l)) => {
                    extend_str(&mut out, v.as_str());
                    out.push('/');
                    extend_str(&mut out, l.as_str());
                    out.push('/');
                    extend_str(&mut out, self.ip.name.as_str());
                },
                _ => {
                    return None;
                },
            },
        }
        assert(out@ =~= spec_destination(root@, self.ip, self.rel_path));
        Some(string_of(&out))
    }
}

} // verus!

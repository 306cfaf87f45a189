use crate::ip::pkgid::PkgPart;
use crate::ip::version::{PartialVersion, Version};
use crate::text::string_of;
use crate::util::number::{hex_bytes, push_hex_byte};
use vstd::prelude::*;

verus! {

/// A SHA-256 checksum: 32 bytes.
#[derive(Debug, Clone, PartialEq, Eq)]
pub struct Sha256Hash {
    pub digest: Vec<u8>,
}

impl Sha256Hash {
    /// Whether the checksum has its 32 bytes.
    pub open spec fn wf(&self) -> bool {
        self.digest@.len() == 32
    }

    /// The checksum of the bytes given, if there are 32 of them.
    pub fn from_bytes(bytes: Vec<u8>) -> (r: Option<Sha256Hash>)
        ensures
            match r {
                Some(h) => h.digest == bytes && h.wf(),
                None => bytes@.len() != 32,
            },
    {
        if bytes.len() == 32 {
            Some(Sha256Hash { digest: bytes })
        } else {
            None
        }
    }

    /// Reads a checksum written in 64 hexadecimal digits.
    pub fn from_str(s: &str) -> (r: Option<Sha256Hash>)
        ensures
            match r {
                Some(h) => h.wf() && writes_bytes(s@, h.digest@),
                None => s@.len() != 64 || !all_hex(s@),
            },
    {
        match read_hex(s) {
            Some(bytes) => Sha256Hash::from_bytes(bytes),
            None => None,
        }
    }

    /// The checksum in hexadecimal digits, lower case, two for each byte.
    pub fn to_string(&self) -> (s: String)
        ensures
            s@ == hex_bytes(self.digest@, self.digest@.len() as int, false),
    {
        string_of(&hex_prefix(&self.digest, self.digest.len(), false))
    }
}

/// The value of a hexadecimal digit, in upper or lower case.
pub open spec fn hex_value(c: char) -> Option<u8> {
    if '0' <= c && c <= '9' {
        Some((c as u8 - 48) as u8)
    } else if 'a' <= c && c <= 'f' {
        Some((c as u8 - 87) as u8)
    } else if 'A' <= c && c <= 'F' {
        Some((c as u8 - 55) as u8)
    } else {
        None
    }
}

/// The byte that the two hexadecimal digits at place `k` of `s` write.
pub open spec fn byte_at(s: Seq<char>, k: int) -> Option<u8> {
    match (hex_value(s[2 * k]), hex_value(s[2 * k + 1])) {
        (Some(hi), Some(lo)) => Some((hi * 16 + lo) as u8),
        _ => None,
    }
}

/// Whether the text `s` writes the bytes `bytes` in hexadecimal digits, two
/// for each byte.
pub open spec fn writes_bytes(s: Seq<char>, bytes: Seq<u8>) -> bool {
    &&& s.len() == 2 * bytes.len()
    &&& forall|k: int| 0 <= k < bytes.len() ==> #[trigger] byte_at(s, k) == Some(bytes[k])
}

/// Whether every character of `s` is a hexadecimal digit.
pub open spec fn all_hex(s: Seq<char>) -> bool {
    forall|i: int| 0 <= i < s.len() ==> hex_value(#[trigger] s[i]) is Some
}

/// The value of a hexadecimal digit.
pub fn hex_digit(c: char) -> (r: Option<u8>)
    ensures
        r == hex_value(c),
        r is Some ==> r->0 < 16,
{
    if '0' <= c && c <= '9' {
        Some(c as u8 - 48)
    } else if 'a' <= c && c <= 'f' {
        Some(c as u8 - 87)
    } else if 'A' <= c && c <= 'F' {
        Some(c as u8 - 55)
    } else {
        None
    }
}

/// Reads bytes written in hexadecimal digits, two for each byte.
pub fn read_hex(s: &str) -> (r: Option<Vec<u8>>)
    ensures
        match r {
            Some(bytes) => writes_bytes(s@, bytes@),
            None => s@.len() % 2 != 0 || !all_hex(s@),
        },
{
    let v = crate::text::chars_of(s);
    if v.len() % 2 != 0 {
        return None;
    }
    let n = v.len() / 2;
    let mut bytes: Vec<u8> = Vec::new();
    let mut i: usize = 0;
    while i < n
        invariant
            v@ == s@,
            v@.len() == 2 * n,
            i <= n,
            bytes@.len() == i,
            forall|k: int| 0 <= k < i ==> #[trigger] byte_at(v@, k) == Some(bytes@[k]),
        decreases n - i,
    {
        let hi = match hex_digit(v[2 * i]) {
            Some(d) => d,
            None => {
                assert(hex_value(v@[2 * i]) is None);
                return None;
            },
        };
        let lo = match hex_digit(v[2 * i + 1]) {
            Some(d) => d,
            None => {
                assert(hex_value(v@[2 * i + 1]) is None);
                return None;
            },
        };
        let b: u8 = hi * 16 + lo;
        let ghost before = bytes@;
        bytes.push(b);
        proof {
            assert(byte_at(v@, i as int) == Some(b));
            assert forall|k: int| 0 <= k < i + 1 implies #[trigger] byte_at(v@, k) == Some(
                bytes@[k],
            ) by {
                if k < i {
                    assert(bytes@[k] == before[k]);
                }
            }
        }
        i += 1;
    }
    Some(bytes)
}

/// The first `n` bytes in hexadecimal digits.
pub fn hex_prefix(bytes: &Vec<u8>, n: usize, upper: bool) -> (r: Vec<char>)
    requires
        n <= bytes@.len(),
    ensures
        r@ == hex_bytes(bytes@, n as int, upper),
{
    let mut out: Vec<char> = Vec::new();
    let mut i: usize = 0;
    while i < n
        invariant
            i <= n <= bytes@.len(),
            out@ == hex_bytes(bytes@, i as int, upper),
        decreases n - i,
    {
        push_hex_byte(&mut out, bytes[i], upper);
        i += 1;
    }
    out
}

/// A universally unique identifier: 16 bytes.
#[derive(Debug, Clone, PartialEq, Eq)]
pub struct Uuid {
    pub bytes: Vec<u8>,
}

impl Uuid {
    /// Whether the identifier has its 16 bytes.
    pub open spec fn wf(&self) -> bool {
        self.bytes@.len() == 16
    }

    /// The identifier of which every byte is zero.
    pub fn nil() -> (r: Uuid)
        ensures
            r.wf(),
            forall|i: int| 0 <= i < 16 ==> r.bytes@[i] == 0,
    {
        Uuid { bytes: vec![0u8; 16] }
    }

    /// The identifier made of the bytes given, if there are 16 of them.
    pub fn from_bytes(bytes: Vec<u8>) -> (r: Option<Uuid>)
        ensures
            match r {
                Some(u) => u.bytes == bytes && u.wf(),
                None => bytes@.len() != 16,
            },
    {
        if bytes.len() == 16 {
            Some(Uuid { bytes })
        } else {
            None
        }
    }

    /// The bytes of the identifier.
    pub fn as_bytes(&self) -> (r: &Vec<u8>)
        ensures
            *r == self.bytes,
    {
        &self.bytes
    }
}

/// One dependency of an ip: a name and the versions that will do.
#[derive(Debug, PartialEq)]
pub struct Dependency {
    pub name: PkgPart,
    pub version: PartialVersion,
}

/// The table `[ip]` of a manifest.
#[derive(Debug, PartialEq)]
pub struct IpSection {
    pub name: PkgPart,
    pub version: Version,
    pub source: Option<String>,
}

impl IpSection {
    /// The name of the ip.
    pub fn get_name(&self) -> (r: &PkgPart)
        ensures
            *r == self.name,
    {
        &self.name
    }

    /// The version of the ip.
    pub fn get_version(&self) -> (r: &Version)
        ensures
            *r == self.version,
    {
        &self.version
    }

    /// Where the ip can be fetched from, if the manifest says so.
    pub fn get_source(&self) -> (r: &Option<String>)
        ensures
            *r == self.source,
    {
        &self.source
    }
}

/// The manifest of an ip: its name and version, and what it depends on.
#[derive(Debug, PartialEq)]
pub struct Manifest {
    pub ip: IpSection,
    pub dependencies: Vec<Dependency>,
}

impl Manifest {
    /// Whether the manifest is valid: its names are well formed and no
    /// dependency is named twice.
    pub open spec fn wf(&self) -> bool {
        &&& self.ip.name.wf()
        &&& forall|i: int| 0 <= i < self.dependencies@.len() ==> (#[trigger] self.dependencies@[i]).name.wf()
        &&& forall|i: int, j: int|
            #![trigger self.dependencies@[i], self.dependencies@[j]]
            0 <= i < j < self.dependencies@.len() ==> !self.dependencies@[i].name.same(
                &self.dependencies@[j].name,
            )
    }

    /// The table `[ip]`.
    pub fn get_ip(&self) -> (r: &IpSection)
        ensures
            *r == self.ip,
    {
        &self.ip
    }

    /// The dependencies, in the order of the manifest.
    pub fn get_deps(&self) -> (r: &Vec<Dependency>)
        ensures
            *r == self.dependencies,
    {
        &self.dependencies
    }
}

/// An ip as it is found in one place: its manifest, the directory it lies
/// in, and what identifies its content.
#[derive(Debug, PartialEq)]
pub struct Ip {
    pub manifest: Manifest,
    pub root: String,
    pub checksum: Option<Sha256Hash>,
    pub uuid: Option<Uuid>,
    /// Whether the installation was made anew with other names for its
    /// units, so that two versions of it can be used side by side.
    pub dynamic: bool,
}

impl Ip {
    /// The name of the ip.
    pub open spec fn name(&self) -> PkgPart {
        self.manifest.ip.name
    }

    /// The version of the ip.
    pub open spec fn version(&self) -> Version {
        self.manifest.ip.version
    }

    /// Whether two records are of the same ip in the same version.
    pub open spec fn same_release(&self, other: &Ip) -> bool {
        self.name().same(&other.name()) && self.version() == other.version()
    }

    /// Whether two records are of the same ip, in the same version, at the
    /// same place.
    pub open spec fn same(&self, other: &Ip) -> bool {
        self.same_release(other) && self.root@ == other.root@
    }

    /// An ip with the manifest `manifest` that lies in `root`.
    pub fn new(manifest: Manifest, root: String) -> (r: Ip)
        ensures
            r.manifest == manifest,
            r.root == root,
            r.checksum is None,
            r.uuid is None,
            !r.dynamic,
    {
        Ip { manifest, root, checksum: None, uuid: None, dynamic: false }
    }

    /// The manifest.
    pub fn get_man(&self) -> (r: &Manifest)
        ensures
            *r == self.manifest,
    {
        &self.manifest
    }

    /// The directory in which the ip lies.
    pub fn get_root(&self) -> (r: &String)
        ensures
            *r == self.root,
    {
        &self.root
    }

    /// The version of the ip.
    pub fn get_version(&self) -> (r: &Version)
        ensures
            *r == self.version(),
    {
        &self.manifest.ip.version
    }

    /// Whether the installation was made anew with other names for its units.
    pub fn is_dynamic(&self) -> (r: bool)
        ensures
            r == self.dynamic,
    {
        self.dynamic
    }

    /// Whether two records are of the same ip in the same version.
    pub fn is_same_release(&self, other: &Ip) -> (r: bool)
        ensures
            r == self.same_release(other),
    {
        self.manifest.ip.name.matches(&other.manifest.ip.name) && self.manifest.ip.version.major
            == other.manifest.ip.version.major && self.manifest.ip.version.minor
            == other.manifest.ip.version.minor && self.manifest.ip.version.patch
            == other.manifest.ip.version.patch
    }

    /// Whether two records are of the same ip, in the same version, at the
    /// same place.
    pub fn matches(&self, other: &Ip) -> (r: bool)
        ensures
            r == self.same(other),
    {
        self.is_same_release(other) && self.root == other.root
    }
}

/// What is wrong with a manifest.
#[derive(Debug, Clone, Copy, PartialEq, Eq, Structural)]
pub enum ManifestError {
    /// The name of the ip is not well formed.
    InvalidName,
    /// The version of the ip is no full version.
    InvalidVersion,
    /// The name of the dependency at that place is not well formed.
    InvalidDependencyName(usize),
    /// The version of the dependency at that place is no partial version.
    InvalidDependencyVersion(usize),
    /// The dependency at that place has the name of one before it.
    DuplicateDependency(usize),
}

/// Whether the entry `k` of the table of dependencies is in order, given
/// that those before it are: the first thing wrong with it, if anything.
pub open spec fn dependency_fault(deps: Seq<(String, String)>, k: int) -> Option<ManifestError> {
    if !crate::ip::pkgid::is_part_name(deps[k].0@) {
        Some(ManifestError::InvalidDependencyName(k as usize))
    } else if crate::ip::version::spec_partial(deps[k].1@) is None {
        Some(ManifestError::InvalidDependencyVersion(k as usize))
    } else if named_before(deps, k) {
        Some(ManifestError::DuplicateDependency(k as usize))
    } else {
        None
    }
}

/// The first thing wrong with the first `n` entries of the table of
/// dependencies, if anything.
pub open spec fn dependencies_fault(deps: Seq<(String, String)>, n: int) -> Option<ManifestError>
    decreases n,
{
    if n <= 0 {
        None
    } else {
        match dependencies_fault(deps, n - 1) {
            Some(e) => Some(e),
            None => dependency_fault(deps, n - 1),
        }
    }
}

/// The first thing wrong with the fields of a manifest, if anything.
pub open spec fn manifest_fault(
    name: Seq<char>,
    version: Seq<char>,
    deps: Seq<(String, String)>,
) -> Option<ManifestError> {
    if !crate::ip::pkgid::is_part_name(name) {
        Some(ManifestError::InvalidName)
    } else if crate::ip::version::spec_version(version) is None {
        Some(ManifestError::InvalidVersion)
    } else {
        dependencies_fault(deps, deps.len() as int)
    }
}

/// A count written for a reader: the place `k`, counted from one.
pub open spec fn ordinal(k: usize) -> Seq<char> {
    crate::util::number::numeral(k as nat + 1, 10)
}

impl ManifestError {
    /// The error in words.
    pub fn to_string(&self) -> (s: String)
        ensures
            s@ == match self {
                ManifestError::InvalidName => "the name of the ip is not well formed"@,
                ManifestError::InvalidVersion => "the version of the ip is no full version"@,
                ManifestError::InvalidDependencyName(k) => "the name of dependency "@ + ordinal(*k)
                    + " is not well formed"@,
                ManifestError::InvalidDependencyVersion(k) => "the version of dependency "@
                    + ordinal(*k) + " is no partial version"@,
                ManifestError::DuplicateDependency(k) => "dependency "@ + ordinal(*k)
                    + " is named twice"@,
            },
    {
        let mut out: Vec<char> = Vec::new();
        match self {
            ManifestError::InvalidName => {
                crate::text::extend_str(&mut out, "the name of the ip is not well formed");
            },
            ManifestError::InvalidVersion => {
                crate::text::extend_str(&mut out, "the version of the ip is no full version");
            },
            ManifestError::InvalidDependencyName(k) => {
                crate::text::extend_str(&mut out, "the name of dependency ");
                crate::util::number::push_numeral(&mut out, *k as u128 + 1, 10);
                crate::text::extend_str(&mut out, " is not well formed");
            },
            ManifestError::InvalidDependencyVersion(k) => {
                crate::text::extend_str(&mut out, "the version of dependency ");
                crate::util::number::push_numeral(&mut out, *k as u128 + 1, 10);
                crate::text::extend_str(&mut out, " is no partial version");
            },
            ManifestError::DuplicateDependency(k) => {
                crate::text::extend_str(&mut out, "dependency ");
                crate::util::number::push_numeral(&mut out, *k as u128 + 1, 10);
                crate::text::extend_str(&mut out, " is named twice");
            },
        }
        string_of(&out)
    }
}

/// Whether one of the first `k` entries of the table of dependencies has
/// the name of entry `k`.
pub open spec fn named_before(deps: Seq<(String, String)>, k: int) -> bool {
    exists|j: int|
        0 <= j < k && crate::ip::pkgid::norm_name((#[trigger] deps[j]).0@)
            == crate::ip::pkgid::norm_name(deps[k].0@)
}

/// Whether one of the dependencies read so far has the name `name`.
fn is_named(
    dependencies: &Vec<Dependency>,
    name: &PkgPart,
    Ghost(deps): Ghost<Seq<(String, String)>>,
) -> (r: bool)
    requires
        dependencies@.len() < deps.len(),
        name.0@ == deps[dependencies@.len() as int].0@,
        forall|i: int|
            0 <= i < dependencies@.len() ==> (#[trigger] dependencies@[i]).name.0@ == deps[i].0@,
    ensures
        r == named_before(deps, dependencies@.len() as int),
{
    let mut j: usize = 0;
    while j < dependencies.len()
        invariant
            j <= dependencies@.len(),
            dependencies@.len() < deps.len(),
            name.0@ == deps[dependencies@.len() as int].0@,
            forall|i: int|
                0 <= i < dependencies@.len() ==> (#[trigger] dependencies@[i]).name.0@
                    == deps[i].0@,
            forall|i: int|
                0 <= i < j ==> crate::ip::pkgid::norm_name((#[trigger] deps[i]).0@)
                    != crate::ip::pkgid::norm_name(name.0@),
        decreases dependencies.len() - j,
    {
        assert(dependencies@[j as int].name.0@ == deps[j as int].0@);
        if dependencies[j].name.matches(name) {
            return true;
        }
        j += 1;
    }
    false
}

/// Reads the table of dependencies of a manifest.
fn read_dependencies(deps: &Vec<(String, String)>) -> (r: Result<Vec<Dependency>, ManifestError>)
    ensures
        match r {
            Ok(list) => {
                &&& dependencies_fault(deps@, deps@.len() as int) is None
                &&& list@.len() == deps@.len()
                &&& forall|i: int|
                    0 <= i < deps@.len() ==> (#[trigger] list@[i]).name.0@ == deps@[i].0@
                        && list@[i].name.wf() && Some(list@[i].version)
                        == crate::ip::version::spec_partial(deps@[i].1@)
            },
            Err(e) => dependencies_fault(deps@, deps@.len() as int) == Some(e),
        },
{
    let mut list: Vec<Dependency> = Vec::new();
    let mut k: usize = 0;
    while k < deps.len()
        invariant
            k <= deps.len(),
            dependencies_fault(deps@, k as int) is None,
            list@.len() == k,
            forall|i: int|
                0 <= i < k ==> (#[trigger] list@[i]).name.0@ == deps@[i].0@ && list@[i].name.wf()
                    && Some(list@[i].version) == crate::ip::version::spec_partial(deps@[i].1@),
        decreases deps.len() - k,
    {
        let fault: Option<ManifestError> = match PkgPart::from_str(deps[k].0.as_str()) {
            Err(_) => Some(ManifestError::InvalidDependencyName(k)),
            Ok(name) => match PartialVersion::from_str(deps[k].1.as_str()) {
                None => Some(ManifestError::InvalidDependencyVersion(k)),
                Some(version) => {
                    if is_named(&list, &name, Ghost(deps@)) {
                        Some(ManifestError::DuplicateDependency(k))
                    } else {
                        list.push(Dependency { name, version });
                        None
                    }
                },
            },
        };
        assert(fault == dependency_fault(deps@, k as int));
        match fault {
            Some(e) => {
                proof {
                    lemma_fault_stays(deps@, k + 1, deps@.len() as int);
                }
                return Err(e);
            },
            None => {},
        }
        k += 1;
    }
    Ok(list)
}

/// The names of a table of dependencies that has no fault differ from
/// each other.
pub proof fn lemma_no_fault_distinct(deps: Seq<(String, String)>, n: int, i: int, j: int)
    requires
        0 <= i < j < n <= deps.len(),
        dependencies_fault(deps, n) is None,
    ensures
        crate::ip::pkgid::norm_name(deps[i].0@) != crate::ip::pkgid::norm_name(deps[j].0@),
    decreases n,
{
    if j < n - 1 {
        lemma_no_fault_distinct(deps, n - 1, i, j);
    } else {
        assert(dependency_fault(deps, j) is None);
    }
}

impl Manifest {
    /// Makes a manifest of the fields read from a document: the name and
    /// the version of the ip, where it can be fetched from, and the table
    /// of dependencies, each a name and the versions that will do.
    pub fn from_parts(name: &str, version: &str, source: Option<String>, deps: &Vec<(String, String)>) -> (r:
        Result<Manifest, ManifestError>)
        ensures
            match r {
                Ok(m) => {
                    &&& manifest_fault(name@, version@, deps@) is None
                    &&& m.wf()
                    &&& m.ip.name.0@ == name@
                    &&& Some(m.ip.version) == crate::ip::version::spec_version(version@)
                    &&& m.ip.source == source
                    &&& m.dependencies@.len() == deps@.len()
                    &&& forall|i: int|
                        0 <= i < deps@.len() ==> (#[trigger] m.dependencies@[i]).name.0@
                            == deps@[i].0@ && Some(m.dependencies@[i].version)
                            == crate::ip::version::spec_partial(deps@[i].1@)
                },
                Err(e) => manifest_fault(name@, version@, deps@) == Some(e),
            },
    {
        let ip_name = match PkgPart::from_str(name) {
            Ok(p) => p,
            Err(_) => {
                return Err(ManifestError::InvalidName);
            },
        };
        let ip_version = match Version::from_str(version) {
            Some(v) => v,
            None => {
                return Err(ManifestError::InvalidVersion);
            },
        };
        match read_dependencies(deps) {
            Err(e) => Err(e),
            Ok(dependencies) => {
                proof {
                    assert forall|i: int, j: int|
                        #![trigger dependencies@[i], dependencies@[j]]
                        0 <= i < j < dependencies@.len() implies !dependencies@[i].name.same(
                            &dependencies@[j].name,
                        ) by {
                        lemma_no_fault_distinct(deps@, deps@.len() as int, i, j);
                    }
                }
                Ok(
                    Manifest {
                        ip: IpSection { name: ip_name, version: ip_version, source },
                        dependencies,
                    },
                )
            },
        }
    }
}

/// Once something is wrong with the table of dependencies, it stays the
/// first thing wrong, however many entries follow.
pub proof fn lemma_fault_stays(deps: Seq<(String, String)>, k: int, n: int)
    requires
        0 < k <= n,
        dependencies_fault(deps, k) is Some,
    ensures
        dependencies_fault(deps, n) == dependencies_fault(deps, k),
    decreases n - k,
{
    if k < n {
        lemma_fault_stays(deps, k, n - 1);
    }
}

} // verus!

use crate::ip::ip::{hex_prefix, Ip, Sha256Hash, Uuid};
use crate::ip::pkgid::{PkgId, PkgPart};
use crate::ip::version::{satisfies, version_lt, AnyVersion, Version};
use crate::text::{chars_of, extend, extend_str, string_of};
use vstd::prelude::*;

verus! {

/// The tier of the catalog at which an ip was found.
#[derive(Debug, Clone, Copy, PartialEq, Eq, Structural)]
pub enum IpState {
    Downloaded,
    Installation,
    Available,
    Unknown,
}

impl IpState {
    /// The name of the tier.
    pub fn to_string(&self) -> (s: String)
        ensures
            s@ == match self {
                IpState::Downloaded => "downloaded"@,
                IpState::Installation => "installation"@,
                IpState::Available => "available"@,
                IpState::Unknown => "unknown"@,
            },
    {
        let s = match self {
            IpState::Downloaded => "downloaded",
            IpState::Installation => "installation",
            IpState::Available => "available",
            IpState::Unknown => "unknown",
        };
        string_of(&chars_of(s))
    }
}

/// The versions of one ip, tier by tier.
#[derive(Debug)]
pub struct IpLevel {
    pub installs: Vec<Ip>,
    pub downloads: Vec<Ip>,
    pub available: Vec<Ip>,
}

/// Whether a release of `ip` is among `list`.
pub open spec fn has_release(list: Seq<Ip>, ip: Ip) -> bool {
    exists|i: int| 0 <= i < list.len() && (#[trigger] list[i]).same_release(&ip)
}

/// Whether no two of `list` are the same ip in the same version.
pub open spec fn distinct_releases(list: Seq<Ip>) -> bool {
    forall|i: int, j: int|
        #![trigger list[i], list[j]]
        0 <= i < j < list.len() ==> !list[i].same_release(&list[j])
}

/// Whether `list[k]` is the ip that answers the request `target` among
/// `list`: of those whose version is asked for, the one of the highest
/// version, and of several such the first.
pub open spec fn is_target(list: Seq<Ip>, target: AnyVersion, k: int) -> bool {
    &&& 0 <= k < list.len()
    &&& satisfies(target, list[k].version())
    &&& forall|j: int|
        0 <= j < list.len() && satisfies(target, (#[trigger] list[j]).version()) ==> !version_lt(
            list[k].version(),
            list[j].version(),
        )
    &&& forall|j: int|
        0 <= j < k && satisfies(target, (#[trigger] list[j]).version()) ==> version_lt(
            list[j].version(),
            list[k].version(),
        )
}

/// Whether `list[k]` is the ip that minimum version selection picks for the
/// request `target` among `list`: of those whose version is asked for, the
/// one of the lowest version, and of several such the first.
pub open spec fn is_lowest(list: Seq<Ip>, target: AnyVersion, k: int) -> bool {
    &&& 0 <= k < list.len()
    &&& satisfies(target, list[k].version())
    &&& forall|j: int|
        0 <= j < list.len() && satisfies(target, (#[trigger] list[j]).version()) ==> !version_lt(
            list[j].version(),
            list[k].version(),
        )
    &&& forall|j: int|
        0 <= j < k && satisfies(target, (#[trigger] list[j]).version()) ==> version_lt(
            list[k].version(),
            list[j].version(),
        )
}

/// The index of the ip among `list` that answers the request `target`, if
/// one does.
pub open spec fn target_of(list: Seq<Ip>, target: AnyVersion) -> Option<int> {
    if exists|k: int| is_target(list, target, k) {
        Some(choose|k: int| is_target(list, target, k))
    } else {
        None
    }
}

/// The ip that answers a request is the only one that does.
pub proof fn lemma_target_of(list: Seq<Ip>, target: AnyVersion, k: int)
    requires
        is_target(list, target, k),
    ensures
        target_of(list, target) == Some(k),
{
    let c = choose|c: int| is_target(list, target, c);
    if c < k {
        assert(version_lt(list[c].version(), list[k].version()));
    } else if k < c {
        assert(version_lt(list[k].version(), list[c].version()));
    }
}

/// Where no version is asked for, no ip answers the request.
pub proof fn lemma_no_target(list: Seq<Ip>, target: AnyVersion)
    requires
        none_satisfies(list, target),
    ensures
        target_of(list, target) is None,
{
    if exists|k: int| is_target(list, target, k) {
        let c = choose|c: int| is_target(list, target, c);
        assert(satisfies(target, list[c].version()));
    }
}

/// Whether none of `list` has a version that is asked for.
pub open spec fn none_satisfies(list: Seq<Ip>, target: AnyVersion) -> bool {
    forall|j: int| 0 <= j < list.len() ==> !satisfies(target, (#[trigger] list[j]).version())
}

/// Finds the ip of the highest version that is asked for.
pub fn find_target(target: &AnyVersion, space: &Vec<Ip>) -> (r: Option<usize>)
    ensures
        match r {
            Some(k) => is_target(space@, *target, k as int),
            None => none_satisfies(space@, *target),
        },
{
    let mut best: Option<usize> = None;
    let mut i: usize = 0;
    while i < space.len()
        invariant
            i <= space.len(),
            match best {
                Some(k) => k < i && is_target(space@.take(i as int), *target, k as int),
                None => none_satisfies(space@.take(i as int), *target),
            },
        decreases space.len() - i,
    {
        let ghost before = space@.take(i as int);
        let ghost after = space@.take(i + 1);
        assert(forall|j: int| 0 <= j < i ==> after[j] == before[j]);
        let v = space[i].get_version();
        if target.allows(v) {
            match best {
                Some(k) => {
                    if space[k].get_version().is_lower(v) {
                        best = Some(i);
                    }
                },
                None => {
                    best = Some(i);
                },
            }
        }
        i += 1;
    }
    assert(space@.take(space@.len() as int) =~= space@);
    best
}

/// Finds the ip of the lowest version that is asked for.
pub fn find_lowest(target: &AnyVersion, space: &Vec<Ip>) -> (r: Option<usize>)
    ensures
        match r {
            Some(k) => is_lowest(space@, *target, k as int),
            None => none_satisfies(space@, *target),
        },
{
    let mut best: Option<usize> = None;
    let mut i: usize = 0;
    while i < space.len()
        invariant
            i <= space.len(),
            match best {
                Some(k) => k < i && is_lowest(space@.take(i as int), *target, k as int),
                None => none_satisfies(space@.take(i as int), *target),
            },
        decreases space.len() - i,
    {
        let ghost before = space@.take(i as int);
        let ghost after = space@.take(i + 1);
        assert(forall|j: int| 0 <= j < i ==> after[j] == before[j]);
        let v = space[i].get_version();
        if target.allows(v) {
            match best {
                Some(k) => {
                    if v.is_lower(space[k].get_version()) {
                        best = Some(i);
                    }
                },
                None => {
                    best = Some(i);
                },
            }
        }
        i += 1;
    }
    assert(space@.take(space@.len() as int) =~= space@);
    best
}

/// Whether a release of `ip` is among `list`.
pub fn contains_release(list: &Vec<Ip>, ip: &Ip) -> (r: bool)
    ensures
        r == has_release(list@, *ip),
{
    let mut i: usize = 0;
    while i < list.len()
        invariant
            i <= list.len(),
            forall|j: int| 0 <= j < i ==> !(#[trigger] list@[j]).same_release(ip),
        decreases list.len() - i,
    {
        if list[i].is_same_release(ip) {
            return true;
        }
        i += 1;
    }
    false
}

/// Whether the very record `ip` is among `list`.
pub fn contains_ip(list: &Vec<Ip>, ip: &Ip) -> (r: bool)
    ensures
        r == exists|i: int| 0 <= i < list@.len() && (#[trigger] list@[i]).same(ip),
{
    let mut i: usize = 0;
    while i < list.len()
        invariant
            i <= list.len(),
            forall|j: int| 0 <= j < i ==> !(#[trigger] list@[j]).same(ip),
        decreases list.len() - i,
    {
        if list[i].matches(ip) {
            return true;
        }
        i += 1;
    }
    false
}

impl IpLevel {
    /// Whether within each tier no two records are of the same ip in
    /// the same version, and no installation is a dynamic one.
    pub open spec fn wf(&self) -> bool {
        &&& distinct_releases(self.installs@)
        &&& distinct_releases(self.downloads@)
        &&& distinct_releases(self.available@)
        &&& forall|i: int| 0 <= i < self.installs@.len() ==> !(#[trigger] self.installs@[i]).dynamic
    }

    /// A level without any version.
    pub fn new() -> (r: IpLevel)
        ensures
            r.wf(),
            r.installs@.len() == 0,
            r.downloads@.len() == 0,
            r.available@.len() == 0,
    {
        IpLevel { installs: Vec::new(), downloads: Vec::new(), available: Vec::new() }
    }

    /// Adds an installation, unless it is a dynamic one or that version
    /// is installed already.
    pub fn add_install(&mut self, m: Ip)
        requires
            old(self).wf(),
        ensures
            final(self).wf(),
            final(self).downloads == old(self).downloads,
            final(self).available == old(self).available,
            final(self).installs@ == if m.dynamic || has_release(old(self).installs@, m) {
                old(self).installs@
            } else {
                old(self).installs@.push(m)
            },
    {
        if m.is_dynamic() == false && !contains_release(&self.installs, &m) {
            proof {
                lemma_push_distinct(self.installs@, m);
            }
            self.installs.push(m);
        }
    }

    /// Adds a download, unless that version is downloaded already.
    pub fn add_download(&mut self, m: Ip)
        requires
            old(self).wf(),
        ensures
            final(self).wf(),
            final(self).installs == old(self).installs,
            final(self).available == old(self).available,
            final(self).downloads@ == if has_release(old(self).downloads@, m) {
                old(self).downloads@
            } else {
                old(self).downloads@.push(m)
            },
    {
        if !contains_release(&self.downloads, &m) {
            proof {
                lemma_push_distinct(self.downloads@, m);
            }
            self.downloads.push(m);
        }
    }

    /// Adds a version that a vendor offers, unless it is listed already.
    pub fn add_available(&mut self, m: Ip)
        requires
            old(self).wf(),
        ensures
            final(self).wf(),
            final(self).installs == old(self).installs,
            final(self).downloads == old(self).downloads,
            final(self).available@ == if has_release(old(self).available@, m) {
                old(self).available@
            } else {
                old(self).available@.push(m)
            },
    {
        if !contains_release(&self.available, &m) {
            proof {
                lemma_push_distinct(self.available@, m);
            }
            self.available.push(m);
        }
    }

    /// The installations.
    pub fn get_installations(&self) -> (r: &Vec<Ip>)
        ensures
            *r == self.installs,
    {
        &self.installs
    }

    /// The downloads.
    pub fn get_downloads(&self) -> (r: &Vec<Ip>)
        ensures
            *r == self.downloads,
    {
        &self.downloads
    }

    /// The versions that vendors offer.
    pub fn get_availability(&self) -> (r: &Vec<Ip>)
        ensures
            *r == self.available,
    {
        &self.available
    }

    /// Whether a vendor offers a version.
    pub fn is_available(&self) -> (r: bool)
        ensures
            r == (self.available@.len() > 0),
    {
        self.available.len() > 0
    }

    /// Whether a version is installed.
    pub fn is_installed(&self) -> (r: bool)
        ensures
            r == (self.installs@.len() > 0),
    {
        self.installs.len() > 0
    }

    /// Whether a version is downloaded.
    pub fn is_downloaded(&self) -> (r: bool)
        ensures
            r == (self.downloads@.len() > 0),
    {
        self.downloads.len() > 0
    }

    /// The installation that answers the request `version`.
    pub fn get_install(&self, version: &AnyVersion) -> (r: Option<&Ip>)
        ensures
            answers(self.installs@, *version, r),
    {
        Self::get_target_version(version, &self.installs)
    }

    /// The download that answers the request `version`.
    pub fn get_download(&self, version: &AnyVersion) -> (r: Option<&Ip>)
        ensures
            answers(self.downloads@, *version, r),
    {
        Self::get_target_version(version, &self.downloads)
    }

    /// The offer of a vendor that answers the request `version`.
    pub fn get_available(&self, version: &AnyVersion) -> (r: Option<&Ip>)
        ensures
            answers(self.available@, *version, r),
    {
        Self::get_target_version(version, &self.available)
    }

    /// The ip that answers the request `version`: an installation if one
    /// does; else, where `check_downloads` allows it, a download.
    pub fn get(&self, check_downloads: bool, version: &AnyVersion) -> (r: Option<&Ip>)
        ensures
            if !none_satisfies(self.installs@, *version) {
                answers(self.installs@, *version, r)
            } else if check_downloads {
                answers(self.downloads@, *version, r)
            } else {
                r is None
            },
    {
        match self.get_install(version) {
            Some(ip) => Some(ip),
            None => match check_downloads {
                true => self.get_download(version),
                false => None,
            },
        }
    }

    /// The tier at which the record `ip` is found: installations first,
    /// then the offers of vendors, then the downloads.
    pub fn get_state(&self, ip: &Ip) -> (r: IpState)
        ensures
            r == if exists|i: int|
                0 <= i < self.installs@.len() && (#[trigger] self.installs@[i]).same(ip) {
                IpState::Installation
            } else if exists|i: int|
                0 <= i < self.available@.len() && (#[trigger] self.available@[i]).same(ip) {
                IpState::Available
            } else if exists|i: int|
                0 <= i < self.downloads@.len() && (#[trigger] self.downloads@[i]).same(ip) {
                IpState::Downloaded
            } else {
                IpState::Unknown
            },
    {
        if contains_ip(&self.installs, ip) {
            IpState::Installation
        } else if contains_ip(&self.available, ip) {
            IpState::Available
        } else if contains_ip(&self.downloads, ip) {
            IpState::Downloaded
        } else {
            IpState::Unknown
        }
    }

    /// The ip among `space` that answers the request `target`: of those
    /// whose version is asked for, the one of the highest version.
    pub fn get_target_version<'a>(target: &AnyVersion, space: &'a Vec<Ip>) -> (r: Option<&'a Ip>)
        ensures
            answers(space@, *target, r),
    {
        match find_target(target, space) {
            Some(k) => Some(&space[k]),
            None => None,
        }
    }

    /// The ip among `space` that minimum version selection picks for the
    /// request `target`: of those whose version is asked for, the one of
    /// the lowest version.
    pub fn get_lowest_version<'a>(target: &AnyVersion, space: &'a Vec<Ip>) -> (r: Option<&'a Ip>)
        ensures
            match r {
                Some(ip) => exists|k: int| is_lowest(space@, *target, k) && *ip == space@[k],
                None => none_satisfies(space@, *target),
            },
    {
        match find_lowest(target, space) {
            Some(k) => Some(&space[k]),
            None => None,
        }
    }
}

/// Whether `r` is the answer to the request `target` among `list`.
pub open spec fn answers(list: Seq<Ip>, target: AnyVersion, r: Option<&Ip>) -> bool {
    match r {
        Some(ip) => exists|k: int| is_target(list, target, k) && *ip == list[k],
        None => none_satisfies(list, target),
    }
}

/// A list of distinct releases stays one when a release that it lacks is
/// added to it.
pub proof fn lemma_push_distinct(list: Seq<Ip>, ip: Ip)
    requires
        distinct_releases(list),
        !has_release(list, ip),
    ensures
        distinct_releases(list.push(ip)),
{
    let next = list.push(ip);
    assert forall|i: int, j: int|
        #![trigger next[i], next[j]]
        0 <= i < j < next.len() implies !next[i].same_release(&next[j]) by {
        if j == list.len() {
            assert(next[i] == list[i]);
            assert(!list[i].same_release(&ip));
        } else {
            assert(next[i] == list[i] && next[j] == list[j]);
        }
    }
}

/// The first two bytes of a unique identifier and the fourteen that follow:
/// the place of an ip in the cache.
#[derive(Debug, Clone, PartialEq)]
pub struct CacheEntry {
    pub set: u8,
    pub tag: u8,
    pub offset: Vec<u8>,
}

impl CacheEntry {
    /// The place that the identifier `value` gives.
    pub fn from(value: &Uuid) -> (r: CacheEntry)
        requires
            value.wf(),
        ensures
            r.set == value.bytes@[0],
            r.tag == value.bytes@[1],
            r.offset@ == value.bytes@.subrange(2, 16),
    {
        let mut offset: Vec<u8> = Vec::new();
        let mut i: usize = 2;
        while i < 16
            invariant
                2 <= i <= 16,
                value.bytes@.len() == 16,
                offset@ == value.bytes@.subrange(2, i as int),
            decreases 16 - i,
        {
            offset.push(value.bytes[i]);
            i += 1;
        }
        CacheEntry { set: value.bytes[0], tag: value.bytes[1], offset }
    }

    /// The first byte of the identifier, in two hexadecimal digits.
    pub fn set(&self) -> (s: String)
        ensures
            s@ == crate::util::number::hex_byte(self.set, true),
    {
        let mut out: Vec<char> = Vec::new();
        crate::util::number::push_hex_byte(&mut out, self.set, true);
        string_of(&out)
    }

    /// The second byte of the identifier, in two hexadecimal digits.
    pub fn tag(&self) -> (s: String)
        ensures
            s@ == crate::util::number::hex_byte(self.tag, true),
    {
        let mut out: Vec<char> = Vec::new();
        crate::util::number::push_hex_byte(&mut out, self.tag, true);
        string_of(&out)
    }

    /// The other bytes of the identifier, in two hexadecimal digits each.
    pub fn offset(&self) -> (s: String)
        ensures
            s@ == crate::util::number::hex_bytes(self.offset@, self.offset@.len() as int, true),
    {
        string_of(&hex_prefix(&self.offset, self.offset.len(), true))
    }
}

/// What is wrong with a request to the catalog.
#[derive(Debug, PartialEq)]
pub enum CatalogError {
    /// The ip is not installed, but a vendor offers it.
    SuggestInstall(PkgId, AnyVersion),
    /// The ip is known, but not in a version that is asked for.
    NoVersionForIp(PkgId, AnyVersion),
}

impl CatalogError {
    /// The error in words.
    pub fn to_string(&self) -> (s: String)
        ensures
            s@ == match self {
                CatalogError::SuggestInstall(target, version) => "ip '"@ + target.name.0@
                    + "' is not installed but is available in version '"@ + any_text(*version)
                    + "'"@,
                CatalogError::NoVersionForIp(target, version) => "ip '"@ + target.name.0@
                    + "' has no version '"@ + any_text(*version) + "'"@,
            },
    {
        let mut out: Vec<char> = Vec::new();
        extend_str(&mut out, "ip '");
        match self {
            CatalogError::SuggestInstall(target, version) => {
                extend(&mut out, &chars_of(target.name.as_str()));
                extend_str(&mut out, "' is not installed but is available in version '");
                extend(&mut out, &chars_of(version.to_string().as_str()));
            },
            CatalogError::NoVersionForIp(target, version) => {
                extend(&mut out, &chars_of(target.name.as_str()));
                extend_str(&mut out, "' has no version '");
                extend(&mut out, &chars_of(version.to_string().as_str()));
            },
        }
        extend_str(&mut out, "'");
        string_of(&out)
    }
}

/// The request `v` as text.
pub open spec fn any_text(v: AnyVersion) -> Seq<char> {
    match v {
        AnyVersion::Latest => "latest"@,
        AnyVersion::Specific(p) => crate::ip::version::partial_text(p),
    }
}

/// The extension of the archive of an ip.
pub const ARCHIVE_EXT: &'static str = "ip";

/// The name of the directory of an installation in the cache: the name of
/// the ip, its version, and the first ten hexadecimal digits of its
/// checksum, with hyphens between them.
#[derive(Debug, PartialEq)]
pub struct CacheSlot(pub PkgPart, pub Version, pub String);

/// The name of a cache slot made of its three parts.
pub open spec fn slot_text(name: Seq<char>, version: Version, rest: Seq<char>) -> Seq<char> {
    name + seq!['-'] + crate::ip::version::version_text(version) + seq!['-'] + rest
}

/// The three parts of the name of a cache slot, if `s` is one: what stands
/// before the last but one hyphen is the name of an ip, what stands
/// between the last two hyphens is a version.
pub open spec fn spec_slot(s: Seq<char>) -> Option<(Seq<char>, Version, Seq<char>)> {
    let d2 = crate::util::filesystem::last_index(s, '-', s.len() as int);
    let d1 = crate::util::filesystem::last_index(s, '-', d2);
    if d1 < 0 {
        None
    } else {
        let name = s.subrange(0, d1);
        match crate::ip::version::spec_version(s.subrange(d1 + 1, d2)) {
            Some(v) => if crate::ip::pkgid::is_part_name(name) {
                Some((name, v, s.subrange(d2 + 1, s.len() as int)))
            } else {
                None
            },
            None => None,
        }
    }
}

/// Where `c` stands at `k` and nowhere between `k` and `n`, `k` is the
/// index of the last `c` before `n`.
pub proof fn lemma_last_index_at(s: Seq<char>, c: char, n: int, k: int)
    requires
        0 <= k < n <= s.len(),
        s[k] == c,
        forall|j: int| k < j < n ==> s[j] != c,
    ensures
        crate::util::filesystem::last_index(s, c, n) == k,
    decreases n,
{
    if n - 1 > k {
        lemma_last_index_at(s, c, n - 1, k);
    }
}

/// The name of a cache slot reads back as the parts it was made of, if
/// the last part holds no hyphen.
pub proof fn lemma_cache_slot_round_trip(name: Seq<char>, version: Version, rest: Seq<char>)
    requires
        crate::ip::pkgid::is_part_name(name),
        forall|j: int| 0 <= j < rest.len() ==> rest[j] != '-',
    ensures
        spec_slot(slot_text(name, version, rest)) == Some((name, version, rest)),
{
    let v = crate::ip::version::version_text(version);
    let s = slot_text(name, version, rest);
    crate::ip::version::lemma_version_text_plain(version);
    crate::ip::version::lemma_version_round_trip(version);
    let d1 = name.len() as int;
    let d2 = d1 + 1 + v.len();
    assert(s[d2] == '-');
    assert(s[d1] == '-');
    assert forall|j: int| d2 < j < s.len() implies s[j] != '-' by {
        assert(s[j] == rest[j - d2 - 1]);
    }
    lemma_last_index_at(s, '-', s.len() as int, d2);
    assert forall|j: int| d1 < j < d2 implies s[j] != '-' by {
        assert(s[j] == v[j - d1 - 1]);
    }
    lemma_last_index_at(s, '-', d2, d1);
    assert(s.subrange(0, d1) =~= name);
    assert(s.subrange(d1 + 1, d2) =~= v);
    assert(s.subrange(d2 + 1, s.len() as int) =~= rest);
}

/// The first bytes of a checksum in hexadecimal digits are the first digits
/// of the whole checksum in hexadecimal digits.
pub proof fn lemma_hex_prefix(bytes: Seq<u8>, k: int, n: int)
    requires
        0 <= k <= n <= bytes.len(),
    ensures
        crate::util::number::hex_bytes(bytes, k, false) == crate::util::number::hex_bytes(
            bytes,
            n,
            false,
        ).subrange(0, 2 * k),
    decreases n - k,
{
    crate::util::number::lemma_hex_bytes_plain(bytes, k, false);
    crate::util::number::lemma_hex_bytes_plain(bytes, n, false);
    if k < n {
        lemma_hex_prefix(bytes, k, n - 1);
        crate::util::number::lemma_hex_bytes_plain(bytes, n - 1, false);
        assert(crate::util::number::hex_bytes(bytes, n, false).subrange(0, 2 * k)
            =~= crate::util::number::hex_bytes(bytes, n - 1, false).subrange(0, 2 * k));
    } else {
        assert(crate::util::number::hex_bytes(bytes, n, false).subrange(0, 2 * k)
            =~= crate::util::number::hex_bytes(bytes, k, false));
    }
}

/// The name of the cache slot of an ip reads back as the name and the
/// version of the ip and the first ten hexadecimal digits of its checksum.
pub proof fn lemma_slot_of_checksum(name: PkgPart, version: Version, checksum: Sha256Hash)
    requires
        name.wf(),
        checksum.wf(),
    ensures
        spec_slot(
            slot_text(
                name.0@,
                version,
                crate::util::number::hex_bytes(checksum.digest@, 32, false).subrange(0, 10),
            ),
        ) == Some(
            (
                name.0@,
                version,
                crate::util::number::hex_bytes(checksum.digest@, 32, false).subrange(0, 10),
            ),
        ),
        crate::util::number::hex_bytes(checksum.digest@, 32, false).subrange(0, 10)
            == crate::util::number::hex_bytes(checksum.digest@, 5, false),
{
    lemma_hex_prefix(checksum.digest@, 5, 32);
    crate::util::number::lemma_hex_bytes_plain(checksum.digest@, 5, false);
    lemma_cache_slot_round_trip(
        name.0@,
        version,
        crate::util::number::hex_bytes(checksum.digest@, 5, false),
    );
}

impl CacheSlot {
    /// The slot of the ip `name` in the version `version` with the
    /// checksum `checksum`.
    pub fn new(name: &PkgPart, version: &Version, checksum: &Sha256Hash) -> (r: CacheSlot)
        requires
            checksum.wf(),
        ensures
            r.0 == *name,
            r.1 == *version,
            r.2@ == crate::util::number::hex_bytes(checksum.digest@, 5, false),
    {
        CacheSlot(name.clone(), *version, string_of(&hex_prefix(&checksum.digest, 5, false)))
    }

    /// The slot in which the ip `ip` is installed: that of its name, its
    /// version and its checksum. An ip whose checksum is not known has
    /// no slot.
    pub fn of_ip(ip: &Ip) -> (r: Option<CacheSlot>)
        ensures
            match r {
                Some(slot) => ip.checksum is Some && ip.checksum->0.wf() && slot.0 == ip.name()
                    && slot.1 == ip.version() && slot.2@ == crate::util::number::hex_bytes(
                    ip.checksum->0.digest@,
                    5,
                    false,
                ),
                None => ip.checksum is None || !ip.checksum->0.wf(),
            },
    {
        match &ip.checksum {
            Some(sum) => if sum.digest.len() == 32 {
                Some(CacheSlot::new(&ip.manifest.ip.name, &ip.manifest.ip.version, sum))
            } else {
                None
            },
            None => None,
        }
    }

    /// Takes the name of a cache slot apart.
    pub fn try_from_str(s: &str) -> (r: Option<CacheSlot>)
        ensures
            match (r, spec_slot(s@)) {
                (Some(slot), Some((name, version, rest))) => slot.0.0@ == name && slot.1 == version
                    && slot.2@ == rest && slot.0.wf(),
                (None, None) => true,
                _ => false,
            },
    {
        let v = chars_of(s);
        let e2 = crate::util::filesystem::find_last(&v, '-');
        if e2 == 0 {
            return None;
        }
        let d2 = e2 - 1;
        let head = crate::text::subvec(&v, 0, d2);
        let e1 = crate::util::filesystem::find_last(&head, '-');
        proof {
            lemma_last_index_prefix(v@, '-', d2 as int);
        }
        if e1 == 0 {
            return None;
        }
        let d1 = e1 - 1;
        let name_text = crate::text::substring(&v, 0, d1);
        let version_text = crate::text::substring(&v, d1 + 1, d2);
        let rest = crate::text::substring(&v, d2 + 1, v.len());
        let name = match PkgPart::from_str(name_text.as_str()) {
            Ok(p) => p,
            Err(_) => {
                return None;
            },
        };
        match Version::from_str(version_text.as_str()) {
            Some(version) => Some(CacheSlot(name, version, rest)),
            None => None,
        }
    }

    /// The name of the ip.
    pub fn get_name(&self) -> (r: &PkgPart)
        ensures
            *r == self.0,
    {
        &self.0
    }

    /// The version of the ip.
    pub fn get_version(&self) -> (r: &Version)
        ensures
            *r == self.1,
    {
        &self.1
    }

    /// The name of the slot.
    pub fn to_string(&self) -> (s: String)
        ensures
            s@ == slot_text(self.0.0@, self.1, self.2@),
    {
        let mut out: Vec<char> = chars_of(self.0.as_str());
        out.push('-');
        extend(&mut out, &chars_of(self.1.to_string().as_str()));
        out.push('-');
        extend(&mut out, &chars_of(self.2.as_str()));
        assert(out@ =~= slot_text(self.0.0@, self.1, self.2@));
        string_of(&out)
    }
}

/// The last `c` before `n` is found in any beginning of the text that
/// reaches to `n`.
pub proof fn lemma_last_index_prefix(s: Seq<char>, c: char, n: int)
    requires
        0 <= n <= s.len(),
    ensures
        crate::util::filesystem::last_index(s.subrange(0, n), c, n)
            == crate::util::filesystem::last_index(s, c, n),
{
    lemma_last_index_within(s, s.subrange(0, n), c, n);
}

/// Two texts that agree before `n` have their last `c` before `n` at the
/// same index.
pub proof fn lemma_last_index_within(s: Seq<char>, t: Seq<char>, c: char, n: int)
    requires
        0 <= n <= s.len(),
        n <= t.len(),
        forall|j: int| 0 <= j < n ==> s[j] == t[j],
    ensures
        crate::util::filesystem::last_index(t, c, n) == crate::util::filesystem::last_index(
            s,
            c,
            n,
        ),
    decreases n,
{
    if n > 0 {
        lemma_last_index_within(s, t, c, n - 1);
    }
}

/// The name of the archive of a download: the name of the ip, its version,
/// and the first four bytes of its unique identifier as one hexadecimal
/// number, with hyphens between them, and the extension of archives.
#[derive(Debug, PartialEq)]
pub struct DownloadSlot(pub String);

/// The number that four bytes write, the first byte the highest.
pub open spec fn be_u32(b: Seq<u8>) -> nat {
    (b[0] as nat) * 16777216 + (b[1] as nat) * 65536 + (b[2] as nat) * 256 + (b[3] as nat)
}

/// The text `s` without the extension of archives, if it ends with a dot
/// and that extension.
pub open spec fn without_ext(s: Seq<char>) -> Option<Seq<char>> {
    let tail = seq!['.'] + ARCHIVE_EXT@;
    if crate::util::filesystem::ends_with(s, tail) {
        Some(s.subrange(0, s.len() - tail.len()))
    } else {
        None
    }
}

/// The three parts of the name of a download slot, if `s` is one: the name
/// of a cache slot, a dot, and the extension of archives.
pub open spec fn spec_download_slot(s: Seq<char>) -> Option<(Seq<char>, Version, Seq<char>)> {
    match without_ext(s) {
        Some(body) => spec_slot(body),
        None => None,
    }
}

/// The name of the download slot of an ip reads back as the name and the
/// version of the ip and the number that the first four bytes of its
/// unique identifier write.
pub proof fn lemma_download_slot_round_trip(name: PkgPart, version: Version, uuid: Uuid)
    requires
        name.wf(),
        uuid.wf(),
    ensures
        spec_download_slot(
            slot_text(name.0@, version, crate::util::number::numeral(be_u32(uuid.bytes@), 16))
                + seq!['.'] + ARCHIVE_EXT@,
        ) == Some((name.0@, version, crate::util::number::numeral(be_u32(uuid.bytes@), 16))),
{
    let rest = crate::util::number::numeral(be_u32(uuid.bytes@), 16);
    let body = slot_text(name.0@, version, rest);
    let tail = seq!['.'] + ARCHIVE_EXT@;
    let s = body + seq!['.'] + ARCHIVE_EXT@;
    crate::util::number::lemma_numeral_plain(be_u32(uuid.bytes@), 16);
    lemma_cache_slot_round_trip(name.0@, version, rest);
    assert(s =~= body + tail);
    assert(s.subrange(s.len() - tail.len(), s.len() as int) =~= tail);
    assert(s.subrange(0, s.len() - tail.len()) =~= body);
}

impl DownloadSlot {
    /// Takes the name of a download slot apart: the name and the version of
    /// the ip, and what follows them up to the extension.
    pub fn try_from_str(s: &str) -> (r: Option<CacheSlot>)
        ensures
            match (r, spec_download_slot(s@)) {
                (Some(slot), Some((name, version, rest))) => slot.0.0@ == name && slot.1 == version
                    && slot.2@ == rest && slot.0.wf(),
                (None, None) => true,
                _ => false,
            },
    {
        let v = chars_of(s);
        let mut tail: Vec<char> = Vec::new();
        tail.push('.');
        crate::text::extend_str(&mut tail, ARCHIVE_EXT);
        if v.len() < tail.len() {
            return None;
        }
        let cut = v.len() - tail.len();
        let end = crate::text::subvec(&v, cut, v.len());
        if !crate::text::chars_eq(&end, &tail) {
            return None;
        }
        let body = crate::text::substring(&v, 0, cut);
        CacheSlot::try_from_str(body.as_str())
    }

    /// The slot of the ip `name` in the version `version` with the
    /// identifier `uuid`.
    pub fn new(name: &PkgPart, version: &Version, uuid: &Uuid) -> (r: DownloadSlot)
        requires
            uuid.wf(),
        ensures
            r.0@ == name.0@ + seq!['-'] + crate::ip::version::version_text(*version) + seq!['-']
                + crate::util::number::numeral(be_u32(uuid.bytes@), 16) + seq!['.']
                + ARCHIVE_EXT@,
    {
        let mut out: Vec<char> = chars_of(name.as_str());
        out.push('-');
        extend(&mut out, &chars_of(version.to_string().as_str()));
        out.push('-');
        let b0: u32 = uuid.bytes[0] as u32;
        let b1: u32 = uuid.bytes[1] as u32;
        let b2: u32 = uuid.bytes[2] as u32;
        let b3: u32 = uuid.bytes[3] as u32;
        let n: u32 = b0 * 16777216 + b1 * 65536 + b2 * 256 + b3;
        crate::util::number::push_numeral(&mut out, n as u128, 16);
        out.push('.');
        extend_str(&mut out, ARCHIVE_EXT);
        assert(out@ =~= name.0@ + seq!['-'] + crate::ip::version::version_text(*version)
            + seq!['-'] + crate::util::number::numeral(be_u32(uuid.bytes@), 16) + seq!['.']
            + ARCHIVE_EXT@);
        DownloadSlot(string_of(&out))
    }

    /// The name of the archive.
    pub fn as_ref(&self) -> (r: &str)
        ensures
            r@ == self.0@,
    {
        self.0.as_str()
    }
}

/// The versions of one ip, tier by tier, over plain sequences.
pub struct Level {
    pub installs: Seq<Ip>,
    pub downloads: Seq<Ip>,
    pub available: Seq<Ip>,
}

impl View for IpLevel {
    type V = Level;

    open spec fn view(&self) -> Level {
        Level { installs: self.installs@, downloads: self.downloads@, available: self.available@ }
    }
}

/// The list `list` with `ip` added, unless a release of it is there already.
pub open spec fn with_release(list: Seq<Ip>, ip: Ip) -> Seq<Ip> {
    if has_release(list, ip) {
        list
    } else {
        list.push(ip)
    }
}

/// The level `level` with `ip` added at the tier `tier`. A dynamic
/// installation is not added; nothing is added at an unknown tier.
pub open spec fn level_with(level: Level, ip: Ip, tier: IpState) -> Level {
    match tier {
        IpState::Installation => if ip.dynamic {
            level
        } else {
            Level { installs: with_release(level.installs, ip), ..level }
        },
        IpState::Downloaded => Level { downloads: with_release(level.downloads, ip), ..level },
        IpState::Available => Level { available: with_release(level.available, ip), ..level },
        IpState::Unknown => level,
    }
}

/// A level without any version.
pub open spec fn empty_level() -> Level {
    Level { installs: Seq::empty(), downloads: Seq::empty(), available: Seq::empty() }
}

/// The index of the first entry whose name is `name`, or the number of
/// entries if there is none.
pub open spec fn key_index(keys: Seq<PkgPart>, name: PkgPart, i: int) -> int
    decreases keys.len() - i,
{
    if i < 0 || i >= keys.len() {
        keys.len() as int
    } else if keys[i].same(&name) {
        i
    } else {
        key_index(keys, name, i + 1)
    }
}

/// The first entry whose name is `name` lies at the index found, and none
/// lies before it.
pub proof fn lemma_key_index(keys: Seq<PkgPart>, name: PkgPart, i: int)
    requires
        0 <= i <= keys.len(),
    ensures
        i <= key_index(keys, name, i) <= keys.len(),
        key_index(keys, name, i) < keys.len() ==> keys[key_index(keys, name, i)].same(&name),
        forall|j: int| i <= j < key_index(keys, name, i) ==> !(#[trigger] keys[j]).same(&name),
    decreases keys.len() - i,
{
    if i < keys.len() && !keys[i].same(&name) {
        lemma_key_index(keys, name, i + 1);
    }
}

/// Whether every ip of `list` has the name `key`.
pub open spec fn all_named(list: Seq<Ip>, key: PkgPart) -> bool {
    forall|j: int| 0 <= j < list.len() ==> key.same(&(#[trigger] list[j]).name())
}

/// Whether every ip of the level has the name `key`.
pub open spec fn level_named(level: Level, key: PkgPart) -> bool {
    all_named(level.installs, key) && all_named(level.downloads, key) && all_named(
        level.available,
        key,
    )
}

/// A level of ips of one name stays one when an ip of that name is added.
pub proof fn lemma_level_with_named(level: Level, ip: Ip, tier: IpState, key: PkgPart)
    requires
        level_named(level, key),
        key.same(&ip.name()),
    ensures
        level_named(level_with(level, ip, tier), key),
{
}

/// The ips that are known, by name.
#[derive(Debug)]
pub struct Catalog {
    pub keys: Vec<PkgPart>,
    pub levels: Vec<IpLevel>,
    pub cache: Option<String>,
    pub downloads: Option<String>,
}

/// The levels of a catalog over plain sequences.
pub open spec fn levels_view(levels: Seq<IpLevel>) -> Seq<Level> {
    levels.map_values(|l: IpLevel| l@)
}

/// The names and levels of a catalog after `ip` was added at the tier `tier`.
pub open spec fn catalog_with(
    keys: Seq<PkgPart>,
    levels: Seq<Level>,
    ip: Ip,
    tier: IpState,
) -> (Seq<PkgPart>, Seq<Level>) {
    let k = key_index(keys, ip.name(), 0);
    if k < keys.len() {
        (keys, levels.update(k, level_with(levels[k], ip, tier)))
    } else {
        (keys.push(ip.name()), levels.push(level_with(empty_level(), ip, tier)))
    }
}

/// The names and levels of a catalog after the first `n` of `ips` were
/// added at the tier `tier`, one after the other.
pub open spec fn catalog_with_all(
    keys: Seq<PkgPart>,
    levels: Seq<Level>,
    ips: Seq<Ip>,
    n: int,
    tier: IpState,
) -> (Seq<PkgPart>, Seq<Level>)
    decreases n,
{
    if n <= 0 {
        (keys, levels)
    } else {
        let (k, l) = catalog_with_all(keys, levels, ips, n - 1, tier);
        catalog_with(k, l, ips[n - 1], tier)
    }
}

impl Catalog {
    /// Whether the catalog is well formed: every name has its level, no name
    /// occurs twice, and every level is well formed.
    pub open spec fn wf(&self) -> bool {
        &&& self.keys@.len() == self.levels@.len()
        &&& forall|i: int, j: int|
            #![trigger self.keys@[i], self.keys@[j]]
            0 <= i < j < self.keys@.len() ==> !self.keys@[i].same(&self.keys@[j])
        &&& forall|i: int| 0 <= i < self.levels@.len() ==> (#[trigger] self.levels@[i]).wf()
        &&& forall|i: int|
            0 <= i < self.levels@.len() ==> level_named((#[trigger] self.levels@[i])@, self.keys@[i])
    }

    /// A catalog that knows no ip.
    pub fn new() -> (r: Catalog)
        ensures
            r.wf(),
            r.keys@.len() == 0,
            r.cache is None,
            r.downloads is None,
    {
        Catalog { keys: Vec::new(), levels: Vec::new(), cache: None, downloads: None }
    }

    /// Finds the entry of the ip `name`.
    pub fn find(&self, name: &PkgPart) -> (r: Option<usize>)
        ensures
            match r {
                Some(k) => k == key_index(self.keys@, *name, 0) && k < self.keys@.len(),
                None => key_index(self.keys@, *name, 0) == self.keys@.len(),
            },
    {
        let mut i: usize = 0;
        while i < self.keys.len()
            invariant
                i <= self.keys.len(),
                key_index(self.keys@, *name, i as int) == key_index(self.keys@, *name, 0),
            decreases self.keys.len() - i,
        {
            if self.keys[i].matches(name) {
                return Some(i);
            }
            i += 1;
        }
        None
    }

    /// The versions of the ip `name`, if the catalog knows it.
    pub fn get(&self, name: &PkgPart) -> (r: Option<&IpLevel>)
        requires
            self.wf(),
        ensures
            match r {
                Some(level) => key_index(self.keys@, *name, 0) < self.keys@.len() && *level
                    == self.levels@[key_index(self.keys@, *name, 0)],
                None => key_index(self.keys@, *name, 0) == self.keys@.len(),
            },
    {
        match self.find(name) {
            Some(k) => Some(&self.levels[k]),
            None => None,
        }
    }

    /// Adds `ip` at the tier `tier`, under its name.
    pub fn add(&mut self, ip: Ip, tier: IpState)
        requires
            old(self).wf(),
        ensures
            final(self).wf(),
            final(self).cache == old(self).cache,
            final(self).downloads == old(self).downloads,
            (final(self).keys@, levels_view(final(self).levels@)) == catalog_with(
                old(self).keys@,
                levels_view(old(self).levels@),
                ip,
                tier,
            ),
    {
        let ghost keys0 = self.keys@;
        let ghost levels0 = self.levels@;
        proof {
            lemma_key_index(self.keys@, ip.name(), 0);
        }
        match self.find(&ip.manifest.ip.name) {
            Some(k) => {
                proof {
                    lemma_level_with_named(levels0[k as int]@, ip, tier, keys0[k as int]);
                }
                add_at(&mut self.levels[k], ip, tier);
                let ghost added = self.levels@[k as int];
                proof {
                    assert(self.levels@ =~= levels0.update(k as int, added));
                    assert(levels_view(self.levels@) =~= levels_view(levels0).update(
                        k as int,
                        level_with(levels_view(levels0)[k as int], ip, tier),
                    ));
                    assert forall|i: int| 0 <= i < self.levels@.len() implies (
                    #[trigger] self.levels@[i]).wf() by {
                        if i != k {
                            assert(self.levels@[i] == levels0[i]);
                        }
                    }
                }
            },
            None => {
                let mut level = IpLevel::new();
                let name = ip.manifest.ip.name.clone();
                assert(level@ == empty_level()) by {
                    assert(level.installs@ =~= Seq::<Ip>::empty());
                    assert(level.downloads@ =~= Seq::<Ip>::empty());
                    assert(level.available@ =~= Seq::<Ip>::empty());
                }
                proof {
                    lemma_level_with_named(level@, ip, tier, name);
                }
                add_at(&mut level, ip, tier);
                proof {
                    assert(levels_view(self.levels@.push(level)) =~= levels_view(levels0).push(
                        level@,
                    ));
                    assert forall|i: int, j: int|
                        #![trigger self.keys@.push(name)[i], self.keys@.push(name)[j]]
                        0 <= i < j < self.keys@.push(name).len() implies !self.keys@.push(
                            name,
                        )[i].same(&self.keys@.push(name)[j]) by {
                        if j == self.keys@.len() {
                            assert(!self.keys@[i].same(&name));
                        }
                    }
                }
                self.keys.push(name);
                self.levels.push(level);
            },
        }
    }

    /// Adds every one of `ips` at the tier `tier`, in their order.
    pub fn add_all(&mut self, ips: Vec<Ip>, tier: IpState)
        requires
            old(self).wf(),
        ensures
            final(self).wf(),
            final(self).cache == old(self).cache,
            final(self).downloads == old(self).downloads,
            (final(self).keys@, levels_view(final(self).levels@)) == catalog_with_all(
                old(self).keys@,
                levels_view(old(self).levels@),
                ips@,
                ips@.len() as int,
                tier,
            ),
    {
        let ghost all = ips@;
        for ip in it: ips
            invariant
                it.seq() == all,
                self.wf(),
                self.cache == old(self).cache,
                self.downloads == old(self).downloads,
                (self.keys@, levels_view(self.levels@)) == catalog_with_all(
                    old(self).keys@,
                    levels_view(old(self).levels@),
                    all,
                    it.index() as int,
                    tier,
                ),
        {
            self.add(ip, tier);
        }
    }

    /// The catalog with the installations `found` in the directory `path`,
    /// which becomes the place of the cache.
    pub fn installations(self, path: String, found: Vec<Ip>) -> (r: Catalog)
        requires
            self.wf(),
        ensures
            r.wf(),
            r.cache == Some(path),
            r.downloads == self.downloads,
            (r.keys@, levels_view(r.levels@)) == catalog_with_all(
                self.keys@,
                levels_view(self.levels@),
                found@,
                found@.len() as int,
                IpState::Installation,
            ),
    {
        let mut catalog = self;
        catalog.cache = Some(path);
        catalog.add_all(found, IpState::Installation);
        catalog
    }

    /// The catalog with the downloads `found` in the directory `path`,
    /// which becomes the place of the downloads.
    pub fn downloads(self, path: String, found: Vec<Ip>) -> (r: Catalog)
        requires
            self.wf(),
        ensures
            r.wf(),
            r.cache == self.cache,
            r.downloads == Some(path),
            (r.keys@, levels_view(r.levels@)) == catalog_with_all(
                self.keys@,
                levels_view(self.levels@),
                found@,
                found@.len() as int,
                IpState::Downloaded,
            ),
    {
        let mut catalog = self;
        catalog.downloads = Some(path);
        catalog.add_all(found, IpState::Downloaded);
        catalog
    }

    /// The catalog with the versions `found` that vendors offer.
    pub fn available(self, found: Vec<Ip>) -> (r: Catalog)
        requires
            self.wf(),
        ensures
            r.wf(),
            r.cache == self.cache,
            r.downloads == self.downloads,
            (r.keys@, levels_view(r.levels@)) == catalog_with_all(
                self.keys@,
                levels_view(self.levels@),
                found@,
                found@.len() as int,
                IpState::Available,
            ),
    {
        let mut catalog = self;
        catalog.add_all(found, IpState::Available);
        catalog
    }

    /// The names that the catalog knows, in the order in which they came.
    pub fn inner(&self) -> (r: &Vec<PkgPart>)
        ensures
            *r == self.keys,
    {
        &self.keys
    }

    /// The levels, each at the index of its name.
    pub fn inner_levels(&self) -> (r: &Vec<IpLevel>)
        ensures
            *r == self.levels,
    {
        &self.levels
    }

    /// The directory of the cache.
    pub fn get_cache_path(&self) -> (r: &String)
        requires
            self.cache is Some,
        ensures
            *r == self.cache->0,
    {
        self.cache.as_ref().unwrap()
    }

    /// The directory of the downloads.
    pub fn get_downloads_path(&self) -> (r: &String)
        requires
            self.downloads is Some,
        ensures
            *r == self.downloads->0,
    {
        self.downloads.as_ref().unwrap()
    }

    /// Sets the directory of the cache.
    pub fn set_cache_path(&mut self, path: String)
        ensures
            final(self).cache == Some(path),
            final(self).downloads == old(self).downloads,
            final(self).keys == old(self).keys,
            final(self).levels == old(self).levels,
    {
        self.cache = Some(path);
    }

    /// Sets the directory of the downloads.
    pub fn set_downloads_path(&mut self, path: String)
        ensures
            final(self).downloads == Some(path),
            final(self).cache == old(self).cache,
            final(self).keys == old(self).keys,
            final(self).levels == old(self).levels,
    {
        self.downloads = Some(path);
    }

    /// The path of the directory of the cache slot `slot`.
    pub fn cache_slot_path(&self, slot: &CacheSlot) -> (r: String)
        requires
            self.cache is Some,
        ensures
            r@ == self.cache->0@ + seq!['/'] + slot_text(slot.0.0@, slot.1, slot.2@),
    {
        let mut out = chars_of(self.get_cache_path().as_str());
        out.push('/');
        extend(&mut out, &chars_of(slot.to_string().as_str()));
        string_of(&out)
    }

    /// The path of the archive of the download slot `slot`.
    pub fn download_slot_path(&self, slot: &DownloadSlot) -> (r: String)
        requires
            self.downloads is Some,
        ensures
            r@ == self.downloads->0@ + seq!['/'] + slot.0@,
    {
        let mut out = chars_of(self.get_downloads_path().as_str());
        out.push('/');
        extend(&mut out, &chars_of(slot.as_ref()));
        string_of(&out)
    }
}

/// Adds `ip` to `level` at the tier `tier`.
pub fn add_at(level: &mut IpLevel, ip: Ip, tier: IpState)
    requires
        old(level).wf(),
    ensures
        final(level).wf(),
        final(level)@ == level_with(old(level)@, ip, tier),
{
    match tier {
        IpState::Installation => level.add_install(ip),
        IpState::Downloaded => level.add_download(ip),
        IpState::Available => level.add_available(ip),
        IpState::Unknown => {},
    }
}

/// Whether the version `v` is among `list`.
pub open spec fn has_version(list: Seq<Version>, v: Version) -> bool {
    exists|i: int| 0 <= i < list.len() && #[trigger] list[i] == v
}

/// The index at which the version `v` is put into the list `list`, which is
/// sorted from the highest version down: before the first lower version.
pub open spec fn version_slot(list: Seq<Version>, v: Version, i: int) -> int
    decreases list.len() - i,
{
    if i < 0 || i >= list.len() {
        list.len() as int
    } else if version_lt(list[i], v) {
        i
    } else {
        version_slot(list, v, i + 1)
    }
}

/// The list `list` with the version `v` put in its place, unless it is
/// there already.
pub open spec fn with_version(list: Seq<Version>, v: Version) -> Seq<Version> {
    if has_version(list, v) {
        list
    } else {
        list.insert(version_slot(list, v, 0), v)
    }
}

/// The versions of the first `n` of `ips`, put into the list `acc`.
pub open spec fn versions_with(acc: Seq<Version>, ips: Seq<Ip>, n: int) -> Seq<Version>
    decreases n,
{
    if n <= 0 {
        acc
    } else {
        with_version(versions_with(acc, ips, n - 1), ips[n - 1].version())
    }
}

/// Puts the version `v` in its place in the list, unless it is there already.
pub fn add_version(list: &mut Vec<Version>, v: Version)
    ensures
        final(list)@ == with_version(old(list)@, v),
{
    let mut i: usize = 0;
    while i < list.len()
        invariant
            i <= list.len(),
            *list == *old(list),
            forall|j: int| 0 <= j < i ==> list@[j] != v,
        decreases list.len() - i,
    {
        let w = list[i];
        if w.major == v.major && w.minor == v.minor && w.patch == v.patch {
            return ;
        }
        i += 1;
    }
    let mut k: usize = 0;
    while k < list.len() && !list[k].is_lower(&v)
        invariant
            k <= list.len(),
            *list == *old(list),
            version_slot(list@, v, k as int) == version_slot(list@, v, 0),
        decreases list.len() - k,
    {
        k += 1;
    }
    list.insert(k, v);
}

impl Catalog {
    /// The versions of the ip `id` that are at hand, installed or
    /// downloaded, each once, from the highest down; `None` if the catalog
    /// does not know the ip.
    pub fn get_possible_versions(&self, id: &PkgPart) -> (r: Option<Vec<Version>>)
        requires
            self.wf(),
        ensures
            match r {
                Some(list) => key_index(self.keys@, *id, 0) < self.keys@.len() && list@
                    == versions_with(
                    versions_with(
                        Seq::empty(),
                        self.levels@[key_index(self.keys@, *id, 0)].installs@,
                        self.levels@[key_index(self.keys@, *id, 0)].installs@.len() as int,
                    ),
                    self.levels@[key_index(self.keys@, *id, 0)].downloads@,
                    self.levels@[key_index(self.keys@, *id, 0)].downloads@.len() as int,
                ),
                None => key_index(self.keys@, *id, 0) == self.keys@.len(),
            },
    {
        let level = match self.get(id) {
            Some(l) => l,
            None => {
                return None;
            },
        };
        let mut list: Vec<Version> = Vec::new();
        let mut i: usize = 0;
        while i < level.installs.len()
            invariant
                i <= level.installs.len(),
                list@ == versions_with(Seq::empty(), level.installs@, i as int),
            decreases level.installs.len() - i,
        {
            add_version(&mut list, *level.installs[i].get_version());
            i += 1;
        }
        let ghost first = list@;
        let mut j: usize = 0;
        while j < level.downloads.len()
            invariant
                j <= level.downloads.len(),
                list@ == versions_with(first, level.downloads@, j as int),
            decreases level.downloads.len() - j,
        {
            add_version(&mut list, *level.downloads[j].get_version());
            j += 1;
        }
        Some(list)
    }
}

} // verus!

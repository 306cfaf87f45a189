use crate::ip::catalog::{
    find_lowest, is_lowest, key_index, lemma_key_index, levels_view, none_satisfies, CacheSlot,
    Catalog, Level,
};
use crate::ip::ip::{Dependency, Ip};
use crate::ip::pkgid::PkgPart;
use crate::ip::version::{AnyVersion, PartialVersion, Version};
use crate::util::graph::lemma_distinct_bounded;
use vstd::prelude::*;

verus! {

/// Why the dependencies of an ip cannot be resolved.
#[derive(Debug, PartialEq)]
pub enum ResolveError {
    /// The catalog knows no ip of that name.
    UnknownIp(PkgPart),
    /// The catalog knows the ip, but in no version that will do.
    UnknownVersion(PkgPart, PartialVersion),
    /// No version that will do is at hand, but a vendor offers one: it has
    /// to be installed first.
    NotInstalled(PkgPart, PartialVersion),
    /// Two dependencies ask for the same ip in versions that differ: the
    /// one selected first, and the other.
    VersionConflict(PkgPart, Version, Version),
}

impl ResolveError {
    /// The error in words, with the name of the ip as it was asked for.
    pub fn to_string(&self) -> (s: String)
        ensures
            s@ == match self {
                ResolveError::UnknownIp(name) => "unknown ip '"@ + name.0@ + "'"@,
                ResolveError::UnknownVersion(name, v) => "ip '"@ + name.0@ + "' has no version '"@
                    + crate::ip::version::partial_text(*v) + "'"@,
                ResolveError::NotInstalled(name, v) => "ip '"@ + name.0@
                    + "' is not installed but is available in version '"@
                    + crate::ip::version::partial_text(*v) + "'"@,
                ResolveError::VersionConflict(name, a, b) => "ip '"@ + name.0@
                    + "' is asked for in versions '"@ + crate::ip::version::version_text(*a)
                    + "' and '"@ + crate::ip::version::version_text(*b) + "'"@,
            },
    {
        let mut out: Vec<char> = Vec::new();
        match self {
            ResolveError::UnknownIp(name) => {
                crate::text::extend_str(&mut out, "unknown ip '");
                crate::text::extend_str(&mut out, name.as_str());
            },
            ResolveError::UnknownVersion(name, v) => {
                crate::text::extend_str(&mut out, "ip '");
                crate::text::extend_str(&mut out, name.as_str());
                crate::text::extend_str(&mut out, "' has no version '");
                crate::text::extend_str(&mut out, v.to_string().as_str());
            },
            ResolveError::NotInstalled(name, v) => {
                crate::text::extend_str(&mut out, "ip '");
                crate::text::extend_str(&mut out, name.as_str());
                crate::text::extend_str(
                    &mut out,
                    "' is not installed but is available in version '",
                );
                crate::text::extend_str(&mut out, v.to_string().as_str());
            },
            ResolveError::VersionConflict(name, a, b) => {
                crate::text::extend_str(&mut out, "ip '");
                crate::text::extend_str(&mut out, name.as_str());
                crate::text::extend_str(&mut out, "' is asked for in versions '");
                crate::text::extend_str(&mut out, a.to_string().as_str());
                crate::text::extend_str(&mut out, "' and '");
                crate::text::extend_str(&mut out, b.to_string().as_str());
            },
        }
        crate::text::extend_str(&mut out, "'");
        crate::text::string_of(&out)
    }
}

/// The ip of the lowest version among `list` that the request `req` allows,
/// if there is one.
pub open spec fn lowest_of(list: Seq<Ip>, req: AnyVersion) -> Option<Ip> {
    if exists|k: int| is_lowest(list, req, k) {
        Some(list[choose|k: int| is_lowest(list, req, k)])
    } else {
        None
    }
}

/// Only one index is that of the lowest version that is allowed.
pub proof fn lemma_lowest_unique(list: Seq<Ip>, req: AnyVersion, a: int, b: int)
    requires
        is_lowest(list, req, a),
        is_lowest(list, req, b),
    ensures
        a == b,
{
    if a < b {
        assert(crate::ip::version::version_lt(list[b].version(), list[a].version()));
    } else if b < a {
        assert(crate::ip::version::version_lt(list[a].version(), list[b].version()));
    }
}

/// The ip that answers the dependency `dep`: minimum version selection
/// picks the lowest version that will do, among the installations if
/// one will do, else among the downloads.
pub open spec fn select(keys: Seq<PkgPart>, levels: Seq<Level>, dep: Dependency) -> Result<
    Ip,
    ResolveError,
> {
    let k = key_index(keys, dep.name, 0);
    let req = AnyVersion::Specific(dep.version);
    if k >= keys.len() {
        Err(ResolveError::UnknownIp(dep.name))
    } else if let Some(ip) = lowest_of(levels[k].installs, req) {
        Ok(ip)
    } else if let Some(ip) = lowest_of(levels[k].downloads, req) {
        Ok(ip)
    } else if !none_satisfies(levels[k].available, req) {
        Err(ResolveError::NotInstalled(dep.name, dep.version))
    } else {
        Err(ResolveError::UnknownVersion(dep.name, dep.version))
    }
}

/// The ips that answer the first `n` of the dependencies `deps`, in their
/// order, or the first error among them.
pub open spec fn select_all(keys: Seq<PkgPart>, levels: Seq<Level>, deps: Seq<Dependency>, n: int) -> Result<
    Seq<Ip>,
    ResolveError,
>
    decreases n,
{
    if n <= 0 {
        Ok(Seq::empty())
    } else {
        match select_all(keys, levels, deps, n - 1) {
            Err(e) => Err(e),
            Ok(sel) => match select(keys, levels, deps[n - 1]) {
                Err(e) => Err(e),
                Ok(ip) => Ok(sel.push(ip)),
            },
        }
    }
}

/// The index of the first of `list` whose name is `name`, or the length of
/// the list if there is none.
pub open spec fn entry_index(list: Seq<Ip>, name: PkgPart, i: int) -> int
    decreases list.len() - i,
{
    if i < 0 || i >= list.len() {
        list.len() as int
    } else if list[i].name().same(&name) {
        i
    } else {
        entry_index(list, name, i + 1)
    }
}

/// The first entry of the name lies at the index found, and none before it.
pub proof fn lemma_entry_index(list: Seq<Ip>, name: PkgPart, i: int)
    requires
        0 <= i <= list.len(),
    ensures
        i <= entry_index(list, name, i) <= list.len(),
        entry_index(list, name, i) < list.len() ==> list[entry_index(list, name, i)].name().same(
            &name,
        ),
        forall|j: int|
            i <= j < entry_index(list, name, i) ==> !(#[trigger] list[j]).name().same(&name),
    decreases list.len() - i,
{
    if i < list.len() && !list[i].name().same(&name) {
        lemma_entry_index(list, name, i + 1);
    }
}

/// The offer that is to be installed for the ip `name` where the
/// versions `req` will do: minimum version selection picks, among what
/// is offered under that name, the offer of the lowest version that will
/// do. It can be installed only if it says where it can be fetched from.
pub open spec fn spec_offer(keys: Seq<PkgPart>, levels: Seq<Level>, name: PkgPart, req: PartialVersion) -> Option<
    Ip,
> {
    let k = key_index(keys, name, 0);
    if k >= keys.len() {
        None
    } else {
        match lowest_of(levels[k].available, AnyVersion::Specific(req)) {
            Some(ip) => if ip.manifest.ip.source is Some {
                Some(ip)
            } else {
                None
            },
            None => None,
        }
    }
}

/// The offer that is to be installed for the ip `name` where the
/// versions `req` will do, if there is one.
pub fn offer_to_install<'a>(catalog: &'a Catalog, name: &PkgPart, req: &PartialVersion) -> (r:
    Option<&'a Ip>)
    requires
        catalog.wf(),
    ensures
        match r {
            Some(ip) => spec_offer(catalog.keys@, levels_view(catalog.levels@), *name, *req)
                == Some(*ip),
            None => spec_offer(catalog.keys@, levels_view(catalog.levels@), *name, *req) is None,
        },
{
    match catalog.get(name) {
        None => None,
        Some(level) => {
            proof {
                lemma_key_index(catalog.keys@, *name, 0);
                assert(levels_view(catalog.levels@)[key_index(catalog.keys@, *name, 0)] == level@);
            }
            match pick_lowest(level.get_availability(), &AnyVersion::Specific(*req)) {
                Some(ip) => if ip.get_man().get_ip().get_source().is_some() {
                    Some(ip)
                } else {
                    None
                },
                None => None,
            }
        },
    }
}

/// The ips that an ip needs, itself first among them, worked off a stack.
///
/// The ip on top of `stack` is taken off. If `result` holds that ip
/// already, nothing is done; if it holds another version of it, the two
/// dependencies that led to them are in conflict. Else the ip joins
/// `result`, and the ips that answer its dependencies go onto the stack,
/// in the order of its manifest.
///
/// A list that holds more ips than the catalog has names is handed back
/// as it stands. With a well-formed catalog no list grows that long, as
/// each ip but the first has its name in the catalog and no name
/// joins twice; the case is there to bound the recursion.
pub open spec fn resolve_from(
    keys: Seq<PkgPart>,
    levels: Seq<Level>,
    stack: Seq<Ip>,
    result: Seq<Ip>,
) -> Result<Seq<Ip>, ResolveError>
    decreases keys.len() + 1 - result.len(), stack.len(),
{
    if stack.len() == 0 {
        Ok(result)
    } else {
        let ip = stack.last();
        let rest = stack.drop_last();
        let j = entry_index(result, ip.name(), 0);
        if j < result.len() {
            if result[j].version() == ip.version() {
                resolve_from(keys, levels, rest, result)
            } else {
                Err(ResolveError::VersionConflict(ip.name(), result[j].version(), ip.version()))
            }
        } else if result.len() > keys.len() {
            Ok(result)
        } else {
            match select_all(
                keys,
                levels,
                ip.manifest.dependencies@,
                ip.manifest.dependencies@.len() as int,
            ) {
                Err(e) => Err(e),
                Ok(sel) => resolve_from(keys, levels, rest + sel, result.push(ip)),
            }
        }
    }
}

/// The ips that `target` needs, itself first among them, in the order in
/// which they are taken off the stack.
pub open spec fn spec_resolve(keys: Seq<PkgPart>, levels: Seq<Level>, target: Ip) -> Result<
    Seq<Ip>,
    ResolveError,
> {
    resolve_from(keys, levels, seq![target], Seq::empty())
}

/// The ips that a list of references leads to.
pub open spec fn ips_view(v: Seq<&Ip>) -> Seq<Ip> {
    v.map_values(|ip: &Ip| *ip)
}

/// Finds the ip of the lowest version among `list` that `req` allows.
pub fn pick_lowest<'a>(list: &'a Vec<Ip>, req: &AnyVersion) -> (r: Option<&'a Ip>)
    ensures
        match r {
            Some(ip) => lowest_of(list@, *req) == Some(*ip),
            None => lowest_of(list@, *req) is None && none_satisfies(list@, *req),
        },
{
    match find_lowest(req, list) {
        Some(k) => {
            proof {
                let c = choose|c: int| is_lowest(list@, *req, c);
                lemma_lowest_unique(list@, *req, c, k as int);
            }
            Some(&list[k])
        },
        None => {
            proof {
                if exists|c: int| is_lowest(list@, *req, c) {
                    let c = choose|c: int| is_lowest(list@, *req, c);
                    assert(crate::ip::version::satisfies(*req, list@[c].version()));
                }
            }
            None
        },
    }
}

/// Finds the ip that answers the dependency `dep` in the catalog.
pub fn select_dependency<'a>(catalog: &'a Catalog, dep: &Dependency) -> (r: Result<
    (&'a Ip, usize),
    ResolveError,
>)
    requires
        catalog.wf(),
    ensures
        match r {
            Ok((ip, k)) => select(catalog.keys@, levels_view(catalog.levels@), *dep) == Ok::<
                Ip,
                ResolveError,
            >(*ip) && k < catalog.keys@.len() && catalog.keys@[k as int].same(&ip.name()),
            Err(e) => select(catalog.keys@, levels_view(catalog.levels@), *dep) == Err::<
                Ip,
                ResolveError,
            >(e),
        },
{
    let req = AnyVersion::Specific(dep.version);
    proof {
        lemma_key_index(catalog.keys@, dep.name, 0);
    }
    let k = match catalog.find(&dep.name) {
        Some(k) => k,
        None => {
            return Err(ResolveError::UnknownIp(dep.name.clone()));
        },
    };
    let level = &catalog.levels[k];
    assert(levels_view(catalog.levels@)[k as int] == level@);
    match pick_lowest(&level.installs, &req) {
        Some(ip) => {
            return Ok((ip, k));
        },
        None => {},
    }
    match pick_lowest(&level.downloads, &req) {
        Some(ip) => {
            return Ok((ip, k));
        },
        None => {},
    }
    match find_lowest(&req, &level.available) {
        Some(c) => {
            assert(crate::ip::version::satisfies(req, level.available@[c as int].version()));
            Err(ResolveError::NotInstalled(dep.name.clone(), dep.version))
        },
        None => Err(ResolveError::UnknownVersion(dep.name.clone(), dep.version)),
    }
}

/// The ips that a list of references leads to, when two lists are joined.
pub proof fn lemma_ips_view_add(a: Seq<&Ip>, b: Seq<&Ip>)
    ensures
        ips_view(a + b) == ips_view(a) + ips_view(b),
{
    assert(ips_view(a + b) =~= ips_view(a) + ips_view(b));
}

/// Finds the ips that answer the dependencies of `ip`, in their order.
fn select_dependencies<'a>(catalog: &'a Catalog, ip: &Ip) -> (r: Result<
    (Vec<&'a Ip>, Ghost<Seq<usize>>),
    ResolveError,
>)
    requires
        catalog.wf(),
    ensures
        match r {
            Ok((sel, keys)) => select_all(
                catalog.keys@,
                levels_view(catalog.levels@),
                ip.manifest.dependencies@,
                ip.manifest.dependencies@.len() as int,
            ) == Ok::<Seq<Ip>, ResolveError>(ips_view(sel@)) && keys@.len() == sel@.len()
                && forall|i: int|
                0 <= i < sel@.len() ==> (#[trigger] keys@[i]) < catalog.keys@.len()
                    && catalog.keys@[keys@[i] as int].same(&sel@[i].name()),
            Err(e) => select_all(
                catalog.keys@,
                levels_view(catalog.levels@),
                ip.manifest.dependencies@,
                ip.manifest.dependencies@.len() as int,
            ) == Err::<Seq<Ip>, ResolveError>(e),
        },
{
    let deps = &ip.manifest.dependencies;
    let mut sel: Vec<&'a Ip> = Vec::new();
    let ghost mut keys: Seq<usize> = Seq::empty();
    let mut i: usize = 0;
    assert(ips_view(sel@) =~= Seq::<Ip>::empty());
    while i < deps.len()
        invariant
            catalog.wf(),
            i <= deps.len(),
            deps@ == ip.manifest.dependencies@,
            select_all(catalog.keys@, levels_view(catalog.levels@), deps@, i as int) == Ok::<
                Seq<Ip>,
                ResolveError,
            >(ips_view(sel@)),
            keys.len() == sel@.len(),
            forall|j: int|
                0 <= j < sel@.len() ==> (#[trigger] keys[j]) < catalog.keys@.len()
                    && catalog.keys@[keys[j] as int].same(&sel@[j].name()),
        decreases deps.len() - i,
    {
        match select_dependency(catalog, &deps[i]) {
            Err(e) => {
                proof {
                    assert(select_all(
                        catalog.keys@,
                        levels_view(catalog.levels@),
                        deps@,
                        i + 1,
                    ) == Err::<Seq<Ip>, ResolveError>(e));
                    lemma_select_all_fails(
                        catalog.keys@,
                        levels_view(catalog.levels@),
                        deps@,
                        i + 1,
                        deps@.len() as int,
                    );
                }
                return Err(e);
            },
            Ok((found, k)) => {
                proof {
                    assert(ips_view(sel@.push(found)) =~= ips_view(sel@).push(*found));
                    keys = keys.push(k);
                }
                sel.push(found);
            },
        }
        i += 1;
    }
    Ok((sel, Ghost(keys)))
}

/// Once a dependency cannot be answered, the whole list cannot.
pub proof fn lemma_select_all_fails(
    keys: Seq<PkgPart>,
    levels: Seq<Level>,
    deps: Seq<Dependency>,
    k: int,
    n: int,
)
    requires
        0 < k <= n,
        select_all(keys, levels, deps, k) is Err,
    ensures
        select_all(keys, levels, deps, n) == select_all(keys, levels, deps, k),
    decreases n - k,
{
    if k < n {
        lemma_select_all_fails(keys, levels, deps, k, n - 1);
    }
}

/// Finds the entry of the name `name` among `list`.
pub fn find_entry(list: &Vec<&Ip>, name: &PkgPart) -> (r: usize)
    ensures
        r == entry_index(ips_view(list@), *name, 0),
        r <= list@.len(),
{
    let mut i: usize = 0;
    while i < list.len()
        invariant
            i <= list.len(),
            entry_index(ips_view(list@), *name, i as int) == entry_index(
                ips_view(list@),
                *name,
                0,
            ),
        decreases list.len() - i,
    {
        assert(ips_view(list@)[i as int] == *list@[i as int]);
        if list[i].manifest.ip.name.matches(name) {
            return i;
        }
        i += 1;
    }
    i
}

/// Resolves the dependencies of `target` against the catalog by minimum
/// version selection.
///
/// Returns `target` and every ip that it needs, directly or through
/// another, each once, in the order in which they were met.
pub fn resolve<'a>(target: &'a Ip, catalog: &'a Catalog) -> (r: Result<Vec<&'a Ip>, ResolveError>)
    requires
        catalog.wf(),
    ensures
        match r {
            Ok(list) => spec_resolve(catalog.keys@, levels_view(catalog.levels@), *target) == Ok::<
                Seq<Ip>,
                ResolveError,
            >(ips_view(list@)),
            Err(e) => spec_resolve(catalog.keys@, levels_view(catalog.levels@), *target) == Err::<
                Seq<Ip>,
                ResolveError,
            >(e),
        },
{
    let mut stack: Vec<&'a Ip> = Vec::new();
    stack.push(target);
    let mut result: Vec<&'a Ip> = Vec::new();
    let ghost mut picked: Seq<usize> = Seq::empty();
    let ghost mut stack_keys: Seq<usize> = Seq::empty();
    assert(ips_view(stack@) =~= seq![*target]);
    assert(ips_view(result@) =~= Seq::<Ip>::empty());
    while stack.len() > 0
        invariant
            catalog.wf(),
            resolve_from(
                catalog.keys@,
                levels_view(catalog.levels@),
                ips_view(stack@),
                ips_view(result@),
            ) == spec_resolve(catalog.keys@, levels_view(catalog.levels@), *target),
            result@.len() == 0 ==> stack@.len() == 1 && picked.len() == 0,
            result@.len() > 0 ==> picked.len() == result@.len() - 1 && stack_keys.len()
                == stack@.len(),
            result@.len() > 0 ==> forall|i: int|
                0 <= i < stack@.len() ==> (#[trigger] stack_keys[i]) < catalog.keys@.len()
                    && catalog.keys@[stack_keys[i] as int].same(&stack@[i].name()),
            picked.no_duplicates(),
            forall|i: int|
                0 <= i < picked.len() ==> (#[trigger] picked[i]) < catalog.keys@.len()
                    && catalog.keys@[picked[i] as int].same(&result@[i + 1].name()),
        decreases catalog.keys@.len() + 1 - result@.len(), stack@.len(),
    {
        proof {
            lemma_distinct_bounded(picked, catalog.keys@.len() as int);
        }
        let ghost stack0 = stack@;
        let ghost result0 = result@;
        let ip = stack.pop().unwrap();
        proof {
            assert(ips_view(stack0).last() == *ip);
            assert(ips_view(stack0).drop_last() =~= ips_view(stack@));
            lemma_entry_index(ips_view(result@), ip.name(), 0);
        }
        let j = find_entry(&result, &ip.manifest.ip.name);
        if j < result.len() {
            assert(ips_view(result@)[j as int] == *result@[j as int]);
            let v = result[j].get_version();
            let w = ip.get_version();
            if v.major == w.major && v.minor == w.minor && v.patch == w.patch {
                proof {
                    stack_keys = stack_keys.drop_last();
                }
            } else {
                return Err(ResolveError::VersionConflict(ip.manifest.ip.name.clone(), *v, *w));
            }
        } else {
            let ghost k: usize = if result0.len() > 0 {
                stack_keys.last()
            } else {
                0
            };
            proof {
                if result0.len() > 0 {
                    // the key of the ip is the key of no ip that was resolved before
                    assert(stack_keys[stack0.len() - 1] == k);
                    assert(catalog.keys@[k as int].same(&ip.name()));
                    assert forall|i: int| 0 <= i < picked.len() implies picked[i] != k by {
                        if picked[i] == k {
                            assert(ips_view(result0)[i + 1] == *result0[i + 1]);
                            assert(result0[i + 1].name().same(&ip.name()));
                        }
                    }
                    lemma_distinct_bounded(picked.push(k), catalog.keys@.len() as int);
                }
            }
            match select_dependencies(catalog, ip) {
                Err(e) => {
                    return Err(e);
                },
                Ok((mut sel, found_keys)) => {
                    let ghost sel_keys = found_keys@;
                    proof {
                        lemma_ips_view_add(stack@, sel@);
                        assert(ips_view(result@.push(ip)) =~= ips_view(result@).push(*ip));
                    }
                    let ghost rest = stack@;
                    let ghost more = sel@;
                    stack.append(&mut sel);
                    result.push(ip);
                    proof {
                        let old_keys = if result0.len() > 0 {
                            stack_keys.drop_last()
                        } else {
                            Seq::<usize>::empty()
                        };
                        if result0.len() > 0 {
                            picked = picked.push(k);
                        }
                        stack_keys = old_keys + sel_keys;
                        assert(stack@ =~= rest + more);
                        assert forall|i: int| 0 <= i < stack@.len() implies (
                        #[trigger] stack_keys[i]) < catalog.keys@.len()
                            && catalog.keys@[stack_keys[i] as int].same(&stack@[i].name()) by {
                            if i < rest.len() {
                                assert(stack@[i] == stack0[i]);
                            } else {
                                assert(stack@[i] == more[i - rest.len()]);
                                assert(stack_keys[i] == sel_keys[i - rest.len()]);
                            }
                        }
                        assert(result@ =~= result0.push(ip));
                        assert forall|i: int| 0 <= i < picked.len() implies (
                        #[trigger] picked[i]) < catalog.keys@.len()
                            && catalog.keys@[picked[i] as int].same(&result@[i + 1].name()) by {
                            if i + 1 < result0.len() {
                                assert(result@[i + 1] == result0[i + 1]);
                            } else {
                                assert(result0.len() > 0);
                                assert(picked[i] == k);
                                assert(result@[i + 1] == ip);
                            }
                        }
                        assert(picked.no_duplicates());
                    }
                },
            }
        }
    }
    Ok(result)
}

/// One entry of a lock file: an ip that was resolved.
#[derive(Debug, PartialEq)]
pub struct LockEntry {
    pub name: String,
    pub version: Version,
    /// Where the ip can be fetched from; empty if that is not known.
    pub source: String,
    /// The checksum of the ip in hexadecimal digits; empty if it is not known.
    pub checksum: String,
}

/// An entry of a lock file over plain sequences.
pub struct Entry {
    pub name: Seq<char>,
    pub version: Version,
    pub source: Seq<char>,
    pub checksum: Seq<char>,
}

impl View for LockEntry {
    type V = Entry;

    open spec fn view(&self) -> Entry {
        Entry {
            name: self.name@,
            version: self.version,
            source: self.source@,
            checksum: self.checksum@,
        }
    }
}

/// The entry that the lock file holds of `ip`.
pub open spec fn entry_of(ip: Ip) -> Entry {
    Entry {
        name: ip.name().0@,
        version: ip.version(),
        source: match ip.manifest.ip.source {
            Some(s) => s@,
            None => Seq::empty(),
        },
        checksum: match ip.checksum {
            Some(h) => crate::util::number::hex_bytes(h.digest@, h.digest@.len() as int, false),
            None => Seq::empty(),
        },
    }
}

/// Whether the name `a` comes before the name `b`, compared as the names
/// of ips are.
pub open spec fn name_before(a: Seq<char>, b: Seq<char>) -> bool {
    crate::vhdl::identifier::seq_less(
        crate::ip::pkgid::norm_name(a),
        crate::ip::pkgid::norm_name(b),
    )
}

/// The index at which an entry of the name `name` is put into the sorted
/// list `list`: before the first entry whose name comes after it.
pub open spec fn insert_index(list: Seq<Entry>, name: Seq<char>, i: int) -> int
    decreases list.len() - i,
{
    if i < 0 || i >= list.len() {
        list.len() as int
    } else if name_before(name, list[i].name) {
        i
    } else {
        insert_index(list, name, i + 1)
    }
}

/// The entries of the first `n` of `ips`, sorted by name; entries of
/// one name stay in the order of `ips`.
pub open spec fn sorted_entries(ips: Seq<Ip>, n: int) -> Seq<Entry>
    decreases n,
{
    if n <= 0 {
        Seq::empty()
    } else {
        let list = sorted_entries(ips, n - 1);
        let e = entry_of(ips[n - 1]);
        list.insert(insert_index(list, e.name, 0), e)
    }
}

/// The entries of a lock file over plain sequences.
pub open spec fn entries_view(v: Seq<LockEntry>) -> Seq<Entry> {
    v.map_values(|e: LockEntry| e@)
}

/// The text of one entry of a lock file.
pub open spec fn entry_text(e: Entry) -> Seq<char> {
    "[[ip]]\nname = \""@ + e.name + "\"\nversion = \""@ + crate::ip::version::version_text(
        e.version,
    ) + "\"\nsource = \""@ + e.source + "\"\nchecksum = \""@ + e.checksum + "\"\n\n"@
}

/// The text of the first `n` entries of a lock file.
pub open spec fn lock_text(entries: Seq<Entry>, n: int) -> Seq<char>
    decreases n,
{
    if n <= 0 {
        Seq::empty()
    } else {
        lock_text(entries, n - 1) + entry_text(entries[n - 1])
    }
}

/// The ips that were resolved for one ip, by name.
#[derive(Debug, PartialEq)]
pub struct Lockfile {
    pub entries: Vec<LockEntry>,
}

/// The insertion index lies within the list.
pub proof fn lemma_insert_index(list: Seq<Entry>, name: Seq<char>, i: int)
    requires
        0 <= i <= list.len(),
    ensures
        i <= insert_index(list, name, i) <= list.len(),
    decreases list.len() - i,
{
    if i < list.len() && !name_before(name, list[i].name) {
        lemma_insert_index(list, name, i + 1);
    }
}

impl Lockfile {
    /// The lock file of the ips `ips`: one entry for each, sorted by name.
    pub fn from_resolved(ips: &Vec<&Ip>) -> (r: Lockfile)
        ensures
            entries_view(r.entries@) == sorted_entries(ips_view(ips@), ips@.len() as int),
    {
        let mut entries: Vec<LockEntry> = Vec::new();
        let mut n: usize = 0;
        assert(entries_view(entries@) =~= Seq::<Entry>::empty());
        while n < ips.len()
            invariant
                n <= ips.len(),
                entries@.len() == n,
                entries_view(entries@) == sorted_entries(ips_view(ips@), n as int),
            decreases ips.len() - n,
        {
            let ip = ips[n];
            assert(ips_view(ips@)[n as int] == *ip);
            let source = match &ip.manifest.ip.source {
                Some(s) => s.clone(),
                None => String::new(),
            };
            let checksum = match &ip.checksum {
                Some(h) => h.to_string(),
                None => String::new(),
            };
            let e = LockEntry {
                name: ip.manifest.ip.name.to_string(),
                version: ip.manifest.ip.version,
                source,
                checksum,
            };
            assert(e@ == entry_of(*ip));
            let key = ip.manifest.ip.name.normalized();
            let mut i: usize = 0;
            let ghost list = entries_view(entries@);
            while i < entries.len() && !entry_after(&entries[i], &key)
                invariant
                    i <= entries.len(),
                    list == entries_view(entries@),
                    key@ == crate::ip::pkgid::norm_name(e@.name),
                    insert_index(list, e@.name, i as int) == insert_index(list, e@.name, 0),
                decreases entries.len() - i,
            {
                assert(list[i as int] == entries@[i as int]@);
                i += 1;
            }
            proof {
                if i < entries.len() {
                    assert(list[i as int] == entries@[i as int]@);
                }
                assert(entries_view(entries@.insert(i as int, e)) =~= list.insert(i as int, e@));
            }
            entries.insert(i, e);
            n += 1;
        }
        Lockfile { entries }
    }

    /// The entries, sorted by name.
    pub fn get_entries(&self) -> (r: &Vec<LockEntry>)
        ensures
            *r == self.entries,
    {
        &self.entries
    }

    /// The lock file as text: one table for each entry.
    pub fn to_string(&self) -> (s: String)
        ensures
            s@ == lock_text(entries_view(self.entries@), self.entries@.len() as int),
    {
        let mut out: Vec<char> = Vec::new();
        let mut n: usize = 0;
        while n < self.entries.len()
            invariant
                n <= self.entries.len(),
                out@ == lock_text(entries_view(self.entries@), n as int),
            decreases self.entries.len() - n,
        {
            let e = &self.entries[n];
            assert(entries_view(self.entries@)[n as int] == e@);
            let ghost before = out@;
            crate::text::extend_str(&mut out, "[[ip]]\nname = \"");
            crate::text::extend_str(&mut out, e.name.as_str());
            crate::text::extend_str(&mut out, "\"\nversion = \"");
            crate::text::extend_str(&mut out, e.version.to_string().as_str());
            crate::text::extend_str(&mut out, "\"\nsource = \"");
            crate::text::extend_str(&mut out, e.source.as_str());
            crate::text::extend_str(&mut out, "\"\nchecksum = \"");
            crate::text::extend_str(&mut out, e.checksum.as_str());
            crate::text::extend_str(&mut out, "\"\n\n");
            assert(out@ =~= before + entry_text(e@));
            n += 1;
        }
        crate::text::string_of(&out)
    }
}

/// Whether the name of the entry comes after the name whose normal form is `key`.
fn entry_after(entry: &LockEntry, key: &Vec<char>) -> (r: bool)
    ensures
        r == crate::vhdl::identifier::seq_less(key@, crate::ip::pkgid::norm_name(entry.name@)),
{
    let name = PkgPart(entry.name.clone());
    let other = name.normalized();
    crate::vhdl::identifier::chars_less(key, &other)
}

/// The text of the lock file that resolving `target` against the catalog
/// gives, if the dependencies can be resolved.
pub open spec fn spec_lock(keys: Seq<PkgPart>, levels: Seq<Level>, target: Ip) -> Result<
    Seq<char>,
    ResolveError,
> {
    match spec_resolve(keys, levels, target) {
        Ok(ips) => {
            let entries = sorted_entries(ips, ips.len() as int);
            Ok(lock_text(entries, entries.len() as int))
        },
        Err(e) => Err(e),
    }
}

/// Resolves the dependencies of `target` and writes the lock file of
/// what was resolved.
pub fn lock<'a>(target: &'a Ip, catalog: &'a Catalog) -> (r: Result<
    (Vec<&'a Ip>, String),
    ResolveError,
>)
    requires
        catalog.wf(),
    ensures
        match r {
            Ok((list, text)) => spec_resolve(catalog.keys@, levels_view(catalog.levels@), *target)
                == Ok::<Seq<Ip>, ResolveError>(ips_view(list@)) && spec_lock(
                catalog.keys@,
                levels_view(catalog.levels@),
                *target,
            ) == Ok::<Seq<char>, ResolveError>(text@),
            Err(e) => spec_lock(catalog.keys@, levels_view(catalog.levels@), *target) == Err::<
                Seq<char>,
                ResolveError,
            >(e),
        },
{
    match resolve(target, catalog) {
        Err(e) => Err(e),
        Ok(list) => {
            let file = Lockfile::from_resolved(&list);
            proof {
                lemma_sorted_len(ips_view(list@), list@.len() as int);
            }
            let text = file.to_string();
            Ok((list, text))
        },
    }
}

/// What is to be done next to resolve the dependencies of an ip.
#[derive(Debug)]
pub enum NextStep<'a> {
    /// Nothing is missing: the ips that were resolved, and the text of
    /// the lock file.
    Done(Vec<&'a Ip>, String),
    /// The offer is to be installed in the slot; then the dependencies
    /// are resolved again.
    Install(&'a Ip, CacheSlot),
    /// The dependencies cannot be resolved.
    Fail(ResolveError),
}

/// Whether the offer `ip` can be installed in the slot `slot`: the slot
/// is that of the name, the version and the checksum of the offer.
pub open spec fn installs_in(ip: Ip, slot: CacheSlot) -> bool {
    &&& ip.checksum is Some
    &&& ip.checksum->0.wf()
    &&& slot.0 == ip.name()
    &&& slot.1 == ip.version()
    &&& slot.2@ == crate::util::number::hex_bytes(ip.checksum->0.digest@, 5, false)
}

/// Whether an ip that is asked for and not installed can be installed:
/// minimum version selection picks an offer for it that says where it
/// can be fetched from and what its checksum is.
pub open spec fn installable(keys: Seq<PkgPart>, levels: Seq<Level>, name: PkgPart, req: PartialVersion) -> bool {
    match spec_offer(keys, levels, name, req) {
        Some(ip) => ip.checksum is Some && ip.checksum->0.wf(),
        None => false,
    }
}

/// Says what is to be done next to resolve the dependencies of `target`.
///
/// If they can be resolved, nothing is left to do. If an ip is missing
/// that a vendor offers, the offer of the lowest version that will do
/// is to be installed, provided that its source and its checksum are
/// known. In every other case the dependencies cannot be resolved.
pub fn next_step<'a>(target: &'a Ip, catalog: &'a Catalog) -> (r: NextStep<'a>)
    requires
        catalog.wf(),
    ensures
        ({
            let keys = catalog.keys@;
            let levels = levels_view(catalog.levels@);
            match r {
                NextStep::Done(list, text) => spec_resolve(keys, levels, *target) == Ok::<
                    Seq<Ip>,
                    ResolveError,
                >(ips_view(list@)) && spec_lock(keys, levels, *target) == Ok::<
                    Seq<char>,
                    ResolveError,
                >(text@),
                NextStep::Install(ip, slot) => match spec_lock(keys, levels, *target) {
                    Err(ResolveError::NotInstalled(name, req)) => spec_offer(
                        keys,
                        levels,
                        name,
                        req,
                    ) == Some(*ip) && installs_in(*ip, slot),
                    _ => false,
                },
                NextStep::Fail(e) => spec_lock(keys, levels, *target) == Err::<
                    Seq<char>,
                    ResolveError,
                >(e) && match e {
                    ResolveError::NotInstalled(name, req) => !installable(keys, levels, name, req),
                    _ => true,
                },
            }
        }),
{
    match lock(target, catalog) {
        Ok((list, text)) => NextStep::Done(list, text),
        Err(ResolveError::NotInstalled(name, req)) => match offer_to_install(catalog, &name, &req) {
            Some(ip) => match CacheSlot::of_ip(ip) {
                Some(slot) => NextStep::Install(ip, slot),
                None => NextStep::Fail(ResolveError::NotInstalled(name, req)),
            },
            None => NextStep::Fail(ResolveError::NotInstalled(name, req)),
        },
        Err(e) => NextStep::Fail(e),
    }
}

/// Sorting keeps the number of entries.
pub proof fn lemma_sorted_len(ips: Seq<Ip>, n: int)
    requires
        0 <= n <= ips.len(),
    ensures
        sorted_entries(ips, n).len() == n,
    decreases n,
{
    if n > 0 {
        lemma_sorted_len(ips, n - 1);
        let list = sorted_entries(ips, n - 1);
        lemma_insert_index(list, entry_of(ips[n - 1]).name, 0);
    }
}

/// For one catalog and one manifest, resolving twice gives the same lock
/// file, character by character.
pub proof fn lemma_lock_deterministic(
    keys: Seq<PkgPart>,
    levels: Seq<Level>,
    target: Ip,
    first: Result<Seq<char>, ResolveError>,
    second: Result<Seq<char>, ResolveError>,
)
    requires
        first == spec_lock(keys, levels, target),
        second == spec_lock(keys, levels, target),
    ensures
        first == second,
{
}

} // verus!

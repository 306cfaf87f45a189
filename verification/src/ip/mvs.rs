use crate::ip::version::PartialVersion;
use vstd::prelude::*;

verus! {

/// A requirement on a package: its name and the versions that will do.
#[derive(Debug, PartialEq)]
pub struct Module {
    pub name: String,
    pub version: PartialVersion,
}

impl Module {
    /// The requirement of the versions `version` of the package `name`.
    pub fn new(name: &str, version: PartialVersion) -> (r: Module)
        ensures
            r.name@ == name@,
            r.version == version,
    {
        Module { name: crate::text::string_of(&crate::text::chars_of(name)), version }
    }
}

/// Whether the partial version `b` says all that `a` says, and more: every
/// version that `b` allows, `a` allows too, and `b` is not `a`.
pub open spec fn narrows(b: PartialVersion, a: PartialVersion) -> bool {
    &&& a.major == b.major
    &&& match a.minor {
        None => b.minor is Some,
        Some(m) => b.minor == Some(m) && a.patch is None && b.patch is Some,
    }
}

/// Whether the requirement `k` of the list stays in the minimal list: no
/// other requirement on its package narrows it, and it does not repeat
/// an earlier one.
pub open spec fn stays(list: Seq<Module>, k: int) -> bool {
    &&& forall|j: int|
        0 <= j < list.len() && (#[trigger] list[j]).name@ == list[k].name@ ==> !narrows(
            list[j].version,
            list[k].version,
        )
    &&& forall|j: int|
        0 <= j < k && (#[trigger] list[j]).name@ == list[k].name@ ==> list[j].version
            != list[k].version
}

/// The requirements among the first `n` of `list` that stay in the
/// minimal list, as names and versions.
pub open spec fn minimal(list: Seq<Module>, n: int) -> Seq<(Seq<char>, PartialVersion)>
    decreases n,
{
    if n <= 0 {
        Seq::empty()
    } else if stays(list, n - 1) {
        minimal(list, n - 1).push((list[n - 1].name@, list[n - 1].version))
    } else {
        minimal(list, n - 1)
    }
}

/// The requirements of a list as names and versions.
pub open spec fn modules_view(v: Seq<Module>) -> Seq<(Seq<char>, PartialVersion)> {
    v.map_values(|m: Module| (m.name@, m.version))
}

/// Whether the partial version `b` narrows `a`.
pub fn check_narrows(b: &PartialVersion, a: &PartialVersion) -> (r: bool)
    ensures
        r == narrows(*b, *a),
{
    if a.major != b.major {
        return false;
    }
    match a.minor {
        None => b.minor.is_some(),
        Some(m) => match b.minor {
            Some(n) => n == m && a.patch.is_none() && b.patch.is_some(),
            None => false,
        },
    }
}

/// Whether two partial versions are the same.
pub fn same_version(a: &PartialVersion, b: &PartialVersion) -> (r: bool)
    ensures
        r == (*a == *b),
{
    let minor = match (a.minor, b.minor) {
        (Some(x), Some(y)) => x == y,
        (None, None) => true,
        _ => false,
    };
    let patch = match (a.patch, b.patch) {
        (Some(x), Some(y)) => x == y,
        (None, None) => true,
        _ => false,
    };
    a.major == b.major && minor && patch
}

/// Whether the requirement `k` stays in the minimal list.
fn check_stays(list: &Vec<Module>, k: usize) -> (r: bool)
    requires
        k < list@.len(),
    ensures
        r == stays(list@, k as int),
{
    let mut j: usize = 0;
    while j < list.len()
        invariant
            j <= list.len(),
            k < list@.len(),
            forall|i: int|
                0 <= i < j && (#[trigger] list@[i]).name@ == list@[k as int].name@ ==> !narrows(
                    list@[i].version,
                    list@[k as int].version,
                ),
            forall|i: int|
                0 <= i < j && i < k && (#[trigger] list@[i]).name@ == list@[k as int].name@
                    ==> list@[i].version != list@[k as int].version,
        decreases list.len() - j,
    {
        if list[j].name == list[k].name {
            if check_narrows(&list[j].version, &list[k].version) {
                return false;
            }
            if j < k && same_version(&list[j].version, &list[k].version) {
                return false;
            }
        }
        j += 1;
    }
    true
}

/// The minimal list of requirements: of the requirements on one package,
/// those that no other narrows, each once, in the order of the list.
pub fn compute_minimal_requirement_list(build_list: Vec<Module>) -> (r: Vec<Module>)
    ensures
        modules_view(r@) == minimal(build_list@, build_list@.len() as int),
{
    let mut result: Vec<Module> = Vec::new();
    let mut k: usize = 0;
    assert(modules_view(result@) =~= minimal(build_list@, 0));
    while k < build_list.len()
        invariant
            k <= build_list.len(),
            modules_view(result@) == minimal(build_list@, k as int),
        decreases build_list.len() - k,
    {
        if check_stays(&build_list, k) {
            let m = Module { name: build_list[k].name.clone(), version: build_list[k].version };
            assert(modules_view(result@.push(m)) =~= modules_view(result@).push(
                (m.name@, m.version),
            ));
            result.push(m);
        }
        k += 1;
    }
    result
}

} // verus!

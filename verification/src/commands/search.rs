use crate::ip::catalog::{
    find_target, lemma_no_target, lemma_target_of, target_of, Catalog, IpLevel, Level,
};
use crate::ip::pkgid::{norm_name, PkgPart};
use crate::ip::version::{version_text, AnyVersion};
use crate::text::{extend_str, padded, push_padded, string_of};
use crate::vhdl::identifier::{chars_less, seq_less};
use vstd::prelude::*;

verus! {

/// What is asked of a search of the catalog.
#[derive(Debug, PartialEq)]
pub struct Search {
    pub ip: Option<PkgPart>,
    pub cached: bool,
    pub developing: bool,
    pub queued: bool,
    pub available: bool,
}

/// The index at which the name `name` is put into the list `order` of
/// indices into `keys`, which is sorted by name: before the first index
/// whose name comes after it.
pub open spec fn name_slot(keys: Seq<PkgPart>, order: Seq<usize>, name: Seq<char>, i: int) -> int
    decreases order.len() - i,
{
    if i < 0 || i >= order.len() {
        order.len() as int
    } else if seq_less(norm_name(name), norm_name(keys[order[i] as int].0@)) {
        i
    } else {
        name_slot(keys, order, name, i + 1)
    }
}

/// The indices of the first `n` of `keys`, sorted by name; names that are
/// the same stay in their order.
pub open spec fn name_order(keys: Seq<PkgPart>, n: int) -> Seq<usize>
    decreases n,
{
    if n <= 0 {
        Seq::empty()
    } else {
        let order = name_order(keys, n - 1);
        order.insert(name_slot(keys, order, keys[n - 1].0@, 0), (n - 1) as usize)
    }
}

/// The order of the names holds indices of names only.
pub proof fn lemma_name_order(keys: Seq<PkgPart>, n: int)
    requires
        0 <= n <= keys.len(),
        n <= usize::MAX,
    ensures
        name_order(keys, n).len() == n,
        forall|i: int| 0 <= i < n ==> (#[trigger] name_order(keys, n)[i]) < n,
    decreases n,
{
    if n > 0 {
        lemma_name_order(keys, n - 1);
        let order = name_order(keys, n - 1);
        lemma_name_slot(keys, order, keys[n - 1].0@, 0);
    }
}

/// The slot of a name lies within the list.
pub proof fn lemma_name_slot(keys: Seq<PkgPart>, order: Seq<usize>, name: Seq<char>, i: int)
    requires
        0 <= i <= order.len(),
    ensures
        i <= name_slot(keys, order, name, i) <= order.len(),
    decreases order.len() - i,
{
    if i < order.len() && !seq_less(norm_name(name), norm_name(keys[order[i] as int].0@)) {
        lemma_name_slot(keys, order, name, i + 1);
    }
}

/// The latest version of a level as text: that of the installation of the
/// highest version, or without any installation that of the download of
/// the highest version; empty if there is neither.
pub open spec fn latest_text(level: Level) -> Seq<char> {
    match target_of(level.installs, AnyVersion::Latest) {
        Some(k) => version_text(level.installs[k].version()),
        None => match target_of(level.downloads, AnyVersion::Latest) {
            Some(k) => version_text(level.downloads[k].version()),
            None => Seq::empty(),
        },
    }
}

/// What a level is at hand as.
pub open spec fn status_text(level: Level) -> Seq<char> {
    if level.installs.len() > 0 {
        "Installed"@
    } else if level.downloads.len() > 0 {
        "Downloaded"@
    } else {
        Seq::empty()
    }
}

/// The head of the table of a search.
pub open spec fn search_head() -> Seq<char> {
    padded("Package"@, 28, ' ', true) + padded("Latest"@, 10, ' ', true) + padded(
        "Status"@,
        9,
        ' ',
        true,
    ) + seq!['\n'] + padded(" "@, 28, '-', false) + padded(" "@, 10, '-', false) + padded(
        " "@,
        11,
        '-',
        false,
    ) + seq!['\n']
}

/// The line of the table of a search for one ip.
pub open spec fn search_line(name: Seq<char>, level: Level) -> Seq<char> {
    padded(name, 28, ' ', true) + padded(latest_text(level), 10, ' ', true) + "     "@ + padded(
        status_text(level),
        9,
        ' ',
        true,
    ) + seq!['\n']
}

/// The lines of the table of a search for the first `n` ips of `order`.
pub open spec fn search_body(keys: Seq<PkgPart>, levels: Seq<Level>, order: Seq<usize>, n: int) -> Seq<
    char,
>
    decreases n,
{
    if n <= 0 {
        Seq::empty()
    } else {
        search_body(keys, levels, order, n - 1) + search_line(
            keys[order[n - 1] as int].0@,
            levels[order[n - 1] as int],
        )
    }
}

/// The latest version of a level as text.
pub fn latest_of(level: &IpLevel) -> (r: String)
    ensures
        r@ == latest_text(level@),
{
    let any = AnyVersion::Latest;
    match find_target(&any, &level.installs) {
        Some(k) => {
            proof {
                lemma_target_of(level.installs@, any, k as int);
            }
            return level.installs[k].get_version().to_string();
        },
        None => {
            proof {
                lemma_no_target(level.installs@, any);
            }
        },
    }
    match find_target(&any, &level.downloads) {
        Some(k) => {
            proof {
                lemma_target_of(level.downloads@, any, k as int);
            }
            level.downloads[k].get_version().to_string()
        },
        None => {
            proof {
                lemma_no_target(level.downloads@, any);
            }
            String::new()
        },
    }
}

impl Catalog {
    /// The indices of the names of the catalog, sorted by name.
    pub fn sorted_names(&self) -> (r: Vec<usize>)
        ensures
            r@ == name_order(self.keys@, self.keys@.len() as int),
            forall|i: int| 0 <= i < r@.len() ==> r@[i] < self.keys@.len(),
    {
        let mut order: Vec<usize> = Vec::new();
        let mut n: usize = 0;
        while n < self.keys.len()
            invariant
                n <= self.keys.len(),
                order@ == name_order(self.keys@, n as int),
            decreases self.keys.len() - n,
        {
            proof {
                lemma_name_order(self.keys@, n as int);
            }
            let key = self.keys[n].normalized();
            let mut i: usize = 0;
            while i < order.len() && !chars_less(&key, &self.keys[order[i]].normalized())
                invariant
                    i <= order.len(),
                    n < self.keys.len(),
                    key@ == norm_name(self.keys@[n as int].0@),
                    order@.len() == n,
                    forall|j: int| 0 <= j < n ==> (#[trigger] order@[j]) < n,
                    name_slot(self.keys@, order@, self.keys@[n as int].0@, i as int) == name_slot(
                        self.keys@,
                        order@,
                        self.keys@[n as int].0@,
                        0,
                    ),
                decreases order.len() - i,
            {
                i += 1;
            }
            order.insert(i, n);
            n += 1;
        }
        proof {
            lemma_name_order(self.keys@, self.keys@.len() as int);
        }
        order
    }
}

impl Search {
    /// The table of the ips of the catalog, sorted by name: for each its
    /// name, its latest version, and whether it is installed or downloaded.
    pub fn fmt_table(catalog: &Catalog) -> (r: String)
        requires
            catalog.wf(),
        ensures
            r@ == search_head() + search_body(
                catalog.keys@,
                crate::ip::catalog::levels_view(catalog.levels@),
                name_order(catalog.keys@, catalog.keys@.len() as int),
                catalog.keys@.len() as int,
            ),
    {
        let mut out: Vec<char> = Vec::new();
        push_padded(&mut out, "Package", 28, ' ', true);
        push_padded(&mut out, "Latest", 10, ' ', true);
        push_padded(&mut out, "Status", 9, ' ', true);
        out.push('\n');
        push_padded(&mut out, " ", 28, '-', false);
        push_padded(&mut out, " ", 10, '-', false);
        push_padded(&mut out, " ", 11, '-', false);
        out.push('\n');
        assert(out@ =~= search_head());
        let order = catalog.sorted_names();
        let ghost levels = crate::ip::catalog::levels_view(catalog.levels@);
        let mut n: usize = 0;
        assert(out@ =~= search_head() + search_body(catalog.keys@, levels, order@, 0));
        while n < order.len()
            invariant
                n <= order.len(),
                catalog.wf(),
                levels == crate::ip::catalog::levels_view(catalog.levels@),
                forall|i: int| 0 <= i < order@.len() ==> order@[i] < catalog.keys@.len(),
                out@ == search_head() + search_body(catalog.keys@, levels, order@, n as int),
            decreases order.len() - n,
        {
            let k = order[n];
            let level = &catalog.levels[k];
            assert(levels[k as int] == level@);
            let ghost before = out@;
            push_padded(&mut out, catalog.keys[k].as_str(), 28, ' ', true);
            push_padded(&mut out, latest_of(level).as_str(), 10, ' ', true);
            extend_str(&mut out, "     ");
            let status = if level.is_installed() {
                "Installed"
            } else if level.is_downloaded() {
                "Downloaded"
            } else {
                ""
            };
            proof {
                reveal_strlit("");
                assert(""@ =~= Seq::<char>::empty());
            }
            push_padded(&mut out, status, 9, ' ', true);
            out.push('\n');
            assert(out@ =~= before + search_line(catalog.keys@[k as int].0@, level@));
            assert(search_head() + search_body(catalog.keys@, levels, order@, n as int)
                + search_line(catalog.keys@[k as int].0@, level@) =~= search_head() + (search_body(
                catalog.keys@,
                levels,
                order@,
                n as int,
            ) + search_line(catalog.keys@[k as int].0@, level@)));
            n += 1;
        }
        let total = catalog.keys.len();
        assert(order@.len() == total) by {
            lemma_name_order(catalog.keys@, total as int);
        }
        string_of(&out)
    }
}

} // verus!

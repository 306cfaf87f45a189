use crate::ip::catalog::IpLevel;
use crate::ip::ip::Ip;
use crate::ip::pkgid::PkgId;
use crate::ip::version::{version_lt, version_text, AnyVersion, Version};
use crate::text::{padded, push_padded, string_of};
use crate::vhdl::identifier::{spec_sorts_before, Identifier};
use crate::vhdl::primaryunit::{kind_text, PrimaryUnit};
use vstd::prelude::*;

verus! {

/// What is asked of a look at one ip.
#[derive(Debug, PartialEq)]
pub struct Probe {
    pub ip: PkgId,
    pub tags: bool,
    pub units: bool,
    pub version: Option<AnyVersion>,
    pub changelog: bool,
    pub readme: bool,
}

/// The index at which the unit of the name `name` is put into the list
/// `order` of indices into `table`, which is sorted by name: before the
/// first index whose name comes after it.
pub open spec fn unit_slot(table: Seq<PrimaryUnit>, order: Seq<usize>, name: Identifier, i: int) -> int
    decreases order.len() - i,
{
    if i < 0 || i >= order.len() {
        order.len() as int
    } else if spec_sorts_before(&name, &table[order[i] as int].unit().name) {
        i
    } else {
        unit_slot(table, order, name, i + 1)
    }
}

/// The indices of the first `n` units of `table`, sorted by name; units of
/// one name stay in their order.
pub open spec fn unit_order(table: Seq<PrimaryUnit>, n: int) -> Seq<usize>
    decreases n,
{
    if n <= 0 {
        Seq::empty()
    } else {
        let order = unit_order(table, n - 1);
        order.insert(unit_slot(table, order, table[n - 1].unit().name, 0), (n - 1) as usize)
    }
}

/// The slot of a unit lies within the list.
pub proof fn lemma_unit_slot(table: Seq<PrimaryUnit>, order: Seq<usize>, name: Identifier, i: int)
    requires
        0 <= i <= order.len(),
    ensures
        i <= unit_slot(table, order, name, i) <= order.len(),
    decreases order.len() - i,
{
    if i < order.len() && !spec_sorts_before(&name, &table[order[i] as int].unit().name) {
        lemma_unit_slot(table, order, name, i + 1);
    }
}

/// The order of the units holds indices of units only.
pub proof fn lemma_unit_order(table: Seq<PrimaryUnit>, n: int)
    requires
        0 <= n <= table.len(),
        n <= usize::MAX,
    ensures
        unit_order(table, n).len() == n,
        forall|i: int| 0 <= i < n ==> (#[trigger] unit_order(table, n)[i]) < n,
    decreases n,
{
    if n > 0 {
        lemma_unit_order(table, n - 1);
        let order = unit_order(table, n - 1);
        lemma_unit_slot(table, order, table[n - 1].unit().name, 0);
    }
}

/// The head of the table of the units of an ip.
pub open spec fn units_head() -> Seq<char> {
    padded("Identifier"@, 32, ' ', true) + padded("Unit"@, 14, ' ', true) + padded(
        "Public"@,
        9,
        ' ',
        true,
    ) + seq!['\n'] + padded(" "@, 32, '-', false) + padded(" "@, 14, '-', false) + padded(
        " "@,
        9,
        '-',
        false,
    ) + seq!['\n']
}

/// The line of the table of the units of an ip for one unit.
pub open spec fn unit_line(u: PrimaryUnit) -> Seq<char> {
    padded(u.unit().name.lexeme(), 32, ' ', true) + padded(kind_text(u.kind()), 14, ' ', true)
        + padded("y"@, 2, ' ', true) + seq!['\n']
}

/// The lines of the table for the first `n` units of `order`.
pub open spec fn units_body(table: Seq<PrimaryUnit>, order: Seq<usize>, n: int) -> Seq<char>
    decreases n,
{
    if n <= 0 {
        Seq::empty()
    } else {
        units_body(table, order, n - 1) + unit_line(table[order[n - 1] as int])
    }
}

/// The table of the primary design units of an ip, sorted by name: for
/// each its name and its kind.
pub fn format_units_table(table: Vec<PrimaryUnit>) -> (r: String)
    ensures
        r@ == units_head() + units_body(
            table@,
            unit_order(table@, table@.len() as int),
            table@.len() as int,
        ),
{
    let mut out: Vec<char> = Vec::new();
    push_padded(&mut out, "Identifier", 32, ' ', true);
    push_padded(&mut out, "Unit", 14, ' ', true);
    push_padded(&mut out, "Public", 9, ' ', true);
    out.push('\n');
    push_padded(&mut out, " ", 32, '-', false);
    push_padded(&mut out, " ", 14, '-', false);
    push_padded(&mut out, " ", 9, '-', false);
    out.push('\n');
    assert(out@ =~= units_head());
    let mut order: Vec<usize> = Vec::new();
    let mut n: usize = 0;
    while n < table.len()
        invariant
            n <= table.len(),
            order@ == unit_order(table@, n as int),
        decreases table.len() - n,
    {
        proof {
            lemma_unit_order(table@, n as int);
        }
        let name = table[n].as_iden().unwrap();
        let mut i: usize = 0;
        while i < order.len() && !name.sorts_before(table[order[i]].as_iden().unwrap())
            invariant
                i <= order.len(),
                n < table.len(),
                *name == table@[n as int].unit().name,
                order@.len() == n,
                forall|j: int| 0 <= j < n ==> (#[trigger] order@[j]) < n,
                unit_slot(table@, order@, *name, i as int) == unit_slot(table@, order@, *name, 0),
            decreases order.len() - i,
        {
            i += 1;
        }
        order.insert(i, n);
        n += 1;
    }
    let total = table.len();
    proof {
        lemma_unit_order(table@, total as int);
    }
    let mut k: usize = 0;
    assert(out@ =~= units_head() + units_body(table@, order@, 0));
    while k < order.len()
        invariant
            k <= order.len(),
            order@.len() == table@.len(),
            forall|j: int| 0 <= j < order@.len() ==> (#[trigger] order@[j]) < table@.len(),
            out@ == units_head() + units_body(table@, order@, k as int),
        decreases order.len() - k,
    {
        let unit = &table[order[k]];
        let ghost before = out@;
        push_padded(&mut out, unit.as_iden().unwrap().to_string().as_str(), 32, ' ', true);
        push_padded(&mut out, unit.to_string().as_str(), 14, ' ', true);
        push_padded(&mut out, "y", 2, ' ', true);
        out.push('\n');
        assert(out@ =~= before + unit_line(*unit));
        assert(units_head() + units_body(table@, order@, k as int) + unit_line(*unit)
            =~= units_head() + (units_body(table@, order@, k as int) + unit_line(*unit)));
        k += 1;
    }
    string_of(&out)
}

/// A version of an ip with the tiers at which it is found.
#[derive(Debug, Clone, Copy, PartialEq, Eq, Structural)]
pub struct VersionRow {
    pub version: Version,
    pub downloaded: bool,
    pub installed: bool,
    pub available: bool,
}

/// A tier at which a version can be found.
#[derive(Debug, Clone, Copy, PartialEq, Eq, Structural)]
pub enum Tier {
    Downloaded,
    Installed,
    Available,
}

/// The index of the first of `rows[i..]` that is of the version `v`, or the
/// number of rows.
pub open spec fn row_index(rows: Seq<VersionRow>, v: Version, i: int) -> int
    decreases rows.len() - i,
{
    if i < 0 || i >= rows.len() {
        rows.len() as int
    } else if rows[i].version == v {
        i
    } else {
        row_index(rows, v, i + 1)
    }
}

/// The index at which a row of the version `v` is put into `rows`, which
/// are sorted from the highest version down: before the first lower version.
pub open spec fn row_slot(rows: Seq<VersionRow>, v: Version, i: int) -> int
    decreases rows.len() - i,
{
    if i < 0 || i >= rows.len() {
        rows.len() as int
    } else if version_lt(rows[i].version, v) {
        i
    } else {
        row_slot(rows, v, i + 1)
    }
}

/// The row `row` marked as found at the tier `tier`.
pub open spec fn marked(row: VersionRow, tier: Tier) -> VersionRow {
    match tier {
        Tier::Downloaded => VersionRow { downloaded: true, ..row },
        Tier::Installed => VersionRow { installed: true, ..row },
        Tier::Available => VersionRow { available: true, ..row },
    }
}

/// The rows `rows` after the version `v` was found at the tier `tier`: its
/// row is marked, or a row is made for it.
pub open spec fn with_row(rows: Seq<VersionRow>, v: Version, tier: Tier) -> Seq<VersionRow> {
    let k = row_index(rows, v, 0);
    if k < rows.len() {
        rows.update(k, marked(rows[k], tier))
    } else {
        rows.insert(
            row_slot(rows, v, 0),
            marked(
                VersionRow { version: v, downloaded: false, installed: false, available: false },
                tier,
            ),
        )
    }
}

/// The rows `acc` after the first `n` of `ips` were found at the tier `tier`.
pub open spec fn rows_with(acc: Seq<VersionRow>, ips: Seq<Ip>, n: int, tier: Tier) -> Seq<VersionRow>
    decreases n,
{
    if n <= 0 {
        acc
    } else {
        with_row(rows_with(acc, ips, n - 1, tier), ips[n - 1].version(), tier)
    }
}

/// The rows of the versions of a level: the downloads, then the
/// installations, then what vendors offer.
pub open spec fn version_rows(level: crate::ip::catalog::Level) -> Seq<VersionRow> {
    rows_with(
        rows_with(
            rows_with(
                Seq::empty(),
                level.downloads,
                level.downloads.len() as int,
                Tier::Downloaded,
            ),
            level.installs,
            level.installs.len() as int,
            Tier::Installed,
        ),
        level.available,
        level.available.len() as int,
        Tier::Available,
    )
}

/// The mark of a tier in the table of versions.
pub open spec fn flag(set: bool, c: char) -> Seq<char> {
    if set {
        seq![c]
    } else {
        Seq::empty()
    }
}

/// The head of the table of the versions of an ip.
pub open spec fn versions_head() -> Seq<char> {
    padded("Version"@, 15, ' ', true) + padded("Status"@, 9, ' ', true) + seq!['\n'] + padded(
        " "@,
        15,
        '-',
        false,
    ) + padded(" "@, 9, '-', false) + seq!['\n']
}

/// The line of the table of versions for one version.
pub open spec fn version_line(row: VersionRow) -> Seq<char> {
    padded(version_text(row.version), 15, ' ', true) + padded(flag(row.downloaded, 'D'), 2, ' ', true)
        + padded(flag(row.installed, 'I'), 2, ' ', true) + padded(
        flag(row.available, 'A'),
        2,
        ' ',
        true,
    ) + seq!['\n']
}

/// The lines of the table for the first `n` rows.
pub open spec fn versions_body(rows: Seq<VersionRow>, n: int) -> Seq<char>
    decreases n,
{
    if n <= 0 {
        Seq::empty()
    } else {
        versions_body(rows, n - 1) + version_line(rows[n - 1])
    }
}

/// Marks the version `v` as found at the tier `tier`.
pub fn add_row(rows: &mut Vec<VersionRow>, v: Version, tier: Tier)
    ensures
        final(rows)@ == with_row(old(rows)@, v, tier),
{
    let mut k: usize = 0;
    while k < rows.len()
        invariant
            k <= rows.len(),
            *rows == *old(rows),
            row_index(rows@, v, k as int) == row_index(rows@, v, 0),
        decreases rows.len() - k,
    {
        let w = rows[k].version;
        if w.major == v.major && w.minor == v.minor && w.patch == v.patch {
            let row = rows[k];
            let next = match tier {
                Tier::Downloaded => VersionRow { downloaded: true, ..row },
                Tier::Installed => VersionRow { installed: true, ..row },
                Tier::Available => VersionRow { available: true, ..row },
            };
            rows.set(k, next);
            return ;
        }
        k += 1;
    }
    let mut i: usize = 0;
    while i < rows.len() && !rows[i].version.is_lower(&v)
        invariant
            i <= rows.len(),
            *rows == *old(rows),
            row_slot(rows@, v, i as int) == row_slot(rows@, v, 0),
        decreases rows.len() - i,
    {
        i += 1;
    }
    let row = VersionRow { version: v, downloaded: false, installed: false, available: false };
    let next = match tier {
        Tier::Downloaded => VersionRow { downloaded: true, ..row },
        Tier::Installed => VersionRow { installed: true, ..row },
        Tier::Available => VersionRow { available: true, ..row },
    };
    rows.insert(i, next);
}

/// Marks the versions of `ips` as found at the tier `tier`.
pub fn add_rows(rows: &mut Vec<VersionRow>, ips: &Vec<Ip>, tier: Tier)
    ensures
        final(rows)@ == rows_with(old(rows)@, ips@, ips@.len() as int, tier),
{
    let mut i: usize = 0;
    while i < ips.len()
        invariant
            i <= ips.len(),
            rows@ == rows_with(old(rows)@, ips@, i as int, tier),
        decreases ips.len() - i,
    {
        add_row(rows, *ips[i].get_version(), tier);
        i += 1;
    }
}

/// The table of the versions of an ip, from the highest down: for each
/// whether it is downloaded (`D`), installed (`I`) or offered by a
/// vendor (`A`).
pub fn format_version_table(table: &IpLevel) -> (r: String)
    ensures
        r@ == versions_head() + versions_body(
            version_rows(table@),
            version_rows(table@).len() as int,
        ),
{
    let mut out: Vec<char> = Vec::new();
    push_padded(&mut out, "Version", 15, ' ', true);
    push_padded(&mut out, "Status", 9, ' ', true);
    out.push('\n');
    push_padded(&mut out, " ", 15, '-', false);
    push_padded(&mut out, " ", 9, '-', false);
    out.push('\n');
    assert(out@ =~= versions_head());
    let mut rows: Vec<VersionRow> = Vec::new();
    add_rows(&mut rows, &table.downloads, Tier::Downloaded);
    add_rows(&mut rows, &table.installs, Tier::Installed);
    add_rows(&mut rows, &table.available, Tier::Available);
    assert(rows@ == version_rows(table@));
    let mut k: usize = 0;
    assert(out@ =~= versions_head() + versions_body(rows@, 0));
    while k < rows.len()
        invariant
            k <= rows.len(),
            out@ == versions_head() + versions_body(rows@, k as int),
        decreases rows.len() - k,
    {
        let row = rows[k];
        let ghost before = out@;
        push_padded(&mut out, row.version.to_string().as_str(), 15, ' ', true);
        push_flag(&mut out, row.downloaded, 'D');
        push_flag(&mut out, row.installed, 'I');
        push_flag(&mut out, row.available, 'A');
        out.push('\n');
        assert(out@ =~= before + version_line(row));
        assert(versions_head() + versions_body(rows@, k as int) + version_line(row)
            =~= versions_head() + (versions_body(rows@, k as int) + version_line(row)));
        k += 1;
    }
    string_of(&out)
}

/// Appends the mark `c` of a tier, or nothing, filled up to two columns.
fn push_flag(out: &mut Vec<char>, set: bool, c: char)
    ensures
        final(out)@ == old(out)@ + padded(flag(set, c), 2, ' ', true),
{
    let mut text = String::new();
    if set {
        text.push(c);
    }
    assert(text@ =~= flag(set, c));
    push_padded(out, text.as_str(), 2, ' ', true);
}

} // verus!

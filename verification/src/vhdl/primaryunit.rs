use crate::commands::plan::SourceFile;
use crate::commands::unitgraph::DesignUnit;
use crate::text::{chars_eq, chars_of, string_of};
use crate::vhdl::identifier::Identifier;
use crate::vhdl::symbol::VHDLSymbol;
use vstd::prelude::*;

verus! {

/// An inline table of the crate `toml_edit`.
#[verifier::external_type_specification]
#[verifier::external_body]
pub struct ExInlineTable(toml_edit::InlineTable);

/// The strings that an inline table holds, each under its key. Entries
/// that are no strings are not among them.
pub uninterp spec fn table_strings(t: toml_edit::InlineTable) -> Map<Seq<char>, Seq<char>>;

/// No strings at all.
pub open spec fn empty_strings() -> Map<Seq<char>, Seq<char>> {
    Map::empty()
}

/// Calls `toml_edit::InlineTable::new`, which makes a table without entries.
#[verifier::external_body]
fn new_table() -> (t: toml_edit::InlineTable)
    ensures
        table_strings(t) == empty_strings(),
{
    toml_edit::InlineTable::new()
}

/// Calls `toml_edit::InlineTable::insert` with a string value: the table
/// then holds that string under the key, in place of what it held under
/// that key before; its other entries stay.
#[verifier::external_body]
fn table_insert(t: &mut toml_edit::InlineTable, key: &str, value: &str)
    ensures
        table_strings(*final(t)) == table_strings(*old(t)).insert(key@, value@),
{
    t.insert(key, toml_edit::Value::from(value));
}

/// Calls `toml_edit::InlineTable::get` and `toml_edit::Value::as_str` on
/// what it returns: the string that the table holds under the key, if it
/// holds one there.
#[verifier::external_body]
fn table_get(t: &toml_edit::InlineTable, key: &str) -> (r: Option<String>)
    ensures
        match r {
            Some(s) => table_strings(*t).contains_key(key@) && table_strings(*t)[key@] == s@,
            None => !table_strings(*t).contains_key(key@),
        },
{
    match t.get(key) {
        Some(v) => match v.as_str() {
            Some(s) => Some(s.to_owned()),
            None => None,
        },
        None => None,
    }
}

/// A primary design unit by its name, with what was read of it, if it
/// was read. Two such are the same if they have the same name.
#[derive(Debug)]
pub struct Unit {
    pub name: Identifier,
    pub symbol: Option<VHDLSymbol>,
}

impl PartialEq for Unit {
    fn eq(&self, other: &Self) -> (r: bool) {
        self.name.matches(&other.name)
    }
}

impl vstd::std_specs::cmp::PartialEqSpecImpl for Unit {
    open spec fn obeys_eq_spec() -> bool {
        true
    }

    open spec fn eq_spec(&self, other: &Self) -> bool {
        self.name.same(&other.name)
    }
}

impl Eq for Unit {

}

/// A primary design unit with its kind.
#[derive(Debug, PartialEq, Eq)]
pub enum PrimaryUnit {
    Entity(Unit),
    Package(Unit),
    Context(Unit),
    Configuration(Unit),
}

/// The kind of a primary design unit.
#[derive(Debug, Clone, Copy, PartialEq, Eq, Structural)]
pub enum UnitKind {
    Entity,
    Package,
    Context,
    Configuration,
}

/// The name of a kind of primary design unit.
pub open spec fn kind_text(k: UnitKind) -> Seq<char> {
    match k {
        UnitKind::Entity => "entity"@,
        UnitKind::Package => "package"@,
        UnitKind::Context => "context"@,
        UnitKind::Configuration => "configuration"@,
    }
}

/// The kind that a text names.
pub open spec fn kind_named(s: Seq<char>) -> Option<UnitKind> {
    if s == "entity"@ {
        Some(UnitKind::Entity)
    } else if s == "package"@ {
        Some(UnitKind::Package)
    } else if s == "context"@ {
        Some(UnitKind::Context)
    } else if s == "configuration"@ {
        Some(UnitKind::Configuration)
    } else {
        None
    }
}

impl PrimaryUnit {
    /// The kind of the unit.
    pub open spec fn kind(&self) -> UnitKind {
        match self {
            PrimaryUnit::Entity(_) => UnitKind::Entity,
            PrimaryUnit::Package(_) => UnitKind::Package,
            PrimaryUnit::Context(_) => UnitKind::Context,
            PrimaryUnit::Configuration(_) => UnitKind::Configuration,
        }
    }

    /// The unit without its kind.
    pub open spec fn unit(&self) -> Unit {
        match self {
            PrimaryUnit::Entity(u) => *u,
            PrimaryUnit::Package(u) => *u,
            PrimaryUnit::Context(u) => *u,
            PrimaryUnit::Configuration(u) => *u,
        }
    }

    /// The unit `unit` of the kind `kind`.
    pub fn of_kind(kind: UnitKind, unit: Unit) -> (r: PrimaryUnit)
        ensures
            r.kind() == kind,
            r.unit() == unit,
    {
        match kind {
            UnitKind::Entity => PrimaryUnit::Entity(unit),
            UnitKind::Package => PrimaryUnit::Package(unit),
            UnitKind::Context => PrimaryUnit::Context(unit),
            UnitKind::Configuration => PrimaryUnit::Configuration(unit),
        }
    }

    /// The kind of the unit.
    pub fn get_kind(&self) -> (r: UnitKind)
        ensures
            r == self.kind(),
    {
        match self {
            PrimaryUnit::Entity(_) => UnitKind::Entity,
            PrimaryUnit::Package(_) => UnitKind::Package,
            PrimaryUnit::Context(_) => UnitKind::Context,
            PrimaryUnit::Configuration(_) => UnitKind::Configuration,
        }
    }

    /// The name of the unit.
    pub fn as_iden(&self) -> (r: Option<&Identifier>)
        ensures
            r == Some(&self.unit().name),
    {
        Some(
            match self {
                PrimaryUnit::Entity(u) => &u.name,
                PrimaryUnit::Package(u) => &u.name,
                PrimaryUnit::Context(u) => &u.name,
                PrimaryUnit::Configuration(u) => &u.name,
            },
        )
    }

    /// The name of the kind of the unit.
    pub fn to_string(&self) -> (s: String)
        ensures
            s@ == kind_text(self.kind()),
    {
        let s = match self {
            PrimaryUnit::Entity(_) => "entity",
            PrimaryUnit::Package(_) => "package",
            PrimaryUnit::Context(_) => "context",
            PrimaryUnit::Configuration(_) => "configuration",
        };
        string_of(&chars_of(s))
    }

    /// Writes the unit as an inline table: its name under `identifier`,
    /// its kind under `type`.
    pub fn to_toml(&self) -> (t: toml_edit::InlineTable)
        ensures
            table_strings(t) == empty_strings().insert(
                "identifier"@,
                self.unit().name.lexeme(),
            ).insert("type"@, kind_text(self.kind())),
    {
        let mut tbl = new_table();
        let name = match self {
            PrimaryUnit::Entity(u) => u.name.to_string(),
            PrimaryUnit::Package(u) => u.name.to_string(),
            PrimaryUnit::Context(u) => u.name.to_string(),
            PrimaryUnit::Configuration(u) => u.name.to_string(),
        };
        table_insert(&mut tbl, "identifier", name.as_str());
        table_insert(&mut tbl, "type", self.to_string().as_str());
        tbl
    }

    /// Reads a unit from an inline table: its name from the string under
    /// `identifier`, its kind from the string under `type`. The unit is
    /// read only if both are there, the name is an identifier and the
    /// kind is one of the four.
    pub fn from_toml(tbl: &toml_edit::InlineTable) -> (r: Option<PrimaryUnit>)
        ensures
            ({
                let strings = table_strings(*tbl);
                match r {
                    Some(u) => {
                        &&& strings.contains_key("identifier"@)
                        &&& strings.contains_key("type"@)
                        &&& kind_named(strings["type"@]) == Some(u.kind())
                        &&& u.unit().symbol is None
                        &&& identifier_reads(strings["identifier"@], u.unit().name)
                    },
                    None => !strings.contains_key("identifier"@) || !strings.contains_key(
                        "type"@,
                    ) || kind_named(strings["type"@]) is None || forall|id: Identifier|
                        !identifier_reads(strings["identifier"@], id),
                }
            }),
    {
        let name = match table_get(tbl, "identifier") {
            Some(s) => s,
            None => {
                return None;
            },
        };
        let id = match Identifier::from_str(name.as_str()) {
            Ok(id) => id,
            Err(_) => {
                proof {
                    assert forall|id: Identifier| !identifier_reads(name@, id) by {
                        if identifier_reads(name@, id) {
                            if name@.len() > 0 && name@[0] == '\\' {
                                let inner = id.name();
                                assert(name@ == seq!['\\'] + crate::text::doubled(inner, '\\')
                                    + seq!['\\']);
                            }
                        }
                    }
                }
                return None;
            },
        };
        let kind = match table_get(tbl, "type") {
            Some(s) => s,
            None => {
                return None;
            },
        };
        let k = chars_of(kind.as_str());
        let found = if chars_eq(&k, &chars_of("entity")) {
            UnitKind::Entity
        } else if chars_eq(&k, &chars_of("package")) {
            UnitKind::Package
        } else if chars_eq(&k, &chars_of("context")) {
            UnitKind::Context
        } else if chars_eq(&k, &chars_of("configuration")) {
            UnitKind::Configuration
        } else {
            return None;
        };
        Some(PrimaryUnit::of_kind(found, Unit { name: id, symbol: None }))
    }
}

/// Whether `id` is the identifier that the text `s` writes.
pub open spec fn identifier_reads(s: Seq<char>, id: Identifier) -> bool {
    if s.len() > 0 && s[0] == '\\' {
        id is Extended && id.lexeme() == s
    } else {
        id is Basic && id.name() == s && crate::vhdl::identifier::is_basic_name(s)
    }
}

/// The primary design units among the first `n` units, each with the path
/// of the file that it was read from. A unit of a kind and name that is
/// listed already takes the place of that one in the list, with its path.
pub open spec fn listed(units: Seq<DesignUnit>, n: int) -> Seq<(UnitKind, Identifier, Seq<char>)>
    decreases n,
{
    if n <= 0 {
        Seq::empty()
    } else {
        let before = listed(units, n - 1);
        let unit = units[n - 1];
        match primary_kind(unit.symbol) {
            Some(kind) => {
                let name = crate::commands::unitgraph::home(unit.symbol@);
                let k = listed_index(before, kind, name, 0);
                if k < before.len() {
                    before.update(k, (before[k].0, before[k].1, unit.file.path@))
                } else {
                    before.push((kind, name, unit.file.path@))
                }
            },
            None => before,
        }
    }
}

/// The kind of a symbol that is a primary design unit.
pub open spec fn primary_kind(sym: VHDLSymbol) -> Option<UnitKind> {
    match sym {
        VHDLSymbol::Entity(_) => Some(UnitKind::Entity),
        VHDLSymbol::Package(_) => Some(UnitKind::Package),
        VHDLSymbol::Context(_) => Some(UnitKind::Context),
        VHDLSymbol::Configuration(_) => Some(UnitKind::Configuration),
        _ => None,
    }
}

/// The index of the first entry of the kind `kind` and the name `name`
/// among `list[i..]`, or the length of the list.
pub open spec fn listed_index(
    list: Seq<(UnitKind, Identifier, Seq<char>)>,
    kind: UnitKind,
    name: Identifier,
    i: int,
) -> int
    decreases list.len() - i,
{
    if i < 0 || i >= list.len() {
        list.len() as int
    } else if list[i].0 == kind && list[i].1.same(&name) {
        i
    } else {
        listed_index(list, kind, name, i + 1)
    }
}

/// What a list of units and paths says of each unit.
pub open spec fn units_listed(v: Seq<(PrimaryUnit, String)>) -> Seq<(UnitKind, Identifier, Seq<char>)> {
    v.map_values(|e: (PrimaryUnit, String)| (e.0.kind(), e.0.unit().name, e.1@))
}

/// Lists the primary design units among `units`, each with the path of
/// the file that it was read from.
pub fn list_units(units: Vec<DesignUnit>) -> (r: Vec<(PrimaryUnit, String)>)
    ensures
        units_listed(r@) == listed(units@, units@.len() as int),
{
    let mut out: Vec<(PrimaryUnit, String)> = Vec::new();
    let ghost all = units@;
    assert(units_listed(out@) =~= listed(all, 0));
    for unit in it: units
        invariant
            it.seq() == all,
            units_listed(out@) == listed(all, it.index() as int),
    {
        let DesignUnit { symbol: sym, file } = unit;
        let kind = match &sym {
            VHDLSymbol::Entity(_) => Some(UnitKind::Entity),
            VHDLSymbol::Package(_) => Some(UnitKind::Package),
            VHDLSymbol::Context(_) => Some(UnitKind::Context),
            VHDLSymbol::Configuration(_) => Some(UnitKind::Configuration),
            _ => None,
        };
        match kind {
            Some(kind) => {
                let name = crate::commands::unitgraph::home_of(&sym).clone();
                let ghost before = units_listed(out@);
                let mut k: usize = 0;
                while k < out.len() && !(same_kind(out[k].0.get_kind(), kind) && out[k].0.as_iden().unwrap().matches(
                    &name,
                ))
                    invariant
                        k <= out.len(),
                        before == units_listed(out@),
                        listed_index(before, kind, name, k as int) == listed_index(
                            before,
                            kind,
                            name,
                            0,
                        ),
                    decreases out.len() - k,
                {
                    assert(before[k as int] == (
                        out@[k as int].0.kind(),
                        out@[k as int].0.unit().name,
                        out@[k as int].1@,
                    ));
                    k += 1;
                }
                if k < out.len() {
                    assert(before[k as int] == (
                        out@[k as int].0.kind(),
                        out@[k as int].0.unit().name,
                        out@[k as int].1@,
                    ));
                    let ghost old_out = out@;
                    out[k].1 = file.path;
                    proof {
                        assert(out@[k as int].0 == old_out[k as int].0);
                        assert(units_listed(out@) =~= before.update(
                            k as int,
                            (before[k as int].0, before[k as int].1, file.path@),
                        ));
                    }
                } else {
                    let listed_unit = PrimaryUnit::of_kind(kind, Unit { name, symbol: Some(sym) });
                    let entry = (listed_unit, file.path);
                    proof {
                        assert(units_listed(out@.push(entry)) =~= before.push(
                            (kind, name, file.path@),
                        ));
                    }
                    out.push(entry);
                }
            },
            None => {},
        }
    }
    out
}

/// Whether two kinds are the same.
pub fn same_kind(a: UnitKind, b: UnitKind) -> (r: bool)
    ensures
        r == (a == b),
{
    a == b
}

/// Lists the primary design units of the VHDL files among `files`, each
/// with the path of the file that it was read from.
pub fn collect_units(files: &Vec<SourceFile>) -> (r: Vec<(PrimaryUnit, String)>)
    ensures
        exists|units: Seq<DesignUnit>|
            crate::commands::plan::reads(files@, files@.len() as int, units) && units_listed(r@)
                == #[trigger] listed(units, units.len() as int),
{
    let units = crate::commands::plan::read_units(files);
    list_units(units)
}

} // verus!

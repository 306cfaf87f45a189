use crate::util::graph::Graph;
use crate::vhdl::identifier::Identifier;
use crate::vhdl::statement::ResReference;
use crate::vhdl::symbol::{Unit, VHDLSymbol};
use vstd::prelude::*;

verus! {

/// A source file of an ip: its path and the library that its units go to.
#[derive(Debug, PartialEq)]
pub struct IpFile {
    pub path: String,
    pub library: String,
}

impl Clone for IpFile {
    fn clone(&self) -> (r: Self)
        ensures
            r == *self,
    {
        IpFile { path: self.path.clone(), library: self.library.clone() }
    }
}

/// A design unit with the file that it was read from.
#[derive(Debug, PartialEq)]
pub struct DesignUnit {
    pub symbol: VHDLSymbol,
    pub file: IpFile,
}

/// A node of the graph of design units: a primary unit with the files
/// that it and its secondary units were read from.
#[derive(Debug, PartialEq)]
pub struct HashNode {
    pub index: usize,
    /// The index of the primary unit among the design units.
    pub unit: usize,
    pub files: Vec<IpFile>,
}

/// Whether a file of the path `path` is among `files`.
pub open spec fn has_path(files: Seq<IpFile>, path: Seq<char>) -> bool {
    exists|i: int| 0 <= i < files.len() && (#[trigger] files[i]).path@ == path
}

impl HashNode {
    /// The index of the node in the graph.
    pub fn index(&self) -> (r: usize)
        ensures
            r == self.index,
    {
        self.index
    }

    /// The node `index` of the primary unit `unit`, read from `file`.
    pub fn new(unit: usize, index: usize, file: IpFile) -> (r: HashNode)
        ensures
            r.index == index,
            r.unit == unit,
            r.files@ == seq![file],
    {
        let mut set = Vec::new();
        set.push(file);
        HashNode { index, unit, files: set }
    }

    /// Adds a file to the node, unless one of the same path is there already.
    pub fn add_file(&mut self, file: IpFile)
        ensures
            final(self).index == old(self).index,
            final(self).unit == old(self).unit,
            final(self).files@ == if has_path(old(self).files@, file.path@) {
                old(self).files@
            } else {
                old(self).files@.push(file)
            },
    {
        let mut i: usize = 0;
        while i < self.files.len()
            invariant
                i <= self.files.len(),
                *self == *old(self),
                forall|j: int| 0 <= j < i ==> (#[trigger] self.files@[j]).path@ != file.path@,
            decreases self.files.len() - i,
        {
            if self.files[i].path == file.path {
                return ;
            }
            i += 1;
        }
        self.files.push(file);
    }
}

/// The primary unit that a unit belongs to: itself, or for an architecture
/// or a package body the unit that owns it.
pub open spec fn home(u: Unit) -> Identifier {
    match u {
        Unit::Entity { name, .. } => name,
        Unit::Context { name, .. } => name,
        Unit::Package { name, .. } => name,
        Unit::Configuration { name, .. } => name,
        Unit::Architecture { owner, .. } => owner,
        Unit::PackageBody { owner, .. } => owner,
    }
}

/// Whether a unit is a primary one: an entity, a package, a context or a
/// configuration.
pub open spec fn is_primary(u: Unit) -> bool {
    !(u is Architecture) && !(u is PackageBody)
}

/// The names after the dots of a list of references.
pub open spec fn suffixes(refs: Seq<ResReference>) -> Seq<Identifier> {
    refs.map_values(|r: ResReference| r.suffix)
}

/// The names of the units that `u` asks for by the source `pass` of edges:
/// first what architectures instantiate or bind, second what
/// configurations bind, third what the references of any unit name after
/// their dot.
pub open spec fn pass_names(pass: int, u: Unit) -> Seq<Identifier> {
    if pass == 1 {
        match u {
            Unit::Architecture { deps, .. } => deps,
            _ => Seq::empty(),
        }
    } else if pass == 2 {
        match u {
            Unit::Configuration { deps, .. } => deps,
            _ => Seq::empty(),
        }
    } else {
        suffixes(u.refs())
    }
}

/// Whether node `u` has one of the names `names`.
pub open spec fn named_in(keys: Seq<Identifier>, u: usize, names: Seq<Identifier>) -> bool {
    u < keys.len() && exists|j: int| 0 <= j < names.len() && keys[u as int].same(&#[trigger] names[j])
}

/// Whether the unit `unit` makes node `v` depend on node `u` by the source
/// `pass` of edges: `v` is the node that the unit belongs to, and `u`
/// another node that the unit asks for by name.
pub open spec fn asks(keys: Seq<Identifier>, unit: Unit, pass: int, u: usize, v: usize) -> bool {
    &&& u != v
    &&& v < keys.len()
    &&& keys[v as int].same(&home(unit))
    &&& named_in(keys, u, pass_names(pass, unit))
}

/// Whether some unit among the first `n` makes node `v` depend on node `u`
/// by the source `pass` of edges.
pub open spec fn asked_in(
    keys: Seq<Identifier>,
    units: Seq<DesignUnit>,
    pass: int,
    n: int,
    u: usize,
    v: usize,
) -> bool {
    exists|i: int| 0 <= i < n && i < units.len() && asks(keys, (#[trigger] units[i]).symbol@, pass, u, v)
}

/// Whether in the graph of the units node `v` depends on node `u`.
pub open spec fn linked(keys: Seq<Identifier>, units: Seq<DesignUnit>, u: usize, v: usize) -> bool {
    let n = units.len() as int;
    asked_in(keys, units, 1, n, u, v) || asked_in(keys, units, 2, n, u, v) || asked_in(
        keys,
        units,
        3,
        n,
        u,
        v,
    )
}

/// The names of the nodes that the first `n` units give: the names of the
/// primary units, each once, in the order in which they are met first.
pub open spec fn node_keys(units: Seq<DesignUnit>, n: int) -> Seq<Identifier>
    decreases n,
{
    if n <= 0 {
        Seq::empty()
    } else {
        let keys = node_keys(units, n - 1);
        let u = units[n - 1].symbol@;
        if is_primary(u) && !has_key(keys, home(u)) {
            keys.push(home(u))
        } else {
            keys
        }
    }
}

/// Whether one of `keys` is the name `name`.
pub open spec fn has_key(keys: Seq<Identifier>, name: Identifier) -> bool {
    exists|i: int| 0 <= i < keys.len() && (#[trigger] keys[i]).same(&name)
}

/// The index of the first of `keys[i..]` that is the name `name`, or the
/// number of keys if there is none.
pub open spec fn node_named(keys: Seq<Identifier>, name: Identifier, i: int) -> int
    decreases keys.len() - i,
{
    if i < 0 || i >= keys.len() {
        keys.len() as int
    } else if keys[i].same(&name) {
        i
    } else {
        node_named(keys, name, i + 1)
    }
}

/// The first node of a name is the one before which no node has that name.
pub proof fn lemma_node_named(keys: Seq<Identifier>, name: Identifier, i: int, k: int)
    requires
        0 <= i <= k <= keys.len(),
        forall|j: int| i <= j < k ==> !(#[trigger] keys[j]).same(&name),
        k < keys.len() ==> keys[k].same(&name),
    ensures
        node_named(keys, name, i) == k,
    decreases k - i,
{
    if i < k {
        assert(!keys[i].same(&name));
        lemma_node_named(keys, name, i + 1, k);
    }
}

/// The edges `edges` with one from `u` to `v` at their end, unless it is
/// among them.
pub open spec fn with_edge(edges: Seq<(usize, usize)>, u: usize, v: usize) -> Seq<(usize, usize)> {
    if edges.contains((u, v)) {
        edges
    } else {
        edges.push((u, v))
    }
}

/// The edges once node `to` depends on the nodes of the first `n` of the
/// names `names`: name after name, an edge from the node of that name to
/// `to` joins, unless no node has the name, the node is `to` itself, or
/// the edge is there.
pub open spec fn linked_names(
    keys: Seq<Identifier>,
    edges: Seq<(usize, usize)>,
    names: Seq<Identifier>,
    to: usize,
    n: int,
) -> Seq<(usize, usize)>
    decreases n,
{
    if n <= 0 {
        edges
    } else {
        let before = linked_names(keys, edges, names, to, n - 1);
        let u = node_named(keys, names[n - 1], 0);
        if u < keys.len() && u != to {
            with_edge(before, u as usize, to)
        } else {
            before
        }
    }
}

/// The edges once the first `n` units have added theirs by the source
/// `pass` of edges: unit after unit, the node that the unit belongs to
/// comes to depend on the nodes that the unit asks for by name.
pub open spec fn pass_edges(
    keys: Seq<Identifier>,
    units: Seq<DesignUnit>,
    pass: int,
    edges: Seq<(usize, usize)>,
    n: int,
) -> Seq<(usize, usize)>
    decreases n,
{
    if n <= 0 {
        edges
    } else {
        let before = pass_edges(keys, units, pass, edges, n - 1);
        let unit = units[n - 1].symbol@;
        let to = node_named(keys, home(unit), 0);
        if to < keys.len() {
            linked_names(
                keys,
                before,
                pass_names(pass, unit),
                to as usize,
                pass_names(pass, unit).len() as int,
            )
        } else {
            before
        }
    }
}

/// The edges of the graph of the units `units`, in the order in which
/// they are added: first what architectures instantiate or bind, then
/// what configurations bind, then what references name after their dot;
/// within each of the three in the order of the units, and for a unit in
/// the order in which it asks.
pub open spec fn unit_edges(keys: Seq<Identifier>, units: Seq<DesignUnit>) -> Seq<(usize, usize)> {
    let n = units.len() as int;
    pass_edges(
        keys,
        units,
        3,
        pass_edges(keys, units, 2, pass_edges(keys, units, 1, Seq::empty(), n), n),
        n,
    )
}

/// The graph of the design units of a plan, with what each node stands for.
#[derive(Debug)]
pub struct UnitGraph {
    pub graph: Graph,
    pub nodes: Vec<HashNode>,
    pub units: Vec<DesignUnit>,
}

/// The name of a design unit by which it is put into the graph.
pub fn home_of(sym: &VHDLSymbol) -> (r: &Identifier)
    ensures
        *r == home(sym@),
{
    match sym {
        VHDLSymbol::Entity(e) => &e.name,
        VHDLSymbol::Context(c) => &c.name,
        VHDLSymbol::Package(p) => &p.name,
        VHDLSymbol::Configuration(c) => &c.name,
        VHDLSymbol::Architecture(a) => &a.owner,
        VHDLSymbol::PackageBody(b) => &b.owner,
    }
}

/// Whether a design unit is a primary one.
pub fn check_primary(sym: &VHDLSymbol) -> (r: bool)
    ensures
        r == is_primary(sym@),
{
    match sym {
        VHDLSymbol::Architecture(_) => false,
        VHDLSymbol::PackageBody(_) => false,
        _ => true,
    }
}

/// The names that a design unit asks for by the source `pass` of edges.
pub fn names_of(sym: &VHDLSymbol, pass: u8) -> (r: Vec<Identifier>)
    requires
        1 <= pass <= 3,
    ensures
        r@ == pass_names(pass as int, sym@),
{
    let mut out: Vec<Identifier> = Vec::new();
    if pass == 1 || pass == 2 {
        let deps: Option<&Vec<Identifier>> = match sym {
            VHDLSymbol::Architecture(a) => if pass == 1 {
                Some(&a.dependencies)
            } else {
                None
            },
            VHDLSymbol::Configuration(c) => if pass == 2 {
                Some(&c.dependencies)
            } else {
                None
            },
            _ => None,
        };
        match deps {
            Some(list) => {
                let mut i: usize = 0;
                while i < list.len()
                    invariant
                        i <= list.len(),
                        out@ == list@.take(i as int),
                    decreases list.len() - i,
                {
                    out.push(list[i].clone());
                    assert(list@.take(i as int).push(list@[i as int]) =~= list@.take(i + 1));
                    i += 1;
                }
                assert(list@.take(list@.len() as int) =~= list@);
            },
            None => {
                assert(out@ =~= pass_names(pass as int, sym@));
            },
        }
    } else {
        let refs = sym.get_refs();
        let mut i: usize = 0;
        assert(refs@.len() == sym@.refs().len());
        while i < refs.len()
            invariant
                i <= refs.len(),
                refs@.len() == sym@.refs().len(),
                forall|k: int| 0 <= k < refs@.len() ==> *refs@[k] == sym@.refs()[k],
                out@.len() == i,
                forall|k: int| 0 <= k < i ==> out@[k] == sym@.refs()[k].suffix,
            decreases refs.len() - i,
        {
            out.push(refs[i].get_suffix().clone());
            i += 1;
        }
        assert(out@ =~= suffixes(sym@.refs()));
    }
    out
}

/// Two nodes of a well-formed graph that have the same name are one node.
pub proof fn lemma_key_unique(g: &Graph, a: usize, b: usize, name: Identifier)
    requires
        g.wf(),
        a < g.keys@.len(),
        b < g.keys@.len(),
        g.keys@[a as int].same(&name),
        g.keys@[b as int].same(&name),
    ensures
        a == b,
{
    if a < b {
        assert(g.keys@[a as int].same(&g.keys@[b as int]));
    } else if b < a {
        assert(g.keys@[b as int].same(&g.keys@[a as int]));
    }
}

/// Makes node `to` depend on every other node that has one of the names
/// `names`. A name that no node has is passed over.
pub fn link_all(g: &mut Graph, names: &Vec<Identifier>, to: usize)
    requires
        old(g).wf(),
        to < old(g).keys@.len(),
    ensures
        final(g).wf(),
        final(g).keys == old(g).keys,
        final(g).edges@ == linked_names(
            old(g).keys@,
            old(g).edges@,
            names@,
            to,
            names@.len() as int,
        ),
        forall|u: usize, v: usize|
            #[trigger] final(g).edge(u, v) <==> old(g).edge(u, v) || (v == to && u != to
                && named_in(old(g).keys@, u, names@)),
{
    let mut i: usize = 0;
    while i < names.len()
        invariant
            i <= names.len(),
            g.wf(),
            g.keys == old(g).keys,
            to < g.keys@.len(),
            g.edges@ == linked_names(g.keys@, old(g).edges@, names@, to, i as int),
            forall|u: usize, v: usize|
                #[trigger] g.edge(u, v) <==> old(g).edge(u, v) || (v == to && u != to && named_in(
                    g.keys@,
                    u,
                    names@.take(i as int),
                )),
        decreases names.len() - i,
    {
        let ghost before = *g;
        let ghost prefix = names@.take(i as int);
        let ghost next = names@.take(i + 1);
        let found = g.find_node(&names[i]);
        let mut added: Option<usize> = None;
        match found {
            Some(u) => {
                if u != to {
                    g.add_edge(u, to);
                    added = Some(u);
                }
            },
            None => {},
        }
        proof {
            match found {
                Some(w) => {
                    lemma_node_named(g.keys@, names@[i as int], 0, w as int);
                },
                None => {
                    lemma_node_named(g.keys@, names@[i as int], 0, g.keys@.len() as int);
                },
            }
            assert(g.edges@ == linked_names(g.keys@, old(g).edges@, names@, to, i + 1));
            assert(next =~= prefix.push(names@[i as int]));
            assert forall|u: usize, v: usize|
                #[trigger] g.edge(u, v) <==> old(g).edge(u, v) || (v == to && u != to && named_in(
                    g.keys@,
                    u,
                    next,
                )) by {
                // what the new name adds
                let hit = u < g.keys@.len() && g.keys@[u as int].same(&names@[i as int]);
                if named_in(g.keys@, u, next) {
                    let j = choose|j: int|
                        0 <= j < next.len() && g.keys@[u as int].same(&#[trigger] next[j]);
                    if j < prefix.len() {
                        assert(prefix[j] == next[j]);
                        assert(named_in(g.keys@, u, prefix));
                    } else {
                        assert(hit);
                    }
                }
                if named_in(g.keys@, u, prefix) {
                    let j = choose|j: int|
                        0 <= j < prefix.len() && g.keys@[u as int].same(&#[trigger] prefix[j]);
                    assert(next[j] == prefix[j]);
                }
                if hit {
                    assert(next[i as int] == names@[i as int]);
                    assert(named_in(g.keys@, u, next));
                    match found {
                        Some(w) => {
                            lemma_key_unique(&before, u, w, names@[i as int]);
                        },
                        None => {},
                    }
                }
                assert(before.edge(u, v) <==> old(g).edge(u, v) || (v == to && u != to
                    && named_in(g.keys@, u, prefix)));
                match added {
                    Some(w) => {
                        if before.edge(w, to) {
                            assert(g.edges@ == before.edges@);
                        } else {
                            assert(g.edges@ == before.edges@.push((w, to)));
                            if g.edge(u, v) {
                                let k = choose|k: int|
                                    0 <= k < g.edges@.len() && g.edges@[k] == (u, v);
                                if k < before.edges@.len() {
                                    assert(before.edges@[k] == (u, v));
                                }
                            }
                            if before.edge(u, v) {
                                let k = choose|k: int|
                                    0 <= k < before.edges@.len() && before.edges@[k] == (u, v);
                                assert(g.edges@[k] == (u, v));
                            }
                            assert(g.edges@[before.edges@.len() as int] == (w, to));
                        }
                    },
                    None => {
                        assert(g.edges@ == before.edges@);
                    },
                }
            }
        }
        i += 1;
    }
    assert(names@.take(names@.len() as int) =~= names@);
}

/// The list `files` with `file` added, unless a file of its path is there.
pub open spec fn with_file(files: Seq<IpFile>, file: IpFile) -> Seq<IpFile> {
    if has_path(files, file.path@) {
        files
    } else {
        files.push(file)
    }
}

/// The files of the node `key` after `acc`, from the first `n` units:
/// those of its primary units if `primary` is set, else those of its
/// secondary units; each path once, in the order in which it is met first.
pub open spec fn gather_files(
    units: Seq<DesignUnit>,
    key: Identifier,
    primary: bool,
    n: int,
    acc: Seq<IpFile>,
) -> Seq<IpFile>
    decreases n,
{
    if n <= 0 {
        acc
    } else {
        let before = gather_files(units, key, primary, n - 1, acc);
        let u = units[n - 1];
        if is_primary(u.symbol@) == primary && key.same(&home(u.symbol@)) {
            with_file(before, u.file)
        } else {
            before
        }
    }
}

/// The files of the node `key`: those of its primary units, then those of
/// its architectures or package bodies.
pub open spec fn node_files(units: Seq<DesignUnit>, key: Identifier) -> Seq<IpFile> {
    let n = units.len() as int;
    gather_files(units, key, false, n, gather_files(units, key, true, n, Seq::empty()))
}

/// A name that is no key yet has no file yet.
pub proof fn lemma_no_key_no_files(units: Seq<DesignUnit>, key: Identifier, n: int)
    requires
        0 <= n <= units.len(),
        !has_key(node_keys(units, n), key),
    ensures
        gather_files(units, key, true, n, Seq::empty()) == Seq::<IpFile>::empty(),
    decreases n,
{
    if n > 0 {
        let keys = node_keys(units, n - 1);
        let u = units[n - 1].symbol@;
        if is_primary(u) && !has_key(keys, home(u)) {
            let next = keys.push(home(u));
            assert(next[keys.len() as int] == home(u));
            if has_key(keys, key) {
                let i = choose|i: int| 0 <= i < keys.len() && (#[trigger] keys[i]).same(&key);
                assert(next[i].same(&key));
            }
            assert(!home(u).same(&key));
        } else if is_primary(u) {
            let i = choose|i: int| 0 <= i < keys.len() && (#[trigger] keys[i]).same(&home(u));
            assert(!keys[i].same(&key));
        }
        lemma_no_key_no_files(units, key, n - 1);
    }
}

/// Whether unit `u` is the first primary unit of the name `key`.
pub open spec fn is_first_unit(units: Seq<DesignUnit>, key: Identifier, u: int) -> bool {
    &&& 0 <= u < units.len()
    &&& is_primary(units[u].symbol@)
    &&& key.same(&home(units[u].symbol@))
    &&& forall|j: int|
        0 <= j < u ==> !(is_primary((#[trigger] units[j]).symbol@) && key.same(
            &home(units[j].symbol@),
        ))
}

/// Before a name becomes a key, no primary unit has it.
pub proof fn lemma_no_key_no_unit(units: Seq<DesignUnit>, key: Identifier, n: int, j: int)
    requires
        0 <= j < n <= units.len(),
        !has_key(node_keys(units, n), key),
    ensures
        !(is_primary(units[j].symbol@) && key.same(&home(units[j].symbol@))),
    decreases n,
{
    let keys = node_keys(units, n - 1);
    let u = units[n - 1].symbol@;
    if is_primary(u) && !has_key(keys, home(u)) {
        let next = keys.push(home(u));
        assert(next[keys.len() as int] == home(u));
        if has_key(keys, key) {
            let i = choose|i: int| 0 <= i < keys.len() && (#[trigger] keys[i]).same(&key);
            assert(next[i].same(&key));
        }
        assert(!home(u).same(&key));
    } else if is_primary(u) {
        let i = choose|i: int| 0 <= i < keys.len() && (#[trigger] keys[i]).same(&home(u));
        assert(!keys[i].same(&key));
    }
    if j < n - 1 {
        lemma_no_key_no_unit(units, key, n - 1, j);
    }
}

impl UnitGraph {
    /// Whether every node stands for a primary unit of its name.
    pub open spec fn wf(&self) -> bool {
        &&& self.graph.wf()
        &&& self.nodes@.len() == self.graph.keys@.len()
        &&& forall|k: int|
            0 <= k < self.nodes@.len() ==> {
                let node = #[trigger] self.nodes@[k];
                &&& node.index == k
                &&& is_first_unit(self.units@, self.graph.keys@[k], node.unit as int)
            }
    }

    /// Adds a node for each primary unit, and to each node the files of its
    /// primary units.
    fn add_nodes(units: &Vec<DesignUnit>) -> (r: (Graph, Vec<HashNode>))
        ensures
            r.0.wf(),
            r.0.edges@.len() == 0,
            r.0.keys@ == node_keys(units@, units@.len() as int),
            r.1@.len() == r.0.keys@.len(),
            forall|k: int|
                0 <= k < r.1@.len() ==> {
                    let node = #[trigger] r.1@[k];
                    &&& node.index == k
                    &&& is_first_unit(units@, r.0.keys@[k], node.unit as int)
                    &&& node.files@ == gather_files(
                        units@,
                        r.0.keys@[k],
                        true,
                        units@.len() as int,
                        Seq::empty(),
                    )
                },
    {
        let mut graph = Graph::new();
        let mut nodes: Vec<HashNode> = Vec::new();
        let mut i: usize = 0;
        assert(graph.keys@ =~= node_keys(units@, 0));
        while i < units.len()
            invariant
                i <= units.len(),
                graph.wf(),
                graph.edges@.len() == 0,
                graph.keys@ == node_keys(units@, i as int),
                nodes@.len() == graph.keys@.len(),
                forall|k: int|
                    0 <= k < nodes@.len() ==> {
                        let node = #[trigger] nodes@[k];
                        &&& node.index == k
                        &&& is_first_unit(units@, graph.keys@[k], node.unit as int)
                        &&& node.files@ == gather_files(
                            units@,
                            graph.keys@[k],
                            true,
                            i as int,
                            Seq::empty(),
                        )
                    },
            decreases units.len() - i,
        {
            let unit = &units[i];
            if check_primary(&unit.symbol) {
                let name = home_of(&unit.symbol);
                let ghost keys0 = graph.keys@;
                let ghost nodes0 = nodes@;
                let found = graph.find_node(name);
                match found {
                    Some(k) => {
                        assert(has_key(keys0, *name));
                        nodes[k].add_file(unit.file.clone());
                        proof {
                            assert forall|j: int| 0 <= j < nodes@.len() implies {
                                let node = #[trigger] nodes@[j];
                                &&& node.index == j
                                &&& is_first_unit(units@, graph.keys@[j], node.unit as int)
                                &&& node.files@ == gather_files(
                                    units@,
                                    graph.keys@[j],
                                    true,
                                    i + 1,
                                    Seq::empty(),
                                )
                            } by {
                                if j != k {
                                    assert(nodes@[j] == nodes0[j]);
                                    if graph.keys@[j].same(name) {
                                        lemma_key_unique(&graph, j as usize, k, *name);
                                    }
                                }
                            }
                        }
                    },
                    None => {
                        proof {
                            assert(!has_key(keys0, *name));
                            lemma_no_key_no_files(units@, *name, i as int);
                            assert forall|j: int| 0 <= j < i implies !(is_primary(
                                (#[trigger] units@[j]).symbol@,
                            ) && name.same(&home(units@[j].symbol@))) by {
                                lemma_no_key_no_unit(units@, *name, i as int, j);
                            }
                        }
                        let k = graph.add_node(name.clone());
                        nodes.push(HashNode::new(i, k, unit.file.clone()));
                        proof {
                            assert(graph.keys@ == keys0.push(*name));
                            assert(!has_path(Seq::<IpFile>::empty(), unit.file.path@));
                            assert(with_file(Seq::<IpFile>::empty(), unit.file) =~= seq![
                                unit.file,
                            ]);
                            assert forall|j: int| 0 <= j < nodes@.len() implies {
                                let node = #[trigger] nodes@[j];
                                &&& node.index == j
                                &&& is_first_unit(units@, graph.keys@[j], node.unit as int)
                                &&& node.files@ == gather_files(
                                    units@,
                                    graph.keys@[j],
                                    true,
                                    i + 1,
                                    Seq::empty(),
                                )
                            } by {
                                if j < nodes0.len() {
                                    assert(nodes@[j] == nodes0[j]);
                                    assert(graph.keys@[j] == keys0[j]);
                                    assert(!keys0[j].same(name));
                                }
                            }
                        }
                    },
                }
            }
            i += 1;
        }
        (graph, nodes)
    }

    /// Adds to each node the files of its architectures or package bodies.
    fn add_secondary_files(graph: &Graph, nodes: &mut Vec<HashNode>, units: &Vec<DesignUnit>)
        requires
            graph.wf(),
            old(nodes)@.len() == graph.keys@.len(),
        ensures
            final(nodes)@.len() == old(nodes)@.len(),
            forall|k: int|
                0 <= k < final(nodes)@.len() ==> {
                    &&& (#[trigger] final(nodes)@[k]).index == old(nodes)@[k].index
                    &&& final(nodes)@[k].unit == old(nodes)@[k].unit
                    &&& final(nodes)@[k].files@ == gather_files(
                        units@,
                        graph.keys@[k],
                        false,
                        units@.len() as int,
                        old(nodes)@[k].files@,
                    )
                },
    {
        let mut i: usize = 0;
        while i < units.len()
            invariant
                i <= units.len(),
                graph.wf(),
                nodes@.len() == graph.keys@.len(),
                nodes@.len() == old(nodes)@.len(),
                forall|k: int|
                    0 <= k < nodes@.len() ==> {
                        &&& (#[trigger] nodes@[k]).index == old(nodes)@[k].index
                        &&& nodes@[k].unit == old(nodes)@[k].unit
                        &&& nodes@[k].files@ == gather_files(
                            units@,
                            graph.keys@[k],
                            false,
                            i as int,
                            old(nodes)@[k].files@,
                        )
                    },
            decreases units.len() - i,
        {
            let unit = &units[i];
            if !check_primary(&unit.symbol) {
                let name = home_of(&unit.symbol);
                let ghost nodes0 = nodes@;
                match graph.find_node(name) {
                    Some(k) => {
                        nodes[k].add_file(unit.file.clone());
                        proof {
                            assert forall|j: int| 0 <= j < nodes@.len() implies {
                                &&& (#[trigger] nodes@[j]).index == old(nodes)@[j].index
                                &&& nodes@[j].unit == old(nodes)@[j].unit
                                &&& nodes@[j].files@ == gather_files(
                                    units@,
                                    graph.keys@[j],
                                    false,
                                    i + 1,
                                    old(nodes)@[j].files@,
                                )
                            } by {
                                if j != k {
                                    assert(nodes@[j] == nodes0[j]);
                                    if graph.keys@[j].same(name) {
                                        lemma_key_unique(graph, j as usize, k, *name);
                                    }
                                }
                            }
                        }
                    },
                    None => {},
                }
            }
            i += 1;
        }
    }

    /// Adds the edges of one source: each unit makes the node that it belongs
    /// to depend on the nodes that it asks for by name.
    fn add_edges(graph: &mut Graph, units: &Vec<DesignUnit>, pass: u8)
        requires
            old(graph).wf(),
            1 <= pass <= 3,
        ensures
            final(graph).wf(),
            final(graph).keys == old(graph).keys,
            final(graph).edges@ == pass_edges(
                old(graph).keys@,
                units@,
                pass as int,
                old(graph).edges@,
                units@.len() as int,
            ),
            forall|u: usize, v: usize|
                #[trigger] final(graph).edge(u, v) <==> old(graph).edge(u, v) || asked_in(
                    old(graph).keys@,
                    units@,
                    pass as int,
                    units@.len() as int,
                    u,
                    v,
                ),
    {
        let mut i: usize = 0;
        while i < units.len()
            invariant
                i <= units.len(),
                graph.wf(),
                graph.keys == old(graph).keys,
                1 <= pass <= 3,
                graph.edges@ == pass_edges(
                    graph.keys@,
                    units@,
                    pass as int,
                    old(graph).edges@,
                    i as int,
                ),
                forall|u: usize, v: usize|
                    #[trigger] graph.edge(u, v) <==> old(graph).edge(u, v) || asked_in(
                        graph.keys@,
                        units@,
                        pass as int,
                        i as int,
                        u,
                        v,
                    ),
            decreases units.len() - i,
        {
            let unit = &units[i];
            let ghost before = *graph;
            let found = graph.find_node(home_of(&unit.symbol));
            match found {
                Some(to) => {
                    let names = names_of(&unit.symbol, pass);
                    link_all(graph, &names, to);
                },
                None => {},
            }
            proof {
                let keys = graph.keys@;
                match found {
                    Some(to) => {
                        lemma_node_named(keys, home(units@[i as int].symbol@), 0, to as int);
                    },
                    None => {
                        lemma_node_named(keys, home(units@[i as int].symbol@), 0, keys.len() as int);
                    },
                }
                assert(graph.edges@ == pass_edges(keys, units@, pass as int, old(graph).edges@, i + 1));
                assert forall|u: usize, v: usize|
                    #[trigger] graph.edge(u, v) <==> old(graph).edge(u, v) || asked_in(
                        keys,
                        units@,
                        pass as int,
                        i + 1,
                        u,
                        v,
                    ) by {
                    let now = asks(keys, units@[i as int].symbol@, pass as int, u, v);
                    assert(before.edge(u, v) <==> old(graph).edge(u, v) || asked_in(
                        keys,
                        units@,
                        pass as int,
                        i as int,
                        u,
                        v,
                    ));
                    match found {
                        Some(to) => {
                            if now {
                                lemma_key_unique(&before, v, to, home(units@[i as int].symbol@));
                            }
                            assert(graph.edge(u, v) <==> before.edge(u, v) || now);
                        },
                        None => {
                            assert(!now);
                        },
                    }
                    if asked_in(keys, units@, pass as int, i + 1, u, v) {
                        let j = choose|j: int|
                            0 <= j < i + 1 && j < units@.len() && asks(
                                keys,
                                (#[trigger] units@[j]).symbol@,
                                pass as int,
                                u,
                                v,
                            );
                        if j < i {
                            assert(asked_in(keys, units@, pass as int, i as int, u, v));
                        }
                    }
                    if asked_in(keys, units@, pass as int, i as int, u, v) {
                        let j = choose|j: int|
                            0 <= j < i && j < units@.len() && asks(
                                keys,
                                (#[trigger] units@[j]).symbol@,
                                pass as int,
                                u,
                                v,
                            );
                        assert(asks(keys, units@[j].symbol@, pass as int, u, v));
                    }
                    if now {
                        assert(asks(keys, units@[i as int].symbol@, pass as int, u, v));
                    }
                }
            }
            i += 1;
        }
    }

    /// Builds the graph of the design units `units`.
    ///
    /// Every primary unit becomes a node, units of one name the same node.
    /// A node depends on every other node that one of its units asks for:
    /// that an architecture of it instantiates or binds, that it binds as
    /// a configuration, or that a reference of one of its units names
    /// after the dot. A name that no node has is passed over.
    pub fn build(units: Vec<DesignUnit>) -> (r: UnitGraph)
        ensures
            r.wf(),
            r.units == units,
            r.graph.keys@ == node_keys(units@, units@.len() as int),
            r.graph.edges@ == unit_edges(r.graph.keys@, units@),
            forall|u: usize, v: usize|
                #[trigger] r.graph.edge(u, v) <==> linked(r.graph.keys@, units@, u, v),
            forall|k: int|
                0 <= k < r.nodes@.len() ==> (#[trigger] r.nodes@[k]).files@ == node_files(
                    units@,
                    r.graph.keys@[k],
                ),
    {
        let (mut graph, mut nodes) = Self::add_nodes(&units);
        Self::add_secondary_files(&graph, &mut nodes, &units);
        let ghost empty = graph;
        assert(empty.edges@ =~= Seq::<(usize, usize)>::empty());
        Self::add_edges(&mut graph, &units, 1);
        let ghost first = graph;
        Self::add_edges(&mut graph, &units, 2);
        let ghost second = graph;
        Self::add_edges(&mut graph, &units, 3);
        proof {
            assert forall|u: usize, v: usize|
                #[trigger] graph.edge(u, v) <==> linked(graph.keys@, units@, u, v) by {
                assert(!empty.edge(u, v));
                assert(first.edge(u, v) <==> empty.edge(u, v) || asked_in(
                    graph.keys@,
                    units@,
                    1,
                    units@.len() as int,
                    u,
                    v,
                ));
                assert(second.edge(u, v) <==> first.edge(u, v) || asked_in(
                    graph.keys@,
                    units@,
                    2,
                    units@.len() as int,
                    u,
                    v,
                ));
            }
        }
        UnitGraph { graph, nodes, units }
    }
}

} // verus!

use crate::commands::unitgraph::{node_named, DesignUnit, HashNode, IpFile, UnitGraph};
use crate::fileset::{
    all_compile_alike, all_match_alike, all_rows, compile_answers, file_paths, fileset_rows,
    lemma_compiles_named, lemma_matches_named, match_answers, named_compiles, named_matches,
    set_names, set_patterns, Fileset, FilesetError, FilesetView, Row, RowView,
};
use crate::template::{substitute_from, VariableTable};
use crate::text::{chars_of, extend_str, string_of};
use crate::util::filesystem::{is_rtl, is_vhdl, spec_is_bench_name};
use crate::util::graph::{
    acyclic, greedy, is_ancestor, lemma_ancestor_step, roots_below, sources, targets,
};
use crate::vhdl::identifier::Identifier;
use crate::vhdl::symbol::VHDLSymbol;
use vstd::prelude::*;

verus! {

/// What there is more than one of, where one was looked for.
#[derive(Debug, Clone, Copy, PartialEq, Eq, Structural)]
pub enum AmbiguousKind {
    Testbenches,
    Roots,
    Tops,
}

impl AmbiguousKind {
    /// The kind in words.
    pub fn to_string(&self) -> (s: String)
        ensures
            s@ == match self {
                AmbiguousKind::Testbenches => "testbenches"@,
                AmbiguousKind::Roots => "roots"@,
                AmbiguousKind::Tops => "tops"@,
            },
    {
        let s = match self {
            AmbiguousKind::Testbenches => "testbenches",
            AmbiguousKind::Roots => "roots",
            AmbiguousKind::Tops => "tops",
        };
        string_of(&chars_of(s))
    }
}

/// Why no plan can be made.
#[derive(Debug, PartialEq)]
pub enum PlanError {
    /// No design unit has that name.
    UnknownUnit(Identifier),
    /// No entity has that name.
    UnknownEntity(Identifier),
    /// The unit of that name is no entity.
    BadEntity(Identifier),
    /// The entity has no ports: it is a testbench and cannot be the top.
    BadTop(Identifier),
    /// The entity has ports and cannot be the testbench, or it is a
    /// testbench that tests no entity.
    BadTestbench(Identifier),
    /// There is not exactly one of a kind: those that were found.
    Ambiguous(AmbiguousKind, Vec<Identifier>),
    /// A fileset that is asked for cannot be made: its name, and why.
    BadFileset(String, FilesetError),
}

/// Why no plan can be made, over plain sequences.
pub enum Flaw {
    UnknownUnit(Identifier),
    UnknownEntity(Identifier),
    BadEntity(Identifier),
    BadTop(Identifier),
    BadTestbench(Identifier),
    Ambiguous(AmbiguousKind, Seq<Identifier>),
    BadFileset(Seq<char>, FilesetError),
}

impl View for PlanError {
    type V = Flaw;

    open spec fn view(&self) -> Flaw {
        match self {
            PlanError::UnknownUnit(id) => Flaw::UnknownUnit(*id),
            PlanError::UnknownEntity(id) => Flaw::UnknownEntity(*id),
            PlanError::BadEntity(id) => Flaw::BadEntity(*id),
            PlanError::BadTop(id) => Flaw::BadTop(*id),
            PlanError::BadTestbench(id) => Flaw::BadTestbench(*id),
            PlanError::Ambiguous(kind, list) => Flaw::Ambiguous(*kind, list@),
            PlanError::BadFileset(name, why) => Flaw::BadFileset(name@, *why),
        }
    }
}

/// The names `list[..n]`, each on a line of its own after a tab.
pub open spec fn names_text(list: Seq<Identifier>, n: int) -> Seq<char>
    decreases n,
{
    if n <= 0 {
        Seq::empty()
    } else {
        names_text(list, n - 1) + seq!['\t'] + list[n - 1].lexeme() + seq!['\n']
    }
}

/// An error of a plan in words, with the names as they are written.
pub open spec fn flaw_text(e: Flaw) -> Seq<char> {
    match e {
        Flaw::UnknownUnit(id) => "no unit named '"@ + id.lexeme() + "'"@,
        Flaw::UnknownEntity(id) => "no entity named '"@ + id.lexeme() + "'"@,
        Flaw::BadEntity(id) => "unit '"@ + id.lexeme() + "' is not an entity"@,
        Flaw::BadTop(id) => "entity '"@ + id.lexeme()
            + "' is a testbench and cannot be top; use --bench"@,
        Flaw::BadTestbench(id) => "entity '"@ + id.lexeme() + "' cannot be bench; use --top"@,
        Flaw::Ambiguous(kind, list) => "not exactly one of the "@ + (match kind {
            AmbiguousKind::Testbenches => "testbenches"@,
            AmbiguousKind::Roots => "roots"@,
            AmbiguousKind::Tops => "tops"@,
        }) + " was found:\n"@ + names_text(list, list.len() as int),
        Flaw::BadFileset(name, why) => "fileset '"@ + name + "' cannot be made: "@ + (match why {
            FilesetError::MissingSeparator => "no '=' stands after its name"@,
            FilesetError::EmptyName => "its name is empty"@,
            FilesetError::InvalidPattern => "its pattern is not well written"@,
        }),
    }
}

impl PlanError {
    /// The error in words, with the names as they are written.
    pub fn to_string(&self) -> (s: String)
        ensures
            s@ == flaw_text(self@),
    {
        let mut out: Vec<char> = Vec::new();
        match self {
            PlanError::UnknownUnit(id) => {
                extend_str(&mut out, "no unit named '");
                extend_str(&mut out, id.to_string().as_str());
                extend_str(&mut out, "'");
            },
            PlanError::UnknownEntity(id) => {
                extend_str(&mut out, "no entity named '");
                extend_str(&mut out, id.to_string().as_str());
                extend_str(&mut out, "'");
            },
            PlanError::BadEntity(id) => {
                extend_str(&mut out, "unit '");
                extend_str(&mut out, id.to_string().as_str());
                extend_str(&mut out, "' is not an entity");
            },
            PlanError::BadTop(id) => {
                extend_str(&mut out, "entity '");
                extend_str(&mut out, id.to_string().as_str());
                extend_str(&mut out, "' is a testbench and cannot be top; use --bench");
            },
            PlanError::BadTestbench(id) => {
                extend_str(&mut out, "entity '");
                extend_str(&mut out, id.to_string().as_str());
                extend_str(&mut out, "' cannot be bench; use --top");
            },
            PlanError::Ambiguous(kind, list) => {
                extend_str(&mut out, "not exactly one of the ");
                extend_str(&mut out, kind.to_string().as_str());
                extend_str(&mut out, " was found:\n");
                let ghost head = out@;
                let mut i: usize = 0;
                assert(out@ =~= head + names_text(list@, 0));
                while i < list.len()
                    invariant
                        i <= list.len(),
                        out@ == head + names_text(list@, i as int),
                    decreases list.len() - i,
                {
                    out.push('\t');
                    extend_str(&mut out, list[i].to_string().as_str());
                    out.push('\n');
                    assert(out@ =~= head + names_text(list@, i + 1));
                    i += 1;
                }
            },
            PlanError::BadFileset(name, why) => {
                extend_str(&mut out, "fileset '");
                extend_str(&mut out, name.as_str());
                extend_str(&mut out, "' cannot be made: ");
                let words = match why {
                    FilesetError::MissingSeparator => "no '=' stands after its name",
                    FilesetError::EmptyName => "its name is empty",
                    FilesetError::InvalidPattern => "its pattern is not well written",
                };
                extend_str(&mut out, words);
            },
        }
        string_of(&out)
    }
}

/// The top of the design and the testbench that were selected.
#[derive(Debug, Clone, Copy, PartialEq, Eq, Structural)]
pub struct Selection {
    pub top: usize,
    pub bench: Option<usize>,
}

/// What a node can be asked to be.
#[derive(Debug, Clone, Copy, PartialEq, Eq, Structural)]
pub enum NodeKind {
    /// An entity.
    Entity,
    /// An entity without ports: a testbench.
    Bench,
    /// An entity with ports.
    Design,
}

impl UnitGraph {
    /// Whether node `k` is of the kind `kind`.
    pub open spec fn is_kind(&self, k: usize, kind: NodeKind) -> bool {
        k < self.nodes@.len() && self.nodes@[k as int].unit < self.units@.len()
            && match self.units@[self.nodes@[k as int].unit as int].symbol {
            VHDLSymbol::Entity(e) => match kind {
                NodeKind::Entity => true,
                NodeKind::Bench => e.spec_is_testbench(),
                NodeKind::Design => !e.spec_is_testbench(),
            },
            _ => false,
        }
    }

    /// The nodes of the kind `kind` among the first `n` of `list`.
    pub open spec fn keep(&self, list: Seq<usize>, kind: NodeKind, n: int) -> Seq<usize>
        decreases n,
    {
        if n <= 0 {
            Seq::empty()
        } else if self.is_kind(list[n - 1], kind) {
            self.keep(list, kind, n - 1).push(list[n - 1])
        } else {
            self.keep(list, kind, n - 1)
        }
    }

    /// The nodes of the kind `kind` among `list`, in their order.
    pub open spec fn of_kind(&self, list: Seq<usize>, kind: NodeKind) -> Seq<usize> {
        self.keep(list, kind, list.len() as int)
    }

    /// The names of the nodes `list`.
    pub open spec fn names(&self, list: Seq<usize>) -> Seq<Identifier> {
        list.map_values(|k: usize| self.graph.keys@[k as int])
    }

    /// The entities on which nothing depends.
    pub open spec fn entity_roots(&self) -> Seq<usize> {
        self.of_kind(roots_below(self.graph.edges@, self.graph.keys@.len() as int), NodeKind::Entity)
    }

    /// The testbench that a plan uses, before the top is looked at.
    ///
    /// A testbench that is asked for by name must be an entity without
    /// ports. If neither testbench nor top is asked for, the one entity on
    /// which nothing depends is the testbench if it has no ports; of
    /// several such entities none can be chosen.
    pub open spec fn spec_bench(&self, bench: Option<Identifier>, top: Option<Identifier>) -> Result<
        Option<usize>,
        Flaw,
    > {
        match bench {
            Some(id) => {
                let b = node_named(self.graph.keys@, id, 0);
                if b >= self.graph.keys@.len() {
                    Err(Flaw::UnknownEntity(id))
                } else if !self.is_kind(b as usize, NodeKind::Entity) {
                    Err(Flaw::BadEntity(id))
                } else if !self.is_kind(b as usize, NodeKind::Bench) {
                    Err(Flaw::BadTestbench(id))
                } else {
                    Ok(Some(b as usize))
                }
            },
            None => match top {
                Some(_) => Ok(None),
                None => {
                    let r = self.entity_roots();
                    if r.len() == 0 {
                        Ok(None)
                    } else if r.len() == 1 {
                        if self.is_kind(r[0], NodeKind::Bench) {
                            Ok(Some(r[0]))
                        } else {
                            Ok(None)
                        }
                    } else if self.of_kind(r, NodeKind::Bench).len() == r.len() {
                        Err(Flaw::Ambiguous(AmbiguousKind::Testbenches, self.names(r)))
                    } else {
                        Err(Flaw::Ambiguous(AmbiguousKind::Roots, self.names(r)))
                    }
                },
            },
        }
    }

    /// The top and the testbench that a plan uses.
    ///
    /// A top that is asked for by name must be an entity with ports; the
    /// testbench is then the one testbench that depends on it, if no
    /// testbench was asked for. If no top is asked for, it is the one
    /// entity that the testbench depends on; or, without a testbench, the
    /// one entity on which nothing depends.
    pub open spec fn spec_select(&self, bench: Option<Identifier>, top: Option<Identifier>) -> Result<
        Selection,
        Flaw,
    > {
        match self.spec_bench(bench, top) {
            Err(e) => Err(e),
            Ok(found) => match top {
                Some(id) => {
                    let t = node_named(self.graph.keys@, id, 0);
                    if t >= self.graph.keys@.len() {
                        Err(Flaw::UnknownEntity(id))
                    } else if !self.is_kind(t as usize, NodeKind::Entity) {
                        Err(Flaw::BadEntity(id))
                    } else if self.is_kind(t as usize, NodeKind::Bench) {
                        Err(Flaw::BadTop(id))
                    } else {
                        match found {
                            Some(b) => Ok(Selection { top: t as usize, bench: Some(b) }),
                            None => {
                                let c = self.of_kind(
                                    targets(
                                        self.graph.edges@,
                                        t as usize,
                                        self.graph.edges@.len() as int,
                                    ),
                                    NodeKind::Bench,
                                );
                                if c.len() == 0 {
                                    Ok(Selection { top: t as usize, bench: None })
                                } else if c.len() == 1 {
                                    Ok(Selection { top: t as usize, bench: Some(c[0]) })
                                } else {
                                    Err(Flaw::Ambiguous(AmbiguousKind::Testbenches, self.names(c)))
                                }
                            },
                        }
                    }
                },
                None => match found {
                    Some(b) => {
                        let c = self.of_kind(
                            sources(self.graph.edges@, b, self.graph.edges@.len() as int),
                            NodeKind::Entity,
                        );
                        if c.len() == 1 {
                            Ok(Selection { top: c[0], bench: Some(b) })
                        } else if c.len() == 0 {
                            Err(Flaw::BadTestbench(self.graph.keys@[b as int]))
                        } else {
                            Err(Flaw::Ambiguous(AmbiguousKind::Tops, self.names(c)))
                        }
                    },
                    None => {
                        let r = self.entity_roots();
                        if r.len() == 1 {
                            Ok(Selection { top: r[0], bench: None })
                        } else {
                            Err(Flaw::Ambiguous(AmbiguousKind::Roots, self.names(r)))
                        }
                    },
                },
            },
        }
    }

    /// Whether node `k` is of the kind `kind`.
    pub fn check_kind(&self, k: usize, kind: NodeKind) -> (r: bool)
        ensures
            r == self.is_kind(k, kind),
    {
        if k >= self.nodes.len() {
            return false;
        }
        let u = self.nodes[k].unit;
        if u >= self.units.len() {
            return false;
        }
        match &self.units[u].symbol {
            VHDLSymbol::Entity(e) => match kind {
                NodeKind::Entity => true,
                NodeKind::Bench => e.is_testbench(),
                NodeKind::Design => !e.is_testbench(),
            },
            _ => false,
        }
    }

    /// The nodes of the kind `kind` among `list`, in their order.
    pub fn filter_kind(&self, list: &Vec<usize>, kind: NodeKind) -> (r: Vec<usize>)
        ensures
            r@ == self.of_kind(list@, kind),
    {
        let mut out: Vec<usize> = Vec::new();
        let mut i: usize = 0;
        while i < list.len()
            invariant
                i <= list.len(),
                out@ == self.keep(list@, kind, i as int),
            decreases list.len() - i,
        {
            if self.check_kind(list[i], kind) {
                out.push(list[i]);
            }
            i += 1;
        }
        out
    }

    /// The names of the nodes `list`.
    pub fn names_of(&self, list: &Vec<usize>) -> (r: Vec<Identifier>)
        requires
            forall|i: int| 0 <= i < list@.len() ==> list@[i] < self.graph.keys@.len(),
        ensures
            r@ == self.names(list@),
    {
        let mut out: Vec<Identifier> = Vec::new();
        let mut i: usize = 0;
        while i < list.len()
            invariant
                i <= list.len(),
                forall|i: int| 0 <= i < list@.len() ==> list@[i] < self.graph.keys@.len(),
                out@.len() == i,
                forall|j: int| 0 <= j < i ==> out@[j] == self.graph.keys@[list@[j] as int],
            decreases list.len() - i,
        {
            out.push(self.graph.keys[list[i]].clone());
            i += 1;
        }
        assert(out@ =~= self.names(list@));
        out
    }

    /// Finds the node of the name `name`.
    pub fn find(&self, name: &Identifier) -> (r: usize)
        ensures
            r == node_named(self.graph.keys@, *name, 0),
            r <= self.graph.keys@.len(),
    {
        let mut i: usize = 0;
        while i < self.graph.keys.len()
            invariant
                i <= self.graph.keys.len(),
                node_named(self.graph.keys@, *name, i as int) == node_named(
                    self.graph.keys@,
                    *name,
                    0,
                ),
            decreases self.graph.keys.len() - i,
        {
            if self.graph.keys[i].matches(name) {
                return i;
            }
            i += 1;
        }
        i
    }
}

/// The nodes kept of a list are nodes of the list.
pub proof fn lemma_keep_bounded(g: &UnitGraph, list: Seq<usize>, kind: NodeKind, n: int)
    requires
        0 <= n <= list.len(),
    ensures
        g.keep(list, kind, n).len() <= n,
        forall|i: int|
            0 <= i < g.keep(list, kind, n).len() ==> g.is_kind(
                #[trigger] g.keep(list, kind, n)[i],
                kind,
            ),
    decreases n,
{
    if n > 0 {
        lemma_keep_bounded(g, list, kind, n - 1);
    }
}

impl UnitGraph {
    /// The error that there is not exactly one of the nodes `list`.
    fn ambiguous(&self, kind: AmbiguousKind, list: &Vec<usize>) -> (r: PlanError)
        requires
            forall|i: int| 0 <= i < list@.len() ==> list@[i] < self.graph.keys@.len(),
        ensures
            r@ == Flaw::Ambiguous(kind, self.names(list@)),
    {
        PlanError::Ambiguous(kind, self.names_of(list))
    }

    /// The entities on which nothing depends, in the order of the nodes.
    pub fn find_entity_roots(&self) -> (r: Vec<usize>)
        requires
            self.wf(),
        ensures
            r@ == self.entity_roots(),
            forall|i: int| 0 <= i < r@.len() ==> r@[i] < self.graph.keys@.len(),
    {
        let roots = self.graph.roots();
        let r = self.filter_kind(&roots, NodeKind::Entity);
        proof {
            lemma_keep_bounded(self, roots@, NodeKind::Entity, roots@.len() as int);
        }
        r
    }

    /// Selects the testbench, as far as that can be done before the top
    /// is looked at.
    pub fn detect_bench(&self, bench: &Option<Identifier>, top: &Option<Identifier>) -> (r: Result<
        Option<usize>,
        PlanError,
    >)
        requires
            self.wf(),
        ensures
            match r {
                Ok(b) => self.spec_bench(*bench, *top) == Ok::<Option<usize>, Flaw>(b),
                Err(e) => self.spec_bench(*bench, *top) == Err::<Option<usize>, Flaw>(e@),
            },
    {
        match bench {
            Some(id) => {
                let b = self.find(id);
                if b >= self.graph.keys.len() {
                    Err(PlanError::UnknownEntity(id.clone()))
                } else if !self.check_kind(b, NodeKind::Entity) {
                    Err(PlanError::BadEntity(id.clone()))
                } else if !self.check_kind(b, NodeKind::Bench) {
                    Err(PlanError::BadTestbench(id.clone()))
                } else {
                    Ok(Some(b))
                }
            },
            None => match top {
                Some(_) => Ok(None),
                None => {
                    let r = self.find_entity_roots();
                    if r.len() == 0 {
                        Ok(None)
                    } else if r.len() == 1 {
                        if self.check_kind(r[0], NodeKind::Bench) {
                            Ok(Some(r[0]))
                        } else {
                            Ok(None)
                        }
                    } else if self.filter_kind(&r, NodeKind::Bench).len() == r.len() {
                        Err(self.ambiguous(AmbiguousKind::Testbenches, &r))
                    } else {
                        Err(self.ambiguous(AmbiguousKind::Roots, &r))
                    }
                },
            },
        }
    }

    /// Finds the top of the design from the testbench `bench`: the one
    /// entity that the testbench depends on.
    pub fn detect_top(&self, bench: usize) -> (r: Result<usize, PlanError>)
        requires
            self.wf(),
            bench < self.graph.keys@.len(),
        ensures
            ({
                let c = self.of_kind(
                    sources(self.graph.edges@, bench, self.graph.edges@.len() as int),
                    NodeKind::Entity,
                );
                match r {
                    Ok(t) => c == seq![t],
                    Err(e) => c.len() != 1 && e@ == if c.len() == 0 {
                        Flaw::BadTestbench(self.graph.keys@[bench as int])
                    } else {
                        Flaw::Ambiguous(AmbiguousKind::Tops, self.names(c))
                    },
                }
            }),
    {
        let preds = self.graph.predecessors(bench);
        let c = self.filter_kind(&preds, NodeKind::Entity);
        proof {
            lemma_keep_bounded(self, preds@, NodeKind::Entity, preds@.len() as int);
        }
        if c.len() == 1 {
            assert(c@ =~= seq![c@[0]]);
            Ok(c[0])
        } else if c.len() == 0 {
            Err(PlanError::BadTestbench(self.graph.keys[bench].clone()))
        } else {
            Err(self.ambiguous(AmbiguousKind::Tops, &c))
        }
    }

    /// Selects the top of the design and the testbench.
    pub fn select(&self, bench: &Option<Identifier>, top: &Option<Identifier>) -> (r: Result<
        Selection,
        PlanError,
    >)
        requires
            self.wf(),
        ensures
            match r {
                Ok(s) => self.spec_select(*bench, *top) == Ok::<Selection, Flaw>(s) && s.top
                    < self.graph.keys@.len() && (s.bench is Some ==> s.bench->0
                    < self.graph.keys@.len()),
                Err(e) => self.spec_select(*bench, *top) == Err::<Selection, Flaw>(e@),
            },
    {
        let found = match self.detect_bench(bench, top) {
            Err(e) => {
                return Err(e);
            },
            Ok(b) => b,
        };
        match top {
            Some(id) => {
                let t = self.find(id);
                if t >= self.graph.keys.len() {
                    Err(PlanError::UnknownEntity(id.clone()))
                } else if !self.check_kind(t, NodeKind::Entity) {
                    Err(PlanError::BadEntity(id.clone()))
                } else if self.check_kind(t, NodeKind::Bench) {
                    Err(PlanError::BadTop(id.clone()))
                } else {
                    match found {
                        Some(b) => {
                            assert(self.is_kind(b, NodeKind::Bench));
                            Ok(Selection { top: t, bench: Some(b) })
                        },
                        None => {
                            let succ = self.graph.successors(t);
                            let c = self.filter_kind(&succ, NodeKind::Bench);
                            proof {
                                lemma_keep_bounded(
                                    self,
                                    succ@,
                                    NodeKind::Bench,
                                    succ@.len() as int,
                                );
                            }
                            if c.len() == 0 {
                                Ok(Selection { top: t, bench: None })
                            } else if c.len() == 1 {
                                Ok(Selection { top: t, bench: Some(c[0]) })
                            } else {
                                Err(self.ambiguous(AmbiguousKind::Testbenches, &c))
                            }
                        },
                    }
                }
            },
            None => match found {
                Some(b) => {
                    assert(b < self.graph.keys@.len()) by {
                        if bench is None {
                            let roots = roots_below(
                                self.graph.edges@,
                                self.graph.keys@.len() as int,
                            );
                            lemma_keep_bounded(
                                self,
                                roots,
                                NodeKind::Entity,
                                roots.len() as int,
                            );
                        }
                    }
                    match self.detect_top(b) {
                        Ok(t) => {
                            let ghost c = self.of_kind(
                                sources(self.graph.edges@, b, self.graph.edges@.len() as int),
                                NodeKind::Entity,
                            );
                            proof {
                                let preds = sources(
                                    self.graph.edges@,
                                    b,
                                    self.graph.edges@.len() as int,
                                );
                                lemma_keep_bounded(
                                    self,
                                    preds,
                                    NodeKind::Entity,
                                    preds.len() as int,
                                );
                                assert(c[0] == t);
                            }
                            Ok(Selection { top: t, bench: Some(b) })
                        },
                        Err(e) => Err(e),
                    }
                },
                None => {
                    let r = self.find_entity_roots();
                    if r.len() == 1 {
                        Ok(Selection { top: r[0], bench: None })
                    } else {
                        Err(self.ambiguous(AmbiguousKind::Roots, &r))
                    }
                },
            },
        }
    }
}

/// Where several entities on which nothing depends are all testbenches, and
/// neither a top nor a testbench is asked for, the testbenches are ambiguous.
pub proof fn lemma_testbench_roots_ambiguous(g: &UnitGraph)
    requires
        g.entity_roots().len() > 1,
        g.of_kind(g.entity_roots(), NodeKind::Bench).len() == g.entity_roots().len(),
    ensures
        g.spec_select(None, None) == Err::<Selection, Flaw>(
            Flaw::Ambiguous(AmbiguousKind::Testbenches, g.names(g.entity_roots())),
        ),
{
}

/// Where one entity is the only one on which nothing depends, and it has
/// ports, and neither a top nor a testbench is asked for, that entity is
/// the top, and there is no testbench.
pub proof fn lemma_natural_top(g: &UnitGraph)
    requires
        g.entity_roots().len() == 1,
        g.is_kind(g.entity_roots()[0], NodeKind::Design),
    ensures
        g.spec_select(None, None) == Ok::<Selection, Flaw>(
            Selection { top: g.entity_roots()[0], bench: None },
        ),
{
}

/// A testbench that is asked for as the top is refused, whatever else is
/// asked for, unless the testbench that is asked for is refused first.
pub proof fn lemma_top_testbench_refused(g: &UnitGraph, bench: Option<Identifier>, top: Identifier)
    requires
        node_named(g.graph.keys@, top, 0) < g.graph.keys@.len(),
        g.is_kind(node_named(g.graph.keys@, top, 0) as usize, NodeKind::Bench),
        g.spec_bench(bench, Some(top)) is Ok,
    ensures
        g.spec_select(bench, Some(top)) == Err::<Selection, Flaw>(Flaw::BadTop(top)),
{
}

/// What a reference asks for depends on the name after its dot alone:
/// units whose references have the same names after the dot ask for the
/// same nodes, whatever stands before the dot.
pub proof fn lemma_suffix_alone(
    keys: Seq<Identifier>,
    a: crate::vhdl::symbol::Unit,
    b: crate::vhdl::symbol::Unit,
    u: usize,
    v: usize,
)
    requires
        crate::commands::unitgraph::home(a) == crate::commands::unitgraph::home(b),
        crate::commands::unitgraph::suffixes(a.refs()) == crate::commands::unitgraph::suffixes(
            b.refs(),
        ),
    ensures
        crate::commands::unitgraph::asks(keys, a, 3, u, v) == crate::commands::unitgraph::asks(
            keys,
            b,
            3,
            u,
            v,
        ),
{
}

/// The fileset of a VHDL file: that of simulation if the file is named as
/// testbenches are, else that of the design.
pub open spec fn hdl_fileset(path: Seq<char>) -> Seq<char> {
    if spec_is_bench_name(path) {
        "VHDL-SIM"@
    } else {
        "VHDL-RTL"@
    }
}

/// The row of the blueprint for a VHDL file: its fileset, its library,
/// and its path.
pub open spec fn file_row(f: IpFile) -> RowView {
    RowView { fileset: hdl_fileset(f.path@), name: f.library@, path: f.path@ }
}

/// The rows of the first `n` of the files `files`.
pub open spec fn node_rows(files: Seq<IpFile>, n: int) -> Seq<RowView>
    decreases n,
{
    if n <= 0 {
        Seq::empty()
    } else {
        node_rows(files, n - 1).push(file_row(files[n - 1]))
    }
}

/// The rows of the files of the first `n` nodes of `order`, node by node.
pub open spec fn hdl_rows(nodes: Seq<HashNode>, order: Seq<usize>, n: int) -> Seq<RowView>
    decreases n,
{
    if n <= 0 {
        Seq::empty()
    } else {
        hdl_rows(nodes, order, n - 1) + node_rows(
            nodes[order[n - 1] as int].files@,
            nodes[order[n - 1] as int].files@.len() as int,
        )
    }
}

/// The place in `order` of the node whose file row `p` of the rows of the
/// first `n` nodes is a row of.
pub open spec fn row_place(nodes: Seq<HashNode>, order: Seq<usize>, n: int, p: int) -> int
    decreases n,
{
    if n <= 0 {
        0
    } else if p >= hdl_rows(nodes, order, n - 1).len() {
        n - 1
    } else {
        row_place(nodes, order, n - 1, p)
    }
}

/// The rows come node by node: a row further down belongs to a node that
/// has no earlier place, and each row is the row of a file of its node.
pub proof fn lemma_row_place(nodes: Seq<HashNode>, order: Seq<usize>, n: int, p: int, q: int)
    requires
        0 <= n <= order.len(),
        0 <= p <= q < hdl_rows(nodes, order, n).len(),
    ensures
        0 <= row_place(nodes, order, n, p) <= row_place(nodes, order, n, q) < n,
        exists|f: int|
            0 <= f < nodes[order[row_place(nodes, order, n, p)] as int].files@.len() && hdl_rows(
                nodes,
                order,
                n,
            )[p] == file_row(#[trigger] nodes[order[row_place(nodes, order, n, p)] as int].files@[f]),
    decreases n,
{
    if n > 0 {
        let before = hdl_rows(nodes, order, n - 1);
        let files = nodes[order[n - 1] as int].files@;
        lemma_node_rows(files, files.len() as int);
        if q < before.len() {
            lemma_row_place(nodes, order, n - 1, p, q);
            assert(hdl_rows(nodes, order, n)[p] == before[p]);
        } else if p < before.len() {
            lemma_row_place(nodes, order, n - 1, p, p);
            assert(hdl_rows(nodes, order, n)[p] == before[p]);
        } else {
            let f = p - before.len();
            assert(hdl_rows(nodes, order, n)[p] == node_rows(files, files.len() as int)[f]);
            assert(hdl_rows(nodes, order, n)[p] == file_row(files[f]));
        }
    }
}

/// The rows of a node are the rows of its files, one each.
pub proof fn lemma_node_rows(files: Seq<IpFile>, n: int)
    requires
        0 <= n <= files.len(),
    ensures
        node_rows(files, n).len() == n,
        forall|f: int| 0 <= f < n ==> node_rows(files, n)[f] == file_row(files[f]),
    decreases n,
{
    if n > 0 {
        lemma_node_rows(files, n - 1);
    }
}

/// In a blueprint made in an order in which each node comes after the
/// nodes it depends on, the files of a unit come before the files of
/// every unit that depends on it.
pub proof fn lemma_blueprint_order(
    g: &UnitGraph,
    order: Seq<usize>,
    p: int,
    q: int,
)
    requires
        forall|i: int, j: int|
            0 <= i < order.len() && 0 <= j < order.len() && #[trigger] g.graph.edge(
                order[i],
                order[j],
            ) ==> i < j,
        0 <= p < hdl_rows(g.nodes@, order, order.len() as int).len(),
        0 <= q < hdl_rows(g.nodes@, order, order.len() as int).len(),
        g.graph.edge(
            order[row_place(g.nodes@, order, order.len() as int, p)],
            order[row_place(g.nodes@, order, order.len() as int, q)],
        ),
    ensures
        p < q,
{
    let n = order.len() as int;
    lemma_row_place(g.nodes@, order, n, p, p);
    lemma_row_place(g.nodes@, order, n, q, q);
    if q <= p {
        lemma_row_place(g.nodes@, order, n, q, p);
    }
}

/// The rows of the VHDL files of the nodes `order`, node by node.
pub fn make_hdl_rows(g: &UnitGraph, order: &Vec<usize>) -> (r: Vec<Row>)
    requires
        forall|i: int| 0 <= i < order@.len() ==> order@[i] < g.nodes@.len(),
    ensures
        crate::fileset::rows_view(r@) == hdl_rows(g.nodes@, order@, order@.len() as int),
{
    let mut out: Vec<Row> = Vec::new();
    let mut i: usize = 0;
    assert(crate::fileset::rows_view(out@) =~= Seq::<RowView>::empty());
    while i < order.len()
        invariant
            i <= order.len(),
            forall|i: int| 0 <= i < order@.len() ==> order@[i] < g.nodes@.len(),
            crate::fileset::rows_view(out@) == hdl_rows(g.nodes@, order@, i as int),
        decreases order.len() - i,
    {
        let node = &g.nodes[order[i]];
        let ghost before = crate::fileset::rows_view(out@);
        let mut f: usize = 0;
        assert(before + node_rows(node.files@, 0) =~= before);
        while f < node.files.len()
            invariant
                f <= node.files.len(),
                crate::fileset::rows_view(out@) == before + node_rows(node.files@, f as int),
            decreases node.files.len() - f,
        {
            let file = &node.files[f];
            let kind = if is_rtl(file.path.as_str()) {
                "VHDL-RTL"
            } else {
                "VHDL-SIM"
            };
            let row = Row {
                fileset: string_of(&chars_of(kind)),
                name: file.library.clone(),
                path: file.path.clone(),
            };
            proof {
                assert(row@ == file_row(*file));
                assert(crate::fileset::rows_view(out@.push(row)) =~= crate::fileset::rows_view(
                    out@,
                ).push(row@));
                assert((before + node_rows(node.files@, f as int)).push(row@) =~= before
                    + node_rows(node.files@, f + 1));
            }
            out.push(row);
            f += 1;
        }
        i += 1;
    }
    out
}

/// The text of the file that tells the tools which top and testbench
/// were selected, and which plugin, if any.
pub open spec fn env_text(top: Seq<char>, bench: Seq<char>, plugin: Option<Seq<char>>) -> Seq<char> {
    "ORBIT_TOP="@ + top + seq!['\n'] + "ORBIT_BENCH="@ + bench + seq!['\n'] + match plugin {
        Some(alias) => "ORBIT_PLUGIN="@ + alias + seq!['\n'],
        None => Seq::empty(),
    }
}

/// Writes the file that tells the tools which top and testbench were
/// selected. An absent testbench is written as an empty name.
pub fn make_env(top: &str, bench: &str, plugin: &Option<String>) -> (r: String)
    ensures
        r@ == env_text(
            top@,
            bench@,
            match plugin {
                Some(p) => Some(p@),
                None => None,
            },
        ),
{
    let mut out: Vec<char> = Vec::new();
    extend_str(&mut out, "ORBIT_TOP=");
    extend_str(&mut out, top);
    out.push('\n');
    extend_str(&mut out, "ORBIT_BENCH=");
    extend_str(&mut out, bench);
    out.push('\n');
    match plugin {
        Some(alias) => {
            extend_str(&mut out, "ORBIT_PLUGIN=");
            extend_str(&mut out, alias.as_str());
            out.push('\n');
        },
        None => {},
    }
    string_of(&out)
}

/// A source file as it was read: its path, the library that its units go
/// to, and its text.
#[derive(Debug, PartialEq)]
pub struct SourceFile {
    pub path: String,
    pub library: String,
    pub contents: String,
}

/// A fileset as it is asked for: a name and a pattern, in which variables
/// may stand.
#[derive(Debug, PartialEq)]
pub struct FilesetSpec {
    pub name: String,
    pub pattern: String,
}

impl FilesetSpec {
    /// Reads a fileset written as `<name>=<pattern>`; the first `=` parts
    /// the name from the pattern. It is read unless there is no `=` or
    /// the name is empty. The pattern is kept as it is written.
    pub fn from_str(s: &str) -> (r: Result<FilesetSpec, FilesetError>)
        ensures
            ({
                let i = crate::fileset::separator_index(s@, 0);
                match r {
                    Ok(spec) => 0 < i < s@.len() && spec.name@ == s@.subrange(0, i)
                        && spec.pattern@ == s@.subrange(i + 1, s@.len() as int),
                    Err(e) => if i >= s@.len() {
                        e == FilesetError::MissingSeparator
                    } else {
                        i == 0 && e == FilesetError::EmptyName
                    },
                }
            }),
    {
        let v = chars_of(s);
        let mut i: usize = 0;
        while i < v.len() && v[i] != '='
            invariant
                i <= v.len(),
                crate::fileset::separator_index(v@, i as int) == crate::fileset::separator_index(
                    v@,
                    0,
                ),
            decreases v.len() - i,
        {
            i += 1;
        }
        if i >= v.len() {
            return Err(FilesetError::MissingSeparator);
        }
        if i == 0 {
            return Err(FilesetError::EmptyName);
        }
        Ok(
            FilesetSpec {
                name: crate::text::substring(&v, 0, i),
                pattern: crate::text::substring(&v, i + 1, v.len()),
            },
        )
    }
}

/// What is asked of a plan.
#[derive(Debug, PartialEq)]
pub struct Plan {
    pub plugin: Option<String>,
    pub bench: Option<Identifier>,
    pub top: Option<Identifier>,
    pub clean: bool,
    pub build_dir: Option<String>,
    pub filesets: Option<Vec<FilesetSpec>>,
}

/// The units of a list over plain sequences.
pub open spec fn units_view(us: Seq<DesignUnit>) -> Seq<crate::vhdl::symbol::Unit> {
    us.map_values(|u: DesignUnit| u.symbol@)
}

/// Whether `us` are the design units of the file `f`: none if it is no
/// VHDL file, else those that the parser reads from its text.
pub open spec fn file_units(f: SourceFile, us: Seq<DesignUnit>) -> bool {
    if !crate::util::filesystem::spec_is_vhdl(f.path@) {
        us.len() == 0
    } else {
        &&& forall|i: int|
            0 <= i < us.len() ==> (#[trigger] us[i]).file.path@ == f.path@ && us[i].file.library@
                == f.library@
        &&& exists|items: Seq<crate::vhdl::lexer::Lexed>|
            crate::vhdl::lexer::lexed_all(f.contents@, items) && units_view(us)
                == crate::vhdl::parser::spec_parse(
                crate::vhdl::lexer::tokens_of(items, items.len() as int, false),
            ).0
    }
}

/// Whether `units` are the design units of the first `n` files, file
/// after file.
pub open spec fn reads(files: Seq<SourceFile>, n: int, units: Seq<DesignUnit>) -> bool
    decreases n,
{
    if n <= 0 {
        units.len() == 0
    } else {
        exists|k: int|
            0 <= k <= units.len() && reads(files, n - 1, #[trigger] units.take(k)) && file_units(
                files[n - 1],
                units.skip(k),
            )
    }
}

/// The variables that a plan sets for the patterns of its filesets: the
/// name of the top and the name of the testbench.
pub open spec fn plan_variables(top: Seq<char>, bench: Seq<char>) -> Map<Seq<char>, Seq<char>> {
    Map::empty().insert("orbit.top"@, top).insert("orbit.bench"@, bench)
}

/// The patterns of the filesets `specs` as they are written once the
/// variables of the table are replaced by their values.
pub open spec fn pattern_texts(specs: Seq<FilesetSpec>, table: Map<Seq<char>, Seq<char>>) -> Seq<
    Seq<char>,
> {
    Seq::new(specs.len(), |k: int| substitute_from(specs[k].pattern@, 0, table, Seq::empty()))
}

/// The filesets made of the first `n` of the filesets `specs` that are
/// asked for, given their patterns `sources` as they are written and
/// whether each pattern compiles.
///
/// The filesets stand in the order of `specs`, each with its name and
/// its pattern as written. The first fileset that has no name, or whose
/// pattern does not compile, is refused, and with it the whole list. A
/// place that one of the three lists does not reach gives no fileset.
pub open spec fn assembled(
    specs: Seq<FilesetSpec>,
    sources: Seq<Seq<char>>,
    compiled: Seq<bool>,
    n: int,
) -> Result<Seq<FilesetView>, Flaw>
    decreases n,
{
    if n <= 0 {
        Ok(Seq::empty())
    } else {
        match assembled(specs, sources, compiled, n - 1) {
            Err(e) => Err(e),
            Ok(before) => if n - 1 < specs.len() && n - 1 < sources.len() && n - 1
                < compiled.len() {
                if specs[n - 1].name@.len() == 0 {
                    Err(Flaw::BadFileset(specs[n - 1].name@, FilesetError::EmptyName))
                } else if !compiled[n - 1] {
                    Err(Flaw::BadFileset(specs[n - 1].name@, FilesetError::InvalidPattern))
                } else {
                    Ok(
                        before.push(
                            FilesetView { name: specs[n - 1].name@, pattern: sources[n - 1] },
                        ),
                    )
                }
            } else {
                Ok(before)
            },
        }
    }
}

/// A list of filesets that is refused stays refused, for the same reason,
/// whatever follows.
pub proof fn lemma_assembled_refused(
    specs: Seq<FilesetSpec>,
    sources: Seq<Seq<char>>,
    compiled: Seq<bool>,
    m: int,
    n: int,
)
    requires
        m <= n,
        assembled(specs, sources, compiled, m) is Err,
    ensures
        assembled(specs, sources, compiled, n) == assembled(specs, sources, compiled, m),
    decreases n - m,
{
    if m < n {
        lemma_assembled_refused(specs, sources, compiled, m, n - 1);
    }
}

/// Each fileset that is made has the name of one that is asked for.
pub proof fn lemma_assembled_names(
    specs: Seq<FilesetSpec>,
    sources: Seq<Seq<char>>,
    compiled: Seq<bool>,
    n: int,
)
    ensures
        match assembled(specs, sources, compiled, n) {
            Ok(sets) => forall|i: int|
                0 <= i < sets.len() ==> asked_for(specs, (#[trigger] sets[i]).name),
            Err(_) => true,
        },
    decreases n,
{
    if n > 0 {
        lemma_assembled_names(specs, sources, compiled, n - 1);
        match assembled(specs, sources, compiled, n - 1) {
            Ok(before) => {
                if n - 1 < specs.len() {
                    assert(asked_for(specs, specs[n - 1].name@));
                }
            },
            Err(_) => {},
        }
    }
}

/// A list of filesets is refused for a fileset only.
pub proof fn lemma_assembled_flaw(
    specs: Seq<FilesetSpec>,
    sources: Seq<Seq<char>>,
    compiled: Seq<bool>,
    n: int,
)
    ensures
        match assembled(specs, sources, compiled, n) {
            Ok(_) => true,
            Err(e) => e is BadFileset,
        },
    decreases n,
{
    if n > 0 {
        lemma_assembled_flaw(specs, sources, compiled, n - 1);
    }
}

/// Whether `pattern` is one of the patterns `sources`.
pub open spec fn pattern_among(sources: Seq<Seq<char>>, pattern: Seq<char>) -> bool {
    exists|k: int| 0 <= k < sources.len() && #[trigger] sources[k] == pattern
}

/// The pattern of each fileset that is made is the pattern of one that
/// is asked for, as it is written.
pub proof fn lemma_assembled_patterns(
    specs: Seq<FilesetSpec>,
    sources: Seq<Seq<char>>,
    compiled: Seq<bool>,
    n: int,
)
    ensures
        match assembled(specs, sources, compiled, n) {
            Ok(sets) => forall|i: int|
                0 <= i < sets.len() ==> pattern_among(sources, (#[trigger] sets[i]).pattern),
            Err(_) => true,
        },
    decreases n,
{
    if n > 0 {
        lemma_assembled_patterns(specs, sources, compiled, n - 1);
        match (assembled(specs, sources, compiled, n - 1), assembled(specs, sources, compiled, n)) {
            (Ok(before), Ok(sets)) => {
                assert forall|i: int| 0 <= i < sets.len() implies pattern_among(
                    sources,
                    (#[trigger] sets[i]).pattern,
                ) by {
                    if i < before.len() {
                        assert(sets[i] == before[i]);
                    } else {
                        assert(sets[i].pattern == sources[n - 1]);
                    }
                }
            },
            _ => {},
        }
    }
}

/// The patterns of filesets.
pub open spec fn view_patterns(sets: Seq<FilesetView>) -> Seq<Seq<char>> {
    sets.map_values(|s: FilesetView| s.pattern)
}

/// The names of filesets.
pub open spec fn view_names(sets: Seq<FilesetView>) -> Seq<Seq<char>> {
    sets.map_values(|s: FilesetView| s.name)
}

/// Whether the filesets or the error `r` are what `want` says.
pub open spec fn sets_are(r: Result<Vec<Fileset>, PlanError>, want: Result<Seq<FilesetView>, Flaw>) -> bool {
    match (r, want) {
        (Ok(sets), Ok(views)) => filesets_view(sets@) == views,
        (Err(e), Err(f)) => e@ == f,
        _ => false,
    }
}

/// The rows or the error `r` over plain sequences.
pub open spec fn rows_or_flaw(r: Result<Vec<Row>, PlanError>) -> Result<Seq<RowView>, Flaw> {
    match r {
        Ok(rows) => Ok(crate::fileset::rows_view(rows@)),
        Err(e) => Err(e@),
    }
}

/// The rows of the filesets of a plan for the files `paths`.
///
/// The patterns of the filesets `specs` that are asked for are compiled
/// once the variables `vars` are replaced by their values; `compiled`
/// says of each whether it compiles. Unless one of these filesets is
/// refused, their rows come first, fileset after fileset in the order of
/// `specs`, then those of the filesets `plug` of the plugin in their
/// order; within a fileset the rows stand in the order of the files.
/// `asked` and `offered` say for each fileset and each file whether the
/// file matches.
pub open spec fn rows_asked(
    specs: Seq<FilesetSpec>,
    vars: Map<Seq<char>, Seq<char>>,
    plug: Seq<Fileset>,
    paths: Seq<Seq<char>>,
    compiled: Seq<bool>,
    asked: Seq<Seq<bool>>,
    offered: Seq<Seq<bool>>,
) -> Result<Seq<RowView>, Flaw> {
    match assembled(specs, pattern_texts(specs, vars), compiled, specs.len() as int) {
        Err(e) => Err(e),
        Ok(sets) => Ok(
            all_rows(view_names(sets), paths, asked, sets.len() as int) + all_rows(
                set_names(plug),
                paths,
                offered,
                plug.len() as int,
            ),
        ),
    }
}

/// Whether `compiled`, `asked` and `offered` can be what the crate `glob`
/// answers for the filesets of a plan: which of the patterns that are
/// asked for compile, and which files match the patterns of the filesets
/// that are made of them and of those of the plugin. Each answer that
/// is the same on every machine is that answer.
pub open spec fn answered(
    specs: Seq<FilesetSpec>,
    vars: Map<Seq<char>, Seq<char>>,
    plug: Seq<Fileset>,
    paths: Seq<Seq<char>>,
    compiled: Seq<bool>,
    asked: Seq<Seq<bool>>,
    offered: Seq<Seq<bool>>,
) -> bool {
    let texts = pattern_texts(specs, vars);
    &&& compile_answers(texts, compiled)
    &&& match assembled(specs, texts, compiled, specs.len() as int) {
        Ok(sets) => match_answers(view_patterns(sets), paths, asked),
        Err(_) => true,
    }
    &&& match_answers(set_patterns(plug), paths, offered)
}

/// Whether every answer of the crate `glob` for the filesets of a plan
/// is the same on every machine: no pattern holds two `*` side by side,
/// and neither a pattern nor a path holds a backslash.
pub open spec fn answered_alike(
    specs: Seq<FilesetSpec>,
    vars: Map<Seq<char>, Seq<char>>,
    plug: Seq<Fileset>,
    paths: Seq<Seq<char>>,
) -> bool {
    let texts = pattern_texts(specs, vars);
    &&& all_compile_alike(texts)
    &&& all_match_alike(texts, paths)
    &&& all_match_alike(set_patterns(plug), paths)
}

/// The rows of the filesets of a plan for the files `paths`, by the
/// answers of the crate `glob`: which patterns compile, and which files
/// match them.
pub open spec fn named_rows(
    specs: Seq<FilesetSpec>,
    vars: Map<Seq<char>, Seq<char>>,
    plug: Seq<Fileset>,
    paths: Seq<Seq<char>>,
) -> Result<Seq<RowView>, Flaw> {
    let texts = pattern_texts(specs, vars);
    match assembled(specs, texts, named_compiles(texts), specs.len() as int) {
        Err(e) => Err(e),
        Ok(sets) => rows_asked(
            specs,
            vars,
            plug,
            paths,
            named_compiles(texts),
            named_matches(view_patterns(sets), paths),
            named_matches(set_patterns(plug), paths),
        ),
    }
}

/// Where every answer of the crate `glob` is the same on every machine,
/// the rows of the filesets of a plan are those that its answers give.
pub proof fn lemma_rows_named(
    specs: Seq<FilesetSpec>,
    vars: Map<Seq<char>, Seq<char>>,
    plug: Seq<Fileset>,
    paths: Seq<Seq<char>>,
    compiled: Seq<bool>,
    asked: Seq<Seq<bool>>,
    offered: Seq<Seq<bool>>,
)
    requires
        answered_alike(specs, vars, plug, paths),
        answered(specs, vars, plug, paths, compiled, asked, offered),
    ensures
        rows_asked(specs, vars, plug, paths, compiled, asked, offered) == named_rows(
            specs,
            vars,
            plug,
            paths,
        ),
{
    let texts = pattern_texts(specs, vars);
    lemma_compiles_named(texts, compiled);
    lemma_matches_named(set_patterns(plug), paths, offered);
    match assembled(specs, texts, compiled, specs.len() as int) {
        Ok(sets) => {
            lemma_assembled_patterns(specs, texts, compiled, specs.len() as int);
            let patterns = view_patterns(sets);
            assert forall|s: int, f: int|
                0 <= s < patterns.len() && 0 <= f < paths.len() implies crate::fileset::matches_alike(
                #[trigger] patterns[s],
                #[trigger] paths[f],
                false,
                false,
            ) by {
                assert(pattern_among(texts, sets[s].pattern));
                let k = choose|k: int| 0 <= k < texts.len() && #[trigger] texts[k] == sets[s].pattern;
                assert(crate::fileset::matches_alike(texts[k], paths[f], false, false));
            }
            lemma_matches_named(patterns, paths, asked);
        },
        Err(_) => {},
    }
}

/// The name of the top that was selected, as it is written.
pub open spec fn top_text(keys: Seq<Identifier>, s: Selection) -> Seq<char> {
    keys[s.top as int].lexeme()
}

/// The name of the testbench that was selected, as it is written; empty
/// if there is none.
pub open spec fn bench_text(keys: Seq<Identifier>, s: Selection) -> Seq<char> {
    match s.bench {
        Some(b) => keys[b as int].lexeme(),
        None => Seq::empty(),
    }
}

/// The higher of the two units that were selected: the testbench if there
/// is one, else the top.
pub open spec fn high_of(s: Selection) -> usize {
    match s.bench {
        Some(b) => b,
        None => s.top,
    }
}

/// Whether `g` is the graph of the design units of the files `files`:
/// its units are those that the parser reads from the files, file after
/// file; its nodes are the primary units, each name once; its edges are
/// those that the units ask for, in the order in which they ask, so that
/// one node depends on another exactly where one of its units asks for
/// the other; and each node has the files of its units.
pub open spec fn built(g: UnitGraph, files: Seq<SourceFile>) -> bool {
    &&& g.wf()
    &&& reads(files, files.len() as int, g.units@)
    &&& g.graph.keys@ == crate::commands::unitgraph::node_keys(g.units@, g.units@.len() as int)
    &&& g.graph.edges@ == crate::commands::unitgraph::unit_edges(g.graph.keys@, g.units@)
    &&& forall|u: usize, v: usize|
        #[trigger] g.graph.edge(u, v) <==> crate::commands::unitgraph::linked(
            g.graph.keys@,
            g.units@,
            u,
            v,
        )
    &&& forall|k: int|
        0 <= k < g.nodes@.len() ==> (#[trigger] g.nodes@[k]).files@
            == crate::commands::unitgraph::node_files(g.units@, g.graph.keys@[k])
}

/// The filesets of a list over plain sequences.
pub open spec fn filesets_view(v: Seq<Fileset>) -> Seq<crate::fileset::FilesetView> {
    v.map_values(|f: Fileset| f@)
}

/// Whether a fileset of the name `name` is among those asked for.
pub open spec fn asked_for(specs: Seq<FilesetSpec>, name: Seq<char>) -> bool {
    exists|k: int| 0 <= k < specs.len() && (#[trigger] specs[k]).name@ == name
}

/// Whether a fileset of the name `name` is among the filesets `sets`.
pub open spec fn set_named(sets: Seq<Fileset>, name: Seq<char>) -> bool {
    exists|k: int| 0 <= k < sets.len() && (#[trigger] sets[k]).name@ == name
}

/// Whether `row` is a row of one of the files `files` for a fileset that
/// is asked for or that the plugin has.
pub open spec fn user_row(
    row: RowView,
    files: Seq<String>,
    specs: Option<Vec<FilesetSpec>>,
    plug: Seq<Fileset>,
) -> bool {
    &&& exists|f: int|
        0 <= f < files.len() && row == crate::fileset::fileset_row(
            row.fileset,
            (#[trigger] files[f])@,
        )
    &&& (specs is Some && asked_for(specs->0@, row.fileset)) || set_named(plug, row.fileset)
}

/// The rows of filesets are rows of files for those filesets.
pub proof fn lemma_rows_among(rows: Seq<RowView>, sets: Seq<Fileset>, files: Seq<String>, k: int)
    requires
        crate::fileset::rows_among(
            rows,
            0,
            sets.map_values(|s: Fileset| s.name@),
            files.map_values(|f: String| f@),
        ),
        0 <= k < rows.len(),
    ensures
        set_named(sets, rows[k].fileset),
        exists|f: int|
            0 <= f < files.len() && rows[k] == crate::fileset::fileset_row(
                rows[k].fileset,
                (#[trigger] files[f])@,
            ),
{
    let names = sets.map_values(|s: Fileset| s.name@);
    let paths = files.map_values(|f: String| f@);
    assert(crate::fileset::row_among(rows[k], names, paths));
    let (s, f) = choose|s: int, f: int|
        0 <= s < names.len() && 0 <= f < paths.len() && rows[k] == crate::fileset::fileset_row(
            #[trigger] names[s],
            #[trigger] paths[f],
        );
    assert(names[s] == sets[s].name@);
    assert(paths[f] == files[f]@);
    assert(rows[k] == crate::fileset::fileset_row(rows[k].fileset, files[f]@));
}

/// The plan that was made: the graph of the design units, the top and the
/// testbench, the order of the units, and the rows of the blueprint.
#[derive(Debug)]
pub struct Blueprint {
    pub graph: UnitGraph,
    pub selection: Selection,
    /// The nodes that the plan needs, each after those it depends on.
    pub order: Vec<usize>,
    /// The rows of the filesets that were asked for, then those of the
    /// VHDL files.
    pub rows: Vec<Row>,
    /// The number of rows of the filesets that were asked for.
    pub user_rows: usize,
}

/// Reads the design units of one file.
pub fn read_file(f: &SourceFile) -> (r: Vec<DesignUnit>)
    ensures
        file_units(*f, r@),
{
    let mut out: Vec<DesignUnit> = Vec::new();
    if !is_vhdl(f.path.as_str()) {
        return out;
    }
    let parser = crate::vhdl::parser::VHDLParser::read(f.contents.as_str());
    let ghost units = crate::vhdl::parser::symbols_view(parser.symbols@);
    let symbols = parser.into_symbols();
    let ghost all = symbols@;
    assert(units_view(out@) =~= Seq::<crate::vhdl::symbol::Unit>::empty());
    for sym in it: symbols
        invariant
            it.seq() == all,
            all.len() == units.len(),
            forall|k: int| 0 <= k < all.len() ==> (#[trigger] all[k])@ == units[k],
            out@.len() == it.index(),
            units_view(out@) == units.take(it.index() as int),
            forall|i: int|
                0 <= i < out@.len() ==> (#[trigger] out@[i]).file.path@ == f.path@
                    && out@[i].file.library@ == f.library@,
    {
        let unit = DesignUnit {
            symbol: sym,
            file: IpFile { path: f.path.clone(), library: f.library.clone() },
        };
        proof {
            assert(units_view(out@.push(unit)) =~= units_view(out@).push(sym@));
            assert(units.take(out@.len() as int).push(units[out@.len() as int]) =~= units.take(
                out@.len() as int + 1,
            ));
        }
        out.push(unit);
    }
    assert(units.take(units.len() as int) =~= units);
    out
}

/// Reads the design units of the files `files`, file after file.
pub fn read_units(files: &Vec<SourceFile>) -> (units: Vec<DesignUnit>)
    ensures
        reads(files@, files@.len() as int, units@),
{
    let mut units: Vec<DesignUnit> = Vec::new();
    let mut i: usize = 0;
    while i < files.len()
        invariant
            i <= files.len(),
            reads(files@, i as int, units@),
        decreases files.len() - i,
    {
        let mut more = read_file(&files[i]);
        let ghost before = units@;
        let ghost added = more@;
        units.append(&mut more);
        proof {
            assert(units@.take(before.len() as int) =~= before);
            assert(units@.skip(before.len() as int) =~= added);
        }
        i += 1;
    }
    units
}

/// The library that the units of the ip `ip` go to in a plan for the ip
/// `target`: `work` for the ip that is planned, else the name of the ip
/// in its normal form.
pub fn library_name(ip: &crate::ip::ip::Ip, target: &crate::ip::ip::Ip) -> (r: String)
    ensures
        r@ == if ip.same(target) {
            "work"@
        } else {
            crate::ip::pkgid::norm_name(ip.name().0@)
        },
{
    if ip.matches(target) {
        string_of(&chars_of("work"))
    } else {
        ip.manifest.ip.name.to_normal()
    }
}

impl Plan {
    /// The filesets that are asked for; none if nothing is said of them.
    pub open spec fn asked(&self) -> Seq<FilesetSpec> {
        match self.filesets {
            Some(specs) => specs@,
            None => Seq::empty(),
        }
    }

    /// Whether `rows` are the rows of the filesets of the plan for the
    /// files `files`, or the reason why one of the filesets that are asked
    /// for is refused, once `top` and `bench` are put in the patterns for
    /// the variables `orbit.top` and `orbit.bench`. The crate `glob` says
    /// which patterns compile and which files match them.
    pub open spec fn asks_rows(
        &self,
        top: Seq<char>,
        bench: Seq<char>,
        files: Seq<String>,
        plug: Seq<Fileset>,
        rows: Result<Seq<RowView>, Flaw>,
    ) -> bool {
        exists|compiled: Seq<bool>, asked: Seq<Seq<bool>>, offered: Seq<Seq<bool>>|
            answered(
                self.asked(),
                plan_variables(top, bench),
                plug,
                file_paths(files),
                compiled,
                asked,
                offered,
            ) && #[trigger] rows_asked(
                self.asked(),
                plan_variables(top, bench),
                plug,
                file_paths(files),
                compiled,
                asked,
                offered,
            ) == rows
    }

    /// Whether `bp` is the plan for the graph `g`.
    ///
    /// The top and the testbench are those that the graph selects. The
    /// order holds each unit that the higher of the two needs, once, and,
    /// if nothing depends on itself, each unit after those it depends on,
    /// the unit of the least index first where several can come next. The
    /// rows are those of the filesets, then those of the VHDL files of
    /// the units in their order.
    pub open spec fn plans(
        &self,
        g: UnitGraph,
        files: Seq<String>,
        plug: Seq<Fileset>,
        bp: Blueprint,
    ) -> bool {
        let high = high_of(bp.selection);
        let n = g.graph.keys@.len();
        let rows = crate::fileset::rows_view(bp.rows@);
        &&& bp.graph == g
        &&& g.spec_select(self.bench, self.top) == Ok::<Selection, Flaw>(bp.selection)
        &&& bp.selection.top < n
        &&& bp.selection.bench is Some ==> bp.selection.bench->0 < n
        &&& bp.order@.no_duplicates()
        &&& forall|v: usize| bp.order@.contains(v) <==> is_ancestor(g.graph.edges@, v, high)
        &&& acyclic(g.graph.edges@, n as int) ==> greedy(g.graph.edges@, high, bp.order@)
        &&& acyclic(g.graph.edges@, n as int) ==> forall|i: int, j: int|
            0 <= i < bp.order@.len() && 0 <= j < bp.order@.len() && #[trigger] g.graph.edge(
                bp.order@[i],
                bp.order@[j],
            ) ==> i < j
        &&& bp.user_rows <= rows.len()
        &&& self.asks_rows(
            top_text(g.graph.keys@, bp.selection),
            bench_text(g.graph.keys@, bp.selection),
            files,
            plug,
            Ok(rows.take(bp.user_rows as int)),
        )
        &&& self.names_rows(
            top_text(g.graph.keys@, bp.selection),
            bench_text(g.graph.keys@, bp.selection),
            files,
            plug,
            Ok(rows.take(bp.user_rows as int)),
        )
        &&& forall|k: int|
            0 <= k < bp.user_rows ==> user_row(#[trigger] rows[k], files, self.filesets, plug)
        &&& rows.skip(bp.user_rows as int) == hdl_rows(g.nodes@, bp.order@, bp.order@.len() as int)
    }

    /// Whether `rows` are what the answers of the crate `glob` give for
    /// the filesets of the plan, where every such answer is the same on
    /// every machine; nothing is said of other plans.
    pub open spec fn names_rows(
        &self,
        top: Seq<char>,
        bench: Seq<char>,
        files: Seq<String>,
        plug: Seq<Fileset>,
        rows: Result<Seq<RowView>, Flaw>,
    ) -> bool {
        answered_alike(self.asked(), plan_variables(top, bench), plug, file_paths(files))
            ==> rows == named_rows(
            self.asked(),
            plan_variables(top, bench),
            plug,
            file_paths(files),
        )
    }

    /// Whether no plan is made for the graph `g`, for the reason `e`: the
    /// reason for which the graph selects no top or testbench, or else
    /// that for which one of the filesets that are asked for is refused.
    pub open spec fn refuses(
        &self,
        g: UnitGraph,
        files: Seq<String>,
        plug: Seq<Fileset>,
        e: Flaw,
    ) -> bool {
        match g.spec_select(self.bench, self.top) {
            Err(f) => e == f,
            Ok(s) => self.asks_rows(
                top_text(g.graph.keys@, s),
                bench_text(g.graph.keys@, s),
                files,
                plug,
                Err(e),
            ) && self.names_rows(
                top_text(g.graph.keys@, s),
                bench_text(g.graph.keys@, s),
                files,
                plug,
                Err(e),
            ),
        }
    }

    /// Reads the design units of the files `files` and builds their graph.
    pub fn build_graph(files: &Vec<SourceFile>) -> (r: UnitGraph)
        ensures
            built(r, files@),
    {
        UnitGraph::build(read_units(files))
    }

    /// Finds the top of the design from the testbench: the one entity that
    /// the testbench depends on.
    pub fn detect_top(graph: &UnitGraph, bench: usize) -> (r: Result<usize, PlanError>)
        requires
            graph.wf(),
            bench < graph.graph.keys@.len(),
        ensures
            ({
                let c = graph.of_kind(
                    sources(graph.graph.edges@, bench, graph.graph.edges@.len() as int),
                    NodeKind::Entity,
                );
                match r {
                    Ok(t) => c == seq![t],
                    Err(e) => c.len() != 1 && e@ == if c.len() == 0 {
                        Flaw::BadTestbench(graph.graph.keys@[bench as int])
                    } else {
                        Flaw::Ambiguous(AmbiguousKind::Tops, graph.names(c))
                    },
                }
            }),
    {
        graph.detect_top(bench)
    }

    /// The patterns of the filesets that are asked for, with the variables
    /// of the table replaced by their values.
    pub fn substitute_patterns(specs: &Vec<FilesetSpec>, table: &VariableTable) -> (r: Vec<String>)
        requires
            table.wf(),
        ensures
            file_paths(r@) == pattern_texts(specs@, table@),
    {
        let mut out: Vec<String> = Vec::new();
        let mut k: usize = 0;
        while k < specs.len()
            invariant
                k <= specs.len(),
                table.wf(),
                out@.len() == k,
                forall|i: int|
                    0 <= i < k ==> (#[trigger] out@[i])@ == substitute_from(
                        specs@[i].pattern@,
                        0,
                        table@,
                        Seq::empty(),
                    ),
            decreases specs.len() - k,
        {
            out.push(crate::template::substitute(specs[k].pattern.clone(), table));
            k += 1;
        }
        assert(file_paths(out@) =~= pattern_texts(specs@, table@));
        out
    }

    /// The filesets that are asked for, given the patterns `sources` as they
    /// are written once the variables are replaced, and whether the crate
    /// `glob` compiles each: in the order in which they are asked for,
    /// each fileset with its name and that pattern as written. The first
    /// fileset that has no name, or whose pattern does not compile, is
    /// refused, and no fileset is made.
    pub fn assemble_filesets(specs: &Vec<FilesetSpec>, sources: &Vec<String>, compiled: &Vec<bool>) -> (r:
        Result<Vec<Fileset>, PlanError>)
        ensures
            sets_are(
                r,
                assembled(specs@, file_paths(sources@), compiled@, compiled@.len() as int),
            ),
    {
        let mut out: Vec<Fileset> = Vec::new();
        let ghost texts = file_paths(sources@);
        let mut k: usize = 0;
        assert(filesets_view(out@) =~= Seq::<FilesetView>::empty());
        while k < compiled.len()
            invariant
                k <= compiled.len(),
                texts == file_paths(sources@),
                assembled(specs@, texts, compiled@, k as int) == Ok::<Seq<FilesetView>, Flaw>(
                    filesets_view(out@),
                ),
            decreases compiled.len() - k,
        {
            if k < specs.len() && k < sources.len() {
                assert(texts[k as int] == sources@[k as int]@);
                match Fileset::from_parts(
                    specs[k].name.as_str(),
                    sources[k].as_str(),
                    compiled[k],
                ) {
                    Ok(set) => {
                        proof {
                            assert(filesets_view(out@.push(set)) =~= filesets_view(out@).push(
                                set@,
                            ));
                        }
                        out.push(set);
                    },
                    Err(why) => {
                        proof {
                            lemma_assembled_refused(
                                specs@,
                                texts,
                                compiled@,
                                k + 1,
                                compiled@.len() as int,
                            );
                        }
                        return Err(PlanError::BadFileset(specs[k].name.clone(), why));
                    },
                }
            }
            k += 1;
        }
        Ok(out)
    }

    /// The filesets that are asked for, with the variables of their
    /// patterns replaced: in the order in which they are asked for, each
    /// fileset with its name and its pattern. The first fileset that has
    /// no name, or whose pattern the crate `glob` does not compile, is
    /// refused, and no fileset is made.
    pub fn make_filesets(specs: &Vec<FilesetSpec>, table: &VariableTable) -> (r: Result<
        Vec<Fileset>,
        PlanError,
    >)
        requires
            table.wf(),
        ensures
            exists|compiled: Seq<bool>|
                compile_answers(pattern_texts(specs@, table@), compiled) && sets_are(
                    r,
                    #[trigger] assembled(
                        specs@,
                        pattern_texts(specs@, table@),
                        compiled,
                        specs@.len() as int,
                    ),
                ),
    {
        let sources = Self::substitute_patterns(specs, table);
        let compiled = crate::fileset::compile_all(&sources);
        let r = Self::assemble_filesets(specs, &sources, &compiled);
        proof {
            assert(pattern_texts(specs@, table@).len() == specs@.len());
            assert(compiled@.len() == specs@.len());
            assert(sets_are(
                r,
                assembled(specs@, pattern_texts(specs@, table@), compiled@, specs@.len() as int),
            ));
        }
        r
    }

    /// The rows of the filesets of the plan for the files `files`: those
    /// of the filesets that are asked for, in the order in which they are
    /// asked for, then those of the filesets `plug_filesets` of the
    /// plugin. `top` and `bench` are put in the patterns that are asked
    /// for in place of the variables `orbit.top` and `orbit.bench`.
    pub fn user_rows(&self, top: &str, bench: &str, files: &Vec<String>, plug_filesets: &Vec<Fileset>) -> (r:
        Result<Vec<Row>, PlanError>)
        ensures
            self.asks_rows(top@, bench@, files@, plug_filesets@, rows_or_flaw(r)),
            answered_alike(
                self.asked(),
                plan_variables(top@, bench@),
                plug_filesets@,
                file_paths(files@),
            ) ==> rows_or_flaw(r) == named_rows(
                self.asked(),
                plan_variables(top@, bench@),
                plug_filesets@,
                file_paths(files@),
            ),
            r is Ok ==> forall|k: int|
                0 <= k < r->Ok_0@.len() ==> user_row(
                    #[trigger] crate::fileset::rows_view(r->Ok_0@)[k],
                    files@,
                    self.filesets,
                    plug_filesets@,
                ),
    {
        let mut table = VariableTable::new();
        table.add("orbit.top", top);
        table.add("orbit.bench", bench);
        let ghost vars = plan_variables(top@, bench@);
        let ghost paths = file_paths(files@);
        let ghost specs = self.asked();
        let ghost texts = pattern_texts(specs, vars);
        let sets: Vec<Fileset> = match &self.filesets {
            Some(list) => match Self::make_filesets(list, &table) {
                Err(e) => {
                    proof {
                        let compiled = choose|compiled: Seq<bool>|
                            compile_answers(texts, compiled) && sets_are(
                                Err(e),
                                #[trigger] assembled(specs, texts, compiled, specs.len() as int),
                            );
                        let none = Seq::<Seq<bool>>::empty();
                        let offered = named_matches(set_patterns(plug_filesets@), paths);
                        assert(match_answers(set_patterns(plug_filesets@), paths, offered));
                        assert(answered(
                            specs,
                            vars,
                            plug_filesets@,
                            paths,
                            compiled,
                            none,
                            offered,
                        ));
                        assert(rows_asked(
                            specs,
                            vars,
                            plug_filesets@,
                            paths,
                            compiled,
                            none,
                            offered,
                        ) == Err::<Seq<RowView>, Flaw>(e@));
                        if answered_alike(specs, vars, plug_filesets@, paths) {
                            lemma_rows_named(
                                specs,
                                vars,
                                plug_filesets@,
                                paths,
                                compiled,
                                none,
                                offered,
                            );
                        }
                    }
                    return Err(e);
                },
                Ok(sets) => sets,
            },
            None => {
                let sets: Vec<Fileset> = Vec::new();
                proof {
                    let none = Seq::<bool>::empty();
                    assert(texts =~= Seq::<Seq<char>>::empty());
                    assert(filesets_view(sets@) =~= Seq::<FilesetView>::empty());
                    assert(compile_answers(texts, none));
                    assert(sets_are(Ok(sets), assembled(specs, texts, none, specs.len() as int)));
                }
                sets
            },
        };
        let ghost compiled = choose|compiled: Seq<bool>|
            compile_answers(texts, compiled) && sets_are(
                Ok(sets),
                #[trigger] assembled(specs, texts, compiled, specs.len() as int),
            );
        let mut rows = fileset_rows(&sets, files);
        let ghost first = crate::fileset::rows_view(rows@);
        let ghost asked = choose|table: Seq<Seq<bool>>|
            match_answers(set_patterns(sets@), paths, table) && first == #[trigger] all_rows(
                set_names(sets@),
                paths,
                table,
                sets@.len() as int,
            );
        let mut plug_rows = fileset_rows(plug_filesets, files);
        let ghost second = crate::fileset::rows_view(plug_rows@);
        let ghost offered = choose|table: Seq<Seq<bool>>|
            match_answers(set_patterns(plug_filesets@), paths, table) && second
                == #[trigger] all_rows(
                set_names(plug_filesets@),
                paths,
                table,
                plug_filesets@.len() as int,
            );
        rows.append(&mut plug_rows);
        proof {
            let all = crate::fileset::rows_view(rows@);
            assert(all =~= first + second);
            assert(set_names(sets@) =~= view_names(filesets_view(sets@)));
            assert(set_patterns(sets@) =~= view_patterns(filesets_view(sets@)));
            assert(answered(specs, vars, plug_filesets@, paths, compiled, asked, offered));
            assert(rows_asked(specs, vars, plug_filesets@, paths, compiled, asked, offered) == Ok::<
                Seq<RowView>,
                Flaw,
            >(all));
            if answered_alike(specs, vars, plug_filesets@, paths) {
                lemma_rows_named(specs, vars, plug_filesets@, paths, compiled, asked, offered);
            }
            assert forall|k: int| 0 <= k < all.len() implies user_row(
                #[trigger] all[k],
                files@,
                self.filesets,
                plug_filesets@,
            ) by {
                if k < first.len() {
                    lemma_rows_among(first, sets@, files@, k);
                    let s = choose|s: int|
                        0 <= s < sets@.len() && (#[trigger] sets@[s]).name@ == first[k].fileset;
                    lemma_assembled_names(specs, texts, compiled, specs.len() as int);
                    assert(filesets_view(sets@)[s].name == sets@[s].name@);
                    assert(asked_for(specs, sets@[s].name@));
                } else {
                    lemma_rows_among(second, plug_filesets@, files@, k - first.len());
                }
            }
        }
        Ok(rows)
    }

    /// Makes the plan for the graph `graph` of the design units: selects
    /// top and testbench, orders the units that the higher of the two
    /// needs, and lists the rows of the blueprint.
    ///
    /// `files` are the paths of all files of the ip, among which the
    /// filesets that are asked for, and then those of the plugin, pick theirs.
    /// No plan is made if the graph selects no top or testbench, or else
    /// if one of the filesets that are asked for cannot be made.
    pub fn make_blueprint(
        &self,
        graph: UnitGraph,
        files: &Vec<String>,
        plug_filesets: &Vec<Fileset>,
    ) -> (r: Result<Blueprint, PlanError>)
        requires
            graph.wf(),
        ensures
            match r {
                Ok(bp) => self.plans(graph, files@, plug_filesets@, bp),
                Err(e) => self.refuses(graph, files@, plug_filesets@, e@),
            },
    {
        let selection = match graph.select(&self.bench, &self.top) {
            Err(e) => {
                return Err(e);
            },
            Ok(s) => s,
        };
        let high = match selection.bench {
            Some(b) => b,
            None => selection.top,
        };
        let order = graph.graph.minimal_topological_sort(high);
        let top_name = graph.graph.keys[selection.top].to_string();
        let bench_name = match selection.bench {
            Some(b) => graph.graph.keys[b].to_string(),
            None => String::new(),
        };
        let mut rows = match self.user_rows(
            top_name.as_str(),
            bench_name.as_str(),
            files,
            plug_filesets,
        ) {
            Err(e) => {
                return Err(e);
            },
            Ok(rows) => rows,
        };
        let user_rows = rows.len();
        let ghost user_view = crate::fileset::rows_view(rows@);
        proof {
            assert forall|i: int| 0 <= i < order@.len() implies order@[i] < graph.nodes@.len() by {
                assert(order@.contains(order@[i]));
            }
        }
        let mut hdl = make_hdl_rows(&graph, &order);
        let ghost tail = hdl@;
        rows.append(&mut hdl);
        proof {
            let all = crate::fileset::rows_view(rows@);
            assert(all.skip(user_rows as int) =~= crate::fileset::rows_view(tail));
            assert(all.take(user_rows as int) =~= user_view);
            assert forall|k: int| 0 <= k < user_rows implies user_row(
                #[trigger] all[k],
                files@,
                self.filesets,
                plug_filesets@,
            ) by {
                assert(all[k] == user_view[k]);
            }
        }
        Ok(Blueprint { graph, selection, order, rows, user_rows })
    }

    /// Makes the plan: builds the graph of the design units of `sources`,
    /// selects top and testbench, orders the units that the higher of the
    /// two needs, and lists the rows of the blueprint.
    ///
    /// `files` are the paths of all files of the ip, among which the
    /// filesets that are asked for, and then those of the plugin, pick theirs.
    /// The plan is that of the graph of the units, which it holds. No
    /// plan is made if that graph selects no top or testbench, or else
    /// if one of the filesets that are asked for cannot be made.
    pub fn run(&self, sources: &Vec<SourceFile>, files: &Vec<String>, plug_filesets: &Vec<Fileset>) -> (r:
        Result<Blueprint, PlanError>)
        ensures
            match r {
                Ok(bp) => built(bp.graph, sources@) && self.plans(
                    bp.graph,
                    files@,
                    plug_filesets@,
                    bp,
                ),
                Err(e) => exists|g: UnitGraph| #[trigger]
                    built(g, sources@) && self.refuses(g, files@, plug_filesets@, e@),
            },
    {
        let graph = Self::build_graph(sources);
        self.make_blueprint(graph, files, plug_filesets)
    }
}

/// A plan that asks for no fileset is made whenever the graph selects a top.
pub proof fn lemma_plan_owed(
    plan: &Plan,
    g: UnitGraph,
    files: Seq<String>,
    plug: Seq<Fileset>,
    e: Flaw,
)
    requires
        g.spec_select(plan.bench, plan.top) is Ok,
        plan.asked().len() == 0,
    ensures
        !plan.refuses(g, files, plug, e),
{
    let s = g.spec_select(plan.bench, plan.top)->Ok_0;
    assert forall|
        compiled: Seq<bool>,
        asked: Seq<Seq<bool>>,
        offered: Seq<Seq<bool>>,
    | #[trigger]
        rows_asked(
            plan.asked(),
            plan_variables(top_text(g.graph.keys@, s), bench_text(g.graph.keys@, s)),
            plug,
            file_paths(files),
            compiled,
            asked,
            offered,
        ) is Ok by {}
}

/// A plan is made whenever the graph selects a top and each fileset that
/// is asked for has a name and a pattern that the crate `glob` compiles,
/// where its answers are the same on every machine.
pub proof fn lemma_plan_made(
    plan: &Plan,
    g: UnitGraph,
    files: Seq<String>,
    plug: Seq<Fileset>,
    e: Flaw,
)
    requires
        g.spec_select(plan.bench, plan.top) is Ok,
        ({
            let s = g.spec_select(plan.bench, plan.top)->Ok_0;
            let vars = plan_variables(top_text(g.graph.keys@, s), bench_text(g.graph.keys@, s));
            answered_alike(plan.asked(), vars, plug, file_paths(files)) && named_rows(
                plan.asked(),
                vars,
                plug,
                file_paths(files),
            ) is Ok
        }),
    ensures
        !plan.refuses(g, files, plug, e),
{
}

/// Where several entities on which nothing depends are all testbenches,
/// and neither a top nor a testbench is asked for, no plan is made: the
/// testbenches are ambiguous, and the error names them.
pub proof fn lemma_plan_testbenches(
    plan: &Plan,
    g: UnitGraph,
    files: Seq<String>,
    plug: Seq<Fileset>,
)
    requires
        plan.bench is None,
        plan.top is None,
        g.entity_roots().len() > 1,
        g.of_kind(g.entity_roots(), NodeKind::Bench).len() == g.entity_roots().len(),
    ensures
        forall|bp: Blueprint| !plan.plans(g, files, plug, bp),
        forall|e: Flaw|
            plan.refuses(g, files, plug, e) ==> e == Flaw::Ambiguous(
                AmbiguousKind::Testbenches,
                g.names(g.entity_roots()),
            ),
{
    lemma_testbench_roots_ambiguous(&g);
}

/// Where one entity is the only one on which nothing depends, and it has
/// ports, and neither a top nor a testbench is asked for, that entity is
/// the top of every plan, and there is no testbench; no plan is refused
/// but for a fileset.
pub proof fn lemma_plan_natural_top(
    plan: &Plan,
    g: UnitGraph,
    files: Seq<String>,
    plug: Seq<Fileset>,
)
    requires
        plan.bench is None,
        plan.top is None,
        g.entity_roots().len() == 1,
        g.is_kind(g.entity_roots()[0], NodeKind::Design),
    ensures
        forall|bp: Blueprint|
            plan.plans(g, files, plug, bp) ==> bp.selection == (Selection {
                top: g.entity_roots()[0],
                bench: None,
            }),
        forall|e: Flaw| plan.refuses(g, files, plug, e) ==> e is BadFileset,
{
    lemma_natural_top(&g);
    assert forall|e: Flaw| plan.refuses(g, files, plug, e) implies e is BadFileset by {
        let s = g.spec_select(plan.bench, plan.top)->Ok_0;
        let (compiled, asked, offered) = choose|
            compiled: Seq<bool>,
            asked: Seq<Seq<bool>>,
            offered: Seq<Seq<bool>>,
        |
            answered(
                plan.asked(),
                plan_variables(top_text(g.graph.keys@, s), bench_text(g.graph.keys@, s)),
                plug,
                file_paths(files),
                compiled,
                asked,
                offered,
            ) && #[trigger] rows_asked(
                plan.asked(),
                plan_variables(top_text(g.graph.keys@, s), bench_text(g.graph.keys@, s)),
                plug,
                file_paths(files),
                compiled,
                asked,
                offered,
            ) == Err::<Seq<RowView>, Flaw>(e);
        let specs = plan.asked();
        let texts = pattern_texts(
            specs,
            plan_variables(top_text(g.graph.keys@, s), bench_text(g.graph.keys@, s)),
        );
        lemma_assembled_flaw(specs, texts, compiled, specs.len() as int);
    }
}

/// In a plan for a graph in which nothing depends on itself, the files
/// of a unit come before the files of every unit that depends on it.
pub proof fn lemma_plan_order(
    plan: &Plan,
    g: UnitGraph,
    files: Seq<String>,
    plug: Seq<Fileset>,
    bp: Blueprint,
    p: int,
    q: int,
)
    requires
        plan.plans(g, files, plug, bp),
        acyclic(g.graph.edges@, g.graph.keys@.len() as int),
        0 <= p < hdl_rows(g.nodes@, bp.order@, bp.order@.len() as int).len(),
        0 <= q < hdl_rows(g.nodes@, bp.order@, bp.order@.len() as int).len(),
        g.graph.edge(
            bp.order@[row_place(g.nodes@, bp.order@, bp.order@.len() as int, p)],
            bp.order@[row_place(g.nodes@, bp.order@, bp.order@.len() as int, q)],
        ),
    ensures
        p < q,
        crate::fileset::rows_view(bp.rows@)[bp.user_rows + p] == hdl_rows(
            g.nodes@,
            bp.order@,
            bp.order@.len() as int,
        )[p],
        crate::fileset::rows_view(bp.rows@)[bp.user_rows + q] == hdl_rows(
            g.nodes@,
            bp.order@,
            bp.order@.len() as int,
        )[q],
{
    lemma_blueprint_order(&g, bp.order@, p, q);
    let rows = crate::fileset::rows_view(bp.rows@);
    assert(rows.skip(bp.user_rows as int)[p] == rows[bp.user_rows + p]);
    assert(rows.skip(bp.user_rows as int)[q] == rows[bp.user_rows + q]);
}

/// Whether unit `i` of the graph is an architecture of the entity at node
/// `e` that depends by name on the unit at node `c`: on a unit that it
/// binds by a configuration specification, or that it instantiates.
pub open spec fn architecture_needs(g: UnitGraph, i: int, c: usize, e: usize) -> bool {
    let keys = g.graph.keys@;
    &&& 0 <= i < g.units@.len()
    &&& c < keys.len()
    &&& e < keys.len()
    &&& c != e
    &&& match g.units@[i].symbol@ {
        crate::vhdl::symbol::Unit::Architecture { owner, deps, .. } => keys[e as int].same(&owner)
            && exists|j: int| 0 <= j < deps.len() && keys[c as int].same(&#[trigger] deps[j]),
        _ => false,
    }
}

/// Where an architecture binds a unit by a configuration specification,
/// or instantiates it, the entity that owns the architecture depends on
/// that unit: the graph has the edge from the unit to the entity, once.
pub proof fn lemma_bound_edge(g: UnitGraph, files: Seq<SourceFile>, i: int, c: usize, e: usize)
    requires
        built(g, files),
        architecture_needs(g, i, c, e),
    ensures
        g.graph.edge(c, e),
        forall|a: int, b: int|
            0 <= a < b < g.graph.edges@.len() ==> !(g.graph.edges@[a] == (c, e)
                && g.graph.edges@[b] == (c, e)),
{
    let keys = g.graph.keys@;
    let unit = g.units@[i].symbol@;
    assert(crate::commands::unitgraph::named_in(
        keys,
        c,
        crate::commands::unitgraph::pass_names(1, unit),
    ));
    assert(crate::commands::unitgraph::asks(keys, unit, 1, c, e));
    assert(crate::commands::unitgraph::asked_in(
        keys,
        g.units@,
        1,
        g.units@.len() as int,
        c,
        e,
    ));
    assert(crate::commands::unitgraph::linked(keys, g.units@, c, e));
}

/// Whether unit `i` of the graph belongs to node `u` and holds a
/// reference whose name after the dot is that of node `p`, whatever
/// stands before the dot.
pub open spec fn unit_refers(g: UnitGraph, i: int, p: usize, u: usize) -> bool {
    let keys = g.graph.keys@;
    &&& 0 <= i < g.units@.len()
    &&& p < keys.len()
    &&& u < keys.len()
    &&& p != u
    &&& keys[u as int].same(&crate::commands::unitgraph::home(g.units@[i].symbol@))
    &&& exists|j: int|
        0 <= j < g.units@[i].symbol@.refs().len() && keys[p as int].same(
            &(#[trigger] g.units@[i].symbol@.refs()[j]).suffix,
        )
}

/// Where a unit refers to another by the name after the dot of a
/// reference, the node of the unit depends on the node of that name: the
/// graph has the edge, once, however many references name it and
/// whatever stands before their dots.
pub proof fn lemma_reference_edge(g: UnitGraph, files: Seq<SourceFile>, i: int, p: usize, u: usize)
    requires
        built(g, files),
        unit_refers(g, i, p, u),
    ensures
        g.graph.edge(p, u),
        forall|a: int, b: int|
            0 <= a < b < g.graph.edges@.len() ==> !(g.graph.edges@[a] == (p, u)
                && g.graph.edges@[b] == (p, u)),
{
    let keys = g.graph.keys@;
    let unit = g.units@[i].symbol@;
    let j = choose|j: int|
        0 <= j < unit.refs().len() && keys[p as int].same(&(#[trigger] unit.refs()[j]).suffix);
    let names = crate::commands::unitgraph::pass_names(3, unit);
    assert(names[j] == unit.refs()[j].suffix);
    assert(crate::commands::unitgraph::named_in(keys, p, names));
    assert(crate::commands::unitgraph::asks(keys, unit, 3, p, u));
    assert(crate::commands::unitgraph::asked_in(keys, g.units@, 3, g.units@.len() as int, p, u));
    assert(crate::commands::unitgraph::linked(keys, g.units@, p, u));
}

/// Every edge of the graph is there on account of a unit: the node that
/// the edge leads to is that of a unit which asks by name for the node
/// that the edge comes from. A name that no node has gives no edge.
pub proof fn lemma_edge_asked(g: UnitGraph, files: Seq<SourceFile>, x: usize, v: usize)
    requires
        built(g, files),
        g.graph.edge(x, v),
    ensures
        x < g.graph.keys@.len(),
        v < g.graph.keys@.len(),
        x != v,
        exists|i: int, pass: int|
            0 <= i < g.units@.len() && 1 <= pass <= 3 && crate::commands::unitgraph::asks(
                g.graph.keys@,
                (#[trigger] g.units@[i]).symbol@,
                pass,
                x,
                v,
            ) && #[trigger] crate::commands::unitgraph::named_in(
                g.graph.keys@,
                x,
                crate::commands::unitgraph::pass_names(pass, g.units@[i].symbol@),
            ),
{
    let keys = g.graph.keys@;
    let n = g.units@.len() as int;
    assert(crate::commands::unitgraph::linked(keys, g.units@, x, v));
    let pass: int = if crate::commands::unitgraph::asked_in(keys, g.units@, 1, n, x, v) {
        1
    } else if crate::commands::unitgraph::asked_in(keys, g.units@, 2, n, x, v) {
        2
    } else {
        3
    };
    let i = choose|i: int|
        0 <= i < n && i < g.units@.len() && crate::commands::unitgraph::asks(
            keys,
            (#[trigger] g.units@[i]).symbol@,
            pass,
            x,
            v,
        );
    assert(crate::commands::unitgraph::named_in(
        keys,
        x,
        crate::commands::unitgraph::pass_names(pass, g.units@[i].symbol@),
    ));
}

/// In a plan for a graph in which nothing depends on itself, the files
/// of a unit that an architecture binds or instantiates come before the
/// files of the entity that owns the architecture, the file of the
/// architecture among them.
pub proof fn lemma_plan_binding_order(
    plan: &Plan,
    g: UnitGraph,
    sources: Seq<SourceFile>,
    files: Seq<String>,
    plug: Seq<Fileset>,
    bp: Blueprint,
    i: int,
    p: int,
    q: int,
)
    requires
        built(g, sources),
        plan.plans(g, files, plug, bp),
        acyclic(g.graph.edges@, g.graph.keys@.len() as int),
        0 <= p < hdl_rows(g.nodes@, bp.order@, bp.order@.len() as int).len(),
        0 <= q < hdl_rows(g.nodes@, bp.order@, bp.order@.len() as int).len(),
        architecture_needs(
            g,
            i,
            bp.order@[row_place(g.nodes@, bp.order@, bp.order@.len() as int, p)],
            bp.order@[row_place(g.nodes@, bp.order@, bp.order@.len() as int, q)],
        ),
    ensures
        p < q,
{
    let n = bp.order@.len() as int;
    lemma_bound_edge(
        g,
        sources,
        i,
        bp.order@[row_place(g.nodes@, bp.order@, n, p)],
        bp.order@[row_place(g.nodes@, bp.order@, n, q)],
    );
    lemma_plan_order(plan, g, files, plug, bp, p, q);
}

/// Each file of each of the first `n` units of the order has a row, at a
/// place that belongs to that unit.
pub proof fn lemma_file_has_row(nodes: Seq<HashNode>, order: Seq<usize>, n: int, i: int, f: int) -> (p:
    int)
    requires
        0 <= i < n <= order.len(),
        0 <= f < nodes[order[i] as int].files@.len(),
    ensures
        0 <= p < hdl_rows(nodes, order, n).len(),
        hdl_rows(nodes, order, n)[p] == file_row(nodes[order[i] as int].files@[f]),
        row_place(nodes, order, n, p) == i,
    decreases n,
{
    let before = hdl_rows(nodes, order, n - 1);
    let files = nodes[order[n - 1] as int].files@;
    lemma_node_rows(files, files.len() as int);
    if i == n - 1 {
        let p = before.len() + f;
        assert(hdl_rows(nodes, order, n)[p] == node_rows(files, files.len() as int)[f]);
        p
    } else {
        let p = lemma_file_has_row(nodes, order, n - 1, i, f);
        assert(hdl_rows(nodes, order, n)[p] == before[p]);
        p
    }
}

/// In a plan for a graph in which nothing depends on itself, where an
/// architecture of an entity that the plan needs binds or instantiates a
/// unit, each file of that unit has a row, and it stands before the row
/// of each file of the entity, the file of the architecture among them.
pub proof fn lemma_bound_files_in_order(
    plan: &Plan,
    g: UnitGraph,
    sources: Seq<SourceFile>,
    files: Seq<String>,
    plug: Seq<Fileset>,
    bp: Blueprint,
    i: int,
    c: usize,
    e: usize,
    fc: int,
    fe: int,
) -> (r: (int, int))
    requires
        built(g, sources),
        plan.plans(g, files, plug, bp),
        acyclic(g.graph.edges@, g.graph.keys@.len() as int),
        architecture_needs(g, i, c, e),
        is_ancestor(g.graph.edges@, e, high_of(bp.selection)),
        0 <= fc < g.nodes@[c as int].files@.len(),
        0 <= fe < g.nodes@[e as int].files@.len(),
    ensures
        bp.user_rows <= r.0 < r.1 < bp.rows@.len(),
        crate::fileset::rows_view(bp.rows@)[r.0] == file_row(g.nodes@[c as int].files@[fc]),
        crate::fileset::rows_view(bp.rows@)[r.1] == file_row(g.nodes@[e as int].files@[fe]),
{
    let order = bp.order@;
    let n = order.len() as int;
    let rows = crate::fileset::rows_view(bp.rows@);
    lemma_bound_edge(g, sources, i, c, e);
    lemma_ancestor_step(g.graph.edges@, c, e, high_of(bp.selection));
    assert(order.contains(c));
    assert(order.contains(e));
    let ic = choose|k: int| 0 <= k < order.len() && order[k] == c;
    let ie = choose|k: int| 0 <= k < order.len() && order[k] == e;
    let p = lemma_file_has_row(g.nodes@, order, n, ic, fc);
    let q = lemma_file_has_row(g.nodes@, order, n, ie, fe);
    lemma_plan_order(plan, g, files, plug, bp, p, q);
    assert(rows.skip(bp.user_rows as int).len() == hdl_rows(g.nodes@, order, n).len());
    (bp.user_rows + p, bp.user_rows + q)
}

impl Blueprint {
    /// The name of the top of the design.
    pub fn top_name(&self) -> (r: String)
        requires
            self.selection.top < self.graph.graph.keys@.len(),
        ensures
            r@ == self.graph.graph.keys@[self.selection.top as int].lexeme(),
    {
        self.graph.graph.keys[self.selection.top].to_string()
    }

    /// The name of the testbench; empty if there is none.
    pub fn bench_name(&self) -> (r: String)
        requires
            self.selection.bench is Some ==> self.selection.bench->0 < self.graph.graph.keys@.len(),
        ensures
            r@ == match self.selection.bench {
                Some(b) => self.graph.graph.keys@[b as int].lexeme(),
                None => Seq::empty(),
            },
    {
        match self.selection.bench {
            Some(b) => self.graph.graph.keys[b].to_string(),
            None => String::new(),
        }
    }

    /// The text of the blueprint: one line for each row.
    pub fn to_string(&self) -> (s: String)
        ensures
            s@ == crate::fileset::rows_text(
                crate::fileset::rows_view(self.rows@),
                self.rows@.len() as int,
            ),
    {
        crate::fileset::rows_to_string(&self.rows)
    }

    /// The text of the file that tells the tools which top and testbench
    /// were selected, and which plugin, if any.
    pub fn env(&self, plugin: &Option<String>) -> (s: String)
        requires
            self.selection.top < self.graph.graph.keys@.len(),
            self.selection.bench is Some ==> self.selection.bench->0 < self.graph.graph.keys@.len(),
        ensures
            s@ == env_text(
                self.graph.graph.keys@[self.selection.top as int].lexeme(),
                match self.selection.bench {
                    Some(b) => self.graph.graph.keys@[b as int].lexeme(),
                    None => Seq::empty(),
                },
                match plugin {
                    Some(p) => Some(p@),
                    None => None,
                },
            ),
    {
        make_env(self.top_name().as_str(), self.bench_name().as_str(), plugin)
    }
}

} // verus!

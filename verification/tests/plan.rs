use orbit::commands::plan::{AmbiguousKind, FilesetSpec, Plan, PlanError, SourceFile};
use orbit::fileset::FilesetError;
use orbit::commands::unitgraph::{DesignUnit, HashNode, IpFile, UnitGraph};
use orbit::fileset::{compile_all, Fileset};
use orbit::template::VariableTable;
use orbit::util::graph::Graph;
use orbit::vhdl::identifier::Identifier;
use orbit::vhdl::primaryunit::collect_units;

const NOR: &str = "\
library ieee;
use ieee.std_logic_1164.all;
entity nor_gate is port(a:in bit; b:in bit; c:out bit); end;
architecture rtl of nor_gate is begin c <= a nor b; end;";

const NOR_TB: &str = "\
entity nor_tb is end;
architecture sim of nor_tb is
    component nor_gate port(a:in bit; b:in bit; c:out bit); end component;
begin
    U: nor_gate port map(a => x, b => y, c => z);
end;";

fn source(path: &str, library: &str, contents: &str) -> SourceFile {
    SourceFile { path: path.to_owned(), library: library.to_owned(), contents: contents.to_owned() }
}

fn plan() -> Plan {
    Plan { plugin: None, bench: None, top: None, clean: false, build_dir: None, filesets: None }
}

fn id(name: &str) -> Identifier {
    Identifier::from_str(name).unwrap()
}

#[test]
fn single_ip_single_entity() {
    let sources = vec![source("/ip/nor.vhd", "work", NOR)];
    let bp = plan().run(&sources, &vec!["/ip/nor.vhd".to_owned()], &vec![]).unwrap();
    assert_eq!(bp.to_string(), "VHDL-RTL\twork\t/ip/nor.vhd\n");
    assert_eq!(bp.env(&None), "ORBIT_TOP=nor_gate\nORBIT_BENCH=\n");
    assert_eq!(bp.selection.bench, None);
}

#[test]
fn ip_with_testbench() {
    let sources = vec![source("/ip/nor_tb.vhd", "work", NOR_TB), source("/ip/nor.vhd", "work", NOR)];
    let bp = plan().run(&sources, &vec![], &vec![]).unwrap();
    assert_eq!(bp.env(&Some("ghdl".to_owned())), "ORBIT_TOP=nor_gate\nORBIT_BENCH=nor_tb\nORBIT_PLUGIN=ghdl\n");
    assert_eq!(bp.to_string(), "VHDL-RTL\twork\t/ip/nor.vhd\nVHDL-SIM\twork\t/ip/nor_tb.vhd\n");
    assert_eq!((bp.top_name(), bp.bench_name()), ("nor_gate".to_owned(), "nor_tb".to_owned()));
    // the top can be asked for as well, and the testbench is found from it
    let mut p = plan();
    p.top = Some(id("NOR_GATE"));
    let bp = p.run(&sources, &vec![], &vec![]).unwrap();
    assert_eq!(bp.env(&None), "ORBIT_TOP=nor_gate\nORBIT_BENCH=nor_tb\n");
    let mut p = plan();
    p.bench = Some(id("nor_tb"));
    assert_eq!(p.run(&sources, &vec![], &vec![]).unwrap().top_name(), "nor_gate");
}

#[test]
fn ambiguous_testbenches() {
    let sources = vec![
        source("/ip/a.vhd", "work", "entity tb_a is end;"),
        source("/ip/b.vhd", "work", "entity tb_b is end;"),
    ];
    assert_eq!(
        plan().run(&sources, &vec![], &vec![]).unwrap_err(),
        PlanError::Ambiguous(AmbiguousKind::Testbenches, vec![id("tb_a"), id("tb_b")])
    );
    assert_eq!(AmbiguousKind::Testbenches.to_string(), "testbenches");
    // roots of which one has ports are ambiguous as roots
    let sources = vec![
        source("/ip/a.vhd", "work", "entity tb_a is end;"),
        source("/ip/b.vhd", "work", "entity b is port (x: in bit); end;"),
    ];
    assert_eq!(
        plan().run(&sources, &vec![], &vec![]).unwrap_err(),
        PlanError::Ambiguous(AmbiguousKind::Roots, vec![id("tb_a"), id("b")])
    );
    // nothing to plan at all
    assert_eq!(
        plan().run(&vec![], &vec![], &vec![]).unwrap_err(),
        PlanError::Ambiguous(AmbiguousKind::Roots, vec![])
    );
}

#[test]
fn selection_errors() {
    let sources = vec![
        source("/ip/nor_tb.vhd", "work", NOR_TB),
        source("/ip/nor.vhd", "work", NOR),
        source("/ip/pkg.vhd", "work", "package p is end;"),
        source("/ip/tb2.vhd", "work", "entity tb2 is end; architecture s of tb2 is begin u: nor_gate; end;"),
        source("/ip/lone.vhd", "work", "entity lone_tb is end;"),
    ];
    let run = |top: Option<&str>, bench: Option<&str>| {
        let mut p = plan();
        p.top = top.map(id);
        p.bench = bench.map(id);
        p.run(&sources, &vec![], &vec![]).map(|bp| (bp.top_name(), bp.bench_name()))
    };
    // a testbench cannot be the top
    assert_eq!(run(Some("nor_tb"), None).unwrap_err(), PlanError::BadTop(id("nor_tb")));
    assert_eq!(run(Some("nothing"), None).unwrap_err(), PlanError::UnknownEntity(id("nothing")));
    assert_eq!(run(Some("p"), None).unwrap_err(), PlanError::BadEntity(id("p")));
    assert_eq!(run(None, Some("nor_gate")).unwrap_err(), PlanError::BadTestbench(id("nor_gate")));
    assert_eq!(run(None, Some("nothing")).unwrap_err(), PlanError::UnknownEntity(id("nothing")));
    assert_eq!(run(None, Some("p")).unwrap_err(), PlanError::BadEntity(id("p")));
    // a testbench that tests nothing has no top
    assert_eq!(run(None, Some("lone_tb")).unwrap_err(), PlanError::BadTestbench(id("lone_tb")));
    // two testbenches depend on the top
    assert_eq!(
        run(Some("nor_gate"), None).unwrap_err(),
        PlanError::Ambiguous(AmbiguousKind::Testbenches, vec![id("nor_tb"), id("tb2")])
    );
    assert_eq!(run(Some("nor_gate"), Some("tb2")).unwrap(), ("nor_gate".to_owned(), "tb2".to_owned()));
    assert_eq!(run(None, Some("tb2")).unwrap(), ("nor_gate".to_owned(), "tb2".to_owned()));
}

#[test]
fn configuration_binding_orders_the_files() {
    let sources = vec![
        source("/ip/top.vhd", "work", "entity top is port (a: in bit); end;\narchitecture rtl of top is\n for all: xor_gate use configuration cfg1;\nbegin end;"),
        source("/ip/cfg.vhd", "work", "configuration cfg1 of xor_gate is for rtl end for; end;"),
        source("/ip/xor.vhd", "work", "entity xor_gate is port (a: in bit); end;"),
    ];
    let mut p = plan();
    p.top = Some(id("top"));
    let bp = p.run(&sources, &vec![], &vec![]).unwrap();
    assert!(bp.graph.graph.has_edge(1, 0));
    assert_eq!(bp.to_string(), "VHDL-RTL\twork\t/ip/cfg.vhd\nVHDL-RTL\twork\t/ip/top.vhd\n");
}

#[test]
fn references_match_by_suffix_alone() {
    let sources = vec![
        source("/ip/pkg.vhd", "gates", "package util is end;"),
        source("/ip/a.vhd", "work", "use work.util.all; use other_lib.util.all; use work.UTIL;\nentity a is port (x: in math.util.t; y: in util.word); end;"),
    ];
    let g = Plan::build_graph(&sources);
    assert_eq!(g.graph.node_count(), 2);
    // one node is the unit of that name, and one edge leads from it
    assert_eq!(g.graph.edge_count(), 1);
    assert!(g.graph.has_edge(0, 1));
    let bp = plan().run(&sources, &vec![], &vec![]).unwrap();
    assert_eq!(bp.to_string(), "VHDL-RTL\tgates\t/ip/pkg.vhd\nVHDL-RTL\twork\t/ip/a.vhd\n");
}

#[test]
fn files_of_a_node_are_listed_once_in_order() {
    let sources = vec![
        source("/ip/e.vhd", "work", "entity e is port (a: in bit); end; architecture a1 of e is begin end;"),
        source("/ip/readme.md", "work", "entity not_read is end;"),
        source("/ip/a2.vhd", "work", "architecture a2 of e is begin end;"),
        source("/ip/a3.vhd", "work", "architecture a3 of unknown is begin end;"),
        source("/ip/e.vhd", "work", "entity E is end;"),
    ];
    let g = Plan::build_graph(&sources);
    assert_eq!(g.graph.node_count(), 1);
    assert_eq!(g.units.len(), 5);
    assert_eq!(g.nodes[0].index(), 0);
    assert_eq!(g.nodes[0].unit, 0);
    let files: Vec<&str> = g.nodes[0].files.iter().map(|f| f.path.as_str()).collect();
    assert_eq!(files, vec!["/ip/e.vhd", "/ip/a2.vhd"]);
    let listed = collect_units(&sources);
    assert_eq!(listed.len(), 1);
    assert_eq!(listed[0].0.as_iden().unwrap().to_string(), "e");
}

#[test]
fn hash_node_files() {
    let file = |p: &str| IpFile { path: p.to_owned(), library: "work".to_owned() };
    let mut node = HashNode::new(3, 7, file("a.vhd"));
    node.add_file(file("b.vhd"));
    node.add_file(file("a.vhd"));
    assert_eq!(node.index(), 7);
    assert_eq!(node.unit, 3);
    assert_eq!(node.files, vec![file("a.vhd"), file("b.vhd")]);
    let empty = UnitGraph::build(Vec::<DesignUnit>::new());
    assert_eq!(empty.graph.node_count(), 0);
}

#[test]
fn user_filesets_come_first() {
    let sources = vec![source("/ip/nor.vhd", "work", NOR)];
    let files = vec!["/ip/nor.vhd".to_owned(), "/ip/nor_gate.xdc".to_owned(), "/ip/other.xdc".to_owned(), "/ip/notes.txt".to_owned()];
    let mut p = plan();
    p.filesets = Some(vec![
        FilesetSpec { name: "XDC".to_owned(), pattern: "*/{{ orbit.top }}.xdc".to_owned() },
        FilesetSpec { name: "TEXT".to_owned(), pattern: "*.txt".to_owned() },
    ]);
    let plugin = vec![Fileset::new("ALL-XDC", "*.XDC").unwrap()];
    let bp = p.run(&sources, &files, &plugin).unwrap();
    assert_eq!(bp.user_rows, 4);
    assert_eq!(
        bp.to_string(),
        "XDC\tnor_gate\t/ip/nor_gate.xdc\nTEXT\tnotes\t/ip/notes.txt\nALL-XDC\tnor_gate\t/ip/nor_gate.xdc\nALL-XDC\tother\t/ip/other.xdc\nVHDL-RTL\twork\t/ip/nor.vhd\n"
    );
}

fn graph_of(n: usize, edges: &[(usize, usize)]) -> Graph {
    let mut g = Graph::new();
    for i in 0..n {
        assert_eq!(g.add_node(id(&format!("n{}", i))), i);
    }
    for (u, v) in edges {
        assert!(g.add_edge(*u, *v));
    }
    g
}

#[test]
fn graph_nodes_and_edges() {
    let mut g = graph_of(4, &[(0, 1), (1, 2), (0, 2)]);
    // a node of a name that is there is not added again
    assert_eq!(g.add_node(id("N1")), 1);
    assert_eq!(g.node_count(), 4);
    // an edge that is there, or that lacks a node, is not added
    assert!(!g.add_edge(0, 1));
    assert!(!g.add_edge(0, 9));
    assert!(!g.add_edge(9, 0));
    assert_eq!(g.edge_count(), 3);
    assert_eq!(g.successors(0), vec![1, 2]);
    assert_eq!(g.predecessors(2), vec![1, 0]);
    assert_eq!((g.out_degree(0), g.in_degree(0), g.in_degree(2), g.out_degree(3)), (2, 0, 2, 0));
    assert_eq!(g.find_root(), Err(vec![2, 3]));
    assert_eq!(g.find_node(&id("n3")), Some(3));
    assert_eq!(g.find_node(&id("n4")), None);
    assert_eq!(g.get_node(2).unwrap().to_string(), "n2");
    assert!(g.get_node(4).is_none());
    assert_eq!(graph_of(3, &[(0, 1), (2, 1)]).find_root(), Ok(1));
    assert_eq!(graph_of(2, &[(0, 1), (1, 0)]).find_root(), Err(vec![]));
}

#[test]
fn topological_sort_lists_the_ancestors_in_order() {
    // 5 -> 3 -> 1 -> 0, 4 -> 1, 2 -> 0, 6 alone, 0 -> 7
    let g = graph_of(8, &[(1, 0), (3, 1), (5, 3), (4, 1), (2, 0), (0, 7)]);
    let order = g.minimal_topological_sort(0);
    // of the nodes that can come next the one added first does
    assert_eq!(order, vec![2, 4, 5, 3, 1, 0]);
    assert_eq!(g.minimal_topological_sort(1), vec![4, 5, 3, 1]);
    assert_eq!(g.minimal_topological_sort(6), vec![6]);
    assert_eq!(g.minimal_topological_sort(7), vec![2, 4, 5, 3, 1, 0, 7]);
    let marks = g.ancestors(3);
    assert_eq!(marks, vec![false, false, false, true, false, true, false, false]);
    // every edge among the nodes listed leads forward
    for (u, v) in [(1, 0), (3, 1), (5, 3), (4, 1), (2, 0)] {
        let pu = order.iter().position(|x| *x == u).unwrap();
        let pv = order.iter().position(|x| *x == v).unwrap();
        assert!(pu < pv);
    }
    // nodes on a cycle come last, by index
    let g = graph_of(4, &[(0, 1), (1, 2), (2, 1), (2, 3)]);
    assert_eq!(g.minimal_topological_sort(3), vec![0, 1, 2, 3]);
}

#[test]
fn filesets_are_made_of_what_is_asked_for() {
    let spec = |name: &str, pattern: &str| FilesetSpec { name: name.to_owned(), pattern: pattern.to_owned() };
    let specs = vec![spec("XDC", "*/{{ orbit.top }}.xdc"), spec("TEXT", "{{ unknown }}/*.txt")];
    let mut table = VariableTable::new();
    table.add("orbit.top", "nor_gate");
    let sources = Plan::substitute_patterns(&specs, &table);
    assert_eq!(sources, vec!["*/nor_gate.xdc", "{{ unknown }}/*.txt"]);
    let sets = Plan::make_filesets(&specs, &table).unwrap();
    let made: Vec<(&str, &str)> =
        sets.iter().map(|s| (s.name.as_str(), s.get_pattern().as_str())).collect();
    assert_eq!(
        made,
        vec![
("XDC", "*/nor_gate.xdc"), ("TEXT", "{{ unknown }}/*.txt")
        ]
    );
    assert_eq!(compile_all(&sources), vec![true, true]);
    assert_eq!(Plan::assemble_filesets(&specs, &sources, &vec![true, true]).unwrap(), sets);
    // what became of each pattern decides which filesets are made
    assert_eq!(
        Plan::assemble_filesets(&specs, &sources, &vec![false, false]).unwrap_err(),
        PlanError::BadFileset("XDC".to_owned(), FilesetError::InvalidPattern)
    );
    assert_eq!(
        Plan::assemble_filesets(&specs, &sources, &vec![true, false]).unwrap_err(),
        PlanError::BadFileset("TEXT".to_owned(), FilesetError::InvalidPattern)
    );
    let sets = Plan::assemble_filesets(&specs, &sources, &vec![true]).unwrap();
    let made: Vec<(&str, &str)> =
        sets.iter().map(|s| (s.name.as_str(), s.get_pattern().as_str())).collect();
    assert_eq!(made, vec![("XDC", "*/nor_gate.xdc")]);
    assert!(Plan::make_filesets(&vec![], &table).unwrap().is_empty());
}

#[test]
fn a_fileset_that_cannot_be_made_is_refused() {
    let spec = |name: &str, pattern: &str| FilesetSpec { name: name.to_owned(), pattern: pattern.to_owned() };
    let mut table = VariableTable::new();
    table.add("orbit.top", "nor_gate");
    // the pattern is compiled once the variables are replaced
    let specs = vec![spec("XDC", "*.xdc"), spec("broken", "{{ orbit.top }}["), spec("", "*.txt")];
    assert_eq!(
        Plan::make_filesets(&specs, &table).unwrap_err(),
        PlanError::BadFileset("broken".to_owned(), FilesetError::InvalidPattern)
    );
    // the first fileset that cannot be made decides
    let specs = vec![spec("", "a["), spec("broken", "a[")];
    assert_eq!(
        Plan::make_filesets(&specs, &table).unwrap_err(),
        PlanError::BadFileset(String::new(), FilesetError::EmptyName)
    );
    let sources = vec![source("/ip/nor.vhd", "work", NOR)];
    let mut p = plan();
    p.filesets = Some(vec![spec("XDC", "*.xdc"), spec("broken", "a[")]);
    assert_eq!(
        p.run(&sources, &vec![], &vec![]).unwrap_err(),
        PlanError::BadFileset("broken".to_owned(), FilesetError::InvalidPattern)
    );
    // a top that cannot be selected is reported first
    p.top = Some(id("nothing"));
    assert_eq!(p.run(&sources, &vec![], &vec![]).unwrap_err(), PlanError::UnknownEntity(id("nothing")));
    assert_eq!(
        PlanError::BadFileset("broken".to_owned(), FilesetError::InvalidPattern).to_string(),
        "fileset 'broken' cannot be made: its pattern is not well written"
    );
    assert_eq!(
        PlanError::BadFileset(String::new(), FilesetError::EmptyName).to_string(),
        "fileset '' cannot be made: its name is empty"
    );
    assert_eq!(
        PlanError::BadFileset("a".to_owned(), FilesetError::MissingSeparator).to_string(),
        "fileset 'a' cannot be made: no '=' stands after its name"
    );
}

#[test]
fn fileset_is_read_as_it_is_asked_for() {
    let spec = FilesetSpec::from_str("XDC=src/{{ orbit.top }}=*.xdc").unwrap();
    assert_eq!((spec.name.as_str(), spec.pattern.as_str()), ("XDC", "src/{{ orbit.top }}=*.xdc"));
    // a pattern that is not well written is kept: it is compiled when the plan is made
    assert_eq!(FilesetSpec::from_str("A=a[").unwrap().pattern, "a[");
    assert_eq!(FilesetSpec::from_str("A=").unwrap().pattern, "");
    assert_eq!(FilesetSpec::from_str("no separator").unwrap_err(), FilesetError::MissingSeparator);
    assert_eq!(FilesetSpec::from_str("").unwrap_err(), FilesetError::MissingSeparator);
    assert_eq!(FilesetSpec::from_str("=*.txt").unwrap_err(), FilesetError::EmptyName);
}

#[test]
fn plan_of_a_graph_that_is_given() {
    let sources = vec![source("/ip/nor_tb.vhd", "work", NOR_TB), source("/ip/nor.vhd", "work", NOR)];
    let files = vec!["/ip/nor_tb.do".to_owned(), "/ip/nor_gate.xdc".to_owned()];
    let mut p = plan();
    p.filesets = Some(vec![
        FilesetSpec { name: "DO".to_owned(), pattern: "*/{{orbit.bench}}.do".to_owned() },
        FilesetSpec { name: "XDC".to_owned(), pattern: "*/{{ orbit.top }}.xdc".to_owned() },
    ]);
    let plugin = vec![Fileset::new("ANY", "*").unwrap()];
    let rows = p.user_rows("nor_gate", "nor_tb", &files, &plugin).unwrap();
    let text: Vec<String> = rows.iter().map(|r| r.to_string()).collect();
    assert_eq!(
        text,
        vec![
            "DO\tnor_tb\t/ip/nor_tb.do\n",
            "XDC\tnor_gate\t/ip/nor_gate.xdc\n",
            "ANY\tnor_tb\t/ip/nor_tb.do\n",
            "ANY\tnor_gate\t/ip/nor_gate.xdc\n"
        ]
    );
    let bp = p.make_blueprint(Plan::build_graph(&sources), &files, &plugin).unwrap();
    assert_eq!((bp.top_name(), bp.bench_name()), ("nor_gate".to_owned(), "nor_tb".to_owned()));
    assert_eq!(bp.user_rows, 4);
    assert_eq!(bp.rows[..4], rows[..]);
    assert_eq!(
        bp.to_string(),
        "DO\tnor_tb\t/ip/nor_tb.do\nXDC\tnor_gate\t/ip/nor_gate.xdc\nANY\tnor_tb\t/ip/nor_tb.do\nANY\tnor_gate\t/ip/nor_gate.xdc\nVHDL-RTL\twork\t/ip/nor.vhd\nVHDL-SIM\twork\t/ip/nor_tb.vhd\n"
    );
    // the same graph gives the same plan as the sources do
    let again = p.run(&sources, &files, &plugin).unwrap();
    assert_eq!((again.selection, again.order, again.rows), (bp.selection, bp.order, bp.rows));
    // without a unit nothing can be selected
    assert_eq!(
        plan().make_blueprint(Plan::build_graph(&vec![]), &files, &plugin).unwrap_err(),
        PlanError::Ambiguous(AmbiguousKind::Roots, vec![])
    );
}

#[test]
fn edges_come_in_the_order_in_which_the_units_ask() {
    let sources = vec![
        source(
            "/ip/a.vhd",
            "work",
            "entity a is port(x: in bit); end;\narchitecture r of a is begin\n u1: entity work.c;\n u2: entity work.b;\n u3: entity work.c;\nend;",
        ),
        source("/ip/b.vhd", "work", "entity b is port(x: in bit); end;"),
        source("/ip/c.vhd", "work", "use work.b;\nentity c is port(x: in bit); end;"),
    ];
    let g = Plan::build_graph(&sources);
    let keys: Vec<String> = g.graph.keys.iter().map(|k| k.to_string()).collect();
    assert_eq!(keys, vec!["a", "b", "c"]);
    // what the architecture instantiates comes first, in its order and once; then what is referred to
    assert_eq!(g.graph.edges, vec![(2, 0), (1, 0), (1, 2)]);
    let bp = plan().make_blueprint(g, &vec![], &vec![]).unwrap();
    assert_eq!(bp.top_name(), "a");
    assert_eq!(bp.order, vec![1, 2, 0]);
    assert_eq!(
        bp.to_string(),
        "VHDL-RTL\twork\t/ip/b.vhd\nVHDL-RTL\twork\t/ip/c.vhd\nVHDL-RTL\twork\t/ip/a.vhd\n"
    );
    // of two units that can come next, the one met first does
    let sources = vec![
        source("/ip/z.vhd", "work", "entity z is port(x: in bit); end;"),
        source("/ip/y.vhd", "work", "entity y is port(x: in bit); end;"),
        source(
            "/ip/top.vhd",
            "work",
            "entity top is port(x: in bit); end;\narchitecture r of top is begin\n u1: entity work.y;\n u2: entity work.z;\nend;",
        ),
    ];
    let bp = plan().run(&sources, &vec![], &vec![]).unwrap();
    assert_eq!(bp.graph.graph.edges, vec![(1, 2), (0, 2)]);
    assert_eq!(bp.order, vec![0, 1, 2]);
}

#[test]
fn a_package_body_links_its_package() {
    let sources = vec![
        source("/ip/q.vhd", "work", "package q is end package;"),
        source(
            "/ip/p.vhd",
            "work",
            "package p is end package;\npackage body p is\n  constant d : integer := work.q.k;\nend package body;",
        ),
        source("/ip/c.vhd", "work", "use work.p.all;\nconfiguration c of e is for rtl end for; end configuration;"),
    ];
    let g = Plan::build_graph(&sources);
    let keys: Vec<String> = g.graph.keys.iter().map(|k| k.to_string()).collect();
    assert_eq!(keys, vec!["q", "p", "c"]);
    // the body of p refers to q; the configuration takes the use clause before it
    assert_eq!(g.graph.edges, vec![(0, 1), (1, 2)]);
}

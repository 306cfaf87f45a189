use orbit::vhdl::delimiter::Delimiter;
use orbit::vhdl::identifier::Identifier;
use orbit::vhdl::keyword::Keyword;
use orbit::vhdl::lexer::VHDLTokenizer;
use orbit::vhdl::parser::{EndKind, VHDLParser};
use orbit::vhdl::statement::{ParseErrorKind, ResReference, SelectedName, Statement, UseClause};
use orbit::vhdl::subunit::SubUnit;
use orbit::vhdl::symbol::{Architecture, Entity, VHDLSymbol};
use orbit::vhdl::token::{AbstLiteral, Position, Token, VHDLToken};

fn tokens_of(s: &str) -> Vec<Token> {
    VHDLTokenizer::from_source_code(s).into_tokens()
}

#[test]
fn parse_use_clause() {
    let s = "use eel4712c.pkg1, eel4712c.pkg2; entity";
    let tokens = tokens_of(s);
    // the clause starts after USE
    let (using_imports, pos) = VHDLSymbol::parse_use_clause(&tokens, 1).unwrap();
    assert_eq!(
        using_imports,
        UseClause {
            imports: vec![
                SelectedName(vec![
                    Identifier::Basic("eel4712c".to_owned()),
                    Identifier::Basic("pkg1".to_owned()),
                ]),
                SelectedName(vec![
                    Identifier::Basic("eel4712c".to_owned()),
                    Identifier::Basic("pkg2".to_owned()),
                ]),
            ]
        }
    );
    assert_eq!(tokens[pos].as_type(), &VHDLToken::Keyword(Keyword::Entity));
}

#[test]
fn compose_statement_2() {
    let s = "P1, P2: inout BIT); constant Delay: TIME := 1 ms;";
    let tokens = tokens_of(s);
    let (st, pos) = VHDLSymbol::compose_statement(&tokens, 0);
    assert_eq!(
        st.as_types(),
        vec![
            &VHDLToken::Identifier(Identifier::Basic("P1".to_owned())),
            &VHDLToken::Delimiter(Delimiter::Comma),
            &VHDLToken::Identifier(Identifier::Basic("P2".to_owned())),
            &VHDLToken::Delimiter(Delimiter::Colon),
            &VHDLToken::Keyword(Keyword::Inout),
            &VHDLToken::Identifier(Identifier::Basic("BIT".to_owned())),
            &VHDLToken::Delimiter(Delimiter::ParenR),
        ]
    );
    assert_eq!(tokens[pos].as_type(), &VHDLToken::Keyword(Keyword::Constant));
}

#[test]
fn parse_simple_name() {
    let s = "eel4712c.nor_gate port";
    let tokens = tokens_of(s);
    let (sel_name, pos) = VHDLSymbol::compose_name(&tokens, 0).unwrap();
    assert_eq!(
        sel_name,
        SelectedName(vec![
            Identifier::Basic("eel4712c".to_owned()),
            Identifier::Basic("nor_gate".to_owned()),
        ])
    );
    assert_eq!(tokens[pos].as_type(), &VHDLToken::Keyword(Keyword::Port));
}

#[test]
fn parse_simple_name_with_all() {
    let s = "eel4712c.all +";
    let tokens = tokens_of(s);
    let (sel_name, pos) = VHDLSymbol::compose_name(&tokens, 0).unwrap();
    assert_eq!(
        sel_name,
        SelectedName(vec![Identifier::Basic("eel4712c".to_owned())])
    );
    assert_eq!(tokens[pos].as_type(), &VHDLToken::Delimiter(Delimiter::Plus));
}

#[test]
fn parse_port_interface_difficult_ending() {
    let s = "\
port (P1, P2: inout BIT); 
constant Delay: TIME := 1 ms;";
    let tokens = tokens_of(s);
    // the list starts after PORT
    let (ports, pos) = VHDLSymbol::parse_interface_list(&tokens, 1).unwrap();
    let ports: Vec<String> = ports.into_iter().map(|m| m.to_string()).collect();
    assert_eq!(ports, vec!["P1 , P2 : inout BIT",]);
    assert_eq!(tokens[pos].as_type(), &VHDLToken::Keyword(Keyword::Constant));
}

#[test]
fn parse_ports_both() {
    let s = "\
generic ( N: positive );
port(
    a: in  std_logic_vector(N-1 downto 0);
    b: in  std_logic_vector(N-1 downto 0);
    c: out std_logic_vector(N-1 downto 0)
);
end;";
    let tokens = tokens_of(s);
    // the list starts after GENERIC
    let (generics, pos) = VHDLSymbol::parse_interface_list(&tokens, 1).unwrap();
    let generics: Vec<String> = generics.into_iter().map(|m| m.to_string()).collect();
    assert_eq!(generics, vec!["N : positive",]);
    // the next list starts after PORT
    let (ports, pos) = VHDLSymbol::parse_interface_list(&tokens, pos + 1).unwrap();
    let ports: Vec<String> = ports.into_iter().map(|m| m.to_string()).collect();
    assert_eq!(
        ports,
        vec![
            "a : in std_logic_vector(N - 1 downto 0)",
            "b : in std_logic_vector(N - 1 downto 0)",
            "c : out std_logic_vector(N - 1 downto 0)",
        ]
    );
    assert_eq!(tokens[pos].as_type(), &VHDLToken::Keyword(Keyword::End));
}

#[test]
fn parse_generics_only() {
    let s = "\
generic ( N: positive );
begin
end;";
    let tokens = tokens_of(s);
    let (generics, pos) = VHDLSymbol::parse_interface_list(&tokens, 1).unwrap();
    let generics: Vec<String> = generics.into_iter().map(|m| m.to_string()).collect();
    assert_eq!(generics, vec!["N : positive",]);
    assert_eq!(tokens[pos].as_type(), &VHDLToken::Keyword(Keyword::Begin));
}

#[test]
fn parse_component() {
    // ends with 'end component nor_gate;' Statement
    let s = "\
component nor_gate is end component nor_gate;

signal ready: std_logic;";
    let tokens = tokens_of(s);
    let (comp, pos) = VHDLSymbol::parse_component(&tokens, 0).unwrap();
    assert_eq!(comp.to_string(), "nor_gate");
    assert_eq!(tokens[pos].as_type(), &VHDLToken::Keyword(Keyword::Signal));

    // ends with 'end;' statement
    let s = "\
component nor_gate end;

signal ready: std_logic;";
    let tokens = tokens_of(s);
    let (comp, pos) = VHDLSymbol::parse_component(&tokens, 0).unwrap();
    assert_eq!(comp.to_string(), "nor_gate");
    assert_eq!(tokens[pos].as_type(), &VHDLToken::Keyword(Keyword::Signal));

    // ends with 'end component nor_gate;' statement
    let s = "\
-- declare DUT component
component nor_gate 
    generic( N: positive );
    port(
        a: in  std_logic_vector(N-1 downto 0);
        b: in  std_logic_vector(N-1 downto 0);
        c: out std_logic_vector(N-1 downto 0)
    );
end component nor_gate;

signal ready: std_logic;";
    let tokens = tokens_of(s);
    let (comp, pos) = VHDLSymbol::parse_component(&tokens, 0).unwrap();
    assert_eq!(comp.to_string(), "nor_gate");
    assert_eq!(tokens[pos].as_type(), &VHDLToken::Keyword(Keyword::Signal));
}

#[test]
fn is_primary_ending() {
    // 'case' is not a primary ending
    let stmt = Statement(
        vec![
            Token::new(VHDLToken::Keyword(Keyword::End), Position::new()),
            Token::new(VHDLToken::Keyword(Keyword::Case), Position::new()),
            Token::new(
                VHDLToken::Identifier(Identifier::Basic("case_label".to_owned())),
                Position::new(),
            ),
        ],
        vec![],
    );
    assert_eq!(VHDLSymbol::is_primary_ending(&stmt), false);

    // primary endings can omit keyword and identifier label
    let stmt = Statement(
        vec![Token::new(VHDLToken::Keyword(Keyword::End), Position::new())],
        vec![],
    );
    assert_eq!(VHDLSymbol::is_primary_ending(&stmt), true);

    // primary endings can include their keyword
    let stmt = Statement(
        vec![
            Token::new(VHDLToken::Keyword(Keyword::End), Position::new()),
            Token::new(VHDLToken::Keyword(Keyword::Architecture), Position::new()),
            Token::new(
                VHDLToken::Identifier(Identifier::Basic("architecture_name".to_owned())),
                Position::new(),
            ),
        ],
        vec![],
    );
    assert_eq!(VHDLSymbol::is_primary_ending(&stmt), true);

    // primary endings can have their keyword omitted and also include the identifier label
    let stmt = Statement(
        vec![
            Token::new(VHDLToken::Keyword(Keyword::End), Position::new()),
            Token::new(
                VHDLToken::Identifier(Identifier::Basic("architecture_name".to_owned())),
                Position::new(),
            ),
        ],
        vec![],
    );
    assert_eq!(VHDLSymbol::is_primary_ending(&stmt), true);
}

#[test]
fn entity() {
    let s = "\
nor_gate is
    generic(
        N: positive
    );
    port(
        a: in  std_logic_vector(N-1 downto 0);
        b: in  std_logic_vector(N-1 downto 0);
        c: out std_logic_vector(N-1 downto 0)
    );
end entity nor_gate;";
    let tokens = tokens_of(s);
    let _ = Entity::from_tokens(&tokens, 0);
}

#[test]
fn resource_refs() {
    let s = "a : in std_logic_vector(3 downto 0) := work.pack1.p1;";
    let tokens = tokens_of(s);
    assert_eq!(
        VHDLSymbol::compose_statement(&tokens, 0).0.get_refs(),
        vec![
            &ResReference {
                prefix: Identifier::from_str("work").unwrap(),
                suffix: Identifier::from_str("pack1").unwrap()
            },
            &ResReference {
                prefix: Identifier::from_str("pack1").unwrap(),
                suffix: Identifier::from_str("p1").unwrap()
            },
        ]
    );

    let s = "use work.package_name;";
    let tokens = tokens_of(s);
    assert_eq!(
        VHDLSymbol::compose_statement(&tokens, 0).0.get_refs(),
        vec![&ResReference {
            prefix: Identifier::from_str("work").unwrap(),
            suffix: Identifier::from_str("package_name").unwrap()
        },]
    );

    let s = "use MKS.MEASUREMENTS, STD.STANDARD;";
    let tokens = tokens_of(s);
    assert_eq!(
        VHDLSymbol::compose_statement(&tokens, 0).0.get_refs(),
        vec![
            &ResReference {
                prefix: Identifier::from_str("MKS").unwrap(),
                suffix: Identifier::from_str("MEASUREMENTS").unwrap()
            },
            &ResReference {
                prefix: Identifier::from_str("STD").unwrap(),
                suffix: Identifier::from_str("STANDARD").unwrap()
            },
        ]
    );
}

#[test]
fn compose_statement() {
    let s = "a : in std_logic_vector(3 downto 0);";
    let tokens = tokens_of(s);
    assert_eq!(
        VHDLSymbol::compose_statement(&tokens, 0).0.as_types(),
        vec![
            &VHDLToken::Identifier(Identifier::Basic("a".to_owned())),
            &VHDLToken::Delimiter(Delimiter::Colon),
            &VHDLToken::Keyword(Keyword::In),
            &VHDLToken::Identifier(Identifier::Basic("std_logic_vector".to_owned())),
            &VHDLToken::Delimiter(Delimiter::ParenL),
            &VHDLToken::AbstLiteral(AbstLiteral::Decimal("3".to_owned())),
            &VHDLToken::Keyword(Keyword::Downto),
            &VHDLToken::AbstLiteral(AbstLiteral::Decimal("0".to_owned())),
            &VHDLToken::Delimiter(Delimiter::ParenR),
        ]
    );

    let s = "a : in std_logic_vector(3 downto 0); ready: out std_logic);";
    let tokens = tokens_of(s);
    assert_eq!(
        VHDLSymbol::compose_statement(&tokens, 0).0.as_types(),
        vec![
            &VHDLToken::Identifier(Identifier::Basic("a".to_owned())),
            &VHDLToken::Delimiter(Delimiter::Colon),
            &VHDLToken::Keyword(Keyword::In),
            &VHDLToken::Identifier(Identifier::Basic("std_logic_vector".to_owned())),
            &VHDLToken::Delimiter(Delimiter::ParenL),
            &VHDLToken::AbstLiteral(AbstLiteral::Decimal("3".to_owned())),
            &VHDLToken::Keyword(Keyword::Downto),
            &VHDLToken::AbstLiteral(AbstLiteral::Decimal("0".to_owned())),
            &VHDLToken::Delimiter(Delimiter::ParenR),
        ]
    );

    let s = "process(all) is begin end process;";
    let tokens = tokens_of(s);
    let (_, pos) = VHDLSymbol::compose_statement(&tokens, 0);
    assert_eq!(tokens[pos].as_type(), &VHDLToken::Keyword(Keyword::End));
}

#[test]
fn print_statement() {
    let s = "a : in std_logic_vector ( 3 downto 0);";
    let tokens = tokens_of(s);
    let (st, _) = VHDLSymbol::compose_statement(&tokens, 0);
    assert_eq!(st.to_string(), "a : in std_logic_vector(3 downto 0)");
}

#[test]
fn configuration() {
    let s = r#"
use work.all;

configuration HA_Config of HA_Entity is
    for HA_Arch
        for HA_Inst : HA_Comp
            use entity HA_Comp_Entity(HA_Comp_Arch_1);
        end for;
        use work.some_pkg.all;
        for HA_Inst : HA_Comp
            use entity HA_Comp_Entity2(HA_Comp_Arch_1);
        end for;
    end for;
end HA_Config;    
"#;
    let symbols = VHDLParser::parse(tokens_of(s));
    assert_eq!(
        symbols
            .first()
            .unwrap()
            .as_ref()
            .unwrap()
            .as_ref()
            .as_configuration()
            .unwrap()
            .edges(),
        &vec![
            Identifier::Basic(String::from("HA_Comp_Entity")),
            Identifier::Basic(String::from("HA_Comp_Entity2"))
        ]
    );
}

#[test]
fn configuration_spec() {
    let s = r#"
for L1: XOR_GATE use entity WORK.XOR_GATE(Behavior) -- or L1 = 'others' = 'L1, L2, ...' = 'all'
        generic map (3 ns, 3 ns)
        port map (I1 => I1, I2 => I2, O => O);    
"#;
    let tokens = tokens_of(s);
    let (st, _) = VHDLSymbol::compose_statement(&tokens, 0);
    let iden = VHDLSymbol::parse_configuration_spec(st);
    assert_eq!(iden.unwrap(), Identifier::Basic(String::from("XOR_GATE")));

    let s = r#"
for all: xor_gate use configuration cfg1;    
"#;
    let tokens = tokens_of(s);
    let (st, _) = VHDLSymbol::compose_statement(&tokens, 0);
    let iden = VHDLSymbol::parse_configuration_spec(st);
    assert_eq!(iden.unwrap(), Identifier::Basic(String::from("cfg1")));
}

#[test]
fn entity_names_are_recovered_in_order() {
    let s = "\
entity adder is
    generic( N: positive; M, K: natural := 2 );
    port(
        clk, rst: in std_logic;
        a: in  std_logic_vector(N-1 downto 0);
        sum: out std_logic_vector(N-1 downto 0)
    );
end entity adder;";
    let symbols = VHDLParser::read(s).into_symbols();
    assert_eq!(symbols.len(), 1);
    let ent = symbols[0].as_entity().unwrap();
    assert_eq!(ent.get_name().to_string(), "adder");
    let generics: Vec<String> = ent.generics.0 .0.iter().map(|d| d.name.to_string()).collect();
    assert_eq!(generics, vec!["N", "M", "K"]);
    let ports: Vec<String> = ent.ports.0 .0.iter().map(|d| d.name.to_string()).collect();
    assert_eq!(ports, vec!["clk", "rst", "a", "sum"]);
    assert_eq!(ent.ports.0 .0[0].mode, Some(Keyword::In));
    assert_eq!(ent.ports.0 .0[3].mode, Some(Keyword::Out));
    assert_eq!(ent.generics.0 .0[1].default.len(), 1);
    assert!(!ent.is_testbench());
}

#[test]
fn entity_without_ports_is_a_testbench() {
    let symbols = VHDLParser::read("entity nor_tb is end;").into_symbols();
    assert!(symbols[0].as_entity().unwrap().is_testbench());
    let symbols =
        VHDLParser::read("entity g is generic (N: positive); end entity;").into_symbols();
    assert!(symbols[0].as_entity().unwrap().is_testbench());
}

#[test]
fn architecture_collects_instances_and_references() {
    let s = "\
library ieee;
use ieee.std_logic_1164.all;

architecture sim of nor_tb is
    component nor_gate
        port (a: in bit; b: in bit; c: out bit);
    end component;
    for all: xor_gate use configuration cfg1;
    signal x: work.types.word;
begin
    U0: nor_gate port map(a => x, b => x, c => open);
    U1: entity work.and_gate port map(a => x);
    proc: process(all) is begin
        y <= lib1.pkg1.const_a;
    end process;
end architecture;";
    let symbols = VHDLParser::read(s).into_symbols();
    assert_eq!(symbols.len(), 1);
    let arch = symbols[0].as_architecture().unwrap();
    assert_eq!(arch.name().to_string(), "sim");
    assert_eq!(arch.entity().to_string(), "nor_tb");
    let deps: Vec<String> = arch.edges().iter().map(|d| d.to_string()).collect();
    assert_eq!(deps, vec!["cfg1", "nor_gate", "and_gate"]);
    let refs: Vec<String> = arch.get_refs().iter().map(|r| r.to_string()).collect();
    assert_eq!(
        refs,
        vec![
            "work.types",
            "types.word",
            "work.and_gate",
            "lib1.pkg1",
            "pkg1.const_a",
            "ieee.std_logic_1164"
        ]
    );
}

#[test]
fn package_and_body_and_context() {
    let s = "\
package P is
    function F return INTEGER;
    component some_component is
    end component;
end package P;

package body P is
    constant C : integer := other.thing;
end package body P;

context ctx is
    library ieee;
    use ieee.numeric_std.all;
end context ctx;
";
    let symbols = VHDLParser::read(s).into_symbols();
    assert_eq!(symbols.len(), 3);
    assert_eq!(symbols[0].as_iden().unwrap().to_string(), "P");
    assert!(matches!(symbols[0], VHDLSymbol::Package(_)));
    assert!(matches!(symbols[1], VHDLSymbol::PackageBody(_)));
    assert!(symbols[1].as_iden().is_none());
    assert!(matches!(symbols[2], VHDLSymbol::Context(_)));
    let refs: Vec<String> = symbols[2].get_refs().iter().map(|r| r.to_string()).collect();
    assert_eq!(refs, vec!["ieee.numeric_std"]);
}

#[test]
fn global_references_go_to_the_next_unit() {
    let s = "\
use work.pkg_a.all;
context work.ctx1;
entity e is port (a: in bit); end;
entity f is end;";
    let symbols = VHDLParser::read(s).into_symbols();
    let refs: Vec<String> = symbols[0].get_refs().iter().map(|r| r.to_string()).collect();
    assert_eq!(refs, vec!["work.pkg_a", "work.ctx1"]);
    assert!(symbols[1].get_refs().is_empty());
}

#[test]
fn broken_structure_is_reported_with_its_place() {
    // architecture header without 'of'
    let tokens = tokens_of("entity e is end;\narchitecture rtl is begin end;");
    let results = VHDLParser::parse(tokens);
    assert_eq!(results.len(), 2);
    assert!(results[0].is_ok());
    let err = results[1].as_ref().unwrap_err();
    assert_eq!(err.error.kind, ParseErrorKind::ExpectedKeyword(Keyword::Of));
    assert_eq!(err.position.line, 1);
    assert_eq!(err.error.index, 7);
    // the units before the fault stay
    assert_eq!(
        VHDLParser::read("entity e is end;\narchitecture rtl is begin end;")
            .into_symbols()
            .len(),
        1
    );
}

#[test]
fn parse_errors_of_each_kind() {
    let t = tokens_of("entity");
    // the end-of-text token stands where the name is missing
    let e = VHDLSymbol::parse_entity(&t, 1).unwrap_err();
    assert_eq!(e.kind, ParseErrorKind::ExpectedIdentifier);
    let e = VHDLSymbol::parse_entity(&t, 2).unwrap_err();
    assert_eq!(e.kind, ParseErrorKind::UnexpectedEnd);
    let t = tokens_of("port a");
    let e = VHDLSymbol::parse_interface_list(&t, 1).unwrap_err();
    assert_eq!(e.kind, ParseErrorKind::ExpectedDelimiter(Delimiter::ParenL));
    let t = tokens_of("port ( ; a : in bit );");
    let e = VHDLSymbol::parse_interface_list(&t, 1).unwrap_err();
    assert_eq!(e.kind, ParseErrorKind::EmptyInterfaceItem);
    let t = tokens_of("package p begin");
    let e = VHDLSymbol::parse_package_declaration(&t, 1).unwrap_err();
    assert_eq!(e.kind, ParseErrorKind::ExpectedKeyword(Keyword::Is));
}

#[test]
fn instantiation_forms() {
    let forms = [
        ("u0 : nor_gate port map (a);", Some("nor_gate")),
        ("u0 : entity work.nor_gate(rtl) port map (a);", Some("nor_gate")),
        ("u0 : component nor_gate;", Some("nor_gate")),
        ("u0 : configuration work.cfg;", Some("cfg")),
        ("u0 : process (clk);", None),
        ("a <= b;", None),
        ("u0 : entity;", None),
    ];
    for (text, expected) in forms {
        let tokens = tokens_of(text);
        let (st, _) = VHDLSymbol::compose_statement(&tokens, 0);
        let found = VHDLSymbol::parse_instantiation(st).map(|id| id.to_string());
        assert_eq!(found.as_deref(), expected, "{}", text);
    }
}

#[test]
fn statement_ends_early_at_breaking_tokens() {
    let tokens = tokens_of("gen: for i in 0 to 7 generate u: x; end generate;");
    let (st, pos) = VHDLSymbol::compose_statement(&tokens, 0);
    assert_eq!(st.to_string(), "gen : for i in 0 to 7 generate");
    assert_eq!(tokens[pos].as_type(), &VHDLToken::Identifier(Identifier::Basic("u".to_owned())));
    let tokens = tokens_of("when single_cycle => x <= y;");
    let (st, _) = VHDLSymbol::compose_statement(&tokens, 0);
    assert_eq!(st.to_string(), "when single_cycle =>");
    // without a closing semicolon the statement is empty
    let tokens = tokens_of("a b c");
    let (st, pos) = VHDLSymbol::compose_statement(&tokens, 0);
    assert!(st.0.is_empty());
    assert_eq!(pos, tokens.len());
}

#[test]
fn sub_and_primary_endings() {
    let tokens = tokens_of("end process; end; function f return x is begin");
    let (a, p) = VHDLSymbol::compose_statement(&tokens, 0);
    let (b, p) = VHDLSymbol::compose_statement(&tokens, p);
    let (c, _) = VHDLSymbol::compose_statement(&tokens, p);
    assert!(VHDLSymbol::is_sub_ending(&a));
    assert!(!VHDLSymbol::is_sub_ending(&b));
    assert!(VHDLSymbol::is_sub_declaration(&c));
    assert!(!VHDLSymbol::is_sub_declaration(&a));
    assert!(VHDLSymbol::is_subprogram(&Keyword::Impure));
    assert!(VHDLSymbol::enter_subprogram(&Keyword::Procedure));
    assert!(!VHDLSymbol::is_subprogram(&Keyword::Process));
}

#[test]
fn body_skips_nested_constructs() {
    let s = "\
    blk: block
    begin
        u1: inner port map (a);
    end block;
    u2: outer port map (b);
end architecture;
entity";
    let tokens = tokens_of(s);
    let (deps, _, pos) = VHDLSymbol::parse_body(&tokens, 0, EndKind::Primary).unwrap();
    let deps: Vec<String> = deps.iter().map(|d| d.to_string()).collect();
    assert_eq!(deps, vec!["inner", "outer"]);
    assert_eq!(tokens[pos].as_type(), &VHDLToken::Keyword(Keyword::Entity));
}

#[test]
fn component_and_instance_text() {
    let s = "entity nor_gate is generic (N: positive := 8); port (a, b: in bit; c: out bit); end;";
    let symbols = VHDLParser::read(s).into_symbols();
    let ent = symbols[0].as_entity().unwrap();
    assert_eq!(
        ent.into_component(),
        "component nor_gate\ngeneric (\n    N : positive := 8\n);\nport (\n    a : in bit;\n    b : in bit;\n    c : out bit\n);\nend component;\n"
    );
    assert_eq!(
        ent.into_signals(),
        "signal a : bit;\nsignal b : bit;\nsignal c : bit;\n"
    );
    assert_eq!(ent.into_constants(), "constant N : positive := 8;\n");
    assert_eq!(
        ent.into_instance("u0", Some("work".to_owned())),
        "u0 : entity work.nor_gate generic map (\n    N => N\n) port map (\n    a => a,\n    b => b,\n    c => c\n);"
    );
    assert_eq!(
        VHDLParser::read("entity t is end;").into_symbols()[0]
            .as_entity()
            .unwrap()
            .into_instance("dut", None),
        "dut : t;"
    );
}

#[test]
fn units_hand_out_their_parts() {
    let mut symbols = VHDLParser::read(
        "entity e is port (a: in bit); end;\narchitecture rtl of e is begin u: x; y <= p.q; end;\nconfiguration c of e is for rtl for all: x use entity work.z; end for; end for; end;\npackage body pb is end;",
    )
    .into_symbols();
    assert_eq!(symbols.len(), 4);
    let body = symbols.pop().unwrap();
    match body {
        VHDLSymbol::PackageBody(b) => {
            assert_eq!(b.get_owner().to_string(), "pb");
            assert!(b.get_refs().is_empty());
            assert!(b.take_refs().is_empty());
        }
        _ => panic!("a package body was read last"),
    }
    let cfg = match symbols.pop().unwrap() {
        VHDLSymbol::Configuration(c) => SubUnit::from_config(c),
        _ => panic!("a configuration was read third"),
    };
    assert_eq!(cfg.get_entity().to_string(), "e");
    assert_eq!(cfg.get_edges().len(), 1);
    assert!(cfg.get_refs().is_empty());
    let arch = symbols.pop().unwrap();
    assert!(arch.as_entity().is_none() && arch.as_configuration().is_none());
    let arch = arch.into_architecture().unwrap();
    let sub = SubUnit::from_arch(Architecture { name: arch.name().clone(), owner: arch.entity().clone(), dependencies: arch.edges().clone(), refs: vec![] });
    assert_eq!(sub.get_edges(), arch.edges());
    assert_eq!(arch.get_refs()[0].get_prefix().to_string(), "p");
    assert_eq!(arch.get_refs()[0].get_suffix().to_string(), "q");
    let mut ent = symbols.pop().unwrap().into_entity().unwrap();
    assert!(ent.get_architectures().is_empty());
    ent.link_architecture(arch);
    assert_eq!(ent.get_architectures().len(), 1);
    assert!(ent.get_refs().is_empty());
    assert!(Entity::new().is_testbench());
    assert_eq!(Entity::new().name, Identifier::new());
    assert!(matches!(Entity::new().name, Identifier::Basic(_)));
    let tokens = tokens_of("x");
    assert!(tokens[1].as_ref().is_eof());
    assert_eq!(tokens[0].clone().take().take_identifier().unwrap().to_string(), "x");
    assert!(VHDLToken::Keyword(Keyword::Is).as_keyword().is_some());
}

#[test]
fn reads_a_file_of_many_units() {
    let s = "\
-- design file for a nor_gate
library ieee;
use ieee.std_logic_1164.all;

entity nor_gate is -- comment on this line
    generic(
        N: positive
    );
    port(
        a : in std_logic_vector(N-1 downto 0);
        b : in std_logic_vector(N-1 downto 0);
        c : out std_logic_vector(N-1 downto 0)
    );
begin
end entity nor_gate;

architecture rtl of nor_gate is
    constant GO_ADDR_MMAP:integer:=2#001_1100.001#E14;
    constant freq_hz : unsigned := 50_000_000;
    signal   MAGIC_NUM_3 : bit_vector(3 downto 0) := 0sx\"\";
    constant MAGIC_NUM_1 : integer := 2#10101#; -- test constants against tokenizer
    constant MAGIC_NUM_2 : std_logic_vector(7 downto 0) := 0; -- 8c\"11\";
begin
    c <= a nor \\In\\;

end architecture rtl; /* long comment */

entity nor_gate_tb is end;

architecture tb of nor_gate_tb is 
-- declare DUT component
component nor_gate 
	generic(
		N: positive
	);
	port(
		a: in  std_logic_vector(N-1 downto 0);
		b: in  std_logic_vector(N-1 downto 0);
		c: out std_logic_vector(N-1 downto 0)
	);
end component nor_gate;
begin 
	DUT : component nor_gate 
    generic map     (
		N   => N
	) port map(
		a => w_a,
		b => w_b,
		c => w_c
	);

end;

package P is

function F return INTEGER;
attribute FOREIGN of F: function is \"implementation-dependent information\"; 

end package P;

package outer is
    package inner is 
        component some_component is
        end component;
    end package;
end package;

entity X is
port (P1, P2: inout BIT); 
constant Delay: TIME := 1 ms;
begin
CheckTiming (P1, P2, 2*Delay); end X ;

package TimeConstants is 
constant tPLH : Time := 9 ns;
constant tPHL : Time := 10 ns;
end TimeConstants ;

architecture test of nor_gate is 

begin 

GEN_ADD: for I in 0 to 7 generate

LOWER_BIT: if I=0 generate
  U0: HALFADD port map
     (A(I),B(I),S(I),C(I));
end generate LOWER_BIT;

UPPER_BITS: if I>0 generate
  UX: FULLADD port map
     (A(I),B(I),C(I-1),S(I),C(I));
end generate UPPER_BITS;

end generate GEN_ADD;

end architecture;
";
    assert!(VHDLTokenizer::from_source_code(s).into_errors().is_empty());
    let symbols = VHDLParser::read(s).into_symbols();
    let listed: Vec<String> = symbols
        .iter()
        .map(|u| match u {
            VHDLSymbol::Entity(e) => format!("entity {}", e.get_name().to_string()),
            VHDLSymbol::Architecture(a) => format!("architecture {} of {}", a.name().to_string(), a.entity().to_string()),
            VHDLSymbol::Package(p) => format!("package {}", p.get_name().to_string()),
            VHDLSymbol::PackageBody(b) => format!("package body {}", b.get_owner().to_string()),
            VHDLSymbol::Configuration(c) => format!("configuration {}", c.name().to_string()),
            VHDLSymbol::Context(c) => format!("context {}", c.get_name().to_string()),
        })
        .collect();
    assert_eq!(
        listed,
        vec![
            "entity nor_gate",
            "architecture rtl of nor_gate",
            "entity nor_gate_tb",
            "architecture tb of nor_gate_tb",
            "package P",
            "package outer",
            "entity X",
            "package TimeConstants",
            "architecture test of nor_gate",
        ]
    );
    let refs: Vec<String> = symbols[0].get_refs().iter().map(|r| r.to_string()).collect();
    assert_eq!(refs, vec!["ieee.std_logic_1164"]);
    let tb = symbols[3].as_architecture().unwrap();
    assert_eq!(tb.edges().iter().map(|d| d.to_string()).collect::<Vec<_>>(), vec!["nor_gate"]);
    let test = symbols[8].as_architecture().unwrap();
    assert_eq!(test.edges().iter().map(|d| d.to_string()).collect::<Vec<_>>(), vec!["HALFADD", "FULLADD"]);
    let x = symbols[6].as_entity().unwrap();
    assert_eq!(x.ports.0 .0.iter().map(|d| d.name.to_string()).collect::<Vec<_>>(), vec!["P1", "P2"]);
}

fn refs_of(sym: &VHDLSymbol) -> Vec<String> {
    sym.get_refs().iter().map(|r| r.to_string()).collect()
}

#[test]
fn packages_and_bodies_keep_their_references() {
    let symbols = VHDLParser::read(
        "package p is\n  use work.q.all;\n  constant c : integer := work.r.k;\nend package;\npackage body p is\n  constant d : integer := m.n;\nend package body;",
    )
    .into_symbols();
    assert_eq!(symbols.len(), 2);
    assert_eq!(refs_of(&symbols[0]), vec!["work.q", "work.r", "r.k"]);
    assert_eq!(refs_of(&symbols[1]), vec!["m.n"]);
    assert!(matches!(&symbols[1], VHDLSymbol::PackageBody(b) if b.get_owner().to_string() == "p"));
    // a package within a package hands its references to the outer one
    let symbols = VHDLParser::read(
        "package outer is\n  package inner is\n    use lib.s.all;\n  end package;\n  use work.t.all;\nend package;",
    )
    .into_symbols();
    assert_eq!(symbols.len(), 1);
    assert_eq!(refs_of(&symbols[0]), vec!["lib.s", "work.t"]);
}

#[test]
fn entities_keep_their_references() {
    let symbols = VHDLParser::read(
        "use work.pool.all;\nentity e is\n  generic (g : lib1.t1.ty := 1);\n  port (a : in lib2.t2.ty);\n  use work.u.all;\nbegin\n  assert work.v.ok;\nend entity;",
    )
    .into_symbols();
    assert_eq!(symbols.len(), 1);
    assert_eq!(
        refs_of(&symbols[0]),
        vec!["lib1.t1", "t1.ty", "lib2.t2", "t2.ty", "work.u", "work.v", "v.ok", "work.pool"]
    );
    let ent = symbols[0].as_entity().unwrap();
    assert_eq!(ent.get_name().to_string(), "e");
    assert!(!ent.is_testbench());
}

#[test]
fn configurations_keep_their_references() {
    let symbols = VHDLParser::read(
        "use work.pre.all;\nconfiguration c of e is\n  use work.in1.all;\n  for rtl\n    use work.in2.all;\n    for all : x use entity work.z; end for;\n  end for;\nend configuration;",
    )
    .into_symbols();
    assert_eq!(symbols.len(), 1);
    let cfg = symbols[0].as_configuration().unwrap();
    let deps: Vec<String> = cfg.edges().iter().map(|d| d.to_string()).collect();
    assert_eq!(deps, vec!["z"]);
    // the references of its statements come first, then those gathered before it
    assert_eq!(refs_of(&symbols[0]), vec!["work.in1", "work.in2", "work.pre"]);
}

use orbit::command::{Command, NumCast, Orbit, Subcommand, Sum};
use orbit::extgit::{as_https, ExtGit, ExtGitError};
use orbit::fileset::{
    compile_all, compiles, fileset_rows as rows_of_filesets, match_table, rows_for, select_files, Fileset,
    FilesetError, Row,
};
use orbit::template::{gather_variable, substitute, VariableTable};
use orbit::util::filesystem::{
    into_std_str, is_minimal, is_orbit_metadata, is_rtl, is_vhdl, remove_base, resolve_rel_path,
    standardize_with, to_absolute, Unit,
};
use std::path::PathBuf;

/// Internal helper test `fn` to generate a sample code book for looking up variables.
fn create_code() -> VariableTable {
    let mut code = VariableTable::new();
    code.add("orbit.name", "gates");
    code.add("orbit.library", "rary");
    code.add("orbit.place", "bar");
    code
}

fn gather(text: &str) -> Result<String, String> {
    let chars: Vec<char> = text.chars().collect();
    gather_variable(&chars, 0, '{', '}').0
}

#[test]
fn gather_var() {
    let text = "{ variable }}";
    assert_eq!(gather(text), Ok("{{ variable }}".to_owned()));

    let text = "{ variable }";
    assert_eq!(gather(text), Err("{{ variable }".to_owned()));

    let text = "variable }";
    assert_eq!(gather(text), Err("{v".to_owned()));

    let text = "{variable } } ";
    assert_eq!(gather(text), Err("{{variable } } ".to_owned()));
}

#[test]
fn replace_variables() {
    let text = "The quick brown fox jumped over the lazy {{ orbit.name }}.";
    let code = create_code();
    assert_eq!(
        substitute(text.to_owned(), &code),
        "The quick brown fox jumped over the lazy gates.".to_owned()
    );

    let text = "A duck, a bear, and a {{ animal }} walk into a {{  orbit.place   }}...";
    let code = create_code();
    assert_eq!(
        substitute(text.to_owned(), &code),
        "A duck, a bear, and a {{ animal }} walk into a bar...".to_owned()
    );
}

#[test]
fn substitute_edge_cases() {
    let mut code = create_code();
    code.add("orbit.name", "again");
    assert_eq!(code.get("orbit.name"), Some(&"again".to_owned()));
    assert_eq!(code.get("orbit"), None);
    assert_eq!(substitute("{{orbit.name}}{orbit.name}{{ orbit.name }".to_owned(), &code), "again{orbit.name}{{ orbit.name }");
    assert_eq!(substitute("{".to_owned(), &code), "{");
    assert_eq!(substitute("a{b".to_owned(), &code), "a{b");
    assert_eq!(substitute("{{}}{{\torbit.library\n}}".to_owned(), &code), "{{}}rary");
    assert_eq!(substitute("".to_owned(), &code), "");
    let chars: Vec<char> = "ab{{ x }} c".chars().collect();
    assert_eq!(gather_variable(&chars, 3, '{', '}'), (Ok("{{ x }}".to_owned()), 9));
    assert_eq!(gather_variable(&chars, 20, '{', '}'), (Err("{".to_owned()), 20));
}

#[test]
fn rem_base() {
    let base = "c:/users/kepler/projects";
    let full = "c:/users/kepler/projects/gates/src/and_gate.vhd";
    assert_eq!(PathBuf::from(remove_base(base, full)), PathBuf::from("gates/src/and_gate.vhd"));

    let base = "c:/users/kepler/projects";
    let full = "c:/users/kepler/projects/";
    assert_eq!(PathBuf::from(remove_base(base, full)), PathBuf::new());

    let base = "";
    let full = "c:/users/kepler/projects/";
    assert_eq!(
        PathBuf::from(remove_base(base, full)),
        PathBuf::from("c:/users/kepler/projects/")
    );

    let base = "./tests/env/";
    let full = "./tests/env/Orbit.toml";
    assert_eq!(PathBuf::from(remove_base(base, full)), PathBuf::from("Orbit.toml"));
}

#[test]
fn remove_base_compares_component_by_component() {
    assert_eq!(remove_base("/a/b", "/a/c/d"), "c/d");
    assert_eq!(remove_base("/a//b/", "/a/./b/c"), "c");
    assert_eq!(remove_base("x/y", "/x/y"), "/x/y");
    assert_eq!(remove_base("/", "/x/y"), "x/y");
    assert_eq!(remove_base("a/b/c", "a/b"), "");
}

#[test]
fn standardize_paths() {
    let cwd = "/work/dir";
    assert_eq!(standardize_with("~/.orbit/plugins/a.txt", Some("/home/kepler"), cwd), "/home/kepler/.orbit/plugins/a.txt");
    assert_eq!(standardize_with("home/.././b.txt", None, cwd), "/work/dir/b.txt");
    assert_eq!(standardize_with("/home\\c.txt", None, cwd), "/home/c.txt");
    assert_eq!(standardize_with("./d.txt", None, cwd), "/work/dir/d.txt");
    assert_eq!(standardize_with("../../../d.txt", None, cwd), "d.txt");
    assert_eq!(standardize_with("~/a", None, cwd), "~/a");
    assert_eq!(standardize_with("", None, cwd), "");
    assert_eq!(resolve_rel_path("/src", true, cwd), "/src");
    assert_eq!(resolve_rel_path("orbit", false, cwd), "orbit");
    assert_eq!(resolve_rel_path("src/../lib.rs", true, cwd), "/work/dir/lib.rs");
}

#[test]
fn file_names() {
    assert_eq!(into_std_str("c:\\users\\kepler\\"), "c:/users/kepler");
    assert_eq!(into_std_str("a/b/"), "a/b");
    assert_eq!(into_std_str("a/b//"), "a/b/");
    assert!(is_vhdl("src/top.VHD") && is_vhdl("a.b/x.vhdl") && !is_vhdl("a.vhd/x") && !is_vhdl("vhd") && !is_vhdl("x.vhdx"));
    assert!(is_rtl("/p/nor.vhd") && !is_rtl("/p/nor_tb.vhd") && !is_rtl("TB_nor.vhd") && is_rtl("/tb_dir/nor.vhd") && is_rtl("tb.vhd"));
    assert!(is_orbit_metadata("Orbit.toml") && is_orbit_metadata("Orbit.lock") && is_orbit_metadata(".orbitignore") && !is_orbit_metadata("orbit.toml"));
    assert!(is_minimal("x.vhd") && is_minimal("Orbit.lock") && !is_minimal("readme.md"));
    assert_eq!(Unit::MegaBytes.value(), 1000000);
    assert_eq!(Unit::Bytes.value(), 1);
}

#[test]
fn fileset_rows() {
    let set = Fileset::from_str("PIN-PLAN=*.board").unwrap();
    assert_eq!(set.get_name(), "PIN-PLAN");
    assert_eq!(set.get_pattern().as_str(), "*.board");
    assert!(set.matches("/ip/pins/Top.BOARD"));
    assert!(!set.matches("/ip/pins/top.txt"));
    assert_eq!(set.to_blueprint_string("/ip/pins/top.board"), "PIN-PLAN\ttop\t/ip/pins/top.board\n");
    let files = vec!["a.board".to_owned(), "b.txt".to_owned(), "c.board".to_owned()];
    assert_eq!(set.collect_files(&files), vec!["a.board", "c.board"]);
    assert_eq!(select_files(&files, &vec![false, true, true]), vec!["b.txt", "c.board"]);
    assert_eq!(Fileset::from_str("no separator").unwrap_err(), FilesetError::MissingSeparator);
    assert_eq!(Fileset::from_str("=*.txt").unwrap_err(), FilesetError::EmptyName);
    assert_eq!(Fileset::from_str("x=a[").unwrap_err(), FilesetError::InvalidPattern);
}

#[test]
fn git_addresses() {
    assert_eq!(as_https("git@github.com:kepler/gates.git"), "https://github.com/kepler/gates.git");
    assert_eq!(as_https("ssh://git@github.com/kepler/gates.git"), "https://github.com/kepler/gates.git");
    assert_eq!(as_https("ssh://github.com/kepler/gates.git"), "https://github.com/kepler/gates.git");
    assert_eq!(as_https("https://github.com/kepler/gates.git"), "https://github.com/kepler/gates.git");
    assert_eq!(as_https("/local/path@x:y"), "/local/path@x:y");
    assert_eq!(ExtGit::clone_url("git@h:p", false), "git@h:p");
    assert_eq!(ExtGit::clone_url("git@h:p", true), "https://h/p");
    let git = ExtGit::new(None).path("/repo".to_owned());
    assert_eq!((git.command.as_str(), git.root.as_str()), ("git", "/repo"));
    assert_eq!(ExtGit::new(Some("git2")).command, "git2");
    assert_eq!(ExtGit::check_status(Some(0), vec![]), Ok(()));
    assert_eq!(ExtGit::check_status(Some(128), vec![1]), Err(ExtGitError::NonZeroCode(128, vec![1])));
    assert_eq!(ExtGit::check_status(None, vec![]), Err(ExtGitError::SigTermination));
}

#[test]
fn commands_write_their_text() {
    let sum = Sum { guess: 6, digits: vec![1, 2, 3], verbose: true };
    assert_eq!(sum.run(), "1 + 2 + 3 = 6\nyou guessed right!\n");
    assert_eq!(Sum { guess: 0, digits: vec![], verbose: true }.run(), "= 0\nyou guessed right!\n");
    assert_eq!(Sum { guess: 7, digits: vec![7], verbose: true }.run(), "7 = 7\nyou guessed right!\n");
    let sum = Sum { guess: 44, digits: vec![200, 100], verbose: false };
    assert_eq!(sum.run(), "300\nyou guessed incorrectly.\n");
    assert_eq!(NumCast { deci: 255, base: 16, pad: 0 }.run(), "ff\n");
    assert_eq!(NumCast { deci: 5, base: 2, pad: 0 }.run(), "101\n");
    assert_eq!(NumCast { deci: 8, base: 8, pad: 0 }.run(), "10\n");
    assert_eq!(NumCast { deci: 0, base: 2, pad: 0 }.run(), "0\n");
    assert_eq!(NumCast { deci: 8, base: 10, pad: 0 }.run(), "unsupported base value\n");
    let orbit = Orbit { version: false, help: false, config: vec!["a=b=c".to_owned(), "none".to_owned()], color: None, command: Some(Subcommand::NumCast(NumCast { deci: 9, base: 2, pad: 0 })) };
    assert_eq!(orbit.run(), "key: a\tvalue: b=c\n1001\n");
    let orbit = Orbit { version: true, help: false, config: vec![], color: None, command: None };
    assert_eq!(orbit.run(), "orbit 0.1.0\n");
}

#[test]
fn fileset_keeps_the_pattern_as_written() {
    let set = Fileset::from_str("XDC=src/*.xdc=x").unwrap();
    assert_eq!((set.name.as_str(), set.pattern.as_str()), ("XDC", "src/*.xdc=x"));
    assert_eq!(set.get_pattern().as_str(), "src/*.xdc=x");
    let set = Fileset::new("A", "*.a").unwrap();
    assert_eq!(set.pattern, "*.a");
    assert_eq!(Fileset::new("", "a[").unwrap_err(), FilesetError::EmptyName);
    assert_eq!(Fileset::new("A", "a[").unwrap_err(), FilesetError::InvalidPattern);
    assert_eq!(Fileset::new("A", "a***").unwrap_err(), FilesetError::InvalidPattern);
    // whether the pattern compiles decides, together with the name
    assert_eq!(Fileset::from_parts("A", "*.a", true).unwrap(), set);
    assert_eq!(Fileset::from_parts("A", "*.a", false).unwrap_err(), FilesetError::InvalidPattern);
    assert_eq!(Fileset::from_parts("", "*.a", true).unwrap_err(), FilesetError::EmptyName);
    let compiled = compile_all(&vec!["*.a".to_owned(), "a[".to_owned(), "**".to_owned(), "[!a-c]?".to_owned()]);
    assert_eq!(compiled, vec![true, false, true, true]);
    assert!(compiles("") && compiles("src/**/*.vhd") && compiles("[a-z]*"));
    assert!(!compiles("a**") && !compiles("**b") && !compiles("[") && !compiles("x[!]"));
}

#[test]
fn absolute_form_of_a_path() {
    assert_eq!(to_absolute("/a/b.vhd", None), Some("/a/b.vhd".to_owned()));
    assert_eq!(to_absolute("C:/a/b.vhd", None), Some("/a/b.vhd".to_owned()));
    assert_eq!(to_absolute("/a/b.vhd", Some("/x")), Some("/a/b.vhd".to_owned()));
    assert_eq!(to_absolute("b.vhd", Some("/home/a/b.vhd")), Some("/home/a/b.vhd".to_owned()));
    assert_eq!(to_absolute("./b.vhd", Some("d:/a/b.vhd")), Some("/a/b.vhd".to_owned()));
    assert_eq!(to_absolute("C:b.vhd", Some("C:/a/b.vhd")), Some("/a/b.vhd".to_owned()));
    assert_eq!(to_absolute("b.vhd", None), None);
    assert_eq!(to_absolute("", None), None);
    assert_eq!(to_absolute("1:/a", None), None);
}

#[test]
fn fileset_matches_by_its_pattern() {
    let set = Fileset::new("TXT", "*/doc?.[tT]xt").unwrap();
    assert!(set.matches("/ip/doc1.txt"));
    assert!(set.matches("/IP/DOC1.Txt"));
    assert!(!set.matches("/ip/doc.txt"));
    assert!(!set.matches("doc1.txt"));
    assert!(!set.matches("/ip/doc12.txt"));
    // a star takes in the parts of a path
    assert!(Fileset::new("V", "*.vhd").unwrap().matches("/a/b/c.vhd"));
    assert!(!Fileset::new("V", "*.vhd").unwrap().matches("/a/b/c.vhdl"));
    // two stars take in any number of directories
    let deep = Fileset::new("V", "src/**/*.vhd").unwrap();
    assert!(deep.matches("src/a/b/c.vhd") && deep.matches("src/c.vhd") && !deep.matches("lib/a/c.vhd"));
    // a pattern that does not compile matches nothing
    let broken = Fileset { name: "B".to_owned(), pattern: "a[".to_owned() };
    assert!(!broken.matches("a["));
    assert!(!broken.matches("a"));
    let files = vec!["/p/a.txt".to_owned(), "/p/b.vhd".to_owned(), "/p/c.TXT".to_owned()];
    let set = Fileset::new("TXT", "*.txt").unwrap();
    assert_eq!(set.match_files(&files), vec![true, false, true]);
    assert_eq!(set.collect_files(&files), vec!["/p/a.txt", "/p/c.TXT"]);
    assert_eq!(broken.match_files(&files), vec![false, false, false]);
    assert!(broken.collect_files(&files).is_empty());
    assert_eq!(match_table(&vec![set, broken], &files), vec![vec![true, false, true], vec![false, false, false]]);
}

#[test]
fn rows_follow_the_answers() {
    let sets = vec![Fileset::new("TXT", "*.txt").unwrap(), Fileset::new("ALL", "*").unwrap()];
    let files = vec!["/p/a.txt".to_owned(), "/p/b.vhd".to_owned(), "/p/c.TXT".to_owned()];
    let row = |set: &str, stem: &str, path: &str| Row {
        fileset: set.to_owned(),
        name: stem.to_owned(),
        path: path.to_owned(),
    };
    let table = match_table(&sets, &files);
    assert_eq!(table, vec![vec![true, false, true], vec![true, true, true]]);
    let expected = vec![
        row("TXT", "a", "/p/a.txt"),
        row("TXT", "c", "/p/c.TXT"),
        row("ALL", "a", "/p/a.txt"),
        row("ALL", "b", "/p/b.vhd"),
        row("ALL", "c", "/p/c.TXT"),
    ];
    assert_eq!(rows_for(&sets, &files, &table), expected);
    assert_eq!(rows_of_filesets(&sets, &files), expected);
    // the answers decide, whatever the patterns are; answers that are missing count as no
    assert_eq!(
        rows_for(&sets, &files, &vec![vec![false, true], vec![]]),
        vec![row("TXT", "b", "/p/b.vhd")]
    );
    assert_eq!(
        rows_for(&sets, &files, &vec![vec![], vec![false, false, true, true], vec![true]]),
        vec![row("ALL", "c", "/p/c.TXT")]
    );
    assert!(rows_for(&sets, &files, &vec![]).is_empty());
    assert!(rows_of_filesets(&sets, &vec![]).is_empty());
    assert!(rows_of_filesets(&vec![], &files).is_empty());
}

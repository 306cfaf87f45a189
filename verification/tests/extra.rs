use orbit::command::{Dispatch, NumCast, Subcommand, Sum};
use orbit::commands::config::{Config, ConfigError, Edit, Entry};
use orbit::commands::new::New;
use orbit::commands::plan::{AmbiguousKind, PlanError};
use orbit::ip::ip::{Manifest, ManifestError, Sha256Hash};
use orbit::ip::resolver::ResolveError;
use orbit::vhdl::identifier::Identifier;
use orbit::ip::mvs::{compute_minimal_requirement_list, Module};
use orbit::ip::pkgid::{PkgId, PkgPart};
use orbit::ip::version::{PartialVersion, Version};
use orbit::util::filesystem::{is_walk_excluded, standardize, Standardize};

#[test]
fn comp_min_req() {
    let mods = vec![
        Module::new("A", PartialVersion::new().major(1)),
        Module::new("B", PartialVersion::new().major(1).minor(2)),
        Module::new("D", PartialVersion::new().major(1).minor(3)),
        Module::new("E", PartialVersion::new().major(1).minor(2)),
        Module::new("C", PartialVersion::new().major(1).minor(2)),
        Module::new("C", PartialVersion::new().major(1)), // already covered by 1.2
        Module::new("D", PartialVersion::new().major(1).minor(4)),
        Module::new("E", PartialVersion::new().major(1).minor(2)), // already covered by 1.2
        Module::new("C", PartialVersion::new().major(1).minor(2).patch(4)), // replaces 1.2 to be 1.2.4
    ];
    let mut list = compute_minimal_requirement_list(mods);
    list.sort_by(|a, b| {
        (a.name.as_str(), a.version.major, a.version.minor, a.version.patch).cmp(&(
            b.name.as_str(),
            b.version.major,
            b.version.minor,
            b.version.patch,
        ))
    });
    assert_eq!(
        list,
        vec![
            Module::new("A", PartialVersion::new().major(1)),
            Module::new("B", PartialVersion::new().major(1).minor(2)),
            Module::new("C", PartialVersion::new().major(1).minor(2).patch(4)),
            Module::new("D", PartialVersion::new().major(1).minor(3)),
            Module::new("D", PartialVersion::new().major(1).minor(4)),
            Module::new("E", PartialVersion::new().major(1).minor(2)),
        ]
    );
}

#[test]
fn minimal_requirements_keep_their_order() {
    let mods = vec![
        Module::new("x", PartialVersion::new().major(2).minor(0)),
        Module::new("x", PartialVersion::new().major(1)),
        Module::new("y", PartialVersion::new().major(2)),
        Module::new("x", PartialVersion::new().major(2)),
    ];
    let list = compute_minimal_requirement_list(mods);
    let names: Vec<String> = list.iter().map(|m| format!("{} {}", m.name, m.version.to_string())).collect();
    assert_eq!(names, vec!["x 2.0", "x 1", "y 2"]);
    assert!(compute_minimal_requirement_list(vec![]).is_empty());
}

#[test]
fn config_entries_and_edits() {
    assert_eq!(Entry::from_str("core.path=C:/my=projects"), Ok(Entry("core.path".to_owned(), "C:/my=projects".to_owned())));
    assert_eq!(Entry::from_str("=").unwrap(), Entry(String::new(), String::new()));
    assert_eq!(Entry::from_str("no separator"), Err(ConfigError::MissingSeparator));
    let config = Config {
        global: true,
        local: false,
        append: vec![Entry("include".to_owned(), "/profile".to_owned()), Entry("vendor.index".to_owned(), "/v".to_owned())],
        set: vec![Entry("core.editor".to_owned(), "code".to_owned()), Entry("a.b.c".to_owned(), "1".to_owned())],
        unset: vec!["env.VIVADO_PATH".to_owned()],
    };
    assert_eq!(
        config.run(),
        Ok(vec![
            Edit::AppendInclude("/profile".to_owned()),
            Edit::AppendVendorIndex("/v".to_owned()),
            Edit::Assign("core".to_owned(), "editor".to_owned(), "code".to_owned()),
            Edit::Assign("a".to_owned(), "b.c".to_owned(), "1".to_owned()),
            Edit::Unset("env".to_owned(), "VIVADO_PATH".to_owned()),
        ])
    );
    let bad = |append: Vec<Entry>, set: Vec<Entry>, unset: Vec<String>, both: bool| Config { global: true, local: both, append, set, unset }.run();
    assert_eq!(bad(vec![], vec![], vec![], true), Err(ConfigError::BothScopes));
    assert_eq!(
        bad(vec![Entry("core.path".to_owned(), "x".to_owned())], vec![], vec![], false),
        Err(ConfigError::CannotAppend("core.path".to_owned()))
    );
    assert_eq!(
        bad(vec![], vec![Entry("editor".to_owned(), "x".to_owned())], vec![], false),
        Err(ConfigError::CannotSet("editor".to_owned()))
    );
    assert_eq!(bad(vec![], vec![], vec!["editor".to_owned()], false), Err(ConfigError::CannotSet("editor".to_owned())));
}

#[test]
fn destination_of_a_new_ip() {
    let part = |s: &str| PkgPart::from_str(s).unwrap();
    let full = PkgId { vendor: Some(part("ks")), library: Some(part("rary")), name: part("gates") };
    let new = New { ip: full, rel_path: None, template: None, list: false };
    assert!(new.is_fully_qualified());
    assert_eq!(new.destination("/dev"), Some("/dev/ks/rary/gates".to_owned()));
    let short = New { ip: PkgId::new(part("gates")), rel_path: None, template: None, list: false };
    assert!(!short.is_fully_qualified());
    assert_eq!(short.destination("/dev"), None);
    let placed = New { ip: PkgId::new(part("gates")), rel_path: Some("my/place".to_owned()), template: None, list: false };
    assert_eq!(placed.destination("/dev"), Some("/dev/my/place".to_owned()));
}

#[test]
fn commands_are_found_by_name() {
    assert!(Sum::dispatch("sum") && !Sum::dispatch("cast"));
    assert!(NumCast::dispatch("cast") && !NumCast::dispatch("Cast"));
    assert!(Subcommand::dispatch("sum") && Subcommand::dispatch("cast") && !Subcommand::dispatch("plan"));
}

#[test]
fn manifest_of_parts() {
    let deps = |list: &[(&str, &str)]| list.iter().map(|(a, b)| (a.to_string(), b.to_string())).collect::<Vec<_>>();
    let m = Manifest::from_parts("gates", "1.0.2", Some("https://x/y.git".to_owned()), &deps(&[("mem", "1"), ("uart-io", "0.3.1")])).unwrap();
    assert_eq!(m.get_ip().get_name().to_string(), "gates");
    assert_eq!(m.get_ip().get_version().to_string(), "1.0.2");
    assert_eq!(m.get_ip().get_source().as_deref(), Some("https://x/y.git"));
    assert_eq!(m.get_deps().len(), 2);
    assert_eq!(m.get_deps()[1].version.to_string(), "0.3.1");
    let fault = |n: &str, v: &str, d: &[(&str, &str)]| Manifest::from_parts(n, v, None, &deps(d)).unwrap_err();
    assert_eq!(fault("1gates", "1.0.2", &[]), ManifestError::InvalidName);
    assert_eq!(fault("gates", "1.0", &[]), ManifestError::InvalidVersion);
    assert_eq!(fault("gates", "1.0.0", &[("a", "1"), ("b c", "1")]), ManifestError::InvalidDependencyName(1));
    assert_eq!(fault("gates", "1.0.0", &[("a", "latest")]), ManifestError::InvalidDependencyVersion(0));
    assert_eq!(fault("gates", "1.0.0", &[("my-dep", "1"), ("b", "2"), ("My_Dep", "3")]), ManifestError::DuplicateDependency(2));
    // the first thing wrong is reported
    assert_eq!(fault("gates", "x", &[("1", "1")]), ManifestError::InvalidVersion);
}

#[test]
fn walk_and_home() {
    assert!(is_walk_excluded(".git") && is_walk_excluded("Orbit.lock") && is_walk_excluded(".orbit-checksum") && is_walk_excluded(".orbit-metadata"));
    assert!(!is_walk_excluded("Orbit.toml") && !is_walk_excluded(".gitignore"));
    assert_eq!(standardize("/a/./b/../c//d", "/cwd"), "/a/c/d");
    assert_eq!(<String as Standardize>::standardize("x/y", "/cwd"), "/cwd/x/y");
    // a path from the home directory starts where the environment says, if it says so
    let from_home = standardize("~/x", "/cwd");
    assert!(from_home.ends_with("/x"));
}

#[test]
fn errors_in_words() {
    let id = |s: &str| Identifier::from_str(s).unwrap();
    assert_eq!(PlanError::BadTop(id("Nor_TB")).to_string(), "entity 'Nor_TB' is a testbench and cannot be top; use --bench");
    assert_eq!(PlanError::UnknownEntity(id("\\x y\\")).to_string(), "no entity named '\\x y\\'");
    assert_eq!(PlanError::UnknownUnit(id("u")).to_string(), "no unit named 'u'");
    assert_eq!(PlanError::BadEntity(id("p")).to_string(), "unit 'p' is not an entity");
    assert_eq!(PlanError::BadTestbench(id("e")).to_string(), "entity 'e' cannot be bench; use --top");
    assert_eq!(
        PlanError::Ambiguous(AmbiguousKind::Testbenches, vec![id("tb_a"), id("tb_b")]).to_string(),
        "not exactly one of the testbenches was found:\n\ttb_a\n\ttb_b\n"
    );
    let part = |s: &str| PkgPart::from_str(s).unwrap();
    assert_eq!(ResolveError::UnknownIp(part("Gates")).to_string(), "unknown ip 'Gates'");
    assert_eq!(
        ResolveError::UnknownVersion(part("gates"), PartialVersion::new().major(2)).to_string(),
        "ip 'gates' has no version '2'"
    );
    assert_eq!(
        ResolveError::NotInstalled(part("gates"), PartialVersion::new().major(2).minor(1)).to_string(),
        "ip 'gates' is not installed but is available in version '2.1'"
    );
    assert_eq!(
        ResolveError::VersionConflict(part("c"), Version::new().major(1), Version::new().major(1).patch(3)).to_string(),
        "ip 'c' is asked for in versions '1.0.0' and '1.0.3'"
    );
    assert_eq!(ManifestError::InvalidName.to_string(), "the name of the ip is not well formed");
    assert_eq!(ManifestError::InvalidVersion.to_string(), "the version of the ip is no full version");
    assert_eq!(ManifestError::InvalidDependencyName(0).to_string(), "the name of dependency 1 is not well formed");
    assert_eq!(ManifestError::InvalidDependencyVersion(9).to_string(), "the version of dependency 10 is no partial version");
    assert_eq!(ManifestError::DuplicateDependency(2).to_string(), "dependency 3 is named twice");
    let text = "00ff10Ab".repeat(8);
    let sum = Sha256Hash::from_str(&text).unwrap();
    assert_eq!(sum.to_string(), text.to_lowercase());
    assert_eq!(sum.digest[3], 0xab);
    assert!(Sha256Hash::from_str("00ff").is_none());
    assert!(Sha256Hash::from_str(&"0g".repeat(32)).is_none());
    assert!(Sha256Hash::from_str(&"0".repeat(63)).is_none());
}

#[test]
fn config_errors_in_words() {
    assert_eq!(ConfigError::MissingSeparator.to_string(), "missing '=' separator");
    assert_eq!(ConfigError::BothScopes.to_string(), "'--local' and '--global' cannot be set at the same time");
    assert_eq!(ConfigError::CannotAppend("core.path".to_owned()).to_string(), "unsupported key 'core.path' cannot be appended");
    assert_eq!(ConfigError::CannotSet("path".to_owned()).to_string(), "unsupported key 'path' cannot be set");
}

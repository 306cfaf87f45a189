use orbit::commands::probe::{format_units_table, format_version_table};
use orbit::commands::search::Search;
use orbit::ip::catalog::{CacheEntry, CacheSlot, Catalog, CatalogError, DownloadSlot, IpLevel, IpState};
use orbit::ip::ip::{Dependency, Ip, IpSection, Manifest, Sha256Hash, Uuid};
use orbit::ip::pkgid::{PkgId, PkgIdError, PkgPart};
use orbit::ip::resolver::{lock, next_step, offer_to_install, resolve, Lockfile, NextStep, ResolveError};
use orbit::ip::version::{is_compatible, AnyVersion, PartialVersion, Version};
use orbit::vhdl::identifier::Identifier;
use orbit::vhdl::primaryunit::{PrimaryUnit, Unit};

fn ip(name: &str, version: &str, deps: &[(&str, &str)]) -> Ip {
    let manifest = Manifest {
        ip: IpSection {
            name: PkgPart::from_str(name).unwrap(),
            version: Version::from_str(version).unwrap(),
            source: Some(format!("https://example.com/{}.git", name)),
        },
        dependencies: deps
            .iter()
            .map(|(n, v)| Dependency {
                name: PkgPart::from_str(n).unwrap(),
                version: PartialVersion::from_str(v).unwrap(),
            })
            .collect(),
    };
    Ip::new(manifest, format!("/cache/{}-{}", name, version))
}

#[test]
fn fmt_table() {
    let t = Search::fmt_table(&Catalog::new());
    let table = "\
Package                     Latest    Status   
--------------------------- --------- ---------- 
";
    assert_eq!(t, table);
}

#[test]
fn disp_set() {
    let ce = CacheEntry::from(&Uuid::nil());
    assert_eq!("00", ce.set());
}

#[test]
fn disp_tag() {
    let ce = CacheEntry::from(&Uuid::nil());
    assert_eq!("00", ce.tag());
}

#[test]
fn disp_offset() {
    let ce = CacheEntry::from(&Uuid::nil());
    assert_eq!("0000000000000000000000000000", ce.offset());
}

#[test]
fn cache_entry_of_bytes() {
    let bytes: Vec<u8> = (0..16).map(|i| (i * 17) as u8).collect();
    let ce = CacheEntry::from(&Uuid::from_bytes(bytes).unwrap());
    assert_eq!(ce.set(), "00");
    assert_eq!(ce.tag(), "11");
    assert_eq!(ce.offset(), "2233445566778899AABBCCDDEEFF");
    assert!(Uuid::from_bytes(vec![0; 15]).is_none());
}

#[test]
fn search_table_lists_by_name() {
    let catalog = Catalog::new()
        .installations("/cache".to_owned(), vec![ip("zeta", "1.0.0", &[]), ip("Alpha", "0.2.0", &[]), ip("alpha", "0.10.1", &[])])
        .downloads("/dl".to_owned(), vec![ip("mid-way", "3.0.0", &[])]);
    let table = "\
Package                     Latest    Status   
--------------------------- --------- ---------- 
Alpha                       0.10.1         Installed
mid-way                     3.0.0          Downloaded
zeta                        1.0.0          Installed
";
    assert_eq!(Search::fmt_table(&catalog), table);
}

#[test]
fn version_text_and_order() {
    let v = Version::from_str("1.20.3").unwrap();
    assert_eq!(v, Version::new().major(1).minor(20).patch(3));
    assert_eq!(v.to_string(), "1.20.3");
    assert_eq!(Version::from_str(&Version::new().major(4294967295).to_string()).unwrap().major, 4294967295);
    for bad in ["", "1", "1.2", "1.2.3.4", "1..3", "a.b.c", "1.2.4294967296", "1.2.-3", "1.2.3 "] {
        assert_eq!(Version::from_str(bad), None, "{}", bad);
    }
    assert!(Version::from_str("1.2.3").unwrap().is_lower(&Version::from_str("1.10.0").unwrap()));
    assert!(!Version::from_str("2.0.0").unwrap().is_lower(&Version::from_str("1.10.0").unwrap()));
    assert!(!v.is_lower(&v));
}

#[test]
fn partial_versions_match_what_they_give() {
    let v = Version::from_str("1.2.3").unwrap();
    assert!(is_compatible(&PartialVersion::from_str("1").unwrap(), &v));
    assert!(is_compatible(&PartialVersion::from_str("1.2").unwrap(), &v));
    assert!(is_compatible(&PartialVersion::from_str("1.2.3").unwrap(), &v));
    assert!(!is_compatible(&PartialVersion::from_str("1.3").unwrap(), &v));
    assert!(!is_compatible(&PartialVersion::from_str("1.2.4").unwrap(), &v));
    assert!(!is_compatible(&PartialVersion::from_str("2").unwrap(), &v));
    assert_eq!(PartialVersion::new().major(1).minor(2).to_string(), "1.2");
    assert_eq!(PartialVersion::from_str("1.2.3.4"), None);
    assert_eq!(AnyVersion::from_str("latest"), Some(AnyVersion::Latest));
    assert_eq!(AnyVersion::from_str("2.1").unwrap().to_string(), "2.1");
    assert_eq!(AnyVersion::Latest.to_string(), "latest");
    assert!(AnyVersion::Latest.allows(&v));
}

#[test]
fn pkg_part_names() {
    assert_eq!(PkgPart::from_str("my-gates").unwrap(), PkgPart::from_str("My_Gates").unwrap());
    assert_ne!(PkgPart::from_str("gates").unwrap(), PkgPart::from_str("gate").unwrap());
    assert_eq!(PkgPart::from_str("My-Gates").unwrap().to_normal(), "my_gates");
    assert_eq!(PkgPart::from_str("").unwrap_err(), PkgIdError::Empty);
    assert_eq!(PkgPart::from_str("1a").unwrap_err(), PkgIdError::NotAlphabeticFirst);
    assert_eq!(PkgPart::from_str("a.b").unwrap_err(), PkgIdError::InvalidChar);
    let id = PkgId { vendor: Some(PkgPart::from_str("ks").unwrap()), library: Some(PkgPart::from_str("rary").unwrap()), name: PkgPart::from_str("gates").unwrap() };
    assert_eq!(id.to_string(), "ks.rary.gates");
    assert_eq!(PkgId::new(PkgPart::from_str("gates").unwrap()).to_string(), "gates");
}

#[test]
fn cache_slot_round_trip() {
    let digest: Vec<u8> = (0..32).map(|i| (i * 7 + 171) as u8).collect();
    let sum = Sha256Hash::from_bytes(digest).unwrap();
    assert_eq!(sum.to_string().len(), 64);
    let name = PkgPart::from_str("my-gates_2").unwrap();
    let version = Version::from_str("1.0.12").unwrap();
    let slot = CacheSlot::new(&name, &version, &sum);
    assert_eq!(slot.to_string(), "my-gates_2-1.0.12-abb2b9c0c7");
    let back = CacheSlot::try_from_str(&slot.to_string()).unwrap();
    assert_eq!(back.get_name().to_string(), "my-gates_2");
    assert_eq!(back.get_version(), &version);
    assert_eq!(back.2, &sum.to_string()[0..10]);
    assert_eq!(back, slot);
    for bad in ["gates", "gates-1.0.0", "-1.0.0-abc", "gates-1.0-abc", "1gates-1.0.0-abc", "tmp.x9f"] {
        assert!(CacheSlot::try_from_str(bad).is_none(), "{}", bad);
    }
    assert!(Sha256Hash::from_bytes(vec![0; 31]).is_none());
}

#[test]
fn download_slot_name() {
    let mut bytes = vec![0u8; 16];
    bytes[0] = 0x0a;
    bytes[1] = 0xbc;
    bytes[2] = 0x00;
    bytes[3] = 0x7f;
    let slot = DownloadSlot::new(
        &PkgPart::from_str("gates").unwrap(),
        &Version::from_str("1.2.3").unwrap(),
        &Uuid::from_bytes(bytes).unwrap(),
    );
    assert_eq!(slot.as_ref(), "gates-1.2.3-abc007f.ip");
    let nil = DownloadSlot::new(
        &PkgPart::from_str("gates").unwrap(),
        &Version::from_str("1.2.3").unwrap(),
        &Uuid::nil(),
    );
    assert_eq!(nil.as_ref(), "gates-1.2.3-0.ip");
}

#[test]
fn level_answers_with_the_highest_version() {
    let mut level = IpLevel::new();
    assert!(!level.is_installed() && !level.is_downloaded() && !level.is_available());
    level.add_install(ip("gates", "1.0.0", &[]));
    level.add_install(ip("gates", "1.2.3", &[]));
    level.add_install(ip("gates", "1.2.0", &[]));
    level.add_install(ip("gates", "0.9.0", &[]));
    // a version that is there already is not added again
    level.add_install(ip("gates", "1.2.3", &[]));
    // a dynamic installation is left out
    let mut dynamic = ip("gates", "5.0.0", &[]);
    dynamic.dynamic = true;
    level.add_install(dynamic);
    level.add_download(ip("gates", "2.0.0", &[]));
    level.add_available(ip("gates", "3.0.0", &[]));
    assert_eq!(level.get_installations().len(), 4);
    let latest = level.get_install(&AnyVersion::Latest).unwrap();
    assert_eq!(latest.get_version().to_string(), "1.2.3");
    let one = AnyVersion::from_str("1").unwrap();
    assert_eq!(level.get(false, &one).unwrap().get_version().to_string(), "1.2.3");
    let one_two_zero = AnyVersion::from_str("1.2.0").unwrap();
    assert_eq!(level.get(false, &one_two_zero).unwrap().get_version().to_string(), "1.2.0");
    let two = AnyVersion::from_str("2").unwrap();
    assert!(level.get(false, &two).is_none());
    assert_eq!(level.get(true, &two).unwrap().get_version().to_string(), "2.0.0");
    assert_eq!(level.get_available(&AnyVersion::Latest).unwrap().get_version().to_string(), "3.0.0");
    assert!(level.get_download(&one).is_none());
    let lowest = IpLevel::get_lowest_version(&one, level.get_installations()).unwrap();
    assert_eq!(lowest.get_version().to_string(), "1.0.0");
    assert_eq!(level.get_state(&ip("gates", "1.2.0", &[])), IpState::Installation);
    assert_eq!(level.get_state(&ip("gates", "2.0.0", &[])), IpState::Downloaded);
    assert_eq!(level.get_state(&ip("gates", "3.0.0", &[])), IpState::Available);
    assert_eq!(level.get_state(&ip("gates", "4.0.0", &[])), IpState::Unknown);
    assert_eq!(IpState::Installation.to_string(), "installation");
}

#[test]
fn catalog_groups_by_name() {
    let mut catalog = Catalog::new()
        .installations("/cache".to_owned(), vec![ip("gates", "1.0.0", &[]), ip("Gates", "1.2.3", &[]), ip("mem", "0.1.0", &[])])
        .downloads("/dl".to_owned(), vec![ip("gates", "1.2.3", &[]), ip("gates", "2.0.0", &[])])
        .available(vec![ip("uart", "1.0.0", &[])]);
    assert_eq!(catalog.inner().len(), 3);
    assert_eq!(catalog.get_cache_path(), "/cache");
    assert_eq!(catalog.get_downloads_path(), "/dl");
    let gates = PkgPart::from_str("GATES").unwrap();
    let versions: Vec<String> = catalog.get_possible_versions(&gates).unwrap().iter().map(|v| v.to_string()).collect();
    assert_eq!(versions, vec!["2.0.0", "1.2.3", "1.0.0"]);
    assert!(catalog.get_possible_versions(&PkgPart::from_str("none").unwrap()).is_none());
    assert!(catalog.get(&PkgPart::from_str("uart").unwrap()).unwrap().is_available());
    catalog.set_cache_path("/other".to_owned());
    let slot = CacheSlot::try_from_str("gates-1.0.0-0123456789").unwrap();
    assert_eq!(catalog.cache_slot_path(&slot), "/other/gates-1.0.0-0123456789");
    catalog.set_downloads_path("/d2".to_owned());
    let dslot = DownloadSlot::new(&gates, &Version::from_str("1.0.0").unwrap(), &Uuid::nil());
    assert_eq!(catalog.download_slot_path(&dslot), "/d2/GATES-1.0.0-0.ip");
}

#[test]
fn resolver_selects_the_minimum_version() {
    // the target depends on gates = "1"; 1.0.0 and 1.2.3 are installed
    let catalog = Catalog::new().installations(
        "/cache".to_owned(),
        vec![ip("gates", "1.2.3", &[]), ip("gates", "1.0.0", &[])],
    );
    let target = ip("top", "0.1.0", &[("gates", "1")]);
    let resolved = resolve(&target, &catalog).unwrap();
    let names: Vec<String> = resolved.iter().map(|i| format!("{} {}", i.get_man().get_ip().get_name().to_string(), i.get_version().to_string())).collect();
    assert_eq!(names, vec!["top 0.1.0", "gates 1.0.0"]);
    let (_, text) = lock(&target, &catalog).unwrap();
    assert_eq!(
        text,
        "[[ip]]\nname = \"gates\"\nversion = \"1.0.0\"\nsource = \"https://example.com/gates.git\"\nchecksum = \"\"\n\n[[ip]]\nname = \"top\"\nversion = \"0.1.0\"\nsource = \"https://example.com/top.git\"\nchecksum = \"\"\n\n"
    );
    // resolving once more gives the same lock file
    assert_eq!(lock(&target, &catalog).unwrap().1, text);
}

#[test]
fn resolver_reports_a_missing_dependency() {
    let catalog = Catalog::new()
        .installations("/cache".to_owned(), vec![ip("gates", "1.0.0", &[]), ip("gates", "1.9.0", &[])])
        .available(vec![ip("uart", "3.1.0", &[])]);
    let target = ip("top", "0.1.0", &[("gates", "2")]);
    assert_eq!(
        resolve(&target, &catalog).unwrap_err(),
        ResolveError::UnknownVersion(PkgPart::from_str("gates").unwrap(), PartialVersion::from_str("2").unwrap())
    );
    let target = ip("top", "0.1.0", &[("fifo", "1")]);
    assert_eq!(
        resolve(&target, &catalog).unwrap_err(),
        ResolveError::UnknownIp(PkgPart::from_str("fifo").unwrap())
    );
    let target = ip("top", "0.1.0", &[("uart", "3")]);
    assert_eq!(
        resolve(&target, &catalog).unwrap_err(),
        ResolveError::NotInstalled(PkgPart::from_str("uart").unwrap(), PartialVersion::from_str("3").unwrap())
    );
}

#[test]
fn resolver_follows_dependencies_of_dependencies() {
    let catalog = Catalog::new()
        .installations(
            "/cache".to_owned(),
            vec![
                ip("a", "1.0.0", &[("c", "1.1"), ("d", "2")]),
                ip("b", "1.0.0", &[("c", "1.1")]),
                ip("c", "1.1.0", &[("top", "0.1")]),
                ip("c", "1.1.5", &[]),
                ip("c", "1.0.0", &[]),
                ip("top", "0.1.0", &[]),
            ],
        )
        .downloads("/dl".to_owned(), vec![ip("d", "2.4.0", &[]), ip("d", "2.3.0", &[])]);
    let target = ip("top", "0.1.0", &[("a", "1"), ("b", "1")]);
    let resolved = resolve(&target, &catalog).unwrap();
    let names: Vec<String> = resolved.iter().map(|i| format!("{} {}", i.get_man().get_ip().get_name().to_string(), i.get_version().to_string())).collect();
    // the dependency named last is worked off first
    assert_eq!(names, vec!["top 0.1.0", "b 1.0.0", "c 1.1.0", "a 1.0.0", "d 2.3.0"]);
    let file = Lockfile::from_resolved(&resolved);
    let order: Vec<&str> = file.get_entries().iter().map(|e| e.name.as_str()).collect();
    assert_eq!(order, vec!["a", "b", "c", "d", "top"]);
    // two requirements that lead to different versions are in conflict
    let clash = ip("top", "0.1.0", &[("c", "1.0"), ("b", "1")]);
    assert_eq!(
        resolve(&clash, &catalog).unwrap_err(),
        ResolveError::VersionConflict(
            PkgPart::from_str("c").unwrap(),
            Version::from_str("1.1.0").unwrap(),
            Version::from_str("1.0.0").unwrap()
        )
    );
}

#[test]
fn catalog_error_text() {
    let id = PkgId::new(PkgPart::from_str("gates").unwrap());
    assert_eq!(
        CatalogError::NoVersionForIp(id, AnyVersion::from_str("2.1").unwrap()).to_string(),
        "ip 'gates' has no version '2.1'"
    );
    let id = PkgId::new(PkgPart::from_str("gates").unwrap());
    assert_eq!(
        CatalogError::SuggestInstall(id, AnyVersion::Latest).to_string(),
        "ip 'gates' is not installed but is available in version 'latest'"
    );
}

#[test]
fn units_table() {
    let unit = |name: &str| Unit { name: Identifier::from_str(name).unwrap(), symbol: None };
    let table = format_units_table(vec![
        PrimaryUnit::Package(unit("util_pkg")),
        PrimaryUnit::Entity(unit("Adder")),
        PrimaryUnit::Configuration(unit("cfg1")),
    ]);
    let expected = "\
Identifier                      Unit          Public   
------------------------------- ------------- -------- 
Adder                           entity        y 
cfg1                            configuration y 
util_pkg                        package       y 
";
    assert_eq!(table, expected);
}

#[test]
fn versions_table() {
    let mut level = IpLevel::new();
    level.add_install(ip("gates", "1.0.0", &[]));
    level.add_install(ip("gates", "1.2.0", &[]));
    level.add_download(ip("gates", "1.2.0", &[]));
    level.add_available(ip("gates", "2.0.0", &[]));
    level.add_available(ip("gates", "1.0.0", &[]));
    let expected = "\
Version        Status   
-------------- -------- 
2.0.0              A 
1.2.0          D I   
1.0.0            I A 
";
    assert_eq!(format_version_table(&level), expected);
}

#[test]
fn primary_unit_to_toml_and_back() {
    let unit = PrimaryUnit::Entity(Unit { name: Identifier::from_str("nor_gate").unwrap(), symbol: None });
    let table = unit.to_toml();
    assert_eq!(table.get("identifier").unwrap().as_str(), Some("nor_gate"));
    assert_eq!(table.get("type").unwrap().as_str(), Some("entity"));
    assert_eq!(PrimaryUnit::from_toml(&table), Some(unit));
    let mut other = toml_edit::InlineTable::new();
    other.insert("identifier", toml_edit::Value::from("cfg"));
    assert_eq!(PrimaryUnit::from_toml(&other), None);
    other.insert("type", toml_edit::Value::from(3));
    assert_eq!(PrimaryUnit::from_toml(&other), None);
    other.insert("type", toml_edit::Value::from("process"));
    assert_eq!(PrimaryUnit::from_toml(&other), None);
    other.insert("type", toml_edit::Value::from("configuration"));
    assert_eq!(PrimaryUnit::from_toml(&other).unwrap().to_string(), "configuration");
    other.insert("identifier", toml_edit::Value::from("not valid"));
    assert_eq!(PrimaryUnit::from_toml(&other), None);
}

#[test]
fn download_slot_round_trip() {
    let mut bytes = vec![0u8; 16];
    bytes[1] = 0x10;
    bytes[3] = 0xfe;
    let name = PkgPart::from_str("my-gates").unwrap();
    let version = Version::from_str("0.1.22").unwrap();
    let slot = DownloadSlot::new(&name, &version, &Uuid::from_bytes(bytes.clone()).unwrap());
    assert_eq!(slot.as_ref(), "my-gates-0.1.22-1000fe.ip");
    let back = DownloadSlot::try_from_str(slot.as_ref()).unwrap();
    assert_eq!((back.get_name().to_string(), back.get_version().to_string(), back.2.clone()), ("my-gates".to_owned(), "0.1.22".to_owned(), "1000fe".to_owned()));
    for bad in ["my-gates-0.1.22-1000fe", "my-gates-0.1.22-1000fe.zip", "gates-0.1-ab.ip", ".ip", "ip"] {
        assert!(DownloadSlot::try_from_str(bad).is_none(), "{}", bad);
    }
    assert_eq!(Uuid::from_bytes(bytes.clone()).unwrap().as_bytes(), &bytes);
}

#[test]
fn library_of_an_ip_in_a_plan() {
    let target = ip("top", "0.1.0", &[]);
    let other = ip("My-Gates", "1.0.0", &[]);
    assert_eq!(orbit::commands::plan::library_name(&target, &target), "work");
    assert_eq!(orbit::commands::plan::library_name(&other, &target), "my_gates");
}

#[test]
fn accessors_of_levels_and_names() {
    let mut level = IpLevel::new();
    level.add_download(ip("gates", "1.0.0", &[]));
    assert_eq!(level.get_downloads().len(), 1);
    assert!(level.get_availability().is_empty());
    let catalog = Catalog::new().downloads("/dl".to_owned(), vec![ip("gates", "1.0.0", &[])]);
    assert_eq!(catalog.inner_levels().len(), 1);
    assert_eq!(catalog.find(&PkgPart::from_str("GATES").unwrap()), Some(0));
    let id = PkgId { vendor: None, library: Some(PkgPart::from_str("lib").unwrap()), name: PkgPart::from_str("n").unwrap() };
    assert_eq!(id.get_name().to_string(), "n");
    assert!(id.get_vendor().is_none());
    assert_eq!(id.get_library().as_ref().unwrap().to_string(), "lib");
    assert_eq!(id.to_string(), "lib.n");
}

#[test]
fn the_lowest_offer_that_will_do_is_installed() {
    let mut no_source = ip("gates", "1.0.0", &[]);
    no_source.manifest.ip.source = None;
    let catalog = Catalog::new()
        .installations("/cache".to_owned(), vec![ip("gates", "0.9.0", &[])])
        .available(vec![
            ip("gates", "1.4.0", &[]),
            ip("gates", "1.2.3", &[]),
            ip("gates", "2.0.0", &[]),
            ip("adders", "3.1.0", &[]),
            no_source,
        ]);
    let gates = PkgPart::from_str("Gates").unwrap();
    let ask = |name: &PkgPart, v: &str| {
        offer_to_install(&catalog, name, &PartialVersion::from_str(v).unwrap())
            .map(|ip| ip.get_version().to_string())
    };
    assert_eq!(ask(&gates, "1.2"), Some("1.2.3".to_owned()));
    assert_eq!(ask(&gates, "1.4"), Some("1.4.0".to_owned()));
    assert_eq!(ask(&gates, "2"), Some("2.0.0".to_owned()));
    // the lowest offer that will do cannot be fetched: nothing is installed
    assert_eq!(ask(&gates, "1"), None);
    // what is installed is no offer
    assert_eq!(ask(&gates, "0.9"), None);
    assert_eq!(ask(&gates, "3"), None);
    assert_eq!(ask(&PkgPart::from_str("nothing").unwrap(), "1"), None);
    assert_eq!(ask(&PkgPart::from_str("adders").unwrap(), "3"), Some("3.1.0".to_owned()));
}

#[test]
fn slot_of_an_ip() {
    let mut gates = ip("gates", "1.2.3", &[]);
    assert!(CacheSlot::of_ip(&gates).is_none());
    gates.checksum = Sha256Hash::from_str("0123456789abcdef0123456789abcdef0123456789abcdef0123456789abcdef");
    let slot = CacheSlot::of_ip(&gates).unwrap();
    assert_eq!(slot.to_string(), "gates-1.2.3-0123456789");
    assert_eq!(slot, CacheSlot::try_from_str("gates-1.2.3-0123456789").unwrap());
    gates.checksum = Some(Sha256Hash { digest: vec![1, 2, 3] });
    assert!(CacheSlot::of_ip(&gates).is_none());
}

#[test]
fn names_of_ips_in_parts() {
    let parts = |s: &str| {
        PkgId::from_str(s).map(|id| {
            (
                id.get_vendor().as_ref().map(|p| p.to_string()),
                id.get_library().as_ref().map(|p| p.to_string()),
                id.get_name().to_string(),
            )
        })
    };
    let some = |s: &str| Some(s.to_owned());
    assert_eq!(parts("gates"), Some((None, None, "gates".to_owned())));
    assert_eq!(parts("rary.gates"), Some((None, some("rary"), "gates".to_owned())));
    assert_eq!(parts("ks-tech.rary.gates"), Some((some("ks-tech"), some("rary"), "gates".to_owned())));
    assert_eq!(PkgId::from_str("ks-tech.rary.gates").unwrap().to_string(), "ks-tech.rary.gates");
    assert_eq!(parts(""), None);
    assert_eq!(parts("a.b.c.d"), None);
    assert_eq!(parts(".gates"), None);
    assert_eq!(parts("rary."), None);
    assert_eq!(parts("a..c"), None);
    assert_eq!(parts("1a.b"), None);
    assert_eq!(parts("a.b c"), None);
}

#[test]
fn what_is_missing_is_installed_next() {
    let sum = "0123456789abcdef0123456789abcdef0123456789abcdef0123456789abcdef";
    let mut offer = ip("gates", "1.2.3", &[]);
    offer.checksum = Sha256Hash::from_str(sum);
    let target = ip("top", "0.1.0", &[("gates", "1")]);
    let catalog = Catalog::new().available(vec![ip("gates", "2.0.0", &[]), offer]);
    match next_step(&target, &catalog) {
        NextStep::Install(ip, slot) => {
            assert_eq!(ip.get_version().to_string(), "1.2.3");
            assert_eq!(slot.to_string(), "gates-1.2.3-0123456789");
        }
        other => panic!("{:?}", other),
    }
    // an offer without a checksum has no slot to go to
    let catalog = Catalog::new().available(vec![ip("gates", "1.0.0", &[])]);
    match next_step(&target, &catalog) {
        NextStep::Fail(ResolveError::NotInstalled(name, req)) => {
            assert_eq!((name.to_string(), req.to_string()), ("gates".to_owned(), "1".to_owned()));
        }
        other => panic!("{:?}", other),
    }
    // once the ip is installed nothing is left to do
    let catalog = Catalog::new().installations("/cache".to_owned(), vec![ip("gates", "1.2.3", &[])]);
    match next_step(&target, &catalog) {
        NextStep::Done(list, text) => {
            let names: Vec<String> = list.iter().map(|ip| ip.get_man().get_ip().get_name().to_string()).collect();
            assert_eq!(names, vec!["top", "gates"]);
            assert_eq!(text, lock(&target, &catalog).unwrap().1);
        }
        other => panic!("{:?}", other),
    }
    match next_step(&target, &Catalog::new()) {
        NextStep::Fail(e) => assert_eq!(e, ResolveError::UnknownIp(PkgPart::from_str("gates").unwrap())),
        other => panic!("{:?}", other),
    }
}

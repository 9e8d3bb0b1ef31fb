use script_server::storage::uci::tree::{Uci, UciTree};
use script_server::storage::uci::uci_config::UciConfig;
use script_server::storage::uci::uci_option::{UciOption, UciOptionType};
use script_server::storage::uci::uci_section::UciSection;

fn strings(v: &[&str]) -> Vec<String> {
    v.iter().map(|s| s.to_string()).collect()
}

fn option(name: &str, t: UciOptionType, values: &[&str]) -> UciOption {
    UciOption::new(name.to_string(), t, strings(values))
}

/// A config with two unnamed `interface` sections around a named `device`.
fn network() -> UciConfig {
    let mut cfg = UciConfig::new("network".to_string());
    let mut lan = UciSection::new("interface".to_string(), String::new());
    lan.add(option("proto", UciOptionType::TypeOption, &["static"]));
    cfg.add(lan);
    let mut dev = UciSection::new("device".to_string(), "br0".to_string());
    dev.add(option("ports", UciOptionType::TypeList, &["eth0", "eth1"]));
    cfg.add(dev);
    let mut wan = UciSection::new("interface".to_string(), String::new());
    wan.add(option("proto", UciOptionType::TypeOption, &["dhcp"]));
    cfg.add(wan);
    cfg
}

fn proto_of(cfg: &UciConfig, name: &str) -> String {
    let sec = cfg.get(name).unwrap().unwrap();
    sec.get("proto").unwrap().values[0].clone()
}

#[test]
fn config_get_by_selector() {
    let cfg = network();
    assert_eq!(proto_of(&cfg, "@interface[0]"), "static");
    assert_eq!(proto_of(&cfg, "@interface[1]"), "dhcp");
    assert_eq!(proto_of(&cfg, "@interface[-1]"), "dhcp");
    assert_eq!(proto_of(&cfg, "@interface[-2]"), "static");
    assert_eq!(proto_of(&cfg, "@interface[+1]"), "dhcp");
    assert_eq!(cfg.get("br0").unwrap().unwrap().sec_type, "device");
    assert!(cfg.get("wan").unwrap().is_none());
    // An empty name finds the first unnamed section.
    assert_eq!(proto_of(&cfg, ""), "static");
}

#[test]
fn config_get_selector_errors() {
    let cfg = network();
    let err = |name: &str| cfg.get(name).err().unwrap().message;
    assert_eq!(err("@a[]"), "implausible section selector: must be at least 5 characters long");
    assert_eq!(err("@interface[2]"), "invalid name: index out of bounds");
    assert_eq!(err("@interface[-3]"), "invalid name: index out of bounds");
    assert_eq!(err("@a@b[1]"), "invalid syntax: multiple @ signs found");
    assert_eq!(err("@a[[1]"), "invalid syntax: multiple open brackets found");
    assert_eq!(err("@a]b[1]"), "invalid syntax: multiple closed brackets found");
    assert_eq!(err("@abc12"), "invalid syntax: section selector must have format '@type[index]'");
    assert_eq!(err("@abc[]"), "invalid syntax: index must be numeric: cannot parse integer from empty string");
    assert_eq!(err("@abc[x]"), "invalid syntax: index must be numeric: invalid digit found in string");
    assert_eq!(err("@abc[-]"), "invalid syntax: index must be numeric: invalid digit found in string");
    assert_eq!(
        err("@abc[99999999999]"),
        "invalid syntax: index must be numeric: number too large to fit in target type"
    );
    assert_eq!(
        err("@abc[-99999999999]"),
        "invalid syntax: index must be numeric: number too small to fit in target type"
    );
    // The length is counted in bytes: four characters, five bytes.
    assert_eq!(err("@é[]"), "invalid syntax: index must be numeric: cannot parse integer from empty string");
    // The index stops before the last character, whatever it is.
    assert_eq!(proto_of(&cfg, "@interface[1x"), "dhcp");
}

#[test]
fn config_section_names() {
    let cfg = network();
    let wan = cfg.get("@interface[1]").unwrap().unwrap();
    let br0 = cfg.get("br0").unwrap().unwrap();
    assert_eq!(cfg.section_name(wan), "@interface[1]");
    assert_eq!(cfg.section_name(br0), "br0");
    assert_eq!(cfg.get_section_name(wan), "interface[2]");
    assert_eq!(cfg.get_section_name(br0), "br0");
    assert_eq!(cfg.index(wan), Some(1));
    assert_eq!(cfg.index(br0), Some(0));
    let stranger = UciSection::new("interface".to_string(), String::new());
    assert_eq!(cfg.index(&stranger), None);
}

#[test]
fn config_add_merge_del() {
    let mut cfg = network();
    let mut extra = UciSection::new("device".to_string(), "br0".to_string());
    extra.add(option("ports", UciOptionType::TypeList, &["eth9"]));
    let merged = cfg.merge(extra);
    // The section shown under the same name has its own options merged into
    // it; the given section's options are not taken.
    assert_eq!(merged.options[0].values, strings(&["eth0", "eth1"]));
    assert_eq!(cfg.sections.len(), 3);

    let mut fresh = UciSection::new("zone".to_string(), "lan".to_string());
    fresh.add(option("name", UciOptionType::TypeOption, &["lan"]));
    let added = cfg.merge(fresh);
    assert_eq!(added.name, "lan");
    assert_eq!(cfg.sections.len(), 4);

    cfg.del("br0");
    assert_eq!(cfg.sections.len(), 3);
    assert!(cfg.get("br0").unwrap().is_none());
}

#[test]
fn config_write_in() {
    let cfg = network();
    let mut text = String::new();
    cfg.write_in(&mut text);
    assert_eq!(
        text,
        "\nconfig interface\n\toption proto 'static'\n\nconfig device 'br0'\n\tlist ports 'eth0'\n\tlist ports 'eth1'\n\nconfig interface\n\toption proto 'dhcp'\n\n"
    );
}

#[test]
fn option_values() {
    let mut o = option("dns", UciOptionType::TypeList, &["a", "b", "a"]);
    o.add_values("c".to_string());
    assert_eq!(o.values, strings(&["a", "b", "a", "c"]));
    o.merge_values(strings(&["b", "d", "d"]));
    assert_eq!(o.values, strings(&["a", "b", "c", "d"]));
    o.set_values(strings(&["x"]));
    assert_eq!(o.values, strings(&["x"]));
    assert_eq!(o.name, "dns");
    assert!(o.opt_type == UciOptionType::TypeList);
}

#[test]
fn section_options() {
    let mut sec = UciSection::new("interface".to_string(), "lan".to_string());
    sec.add(option("dns", UciOptionType::TypeList, &["a"]));
    sec.merge(option("dns", UciOptionType::TypeList, &["b", "a"]));
    assert_eq!(sec.get("dns").unwrap().values, strings(&["a", "b"]));
    sec.merge(option("mtu", UciOptionType::TypeOption, &["1500"]));
    assert_eq!(sec.options.len(), 2);
    assert!(sec.del("dns"));
    assert!(!sec.del("dns"));
    assert!(sec.get("dns").is_none());
    assert_eq!(sec.options.len(), 1);
}

fn loaded_tree() -> UciTree {
    let mut tree = UciTree::new("/etc/config");
    tree.load_config("network", Some(Ok(network()))).unwrap();
    tree
}

#[test]
fn tree_load() {
    let mut tree = loaded_tree();
    assert_eq!(tree.get_dir(), "/etc/config");
    assert_eq!(
        tree.load_config("network", None).err().unwrap().message,
        "network already loaded"
    );
    let err = script_server::utils::error::Error::new("No such file or directory (os error 2)".to_string());
    assert_eq!(
        tree.load_config("wireless", Some(Err(err))).err().unwrap().message,
        "No such file or directory (os error 2)"
    );
    assert!(tree.get_config("wireless").is_none());
    tree.load_config_force("network", Ok(UciConfig::new("network".to_string()))).unwrap();
    assert_eq!(tree.get_config("network").unwrap().sections.len(), 0);
}

#[test]
fn tree_set_and_get_options() {
    let mut tree = loaded_tree();
    assert_eq!(*tree.get_option_value("network", "@interface[1]", "proto").unwrap(), strings(&["dhcp"]));
    tree.set_option_values("network", "@interface[1]", "proto", strings(&["pppoe"]), None).unwrap();
    assert_eq!(tree.get_option_last_value("network", "@interface[-1]", "proto").unwrap(), Some("pppoe".to_string()));
    tree.set_option_values("network", "br0", "stp", strings(&["1"]), None).unwrap();
    assert!(tree.get_option_bool_value("network", "br0", "stp").unwrap());
    tree.set_option_values("network", "br0", "stp", strings(&["off"]), None).unwrap();
    assert!(!tree.get_option_bool_value("network", "br0", "stp").unwrap());
    tree.set_option_values("network", "br0", "dns", strings(&["a", "b"]), None).unwrap();
    let dns = tree.get_config("network").unwrap().get("br0").unwrap().unwrap().get("dns").unwrap();
    assert!(dns.opt_type == UciOptionType::TypeList);
    assert_eq!(
        tree.get_option_value("network", "br0", "mtu").err().unwrap().message,
        "values of br0.mtu not found"
    );
    assert_eq!(
        tree.get_option_value("system", "br0", "mtu").err().unwrap().message,
        "values of br0.mtu not found"
    );
    assert_eq!(
        tree.set_option_values("network", "wan", "proto", strings(&["x"]), None).err().unwrap().message,
        "section 'wan' not found"
    );
    assert_eq!(
        tree.get_option_value("network", "@interface[5]", "proto").err().unwrap().message,
        "invalid name: index out of bounds"
    );
    // Setting values does not mark the config modified.
    assert!(!tree.get_config("network").unwrap().modified);
}

#[test]
fn tree_sections() {
    let mut tree = loaded_tree();
    tree.add_section("network", "interface", "", None).unwrap();
    tree.add_section("network", "switch", "sw0", None).unwrap();
    tree.add_section("network", "switch", "sw0", None).unwrap();
    assert_eq!(
        tree.add_section("network", "bridge", "br0", None).err().unwrap().message,
        "type mismatch for network.br0, got device, want bridge"
    );
    assert!(tree.get_config("network").unwrap().modified);
    {
        let interfaces = tree.get_sections("network", "interface", None).unwrap();
        assert_eq!(interfaces.len(), 3);
        assert_eq!(tree.get_config("network").unwrap().sections.len(), 5);
    }
    tree.del_section("network", "sw0", None).unwrap();
    assert_eq!(tree.get_config("network").unwrap().sections.len(), 4);

    let err = script_server::utils::error::Error::new("missing".to_string());
    tree.add_section("firewall", "zone", "lan", Some(Err(err))).unwrap();
    let fw = tree.get_config("firewall").unwrap();
    assert!(fw.modified);
    assert_eq!(fw.name, "firewall");
    assert_eq!(fw.sections.len(), 1);

    let missing = script_server::utils::error::Error::new("missing".to_string());
    assert!(tree.get_sections("dhcp", "host", Some(Err(missing))).is_none());
}

#[test]
fn tree_del_option_commit_revert() {
    let mut tree = loaded_tree();
    tree.del_option("network", "br0", "ports", None).unwrap();
    assert!(tree.get_config("network").unwrap().modified);
    tree.del_option("network", "br0", "ports", None).unwrap();
    assert!(!tree.get_config("network").unwrap().modified);
    tree.del_option("network", "wan", "ports", None).unwrap();

    tree.del_section("network", "br0", None).unwrap();
    assert_eq!(tree.modified_names(), strings(&["network"]));
    let failed = script_server::utils::error::Error::new("disk full".to_string());
    assert_eq!(tree.commit(Err(failed)).err().unwrap().message, "disk full");
    assert!(tree.get_config("network").unwrap().modified);
    tree.commit(Ok(())).unwrap();
    assert!(!tree.get_config("network").unwrap().modified);
    assert!(tree.modified_names().is_empty());

    tree.set_config_package_name("network", "network2").unwrap();
    assert_eq!(tree.get_config("network").unwrap().name, "network2");
    assert_eq!(tree.set_config_package_name("dhcp", "x").err().unwrap().message, "config not found");

    tree.revert(strings(&["network", "dhcp"])).unwrap();
    assert!(tree.get_config("network").is_none());
}

#[test]
fn selector_names_designate_their_sections() {
    let mut cfg = network();
    for i in 0..12 {
        let mut s = UciSection::new("rule".to_string(), String::new());
        s.add(option("n", UciOptionType::TypeOption, &[&i.to_string()]));
        cfg.add(s);
    }
    for i in 0..cfg.sections.len() {
        let sec = &cfg.sections[i];
        let name = cfg.section_name(sec);
        let found = cfg.get(&name).unwrap().unwrap();
        assert!(found.same_as(sec));
    }
    assert_eq!(cfg.section_name(&cfg.sections[14]), "@rule[11]");
}

#[test]
fn added_sections_can_be_found() {
    let mut tree = loaded_tree();
    tree.add_section("network", "switch", "sw1", None).unwrap();
    let cfg = tree.get_config("network").unwrap();
    let sec = cfg.get("sw1").unwrap().unwrap();
    assert_eq!(sec.sec_type, "switch");
    assert_eq!(sec.options.len(), 0);
}

#[test]
fn reverting_a_fresh_load_forgets_it() {
    let mut tree = UciTree::new("/etc/config");
    tree.load_config("network", Some(Ok(network()))).unwrap();
    tree.load_config("dhcp", Some(Ok(UciConfig::new("dhcp".to_string())))).unwrap();
    tree.revert(strings(&["network"])).unwrap();
    assert!(tree.get_config("network").is_none());
    assert_eq!(tree.get_config("dhcp").unwrap().name, "dhcp");
}

#[test]
fn formatted_selectors_split_back() {
    let mut cfg = UciConfig::new("firewall".to_string());
    for i in 0..3 {
        let mut s = UciSection::new("rule".to_string(), String::new());
        s.add(option("proto", UciOptionType::TypeOption, &[&i.to_string()]));
        cfg.add(s);
    }
    for k in -3i32..3 {
        let want = if k >= 0 { k } else { 3 + k };
        assert_eq!(proto_of(&cfg, &format!("@{}[{}]", "rule", k)), want.to_string());
    }
    assert_eq!(
        cfg.get(&format!("@rule[{}]", i32::MIN)).err().unwrap().message,
        "invalid name: index out of bounds"
    );
    assert_eq!(
        cfg.get(&format!("@rule[{}]", i32::MAX)).err().unwrap().message,
        "invalid name: index out of bounds"
    );
}

#[test]
fn merge_keeps_section_names() {
    let mut cfg = network();
    let mut dev = UciSection::new("device".to_string(), "br0".to_string());
    dev.add(option("mtu", UciOptionType::TypeOption, &["1500"]));
    let merged = cfg.merge(dev);
    assert_eq!(merged.name, "br0");
    assert_eq!(cfg.sections.len(), 3);
    let extra = UciSection::new("device".to_string(), "br1".to_string());
    let merged = cfg.merge(extra);
    assert_eq!(merged.name, "br1");
    assert_eq!(cfg.sections.len(), 4);
    let names: Vec<&str> = cfg.sections.iter().map(|s| s.name.as_str()).filter(|n| !n.is_empty()).collect();
    assert_eq!(names, vec!["br0", "br1"]);
}

#[test]
fn adding_a_named_section_twice_changes_nothing() {
    let mut tree = loaded_tree();
    tree.add_section("network", "switch", "sw9", None).unwrap();
    tree.commit(Ok(())).unwrap();
    tree.add_section("network", "switch", "sw9", None).unwrap();
    let cfg = tree.get_config("network").unwrap();
    assert_eq!(cfg.sections.len(), 4);
    assert!(!cfg.modified);
}

#[test]
fn merging_values_twice_changes_nothing() {
    let mut o = option("dns", UciOptionType::TypeList, &["a", "b", "a"]);
    o.merge_values(strings(&["c", "b"]));
    assert_eq!(o.values, strings(&["a", "b", "c"]));
    o.merge_values(strings(&["c", "b"]));
    assert_eq!(o.values, strings(&["a", "b", "c"]));
    let mut p = option("dns", UciOptionType::TypeList, &["x", "x", "y"]);
    p.merge_values(vec![]);
    assert_eq!(p.values, strings(&["x", "y"]));
}

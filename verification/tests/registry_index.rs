use vexy_svgo_plugin_sdk::registry::{
    PerformanceHints, PluginDependency, PluginMetadata, RegistryConfig, RegistryError, RegistryIndex,
};

fn meta(name: &str, deps: &[(&str, bool)], tags: &[&str], order: i32, experimental: bool) -> PluginMetadata {
    let mut hints = PerformanceHints::default();
    hints.execution_order = order;
    PluginMetadata {
        name: name.to_string(),
        description: String::new(),
        version: "1.0.0".to_string(),
        author: None,
        tags: tags.iter().map(|t| t.to_string()).collect(),
        experimental,
        min_vexy_svgo_version: None,
        dependencies: deps
            .iter()
            .map(|(n, optional)| PluginDependency { name: n.to_string(), version: "*".to_string(), optional: *optional })
            .collect(),
        capabilities: Vec::new(),
        performance_hints: hints,
    }
}

fn names(v: &[&str]) -> Vec<String> {
    v.iter().map(|s| s.to_string()).collect()
}

#[test]
fn registry_index_registration_rules() {
    let mut idx = RegistryIndex::new(RegistryConfig::default());
    assert!(idx.register(meta("a", &[], &[], 0, false)).is_ok());
    assert!(matches!(idx.register(meta("a", &[], &[], 0, false)), Err(RegistryError::AlreadyRegistered(n)) if n == "a"));
    assert!(matches!(idx.register(meta("x", &[], &[], 0, true)), Err(RegistryError::ExperimentalNotAllowed(n)) if n == "x"));
    assert!(idx.has_plugin("a"));
    assert!(!idx.has_plugin("x"));
    assert!(idx.get_stats("a").is_some());

    let mut cfg = RegistryConfig::default();
    cfg.allow_experimental = true;
    cfg.collect_stats = false;
    let mut idx2 = RegistryIndex::new(cfg);
    assert!(idx2.register(meta("x", &[], &[], 0, true)).is_ok());
    assert!(idx2.get_stats("x").is_none());
}

#[test]
fn registry_index_aliases() {
    let mut idx = RegistryIndex::new(RegistryConfig::default());
    idx.register(meta("removeDesc", &[], &[], 0, false)).unwrap();
    assert!(matches!(idx.register_alias("rd", "missing"), Err(RegistryError::NotFound(n)) if n == "missing"));
    idx.register_alias("rd", "removeDesc").unwrap();
    assert_eq!(idx.resolve_name("rd"), "removeDesc");
    assert_eq!(idx.resolve_name("other"), "other");
    assert_eq!(idx.get_metadata("rd").unwrap().name, "removeDesc");
    assert!(idx.has_plugin("rd"));
}

#[test]
fn registry_index_dependencies_come_first() {
    let mut idx = RegistryIndex::new(RegistryConfig::default());
    idx.register(meta("c", &[("a", false), ("opt", true)], &[], 0, false)).unwrap();
    idx.register(meta("a", &[("b", false)], &[], 0, false)).unwrap();
    idx.register(meta("b", &[], &[], 0, false)).unwrap();
    let order = idx.resolve_execution_order(&names(&["c", "b"])).ok().unwrap();
    assert_eq!(order, names(&["b", "a", "c"]));
    // an unknown name is placed as it is
    let order = idx.resolve_execution_order(&names(&["zz", "a"])).ok().unwrap();
    assert_eq!(order, names(&["zz", "b", "a"]));
}

#[test]
fn registry_index_detects_cycles() {
    let mut idx = RegistryIndex::new(RegistryConfig::default());
    idx.register(meta("a", &[("b", false)], &[], 0, false)).unwrap();
    idx.register(meta("b", &[("a", false)], &[], 0, false)).unwrap();
    assert!(matches!(
        idx.resolve_execution_order(&names(&["a"])),
        Err(RegistryError::CircularDependency(n)) if n == "a"
    ));
    // a plugin depending on itself
    let mut idx = RegistryIndex::new(RegistryConfig::default());
    idx.register(meta("s", &[("s", false)], &[], 0, false)).unwrap();
    assert!(matches!(
        idx.resolve_execution_order(&names(&["s"])),
        Err(RegistryError::CircularDependency(n)) if n == "s"
    ));
}

#[test]
fn registry_index_missing_dependencies() {
    let mut idx = RegistryIndex::new(RegistryConfig::default());
    idx.register(meta("a", &[("b", false), ("c", true), ("d", false)], &[], 0, false)).unwrap();
    idx.register(meta("d", &[], &[], 0, false)).unwrap();
    assert!(matches!(idx.check_dependencies("a"), Err(RegistryError::MissingDependencies(v)) if v == names(&["b"])));
    assert!(matches!(idx.check_dependencies("d"), Ok(v) if v.is_empty()));
    assert!(matches!(idx.check_dependencies("nope"), Err(RegistryError::NotFound(n)) if n == "nope"));
}

#[test]
fn registry_index_listing() {
    let mut idx = RegistryIndex::new(RegistryConfig::default());
    idx.register(meta("late", &[], &["style"], 5, false)).unwrap();
    idx.register(meta("early", &[], &["paths"], -1, false)).unwrap();
    idx.register(meta("mid", &[], &["style", "paths"], 5, false)).unwrap();
    let all: Vec<&str> = idx.list_plugins().iter().map(|m| m.name.as_str()).collect();
    assert_eq!(all, vec!["late", "early", "mid"]);
    let styled: Vec<&str> = idx.list_plugins_by_tag("style").iter().map(|m| m.name.as_str()).collect();
    assert_eq!(styled, vec!["late", "mid"]);
    let ordered: Vec<&str> = idx.get_ordered_plugins().iter().map(|m| m.name.as_str()).collect();
    assert_eq!(ordered, vec!["early", "late", "mid"]);
}

#[test]
fn registry_index_records_creations() {
    let mut idx = RegistryIndex::new(RegistryConfig::default());
    idx.register(meta("a", &[], &[], 0, false)).unwrap();
    idx.register(meta("b", &[], &[], 0, false)).unwrap();
    idx.register_alias("aa", "a").unwrap();
    assert!(matches!(idx.record_creation("nope", 5, true), Err(RegistryError::NotFound(n)) if n == "nope"));
    idx.record_creation("aa", 30, true).unwrap();
    idx.record_creation("a", 10, false).unwrap();
    let s = idx.get_stats("a").unwrap();
    assert_eq!(s.executions, 2);
    assert_eq!(s.total_time, 40);
    assert_eq!(s.avg_time, 20);
    assert_eq!(s.min_time, 10);
    assert_eq!(s.max_time, 30);
    assert_eq!(s.error_count, 1);
    assert!(s.last_execution.is_some());
    assert_eq!(idx.get_stats("b").unwrap().executions, 0);

    let all = idx.get_all_stats();
    assert_eq!(all.len(), 2);
    assert_eq!(all[0].0, "a");
    assert_eq!(all[1].0, "b");

    let mut cfg = RegistryConfig::default();
    cfg.collect_stats = false;
    let mut quiet = RegistryIndex::new(cfg);
    quiet.register(meta("a", &[], &[], 0, false)).unwrap();
    quiet.record_creation("a", 7, true).unwrap();
    assert!(quiet.get_all_stats().is_empty());
}

#[test]
fn order_fails_exactly_when_a_cycle_is_reachable() {
    let mut idx = RegistryIndex::new(RegistryConfig::default());
    idx.register(meta("top", &[("b", false)], &[], 0, false)).unwrap();
    idx.register(meta("b", &[("c", false)], &[], 0, false)).unwrap();
    idx.register(meta("c", &[("b", false)], &[], 0, false)).unwrap();
    idx.register(meta("free", &[("leaf", false)], &[], 0, false)).unwrap();
    idx.register(meta("leaf", &[], &[], 0, false)).unwrap();
    // the cycle b -> c -> b is reached from top, and the name closing it is reported
    assert!(matches!(
        idx.resolve_execution_order(&names(&["top"])),
        Err(RegistryError::CircularDependency(n)) if n == "b"
    ));
    // nothing requested reaches it
    let order = idx.resolve_execution_order(&names(&["free"])).ok().unwrap();
    assert_eq!(order, names(&["leaf", "free"]));
}

use physics_engine::plugins::registry::{is_version_compatible, topological_sort};
use physics_engine::plugins::{PluginRegistry, PLUGIN_API_VERSION};

fn deps(entries: &[(&str, &[&str])]) -> Vec<(String, Vec<String>)> {
    entries
        .iter()
        .map(|(name, ds)| (name.to_string(), ds.iter().map(|d| d.to_string()).collect()))
        .collect()
}

fn names(list: &[&str]) -> Vec<String> {
    list.iter().map(|s| s.to_string()).collect()
}

#[test]
fn test_plugin_api_version() {
    assert_eq!(PLUGIN_API_VERSION, "0.1.0");
}

#[test]
fn test_module_exports() {
    let _version: &str = PLUGIN_API_VERSION;
}

#[test]
fn test_registry_creation() {
    let registry = PluginRegistry::new();
    assert_eq!(registry.plugin_count(), 0);
    assert!(!registry.is_initialized());
}

#[test]
fn test_plugin_registration() {
    let mut registry = PluginRegistry::new();
    assert!(registry.register("test".to_string(), PLUGIN_API_VERSION).is_ok());
    assert_eq!(registry.plugin_count(), 1);
}

#[test]
fn test_duplicate_plugin_registration() {
    let mut registry = PluginRegistry::new();
    registry.register("test".to_string(), PLUGIN_API_VERSION).unwrap();

    let result = registry.register("test".to_string(), PLUGIN_API_VERSION);
    assert!(result.is_err());
    assert!(result.unwrap_err().contains("already registered"));
}

#[test]
fn registry_test_plugin_initialization() {
    let mut registry = PluginRegistry::new();
    registry.register("test".to_string(), PLUGIN_API_VERSION).unwrap();

    assert!(registry.begin_initialization(&vec![vec![]]).is_ok());
    registry.complete_initialization();
    assert!(registry.is_initialized());
}

#[test]
fn test_dependency_resolution() {
    let mut registry = PluginRegistry::new();
    registry.register("plugin_a".to_string(), PLUGIN_API_VERSION).unwrap();
    registry.register("plugin_b".to_string(), PLUGIN_API_VERSION).unwrap();

    assert!(registry.begin_initialization(&vec![vec![], names(&["plugin_a"])]).is_ok());
    registry.complete_initialization();

    let load_order = registry.load_order();
    let a_index = load_order.iter().position(|s| s == "plugin_a").unwrap();
    let b_index = load_order.iter().position(|s| s == "plugin_b").unwrap();
    assert!(a_index < b_index);
}

#[test]
fn test_missing_dependency() {
    let mut registry = PluginRegistry::new();
    registry.register("plugin_b".to_string(), PLUGIN_API_VERSION).unwrap();

    let result = registry.begin_initialization(&vec![names(&["plugin_a"])]);
    assert!(result.is_err());
    assert!(result.unwrap_err().contains("not registered"));
}

#[test]
fn test_circular_dependency() {
    let mut registry = PluginRegistry::new();
    registry.register("plugin_a".to_string(), PLUGIN_API_VERSION).unwrap();
    registry.register("plugin_b".to_string(), PLUGIN_API_VERSION).unwrap();
    registry.register("plugin_c".to_string(), PLUGIN_API_VERSION).unwrap();

    let result = registry.begin_initialization(&vec![
        names(&["plugin_c"]),
        names(&["plugin_a"]),
        names(&["plugin_b"]),
    ]);
    assert!(result.is_err());
    assert!(result.unwrap_err().contains("Circular dependency"));
}

#[test]
fn test_plugin_update() {
    let mut registry = PluginRegistry::new();
    registry.register("test".to_string(), PLUGIN_API_VERSION).unwrap();
    assert_eq!(registry.begin_update(), Err("Registry not initialized".to_string()));

    registry.begin_initialization(&vec![vec![]]).unwrap();
    registry.complete_initialization();
    assert!(registry.begin_update().is_ok());
    assert_eq!(registry.load_order().to_vec(), names(&["test"]));
}

#[test]
fn test_plugin_shutdown() {
    let mut registry = PluginRegistry::new();
    registry.register("test".to_string(), PLUGIN_API_VERSION).unwrap();

    registry.begin_initialization(&vec![vec![]]).unwrap();
    registry.complete_initialization();
    assert_eq!(registry.shutdown_order(), names(&["test"]));
    registry.complete_shutdown();
    assert!(!registry.is_initialized());
}

#[test]
fn test_version_compatibility() {
    assert!(is_version_compatible("0.1.0", "0.1.0"));
    assert!(is_version_compatible("0.1.5", "0.1.10"));
    assert!(!is_version_compatible("0.1.0", "0.2.0"));
    assert!(!is_version_compatible("0.2.0", "0.1.0"));

    assert!(is_version_compatible("1.0.0", "1.0.0"));
    assert!(is_version_compatible("1.0.0", "1.2.0"));
    assert!(!is_version_compatible("1.2.0", "1.0.0"));

    assert!(!is_version_compatible("1.0.0", "0.1.0"));
    assert!(!is_version_compatible("2.0.0", "1.0.0"));

    assert!(!is_version_compatible("invalid", "0.1.0"));
    assert!(!is_version_compatible("0.1.0", "invalid"));
}

#[test]
fn test_topological_sort_simple() {
    let d = deps(&[("a", &[]), ("b", &["a"]), ("c", &["b"])]);

    let sorted = topological_sort(&d).unwrap();
    assert_eq!(sorted.len(), 3);

    let a_idx = sorted.iter().position(|s| s == "a").unwrap();
    let b_idx = sorted.iter().position(|s| s == "b").unwrap();
    let c_idx = sorted.iter().position(|s| s == "c").unwrap();
    assert!(a_idx < b_idx);
    assert!(b_idx < c_idx);
}

#[test]
fn test_topological_sort_cycle() {
    let d = deps(&[("a", &["b"]), ("b", &["a"])]);

    let result = topological_sort(&d);
    assert!(result.is_err());
    assert!(result.unwrap_err().contains("Circular dependency"));
}

#[test]
fn test_discover_plugins() {
    let registry = PluginRegistry::new();

    let result = registry.discover_plugins();
    assert!(result.is_ok());
    assert_eq!(result.unwrap(), 0);
}

// Registration is refused once the registry is initialized, with the
// closed-registration message taking precedence.
#[test]
fn test_registration_closed_after_initialization() {
    let mut registry = PluginRegistry::default();
    registry.register("a".to_string(), "0.1.3").unwrap();
    registry.begin_initialization(&vec![vec![]]).unwrap();
    registry.complete_initialization();
    assert_eq!(
        registry.register("a".to_string(), "0.1.0"),
        Err("Cannot register plugins after initialization".to_string())
    );
    assert_eq!(
        registry.begin_initialization(&vec![vec![]]),
        Err("Registry already initialized".to_string())
    );
    assert_eq!(
        registry.discover_plugins(),
        Err("Cannot discover plugins after initialization".to_string())
    );
    assert_eq!(registry.plugin_count(), 1);
}

#[test]
fn test_register_error_messages() {
    let mut registry = PluginRegistry::new();
    registry.register("p".to_string(), "0.1.0").unwrap();
    assert_eq!(
        registry.register("p".to_string(), "0.1.0"),
        Err("Plugin 'p' is already registered".to_string())
    );
    assert_eq!(
        registry.register("q".to_string(), "0.2.0"),
        Err("Plugin 'q' API version 0.2.0 is incompatible with engine API version 0.1.0".to_string())
    );
    assert_eq!(registry.registered_names().to_vec(), names(&["p"]));
    let err = registry.begin_initialization(&vec![names(&["zz"])]).unwrap_err();
    assert_eq!(err, "Plugin 'p' depends on 'zz' which is not registered");
    assert_eq!(
        PluginRegistry::hook_failure("initialize", "p", "boom"),
        "Failed to initialize plugin 'p': boom"
    );
}

// Plugins shut down in the reverse of their load order.
#[test]
fn test_shutdown_reverses_load_order() {
    let mut registry = PluginRegistry::new();
    for n in ["render", "physics", "core"] {
        registry.register(n.to_string(), PLUGIN_API_VERSION).unwrap();
    }
    assert!(registry.shutdown_order().is_empty());
    registry
        .begin_initialization(&vec![names(&["physics"]), names(&["core"]), vec![]])
        .unwrap();
    assert_eq!(registry.load_order().to_vec(), names(&["core", "physics", "render"]));
    registry.complete_initialization();
    assert_eq!(registry.shutdown_order(), names(&["render", "physics", "core"]));
}

#[test]
fn test_topological_sort_edge_cases() {
    assert_eq!(topological_sort(&Vec::new()), Ok(Vec::new()));
    // A dependency on a name outside the table has no order either.
    assert!(topological_sort(&deps(&[("a", &["ghost"])])).is_err());
    // A self-dependency is a cycle.
    assert!(topological_sort(&deps(&[("a", &["a"])])).is_err());
    let sorted = topological_sort(&deps(&[("x", &[]), ("y", &[]), ("z", &["x", "y"])])).unwrap();
    assert_eq!(sorted.last().unwrap(), "z");
}

#[test]
fn test_patch_versions_ignored() {
    assert!(is_version_compatible("1.3.9", "1.3.0"));
    assert!(is_version_compatible("0.4.0", "0.4.7"));
    assert!(!is_version_compatible("1", "1.0.0"));
}

use std::sync::Arc;
use traitclaw::registry::{
    AdaptiveRegistry, DynamicRegistry, GroupedRegistry, SimpleRegistry, ToolInfo, ToolRegistry,
};
use traitclaw::types::ModelTier;

fn fake(name: &str) -> ToolInfo {
    ToolInfo::new(name, "fake")
}

fn make_tools(n: usize) -> Vec<ToolInfo> {
    (0..n).map(|i| fake(&format!("tool_{i}"))).collect()
}

// ── SimpleRegistry ──────────────────────────────────────────────────────

#[test]
fn test_tool_registry_is_object_safe() {
    let registry = SimpleRegistry::new(vec![]);
    let _: Arc<dyn ToolRegistry> = Arc::new(registry);
}

#[test]
fn test_simple_registry_empty() {
    let registry = SimpleRegistry::new(vec![]);
    assert!(registry.is_empty());
    assert_eq!(registry.len(), 0);
    assert_eq!(registry.get_tools().len(), 0);
    assert!(registry.find_tool("nonexistent").is_none());
}

#[test]
fn test_simple_registry_is_read_only() {
    let mut registry = SimpleRegistry::new(vec![]);
    assert!(!registry.register(ToolInfo::new("dummy_tool", "A test tool")));
    assert!(!registry.unregister("dummy"));
    assert!(!registry.set_enabled("dummy", false));
}

#[test]
fn test_simple_registry_with_tools() {
    let registry = SimpleRegistry::new(vec![ToolInfo::new("dummy_tool", "A test tool")]);
    assert_eq!(registry.len(), 1);
    assert!(!registry.is_empty());
    assert!(registry.find_tool("dummy_tool").is_some());
    assert!(registry.find_tool("nonexistent").is_none());
    assert!(registry.is_enabled("dummy_tool"));
    assert!(!registry.is_enabled("nonexistent"));
}

// ── DynamicRegistry ─────────────────────────────────────────────────────

#[test]
fn test_dynamic_registry_empty() {
    let reg = DynamicRegistry::new();
    assert!(reg.is_empty());
    assert_eq!(reg.len(), 0);
}

#[test]
fn test_dynamic_registry_register_and_find() {
    let mut reg = DynamicRegistry::new();
    assert!(reg.register(fake("search")));
    assert_eq!(reg.len(), 1);
    assert!(reg.find_tool("search").is_some());
    assert!(reg.find_tool("calc").is_none());
}

#[test]
fn test_dynamic_registry_no_duplicates() {
    let mut reg = DynamicRegistry::new();
    assert!(reg.register(fake("search")));
    assert!(!reg.register(fake("search")));
    assert_eq!(reg.len(), 1);
}

#[test]
fn test_dynamic_registry_unregister() {
    let mut reg = DynamicRegistry::new();
    reg.register(fake("search"));
    assert!(reg.unregister("search"));
    assert!(reg.is_empty());
    assert!(!reg.unregister("search"));
}

#[test]
fn test_dynamic_registry_set_enabled() {
    let mut reg = DynamicRegistry::new();
    reg.register(fake("search"));
    assert!(reg.is_enabled("search"));

    assert!(reg.set_enabled("search", false));
    assert!(!reg.is_enabled("search"));
    assert_eq!(reg.len(), 0);
    assert!(reg.find_tool("search").is_none());

    assert!(reg.set_enabled("search", true));
    assert!(reg.is_enabled("search"));
    assert_eq!(reg.len(), 1);
}

#[test]
fn test_dynamic_registry_set_enabled_no_change() {
    let mut reg = DynamicRegistry::new();
    reg.register(fake("search"));
    assert!(!reg.set_enabled("search", true));
}

#[test]
fn test_dynamic_registry_with_tools() {
    let reg = DynamicRegistry::with_tools(vec![fake("a"), fake("b")]);
    assert_eq!(reg.len(), 2);
    assert!(reg.is_enabled("a"));
    assert!(reg.is_enabled("b"));
}

#[test]
fn test_dynamic_registry_get_tools_only_enabled() {
    let mut reg = DynamicRegistry::new();
    reg.register(fake("a"));
    reg.register(fake("b"));
    reg.set_enabled("a", false);

    let tools = reg.get_tools();
    assert_eq!(tools.len(), 1);
    assert_eq!(tools[0].name, "b");
}

#[test]
fn test_dynamic_registry_disabled_tool_can_still_be_unregistered() {
    let mut reg = DynamicRegistry::with_tools(vec![fake("a")]);
    assert!(reg.set_enabled("a", false));
    assert!(reg.unregister("a"));
    assert!(reg.register(fake("b")));
    assert_eq!(reg.len(), 1);
}

// ── GroupedRegistry ─────────────────────────────────────────────────────

#[test]
fn test_grouped_registry_empty() {
    let reg = GroupedRegistry::new();
    assert!(reg.is_empty());
    assert_eq!(reg.len(), 0);
    assert!(reg.get_tools().is_empty());
    assert!(reg.find_tool("anything").is_none());
}

#[test]
fn test_grouped_registry_single_group() {
    let reg = GroupedRegistry::new()
        .group("search", vec![fake("web_search"), fake("deep_search")])
        .activate("search");
    assert_eq!(reg.len(), 2);
    assert!(!reg.is_empty());
    assert_eq!(reg.get_tools().len(), 2);
}

#[test]
fn test_grouped_registry_multiple_groups_activate_switch() {
    let mut reg = GroupedRegistry::new()
        .group("search", vec![fake("web_search")])
        .group("code", vec![fake("read_file"), fake("write_file")])
        .activate("search");

    assert_eq!(reg.len(), 1);
    assert_eq!(reg.get_tools()[0].name, "web_search");

    assert!(reg.deactivate_group("search"));
    assert!(reg.is_empty());

    assert!(reg.activate_group("code"));
    assert_eq!(reg.len(), 2);
    let names: Vec<String> = reg.get_tools().iter().map(|t| t.name.clone()).collect();
    assert!(names.contains(&"read_file".to_string()));
    assert!(names.contains(&"write_file".to_string()));
}

#[test]
fn test_grouped_registry_multiple_active_groups() {
    let reg = GroupedRegistry::new()
        .group("search", vec![fake("web_search")])
        .group("code", vec![fake("read_file")])
        .activate("search")
        .activate("code");

    assert_eq!(reg.len(), 2);
    let names: Vec<String> = reg.get_tools().iter().map(|t| t.name.clone()).collect();
    assert!(names.contains(&"web_search".to_string()));
    assert!(names.contains(&"read_file".to_string()));
}

#[test]
fn test_grouped_registry_find_tool_searches_all_groups() {
    let reg = GroupedRegistry::new()
        .group("search", vec![fake("web_search")])
        .group("code", vec![fake("read_file")])
        .activate("search");

    assert_eq!(reg.get_tools().len(), 1);
    assert!(reg.find_tool("web_search").is_some());
    assert!(reg.find_tool("read_file").is_some());
    assert!(reg.find_tool("nonexistent").is_none());
}

#[test]
fn test_grouped_registry_activate_nonexistent_group() {
    let mut reg = GroupedRegistry::new().group("search", vec![fake("a")]);
    assert!(!reg.activate_group("nonexistent"));
    assert!(reg.activate_group("search"));
}

#[test]
fn test_grouped_registry_deactivate_nonexistent() {
    let mut reg = GroupedRegistry::new();
    assert!(!reg.deactivate_group("nonexistent"));
}

#[test]
fn test_grouped_registry_group_names() {
    let reg = GroupedRegistry::new()
        .group("search", vec![])
        .group("code", vec![])
        .activate("search");

    let mut names = reg.group_names();
    names.sort();
    assert_eq!(names, vec!["code", "search"]);

    let active = reg.active_group_names();
    assert_eq!(active.len(), 1);
    assert!(active.contains(&"search".to_string()));
}

#[test]
fn test_grouped_registry_is_group_active() {
    let reg = GroupedRegistry::new()
        .group("search", vec![])
        .group("code", vec![])
        .activate("search");

    assert!(reg.is_group_active("search"));
    assert!(!reg.is_group_active("code"));
}

#[test]
fn test_grouped_registry_object_safe() {
    let reg = GroupedRegistry::new();
    let _: Arc<dyn ToolRegistry> = Arc::new(reg);
}

#[test]
fn test_grouped_registry_replace_group() {
    let reg = GroupedRegistry::new()
        .group("search", vec![fake("old_tool")])
        .group("search", vec![fake("new_tool")])
        .activate("search");

    assert_eq!(reg.len(), 1);
    assert!(reg.find_tool("new_tool").is_some());
    assert!(reg.find_tool("old_tool").is_none());
}

// ── AdaptiveRegistry ────────────────────────────────────────────────────

#[test]
fn test_adaptive_registry_small_tier_limits() {
    let reg = AdaptiveRegistry::new(make_tools(30), ModelTier::Small);
    assert_eq!(reg.len(), 5);
    assert_eq!(reg.get_tools().len(), 5);
    assert_eq!(reg.get_tools()[0].name, "tool_0");
    assert_eq!(reg.get_tools()[4].name, "tool_4");
}

#[test]
fn test_adaptive_registry_medium_tier_limits() {
    let reg = AdaptiveRegistry::new(make_tools(30), ModelTier::Medium);
    assert_eq!(reg.len(), 15);
    assert_eq!(reg.get_tools().len(), 15);
}

#[test]
fn test_adaptive_registry_large_tier_all() {
    let reg = AdaptiveRegistry::new(make_tools(30), ModelTier::Large);
    assert_eq!(reg.len(), 30);
    assert_eq!(reg.get_tools().len(), 30);
}

#[test]
fn test_adaptive_registry_custom_limits() {
    let reg = AdaptiveRegistry::new(make_tools(30), ModelTier::Small).with_limits(3, 10, 50);
    assert_eq!(reg.len(), 3);
    assert_eq!(reg.get_tools().len(), 3);
}

#[test]
fn test_adaptive_registry_find_tool_beyond_limit() {
    let reg = AdaptiveRegistry::new(make_tools(30), ModelTier::Small);
    assert!(reg.find_tool("tool_29").is_some());
    assert!(reg.find_tool("tool_0").is_some());
    assert!(reg.find_tool("nonexistent").is_none());
}

#[test]
fn test_adaptive_registry_empty() {
    let reg = AdaptiveRegistry::new(vec![], ModelTier::Large);
    assert!(reg.is_empty());
    assert_eq!(reg.len(), 0);
}

#[test]
fn test_adaptive_registry_object_safe() {
    let reg = AdaptiveRegistry::new(vec![], ModelTier::Medium);
    let _: Arc<dyn ToolRegistry> = Arc::new(reg);
}

#[test]
fn test_adaptive_registry_limits_accessors() {
    let reg = AdaptiveRegistry::new(make_tools(2), ModelTier::Medium).with_limits(1, 2, 3);
    let l = reg.limits();
    assert_eq!((l.small, l.medium, l.large), (1, 2, 3));
    assert_eq!(reg.tier(), ModelTier::Medium);
}

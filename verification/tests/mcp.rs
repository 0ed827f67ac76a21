use std::sync::Arc;

use traitclaw::mcp::{apply_prefix, MultiServerMcpRegistry, ServerEntry};
use traitclaw::registry::{ToolInfo, ToolRegistry};

fn fake(name: &str) -> ToolInfo {
    ToolInfo::with_parameters(name, "fake", "null")
}

fn make_registry(servers: Vec<(String, Vec<ToolInfo>, bool)>, prefix: bool) -> MultiServerMcpRegistry {
    let entries = servers
        .into_iter()
        .map(|(name, tools, healthy)| ServerEntry { name, tools, healthy })
        .collect();
    MultiServerMcpRegistry::from_entries(entries, prefix)
}

#[test]
fn test_aggregate_tools_from_multiple_healthy_servers() {
    let reg = make_registry(
        vec![
            ("fs".into(), vec![fake("read_file"), fake("write_file")], true),
            ("git".into(), vec![fake("commit"), fake("diff")], true),
        ],
        false,
    );
    assert_eq!(reg.len(), 4);
}

#[test]
fn test_unhealthy_server_tools_excluded() {
    let reg = make_registry(
        vec![
            ("fs".into(), vec![fake("read_file")], true),
            ("broken".into(), vec![fake("secret_tool")], false),
        ],
        false,
    );
    assert_eq!(reg.len(), 1);
    assert!(reg.find_tool("read_file").is_some());
    assert!(reg.find_tool("secret_tool").is_none());
}

#[test]
fn test_prefix_applied_to_tool_names() {
    let raw = vec![fake("read_file")];
    let prefixed = apply_prefix("fs", raw);
    assert_eq!(prefixed[0].name, "fs::read_file");
    assert_eq!(prefixed[0].description, "fake");
}

#[test]
fn test_no_collision_with_prefix() {
    let reg = make_registry(
        vec![
            ("server_a".into(), vec![fake("server_a::search")], true),
            ("server_b".into(), vec![fake("server_b::search")], true),
        ],
        true,
    );
    assert_eq!(reg.len(), 2);
    assert!(reg.find_tool("server_a::search").is_some());
    assert!(reg.find_tool("server_b::search").is_some());
}

#[test]
fn test_healthy_unhealthy_counts() {
    let reg = make_registry(
        vec![
            ("ok1".into(), vec![], true),
            ("ok2".into(), vec![], true),
            ("bad".into(), vec![], false),
        ],
        false,
    );
    assert_eq!(reg.healthy_server_count(), 2);
    assert_eq!(reg.unhealthy_server_count(), 1);
}

#[test]
fn test_resolve_prefix() {
    assert_eq!(
        MultiServerMcpRegistry::resolve_prefix("fs::read_file"),
        Some(("fs", "read_file"))
    );
    assert_eq!(MultiServerMcpRegistry::resolve_prefix("no_prefix"), None);
    assert_eq!(
        MultiServerMcpRegistry::resolve_prefix("a::b::c"),
        Some(("a", "b::c"))
    );
}

#[test]
fn test_prefix_disabled_no_prefix_in_names() {
    let raw = vec![fake("read_file")];
    let non_prefixed = raw;
    assert_eq!(non_prefixed[0].name, "read_file");
}

#[test]
fn test_empty_registry() {
    let reg = make_registry(vec![], false);
    assert!(reg.is_empty());
    assert_eq!(reg.healthy_server_count(), 0);
}

#[test]
fn test_object_safe_as_dyn_registry() {
    let reg = make_registry(vec![], false);
    let _: Arc<dyn ToolRegistry> = Arc::new(reg);
}

#[test]
fn builder_defaults_to_prefixing() {
    let b = MultiServerMcpRegistry::builder();
    assert!(b.servers().is_empty());
    let reg = b.finish(vec![]).unwrap();
    assert!(reg.prefix_enabled());
}

#[test]
fn finish_marks_unreachable_servers_unhealthy() {
    let b = MultiServerMcpRegistry::builder()
        .add_stdio("fs", "mcp-fs", &["--root", "/tmp"])
        .add_stdio("git", "mcp-git", &[]);
    assert_eq!(b.servers().len(), 2);
    assert_eq!(b.servers()[0].program, "mcp-fs");
    assert_eq!(b.servers()[0].args, vec!["--root".to_string(), "/tmp".to_string()]);
    let reg = b.finish(vec![Some(vec![fake("read_file")]), None]).unwrap();
    assert_eq!(reg.healthy_server_count(), 1);
    assert_eq!(reg.unhealthy_server_count(), 1);
    assert!(reg.find_tool("fs::read_file").is_some());
    assert!(reg.find_tool("read_file").is_none());
}

#[test]
fn finish_without_prefix_keeps_names() {
    let reg = MultiServerMcpRegistry::builder()
        .with_prefix(false)
        .add_stdio("fs", "mcp-fs", &[])
        .finish(vec![Some(vec![fake("read_file")])])
        .unwrap();
    assert!(!reg.prefix_enabled());
    assert_eq!(reg.get_tools()[0].name, "read_file");
}

#[test]
fn prefix_keeps_description_and_schema() {
    let t = ToolInfo::with_parameters("x", "does x", "{\"type\":\"object\"}");
    let p = apply_prefix("srv", vec![t]);
    assert_eq!(p[0].name, "srv::x");
    assert_eq!(p[0].description, "does x");
    assert_eq!(p[0].parameters, "{\"type\":\"object\"}");
}

#[test]
fn resolve_prefix_at_start_and_end() {
    assert_eq!(MultiServerMcpRegistry::resolve_prefix("::tool"), Some(("", "tool")));
    assert_eq!(MultiServerMcpRegistry::resolve_prefix("srv::"), Some(("srv", "")));
    assert_eq!(MultiServerMcpRegistry::resolve_prefix("a:b"), None);
}

// ---- A registry over a fixed tool list ----

struct FakeRegistry {
    tools: Vec<ToolInfo>,
}

impl ToolRegistry for FakeRegistry {
    fn get_tools(&self) -> Vec<ToolInfo> {
        self.tools.clone()
    }

    fn find_tool(&self, name: &str) -> Option<ToolInfo> {
        self.tools.iter().find(|t| t.name == name).cloned()
    }
}

fn make_fake_registry(names: &[&str]) -> FakeRegistry {
    let tools = names
        .iter()
        .map(|n| ToolInfo::with_parameters(n, "fake tool", "{\"type\": \"object\", \"properties\": {}}"))
        .collect();
    FakeRegistry { tools }
}

#[test]
fn test_get_tools_returns_all() {
    let reg = make_fake_registry(&["read_file", "write_file", "list_dir", "search", "delete"]);
    assert_eq!(reg.get_tools().len(), 5);
}

#[test]
fn test_find_tool_by_name() {
    let reg = make_fake_registry(&["read_file", "write_file", "search"]);
    assert!(reg.find_tool("read_file").is_some());
    assert!(reg.find_tool("write_file").is_some());
    assert!(reg.find_tool("search").is_some());
}

#[test]
fn test_find_tool_not_found() {
    let reg = make_fake_registry(&["read_file"]);
    assert!(reg.find_tool("nonexistent").is_none());
}

#[test]
fn test_len_and_is_empty() {
    let reg = make_fake_registry(&["a", "b", "c"]);
    assert_eq!(reg.len(), 3);
    assert!(!reg.is_empty());

    let empty = make_fake_registry(&[]);
    assert!(empty.is_empty());
    assert_eq!(empty.len(), 0);
}

#[test]
fn test_tool_schemas_populated() {
    let reg = make_fake_registry(&["read_file"]);
    let tools = reg.get_tools();
    assert_eq!(tools.len(), 1);
    let schema = &tools[0];
    assert_eq!(schema.name, "read_file");
    let parameters: serde_json::Value = serde_json::from_str(&schema.parameters).unwrap();
    assert!(!parameters.is_null());
}

#[test]
fn test_object_safe_as_trait_object() {
    let reg = make_fake_registry(&["a"]);
    let _: Arc<dyn ToolRegistry> = Arc::new(reg);
}

#[test]
fn prefixed_names_split_back_into_server_and_tool() {
    let prefixed = apply_prefix("github", vec![fake("create_issue"), fake("a::b")]);
    assert_eq!(
        MultiServerMcpRegistry::resolve_prefix(&prefixed[0].name),
        Some(("github", "create_issue"))
    );
    assert_eq!(MultiServerMcpRegistry::resolve_prefix(&prefixed[1].name), Some(("github", "a::b")));
    // single colons inside the server name are fine
    let inner = apply_prefix("a:b", vec![fake("c")]);
    assert_eq!(MultiServerMcpRegistry::resolve_prefix(&inner[0].name), Some(("a:b", "c")));
    // a colon at the end of the server name moves the split
    let odd = apply_prefix("a:", vec![fake("b")]);
    assert_eq!(MultiServerMcpRegistry::resolve_prefix(&odd[0].name), Some(("a", ":b")));
}

#[test]
fn finish_fails_when_no_server_connects() {
    let b = MultiServerMcpRegistry::builder().add_stdio("fs", "mcp-fs", &[]).add_stdio("git", "mcp-git", &[]);
    assert_eq!(b.finish(vec![None, None]).unwrap_err(), "All MCP servers failed to connect");
}

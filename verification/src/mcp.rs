//! Aggregation of tools from several MCP servers.
//!
//! Connecting to a server is I/O and stays with the caller; this module
//! decides which tools are visible, how they are named and how a prefixed
//! name splits.

use vstd::prelude::*;
use vstd::string::*;
use crate::registry::{ToolInfo, ToolRegistry, lookup, find_in, append_tools};
use crate::text::{chars_of, find_seq, first_occurrence, occurs_at, contains_seq, push_str};

verus! {

/// A server waiting to be connected.
#[derive(Debug)]
pub struct PendingServer {
    /// Display name, used as the tool-name prefix.
    pub name: String,
    /// Program to launch.
    pub program: String,
    /// Arguments of the program.
    pub args: Vec<String>,
}

/// A connected (or failed) server and its tools.
#[derive(Debug)]
pub struct ServerEntry {
    /// Display name.
    pub name: String,
    /// Tools the server offers (none when it failed).
    pub tools: Vec<ToolInfo>,
    /// Whether the server connected.
    pub healthy: bool,
}

/// Builder of a [`MultiServerMcpRegistry`].
#[derive(Debug)]
pub struct MultiServerMcpRegistryBuilder {
    servers: Vec<PendingServer>,
    prefix: bool,
}

/// Tools of several MCP servers behind one registry. Only healthy servers'
/// tools are visible.
#[derive(Debug)]
pub struct MultiServerMcpRegistry {
    entries: Vec<ServerEntry>,
    prefix: bool,
}

/// `"{server}::{name}"`.
pub open spec fn prefixed_name(server: Seq<char>, name: Seq<char>) -> Seq<char> {
    server + "::"@ + name
}

/// `tools` renamed with the server prefix; descriptions and schemas kept.
pub open spec fn prefixed(server: Seq<char>, tools: Seq<ToolInfo>) -> Seq<(Seq<char>, Seq<char>, Seq<char>)> {
    tools.map_values(|t: ToolInfo| (prefixed_name(server, t.name@), t.description@, t.parameters@))
}

/// A tool as plain text: name, description, schema.
pub open spec fn tool_view(t: ToolInfo) -> (Seq<char>, Seq<char>, Seq<char>) {
    (t.name@, t.description@, t.parameters@)
}

/// The tools of the healthy entries, in server order.
pub open spec fn healthy_tools(entries: Seq<ServerEntry>) -> Seq<ToolInfo>
    decreases entries.len(),
{
    if entries.len() == 0 {
        Seq::empty()
    } else if entries.last().healthy {
        healthy_tools(entries.drop_last()) + entries.last().tools@
    } else {
        healthy_tools(entries.drop_last())
    }
}

/// Number of entries whose health is `healthy`.
pub open spec fn count_health(entries: Seq<ServerEntry>, healthy: bool) -> nat
    decreases entries.len(),
{
    if entries.len() == 0 {
        0
    } else {
        count_health(entries.drop_last(), healthy) + if entries.last().healthy == healthy { 1nat } else { 0nat }
    }
}

/// Rename tools with a server prefix: `"{server_name}::{tool}"`.
pub fn apply_prefix(server_name: &str, tools: Vec<ToolInfo>) -> (r: Vec<ToolInfo>)
    ensures
        r@.map_values(|t: ToolInfo| tool_view(t)) == prefixed(server_name@, tools@),
{
    let mut out: Vec<ToolInfo> = Vec::new();
    let mut i: usize = 0;
    while i < tools.len()
        invariant
            i <= tools@.len(),
            out@.map_values(|t: ToolInfo| tool_view(t)) == prefixed(server_name@, tools@.take(i as int)),
        decreases tools@.len() - i,
    {
        let mut name = String::new();
        push_str(&mut name, server_name);
        push_str(&mut name, "::");
        push_str(&mut name, tools[i].name.as_str());
        let t = ToolInfo {
            name,
            description: tools[i].description.clone(),
            parameters: tools[i].parameters.clone(),
        };
        let ghost before = out@;
        out.push(t);
        proof {
            let f = |t: ToolInfo| tool_view(t);
            assert(out@.map_values(f) =~= before.map_values(f).push(f(t)));
            assert(tools@.take(i as int + 1) =~= tools@.take(i as int).push(tools@[i as int]));
            assert(prefixed(server_name@, tools@.take(i as int + 1))
                =~= prefixed(server_name@, tools@.take(i as int)).push(f(t)));
        }
        i = i + 1;
    }
    proof {
        assert(tools@.take(tools@.len() as int) =~= tools@);
    }
    out
}

/// `r` is the registry assembled from `pending` servers of which
/// `connected[i]` was reached (with its tools) or not.
pub open spec fn assembled(
    pending: Seq<PendingServer>,
    prefixing: bool,
    connected: Seq<Option<Vec<ToolInfo>>>,
    r: MultiServerMcpRegistry,
) -> bool {
    &&& r.prefix_enabled_spec() == prefixing
    &&& r.entries_view().len() == pending.len()
    &&& forall|i: int| 0 <= i < connected.len() ==> {
        let e = #[trigger] r.entries_view()[i];
        &&& e.name@ == pending[i].name@
        &&& e.healthy == (connected[i] is Some)
        &&& match connected[i] {
            Some(tools) => if prefixing {
                e.tools@.map_values(|t: ToolInfo| tool_view(t)) == prefixed(pending[i].name@, tools@)
            } else {
                e.tools@ == tools@
            },
            None => e.tools@.len() == 0,
        }
    }
}

impl MultiServerMcpRegistryBuilder {
    /// The servers to connect, in order.
    pub closed spec fn pending(&self) -> Seq<PendingServer> {
        self.servers@
    }

    /// Whether tool names get the server prefix.
    pub closed spec fn prefixing(&self) -> bool {
        self.prefix
    }

    /// Enable or disable the server-name prefix.
    pub fn with_prefix(self, enabled: bool) -> (r: Self)
        ensures
            r.pending() == self.pending(),
            r.prefixing() == enabled,
    {
        MultiServerMcpRegistryBuilder { prefix: enabled, ..self }
    }

    /// Add a stdio server.
    pub fn add_stdio(self, name: &str, program: &str, args: &[&str]) -> (r: Self)
        ensures
            r.prefixing() == self.prefixing(),
            r.pending().len() == self.pending().len() + 1,
            r.pending().take(self.pending().len() as int) == self.pending(),
            r.pending().last().name@ == name@,
            r.pending().last().program@ == program@,
            r.pending().last().args@.map_values(|a: String| a@) == args@.map_values(|a: &str| a@),
    {
        let mut a: Vec<String> = Vec::new();
        let mut i: usize = 0;
        while i < args.len()
            invariant
                i <= args@.len(),
                a@.map_values(|x: String| x@) == args@.take(i as int).map_values(|x: &str| x@),
            decreases args@.len() - i,
        {
            let ghost before = a@;
            a.push(args[i].to_owned());
            proof {
                assert(a@.map_values(|x: String| x@) =~= before.map_values(|x: String| x@).push(args@[i as int]@));
                assert(args@.take(i as int + 1).map_values(|x: &str| x@)
                    =~= args@.take(i as int).map_values(|x: &str| x@).push(args@[i as int]@));
            }
            i = i + 1;
        }
        proof {
            assert(args@.take(args@.len() as int) =~= args@);
        }
        let mut servers = self.servers;
        let ghost before = servers@;
        servers.push(PendingServer { name: name.to_owned(), program: program.to_owned(), args: a });
        proof {
            assert(servers@.take(before.len() as int) =~= before);
        }
        MultiServerMcpRegistryBuilder { servers, prefix: self.prefix }
    }

    /// The servers to connect.
    pub fn servers(&self) -> (r: &[PendingServer])
        ensures
            r@ == self.pending(),
    {
        self.servers.as_slice()
    }

    /// The registry once each pending server was tried: `connected[i]` holds
    /// the tools of server `i`, or `None` if it could not be reached. Reached
    /// servers are healthy and their tools are prefixed when prefixing is on;
    /// the others are unhealthy with no tools. It is an error when there are
    /// servers and none of them was reached.
    pub fn finish(self, connected: Vec<Option<Vec<ToolInfo>>>) -> (r: Result<MultiServerMcpRegistry, String>)
        requires
            connected@.len() == self.pending().len(),
        ensures
            r is Err <==> (connected@.len() > 0 && forall|i: int| 0 <= i < connected@.len() ==> #[trigger] connected@[i] is None),
            r matches Err(e) ==> e@ == "All MCP servers failed to connect"@,
            r matches Ok(reg) ==> assembled(self.pending(), self.prefixing(), connected@, reg),
    {
        let mut any = false;
        let mut i: usize = 0;
        while i < connected.len()
            invariant
                i <= connected@.len(),
                any == exists|j: int| 0 <= j < i && #[trigger] connected@[j] is Some,
            decreases connected@.len() - i,
        {
            if connected[i].is_some() {
                any = true;
            }
            i = i + 1;
        }
        if connected.len() > 0 && !any {
            return Err("All MCP servers failed to connect".to_owned());
        }
        Ok(self.assemble(connected))
    }

    fn assemble(self, connected: Vec<Option<Vec<ToolInfo>>>) -> (r: MultiServerMcpRegistry)
        requires
            connected@.len() == self.pending().len(),
        ensures
            assembled(self.pending(), self.prefixing(), connected@, r),
    {
        let prefix = self.prefix;
        let mut entries: Vec<ServerEntry> = Vec::new();
        let mut conn = connected;
        let ghost c0 = conn@;
        let ghost p0 = self.servers@;
        let mut i: usize = 0;
        proof {
            assert(conn@ =~= c0.skip(0));
        }
        while i < self.servers.len()
            invariant
                i <= p0.len() == c0.len(),
                self.servers@ == p0,
                prefix == self.prefix,
                conn@ == c0.skip(i as int),
                entries@.len() == i,
                forall|j: int| 0 <= j < i ==> {
                    let e = #[trigger] entries@[j];
                    &&& e.name@ == p0[j].name@
                    &&& e.healthy == (c0[j] is Some)
                    &&& match c0[j] {
                        Some(tools) => if prefix {
                            e.tools@.map_values(|t: ToolInfo| tool_view(t)) == prefixed(p0[j].name@, tools@)
                        } else {
                            e.tools@ == tools@
                        },
                        None => e.tools@.len() == 0,
                    }
                },
            decreases p0.len() - i,
        {
            let name = self.servers[i].name.clone();
            proof {
                assert(conn@.len() > 0);
                assert(conn@[0] == c0[i as int]);
            }
            let slot = conn.remove(0);
            proof {
                assert(conn@ =~= c0.skip(i as int + 1));
            }
            let entry = match slot {
                Some(tools) => {
                    let tools = if prefix { apply_prefix(name.as_str(), tools) } else { tools };
                    ServerEntry { name, tools, healthy: true }
                },
                None => ServerEntry { name, tools: Vec::new(), healthy: false },
            };
            entries.push(entry);
            i = i + 1;
        }
        MultiServerMcpRegistry { entries, prefix }
    }
}

impl MultiServerMcpRegistry {
    /// The entries.
    pub closed spec fn entries_view(&self) -> Seq<ServerEntry> {
        self.entries@
    }

    /// Whether names are prefixed.
    pub closed spec fn prefix_enabled_spec(&self) -> bool {
        self.prefix
    }

    /// A builder with prefixing on and no servers.
    pub fn builder() -> (r: MultiServerMcpRegistryBuilder)
        ensures
            r.pending().len() == 0,
            r.prefixing(),
    {
        MultiServerMcpRegistryBuilder { servers: Vec::new(), prefix: true }
    }

    /// A registry over given entries.
    pub fn from_entries(entries: Vec<ServerEntry>, prefix: bool) -> (r: Self)
        ensures
            r.entries_view() == entries@,
            r.prefix_enabled_spec() == prefix,
    {
        MultiServerMcpRegistry { entries, prefix }
    }

    /// Number of healthy servers.
    pub fn healthy_server_count(&self) -> (n: usize)
        ensures
            n == count_health(self.entries_view(), true),
    {
        self.count(true)
    }

    /// Number of unhealthy servers.
    pub fn unhealthy_server_count(&self) -> (n: usize)
        ensures
            n == count_health(self.entries_view(), false),
    {
        self.count(false)
    }

    fn count(&self, healthy: bool) -> (n: usize)
        ensures
            n == count_health(self.entries_view(), healthy),
    {
        let mut n: usize = 0;
        let mut i: usize = 0;
        while i < self.entries.len()
            invariant
                i <= self.entries@.len(),
                n == count_health(self.entries@.take(i as int), healthy),
                n <= i,
            decreases self.entries@.len() - i,
        {
            proof {
                assert(self.entries@.take(i as int + 1).drop_last() =~= self.entries@.take(i as int));
            }
            if self.entries[i].healthy == healthy {
                n = n + 1;
            }
            i = i + 1;
        }
        proof {
            assert(self.entries@.take(self.entries@.len() as int) =~= self.entries@);
        }
        n
    }

    /// Whether tool names carry the server prefix.
    pub fn prefix_enabled(&self) -> (r: bool)
        ensures
            r == self.prefix_enabled_spec(),
    {
        self.prefix
    }

    /// Split a prefixed tool name at its first `"::"` into server and tool.
    pub fn resolve_prefix(name: &str) -> (r: Option<(&str, &str)>)
        ensures
            match r {
                Some((server, tool)) => exists|i: int| {
                    &&& first_occurrence(name@, "::"@, i)
                    &&& server@ == name@.take(i)
                    &&& tool@ == name@.skip(i + 2)
                },
                None => !contains_seq(name@, "::"@),
            },
    {
        let cs = chars_of(name);
        let sep = chars_of("::");
        let n = cs.len();
        proof {
            reveal_strlit("::");
        }
        match find_seq(cs.as_slice(), sep.as_slice()) {
            Some(i) => {
                proof {
                    assert("::"@.len() == 2);
                    assert(i + 2 <= n);
                }
                let server = name.substring_char(0, i);
                let tool = name.substring_char(i + 2, n);
                proof {
                    assert(name@.subrange(0, i as int) =~= name@.take(i as int));
                    assert(name@.subrange(i + 2, name@.len() as int) =~= name@.skip(i + 2));
                }
                Some((server, tool))
            },
            None => None,
        }
    }

    fn collect_healthy(&self) -> (r: Vec<ToolInfo>)
        ensures
            r@ == healthy_tools(self.entries_view()),
    {
        let mut out: Vec<ToolInfo> = Vec::new();
        let mut i: usize = 0;
        while i < self.entries.len()
            invariant
                i <= self.entries@.len(),
                out@ == healthy_tools(self.entries@.take(i as int)),
            decreases self.entries@.len() - i,
        {
            proof {
                let t = self.entries@.take(i as int + 1);
                assert(t.drop_last() =~= self.entries@.take(i as int));
                assert(t.last() == self.entries@[i as int]);
            }
            if self.entries[i].healthy {
                append_tools(&mut out, self.entries[i].tools.as_slice());
            }
            i = i + 1;
        }
        proof {
            assert(self.entries@.take(self.entries@.len() as int) =~= self.entries@);
        }
        out
    }
}

impl ToolRegistry for MultiServerMcpRegistry {
    fn get_tools(&self) -> (r: Vec<ToolInfo>)
        ensures
            r@ == healthy_tools(self.entries_view()),
    {
        self.collect_healthy()
    }

    fn find_tool(&self, name: &str) -> (r: Option<ToolInfo>)
        ensures
            r == lookup(healthy_tools(self.entries_view()), name@),
    {
        let tools = self.collect_healthy();
        find_in(tools.as_slice(), name)
    }

    fn len(&self) -> (n: usize)
        ensures
            n == healthy_tools(self.entries_view()).len(),
    {
        self.collect_healthy().len()
    }

    fn is_empty(&self) -> (r: bool)
        ensures
            r == (healthy_tools(self.entries_view()).len() == 0),
    {
        self.collect_healthy().len() == 0
    }
}


/// What an MCP server answered to a tool call.
#[derive(Debug)]
pub enum McpToolReply {
    /// A JSON-RPC error with this message.
    Error(String),
    /// Neither a result nor an error.
    NoResult,
    /// The text of each content block.
    Content(Vec<String>),
}

/// The texts joined with newlines.
pub open spec fn join_lines(texts: Seq<String>) -> Seq<char>
    decreases texts.len(),
{
    if texts.len() == 0 {
        Seq::empty()
    } else if texts.len() == 1 {
        texts[0]@
    } else {
        join_lines(texts.drop_last()) + "\n"@ + texts.last()@
    }
}

/// The tool result of an MCP reply: the content texts joined with newlines,
/// or the error to report.
pub fn tool_reply_text(reply: McpToolReply) -> (r: Result<String, String>)
    ensures
        match reply {
            McpToolReply::Error(m) => r matches Err(e) && e@ == "MCP tool error: "@ + m@,
            McpToolReply::NoResult => r matches Err(e) && e@ == "No result in tool call response"@,
            McpToolReply::Content(texts) => r matches Ok(t) && t@ == join_lines(texts@),
        },
{
    match reply {
        McpToolReply::Error(m) => {
            let mut e = String::new();
            push_str(&mut e, "MCP tool error: ");
            push_str(&mut e, m.as_str());
            Err(e)
        },
        McpToolReply::NoResult => Err("No result in tool call response".to_owned()),
        McpToolReply::Content(texts) => {
            let mut t = String::new();
            let mut i: usize = 0;
            while i < texts.len()
                invariant
                    i <= texts@.len(),
                    t@ == join_lines(texts@.take(i as int)),
                decreases texts@.len() - i,
            {
                let ghost before = t@;
                if i > 0 {
                    push_str(&mut t, "\n");
                }
                push_str(&mut t, texts[i].as_str());
                proof {
                    let s = texts@.take(i as int + 1);
                    assert(s.drop_last() =~= texts@.take(i as int));
                    assert(s.last() == texts@[i as int]);
                    if i == 0 {
                        assert(s[0] == texts@[0]);
                        assert(t@ =~= texts@[0]@);
                    } else {
                        assert(t@ =~= before + "\n"@ + texts@[i as int]@);
                    }
                }
                i = i + 1;
            }
            proof {
                assert(texts@.take(texts@.len() as int) =~= texts@);
            }
            Ok(t)
        },
    }
}
/// A prefixed tool name splits back into its server and tool names: when
/// the server name holds no `"::"` and does not end with `':'`, the first
/// `"::"` of `"{server}::{tool}"` is the one the prefix added, so
/// `resolve_prefix` returns exactly `(server, tool)`.
pub proof fn law_prefix_round_trip(server: Seq<char>, tool: Seq<char>)
    requires
        !contains_seq(server, "::"@),
        server.len() == 0 || server.last() != ':',
    ensures
        forall|i: int| #[trigger] first_occurrence(prefixed_name(server, tool), "::"@, i) <==> i == server.len(),
        prefixed_name(server, tool).take(server.len() as int) == server,
        prefixed_name(server, tool).skip(server.len() + 2int) == tool,
{
    reveal_strlit("::");
    let name = prefixed_name(server, tool);
    let n = server.len() as int;
    assert(name.subrange(n, n + 2) =~= "::"@);
    assert(occurs_at(name, "::"@, n));
    assert forall|j: int| 0 <= j < n implies !occurs_at(name, "::"@, j) by {
        if occurs_at(name, "::"@, j) {
            assert(name.subrange(j, j + 2)[0] == name[j]);
            assert(name.subrange(j, j + 2)[1] == name[j + 1]);
            assert(name[j] == server[j]);
            if j + 1 < n {
                assert(name[j + 1] == server[j + 1]);
                assert(server.subrange(j, j + 2) =~= "::"@);
                assert(occurs_at(server, "::"@, j));
            } else {
                assert(server.last() == server[j]);
            }
        }
    }
    assert forall|i: int| #[trigger] first_occurrence(name, "::"@, i) implies i == n by {
        if i < n {
            assert(!occurs_at(name, "::"@, i));
        } else if i > n {
            assert(occurs_at(name, "::"@, n));
        }
    }
    assert(name.take(n) =~= server);
    assert(name.skip(n + 2) =~= tool);
}
} // verus!

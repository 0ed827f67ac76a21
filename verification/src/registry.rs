//! Tool registries: which tools an agent offers to the model, and which
//! tool a call by name resolves to.
//!
//! A tool is described here by a [`ToolInfo`] (its name and description);
//! the executable tool objects live with the caller and are looked up by name.

use vstd::prelude::*;
use crate::text::str_eq;
use crate::types::ModelTier;

verus! {

/// The descriptor of a tool: what registries read of it.
#[derive(Debug)]
pub struct ToolInfo {
    /// Unique tool name the model calls it by.
    pub name: String,
    /// Human-readable description.
    pub description: String,
    /// JSON Schema of the tool's input, as JSON text.
    pub parameters: String,
}

impl Clone for ToolInfo {
    fn clone(&self) -> (r: Self)
        ensures
            r == *self,
    {
        ToolInfo {
            name: self.name.clone(),
            description: self.description.clone(),
            parameters: self.parameters.clone(),
        }
    }
}

impl ToolInfo {
    /// Create a descriptor of a tool whose input schema is the empty object
    /// `{}`.
    pub fn new(name: &str, description: &str) -> (r: ToolInfo)
        ensures
            r.name@ == name@,
            r.description@ == description@,
            r.parameters@ == "{}"@,
    {
        ToolInfo { name: name.to_owned(), description: description.to_owned(), parameters: "{}".to_owned() }
    }

    /// Create a descriptor with the given input schema (JSON text).
    pub fn with_parameters(name: &str, description: &str, parameters: &str) -> (r: ToolInfo)
        ensures
            r.name@ == name@,
            r.description@ == description@,
            r.parameters@ == parameters@,
    {
        ToolInfo { name: name.to_owned(), description: description.to_owned(), parameters: parameters.to_owned() }
    }
}

/// Index of the first tool in `s` named `name`, or `s.len()` if none is.
pub open spec fn first_named(s: Seq<ToolInfo>, name: Seq<char>) -> int
    decreases s.len(),
{
    if s.len() == 0 {
        0
    } else if s[0].name@ == name {
        0
    } else {
        1 + first_named(s.drop_first(), name)
    }
}

/// Whether some tool in `s` is named `name`.
pub open spec fn has_named(s: Seq<ToolInfo>, name: Seq<char>) -> bool {
    exists|i: int| 0 <= i < s.len() && (#[trigger] s[i]).name@ == name
}

/// The result of looking `name` up in `s`: the first tool with that name.
pub open spec fn lookup(s: Seq<ToolInfo>, name: Seq<char>) -> Option<ToolInfo> {
    if has_named(s, name) {
        Some(s[first_named(s, name)])
    } else {
        None
    }
}

/// Facts about `first_named`.
pub proof fn lemma_first_named(s: Seq<ToolInfo>, name: Seq<char>)
    ensures
        0 <= first_named(s, name) <= s.len(),
        first_named(s, name) < s.len() <==> has_named(s, name),
        first_named(s, name) < s.len() ==> s[first_named(s, name)].name@ == name,
        forall|j: int| 0 <= j < first_named(s, name) ==> (#[trigger] s[j]).name@ != name,
    decreases s.len(),
{
    if s.len() > 0 && s[0].name@ != name {
        lemma_first_named(s.drop_first(), name);
        assert forall|j: int| 0 <= j < first_named(s, name) implies (#[trigger] s[j]).name@ != name by {
            if j > 0 {
                assert(s[j] == s.drop_first()[j - 1]);
            }
        }
        if has_named(s, name) {
            let k = choose|k: int| 0 <= k < s.len() && (#[trigger] s[k]).name@ == name;
            assert(s.drop_first()[k - 1] == s[k]);
            assert(has_named(s.drop_first(), name));
        }
        if has_named(s.drop_first(), name) {
            let k = choose|k: int| 0 <= k < s.drop_first().len() && (#[trigger] s.drop_first()[k]).name@ == name;
            assert(s[k + 1] == s.drop_first()[k]);
        }
    } else if s.len() > 0 {
        assert(s[0].name@ == name);
    }
}

/// Find the first tool named `name` in a slice.
pub fn find_in(tools: &[ToolInfo], name: &str) -> (r: Option<ToolInfo>)
    ensures
        r == lookup(tools@, name@),
{
    proof {
        lemma_first_named(tools@, name@);
    }
    let mut i: usize = 0;
    while i < tools.len()
        invariant
            i <= tools@.len(),
            forall|j: int| 0 <= j < i ==> (#[trigger] tools@[j]).name@ != name@,
            0 <= first_named(tools@, name@) <= tools@.len(),
            first_named(tools@, name@) < tools@.len() <==> has_named(tools@, name@),
            first_named(tools@, name@) < tools@.len() ==> tools@[first_named(tools@, name@)].name@ == name@,
            forall|j: int| 0 <= j < first_named(tools@, name@) ==> (#[trigger] tools@[j]).name@ != name@,
        decreases tools@.len() - i,
    {
        if str_eq(tools[i].name.as_str(), name) {
            proof {
                assert(has_named(tools@, name@));
                if first_named(tools@, name@) < i {
                    assert(false);
                }
                if first_named(tools@, name@) > i {
                    assert(tools@[i as int].name@ != name@);
                }
            }
            return Some(tools[i].clone());
        }
        i = i + 1;
    }
    proof {
        if has_named(tools@, name@) {
            let k = choose|k: int| 0 <= k < tools@.len() && (#[trigger] tools@[k]).name@ == name@;
            assert(tools@[k].name@ != name@);
        }
    }
    None
}

/// Copy a slice of tool descriptors.
pub fn copy_tools(tools: &[ToolInfo]) -> (r: Vec<ToolInfo>)
    ensures
        r@ == tools@,
{
    let mut out: Vec<ToolInfo> = Vec::new();
    let mut i: usize = 0;
    while i < tools.len()
        invariant
            i <= tools@.len(),
            out@ == tools@.take(i as int),
        decreases tools@.len() - i,
    {
        out.push(tools[i].clone());
        proof {
            assert(tools@.take(i as int + 1) =~= tools@.take(i as int).push(tools@[i as int]));
        }
        i = i + 1;
    }
    proof {
        assert(tools@.take(tools@.len() as int) =~= tools@);
    }
    out
}


/// Pluggable tool management.
///
/// Read-only registries answer the write operations with `false`.
pub trait ToolRegistry {
    /// All currently enabled tools.
    fn get_tools(&self) -> Vec<ToolInfo>;

    /// Find a tool by name (by default, the first enabled tool of that
    /// name).
    fn find_tool(&self, name: &str) -> (r: Option<ToolInfo>)
        default_ensures
            exists|tools: Vec<ToolInfo>| call_ensures(Self::get_tools, (self,), tools) && r == lookup(tools@, name@),
    {
        let tools = self.get_tools();
        find_in(tools.as_slice(), name)
    }

    /// Register a tool; `true` if it was added (by default nothing is: the
    /// registry is read-only).
    fn register(&mut self, tool: ToolInfo) -> (r: bool)
        default_ensures
            !r,
    {
        false
    }

    /// Unregister a tool by name; `true` if something was removed (by
    /// default nothing is).
    fn unregister(&mut self, name: &str) -> (r: bool)
        default_ensures
            !r,
    {
        false
    }

    /// Enable or disable a tool; `true` if the state changed (by default it
    /// never does).
    fn set_enabled(&mut self, name: &str, enabled: bool) -> (r: bool)
        default_ensures
            !r,
    {
        false
    }

    /// Whether a tool is currently enabled (by default: whether it is found).
    fn is_enabled(&self, name: &str) -> (r: bool)
        default_ensures
            exists|f: Option<ToolInfo>| call_ensures(Self::find_tool, (self, name), f) && r == (f is Some),
    {
        self.find_tool(name).is_some()
    }

    /// Number of enabled tools.
    fn len(&self) -> (n: usize)
        default_ensures
            exists|tools: Vec<ToolInfo>| call_ensures(Self::get_tools, (self,), tools) && n == tools@.len(),
    {
        self.get_tools().len()
    }

    /// Whether no tool is enabled.
    fn is_empty(&self) -> (r: bool)
        default_ensures
            exists|n: usize| call_ensures(Self::len, (self,), n) && r == (n == 0),
    {
        self.len() == 0
    }
}

// ---------------------------------------------------------------------------
// SimpleRegistry
// ---------------------------------------------------------------------------

/// An immutable registry over a fixed tool list.
pub struct SimpleRegistry {
    tools: Vec<ToolInfo>,
}

impl View for SimpleRegistry {
    type V = Seq<ToolInfo>;

    closed spec fn view(&self) -> Seq<ToolInfo> {
        self.tools@
    }
}

impl SimpleRegistry {
    /// Create a registry from an existing tool list.
    pub fn new(tools: Vec<ToolInfo>) -> (r: Self)
        ensures
            r@ == tools@,
    {
        SimpleRegistry { tools }
    }
}

impl ToolRegistry for SimpleRegistry {
    fn get_tools(&self) -> (r: Vec<ToolInfo>)
        ensures
            r@ == self@,
    {
        copy_tools(self.tools.as_slice())
    }

    fn find_tool(&self, name: &str) -> (r: Option<ToolInfo>)
        ensures
            r == lookup(self@, name@),
    {
        find_in(self.tools.as_slice(), name)
    }

    fn register(&mut self, tool: ToolInfo) -> (r: bool)
        ensures
            !r,
            final(self)@ == old(self)@,
    {
        false
    }

    fn unregister(&mut self, name: &str) -> (r: bool)
        ensures
            !r,
            final(self)@ == old(self)@,
    {
        false
    }

    fn set_enabled(&mut self, name: &str, enabled: bool) -> (r: bool)
        ensures
            !r,
            final(self)@ == old(self)@,
    {
        false
    }

    fn is_enabled(&self, name: &str) -> (r: bool)
        ensures
            r == has_named(self@, name@),
    {
        proof {
            lemma_first_named(self@, name@);
        }
        self.find_tool(name).is_some()
    }

    fn len(&self) -> (r: usize)
        ensures
            r == self@.len(),
    {
        self.tools.len()
    }

    fn is_empty(&self) -> (r: bool)
        ensures
            r == (self@.len() == 0),
    {
        self.tools.len() == 0
    }
}


// ---------------------------------------------------------------------------
// DynamicRegistry
// ---------------------------------------------------------------------------

/// The enabled tools of a list of (tool, enabled) entries, in order.
pub open spec fn enabled_of(s: Seq<(ToolInfo, bool)>) -> Seq<ToolInfo>
    decreases s.len(),
{
    if s.len() == 0 {
        Seq::empty()
    } else {
        let rest = enabled_of(s.drop_last());
        if s.last().1 {
            rest.push(s.last().0)
        } else {
            rest
        }
    }
}

/// The entries whose tool is not named `name`, in order.
pub open spec fn without_named(s: Seq<(ToolInfo, bool)>, name: Seq<char>) -> Seq<(ToolInfo, bool)>
    decreases s.len(),
{
    if s.len() == 0 {
        Seq::empty()
    } else {
        let rest = without_named(s.drop_last(), name);
        if s.last().0.name@ != name {
            rest.push(s.last())
        } else {
            rest
        }
    }
}

/// Whether some entry (enabled or not) carries a tool named `name`.
pub open spec fn entry_named(s: Seq<(ToolInfo, bool)>, name: Seq<char>) -> bool {
    exists|i: int| 0 <= i < s.len() && (#[trigger] s[i]).0.name@ == name
}

/// The tool descriptors of the entries, in order.
pub open spec fn entry_tools(s: Seq<(ToolInfo, bool)>) -> Seq<ToolInfo> {
    s.map_values(|e: (ToolInfo, bool)| e.0)
}

/// A mutable registry supporting runtime add, remove and enable/disable.
pub struct DynamicRegistry {
    entries: Vec<(ToolInfo, bool)>,
}

impl View for DynamicRegistry {
    type V = Seq<(ToolInfo, bool)>;

    closed spec fn view(&self) -> Seq<(ToolInfo, bool)> {
        self.entries@
    }
}

proof fn lemma_take_succ<A>(s: Seq<A>, i: int)
    requires
        0 <= i < s.len(),
    ensures
        s.take(i + 1).drop_last() == s.take(i),
        s.take(i + 1).last() == s[i],
{
    assert(s.take(i + 1).drop_last() =~= s.take(i));
}

proof fn lemma_take_all<A>(s: Seq<A>)
    ensures
        s.take(s.len() as int) == s,
{
    assert(s.take(s.len() as int) =~= s);
}

/// `enabled_of` has no more elements than its input.
pub proof fn lemma_enabled_of_len(s: Seq<(ToolInfo, bool)>)
    ensures
        enabled_of(s).len() <= s.len(),
    decreases s.len(),
{
    if s.len() > 0 {
        lemma_enabled_of_len(s.drop_last());
    }
}

/// A tool is enabled exactly when it occurs in `enabled_of`.
pub proof fn lemma_enabled_of_has(s: Seq<(ToolInfo, bool)>, name: Seq<char>)
    ensures
        has_named(enabled_of(s), name) <==> exists|i: int| 0 <= i < s.len() && (#[trigger] s[i]).0.name@ == name && s[i].1,
    decreases s.len(),
{
    if s.len() > 0 {
        let d = s.drop_last();
        lemma_enabled_of_has(d, name);
        let e = enabled_of(s);
        let ed = enabled_of(d);
        if has_named(e, name) {
            let k = choose|k: int| 0 <= k < e.len() && (#[trigger] e[k]).name@ == name;
            if s.last().1 && k == ed.len() {
                assert(s[s.len() - 1].0.name@ == name);
            } else {
                assert(e[k] == ed[k]);
                assert(has_named(ed, name));
                let j = choose|j: int| 0 <= j < d.len() && (#[trigger] d[j]).0.name@ == name && d[j].1;
                assert(s[j] == d[j]);
            }
        }
        if exists|i: int| 0 <= i < s.len() && (#[trigger] s[i]).0.name@ == name && s[i].1 {
            let j = choose|j: int| 0 <= j < s.len() && (#[trigger] s[j]).0.name@ == name && s[j].1;
            if j == s.len() - 1 {
                assert(e[ed.len() as int] == s[j].0);
            } else {
                assert(d[j] == s[j]);
                assert(has_named(ed, name));
                let k = choose|k: int| 0 <= k < ed.len() && (#[trigger] ed[k]).name@ == name;
                assert(e[k] == ed[k]);
            }
        }
    }
}

impl DynamicRegistry {
    /// An empty registry.
    pub fn new() -> (r: Self)
        ensures
            r@ == Seq::<(ToolInfo, bool)>::empty(),
    {
        DynamicRegistry { entries: Vec::new() }
    }

    /// A registry pre-loaded with tools, all enabled.
    pub fn with_tools(tools: Vec<ToolInfo>) -> (r: Self)
        ensures
            r@.len() == tools@.len(),
            forall|i: int| 0 <= i < tools@.len() ==> (#[trigger] r@[i]) == (tools@[i], true),
    {
        let mut entries: Vec<(ToolInfo, bool)> = Vec::new();
        let mut i: usize = 0;
        while i < tools.len()
            invariant
                i <= tools@.len(),
                entries@.len() == i,
                forall|j: int| 0 <= j < i ==> (#[trigger] entries@[j]) == (tools@[j], true),
            decreases tools@.len() - i,
        {
            entries.push((tools[i].clone(), true));
            i = i + 1;
        }
        DynamicRegistry { entries }
    }
}

impl Default for DynamicRegistry {
    fn default() -> (r: Self)
        ensures
            r@ == Seq::<(ToolInfo, bool)>::empty(),
    {
        DynamicRegistry::new()
    }
}

impl ToolRegistry for DynamicRegistry {
    fn get_tools(&self) -> (r: Vec<ToolInfo>)
        ensures
            r@ == enabled_of(self@),
    {
        let mut out: Vec<ToolInfo> = Vec::new();
        let mut i: usize = 0;
        while i < self.entries.len()
            invariant
                i <= self.entries@.len(),
                out@ == enabled_of(self.entries@.take(i as int)),
            decreases self.entries@.len() - i,
        {
            proof {
                lemma_take_succ(self.entries@, i as int);
            }
            if self.entries[i].1 {
                out.push(self.entries[i].0.clone());
            }
            i = i + 1;
        }
        proof {
            lemma_take_all(self.entries@);
        }
        out
    }

    fn find_tool(&self, name: &str) -> (r: Option<ToolInfo>)
        ensures
            r == lookup(enabled_of(self@), name@),
    {
        let enabled = self.get_tools();
        find_in(enabled.as_slice(), name)
    }

    fn register(&mut self, tool: ToolInfo) -> (r: bool)
        ensures
            r == !entry_named(old(self)@, tool.name@),
            r ==> final(self)@ == old(self)@.push((tool, true)),
            !r ==> final(self)@ == old(self)@,
    {
        let mut i: usize = 0;
        while i < self.entries.len()
            invariant
                i <= self.entries@.len(),
                forall|j: int| 0 <= j < i ==> (#[trigger] self.entries@[j]).0.name@ != tool.name@,
            decreases self.entries@.len() - i,
        {
            if self.entries[i].0.name == tool.name {
                return false;
            }
            i = i + 1;
        }
        self.entries.push((tool, true));
        true
    }

    fn unregister(&mut self, name: &str) -> (r: bool)
        ensures
            r == entry_named(old(self)@, name@),
            final(self)@ == without_named(old(self)@, name@),
    {
        let ghost old_entries = self.entries@;
        let mut kept: Vec<(ToolInfo, bool)> = Vec::new();
        let mut removed = false;
        let mut i: usize = 0;
        while i < self.entries.len()
            invariant
                self.entries@ == old_entries,
                i <= old_entries.len(),
                kept@ == without_named(old_entries.take(i as int), name@),
                removed == entry_named(old_entries.take(i as int), name@),
            decreases old_entries.len() - i,
        {
            proof {
                lemma_take_succ(old_entries, i as int);
                let t = old_entries.take(i as int);
                let t1 = old_entries.take(i as int + 1);
                if entry_named(t, name@) {
                    let k = choose|k: int| 0 <= k < t.len() && (#[trigger] t[k]).0.name@ == name@;
                    assert(t1[k] == t[k]);
                }
                if entry_named(t1, name@) && old_entries[i as int].0.name@ != name@ {
                    let k = choose|k: int| 0 <= k < t1.len() && (#[trigger] t1[k]).0.name@ == name@;
                    assert(t[k] == t1[k]);
                }
                if old_entries[i as int].0.name@ == name@ {
                    assert(t1[i as int] == old_entries[i as int]);
                }
            }
            if str_eq(self.entries[i].0.name.as_str(), name) {
                removed = true;
            } else {
                kept.push((self.entries[i].0.clone(), self.entries[i].1));
            }
            i = i + 1;
        }
        proof {
            lemma_take_all(old_entries);
        }
        self.entries = kept;
        removed
    }

    fn set_enabled(&mut self, name: &str, enabled: bool) -> (r: bool)
        ensures
            ({
                let k = first_named(entry_tools(old(self)@), name@);
                if k < old(self)@.len() && old(self)@[k].1 != enabled {
                    r && final(self)@ == old(self)@.update(k, (old(self)@[k].0, enabled))
                } else {
                    !r && final(self)@ == old(self)@
                }
            }),
    {
        let ghost old_entries = self.entries@;
        let ghost tools = entry_tools(self.entries@);
        proof {
            lemma_first_named(tools, name@);
        }
        let ghost k = first_named(tools, name@);
        let mut i: usize = 0;
        while i < self.entries.len()
            invariant
                i <= self.entries@.len(),
                self.entries@ == old_entries,
                old(self)@ == old_entries,
                tools == entry_tools(old_entries),
                tools.len() == old_entries.len(),
                k == first_named(tools, name@),
                forall|j: int| 0 <= j < i ==> (#[trigger] old_entries[j]).0.name@ != name@,
                0 <= k <= tools.len(),
                k < tools.len() ==> tools[k].name@ == name@,
                forall|j: int| 0 <= j < k ==> (#[trigger] tools[j]).name@ != name@,
            decreases self.entries@.len() - i,
        {
            if str_eq(self.entries[i].0.name.as_str(), name) {
                proof {
                    assert(tools[i as int] == old_entries[i as int].0);
                    if k < i {
                        assert(tools[k] == old_entries[k].0);
                        assert(false);
                    }
                    if k > i {
                        assert(false);
                    }
                }
                if self.entries[i].1 != enabled {
                    let tool = self.entries[i].0.clone();
                    self.entries.set(i, (tool, enabled));
                    return true;
                }
                return false;
            }
            i = i + 1;
        }
        proof {
            if k < tools.len() {
                assert(tools[k] == old_entries[k].0);
            }
        }
        false
    }

    fn is_enabled(&self, name: &str) -> (r: bool)
        ensures
            r == has_named(enabled_of(self@), name@),
            r == exists|i: int| 0 <= i < self@.len() && (#[trigger] self@[i]).0.name@ == name@ && self@[i].1,
    {
        proof {
            lemma_enabled_of_has(self@, name@);
            lemma_first_named(enabled_of(self@), name@);
        }
        self.find_tool(name).is_some()
    }

    fn len(&self) -> (r: usize)
        ensures
            r == enabled_of(self@).len(),
    {
        proof {
            lemma_enabled_of_len(self@);
        }
        self.get_tools().len()
    }

    fn is_empty(&self) -> (r: bool)
        ensures
            r == (enabled_of(self@).len() == 0),
    {
        self.len() == 0
    }
}


// ---------------------------------------------------------------------------
// GroupedRegistry
// ---------------------------------------------------------------------------

/// The tools of the first group named `name`, if any.
pub open spec fn group_of(groups: Seq<(Seq<char>, Seq<ToolInfo>)>, name: Seq<char>) -> Option<Seq<ToolInfo>>
    decreases groups.len(),
{
    if groups.len() == 0 {
        None
    } else if groups[0].0 == name {
        Some(groups[0].1)
    } else {
        group_of(groups.drop_first(), name)
    }
}

/// Tools of the active groups, group by group in activation order.
pub open spec fn active_tools(groups: Seq<(Seq<char>, Seq<ToolInfo>)>, active: Seq<Seq<char>>) -> Seq<ToolInfo>
    decreases active.len(),
{
    if active.len() == 0 {
        Seq::empty()
    } else {
        active_tools(groups, active.drop_last()) + match group_of(groups, active.last()) {
            Some(t) => t,
            None => Seq::empty(),
        }
    }
}

/// Tools of all groups, active or not, group by group.
pub open spec fn all_group_tools(groups: Seq<(Seq<char>, Seq<ToolInfo>)>) -> Seq<ToolInfo>
    decreases groups.len(),
{
    if groups.len() == 0 {
        Seq::empty()
    } else {
        all_group_tools(groups.drop_last()) + groups.last().1
    }
}

/// Group names with the tools of each group.
pub open spec fn groups_view(groups: Seq<(String, Vec<ToolInfo>)>) -> Seq<(Seq<char>, Seq<ToolInfo>)> {
    groups.map_values(|g: (String, Vec<ToolInfo>)| (g.0@, g.1@))
}

/// The names in a list of strings.
pub open spec fn names_view(names: Seq<String>) -> Seq<Seq<char>> {
    names.map_values(|n: String| n@)
}

/// A registry that organizes tools into named groups.
///
/// Only tools of active groups are offered, but lookup by name searches all
/// groups, so a tool can still run after its group was deactivated.
pub struct GroupedRegistry {
    groups: Vec<(String, Vec<ToolInfo>)>,
    active: Vec<String>,
}

impl GroupedRegistry {
    /// The groups, in registration order, with their tools.
    pub closed spec fn groups(&self) -> Seq<(Seq<char>, Seq<ToolInfo>)> {
        groups_view(self.groups@)
    }

    /// The active group names, in activation order.
    pub closed spec fn active(&self) -> Seq<Seq<char>> {
        names_view(self.active@)
    }

    /// No two groups share a name and no name is active twice.
    pub open spec fn wf(&self) -> bool {
        &&& group_names_view(self.groups()).no_duplicates()
        &&& self.active().no_duplicates()
    }

    /// Index of the first group named `name`.
    fn group_index(&self, name: &str) -> (r: Option<usize>)
        ensures
            match r {
                Some(i) => i < self.groups@.len() && self.groups@[i as int].0@ == name@
                    && i == first_group(self.groups(), name@)
                    && group_of(self.groups(), name@) == Some(self.groups@[i as int].1@),
                None => group_of(self.groups(), name@) is None,
            },
    {
        proof {
            lemma_group_of_first(self.groups(), name@);
        }
        let mut i: usize = 0;
        while i < self.groups.len()
            invariant
                i <= self.groups@.len(),
                self.groups().len() == self.groups@.len(),
                forall|j: int| 0 <= j < i ==> (#[trigger] self.groups@[j]).0@ != name@,
                0 <= first_group(self.groups(), name@) <= self.groups().len(),
                first_group(self.groups(), name@) < self.groups().len() ==> self.groups()[first_group(self.groups(), name@)].0 == name@
                    && group_of(self.groups(), name@) == Some(self.groups()[first_group(self.groups(), name@)].1),
                first_group(self.groups(), name@) == self.groups().len() ==> group_of(self.groups(), name@) is None,
                forall|j: int| 0 <= j < first_group(self.groups(), name@) ==> (#[trigger] self.groups()[j]).0 != name@,
            decreases self.groups@.len() - i,
        {
            if str_eq(self.groups[i].0.as_str(), name) {
                proof {
                    let fi = first_group(self.groups(), name@);
                    assert(self.groups()[i as int].0 == name@);
                    if fi < i {
                        assert(self.groups()[fi].0 == self.groups@[fi].0@);
                        assert(false);
                    }
                }
                return Some(i);
            }
            i = i + 1;
        }
        proof {
            let fi = first_group(self.groups(), name@);
            if fi < self.groups().len() {
                assert(self.groups()[fi].0 == self.groups@[fi].0@);
            }
        }
        None
    }

    /// Whether `name` is among the active names.
    fn active_index(&self, name: &str) -> (r: Option<usize>)
        ensures
            match r {
                Some(i) => i < self.active@.len() && self.active@[i as int]@ == name@,
                None => !self.active().contains(name@),
            },
    {
        let mut i: usize = 0;
        while i < self.active.len()
            invariant
                i <= self.active@.len(),
                forall|j: int| 0 <= j < i ==> (#[trigger] self.active@[j])@ != name@,
            decreases self.active@.len() - i,
        {
            if str_eq(self.active[i].as_str(), name) {
                return Some(i);
            }
            i = i + 1;
        }
        proof {
            if self.active().contains(name@) {
                let k = choose|k: int| 0 <= k < self.active().len() && #[trigger] self.active()[k] == name@;
                assert(self.active@[k]@ == name@);
            }
        }
        None
    }

    /// An empty grouped registry.
    pub fn new() -> (r: Self)
        ensures
            r.groups() == Seq::<(Seq<char>, Seq<ToolInfo>)>::empty(),
            r.active() == Seq::<Seq<char>>::empty(),
            r.wf(),
    {
        let r = GroupedRegistry { groups: Vec::new(), active: Vec::new() };
        proof {
            assert(r.groups() =~= Seq::<(Seq<char>, Seq<ToolInfo>)>::empty());
            assert(r.active() =~= Seq::<Seq<char>>::empty());
            assert(group_names_view(r.groups()) =~= Seq::<Seq<char>>::empty());
        }
        r
    }

    /// Add a named group of tools (not activated). A group of the same name
    /// is replaced.
    pub fn group(self, name: &str, tools: Vec<ToolInfo>) -> (r: Self)
        ensures
            r.active() == self.active(),
            group_of(self.groups(), name@) is None ==> r.groups() == self.groups().push((name@, tools@)),
            group_of(self.groups(), name@) is Some ==> (exists|i: int| 0 <= i < self.groups().len()
                && self.groups()[i].0 == name@
                && (forall|j: int| 0 <= j < i ==> (#[trigger] self.groups()[j]).0 != name@)
                && r.groups() == self.groups().update(i, (name@, tools@))),
            self.wf() ==> r.wf(),
    {
        proof {
            if self.wf() {
                law_grouped_names_distinct(self.groups(), self.active(), name@, tools@);
            }
        }
        let mut me = self;
        match me.group_index(name) {
            Some(i) => {
                let ghost before = me.groups();
                proof {
                    lemma_group_of_first(before, name@);
                }
                let gname = me.groups[i].0.clone();
                me.groups.set(i, (gname, tools));
                proof {
                    assert(me.groups() =~= before.update(i as int, (name@, tools@)));
                    let fi = first_group(before, name@);
                    assert(before[i as int].0 == name@);
                    if fi < i {
                        assert(false);
                    }
                }
                me
            },
            None => {
                let ghost before = me.groups();
                me.groups.push((name.to_owned(), tools));
                proof {
                    assert(me.groups() =~= before.push((name@, tools@)));
                }
                me
            },
        }
    }

    /// Activate a group (builder form). Activating an active group is a no-op.
    pub fn activate(self, name: &str) -> (r: Self)
        ensures
            r.groups() == self.groups(),
            r.active() == if self.active().contains(name@) { self.active() } else { self.active().push(name@) },
            self.wf() ==> r.wf(),
    {
        proof {
            if self.wf() {
                law_grouped_names_distinct(self.groups(), self.active(), name@, Seq::empty());
            }
        }
        let mut me = self;
        match me.active_index(name) {
            Some(i) => {
                proof {
                    assert(me.active()[i as int] == name@);
                }
                me
            },
            None => {
                let ghost before = me.active();
                me.active.push(name.to_owned());
                proof {
                    assert(me.active() =~= before.push(name@));
                }
                me
            },
        }
    }

    /// Activate a group at runtime; `true` if the group exists.
    pub fn activate_group(&mut self, name: &str) -> (r: bool)
        ensures
            r == (group_of(old(self).groups(), name@) is Some),
            final(self).groups() == old(self).groups(),
            final(self).active() == if !r || old(self).active().contains(name@) {
                old(self).active()
            } else {
                old(self).active().push(name@)
            },
            old(self).wf() ==> final(self).wf(),
    {
        proof {
            if self.wf() {
                law_grouped_names_distinct(self.groups(), self.active(), name@, Seq::empty());
            }
        }
        match self.group_index(name) {
            None => false,
            Some(_) => {
                match self.active_index(name) {
                    Some(i) => {
                        proof {
                            assert(self.active()[i as int] == name@);
                        }
                    },
                    None => {
                        let ghost before = self.active();
                        self.active.push(name.to_owned());
                        proof {
                            assert(self.active() =~= before.push(name@));
                        }
                    },
                }
                true
            },
        }
    }

    /// Deactivate a group at runtime; `true` if it was active.
    pub fn deactivate_group(&mut self, name: &str) -> (r: bool)
        ensures
            r == old(self).active().contains(name@),
            final(self).groups() == old(self).groups(),
            final(self).active() == old(self).active().filter(|a: Seq<char>| a != name@),
            old(self).wf() ==> final(self).wf(),
    {
        let ghost before = self.active();
        let mut kept: Vec<String> = Vec::new();
        let mut found = false;
        let mut i: usize = 0;
        while i < self.active.len()
            invariant
                i <= self.active@.len(),
                before == names_view(self.active@),
                names_view(kept@) == before.take(i as int).filter(|a: Seq<char>| a != name@),
                found == before.take(i as int).contains(name@),
            decreases self.active@.len() - i,
        {
            proof {
                lemma_take_succ(before, i as int);
                before.take(i as int).lemma_filter_push(before[i as int], |a: Seq<char>| a != name@);
                assert(before.take(i as int + 1) =~= before.take(i as int).push(before[i as int]));
                if before.take(i as int).contains(name@) {
                    let k = choose|k: int| 0 <= k < i && #[trigger] before.take(i as int)[k] == name@;
                    assert(before.take(i as int + 1)[k] == name@);
                }
                if before.take(i as int + 1).contains(name@) && before[i as int] != name@ {
                    let k = choose|k: int| 0 <= k < i + 1 && #[trigger] before.take(i as int + 1)[k] == name@;
                    assert(before.take(i as int)[k] == name@);
                }
                if before[i as int] == name@ {
                    assert(before.take(i as int + 1)[i as int] == name@);
                }
            }
            if str_eq(self.active[i].as_str(), name) {
                found = true;
            } else {
                let ghost kb = kept@;
                kept.push(self.active[i].clone());
                proof {
                    assert(names_view(kept@) =~= names_view(kb).push(before[i as int]));
                }
            }
            i = i + 1;
        }
        proof {
            lemma_take_all(before);
            if before.no_duplicates() {
                lemma_filter_distinct(before, |a: Seq<char>| a != name@);
            }
        }
        self.active = kept;
        found
    }

    /// Names of all registered groups, in registration order.
    pub fn group_names(&self) -> (r: Vec<String>)
        ensures
            names_view(r@) == self.groups().map_values(|g: (Seq<char>, Seq<ToolInfo>)| g.0),
    {
        let mut out: Vec<String> = Vec::new();
        let mut i: usize = 0;
        while i < self.groups.len()
            invariant
                i <= self.groups@.len(),
                names_view(out@) == self.groups().take(i as int).map_values(|g: (Seq<char>, Seq<ToolInfo>)| g.0),
            decreases self.groups@.len() - i,
        {
            let ghost ob = out@;
            out.push(self.groups[i].0.clone());
            proof {
                assert(names_view(out@) =~= names_view(ob).push(self.groups@[i as int].0@));
                assert(self.groups().take(i as int + 1).map_values(|g: (Seq<char>, Seq<ToolInfo>)| g.0) =~=
                    self.groups().take(i as int).map_values(|g: (Seq<char>, Seq<ToolInfo>)| g.0).push(self.groups@[i as int].0@));
            }
            i = i + 1;
        }
        proof {
            lemma_take_all(self.groups());
        }
        out
    }

    /// Names of the active groups, in activation order.
    pub fn active_group_names(&self) -> (r: Vec<String>)
        ensures
            names_view(r@) == self.active(),
    {
        let r = self.active.clone();
        proof {
            assert(names_view(r@) =~= self.active());
        }
        r
    }

    /// Whether a group is currently active.
    pub fn is_group_active(&self, name: &str) -> (r: bool)
        ensures
            r == self.active().contains(name@),
    {
        let r = self.active_index(name);
        proof {
            if let Some(i) = r {
                assert(self.active()[i as int] == name@);
            }
        }
        r.is_some()
    }
}

/// Index of the first group named `name`, or the number of groups.
pub open spec fn first_group(groups: Seq<(Seq<char>, Seq<ToolInfo>)>, name: Seq<char>) -> int
    decreases groups.len(),
{
    if groups.len() == 0 {
        0
    } else if groups[0].0 == name {
        0
    } else {
        1 + first_group(groups.drop_first(), name)
    }
}

/// `group_of` returns the tools of the group at `first_group`.
pub proof fn lemma_group_of_first(groups: Seq<(Seq<char>, Seq<ToolInfo>)>, name: Seq<char>)
    ensures
        0 <= first_group(groups, name) <= groups.len(),
        first_group(groups, name) < groups.len() ==> groups[first_group(groups, name)].0 == name
            && group_of(groups, name) == Some(groups[first_group(groups, name)].1),
        first_group(groups, name) == groups.len() ==> group_of(groups, name) is None,
        forall|j: int| 0 <= j < first_group(groups, name) ==> (#[trigger] groups[j]).0 != name,
    decreases groups.len(),
{
    if groups.len() > 0 && groups[0].0 != name {
        lemma_group_of_first(groups.drop_first(), name);
        assert forall|j: int| 0 <= j < first_group(groups, name) implies (#[trigger] groups[j]).0 != name by {
            if j > 0 {
                assert(groups[j] == groups.drop_first()[j - 1]);
            }
        }
    }
}


pub(crate) fn append_tools(out: &mut Vec<ToolInfo>, tools: &[ToolInfo])
    ensures
        final(out)@ == old(out)@ + tools@,
{
    let ghost start = out@;
    let mut i: usize = 0;
    while i < tools.len()
        invariant
            i <= tools@.len(),
            out@ == start + tools@.take(i as int),
        decreases tools@.len() - i,
    {
        out.push(tools[i].clone());
        proof {
            assert(tools@.take(i as int + 1) =~= tools@.take(i as int).push(tools@[i as int]));
            assert(start + tools@.take(i as int + 1) =~= (start + tools@.take(i as int)).push(tools@[i as int]));
        }
        i = i + 1;
    }
    proof {
        lemma_take_all(tools@);
    }
}

impl GroupedRegistry {
    fn all_tools(&self) -> (r: Vec<ToolInfo>)
        ensures
            r@ == all_group_tools(self.groups()),
    {
        let mut out: Vec<ToolInfo> = Vec::new();
        let mut i: usize = 0;
        while i < self.groups.len()
            invariant
                i <= self.groups@.len(),
                self.groups().len() == self.groups@.len(),
                out@ == all_group_tools(self.groups().take(i as int)),
            decreases self.groups@.len() - i,
        {
            proof {
                lemma_take_succ(self.groups(), i as int);
            }
            append_tools(&mut out, self.groups[i].1.as_slice());
            i = i + 1;
        }
        proof {
            lemma_take_all(self.groups());
        }
        out
    }
}

impl Default for GroupedRegistry {
    fn default() -> (r: Self)
        ensures
            r.groups() == Seq::<(Seq<char>, Seq<ToolInfo>)>::empty(),
            r.active() == Seq::<Seq<char>>::empty(),
    {
        GroupedRegistry::new()
    }
}

impl ToolRegistry for GroupedRegistry {
    /// Tools of the active groups only.
    fn get_tools(&self) -> (r: Vec<ToolInfo>)
        ensures
            r@ == active_tools(self.groups(), self.active()),
    {
        let mut out: Vec<ToolInfo> = Vec::new();
        let mut i: usize = 0;
        while i < self.active.len()
            invariant
                i <= self.active@.len(),
                self.active().len() == self.active@.len(),
                out@ == active_tools(self.groups(), self.active().take(i as int)),
            decreases self.active@.len() - i,
        {
            proof {
                lemma_take_succ(self.active(), i as int);
                assert(self.active()[i as int] == self.active@[i as int]@);
            }
            match self.group_index(self.active[i].as_str()) {
                Some(g) => {
                    append_tools(&mut out, self.groups[g].1.as_slice());
                },
                None => {
                    proof {
                        assert(out@ + Seq::<ToolInfo>::empty() =~= out@);
                    }
                },
            }
            i = i + 1;
        }
        proof {
            lemma_take_all(self.active());
        }
        out
    }

    /// Searches all groups, active or not.
    fn find_tool(&self, name: &str) -> (r: Option<ToolInfo>)
        ensures
            r == lookup(all_group_tools(self.groups()), name@),
    {
        let all = self.all_tools();
        find_in(all.as_slice(), name)
    }

    fn register(&mut self, tool: ToolInfo) -> (r: bool)
        ensures
            !r,
            final(self).groups() == old(self).groups(),
            final(self).active() == old(self).active(),
    {
        false
    }

    fn unregister(&mut self, name: &str) -> (r: bool)
        ensures
            !r,
            final(self).groups() == old(self).groups(),
            final(self).active() == old(self).active(),
    {
        false
    }

    fn set_enabled(&mut self, name: &str, enabled: bool) -> (r: bool)
        ensures
            !r,
            final(self).groups() == old(self).groups(),
            final(self).active() == old(self).active(),
    {
        false
    }

    fn is_enabled(&self, name: &str) -> (r: bool)
        ensures
            r == has_named(all_group_tools(self.groups()), name@),
    {
        proof {
            lemma_first_named(all_group_tools(self.groups()), name@);
        }
        self.find_tool(name).is_some()
    }

    /// Number of tools in active groups.
    fn len(&self) -> (r: usize)
        ensures
            r == active_tools(self.groups(), self.active()).len(),
    {
        self.get_tools().len()
    }

    fn is_empty(&self) -> (r: bool)
        ensures
            r == (active_tools(self.groups(), self.active()).len() == 0),
    {
        self.len() == 0
    }
}

// ---------------------------------------------------------------------------
// AdaptiveRegistry
// ---------------------------------------------------------------------------

/// Per-tier tool limits.
#[derive(Debug, Clone, Copy)]
pub struct TierLimits {
    /// Max tools for small models.
    pub small: usize,
    /// Max tools for medium models.
    pub medium: usize,
    /// Max tools for large models.
    pub large: usize,
}

impl Default for TierLimits {
    /// Small = 5, Medium = 15, Large = unlimited.
    fn default() -> (r: Self)
        ensures
            r.small == 5,
            r.medium == 15,
            r.large == usize::MAX,
    {
        TierLimits { small: 5, medium: 15, large: usize::MAX }
    }
}

/// The limit that applies to `tier`.
pub open spec fn limit_for(limits: TierLimits, tier: ModelTier) -> nat {
    match tier {
        ModelTier::Small => limits.small as nat,
        ModelTier::Medium => limits.medium as nat,
        ModelTier::Large => limits.large as nat,
    }
}

/// A registry that offers at most a tier-dependent number of tools, in
/// insertion order; lookup by name searches all tools.
pub struct AdaptiveRegistry {
    tools: Vec<ToolInfo>,
    limits: TierLimits,
    tier: ModelTier,
}

impl View for AdaptiveRegistry {
    type V = Seq<ToolInfo>;

    closed spec fn view(&self) -> Seq<ToolInfo> {
        self.tools@
    }
}

impl AdaptiveRegistry {
    /// The configured limits.
    pub closed spec fn spec_limits(&self) -> TierLimits {
        self.limits
    }

    /// The configured tier.
    pub closed spec fn spec_tier(&self) -> ModelTier {
        self.tier
    }

    /// The number of tools offered for the configured tier.
    pub open spec fn visible_count(&self) -> nat {
        let l = limit_for(self.spec_limits(), self.spec_tier());
        if self@.len() < l { self@.len() } else { l }
    }

    /// Create a registry with the default limits.
    pub fn new(tools: Vec<ToolInfo>, tier: ModelTier) -> (r: Self)
        ensures
            r@ == tools@,
            r.spec_tier() == tier,
            r.spec_limits() == (TierLimits { small: 5, medium: 15, large: usize::MAX }),
    {
        AdaptiveRegistry { tools, limits: TierLimits::default(), tier }
    }

    /// Override the tier limits.
    pub fn with_limits(self, small: usize, medium: usize, large: usize) -> (r: Self)
        ensures
            r@ == self@,
            r.spec_tier() == self.spec_tier(),
            r.spec_limits() == (TierLimits { small, medium, large }),
    {
        AdaptiveRegistry { tools: self.tools, limits: TierLimits { small, medium, large }, tier: self.tier }
    }

    /// The current limits.
    pub fn limits(&self) -> (r: TierLimits)
        ensures
            r == self.spec_limits(),
    {
        self.limits
    }

    /// The configured tier.
    pub fn tier(&self) -> (r: ModelTier)
        ensures
            r == self.spec_tier(),
    {
        self.tier
    }

    /// The limit for the configured tier.
    fn effective_limit(&self) -> (r: usize)
        ensures
            r == limit_for(self.spec_limits(), self.spec_tier()),
    {
        match self.tier {
            ModelTier::Small => self.limits.small,
            ModelTier::Medium => self.limits.medium,
            ModelTier::Large => self.limits.large,
        }
    }
}

impl ToolRegistry for AdaptiveRegistry {
    /// The first `limit` tools, in insertion order.
    fn get_tools(&self) -> (r: Vec<ToolInfo>)
        ensures
            r@ == self@.take(self.visible_count() as int),
    {
        let limit = self.effective_limit();
        let n = if self.tools.len() < limit { self.tools.len() } else { limit };
        let mut out: Vec<ToolInfo> = Vec::new();
        let mut i: usize = 0;
        while i < n
            invariant
                i <= n,
                n <= self.tools@.len(),
                out@ == self.tools@.take(i as int),
            decreases n - i,
        {
            out.push(self.tools[i].clone());
            proof {
                assert(self.tools@.take(i as int + 1) =~= self.tools@.take(i as int).push(self.tools@[i as int]));
            }
            i = i + 1;
        }
        out
    }

    /// Searches all tools, whatever the limit.
    fn find_tool(&self, name: &str) -> (r: Option<ToolInfo>)
        ensures
            r == lookup(self@, name@),
    {
        find_in(self.tools.as_slice(), name)
    }

    fn register(&mut self, tool: ToolInfo) -> (r: bool)
        ensures
            !r,
            final(self)@ == old(self)@,
            final(self).spec_limits() == old(self).spec_limits(),
            final(self).spec_tier() == old(self).spec_tier(),
    {
        false
    }

    fn unregister(&mut self, name: &str) -> (r: bool)
        ensures
            !r,
            final(self)@ == old(self)@,
            final(self).spec_limits() == old(self).spec_limits(),
            final(self).spec_tier() == old(self).spec_tier(),
    {
        false
    }

    fn set_enabled(&mut self, name: &str, enabled: bool) -> (r: bool)
        ensures
            !r,
            final(self)@ == old(self)@,
            final(self).spec_limits() == old(self).spec_limits(),
            final(self).spec_tier() == old(self).spec_tier(),
    {
        false
    }

    fn is_enabled(&self, name: &str) -> (r: bool)
        ensures
            r == has_named(self@, name@),
    {
        proof {
            lemma_first_named(self@, name@);
        }
        self.find_tool(name).is_some()
    }

    /// Number of tools offered: `min(tool count, limit)`.
    fn len(&self) -> (r: usize)
        ensures
            r == self.visible_count(),
    {
        let limit = self.effective_limit();
        if self.tools.len() < limit { self.tools.len() } else { limit }
    }

    fn is_empty(&self) -> (r: bool)
        ensures
            r == (self.visible_count() == 0),
    {
        self.len() == 0
    }
}


// ---------------------------------------------------------------------------
// Laws
// ---------------------------------------------------------------------------

/// A tool registered into a dynamic registry is found (enabled) by its name.
pub proof fn law_register_then_find(s: Seq<(ToolInfo, bool)>, t: ToolInfo)
    requires
        !entry_named(s, t.name@),
    ensures
        lookup(enabled_of(s.push((t, true))), t.name@) == Some(t),
{
    let e = enabled_of(s.push((t, true)));
    assert(s.push((t, true)).drop_last() =~= s);
    lemma_first_named(e, t.name@);
    let ed = enabled_of(s);
    assert(e == ed.push(t));
    assert(e[ed.len() as int] == t);
    assert(has_named(e, t.name@));
    lemma_enabled_of_has(s, t.name@);
    if first_named(e, t.name@) < ed.len() {
        let k = first_named(e, t.name@);
        assert(e[k] == ed[k]);
        assert(has_named(ed, t.name@));
        let j = choose|j: int| 0 <= j < s.len() && (#[trigger] s[j]).0.name@ == t.name@ && s[j].1;
        assert(false);
    }
}

/// After unregistering a name, no entry carries it.
pub proof fn law_unregister_removes(s: Seq<(ToolInfo, bool)>, name: Seq<char>)
    ensures
        !entry_named(without_named(s, name), name),
        lookup(enabled_of(without_named(s, name)), name) is None,
    decreases s.len(),
{
    if s.len() > 0 {
        law_unregister_removes(s.drop_last(), name);
        let w = without_named(s, name);
        let wd = without_named(s.drop_last(), name);
        if entry_named(w, name) {
            let k = choose|k: int| 0 <= k < w.len() && (#[trigger] w[k]).0.name@ == name;
            if k < wd.len() {
                assert(w[k] == wd[k]);
            }
        }
    }
    let w = without_named(s, name);
    lemma_enabled_of_has(w, name);
    if has_named(enabled_of(w), name) {
        let j = choose|j: int| 0 <= j < w.len() && (#[trigger] w[j]).0.name@ == name && w[j].1;
        assert(entry_named(w, name));
    }
}

/// When tool names are unique, disabling a tool makes it not enabled, and
/// enabling it makes it enabled.
pub proof fn law_set_enabled_takes_effect(s: Seq<(ToolInfo, bool)>, name: Seq<char>, flag: bool)
    requires
        forall|i: int, j: int| 0 <= i < j < s.len() ==> (#[trigger] s[i]).0.name@ != (#[trigger] s[j]).0.name@,
        entry_named(s, name),
    ensures
        ({
            let k = first_named(entry_tools(s), name);
            let s2 = if s[k].1 != flag { s.update(k, (s[k].0, flag)) } else { s };
            has_named(enabled_of(s2), name) == flag
        }),
{
    let t = entry_tools(s);
    lemma_first_named(t, name);
    let j0 = choose|j: int| 0 <= j < s.len() && (#[trigger] s[j]).0.name@ == name;
    assert(t[j0] == s[j0].0);
    assert(has_named(t, name));
    let k = first_named(t, name);
    assert(t[k] == s[k].0);
    let s2 = if s[k].1 != flag { s.update(k, (s[k].0, flag)) } else { s };
    lemma_enabled_of_has(s2, name);
    assert(s2[k].1 == flag);
    if flag {
        assert(s2[k].0.name@ == name);
    } else {
        if exists|i: int| 0 <= i < s2.len() && (#[trigger] s2[i]).0.name@ == name && s2[i].1 {
            let i = choose|i: int| 0 <= i < s2.len() && (#[trigger] s2[i]).0.name@ == name && s2[i].1;
            if i != k {
                assert(s2[i] == s[i]);
                if i < k {
                    assert(s[i].0.name@ != s[k].0.name@);
                } else {
                    assert(s[k].0.name@ != s[i].0.name@);
                }
            }
        }
    }
}

/// The names of a list of groups, in order.
pub open spec fn group_names_view(groups: Seq<(Seq<char>, Seq<ToolInfo>)>) -> Seq<Seq<char>> {
    groups.map_values(|g: (Seq<char>, Seq<ToolInfo>)| g.0)
}

/// Filtering a list without duplicates leaves a list without duplicates.
proof fn lemma_filter_distinct(s: Seq<Seq<char>>, p: spec_fn(Seq<char>) -> bool)
    requires
        s.no_duplicates(),
    ensures
        s.filter(p).no_duplicates(),
    decreases s.len(),
{
    reveal(Seq::filter);
    if s.len() > 0 {
        let d = s.drop_last();
        assert(d.no_duplicates()) by {
            assert forall|i: int, j: int| 0 <= i < d.len() && 0 <= j < d.len() && i != j implies d[i] != d[j] by {
                assert(d[i] == s[i] && d[j] == s[j]);
            }
        }
        lemma_filter_distinct(d, p);
        let f = d.filter(p);
        assert(s.filter(p) == if p(s.last()) { f.push(s.last()) } else { f });
        if p(s.last()) {
            let g = f.push(s.last());
            assert forall|i: int| 0 <= i < f.len() implies #[trigger] f[i] != s.last() by {
                assert(f.contains(f[i]));
                d.lemma_filter_contains_rev(p, f[i]);
                let k = choose|k: int| 0 <= k < d.len() && d[k] == f[i];
                assert(s[k] == d[k]);
                assert(k != s.len() - 1);
            }
            assert forall|i: int, j: int| 0 <= i < g.len() && 0 <= j < g.len() && i != j implies g[i] != g[j] by {
                if i < f.len() && j < f.len() {
                    assert(g[i] == f[i] && g[j] == f[j]);
                } else if i < f.len() {
                    assert(g[i] == f[i]);
                } else if j < f.len() {
                    assert(g[j] == f[j]);
                }
            }
        }
    }
}

/// A grouped registry never holds two groups of one name nor activates a
/// name twice: starting without duplicates, adding or replacing a group,
/// activating a name and deactivating it all keep it so.
pub proof fn law_grouped_names_distinct(
    groups: Seq<(Seq<char>, Seq<ToolInfo>)>,
    active: Seq<Seq<char>>,
    name: Seq<char>,
    tools: Seq<ToolInfo>,
)
    requires
        group_names_view(groups).no_duplicates(),
        active.no_duplicates(),
    ensures
        (if active.contains(name) { active } else { active.push(name) }).no_duplicates(),
        active.filter(|a: Seq<char>| a != name).no_duplicates(),
        group_of(groups, name) is None ==> group_names_view(groups.push((name, tools))).no_duplicates(),
        forall|i: int| 0 <= i < groups.len() && groups[i].0 == name
            ==> #[trigger] group_names_view(groups.update(i, (name, tools))).no_duplicates(),
{
    lemma_filter_distinct(active, |a: Seq<char>| a != name);
    if !active.contains(name) {
        let a2 = active.push(name);
        assert forall|i: int, j: int| 0 <= i < a2.len() && 0 <= j < a2.len() && i != j implies a2[i] != a2[j] by {
            if i == active.len() {
                assert(a2[j] == active[j]);
            } else if j == active.len() {
                assert(a2[i] == active[i]);
            }
        }
    }
    let gn = group_names_view(groups);
    lemma_group_of_first(groups, name);
    if group_of(groups, name) is None {
        let g2 = group_names_view(groups.push((name, tools)));
        assert(g2 =~= gn.push(name));
        assert forall|i: int| 0 <= i < groups.len() implies #[trigger] groups[i].0 != name by {
            if groups[i].0 == name {
                assert(first_group(groups, name) <= i);
            }
        }
        assert forall|i: int, j: int| 0 <= i < g2.len() && 0 <= j < g2.len() && i != j implies g2[i] != g2[j] by {
            if i == groups.len() {
                assert(g2[j] == groups[j].0);
            } else if j == groups.len() {
                assert(g2[i] == groups[i].0);
            } else {
                assert(g2[i] == gn[i] && g2[j] == gn[j]);
            }
        }
    }
    assert forall|i: int| 0 <= i < groups.len() && groups[i].0 == name
        implies #[trigger] group_names_view(groups.update(i, (name, tools))).no_duplicates() by {
        let g3 = group_names_view(groups.update(i, (name, tools)));
        assert(g3 =~= gn);
    }
}

/// An adaptive registry offers exactly `min(tool count, tier limit)` tools,
/// the first ones in insertion order.
pub proof fn law_adaptive_visible_prefix(r: AdaptiveRegistry)
    ensures
        r.visible_count() <= r@.len(),
        r@.take(r.visible_count() as int).len() == r.visible_count(),
        r.visible_count() == limit_for(r.spec_limits(), r.spec_tier()) || r.visible_count() == r@.len(),
{
}

} // verus!

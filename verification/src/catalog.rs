//! The catalog: which tools there are, which child each belongs to, and how the children fare.
use crate::config::{copy_optional, optional_text, ChildConfig, ConfigText, RestartPolicy};
use crate::config_files::{CommandSignature, CommandState};
use crate::digest::{sha256_hex, sha256_of};
use crate::encoding::hex;
use crate::name_map::NameMap;
use crate::policy::{active_profile_name, policy_in, Mode};
use crate::recovery::{ChildRecovery, Policy, Recovery, State};
use crate::text::same;
use vstd::prelude::*;
use vstd::string::*;
use vstd::utf8::*;

verus! {

pub const TOOL_LIST_SERVERS: &'static str = "gateway_list_servers";

pub const TOOL_RELOAD: &'static str = "gateway_reload";

pub const TOOL_SET_ENABLED: &'static str = "gateway_set_server_enabled";

pub const TOOL_READ_ARTIFACT: &'static str = "gateway_read_artifact";

/// The JSON schemas of the arguments of the gateway's own tools.
pub const SCHEMA_NO_ARGUMENTS: &'static str = "{\"type\":\"object\",\"properties\":{},\"additionalProperties\":false}";

pub const SCHEMA_SET_ENABLED: &'static str = "{\"type\":\"object\",\"properties\":{\"name\":{\"type\":\"string\",\"minLength\":1},\"enabled\":{\"type\":\"boolean\"}},\"required\":[\"name\",\"enabled\"],\"additionalProperties\":false}";

pub const SCHEMA_READ_ARTIFACT: &'static str = "{\"type\":\"object\",\"properties\":{\"id\":{\"type\":\"string\",\"format\":\"uuid\"},\"offset\":{\"type\":\"integer\",\"minimum\":0},\"max_bytes\":{\"type\":\"integer\",\"minimum\":1}},\"required\":[\"id\",\"max_bytes\"],\"additionalProperties\":false}";

/// A tool as a child offers it.
#[derive(Debug)]
pub struct ChildTool {
    pub name: String,
    pub description: Option<String>,
}

#[verifier::ext_equal]
pub struct OfferedTool {
    pub name: Seq<char>,
    pub description: Option<Seq<char>>,
}

impl View for ChildTool {
    type V = OfferedTool;

    open spec fn view(&self) -> OfferedTool {
        OfferedTool { name: self.name@, description: optional_text(self.description) }
    }
}

impl Clone for ChildTool {
    fn clone(&self) -> (r: Self)
        ensures
            r@ == self@,
    {
        ChildTool { name: self.name.clone(), description: copy_optional(&self.description) }
    }
}

pub open spec fn offers(tools: Seq<ChildTool>) -> Seq<OfferedTool> {
    tools.map_values(|tool: ChildTool| tool@)
}

pub(crate) fn copy_tools(tools: &Vec<ChildTool>) -> (r: Vec<ChildTool>)
    ensures
        offers(r@) == offers(tools@),
{
    let mut out: Vec<ChildTool> = Vec::new();
    let mut i: usize = 0;
    while i < tools.len()
        invariant
            i <= tools.len(),
            offers(out@) == offers(tools@.take(i as int)),
        decreases tools.len() - i,
    {
        out.push(tools[i].clone());
        assert(offers(tools@.take(i + 1)) =~= offers(tools@.take(i as int)).push(
            tools@[i as int]@,
        ));
        assert(offers(out@) =~= offers(tools@.take(i as int)).push(tools@[i as int]@));
        i = i + 1;
    }
    assert(tools@.take(i as int) =~= tools@);
    out
}

/// A tool of the catalog: one of the gateway's own, or the tool at a place of a child's offer.
#[derive(Debug)]
pub struct CatalogTool {
    pub name: String,
    pub description: String,
    pub child: Option<String>,
    pub place: usize,
}

#[verifier::ext_equal]
pub struct ListedTool {
    pub name: Seq<char>,
    pub description: Seq<char>,
    pub child: Option<Seq<char>>,
    pub place: int,
}

impl View for CatalogTool {
    type V = ListedTool;

    open spec fn view(&self) -> ListedTool {
        ListedTool {
            name: self.name@,
            description: self.description@,
            child: optional_text(self.child),
            place: self.place as int,
        }
    }
}

impl Clone for CatalogTool {
    fn clone(&self) -> (r: Self)
        ensures
            r@ == self@,
    {
        CatalogTool {
            name: self.name.clone(),
            description: self.description.clone(),
            child: copy_optional(&self.child),
            place: self.place,
        }
    }
}

pub open spec fn listed(tools: Seq<CatalogTool>) -> Seq<ListedTool> {
    tools.map_values(|tool: CatalogTool| tool@)
}

/// Where a call of an exposed tool goes.
#[derive(Debug)]
pub struct ToolRoute {
    pub child: String,
    pub original_name: String,
}

#[verifier::ext_equal]
pub struct Route {
    pub child: Seq<char>,
    pub original_name: Seq<char>,
}

impl View for ToolRoute {
    type V = Route;

    open spec fn view(&self) -> Route {
        Route { child: self.child@, original_name: self.original_name@ }
    }
}

impl Clone for ToolRoute {
    fn clone(&self) -> (r: Self)
        ensures
            r@ == self@,
    {
        ToolRoute { child: self.child.clone(), original_name: self.original_name.clone() }
    }
}

/// A running child, as far as the catalog goes by it.
#[derive(Debug)]
pub struct ChildEntry {
    pub config: ChildConfig,
    pub command_signature: Option<CommandSignature>,
    pub tools: Vec<ChildTool>,
    pub recovery: ChildRecovery,
    pub recovery_policy: Option<Policy>,
}

#[verifier::ext_equal]
pub struct RunningChild {
    pub config: ConfigText,
    pub command_signature: Option<CommandState>,
    pub tools: Seq<OfferedTool>,
    pub recovery: Recovery,
    pub recovery_policy: Option<Policy>,
}

pub open spec fn optional_state(signature: Option<CommandSignature>) -> Option<CommandState> {
    match signature {
        None => None,
        Some(signature) => Some(signature@),
    }
}

impl View for ChildEntry {
    type V = RunningChild;

    open spec fn view(&self) -> RunningChild {
        RunningChild {
            config: self.config@,
            command_signature: optional_state(self.command_signature),
            tools: offers(self.tools@),
            recovery: self.recovery@,
            recovery_policy: self.recovery_policy,
        }
    }
}

impl Clone for ChildEntry {
    fn clone(&self) -> (r: Self)
        ensures
            r@ == self@,
    {
        ChildEntry {
            config: self.config.clone(),
            command_signature: match &self.command_signature {
                None => None,
                Some(signature) => Some(signature.clone()),
            },
            tools: copy_tools(&self.tools),
            recovery: self.recovery,
            recovery_policy: self.recovery_policy,
        }
    }
}

/// How a configured child fares.
#[derive(Debug)]
pub struct ChildStatus {
    pub name: String,
    pub enabled: bool,
    pub running: bool,
    pub command: String,
    pub source: String,
    pub tool_prefix: Option<String>,
    pub tool_count: usize,
    pub timeout_ms: u64,
    pub restart_policy: RestartPolicy,
    pub generation: u64,
    pub recovery_state: State,
    pub consecutive_failures: usize,
    pub retry_at_ms: Option<u64>,
    pub error: Option<String>,
}

#[verifier::ext_equal]
pub struct Condition {
    pub name: Seq<char>,
    pub enabled: bool,
    pub running: bool,
    pub command: Seq<char>,
    pub source: Seq<char>,
    pub tool_prefix: Option<Seq<char>>,
    pub tool_count: int,
    pub timeout_ms: u64,
    pub restart_policy: RestartPolicy,
    pub generation: nat,
    pub recovery_state: State,
    pub consecutive_failures: nat,
    pub retry_at_ms: Option<u64>,
    pub error: Option<Seq<char>>,
}

impl View for ChildStatus {
    type V = Condition;

    open spec fn view(&self) -> Condition {
        Condition {
            name: self.name@,
            enabled: self.enabled,
            running: self.running,
            command: self.command@,
            source: self.source@,
            tool_prefix: optional_text(self.tool_prefix),
            tool_count: self.tool_count as int,
            timeout_ms: self.timeout_ms,
            restart_policy: self.restart_policy,
            generation: self.generation as nat,
            recovery_state: self.recovery_state,
            consecutive_failures: self.consecutive_failures as nat,
            retry_at_ms: self.retry_at_ms,
            error: optional_text(self.error),
        }
    }
}

impl Clone for ChildStatus {
    fn clone(&self) -> (r: Self)
        ensures
            r@ == self@,
    {
        ChildStatus {
            name: self.name.clone(),
            enabled: self.enabled,
            running: self.running,
            command: self.command.clone(),
            source: self.source.clone(),
            tool_prefix: copy_optional(&self.tool_prefix),
            tool_count: self.tool_count,
            timeout_ms: self.timeout_ms,
            restart_policy: self.restart_policy,
            generation: self.generation,
            recovery_state: self.recovery_state,
            consecutive_failures: self.consecutive_failures,
            retry_at_ms: self.retry_at_ms,
            error: copy_optional(&self.error),
        }
    }
}

impl Condition {
    /// The condition with the state of recovery as it is now.
    pub open spec fn with_recovery(self, recovery: Recovery) -> Condition {
        Condition {
            generation: recovery.generation,
            recovery_state: recovery.state,
            consecutive_failures: recovery.consecutive_failures,
            retry_at_ms: recovery.retry_at_ms,
            ..self
        }
    }
}

impl ChildStatus {
    pub(crate) fn show_recovery(&mut self, recovery: &ChildRecovery)
        ensures
            final(self)@ == old(self)@.with_recovery(recovery@),
    {
        self.generation = recovery.generation();
        self.recovery_state = recovery.state();
        self.consecutive_failures = recovery.consecutive_failures();
        self.retry_at_ms = recovery.retry_at_ms();
    }
}

/// The tools, where their calls go, the running children, and how all children fare.
#[derive(Debug)]
pub struct Snapshot {
    pub tools: Vec<CatalogTool>,
    pub routes: NameMap<ToolRoute>,
    pub children: NameMap<ChildEntry>,
    pub statuses: NameMap<ChildStatus>,
}

#[verifier::ext_equal]
pub struct Catalog {
    pub tools: Seq<ListedTool>,
    pub routes: Map<Seq<char>, Route>,
    pub children: Map<Seq<char>, RunningChild>,
    pub statuses: Map<Seq<char>, Condition>,
}

pub open spec fn routes_in(routes: Map<Seq<char>, ToolRoute>) -> Map<Seq<char>, Route> {
    routes.map_values(|route: ToolRoute| route@)
}

pub open spec fn children_in(children: Map<Seq<char>, ChildEntry>) -> Map<Seq<char>, RunningChild> {
    children.map_values(|child: ChildEntry| child@)
}

pub open spec fn statuses_in(statuses: Map<Seq<char>, ChildStatus>) -> Map<Seq<char>, Condition> {
    statuses.map_values(|status: ChildStatus| status@)
}

impl View for Snapshot {
    type V = Catalog;

    open spec fn view(&self) -> Catalog {
        Catalog {
            tools: listed(self.tools@),
            routes: routes_in(self.routes@),
            children: children_in(self.children@),
            statuses: statuses_in(self.statuses@),
        }
    }
}

impl Catalog {
    /// The catalog without anything.
    pub open spec fn empty() -> Catalog {
        Catalog {
            tools: Seq::empty(),
            routes: Map::empty(),
            children: Map::empty(),
            statuses: Map::empty(),
        }
    }
}

impl Default for Snapshot {
    fn default() -> (r: Self)
        ensures
            r@ == Catalog::empty(),
    {
        let r = Snapshot {
            tools: Vec::new(),
            routes: NameMap::new(),
            children: NameMap::new(),
            statuses: NameMap::new(),
        };
        assert(r@ =~= Catalog::empty());
        r
    }
}

pub open spec fn builtin(name: Seq<char>, description: Seq<char>) -> ListedTool {
    ListedTool { name, description, child: None, place: 0 }
}

/// The gateway's own tools.
pub open spec fn builtins() -> Seq<ListedTool> {
    seq![
        builtin(
            TOOL_LIST_SERVERS@,
            "List configured child MCP servers, runtime status, and tool counts."@,
        ),
        builtin(
            TOOL_RELOAD@,
            "Reload servers.d, preserve healthy unchanged children, replace changed or stopped children, and refresh the exposed tool catalog."@,
        ),
        builtin(
            TOOL_SET_ENABLED@,
            "Persistently enable or disable one child MCP server and reload the gateway."@,
        ),
        builtin(
            TOOL_READ_ARTIFACT@,
            "Read a bounded base64 range from an explicitly enabled ephemeral Gateway artifact."@,
        ),
    ]
}

pub open spec fn builtin_name(name: Seq<char>) -> bool {
    ||| name == TOOL_LIST_SERVERS@
    ||| name == TOOL_RELOAD@
    ||| name == TOOL_SET_ENABLED@
    ||| name == TOOL_READ_ARTIFACT@
}

fn own_tool(name: &str, description: &str) -> (r: CatalogTool)
    ensures
        r@ == builtin(name@, description@),
{
    CatalogTool {
        name: name.to_owned(),
        description: description.to_owned(),
        child: None,
        place: 0,
    }
}

/// The gateway's own tools.
pub fn builtin_tools() -> (r: Vec<CatalogTool>)
    ensures
        listed(r@) == builtins(),
{
    let mut tools: Vec<CatalogTool> = Vec::new();
    tools.push(
        own_tool(
            TOOL_LIST_SERVERS,
            "List configured child MCP servers, runtime status, and tool counts.",
        ),
    );
    tools.push(
        own_tool(
            TOOL_RELOAD,
            "Reload servers.d, preserve healthy unchanged children, replace changed or stopped children, and refresh the exposed tool catalog.",
        ),
    );
    tools.push(
        own_tool(
            TOOL_SET_ENABLED,
            "Persistently enable or disable one child MCP server and reload the gateway.",
        ),
    );
    tools.push(
        own_tool(
            TOOL_READ_ARTIFACT,
            "Read a bounded base64 range from an explicitly enabled ephemeral Gateway artifact.",
        ),
    );
    assert(listed(tools@) =~= builtins());
    tools
}

/// The JSON schema of the arguments of one of the gateway's own tools.
pub open spec fn schema_of(name: Seq<char>) -> Option<Seq<char>> {
    if name == TOOL_LIST_SERVERS@ || name == TOOL_RELOAD@ {
        Some(SCHEMA_NO_ARGUMENTS@)
    } else if name == TOOL_SET_ENABLED@ {
        Some(SCHEMA_SET_ENABLED@)
    } else if name == TOOL_READ_ARTIFACT@ {
        Some(SCHEMA_READ_ARTIFACT@)
    } else {
        None
    }
}

/// The JSON schema of the arguments of one of the gateway's own tools.
pub fn builtin_schema(name: &str) -> (r: Option<&'static str>)
    ensures
        r is Some <==> builtin_name(name@),
        r matches Some(schema) ==> schema_of(name@) == Some(schema@),
{
    if same(name, TOOL_LIST_SERVERS) || same(name, TOOL_RELOAD) {
        Some(SCHEMA_NO_ARGUMENTS)
    } else if same(name, TOOL_SET_ENABLED) {
        Some(SCHEMA_SET_ENABLED)
    } else if same(name, TOOL_READ_ARTIFACT) {
        Some(SCHEMA_READ_ARTIFACT)
    } else {
        None
    }
}

/// What a reload came to.
#[derive(Debug)]
pub struct ReloadSummary {
    pub configured_servers: usize,
    pub enabled_servers: usize,
    pub running_servers: usize,
    pub exposed_child_tools: usize,
    pub failed_servers: Vec<String>,
}

/// How many of the first entries are enabled.
pub open spec fn enabled_count(entries: Seq<(Seq<char>, ChildStatus)>) -> nat
    decreases entries.len(),
{
    if entries.len() == 0 {
        0
    } else {
        enabled_count(entries.drop_last()) + if entries.last().1.enabled {
            1nat
        } else {
            0nat
        }
    }
}

pub open spec fn running_count(entries: Seq<(Seq<char>, ChildStatus)>) -> nat
    decreases entries.len(),
{
    if entries.len() == 0 {
        0
    } else {
        running_count(entries.drop_last()) + if entries.last().1.running {
            1nat
        } else {
            0nat
        }
    }
}

/// The names of the children with an error, in the order of the names.
pub open spec fn failed_names(entries: Seq<(Seq<char>, ChildStatus)>) -> Seq<Seq<char>>
    decreases entries.len(),
{
    if entries.len() == 0 {
        Seq::empty()
    } else if entries.last().1.error is Some {
        failed_names(entries.drop_last()).push(entries.last().1.name@)
    } else {
        failed_names(entries.drop_last())
    }
}

/// Sums a catalog up.
pub fn summarize(snapshot: &Snapshot) -> (r: ReloadSummary)
    ensures
        r.configured_servers == snapshot.statuses@.len(),
        r.enabled_servers == enabled_count(snapshot.statuses.listing()),
        r.running_servers == running_count(snapshot.statuses.listing()),
        r.exposed_child_tools == snapshot.routes@.len(),
        crate::name_map::texts(r.failed_servers@) == failed_names(snapshot.statuses.listing()),
{
    let n: usize = snapshot.statuses.len();
    let ghost all = snapshot.statuses.listing();
    let mut enabled_servers: usize = 0;
    let mut running_servers: usize = 0;
    let mut failed_servers: Vec<String> = Vec::new();
    let mut i: usize = 0;
    assert(crate::name_map::texts(failed_servers@) =~= failed_names(all.take(0)));
    while i < n
        invariant
            i <= n,
            n == all.len(),
            all == snapshot.statuses.listing(),
            enabled_servers == enabled_count(all.take(i as int)),
            running_servers == running_count(all.take(i as int)),
            enabled_servers <= i,
            running_servers <= i,
            crate::name_map::texts(failed_servers@) == failed_names(all.take(i as int)),
        decreases n - i,
    {
        let status = snapshot.statuses.value_at(i);
        assert(all.take(i + 1).drop_last() =~= all.take(i as int));
        if status.enabled {
            enabled_servers = enabled_servers + 1;
        }
        if status.running {
            running_servers = running_servers + 1;
        }
        if status.error.is_some() {
            let ghost last = failed_servers@;
            failed_servers.push(status.name.clone());
            assert(crate::name_map::texts(failed_servers@) =~= crate::name_map::texts(last).push(
                status.name@,
            ));
        }
        i = i + 1;
    }
    assert(all.take(i as int) =~= all);
    ReloadSummary {
        configured_servers: n,
        enabled_servers,
        running_servers,
        exposed_child_tools: snapshot.routes.len(),
        failed_servers,
    }
}

/// One line for a route: its name, its child and the child's name for the tool.
pub open spec fn route_line(entry: (Seq<char>, ToolRoute)) -> Seq<char> {
    entry.0 + seq!['\0'] + entry.1.child@ + seq!['\0'] + entry.1.original_name@ + seq!['\n']
}

/// The lines of all routes, in the order of their names.
pub open spec fn route_lines(entries: Seq<(Seq<char>, ToolRoute)>) -> Seq<char>
    decreases entries.len(),
{
    if entries.len() == 0 {
        Seq::empty()
    } else {
        route_lines(entries.drop_last()) + route_line(entries.last())
    }
}

/// The fingerprint of the routes.
pub fn catalog_fingerprint(snapshot: &Snapshot) -> (r: String)
    ensures
        r@ == hex(sha256_of(encode_utf8(route_lines(snapshot.routes.listing())))),
{
    let n: usize = snapshot.routes.len();
    let ghost all = snapshot.routes.listing();
    let mut catalog = String::new();
    let mut i: usize = 0;
    assert(catalog@ =~= route_lines(all.take(0)));
    while i < n
        invariant
            i <= n,
            n == all.len(),
            all == snapshot.routes.listing(),
            catalog@ == route_lines(all.take(i as int)),
        decreases n - i,
    {
        let route = snapshot.routes.value_at(i);
        let ghost last = catalog@;
        catalog.append(snapshot.routes.key_at(i));
        catalog.push('\0');
        catalog.append(&route.child);
        catalog.push('\0');
        catalog.append(&route.original_name);
        catalog.push('\n');
        assert(all.take(i + 1).drop_last() =~= all.take(i as int));
        assert(catalog@ =~= last + route_line(all[i as int]));
        i = i + 1;
    }
    assert(all.take(i as int) =~= all);
    sha256_hex(catalog.as_str().as_bytes())
}

/// What the profile is known by: its name, or that there is none.
pub open spec fn profile_identity(mode: Mode) -> Seq<char> {
    match policy_in(mode) {
        None => "legacy"@,
        Some(config) => config.active_profile@,
    }
}

/// The fingerprint of the active profile.
pub fn profile_fingerprint(mode: &Mode) -> (r: String)
    ensures
        r@ == hex(sha256_of(encode_utf8(profile_identity(*mode)))),
{
    match active_profile_name(mode) {
        Some(profile) => sha256_hex(profile.as_bytes()),
        None => sha256_hex("legacy".as_bytes()),
    }
}

/// The views of tools and routes show every part of them.
pub proof fn law_tools_and_routes_are_shown_in_every_part(
    offered: ChildTool,
    tool: CatalogTool,
    route: ToolRoute,
)
    ensures
        offered@.name == offered.name@,
        match offered.description {
            None => offered@.description is None,
            Some(text) => offered@.description == Some(text@),
        },
        tool@.name == tool.name@,
        tool@.description == tool.description@,
        match tool.child {
            None => tool@.child is None,
            Some(child) => tool@.child == Some(child@),
        },
        tool@.place == tool.place,
        route@.child == route.child@,
        route@.original_name == route.original_name@,
{
}

/// The view of a running child shows every part of it, its tools one by one and in order.
pub proof fn law_children_are_shown_in_every_part(child: ChildEntry)
    ensures
        child@.config == child.config@,
        match child.command_signature {
            None => child@.command_signature is None,
            Some(signature) => child@.command_signature matches Some(state) && state.canonical_path
                == signature.canonical_path@ && state.len == signature.len && state.modified
                == signature.modified && state.device == signature.device && state.inode
                == signature.inode,
        },
        child@.tools.len() == child.tools@.len(),
        forall|i: int| 0 <= i < child.tools@.len() ==> child@.tools[i] == (#[trigger] child.tools@[i])@,
        child@.recovery == child.recovery@,
        child@.recovery_policy == child.recovery_policy,
{
}

/// The view of a condition shows every part of it.
pub proof fn law_conditions_are_shown_in_every_part(status: ChildStatus)
    ensures
        status@.name == status.name@,
        status@.enabled == status.enabled,
        status@.running == status.running,
        status@.command == status.command@,
        status@.source == status.source@,
        match status.tool_prefix {
            None => status@.tool_prefix is None,
            Some(prefix) => status@.tool_prefix == Some(prefix@),
        },
        status@.tool_count == status.tool_count,
        status@.timeout_ms == status.timeout_ms,
        status@.restart_policy == status.restart_policy,
        status@.generation == status.generation,
        status@.recovery_state == status.recovery_state,
        status@.consecutive_failures == status.consecutive_failures,
        status@.retry_at_ms == status.retry_at_ms,
        match status.error {
            None => status@.error is None,
            Some(error) => status@.error == Some(error@),
        },
{
}

/// The view of a catalog shows all of it: every tool in its place, and every route, child and condition under its name.
pub proof fn law_catalogs_are_shown_in_every_part(snapshot: Snapshot, name: Seq<char>)
    ensures
        snapshot@.tools.len() == snapshot.tools@.len(),
        forall|i: int| 0 <= i < snapshot.tools@.len() ==> snapshot@.tools[i] == (#[trigger] snapshot.tools@[i])@,
        snapshot@.routes.contains_key(name) == snapshot.routes@.contains_key(name),
        snapshot.routes@.contains_key(name) ==> snapshot@.routes[name] == snapshot.routes@[name]@,
        snapshot@.children.contains_key(name) == snapshot.children@.contains_key(name),
        snapshot.children@.contains_key(name) ==> snapshot@.children[name] == snapshot.children@[name]@,
        snapshot@.statuses.contains_key(name) == snapshot.statuses@.contains_key(name),
        snapshot.statuses@.contains_key(name) ==> snapshot@.statuses[name] == snapshot.statuses@[name]@,
{
}

/// The state of recovery that a condition shows is the recovery's, and nothing else of the condition changes.
pub proof fn law_conditions_show_the_state_of_recovery(status: Condition, recovery: Recovery)
    ensures
        ({
            let shown = status.with_recovery(recovery);
            &&& shown.generation == recovery.generation
            &&& shown.recovery_state == recovery.state
            &&& shown.consecutive_failures == recovery.consecutive_failures
            &&& shown.retry_at_ms == recovery.retry_at_ms
            &&& shown.name == status.name
            &&& shown.enabled == status.enabled
            &&& shown.running == status.running
            &&& shown.command == status.command
            &&& shown.source == status.source
            &&& shown.tool_prefix == status.tool_prefix
            &&& shown.tool_count == status.tool_count
            &&& shown.timeout_ms == status.timeout_ms
            &&& shown.restart_policy == status.restart_policy
            &&& shown.error == status.error
        }),
{
}

/// There are four tools of the gateway's own, each with its name and what it does, and no other name is one of theirs.
pub proof fn law_the_gateway_has_four_tools_of_its_own(name: Seq<char>)
    ensures
        builtins().len() == 4,
        builtins()[0].name == "gateway_list_servers"@,
        builtins()[0].description
            == "List configured child MCP servers, runtime status, and tool counts."@,
        builtins()[1].name == "gateway_reload"@,
        builtins()[1].description
            == "Reload servers.d, preserve healthy unchanged children, replace changed or stopped children, and refresh the exposed tool catalog."@,
        builtins()[2].name == "gateway_set_server_enabled"@,
        builtins()[2].description
            == "Persistently enable or disable one child MCP server and reload the gateway."@,
        builtins()[3].name == "gateway_read_artifact"@,
        builtins()[3].description
            == "Read a bounded base64 range from an explicitly enabled ephemeral Gateway artifact."@,
        forall|i: int| 0 <= i < 4 ==> (#[trigger] builtins()[i]).child is None,
        builtin_name(name) <==> exists|i: int| 0 <= i < 4 && (#[trigger] builtins()[i]).name == name,
        schema_of(name) is Some <==> builtin_name(name),
{
    if builtin_name(name) {
        if name == builtins()[0].name {
        } else if name == builtins()[1].name {
        } else if name == builtins()[2].name {
        } else {
            assert(name == builtins()[3].name);
        }
    }
}

/// What is told of a reload counts the conditions: those that are enabled, those that run, and by name those that have
/// an error, in the order of the names.
pub proof fn law_summaries_count_the_conditions(entries: Seq<(Seq<char>, ChildStatus)>)
    ensures
        enabled_count(entries) == entries.filter(
            |entry: (Seq<char>, ChildStatus)| entry.1.enabled,
        ).len(),
        running_count(entries) == entries.filter(
            |entry: (Seq<char>, ChildStatus)| entry.1.running,
        ).len(),
        failed_names(entries) == entries.filter(
            |entry: (Seq<char>, ChildStatus)| entry.1.error is Some,
        ).map_values(|entry: (Seq<char>, ChildStatus)| entry.1.name@),
    decreases entries.len(),
{
    reveal(Seq::filter);
    let failed = |entry: (Seq<char>, ChildStatus)| entry.1.error is Some;
    let name = |entry: (Seq<char>, ChildStatus)| entry.1.name@;
    if entries.len() == 0 {
        assert(entries.filter(failed).map_values(name) =~= Seq::<Seq<char>>::empty());
    } else {
        law_summaries_count_the_conditions(entries.drop_last());
        if failed(entries.last()) {
            assert(entries.filter(failed).map_values(name) =~= entries.drop_last().filter(
                failed,
            ).map_values(name).push(name(entries.last())));
        }
    }
}

/// What the fingerprint of a catalog is taken of holds every part of every route: each route adds a line with its name,
/// its child and the child's name for the tool.
pub proof fn law_the_fingerprint_holds_every_route(
    entries: Seq<(Seq<char>, ToolRoute)>,
    name: Seq<char>,
    route: ToolRoute,
)
    ensures
        route_lines(Seq::empty()) == Seq::<char>::empty(),
        route_lines(entries.push((name, route))) == route_lines(entries) + name.push('\0')
            + route.child@.push('\0') + route.original_name@.push('\n'),
{
    assert(entries.push((name, route)).drop_last() =~= entries);
    assert(route_lines(entries.push((name, route))) =~= route_lines(entries) + name.push('\0')
        + route.child@.push('\0') + route.original_name@.push('\n'));
}

/// A profile is known by its name, and where no policy governs by one fixed text.
pub proof fn law_profiles_are_known_by_their_names(mode: Mode)
    ensures
        match mode {
            Mode::LegacyCompat => profile_identity(mode) == "legacy"@,
            Mode::Strict(config) => profile_identity(mode) == config.active_profile@,
        },
{
}

} // verus!

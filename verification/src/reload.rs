//! A reload: a new catalog is drawn up child by child beside the one in use, and takes its place once it is whole.
use crate::catalog::{builtin_name, builtin_tools, builtins, children_in, listed, offers, optional_state, routes_in, statuses_in, Catalog, CatalogTool, ChildEntry, ChildStatus, ChildTool, Condition, ListedTool, OfferedTool, Route, RunningChild, Snapshot, ToolRoute};
use crate::clock;
use crate::config::{copy_optional, exposed_name, exposed_tool_name, exposes, law_configurations_agree_in_every_part, same_config, tool_is_exposed, ChildConfig, ConfigText};
use crate::config_files::{loaded_texts, CommandSignature, CommandState, LoadedConfig, LoadedText};
use crate::name_map::{lemma_map_of, map_of, name_set, names, texts, NameMap, NameSet};
use crate::names::{named_within, valid_tool_name, MAX_TOOL_NAME};
use crate::policy::{catalog_misfit, permits, permitted, policy_in, sets_of, validate_catalog, CatalogError, Misfit, Mode, NamesByChild};
use crate::recovery::{policy_of, ChildRecovery, Policy, Recovery, State};
use crate::text::{glue, same};
use vstd::prelude::*;

verus! {

/// Why a reload was given up.
#[derive(Debug)]
pub enum ReloadError {
    InvalidName(String, String),
    DuplicateName(String),
    CannotRetain(String),
    Policy(CatalogError),
}

pub enum ReloadFault {
    InvalidName(Seq<char>, Seq<char>),
    DuplicateName(Seq<char>),
    CannotRetain(Seq<char>),
    Policy(Misfit),
}

impl View for ReloadError {
    type V = ReloadFault;

    open spec fn view(&self) -> ReloadFault {
        match self {
            ReloadError::InvalidName(child, name) => ReloadFault::InvalidName(child@, name@),
            ReloadError::DuplicateName(name) => ReloadFault::DuplicateName(name@),
            ReloadError::CannotRetain(child) => ReloadFault::CannotRetain(child@),
            ReloadError::Policy(error) => ReloadFault::Policy(error@),
        }
    }
}

impl ReloadFault {
    pub open spec fn text(self) -> Seq<char> {
        match self {
            ReloadFault::InvalidName(child, name) => "child '"@ + child
                + "' produced invalid exposed tool name '"@ + name + "'"@,
            ReloadFault::DuplicateName(name) => "duplicate exposed tool name '"@ + name
                + "'; set tool_prefix on one child"@,
            ReloadFault::CannotRetain(child) => "cannot retain last known good child '"@ + child
                + "' after candidate failure"@,
            ReloadFault::Policy(misfit) => misfit.text(),
        }
    }
}

impl ReloadError {
    pub fn message(&self) -> (r: String)
        ensures
            r@ == self@.text(),
    {
        match self {
            ReloadError::InvalidName(child, name) => glue(
                &glue(
                    &glue(&glue("child '", child), "' produced invalid exposed tool name '"),
                    name,
                ),
                "'",
            ),
            ReloadError::DuplicateName(name) => glue(
                &glue("duplicate exposed tool name '", name),
                "'; set tool_prefix on one child",
            ),
            ReloadError::CannotRetain(child) => glue(
                &glue("cannot retain last known good child '", child),
                "' after candidate failure",
            ),
            ReloadError::Policy(error) => error.message(),
        }
    }
}

/// What is done about a configured child.
#[derive(Debug, Clone, Copy, PartialEq, Eq, Structural)]
pub enum Plan {
    Skip,
    Reuse,
    Start,
}

/// The running child serves on: its configuration and its executable are unchanged, and it can be reached.
pub open spec fn reusable(
    children: Map<Seq<char>, RunningChild>,
    config: ConfigText,
    signature: Option<CommandState>,
    closed: bool,
) -> bool {
    &&& children.contains_key(config.name)
    &&& children[config.name].config == config
    &&& !closed
    &&& signature is Some
    &&& children[config.name].command_signature == signature
}

/// A running child serves on exactly if nothing of what it runs under has changed: neither its configuration, in any
/// part, nor its executable; and if it can be reached.
pub proof fn law_only_unchanged_children_serve_on(
    children: Map<Seq<char>, RunningChild>,
    config: ConfigText,
    signature: Option<CommandState>,
    closed: bool,
)
    ensures
        reusable(children, config, signature, closed) <==> ({
            let running = children[config.name];
            &&& children.contains_key(config.name)
            &&& running.config.name == config.name
            &&& running.config.enabled == config.enabled
            &&& running.config.command == config.command
            &&& running.config.args == config.args
            &&& running.config.env == config.env
            &&& running.config.tool_prefix == config.tool_prefix
            &&& running.config.tool_allowlist == config.tool_allowlist
            &&& running.config.timeout_ms == config.timeout_ms
            &&& running.config.restart == config.restart
            &&& !closed
            &&& running.command_signature is Some
            &&& signature is Some
            &&& running.command_signature->0 == signature->0
        }),
{
    assert(children[config.name].config =~= config <==> children[config.name].config == config);
}

/// A running child serves on under one configuration and with one state of its executable only.
pub proof fn law_a_child_serves_on_under_one_configuration(
    children: Map<Seq<char>, RunningChild>,
    config: ConfigText,
    signature: Option<CommandState>,
    other: ConfigText,
    other_signature: Option<CommandState>,
)
    requires
        config.name == other.name,
        reusable(children, config, signature, false),
        reusable(children, other, other_signature, false),
    ensures
        config == other,
        signature == other_signature,
{
}

/// What to do about a configured child. `signature` is that of its executable now, `closed` tells whether the child
/// that runs under its name can not be reached any more.
pub fn plan_child(
    previous: &Snapshot,
    config: &ChildConfig,
    signature: &Option<CommandSignature>,
    closed: bool,
) -> (r: Plan)
    ensures
        r == if !config.enabled {
            Plan::Skip
        } else if reusable(previous@.children, config@, optional_state(*signature), closed) {
            Plan::Reuse
        } else {
            Plan::Start
        },
        r == Plan::Skip <==> !config.enabled,
        r == Plan::Reuse <==> config.enabled && !closed && previous.children@.contains_key(
            config.name@,
        ) && ({
            let running = previous.children@[config.name@].config;
            &&& running.name@ == config.name@
            &&& running.enabled == config.enabled
            &&& running.command@ == config.command@
            &&& running.args@.len() == config.args@.len()
            &&& forall|i: int|
                0 <= i < running.args@.len() ==> (#[trigger] running.args@[i])@ == config.args@[i]@
            &&& running.env.listing().len() == config.env.listing().len()
            &&& forall|i: int|
                0 <= i < running.env.listing().len() ==> (#[trigger] running.env.listing()[i]).0
                    == config.env.listing()[i].0 && running.env.listing()[i].1@ == config.env.listing()[i].1@
            &&& match (running.tool_prefix, config.tool_prefix) {
                (None, None) => true,
                (Some(x), Some(y)) => x@ == y@,
                _ => false,
            }
            &&& running.tool_allowlist@.len() == config.tool_allowlist@.len()
            &&& forall|i: int|
                0 <= i < running.tool_allowlist@.len() ==> (#[trigger] running.tool_allowlist@[i])@
                    == config.tool_allowlist@[i]@
            &&& running.timeout_ms == config.timeout_ms
            &&& running.restart.policy == config.restart.policy
        }) && (match (previous.children@[config.name@].command_signature, *signature) {
            (Some(then), Some(now)) => {
                    &&& then.canonical_path@ == now.canonical_path@
                    &&& then.len == now.len
                    &&& then.modified == now.modified
                    &&& then.device == now.device
                    &&& then.inode == now.inode
            },
            _ => false,
        }),
{
    proof {
        if previous.children@.contains_key(config.name@) {
            law_configurations_agree_in_every_part(
                previous.children@[config.name@].config,
                *config,
            );
        }
    }
    if !config.enabled {
        return Plan::Skip;
    }
    match previous.children.get(&config.name) {
        None => Plan::Start,
        Some(child) => {
            let unchanged = match (signature, &child.command_signature) {
                (Some(now), Some(then)) => then.same_as(now),
                (None, Some(_)) => false,
                (Some(_), None) => false,
                (None, None) => false,
            };
            if same_config(&child.config, config) && !closed && unchanged {
                Plan::Reuse
            } else {
                Plan::Start
            }
        },
    }
}

/// A new catalog as far as it is drawn up, with the children taken over from the one in use, and the names taken.
#[verifier::ext_equal]
pub struct Draft {
    pub catalog: Catalog,
    pub reused: Set<Seq<char>>,
    pub names: Set<Seq<char>>,
}

impl Draft {
    /// The new catalog at the start: the gateway's own tools.
    pub open spec fn initial() -> Draft {
        Draft {
            catalog: Catalog { tools: builtins(), ..Catalog::empty() },
            reused: Set::empty(),
            names: Set::new(|name: Seq<char>| builtin_name(name)),
        }
    }

    pub open spec fn with_status(self, name: Seq<char>, status: Condition) -> Draft {
        Draft {
            catalog: Catalog {
                statuses: self.catalog.statuses.insert(name, status),
                ..self.catalog
            },
            ..self
        }
    }
}

/// How a configured child fares before anything is known of it.
pub open spec fn blank_status(item: LoadedText) -> Condition {
    Condition {
        name: item.config.name,
        enabled: item.config.enabled,
        running: false,
        command: item.config.command,
        source: item.source,
        tool_prefix: item.config.tool_prefix,
        tool_count: 0,
        timeout_ms: item.config.timeout_ms,
        restart_policy: item.config.restart.policy,
        generation: 0,
        recovery_state: State::Restarting,
        consecutive_failures: 0,
        retry_at_ms: None,
        error: None,
    }
}

fn new_status(item: &LoadedConfig) -> (r: ChildStatus)
    ensures
        r@ == blank_status(item@),
{
    ChildStatus {
        name: item.config.name.clone(),
        enabled: item.config.enabled,
        running: false,
        command: item.config.command.clone(),
        source: item.source.clone(),
        tool_prefix: copy_optional(&item.config.tool_prefix),
        tool_count: 0,
        timeout_ms: item.config.timeout_ms,
        restart_policy: item.config.restart.policy,
        generation: 0,
        recovery_state: State::Restarting,
        consecutive_failures: 0,
        retry_at_ms: None,
        error: None,
    }
}

/// The tool is to be exposed: the child's allowlist lets it through, and so does the policy.
pub open spec fn visible(config: ConfigText, mode: Mode, tool: Seq<char>) -> bool {
    exposes(config, tool) && permits(mode, config.name, tool)
}

pub open spec fn has_name(tools: Seq<ListedTool>, name: Seq<char>) -> bool {
    exists|i: int| 0 <= i < tools.len() && (#[trigger] tools[i]).name == name
}

/// The exposed form of the tool at a place of a child's offer.
pub open spec fn exposed_tool(config: ConfigText, tool: OfferedTool, place: int) -> ListedTool {
    ListedTool {
        name: exposed_name(config, tool.name),
        description: "["@ + config.name + "] "@ + (match tool.description {
            None => "Child MCP tool"@,
            Some(description) => description,
        }),
        child: Some(config.name),
        place,
    }
}

/// The tools of a child that are exposed, up to the first whose name is no tool name or is taken.
pub open spec fn exposure(
    config: ConfigText,
    mode: Mode,
    tools: Seq<OfferedTool>,
    names: Set<Seq<char>>,
) -> Result<Seq<ListedTool>, ReloadFault>
    decreases tools.len(),
{
    if tools.len() == 0 {
        Ok(Seq::empty())
    } else {
        match exposure(config, mode, tools.drop_last(), names) {
            Err(fault) => Err(fault),
            Ok(done) => {
                let name = exposed_name(config, tools.last().name);
                if !visible(config, mode, tools.last().name) {
                    Ok(done)
                } else if !named_within(name, MAX_TOOL_NAME as int) {
                    Err(ReloadFault::InvalidName(config.name, name))
                } else if names.contains(name) || has_name(done, name) {
                    Err(ReloadFault::DuplicateName(name))
                } else {
                    Ok(done.push(exposed_tool(config, tools.last(), tools.len() - 1)))
                }
            },
        }
    }
}

/// The routes with those of the exposed tools of one child.
pub open spec fn routed(
    routes: Map<Seq<char>, Route>,
    exposed: Seq<ListedTool>,
    tools: Seq<OfferedTool>,
    child: Seq<char>,
) -> Map<Seq<char>, Route>
    decreases exposed.len(),
{
    if exposed.len() == 0 {
        routes
    } else {
        routed(routes, exposed.drop_last(), tools, child).insert(
            exposed.last().name,
            Route { child, original_name: tools[exposed.last().place].name },
        )
    }
}

/// The names taken, with those of the exposed tools.
pub open spec fn claimed(names: Set<Seq<char>>, exposed: Seq<ListedTool>) -> Set<Seq<char>>
    decreases exposed.len(),
{
    if exposed.len() == 0 {
        names
    } else {
        claimed(names, exposed.drop_last()).insert(exposed.last().name)
    }
}

pub open spec fn offered_by(tools: Seq<OfferedTool>, name: Seq<char>) -> bool {
    exists|i: int| 0 <= i < tools.len() && (#[trigger] tools[i]).name == name
}

/// The first name of an allowlist that the child does not offer, if there is one.
pub open spec fn missing(allowlist: Seq<Seq<char>>, tools: Seq<OfferedTool>) -> Option<Seq<char>>
    decreases allowlist.len(),
{
    if allowlist.len() == 0 {
        None
    } else if missing(allowlist.drop_last(), tools) is Some {
        missing(allowlist.drop_last(), tools)
    } else if !offered_by(tools, allowlist.last()) {
        Some(allowlist.last())
    } else {
        None
    }
}

/// The child with the recovery policy that now governs it, if one does.
pub open spec fn governed(child: RunningChild, mode: Mode) -> RunningChild {
    match policy_in(mode) {
        Some(config) if config.children@.contains_key(child.config.name) => RunningChild {
            recovery_policy: Some(policy_of(config.children@[child.config.name].restart)),
            ..child
        },
        _ => child,
    }
}

/// A child that was started, in place of one that had stopped where there was one.
pub open spec fn started(
    config: ConfigText,
    signature: Option<CommandState>,
    tools: Seq<OfferedTool>,
    now_ms: u64,
    stopped: Option<RunningChild>,
) -> RunningChild {
    RunningChild {
        config,
        command_signature: signature,
        tools,
        recovery: match stopped {
            None => Recovery::initial().promoted(now_ms),
            Some(child) => child.recovery.promoted(now_ms),
        },
        recovery_policy: match stopped {
            None => None,
            Some(child) => child.recovery_policy,
        },
    }
}

/// The new catalog with a running child, and whether the child serves on.
pub open spec fn with_child(
    draft: Draft,
    item: LoadedText,
    child: RunningChild,
    reused: bool,
    mode: Mode,
) -> Result<(Draft, bool), ReloadFault> {
    let name = item.config.name;
    let status = blank_status(item).with_recovery(child.recovery);
    match missing(item.config.tool_allowlist, child.tools) {
        Some(tool) => Ok(
            (
                draft.with_status(
                    name,
                    Condition {
                        error: Some(
                            "tool_allowlist references unknown child tool '"@ + tool + "'"@,
                        ),
                        ..status
                    },
                ),
                false,
            ),
        ),
        None => match exposure(item.config, mode, child.tools, draft.names) {
            Err(fault) => Err(fault),
            Ok(exposed) => Ok(
                (
                    Draft {
                        catalog: Catalog {
                            tools: draft.catalog.tools + exposed,
                            routes: routed(draft.catalog.routes, exposed, child.tools, name),
                            children: draft.catalog.children.insert(name, child),
                            statuses: draft.catalog.statuses.insert(
                                name,
                                Condition {
                                    running: true,
                                    tool_count: exposed.len() as int,
                                    ..status
                                },
                            ),
                        },
                        reused: if reused {
                            draft.reused.insert(name)
                        } else {
                            draft.reused
                        },
                        names: claimed(draft.names, exposed),
                    },
                    true,
                ),
            ),
        },
    }
}

/// The routes that lead to a child.
pub open spec fn routes_of(routes: Map<Seq<char>, Route>, child: Seq<char>) -> Map<Seq<char>, Route> {
    routes.restrict(
        Set::new(|name: Seq<char>| routes.contains_key(name) && routes[name].child == child),
    )
}

pub open spec fn leads_to_child(routes: Map<Seq<char>, Route>, child: Seq<char>) -> spec_fn(
    ListedTool,
) -> bool {
    |tool: ListedTool| routes.contains_key(tool.name) && routes[tool.name].child == child
}

/// The tools of the catalog in use whose calls go to a child.
pub open spec fn tools_of(catalog: Catalog, child: Seq<char>) -> Seq<ListedTool> {
    catalog.tools.filter(leads_to_child(catalog.routes, child))
}

/// The new catalog with a child of the catalog in use, because its replacement could not be started.
pub open spec fn with_retained(draft: Draft, previous: Catalog, item: LoadedText, error: Seq<char>) -> Result<
    Draft,
    ReloadFault,
> {
    let name = item.config.name;
    let child = previous.children[name];
    let routes = routes_of(previous.routes, name);
    let tools = tools_of(previous, name);
    if tools.len() != routes.len() || exists|n: Seq<char>| #[trigger]
        routes.contains_key(n) && draft.names.contains(n) {
        Err(ReloadFault::CannotRetain(name))
    } else {
        let status = blank_status(item).with_recovery(child.recovery);
        Ok(
            Draft {
                catalog: Catalog {
                    tools: draft.catalog.tools + tools,
                    routes: draft.catalog.routes.union_prefer_right(routes),
                    children: draft.catalog.children.insert(name, child),
                    statuses: draft.catalog.statuses.insert(
                        name,
                        Condition {
                            enabled: child.config.enabled,
                            running: true,
                            command: child.config.command,
                            tool_prefix: child.config.tool_prefix,
                            tool_count: tools.len() as int,
                            timeout_ms: child.config.timeout_ms,
                            restart_policy: child.config.restart.policy,
                            error: Some(
                                "candidate replacement failed; retaining last known good generation: "@
                                    + error,
                            ),
                            ..status
                        },
                    ),
                },
                reused: draft.reused.insert(name),
                names: draft.names.union(routes.dom()),
            },
        )
    }
}

/// The catalog in use after a replacement of one of its children could not be started at the time `now_ms`:
/// where the child had stopped and a policy governs its recovery, that is one more failure.
pub open spec fn after_failure(previous: Catalog, name: Seq<char>, closed: bool, now_ms: u64) -> Catalog {
    if previous.children.contains_key(name) && closed
        && previous.children[name].recovery_policy is Some {
        let child = previous.children[name];
        Catalog {
            children: previous.children.insert(
                name,
                RunningChild {
                    recovery: child.recovery.failed(now_ms, child.recovery_policy->0),
                    ..child
                },
            ),
            ..previous
        }
    } else {
        previous
    }
}

/// The new catalog after a child could not be started. `previous` is the catalog in use after the failure.
pub open spec fn with_failure(
    draft: Draft,
    previous: Catalog,
    item: LoadedText,
    error: Seq<char>,
    closed: bool,
) -> Result<Draft, ReloadFault> {
    let name = item.config.name;
    if previous.children.contains_key(name) && !closed {
        with_retained(draft, previous, item, error)
    } else {
        let blank = blank_status(item);
        let status = if previous.children.contains_key(name)
            && previous.children[name].recovery_policy is Some {
            blank.with_recovery(previous.children[name].recovery)
        } else {
            blank
        };
        Ok(draft.with_status(name, Condition { error: Some(error), ..status }))
    }
}

/// The catalog in use after one of its children was taken over: the recovery policy that now governs the child
/// holds there, too.
pub open spec fn after_reuse(previous: Catalog, name: Seq<char>, mode: Mode) -> Catalog {
    Catalog {
        children: previous.children.insert(name, governed(previous.children[name], mode)),
        ..previous
    }
}

/// What was learnt of a child that was started.
#[derive(Debug)]
pub struct Started {
    pub command_signature: Option<CommandSignature>,
    pub tools: Vec<ChildTool>,
}

/// A new catalog as far as it is drawn up.
#[derive(Debug)]
pub struct Reload {
    mode: Mode,
    next: Snapshot,
    reused: NameSet,
    tool_names: NameSet,
}

impl View for Reload {
    type V = Draft;

    closed spec fn view(&self) -> Draft {
        Draft { catalog: self.next@, reused: self.reused@, names: self.tool_names@ }
    }
}

/// A reload that was given up: why, and which of the children that it started are to be stopped.
#[derive(Debug)]
pub struct Abandoned {
    pub error: ReloadError,
    pub cancel: Vec<String>,
}

/// The names, in their order, that are not among those to keep.
pub open spec fn not_kept(entries: Seq<(Seq<char>, ChildEntry)>, keep: Set<Seq<char>>) -> Seq<
    Seq<char>,
>
    decreases entries.len(),
{
    if entries.len() == 0 {
        Seq::empty()
    } else if keep.contains(entries.last().0) {
        not_kept(entries.drop_last(), keep)
    } else {
        not_kept(entries.drop_last(), keep).push(entries.last().0)
    }
}

/// The children that are to be stopped: those that are not kept.
pub fn cancel_snapshot_except(children: &NameMap<ChildEntry>, keep: &NameSet) -> (r: Vec<String>)
    ensures
        texts(r@) == not_kept(children.listing(), keep@),
{
    let n: usize = children.len();
    let ghost all = children.listing();
    let mut out: Vec<String> = Vec::new();
    let mut i: usize = 0;
    assert(texts(out@) =~= not_kept(all.take(0), keep@));
    while i < n
        invariant
            i <= n,
            n == all.len(),
            all == children.listing(),
            texts(out@) == not_kept(all.take(i as int), keep@),
        decreases n - i,
    {
        let name = children.key_at(i);
        assert(all.take(i + 1).drop_last() =~= all.take(i as int));
        if !keep.contains(name) {
            let ghost last = out@;
            out.push(name.clone());
            assert(texts(out@) =~= texts(last).push(name@));
        }
        i = i + 1;
    }
    assert(all.take(i as int) =~= all);
    out
}

/// A child is stopped if and only if it is not kept.
pub proof fn law_exactly_what_is_not_kept_is_stopped(
    children: NameMap<ChildEntry>,
    keep: Set<Seq<char>>,
    name: Seq<char>,
)
    requires
        children.well_ordered(),
    ensures
        not_kept(children.listing(), keep).contains(name) <==> children@.contains_key(name)
            && !keep.contains(name),
{
    lemma_map_of(children.listing());
    lemma_not_kept(children.listing(), keep, name);
}

proof fn lemma_not_kept(
    entries: Seq<(Seq<char>, ChildEntry)>,
    keep: Set<Seq<char>>,
    name: Seq<char>,
)
    ensures
        not_kept(entries, keep).contains(name) <==> names(entries, name) && !keep.contains(name),
    decreases entries.len(),
{
    if entries.len() > 0 {
        let rest = entries.drop_last();
        lemma_not_kept(rest, keep, name);
        let all = not_kept(entries, keep);
        let part = not_kept(rest, keep);
        if all.contains(name) {
            let i = choose|i: int| 0 <= i < all.len() && all[i] == name;
            if i < part.len() {
                assert(part[i] == name);
                let j = choose|j: int| 0 <= j < rest.len() && #[trigger] rest[j].0 == name;
                assert(entries[j].0 == name);
            } else {
                assert(entries[entries.len() - 1].0 == name);
            }
        }
        if names(entries, name) && !keep.contains(name) {
            let j = choose|j: int| 0 <= j < entries.len() && #[trigger] entries[j].0 == name;
            if j < rest.len() {
                assert(rest[j].0 == name);
                let i = choose|i: int| 0 <= i < part.len() && part[i] == name;
                assert(all[i] == name);
            } else {
                assert(all[all.len() - 1] == name);
            }
        }
    }
}

proof fn lemma_missing_stays(allowlist: Seq<Seq<char>>, tools: Seq<OfferedTool>, n: int)
    requires
        0 <= n <= allowlist.len(),
        missing(allowlist.take(n), tools) is Some,
    ensures
        missing(allowlist, tools) == missing(allowlist.take(n), tools),
    decreases allowlist.len() - n,
{
    if n < allowlist.len() {
        assert(allowlist.take(n + 1).drop_last() =~= allowlist.take(n));
        lemma_missing_stays(allowlist, tools, n + 1);
    } else {
        assert(allowlist.take(n) =~= allowlist);
    }
}

fn offers_tool(tools: &Vec<ChildTool>, name: &str) -> (r: bool)
    ensures
        r == offered_by(offers(tools@), name@),
{
    let mut i: usize = 0;
    while i < tools.len()
        invariant
            i <= tools.len(),
            forall|j: int| 0 <= j < i ==> (#[trigger] offers(tools@)[j]).name != name@,
        decreases tools.len() - i,
    {
        if same(&tools[i].name, name) {
            assert(offers(tools@)[i as int].name == name@);
            return true;
        }
        i = i + 1;
    }
    false
}

fn first_missing(allowlist: &Vec<String>, tools: &Vec<ChildTool>) -> (r: Option<String>)
    ensures
        r is Some <==> missing(texts(allowlist@), offers(tools@)) is Some,
        r matches Some(name) ==> missing(texts(allowlist@), offers(tools@)) == Some(name@),
{
    let ghost all = texts(allowlist@);
    let mut i: usize = 0;
    while i < allowlist.len()
        invariant
            i <= allowlist.len(),
            all == texts(allowlist@),
            missing(all.take(i as int), offers(tools@)) is None,
        decreases allowlist.len() - i,
    {
        assert(all.take(i + 1).drop_last() =~= all.take(i as int));
        if !offers_tool(tools, &allowlist[i]) {
            proof {
                lemma_missing_stays(all, offers(tools@), i + 1);
            }
            return Some(allowlist[i].clone());
        }
        i = i + 1;
    }
    assert(all.take(i as int) =~= all);
    None
}

proof fn lemma_exposure_fault_stays(
    config: ConfigText,
    mode: Mode,
    tools: Seq<OfferedTool>,
    names: Set<Seq<char>>,
    n: int,
)
    requires
        0 <= n <= tools.len(),
        exposure(config, mode, tools.take(n), names) is Err,
    ensures
        exposure(config, mode, tools, names) == exposure(config, mode, tools.take(n), names),
    decreases tools.len() - n,
{
    if n < tools.len() {
        assert(tools.take(n + 1).drop_last() =~= tools.take(n));
        lemma_exposure_fault_stays(config, mode, tools, names, n + 1);
    } else {
        assert(tools.take(n) =~= tools);
    }
}

/// The names taken while a child's tools are exposed: those before, and those of the exposed tools.
pub proof fn lemma_claimed(names: Set<Seq<char>>, exposed: Seq<ListedTool>, name: Seq<char>)
    ensures
        claimed(names, exposed).contains(name) <==> names.contains(name) || has_name(exposed, name),
    decreases exposed.len(),
{
    if exposed.len() > 0 {
        let rest = exposed.drop_last();
        lemma_claimed(names, rest, name);
        if has_name(rest, name) {
            let i = choose|i: int| 0 <= i < rest.len() && (#[trigger] rest[i]).name == name;
            assert(exposed[i].name == name);
        }
        if exposed.last().name == name {
            assert(exposed[exposed.len() - 1].name == name);
        }
        if has_name(exposed, name) {
            let i = choose|i: int| 0 <= i < exposed.len() && (#[trigger] exposed[i]).name == name;
            if i < rest.len() {
                assert(rest[i].name == name);
            }
        }
    }
}

fn describe(config: &ChildConfig, tool: &ChildTool) -> (r: String)
    ensures
        r@ == "["@ + config@.name + "] "@ + (match tool@.description {
            None => "Child MCP tool"@,
            Some(description) => description,
        }),
{
    let head = glue(&glue("[", &config.name), "] ");
    match &tool.description {
        Some(description) => glue(&head, description),
        None => glue(&head, "Child MCP tool"),
    }
}

/// Exposes the tools of a child: their entries go behind the tools, their routes among the routes, and their names
/// are taken.
fn expose(
    config: &ChildConfig,
    mode: &Mode,
    offered: &Vec<ChildTool>,
    tools: &mut Vec<CatalogTool>,
    routes: &mut NameMap<ToolRoute>,
    tool_names: &mut NameSet,
) -> (r: Result<usize, ReloadError>)
    ensures
        match exposure(config@, *mode, offers(offered@), old(tool_names)@) {
            Err(fault) => r matches Err(e) && e@ == fault,
            Ok(exposed) => {
                &&& r == Ok::<usize, ReloadError>(exposed.len() as usize)
                &&& exposed.len() <= usize::MAX
                &&& listed(final(tools)@) == listed(old(tools)@) + exposed
                &&& routes_in(final(routes)@) == routed(
                    routes_in(old(routes)@),
                    exposed,
                    offers(offered@),
                    config@.name,
                )
                &&& final(tool_names)@ == claimed(old(tool_names)@, exposed)
            },
        },
{
    let ghost all = offers(offered@);
    let ghost names0 = tool_names@;
    let ghost tools0 = listed(tools@);
    let ghost routes0 = routes_in(routes@);
    let ghost mut done = Seq::<ListedTool>::empty();
    let mut count: usize = 0;
    let mut i: usize = 0;
    assert(listed(tools@) =~= tools0 + done);
    while i < offered.len()
        invariant
            i <= offered.len(),
            all == offers(offered@),
            names0 == old(tool_names)@,
            tools0 == listed(old(tools)@),
            routes0 == routes_in(old(routes)@),
            exposure(config@, *mode, all.take(i as int), names0) == Ok::<
                Seq<ListedTool>,
                ReloadFault,
            >(done),
            count == done.len(),
            count <= i,
            listed(tools@) == tools0 + done,
            routes_in(routes@) == routed(routes0, done, all, config@.name),
            tool_names@ == claimed(names0, done),
        decreases offered.len() - i,
    {
        let tool = &offered[i];
        let ghost upto = all.take(i + 1);
        proof {
            assert(upto.drop_last() =~= all.take(i as int));
            assert(upto.last() == tool@);
        }
        if tool_is_exposed(config, &tool.name) && permitted(mode, &config.name, &tool.name) {
            let exposed_name = exposed_tool_name(config, &tool.name);
            if !valid_tool_name(&exposed_name) {
                proof {
                    lemma_exposure_fault_stays(config@, *mode, all, names0, i + 1);
                }
                return Err(ReloadError::InvalidName(config.name.clone(), exposed_name));
            }
            proof {
                lemma_claimed(names0, done, exposed_name@);
            }
            if !tool_names.insert(exposed_name.clone()) {
                proof {
                    lemma_exposure_fault_stays(config@, *mode, all, names0, i + 1);
                }
                return Err(ReloadError::DuplicateName(exposed_name));
            }
            let entry = CatalogTool {
                name: exposed_name.clone(),
                description: describe(config, tool),
                child: Some(config.name.clone()),
                place: i,
            };
            let ghost text = entry@;
            assert(text == exposed_tool(config@, tool@, i as int));
            let ghost tools_before = tools@;
            let ghost routes_before = routes@;
            let route = ToolRoute {
                child: config.name.clone(),
                original_name: tool.name.clone(),
            };
            let ghost route_text = route@;
            tools.push(entry);
            routes.insert(exposed_name, route);
            count = count + 1;
            proof {
                let next = done.push(text);
                assert(next.drop_last() =~= done);
                assert(listed(tools@) =~= listed(tools_before).push(text));
                assert(listed(tools@) =~= tools0 + next);
                assert(routes_in(routes@) =~= routes_in(routes_before).insert(
                    text.name,
                    route_text,
                ));
                done = next;
            }
        }
        i = i + 1;
    }
    assert(all.take(i as int) =~= all);
    Ok(count)
}

impl Reload {
    /// The policy that the new catalog is drawn up under.
    pub closed spec fn governing(self) -> Mode {
        self.mode
    }

    /// The children of the new catalog, in the order of their names.
    pub closed spec fn child_entries(self) -> Seq<(Seq<char>, ChildEntry)> {
        self.next.children.listing()
    }

    /// What is said of a reload that was given up with the new catalog as far as this.
    pub open spec fn gives_up(self, abandoned: Abandoned, fault: ReloadFault) -> bool {
        &&& abandoned.error@ == fault
        &&& texts(abandoned.cancel@) == not_kept(self.child_entries(), self@.reused)
    }

    /// What comes of taking up a child that was started at the time `now_ms`.
    pub open spec fn takes_up(
        self,
        previous: Catalog,
        item: LoadedText,
        found: Started,
        closed: bool,
        now_ms: u64,
        r: Result<(Reload, bool), Abandoned>,
    ) -> bool {
        let stopped = if previous.children.contains_key(item.config.name) && closed {
            Some(previous.children[item.config.name])
        } else {
            None
        };
        let child = started(
            item.config,
            optional_state(found.command_signature),
            offers(found.tools@),
            now_ms,
            stopped,
        );
        match with_child(
            self@,
            item,
            governed(child, self.governing()),
            false,
            self.governing(),
        ) {
            Ok(drawn) => r matches Ok(result) && result.0@ == drawn.0 && result.1 == drawn.1
                && result.0.governing() == self.governing(),
            Err(fault) => r matches Err(abandoned) && self.gives_up(abandoned, fault),
        }
    }

    /// What comes of a failure to start a child at the time `now_ms`, in the catalog in use and in the new one.
    pub open spec fn notes_failure(
        self,
        before: Catalog,
        after: Catalog,
        item: LoadedText,
        error: Seq<char>,
        closed: bool,
        now_ms: u64,
        r: Result<Reload, Abandoned>,
    ) -> bool {
        &&& after == after_failure(before, item.config.name, closed, now_ms)
        &&& match with_failure(self@, after, item, error, closed) {
            Ok(drawn) => r matches Ok(result) && result@ == drawn && result.governing()
                == self.governing(),
            Err(fault) => r matches Err(abandoned) && self.gives_up(abandoned, fault),
        }
    }

    /// A new catalog, under this policy, with the gateway's own tools.
    pub fn new(mode: Mode) -> (r: Self)
        ensures
            r@ == Draft::initial(),
            r.governing() == mode,
    {
        let mut next = Snapshot::default();
        next.tools = builtin_tools();
        let mut tool_names = NameSet::new();
        let mut i: usize = 0;
        while i < next.tools.len()
            invariant
                i <= next.tools.len(),
                listed(next.tools@) == builtins(),
                forall|name: Seq<char>| #[trigger]
                    tool_names@.contains(name) <==> exists|j: int|
                        0 <= j < i && (#[trigger] builtins()[j]).name == name,
            decreases next.tools.len() - i,
        {
            assert(listed(next.tools@)[i as int].name == next.tools@[i as int].name@);
            let ghost last = tool_names@;
            tool_names.insert(next.tools[i].name.clone());
            assert forall|name: Seq<char>| #[trigger] tool_names@.contains(name) <==> exists|j: int|
                0 <= j < i + 1 && (#[trigger] builtins()[j]).name == name by {
                if last.contains(name) {
                    let j = choose|j: int| 0 <= j < i && (#[trigger] builtins()[j]).name == name;
                    assert(0 <= j < i + 1 && builtins()[j].name == name);
                }
                if name == builtins()[i as int].name {
                    assert(0 <= i < i + 1 && builtins()[i as int].name == name);
                }
            }
            i = i + 1;
        }
        let r = Reload { mode, next, reused: NameSet::new(), tool_names };
        proof {
            assert(listed(next.tools@).len() == 4);
            assert forall|name: Seq<char>| #[trigger]
                tool_names@.contains(name) <==> builtin_name(name) by {
                if builtin_name(name) {
                    assert(exists|j: int| 0 <= j < 4 && (#[trigger] builtins()[j]).name == name) by {
                        if name == builtins()[0].name {
                        } else if name == builtins()[1].name {
                        } else if name == builtins()[2].name {
                        } else {
                            assert(name == builtins()[3].name);
                        }
                    }
                }
            }
            assert(r@ =~= Draft::initial());
        }
        r
    }

    /// Notes a child that is not enabled.
    pub fn skip(self, item: &LoadedConfig) -> (r: Self)
        ensures
            r@ == self@.with_status(item@.config.name, blank_status(item@)),
            r.governing() == self.governing(),
            r.child_entries() == self.child_entries(),
    {
        let mut reload = self;
        let ghost before = reload.next.statuses@;
        let status = new_status(item);
        let ghost text = status@;
        reload.next.statuses.insert(item.config.name.clone(), status);
        assert(statuses_in(reload.next.statuses@) =~= statuses_in(before).insert(
            item@.config.name,
            text,
        ));
        assert(reload@ =~= self@.with_status(item@.config.name, blank_status(item@)));
        reload
    }

    fn give_up(self, error: ReloadError) -> (r: Abandoned)
        ensures
            self.gives_up(r, error@),
    {
        let cancel = cancel_snapshot_except(&self.next.children, &self.reused);
        Abandoned { error, cancel }
    }

    fn with_live(self, item: &LoadedConfig, child: ChildEntry, reused: bool) -> (r: Result<
        (Reload, bool),
        Abandoned,
    >)
        ensures
            match with_child(self@, item@, child@, reused, self.governing()) {
                Ok(drawn) => r matches Ok(result) && result.0@ == drawn.0 && result.1 == drawn.1
                    && result.0.governing() == self.governing(),
                Err(fault) => r matches Err(abandoned) && self.gives_up(abandoned, fault),
            },
    {
        let mut reload = self;
        let ghost name = item@.config.name;
        let ghost text = child@;
        let mut status = new_status(item);
        status.show_recovery(&child.recovery);
        if let Some(tool) = first_missing(&item.config.tool_allowlist, &child.tools) {
            let message = glue(
                &glue("tool_allowlist references unknown child tool '", &tool),
                "'",
            );
            status.error = Some(message);
            let ghost before = reload.next.statuses@;
            let ghost shown = status@;
            reload.next.statuses.insert(item.config.name.clone(), status);
            proof {
                assert(statuses_in(reload.next.statuses@) =~= statuses_in(before).insert(
                    name,
                    shown,
                ));
                assert(reload@ =~= self@.with_status(name, shown));
            }
            return Ok((reload, false));
        }
        let count: usize = match expose(
            &item.config,
            &reload.mode,
            &child.tools,
            &mut reload.next.tools,
            &mut reload.next.routes,
            &mut reload.tool_names,
        ) {
            Err(error) => {
                return Err(reload.give_up(error));
            },
            Ok(count) => count,
        };
        let ghost exposed = exposure(item@.config, self.governing(), text.tools, self@.names)->Ok_0;
        status.running = true;
        status.tool_count = count;
        let ghost statuses_before = reload.next.statuses@;
        let ghost children_before = reload.next.children@;
        let ghost shown = status@;
        reload.next.statuses.insert(item.config.name.clone(), status);
        reload.next.children.insert(item.config.name.clone(), child);
        if reused {
            reload.reused.insert(item.config.name.clone());
        }
        proof {
            assert(statuses_in(reload.next.statuses@) =~= statuses_in(statuses_before).insert(
                name,
                shown,
            ));
            assert(children_in(reload.next.children@) =~= children_in(children_before).insert(
                name,
                text,
            ));
            let drawn = with_child(self@, item@, text, reused, self.governing())->Ok_0;
            assert(reload@.catalog =~= drawn.0.catalog);
            assert(reload@ =~= drawn.0);
        }
        Ok((reload, true))
    }

    /// Takes over a child that runs unchanged. Tells whether it serves on.
    pub fn add_reused(self, previous: &mut Snapshot, item: &LoadedConfig) -> (r: Result<
        (Reload, bool),
        Abandoned,
    >)
        requires
            old(previous)@.children.contains_key(item@.config.name),
            old(previous)@.children[item@.config.name].config == item@.config,
        ensures
            final(previous)@ == after_reuse(old(previous)@, item@.config.name, self.governing()),
            match with_child(
                self@,
                item@,
                governed(old(previous)@.children[item@.config.name], self.governing()),
                true,
                self.governing(),
            ) {
                Ok(drawn) => r matches Ok(result) && result.0@ == drawn.0 && result.1 == drawn.1
                    && result.0.governing() == self.governing(),
                Err(fault) => r matches Err(abandoned) && self.gives_up(abandoned, fault),
            },
    {
        let ghost start = previous@;
        let ghost name = item@.config.name;
        let ghost before = previous.children@;
        let mut child = previous.children.remove(&item.config.name).unwrap();
        let ghost was = child@;
        child.recovery_policy = recovery_policy_for(
            &self.mode,
            &item.config.name,
            child.recovery_policy,
        );
        assert(child@ =~= governed(was, self.mode));
        let copy = child.clone();
        previous.children.insert(item.config.name.clone(), child);
        proof {
            assert(children_in(previous.children@) =~= children_in(before).insert(
                name,
                governed(was, self.mode),
            ));
            assert(previous@ =~= after_reuse(start, name, self.mode));
        }
        self.with_live(item, copy, true)
    }

    /// Takes up a child that was started at the time `now_ms`. `closed` tells whether a child that ran under its name
    /// has stopped. Tells whether it serves on; otherwise it is to be stopped again, as it is where the reload is
    /// given up.
    pub fn add_started_at(
        self,
        previous: &Snapshot,
        item: &LoadedConfig,
        found: Started,
        closed: bool,
        now_ms: u64,
    ) -> (r: Result<(Reload, bool), Abandoned>)
        requires
            closed && previous@.children.contains_key(item@.config.name)
                ==> previous@.children[item@.config.name].recovery.generation < u64::MAX,
        ensures
            self.takes_up(previous@, item@, found, closed, now_ms, r),
    {
        let ghost name = item@.config.name;
        let ghost stopped = if previous@.children.contains_key(name) && closed {
            Some(previous@.children[name])
        } else {
            None
        };
        let mut recovery = ChildRecovery::default();
        let mut recovery_policy: Option<Policy> = None;
        if closed {
            if let Some(last) = previous.children.get(&item.config.name) {
                assert(previous@.children[name] == last@);
                recovery = last.recovery;
                recovery_policy = last.recovery_policy;
            }
        }
        recovery.promote_candidate(now_ms);
        let ghost inherited = recovery_policy;
        let child = ChildEntry {
            config: item.config.clone(),
            command_signature: found.command_signature,
            tools: found.tools,
            recovery,
            recovery_policy: recovery_policy_for(&self.mode, &item.config.name, recovery_policy),
        };
        proof {
            let base = started(
                item@.config,
                optional_state(found.command_signature),
                offers(found.tools@),
                now_ms,
                stopped,
            );
            assert(child@ =~= governed(base, self.mode));
        }
        self.with_live(item, child, false)
    }
}

fn recovery_policy_for(mode: &Mode, child: &str, last: Option<Policy>) -> (r: Option<Policy>)
    ensures
        r == match policy_in(*mode) {
            Some(config) if config.children@.contains_key(child@) => Some(
                policy_of(config.children@[child@].restart),
            ),
            _ => last,
        },
{
    match mode {
        Mode::LegacyCompat => last,
        Mode::Strict(policy) => match policy.children.get(child) {
            None => last,
            Some(child_policy) => Some(Policy::from(&child_policy.restart)),
        },
    }
}

proof fn lemma_routes_of_grow(
    routes: Map<Seq<char>, Route>,
    name: Seq<char>,
    route: Route,
    child: Seq<char>,
)
    requires
        !routes.contains_key(name),
    ensures
        routes_of(routes.insert(name, route), child) == if route.child == child {
            routes_of(routes, child).insert(name, route)
        } else {
            routes_of(routes, child)
        },
{
    assert(routes_of(routes.insert(name, route), child) =~= if route.child == child {
        routes_of(routes, child).insert(name, route)
    } else {
        routes_of(routes, child)
    });
}

/// Takes over the routes of a child: they go among the routes, and their names are taken. Tells how many they are,
/// or nothing where one of the names is taken already.
fn take_over_routes(
    previous: &NameMap<ToolRoute>,
    child: &str,
    routes: &mut NameMap<ToolRoute>,
    tool_names: &mut NameSet,
) -> (r: Option<usize>)
    ensures
        ({
            let own = routes_of(routes_in(previous@), child@);
            let clash = exists|n: Seq<char>| #[trigger]
                own.contains_key(n) && old(tool_names)@.contains(n);
            &&& r is None <==> clash
            &&& r matches Some(count) ==> {
                &&& own.dom().finite()
                &&& count == own.len()
                &&& routes_in(final(routes)@) == routes_in(old(routes)@).union_prefer_right(own)
                &&& final(tool_names)@ == old(tool_names)@.union(own.dom())
            }
        }),
{
    let n: usize = previous.len();
    let ghost all = previous.listing();
    let ghost names0 = tool_names@;
    let ghost routes0 = routes_in(routes@);
    let ghost mut own = Map::<Seq<char>, Route>::empty();
    let mut count: usize = 0;
    let mut i: usize = 0;
    proof {
        use_type_invariant(previous);
        lemma_map_of(all);
        assert(routes_of(routes_in(map_of(all.take(0))), child@) =~= own);
        assert(routes_in(routes@) =~= routes0.union_prefer_right(own));
        assert(tool_names@ =~= names0.union(own.dom()));
    }
    while i < n
        invariant
            i <= n,
            n == all.len(),
            all == previous.listing(),
            crate::name_map::ordered(all),
            names0 == old(tool_names)@,
            routes0 == routes_in(old(routes)@),
            own == routes_of(routes_in(map_of(all.take(i as int))), child@),
            own.dom().finite(),
            count == own.len(),
            count <= i,
            forall|name: Seq<char>| #[trigger] own.contains_key(name) ==> !names0.contains(name),
            routes_in(routes@) == routes0.union_prefer_right(own),
            tool_names@ == names0.union(own.dom()),
        decreases n - i,
    {
        let name = previous.key_at(i);
        let route = previous.value_at(i);
        let ghost before = all.take(i as int);
        let ghost upto = all.take(i + 1);
        proof {
            assert(upto.drop_last() =~= before);
            assert(upto.last() == all[i as int]);
            assert(crate::name_map::ordered(before));
            lemma_map_of(before);
            assert(!map_of(before).contains_key(name@)) by {
                if map_of(before).contains_key(name@) {
                    let j = choose|j: int| 0 <= j < before.len() && #[trigger] before[j].0 == name@;
                    crate::text::lemma_before_irreflexive(name@);
                    assert(crate::text::before(all[j].0, all[i as int].0));
                }
            }
            assert(routes_in(map_of(upto)) =~= routes_in(map_of(before)).insert(name@, route@));
            lemma_routes_of_grow(routes_in(map_of(before)), name@, route@, child@);
            assert(!own.contains_key(name@));
        }
        if same(&route.child, child) {
            if !tool_names.insert(name.clone()) {
                proof {
                    lemma_map_of(all);
                    assert(routes_in(previous@).contains_key(name@));
                    assert(map_of(all)[all[i as int].0] == all[i as int].1);
                    assert(routes_of(routes_in(previous@), child@).contains_key(name@));
                }
                return None;
            }
            let copy = route.clone();
            let ghost routes_before = routes@;
            routes.insert(name.clone(), copy);
            proof {
                let next = own.insert(name@, route@);
                assert(routes_in(routes@) =~= routes_in(routes_before).insert(name@, route@));
                assert(routes_in(routes@) =~= routes0.union_prefer_right(next));
                assert(tool_names@ =~= names0.union(next.dom()));
                own = next;
            }
            count = count + 1;
        }
        i = i + 1;
    }
    assert(all.take(i as int) =~= all);
    Some(count)
}

/// Takes over the tools whose calls go to a child. Tells how many they are.
fn take_over_tools(previous: &Snapshot, child: &str, tools: &mut Vec<CatalogTool>) -> (r: usize)
    ensures
        r == tools_of(previous@, child@).len(),
        listed(final(tools)@) == listed(old(tools)@) + tools_of(previous@, child@),
{
    let ghost all = previous@.tools;
    let ghost pred = leads_to_child(previous@.routes, child@);
    let ghost tools0 = listed(tools@);
    let mut count: usize = 0;
    let mut i: usize = 0;
    proof {
        reveal(Seq::filter);
        assert(listed(tools@) =~= tools0 + all.take(0).filter(pred));
    }
    while i < previous.tools.len()
        invariant
            i <= previous.tools.len(),
            all == listed(previous.tools@),
            pred == leads_to_child(previous@.routes, child@),
            tools0 == listed(old(tools)@),
            count == all.take(i as int).filter(pred).len(),
            count <= i,
            listed(tools@) == tools0 + all.take(i as int).filter(pred),
        decreases previous.tools.len() - i,
    {
        let tool = &previous.tools[i];
        proof {
            reveal(Seq::filter);
            assert(all.take(i + 1).drop_last() =~= all.take(i as int));
            assert(all.take(i + 1).last() == tool@);
        }
        let leads = match previous.routes.get(&tool.name) {
            None => false,
            Some(route) => {
                assert(previous@.routes[tool@.name] == route@);
                same(&route.child, child)
            },
        };
        assert(leads == pred(tool@));
        if leads {
            let ghost before = tools@;
            tools.push(tool.clone());
            count = count + 1;
            assert(listed(tools@) =~= listed(before).push(tool@));
            assert(listed(tools@) =~= tools0 + all.take(i + 1).filter(pred));
        }
        i = i + 1;
    }
    assert(all.take(i as int) =~= all);
    count
}

impl Reload {
    fn retain(self, previous: &Snapshot, item: &LoadedConfig, child: &ChildEntry, error: &str) -> (r: Result<
        Reload,
        Abandoned,
    >)
        requires
            previous@.children.contains_key(item@.config.name),
            previous@.children[item@.config.name] == child@,
        ensures
            match with_retained(self@, previous@, item@, error@) {
                Ok(drawn) => r matches Ok(result) && result@ == drawn && result.governing()
                    == self.governing(),
                Err(fault) => r matches Err(abandoned) && self.gives_up(abandoned, fault),
            },
    {
        let mut reload = self;
        let ghost name = item@.config.name;
        let ghost own = routes_of(previous@.routes, name);
        let taken = take_over_routes(
            &previous.routes,
            &item.config.name,
            &mut reload.next.routes,
            &mut reload.tool_names,
        );
        let count: usize = take_over_tools(previous, &item.config.name, &mut reload.next.tools);
        let fits = match taken {
            None => false,
            Some(routes) => routes == count,
        };
        if !fits {
            return Err(reload.give_up(ReloadError::CannotRetain(item.config.name.clone())));
        }
        let mut status = new_status(item);
        status.enabled = child.config.enabled;
        status.running = true;
        status.command = child.config.command.clone();
        status.tool_prefix = copy_optional(&child.config.tool_prefix);
        status.tool_count = count;
        status.timeout_ms = child.config.timeout_ms;
        status.restart_policy = child.config.restart.policy;
        status.show_recovery(&child.recovery);
        status.error = Some(
            glue("candidate replacement failed; retaining last known good generation: ", error),
        );
        let ghost statuses_before = reload.next.statuses@;
        let ghost children_before = reload.next.children@;
        let ghost shown = status@;
        reload.next.statuses.insert(item.config.name.clone(), status);
        reload.next.children.insert(item.config.name.clone(), child.clone());
        reload.reused.insert(item.config.name.clone());
        proof {
            assert(statuses_in(reload.next.statuses@) =~= statuses_in(statuses_before).insert(
                name,
                shown,
            ));
            assert(children_in(reload.next.children@) =~= children_in(children_before).insert(
                name,
                child@,
            ));
            let drawn = with_retained(self@, previous@, item@, error@)->Ok_0;
            assert(reload@.catalog =~= drawn.catalog);
            assert(reload@ =~= drawn);
        }
        Ok(reload)
    }

    /// Notes a child that could not be started at the time `now_ms`. Where one still runs under its name, that one is
    /// retained; where one has stopped, that is one more failure of it. `closed` tells whether it has.
    pub fn add_failed_at(
        self,
        previous: &mut Snapshot,
        item: &LoadedConfig,
        error: &str,
        closed: bool,
        now_ms: u64,
    ) -> (r: Result<Reload, Abandoned>)
        ensures
            self.notes_failure(
                old(previous)@,
                final(previous)@,
                item@,
                error@,
                closed,
                now_ms,
                r,
            ),
    {
        let ghost start = previous@;
        let ghost name = item@.config.name;
        let mut status = new_status(item);
        match previous.children.get(&item.config.name) {
            None => {},
            Some(child) => {
                assert(previous@.children[name] == child@);
                if !closed {
                    return self.retain(previous, item, child, error);
                }
                if let Some(policy) = child.recovery_policy {
                    let mut recovery = child.recovery;
                    recovery.failure(now_ms, policy);
                    status.show_recovery(&recovery);
                    let mut copy = child.clone();
                    copy.recovery = recovery;
                    let ghost text = copy@;
                    let ghost before = previous.children@;
                    previous.children.insert(item.config.name.clone(), copy);
                    proof {
                        assert(children_in(previous.children@) =~= children_in(before).insert(
                            name,
                            text,
                        ));
                        assert(previous@ =~= after_failure(start, name, closed, now_ms));
                    }
                }
            },
        }
        status.error = Some(error.to_owned());
        let mut reload = self;
        let ghost before = reload.next.statuses@;
        let ghost shown = status@;
        reload.next.statuses.insert(item.config.name.clone(), status);
        proof {
            assert(statuses_in(reload.next.statuses@) =~= statuses_in(before).insert(name, shown));
            assert(reload@ =~= self@.with_status(name, shown));
        }
        Ok(reload)
    }
}

/// The names of the tools that the children offer, by child.
pub open spec fn offered_names(children: Map<Seq<char>, RunningChild>) -> NamesByChild {
    children.map_values(
        |child: RunningChild| Set::new(|name: Seq<char>| offered_by(child.tools, name)),
    )
}

/// The allowlists of the configured children, by child.
pub open spec fn allowlists(loaded: Seq<LoadedText>) -> NamesByChild
    decreases loaded.len(),
{
    if loaded.len() == 0 {
        Map::empty()
    } else {
        allowlists(loaded.drop_last()).insert(
            loaded.last().config.name,
            name_set(loaded.last().config.tool_allowlist),
        )
    }
}

/// What the policy asks for and the new catalog does not offer, if there is such a thing.
pub open spec fn policy_misfit(mode: Mode, catalog: Catalog, loaded: Seq<LoadedText>) -> Option<
    Misfit,
> {
    match policy_in(mode) {
        None => None,
        Some(config) => catalog_misfit(
            config.children.listing(),
            offered_names(catalog.children),
            allowlists(loaded),
        ),
    }
}

/// A new catalog that is whole.
#[derive(Debug)]
pub struct Ready {
    pub mode: Mode,
    pub next: Snapshot,
    pub reused: NameSet,
}

fn tool_set(tools: &Vec<ChildTool>) -> (r: NameSet)
    ensures
        r@ == Set::new(|name: Seq<char>| offered_by(offers(tools@), name)),
{
    let mut set = NameSet::new();
    let ghost all = offers(tools@);
    let mut i: usize = 0;
    while i < tools.len()
        invariant
            i <= tools.len(),
            all == offers(tools@),
            forall|name: Seq<char>| #[trigger]
                set@.contains(name) <==> offered_by(all.take(i as int), name),
        decreases tools.len() - i,
    {
        let ghost last = set@;
        set.insert(tools[i].name.clone());
        assert forall|name: Seq<char>| #[trigger] set@.contains(name) <==> offered_by(
            all.take(i + 1),
            name,
        ) by {
            let s = all.take(i as int);
            let t = all.take(i + 1);
            if offered_by(s, name) {
                let j = choose|j: int| 0 <= j < s.len() && (#[trigger] s[j]).name == name;
                assert(t[j].name == name);
            }
            if name == tools@[i as int]@.name {
                assert(t[i as int].name == name);
            }
            if offered_by(t, name) {
                let j = choose|j: int| 0 <= j < t.len() && (#[trigger] t[j]).name == name;
                if j < i {
                    assert(s[j].name == name);
                }
            }
        }
        i = i + 1;
    }
    assert(all.take(i as int) =~= all);
    assert(set@ =~= Set::new(|name: Seq<char>| offered_by(offers(tools@), name)));
    set
}

fn offered_sets(children: &NameMap<ChildEntry>) -> (r: NameMap<NameSet>)
    ensures
        sets_of(r@) == offered_names(children_in(children@)),
{
    let n: usize = children.len();
    let ghost all = children.listing();
    let mut out: NameMap<NameSet> = NameMap::new();
    let mut i: usize = 0;
    assert(sets_of(out@) =~= offered_names(children_in(map_of(all.take(0)))));
    while i < n
        invariant
            i <= n,
            n == all.len(),
            all == children.listing(),
            sets_of(out@) == offered_names(children_in(map_of(all.take(i as int)))),
        decreases n - i,
    {
        let ghost before = out@;
        let name = children.key_at(i);
        let child = children.value_at(i);
        let set = tool_set(&child.tools);
        let ghost names_of = set@;
        out.insert(name.clone(), set);
        proof {
            assert(all.take(i + 1).drop_last() =~= all.take(i as int));
            let s = map_of(all.take(i as int));
            assert(map_of(all.take(i + 1)) == s.insert(name@, *child));
            assert(children_in(s.insert(name@, *child)) =~= children_in(s).insert(name@, child@));
            assert(offered_names(children_in(s).insert(name@, child@)) =~= offered_names(
                children_in(s),
            ).insert(name@, names_of));
            assert(sets_of(out@) =~= sets_of(before).insert(name@, names_of));
        }
        i = i + 1;
    }
    assert(all.take(i as int) =~= all);
    out
}

fn allowlist_sets(loaded: &Vec<LoadedConfig>) -> (r: NameMap<NameSet>)
    ensures
        sets_of(r@) == allowlists(loaded_texts(loaded@)),
{
    let ghost all = loaded_texts(loaded@);
    let mut out: NameMap<NameSet> = NameMap::new();
    let mut i: usize = 0;
    assert(sets_of(out@) =~= allowlists(all.take(0)));
    while i < loaded.len()
        invariant
            i <= loaded.len(),
            all == loaded_texts(loaded@),
            sets_of(out@) == allowlists(all.take(i as int)),
        decreases loaded.len() - i,
    {
        let ghost before = out@;
        let config = &loaded[i].config;
        let set = NameSet::from_list(&config.tool_allowlist);
        let ghost names_of = set@;
        out.insert(config.name.clone(), set);
        proof {
            assert(all.take(i + 1).drop_last() =~= all.take(i as int));
            assert(all.take(i + 1).last() == loaded@[i as int]@);
            assert(sets_of(out@) =~= sets_of(before).insert(config@.name, names_of));
        }
        i = i + 1;
    }
    assert(all.take(i as int) =~= all);
    out
}

impl Reload {
    /// Declares the new catalog whole, if it offers what the policy asks for. `loaded` are all configured children.
    pub fn finish(self, loaded: &Vec<LoadedConfig>) -> (r: Result<Ready, Abandoned>)
        ensures
            match policy_misfit(self.governing(), self@.catalog, loaded_texts(loaded@)) {
                None => r matches Ok(ready) && ready.mode == self.governing() && ready.next@
                    == self@.catalog && ready.reused@ == self@.reused,
                Some(misfit) => r matches Err(abandoned) && self.gives_up(
                    abandoned,
                    ReloadFault::Policy(misfit),
                ),
            },
    {
        let refusal = match &self.mode {
            Mode::LegacyCompat => None,
            Mode::Strict(policy) => {
                let children = offered_sets(&self.next.children);
                let allow = allowlist_sets(loaded);
                match validate_catalog(policy, &children, &allow) {
                    Ok(()) => None,
                    Err(error) => Some(error),
                }
            },
        };
        match refusal {
            Some(error) => Err(self.give_up(ReloadError::Policy(error))),
            None => Ok(Ready { mode: self.mode, next: self.next, reused: self.reused }),
        }
    }
}

/// What became of a configured child.
#[derive(Debug)]
pub enum Arrival {
    Skipped,
    Reused,
    Started(Started),
    Failed(String),
}

pub enum Arrived {
    Skipped,
    Reused,
    Started(Option<CommandState>, Seq<OfferedTool>),
    Failed(Seq<char>),
}

impl View for Arrival {
    type V = Arrived;

    open spec fn view(&self) -> Arrived {
        match self {
            Arrival::Skipped => Arrived::Skipped,
            Arrival::Reused => Arrived::Reused,
            Arrival::Started(found) => Arrived::Started(
                optional_state(found.command_signature),
                offers(found.tools@),
            ),
            Arrival::Failed(error) => Arrived::Failed(error@),
        }
    }
}

/// One step of a reload: a configured child, what became of it at which time, and whether the child that ran under its
/// name has stopped.
pub struct Step {
    pub item: LoadedText,
    pub arrived: Arrived,
    pub closed: bool,
    pub now_ms: u64,
}

/// A step can be taken: a child that is taken over runs unchanged, and the generations of one that has
/// stopped can still be counted.
pub open spec fn possible(previous: Catalog, step: Step) -> bool {
    let name = step.item.config.name;
    match step.arrived {
        Arrived::Reused => previous.children.contains_key(name) && previous.children[name].config
            == step.item.config,
        Arrived::Started(_, _) => step.closed && previous.children.contains_key(name)
            ==> previous.children[name].recovery.generation < u64::MAX,
        _ => true,
    }
}

/// The catalog in use after a step.
pub open spec fn previous_after(previous: Catalog, mode: Mode, step: Step) -> Catalog {
    match step.arrived {
        Arrived::Reused => after_reuse(previous, step.item.config.name, mode),
        Arrived::Failed(_) => after_failure(
            previous,
            step.item.config.name,
            step.closed,
            step.now_ms,
        ),
        _ => previous,
    }
}

/// The new catalog after a step, and whether the child that it is about serves on.
pub open spec fn draft_after(draft: Draft, previous: Catalog, mode: Mode, step: Step) -> Result<
    (Draft, bool),
    ReloadFault,
> {
    let name = step.item.config.name;
    match step.arrived {
        Arrived::Skipped => Ok((draft.with_status(name, blank_status(step.item)), false)),
        Arrived::Reused => with_child(
            draft,
            step.item,
            governed(previous.children[name], mode),
            true,
            mode,
        ),
        Arrived::Started(signature, tools) => {
            let stopped = if previous.children.contains_key(name) && step.closed {
                Some(previous.children[name])
            } else {
                None
            };
            with_child(
                draft,
                step.item,
                governed(
                    started(step.item.config, signature, tools, step.now_ms, stopped),
                    mode,
                ),
                false,
                mode,
            )
        },
        Arrived::Failed(error) => match with_failure(
            draft,
            previous_after(previous, mode, step),
            step.item,
            error,
            step.closed,
        ) {
            Ok(next) => Ok((next, next.reused.contains(name))),
            Err(fault) => Err(fault),
        },
    }
}

impl Reload {
    /// What comes of a step.
    pub open spec fn steps_to(
        self,
        before: Catalog,
        after: Catalog,
        step: Step,
        r: Result<(Reload, bool), Abandoned>,
    ) -> bool {
        &&& after == previous_after(before, self.governing(), step)
        &&& match draft_after(self@, before, self.governing(), step) {
            Ok(drawn) => r matches Ok(result) && result.0@ == drawn.0 && result.1 == drawn.1
                && result.0.governing() == self.governing(),
            Err(fault) => r matches Err(abandoned) && self.gives_up(abandoned, fault),
        }
    }

    /// Takes a step at the time `now_ms`: notes, takes over, takes up or retains a configured child. Tells whether a
    /// child serves on under its name.
    pub fn step_at(
        self,
        previous: &mut Snapshot,
        item: &LoadedConfig,
        arrival: Arrival,
        closed: bool,
        now_ms: u64,
    ) -> (r: Result<(Reload, bool), Abandoned>)
        requires
            possible(
                old(previous)@,
                (Step { item: item@, arrived: arrival@, closed, now_ms }),
            ),
        ensures
            self.steps_to(
                old(previous)@,
                final(previous)@,
                (Step { item: item@, arrived: arrival@, closed, now_ms }),
                r,
            ),
    {
        match arrival {
            Arrival::Skipped => Ok((self.skip(item), false)),
            Arrival::Reused => self.add_reused(previous, item),
            Arrival::Started(found) => self.add_started_at(previous, item, found, closed, now_ms),
            Arrival::Failed(error) => {
                match self.add_failed_at(previous, item, &error, closed, now_ms) {
                    Ok(reload) => {
                        let kept = reload.reused.contains(&item.config.name);
                        Ok((reload, kept))
                    },
                    Err(abandoned) => Err(abandoned),
                }
            },
        }
    }

    /// Takes a step now.
    pub fn step(
        self,
        previous: &mut Snapshot,
        item: &LoadedConfig,
        arrival: Arrival,
        closed: bool,
    ) -> (r: Result<(Reload, bool), Abandoned>)
        requires
            possible(
                old(previous)@,
                (Step { item: item@, arrived: arrival@, closed, now_ms: 0 }),
            ),
        ensures
            exists|now_ms: u64| #[trigger]
                self.steps_to(
                    old(previous)@,
                    final(previous)@,
                    (Step { item: item@, arrived: arrival@, closed, now_ms }),
                    r,
                ),
    {
        let now_ms: u64 = clock::unix_millis_short();
        self.step_at(previous, item, arrival, closed, now_ms)
    }
}

/// A reload as a whole, up to its first fault: the new catalog and the catalog in use after the steps.
pub open spec fn drawn_up(previous: Catalog, mode: Mode, steps: Seq<Step>) -> Result<
    (Draft, Catalog),
    ReloadFault,
>
    decreases steps.len(),
{
    if steps.len() == 0 {
        Ok((Draft::initial(), previous))
    } else {
        match drawn_up(previous, mode, steps.drop_last()) {
            Err(fault) => Err(fault),
            Ok((draft, catalog)) => match draft_after(draft, catalog, mode, steps.last()) {
                Err(fault) => Err(fault),
                Ok((next, _)) => Ok((next, previous_after(catalog, mode, steps.last()))),
            },
        }
    }
}

/// What is told of a reload that was given up: which child or which name is at fault.
pub proof fn law_reload_errors_are_told_in_words(error: ReloadError)
    ensures
        match error {
            ReloadError::InvalidName(child, name) => error@.text() == "child '"@ + child@
                + "' produced invalid exposed tool name '"@ + name@ + "'"@,
            ReloadError::DuplicateName(name) => error@.text() == "duplicate exposed tool name '"@
                + name@ + "'; set tool_prefix on one child"@,
            ReloadError::CannotRetain(child) => error@.text()
                == "cannot retain last known good child '"@ + child@
                + "' after candidate failure"@,
            ReloadError::Policy(misfit) => error@.text() == misfit@.text(),
        },
{
}

/// A reload that was given up tells why, and stops the children that it started, but none that serve on.
pub proof fn law_abandoned_reloads_stop_what_they_started(
    reload: Reload,
    abandoned: Abandoned,
    fault: ReloadFault,
    name: Seq<char>,
)
    requires
        reload.gives_up(abandoned, fault),
    ensures
        abandoned.error@ == fault,
        (exists|i: int| 0 <= i < abandoned.cancel@.len() && (#[trigger] abandoned.cancel@[i])@ == name)
            <==> !reload@.reused.contains(name) && exists|i: int|
            0 <= i < reload.child_entries().len() && (#[trigger] reload.child_entries()[i]).0
                == name,
{
    let told = texts(abandoned.cancel@);
    lemma_not_kept_names(reload.child_entries(), reload@.reused, name);
    if told.contains(name) {
        let i = choose|i: int| 0 <= i < told.len() && told[i] == name;
        assert(abandoned.cancel@[i]@ == name);
    }
    if exists|i: int| 0 <= i < abandoned.cancel@.len() && (#[trigger] abandoned.cancel@[i])@ == name {
        let i = choose|i: int|
            0 <= i < abandoned.cancel@.len() && (#[trigger] abandoned.cancel@[i])@ == name;
        assert(told[i] == name);
    }
}

proof fn lemma_not_kept_names(
    entries: Seq<(Seq<char>, ChildEntry)>,
    keep: Set<Seq<char>>,
    name: Seq<char>,
)
    ensures
        not_kept(entries, keep).contains(name) <==> !keep.contains(name) && exists|i: int|
            0 <= i < entries.len() && (#[trigger] entries[i]).0 == name,
    decreases entries.len(),
{
    if entries.len() > 0 {
        let rest = entries.drop_last();
        lemma_not_kept_names(rest, keep, name);
        let all = not_kept(entries, keep);
        let some = not_kept(rest, keep);
        if all.contains(name) {
            let i = choose|i: int| 0 <= i < all.len() && all[i] == name;
            if i < some.len() {
                assert(some[i] == name);
                let j = choose|j: int| 0 <= j < rest.len() && (#[trigger] rest[j]).0 == name;
                assert(entries[j].0 == name);
            } else {
                assert(entries[entries.len() - 1].0 == name);
            }
        }
        if !keep.contains(name) && exists|i: int|
            0 <= i < entries.len() && (#[trigger] entries[i]).0 == name {
            let i = choose|i: int| 0 <= i < entries.len() && (#[trigger] entries[i]).0 == name;
            if i < rest.len() {
                assert(rest[i].0 == name);
                let j = choose|j: int| 0 <= j < some.len() && some[j] == name;
                assert(all[j] == name);
            } else {
                assert(all[all.len() - 1] == name);
            }
        }
    }
}

} // verus!

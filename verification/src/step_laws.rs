//! What holds of each step by which a catalog is drawn up, told in what goes in and what comes out.
use crate::catalog::{builtin_name, builtins, Catalog, ListedTool, OfferedTool, Route, RunningChild};
use crate::config::{exposed_name, law_allowlists_name_tools_by_their_own_names, ConfigText};
use crate::config_files::{CommandState, LoadedText};
use crate::names::{named_within, MAX_TOOL_NAME};
use crate::policy::{catalog_misfit, law_tools_are_permitted_to_listed_profiles, Mode};
use crate::recovery::State;
use crate::reload::{after_failure, allowlists, blank_status, draft_after, exposed_tool, exposure, governed, has_name, missing, not_kept, offered_by, offered_names, policy_misfit, previous_after, routed, routes_of, started, tools_of, visible, with_child, with_failure, with_retained, Arrived, Draft, ReloadFault, Step};
use crate::name_map::name_set;
use vstd::prelude::*;

verus! {

/// A tool is exposed exactly if the allowlist is empty or names it, and no policy governs or the policy names the tool
/// for the child and lists the active profile among the tool's.
pub proof fn law_tools_are_visible_to_allowlist_and_profile(
    config: ConfigText,
    mode: Mode,
    tool: Seq<char>,
)
    ensures
        visible(config, mode, tool) <==> {
            &&& config.tool_allowlist.len() == 0 || exists|i: int|
                0 <= i < config.tool_allowlist.len() && #[trigger] config.tool_allowlist[i] == tool
            &&& mode matches Mode::Strict(policy) ==> {
                &&& policy.children@.contains_key(config.name)
                &&& policy.children@[config.name].tools@.contains_key(tool)
                &&& exists|i: int|
                    0 <= i < policy.children@[config.name].tools@[tool].profiles@.len() && (
                    #[trigger] policy.children@[config.name].tools@[tool].profiles@[i])@
                        == policy.active_profile@
            }
        },
{
    law_allowlists_name_tools_by_their_own_names(config, tool);
    law_tools_are_permitted_to_listed_profiles(mode, config.name, tool);
}

/// An exposed tool has the prefix before the name that the child gives it, tells its child before what the child tells
/// of it, and leads back to its place in the child's offer.
pub proof fn law_exposed_tools_tell_their_child(config: ConfigText, tool: OfferedTool, place: int)
    ensures
        ({
            let shown = exposed_tool(config, tool, place);
            &&& config.tool_prefix is None ==> shown.name == tool.name
            &&& config.tool_prefix matches Some(prefix) ==> shown.name == prefix + tool.name
            &&& tool.description matches Some(told) ==> shown.description == "["@ + config.name
                + "] "@ + told
            &&& tool.description is None ==> shown.description == "["@ + config.name
                + "] Child MCP tool"@
            &&& shown.child == Some(config.name)
            &&& shown.place == place
        }),
{
    reveal_strlit("] ");
    reveal_strlit("Child MCP tool");
    reveal_strlit("] Child MCP tool");
    assert("] Child MCP tool"@ =~= "] "@ + "Child MCP tool"@);
    assert("["@ + config.name + "] "@ + "Child MCP tool"@ =~= "["@ + config.name + (("] "@)
        + "Child MCP tool"@));
}

/// The exposed tools stand in the order in which the child offers them, one for each visible tool.
pub proof fn law_exposed_tools_stand_in_the_order_of_the_offer(
    config: ConfigText,
    mode: Mode,
    tools: Seq<OfferedTool>,
    names: Set<Seq<char>>,
)
    requires
        exposure(config, mode, tools, names) is Ok,
    ensures
        ({
            let exposed = exposure(config, mode, tools, names)->Ok_0;
            &&& forall|k: int|
                0 <= k < exposed.len() ==> {
                    let place = (#[trigger] exposed[k]).place;
                    &&& 0 <= place < tools.len()
                    &&& visible(config, mode, tools[place].name)
                    &&& exposed[k] == exposed_tool(config, tools[place], place)
                }
            &&& forall|k: int, l: int|
                0 <= k < l < exposed.len() ==> (#[trigger] exposed[k]).place < (
                #[trigger] exposed[l]).place
            &&& forall|i: int|
                0 <= i < tools.len() && visible(config, mode, (#[trigger] tools[i]).name)
                    ==> exists|k: int| 0 <= k < exposed.len() && (#[trigger] exposed[k]).place == i
        }),
    decreases tools.len(),
{
    if tools.len() > 0 {
        let rest = tools.drop_last();
        law_exposed_tools_stand_in_the_order_of_the_offer(config, mode, rest, names);
        let done = exposure(config, mode, rest, names)->Ok_0;
        let exposed = exposure(config, mode, tools, names)->Ok_0;
        assert forall|k: int| 0 <= k < exposed.len() implies ({
            let place = (#[trigger] exposed[k]).place;
            &&& 0 <= place < tools.len()
            &&& visible(config, mode, tools[place].name)
            &&& exposed[k] == exposed_tool(config, tools[place], place)
        }) by {
            if k < done.len() {
                assert(done[k] == exposed[k]);
                assert(rest[done[k].place] == tools[done[k].place]);
            }
        }
        assert forall|k: int, l: int| 0 <= k < l < exposed.len() implies (
        #[trigger] exposed[k]).place < (#[trigger] exposed[l]).place by {
            assert(done[k] == exposed[k]);
            if l < done.len() {
                assert(done[l] == exposed[l]);
            }
        }
        assert forall|i: int| 0 <= i < tools.len() && visible(
            config,
            mode,
            (#[trigger] tools[i]).name,
        ) implies exists|k: int| 0 <= k < exposed.len() && (#[trigger] exposed[k]).place == i by {
            if i < rest.len() {
                assert(rest[i] == tools[i]);
                let k = choose|k: int| 0 <= k < done.len() && (#[trigger] done[k]).place == i;
                assert(exposed[k] == done[k]);
            } else {
                assert(exposed[exposed.len() - 1].place == i);
            }
        }
    }
}

/// A child's tools cannot be exposed exactly because of one visible tool, the first of which it is true: its exposed
/// name is no tool name, or is a tool name that is taken, by another tool of the catalog or by one of the child's own.
pub proof fn law_the_first_tool_that_cannot_be_exposed_is_told(
    config: ConfigText,
    mode: Mode,
    tools: Seq<OfferedTool>,
    names: Set<Seq<char>>,
)
    requires
        exposure(config, mode, tools, names) is Err,
    ensures
        exists|i: int|
            0 <= i < tools.len() && visible(config, mode, (#[trigger] tools[i]).name) && exposure(
                config,
                mode,
                tools.take(i),
                names,
            ) is Ok && ({
                let name = exposed_name(config, tools[i].name);
                if !named_within(name, MAX_TOOL_NAME as int) {
                    exposure(config, mode, tools, names)->Err_0 == ReloadFault::InvalidName(
                        config.name,
                        name,
                    )
                } else {
                    exposure(config, mode, tools, names)->Err_0 == ReloadFault::DuplicateName(name)
                        && (names.contains(name) || exists|j: int|
                        0 <= j < i && visible(config, mode, (#[trigger] tools[j]).name)
                            && exposed_name(config, tools[j].name) == name)
                }
            }),
    decreases tools.len(),
{
    let rest = tools.drop_last();
    if exposure(config, mode, rest, names) is Err {
        law_the_first_tool_that_cannot_be_exposed_is_told(config, mode, rest, names);
        assert forall|i: int| 0 <= i < rest.len() implies rest.take(i) == tools.take(i)
            && #[trigger] rest[i] == tools[i] by {
            assert(rest.take(i) =~= tools.take(i));
        }
        let i = choose|i: int|
            0 <= i < rest.len() && visible(config, mode, (#[trigger] rest[i]).name) && exposure(
                config,
                mode,
                rest.take(i),
                names,
            ) is Ok && ({
                let name = exposed_name(config, rest[i].name);
                if !named_within(name, MAX_TOOL_NAME as int) {
                    exposure(config, mode, rest, names)->Err_0 == ReloadFault::InvalidName(
                        config.name,
                        name,
                    )
                } else {
                    exposure(config, mode, rest, names)->Err_0 == ReloadFault::DuplicateName(name)
                        && (names.contains(name) || exists|j: int|
                        0 <= j < i && visible(config, mode, (#[trigger] rest[j]).name)
                            && exposed_name(config, rest[j].name) == name)
                }
            });
        assert(tools[i] == rest[i]);
        let name = exposed_name(config, tools[i].name);
        if named_within(name, MAX_TOOL_NAME as int) && !names.contains(name) {
            let j = choose|j: int|
                0 <= j < i && visible(config, mode, (#[trigger] rest[j]).name) && exposed_name(
                    config,
                    rest[j].name,
                ) == name;
            assert(tools[j] == rest[j]);
        }
    } else {
        let i = tools.len() - 1;
        assert(tools.take(i) =~= rest);
        assert(tools[i] == tools.last());
        let name = exposed_name(config, tools[i].name);
        let done = exposure(config, mode, rest, names)->Ok_0;
        law_exposed_tools_stand_in_the_order_of_the_offer(config, mode, rest, names);
        if has_name(done, name) {
            let k = choose|k: int| 0 <= k < done.len() && (#[trigger] done[k]).name == name;
            assert(tools[done[k].place] == rest[done[k].place]);
        }
    }
}

/// An allowlist misses nothing exactly if the child offers each of its entries; what it misses is its first entry that
/// the child does not offer.
pub proof fn law_the_first_missing_entry_is_told(
    allowlist: Seq<Seq<char>>,
    tools: Seq<OfferedTool>,
)
    ensures
        match missing(allowlist, tools) {
            None => forall|i: int|
                0 <= i < allowlist.len() ==> offered_by(tools, #[trigger] allowlist[i]),
            Some(entry) => exists|i: int|
                0 <= i < allowlist.len() && #[trigger] allowlist[i] == entry && (forall|k: int|
                    0 <= k < tools.len() ==> (#[trigger] tools[k]).name != entry) && forall|j: int|
                    0 <= j < i ==> offered_by(tools, #[trigger] allowlist[j]),
        },
    decreases allowlist.len(),
{
    if allowlist.len() > 0 {
        let rest = allowlist.drop_last();
        law_the_first_missing_entry_is_told(rest, tools);
        match missing(rest, tools) {
            Some(entry) => {
                let i = choose|i: int|
                    0 <= i < rest.len() && #[trigger] rest[i] == entry && (forall|k: int|
                        0 <= k < tools.len() ==> (#[trigger] tools[k]).name != entry) && forall|
                        j: int,
                    |
                        0 <= j < i ==> offered_by(tools, #[trigger] rest[j]);
                assert(allowlist[i] == entry);
                assert forall|j: int| 0 <= j < i implies offered_by(
                    tools,
                    #[trigger] allowlist[j],
                ) by {
                    assert(rest[j] == allowlist[j]);
                }
            },
            None => {
                assert forall|j: int| 0 <= j < rest.len() implies offered_by(
                    tools,
                    #[trigger] allowlist[j],
                ) by {
                    assert(rest[j] == allowlist[j]);
                }
                assert(allowlist[allowlist.len() - 1] == allowlist.last());
            },
        }
    }
}

/// The routes of exposed tools lead to the child and to the name that the child gives each; the other routes stay.
pub proof fn law_exposed_tools_are_routed_to_their_child(
    routes: Map<Seq<char>, Route>,
    exposed: Seq<ListedTool>,
    tools: Seq<OfferedTool>,
    child: Seq<char>,
    name: Seq<char>,
)
    requires
        forall|k: int, l: int|
            0 <= k < l < exposed.len() ==> (#[trigger] exposed[k]).name != (
            #[trigger] exposed[l]).name,
    ensures
        ({
            let after = routed(routes, exposed, tools, child);
            &&& forall|k: int|
                0 <= k < exposed.len() && (#[trigger] exposed[k]).name == name
                    ==> after.contains_key(name) && after[name].child == child
                    && after[name].original_name == tools[exposed[k].place].name
            &&& !has_name(exposed, name) ==> after.contains_key(name) == routes.contains_key(name)
                && after[name] == routes[name]
        }),
    decreases exposed.len(),
{
    if exposed.len() > 0 {
        let rest = exposed.drop_last();
        law_exposed_tools_are_routed_to_their_child(routes, rest, tools, child, name);
        let after = routed(routes, exposed, tools, child);
        assert forall|k: int| 0 <= k < exposed.len() && (
        #[trigger] exposed[k]).name == name implies after.contains_key(name) && after[name].child
            == child && after[name].original_name == tools[exposed[k].place].name by {
            if k < rest.len() {
                assert(rest[k].name == name);
                assert(exposed[exposed.len() - 1].name != exposed[k].name);
            }
        }
        if !has_name(exposed, name) {
            if has_name(rest, name) {
                let i = choose|i: int| 0 <= i < rest.len() && (#[trigger] rest[i]).name == name;
                assert(exposed[i].name == name);
            }
            assert(exposed[exposed.len() - 1].name != name);
        }
    }
}

/// Before anything is known of a configured child it does not run, has no tools and no error, and is told with what its
/// configuration says.
pub proof fn law_blank_conditions_tell_the_configuration(item: LoadedText)
    ensures
        ({
            let status = blank_status(item);
            &&& status.name == item.config.name
            &&& status.enabled == item.config.enabled
            &&& !status.running
            &&& status.command == item.config.command
            &&& status.source == item.source
            &&& status.tool_prefix == item.config.tool_prefix
            &&& status.tool_count == 0
            &&& status.timeout_ms == item.config.timeout_ms
            &&& status.restart_policy == item.config.restart.policy
            &&& status.generation == 0
            &&& status.recovery_state == State::Restarting
            &&& status.consecutive_failures == 0
            &&& status.retry_at_ms is None
            &&& status.error is None
        }),
{
}

/// A child that is taken up runs under its name, with as many tools as are exposed and the state of recovery that it
/// has; only it changes, and it is among those taken over exactly if it was taken over.
pub proof fn law_taking_up_changes_one_child(
    draft: Draft,
    item: LoadedText,
    child: RunningChild,
    reused: bool,
    mode: Mode,
    other: Seq<char>,
)
    requires
        with_child(draft, item, child, reused, mode) is Ok,
        other != item.config.name,
    ensures
        ({
            let (after, serves) = with_child(draft, item, child, reused, mode)->Ok_0;
            let name = item.config.name;
            let status = after.catalog.statuses[name];
            &&& serves <==> forall|i: int|
                0 <= i < item.config.tool_allowlist.len() ==> offered_by(
                    child.tools,
                    #[trigger] item.config.tool_allowlist[i],
                )
            &&& after.catalog.statuses.contains_key(name)
            &&& status.name == name
            &&& status.enabled == item.config.enabled
            &&& status.command == item.config.command
            &&& status.source == item.source
            &&& status.tool_prefix == item.config.tool_prefix
            &&& status.timeout_ms == item.config.timeout_ms
            &&& status.restart_policy == item.config.restart.policy
            &&& status.generation == child.recovery.generation
            &&& status.recovery_state == child.recovery.state
            &&& status.consecutive_failures == child.recovery.consecutive_failures
            &&& status.retry_at_ms == child.recovery.retry_at_ms
            &&& status.running == serves
            &&& serves ==> {
                &&& status.error is None
                &&& status.tool_count == after.catalog.tools.len() - draft.catalog.tools.len()
                &&& after.catalog.children.contains_key(name)
                &&& after.catalog.children[name] == child
                &&& after.reused.contains(name) == (reused || draft.reused.contains(name))
            }
            &&& !serves ==> {
                &&& status.tool_count == 0
                &&& after.catalog.children == draft.catalog.children
                &&& after.catalog.tools == draft.catalog.tools
                &&& after.catalog.routes == draft.catalog.routes
                &&& after.reused == draft.reused
                &&& exists|i: int|
                    0 <= i < item.config.tool_allowlist.len() && !offered_by(
                        child.tools,
                        #[trigger] item.config.tool_allowlist[i],
                    ) && status.error == Some(
                        "tool_allowlist references unknown child tool '"@
                            + item.config.tool_allowlist[i] + "'"@,
                    )
            }
            &&& after.catalog.statuses.contains_key(other) == draft.catalog.statuses.contains_key(
                other,
            )
            &&& after.catalog.statuses[other] == draft.catalog.statuses[other]
            &&& after.catalog.children.contains_key(other) == draft.catalog.children.contains_key(
                other,
            )
            &&& after.catalog.children[other] == draft.catalog.children[other]
            &&& after.reused.contains(other) == draft.reused.contains(other)
            &&& after.catalog.tools.take(draft.catalog.tools.len() as int) == draft.catalog.tools
        }),
{
    let (after, serves) = with_child(draft, item, child, reused, mode)->Ok_0;
    law_the_first_missing_entry_is_told(item.config.tool_allowlist, child.tools);
    assert(after.catalog.tools.take(draft.catalog.tools.len() as int) =~= draft.catalog.tools);
    if !serves {
        let entry = missing(item.config.tool_allowlist, child.tools)->0;
        let i = choose|i: int|
            0 <= i < item.config.tool_allowlist.len() && #[trigger] item.config.tool_allowlist[i]
                == entry && (forall|k: int|
                0 <= k < child.tools.len() ==> (#[trigger] child.tools[k]).name != entry);
        assert(!offered_by(child.tools, item.config.tool_allowlist[i]));
    }
}

/// The recovery of a child goes by the restart policy that the governing policy has for it, where it has one; nothing
/// else of the child changes.
pub proof fn law_children_are_governed_by_their_policy(child: RunningChild, mode: Mode)
    ensures
        ({
            let after = governed(child, mode);
            &&& after.config == child.config
            &&& after.command_signature == child.command_signature
            &&& after.tools == child.tools
            &&& after.recovery == child.recovery
            &&& match mode {
                Mode::LegacyCompat => after.recovery_policy == child.recovery_policy,
                Mode::Strict(policy) => if policy.children@.contains_key(child.config.name) {
                    let restart = policy.children@[child.config.name].restart;
                    after.recovery_policy matches Some(taken) && {
                        &&& taken.max_attempts == restart.max_attempts
                        &&& taken.stability_window_ms == restart.stability_window_ms
                        &&& taken.initial_backoff_ms == restart.backoff.initial_ms
                        &&& taken.max_backoff_ms == restart.backoff.max_ms
                        &&& taken.cooldown_ms == restart.circuit.cooldown_ms
                    }
                } else {
                    after.recovery_policy == child.recovery_policy
                },
            }
        }),
{
}

/// A child that was started runs under the configuration, with the executable and the tools that were found, healthy
/// from now on: one generation after the one that had stopped and with its failures, or the first of its name.
pub proof fn law_started_children_run_as_they_were_found(
    config: ConfigText,
    signature: Option<CommandState>,
    tools: Seq<OfferedTool>,
    now_ms: u64,
    stopped: Option<RunningChild>,
)
    ensures
        ({
            let child = started(config, signature, tools, now_ms, stopped);
            &&& child.config == config
            &&& child.command_signature == signature
            &&& child.tools == tools
            &&& child.recovery.state == State::Healthy
            &&& child.recovery.retry_at_ms is None
            &&& child.recovery.healthy_since_ms == Some(now_ms)
            &&& match stopped {
                None => child.recovery.generation == 1 && child.recovery.consecutive_failures == 0
                    && child.recovery_policy is None,
                Some(last) => child.recovery.generation == last.recovery.generation + 1
                    && child.recovery.consecutive_failures == last.recovery.consecutive_failures
                    && child.recovery_policy == last.recovery_policy,
            }
        }),
{
}

/// A child that is retained is told with what it runs under, not with what was configured anew, but for the file that
/// configures it; and with the fault of its replacement.
pub proof fn law_retained_children_are_told_as_they_run(
    draft: Draft,
    previous: Catalog,
    item: LoadedText,
    error: Seq<char>,
    other: Seq<char>,
)
    requires
        with_retained(draft, previous, item, error) is Ok,
        other != item.config.name,
    ensures
        ({
            let after = with_retained(draft, previous, item, error)->Ok_0;
            let name = item.config.name;
            let child = previous.children[name];
            let status = after.catalog.statuses[name];
            &&& after.catalog.statuses.contains_key(name)
            &&& status.name == name
            &&& status.source == item.source
            &&& status.running
            &&& status.enabled == child.config.enabled
            &&& status.command == child.config.command
            &&& status.tool_prefix == child.config.tool_prefix
            &&& status.timeout_ms == child.config.timeout_ms
            &&& status.restart_policy == child.config.restart.policy
            &&& status.tool_count == after.catalog.tools.len() - draft.catalog.tools.len()
            &&& status.generation == child.recovery.generation
            &&& status.recovery_state == child.recovery.state
            &&& status.consecutive_failures == child.recovery.consecutive_failures
            &&& status.retry_at_ms == child.recovery.retry_at_ms
            &&& status.error == Some(
                "candidate replacement failed; retaining last known good generation: "@ + error,
            )
            &&& after.catalog.children.contains_key(name)
            &&& after.catalog.children[name] == child
            &&& after.reused.contains(name)
            &&& after.catalog.statuses[other] == draft.catalog.statuses[other]
            &&& after.catalog.children.contains_key(other) == draft.catalog.children.contains_key(
                other,
            )
            &&& after.catalog.children[other] == draft.catalog.children[other]
            &&& after.reused.contains(other) == draft.reused.contains(other)
            &&& after.catalog.tools == draft.catalog.tools + tools_of(previous, name)
        }),
{
}

/// A failure to start a child counts against the child that runs under its name exactly if that one has stopped and a
/// policy governs its recovery; nothing else of the catalog in use changes.
pub proof fn law_failures_count_against_stopped_children(
    previous: Catalog,
    name: Seq<char>,
    closed: bool,
    now_ms: u64,
    other: Seq<char>,
)
    requires
        other != name,
    ensures
        ({
            let after = after_failure(previous, name, closed, now_ms);
            let was = previous.children[name];
            let is = after.children[name];
            &&& after.tools == previous.tools
            &&& after.routes == previous.routes
            &&& after.statuses == previous.statuses
            &&& after.children.contains_key(name) == previous.children.contains_key(name)
            &&& after.children.contains_key(other) == previous.children.contains_key(other)
            &&& after.children[other] == previous.children[other]
            &&& is.config == was.config
            &&& is.tools == was.tools
            &&& is.command_signature == was.command_signature
            &&& is.recovery_policy == was.recovery_policy
            &&& if previous.children.contains_key(name) && closed && was.recovery_policy is Some {
                is.recovery == was.recovery.failed(now_ms, was.recovery_policy->0)
            } else {
                is.recovery == was.recovery
            }
        }),
{
}

/// A child that could not be started and has no running child to retain is only noted: it does not run, and its
/// condition tells the error and, where a policy governs the recovery of the one that had stopped, its state.
pub proof fn law_failed_children_are_noted(
    draft: Draft,
    previous: Catalog,
    item: LoadedText,
    error: Seq<char>,
    closed: bool,
    other: Seq<char>,
)
    requires
        closed || !previous.children.contains_key(item.config.name),
        other != item.config.name,
    ensures
        with_failure(draft, previous, item, error, closed) matches Ok(after) && {
            let name = item.config.name;
            let last = previous.children[name];
            let status = after.catalog.statuses[name];
            &&& after.catalog.tools == draft.catalog.tools
            &&& after.catalog.routes == draft.catalog.routes
            &&& after.catalog.children == draft.catalog.children
            &&& after.reused == draft.reused
            &&& after.names == draft.names
            &&& after.catalog.statuses[other] == draft.catalog.statuses[other]
            &&& after.catalog.statuses.contains_key(name)
            &&& !status.running
            &&& status.tool_count == 0
            &&& status.error == Some(error)
            &&& status.name == name
            &&& status.enabled == item.config.enabled
            &&& status.command == item.config.command
            &&& status.source == item.source
            &&& if previous.children.contains_key(name) && last.recovery_policy is Some {
                &&& status.generation == last.recovery.generation
                &&& status.recovery_state == last.recovery.state
                &&& status.consecutive_failures == last.recovery.consecutive_failures
                &&& status.retry_at_ms == last.recovery.retry_at_ms
            } else {
                &&& status.generation == 0
                &&& status.recovery_state == State::Restarting
                &&& status.consecutive_failures == 0
                &&& status.retry_at_ms is None
            }
        },
{
}

/// A child whose replacement could not be started is retained exactly if it runs and can be reached.
pub proof fn law_running_children_are_retained(
    draft: Draft,
    previous: Catalog,
    item: LoadedText,
    error: Seq<char>,
    closed: bool,
)
    requires
        previous.children.contains_key(item.config.name),
        !closed,
    ensures
        with_failure(draft, previous, item, error, closed) == with_retained(
            draft,
            previous,
            item,
            error,
        ),
{
}

/// What a step does is what came of the child: one that is passed over is only noted, one that is taken over keeps its
/// process, one that was started takes its place, and one that failed is noted or retained.
pub proof fn law_steps_follow_what_came_of_the_child(
    draft: Draft,
    previous: Catalog,
    mode: Mode,
    step: Step,
)
    ensures
        ({
            let name = step.item.config.name;
            let after = draft_after(draft, previous, mode, step);
            let catalog = (after->Ok_0).0.catalog;
            let serves = (after->Ok_0).1;
            match step.arrived {
                Arrived::Skipped => after is Ok && !serves && catalog.children
                    == draft.catalog.children && catalog.tools == draft.catalog.tools
                    && catalog.routes == draft.catalog.routes && !catalog.statuses[name].running
                    && previous_after(previous, mode, step) == previous,
                Arrived::Reused => {
                    &&& previous_after(previous, mode, step).children[name] == governed(
                        previous.children[name],
                        mode,
                    )
                    &&& previous_after(previous, mode, step).children.remove(name)
                        == previous.children.remove(name)
                    &&& previous_after(previous, mode, step).tools == previous.tools
                    &&& previous_after(previous, mode, step).routes == previous.routes
                    &&& previous_after(previous, mode, step).statuses == previous.statuses
                    &&& after is Ok && serves ==> {
                        let child = catalog.children[name];
                        let was = previous.children[name];
                        &&& child.config == was.config
                        &&& child.tools == was.tools
                        &&& child.command_signature == was.command_signature
                        &&& child.recovery == was.recovery
                        &&& child.recovery_policy == governed(was, mode).recovery_policy
                        &&& (after->Ok_0).0.reused.contains(name)
                    }
                },
                Arrived::Started(signature, tools) => {
                    &&& previous_after(previous, mode, step) == previous
                    &&& after is Ok && serves ==> {
                        let child = catalog.children[name];
                        &&& child.config == step.item.config
                        &&& child.tools == tools
                        &&& child.command_signature == signature
                        &&& child.recovery.state == State::Healthy
                        &&& child.recovery.healthy_since_ms == Some(step.now_ms)
                        &&& child.recovery_policy == governed(child, mode).recovery_policy
                        &&& child.recovery.generation == if step.closed
                            && previous.children.contains_key(name) {
                            previous.children[name].recovery.generation + 1
                        } else {
                            1
                        }
                        &&& (after->Ok_0).0.reused == draft.reused
                    }
                },
                Arrived::Failed(error) => {
                    &&& previous_after(previous, mode, step) == after_failure(
                        previous,
                        name,
                        step.closed,
                        step.now_ms,
                    )
                    &&& step.closed || !previous.children.contains_key(name) ==> after is Ok
                        && catalog.children == draft.catalog.children
                        && catalog.statuses[name].error == Some(error)
                        && !catalog.statuses[name].running
                    &&& !step.closed && previous.children.contains_key(name) && after is Ok
                        ==> serves && catalog.children[name] == previous.children[name]
                        && catalog.statuses[name].running
                },
            }
        }),
{
}

/// The routes of a child are those that lead to it.
pub proof fn law_the_routes_of_a_child_lead_to_it(
    routes: Map<Seq<char>, Route>,
    child: Seq<char>,
    name: Seq<char>,
)
    ensures
        routes_of(routes, child).contains_key(name) <==> routes.contains_key(name)
            && routes[name].child == child,
        routes_of(routes, child).contains_key(name) ==> routes_of(routes, child)[name]
            == routes[name],
{
}

/// A new catalog starts with the gateway's own tools, whose names are taken, and with nothing else.
pub proof fn law_drafts_start_with_the_own_tools(name: Seq<char>)
    ensures
        Draft::initial().catalog.tools == builtins(),
        Draft::initial().catalog.routes.dom() == Set::<Seq<char>>::empty(),
        Draft::initial().catalog.children.dom() == Set::<Seq<char>>::empty(),
        Draft::initial().catalog.statuses.dom() == Set::<Seq<char>>::empty(),
        Draft::initial().reused == Set::<Seq<char>>::empty(),
        Draft::initial().names.contains(name) <==> builtin_name(name),
{
    assert(Draft::initial().catalog.routes.dom() =~= Set::<Seq<char>>::empty());
}

/// The children that are to be stopped are those that are not kept, in the order of their names.
pub proof fn law_stopped_children_stand_in_the_order_of_their_names(
    entries: Seq<(Seq<char>, crate::catalog::ChildEntry)>,
    keep: Set<Seq<char>>,
)
    ensures
        not_kept(entries, keep) == entries.filter(
            |entry: (Seq<char>, crate::catalog::ChildEntry)| !keep.contains(entry.0),
        ).map_values(|entry: (Seq<char>, crate::catalog::ChildEntry)| entry.0),
    decreases entries.len(),
{
    reveal(Seq::filter);
    let gone = |entry: (Seq<char>, crate::catalog::ChildEntry)| !keep.contains(entry.0);
    let name = |entry: (Seq<char>, crate::catalog::ChildEntry)| entry.0;
    if entries.len() == 0 {
        assert(entries.filter(gone).map_values(name) =~= Seq::<Seq<char>>::empty());
    } else {
        let rest = entries.drop_last();
        law_stopped_children_stand_in_the_order_of_their_names(rest, keep);
        if gone(entries.last()) {
            assert(entries.filter(gone).map_values(name) =~= rest.filter(gone).map_values(
                name,
            ).push(entries.last().0));
        }
    }
}

/// A policy is held against what the running children offer and against the allowlists of all configured children; where
/// no policy governs there is nothing to hold.
pub proof fn law_policies_are_held_against_the_new_catalog(
    mode: Mode,
    catalog: Catalog,
    loaded: Seq<LoadedText>,
    i: int,
    child: Seq<char>,
    tool: Seq<char>,
)
    requires
        forall|a: int, b: int|
            0 <= a < b < loaded.len() ==> (#[trigger] loaded[a]).config.name != (
            #[trigger] loaded[b]).config.name,
    ensures
        mode is LegacyCompat ==> policy_misfit(mode, catalog, loaded) is None,
        mode matches Mode::Strict(policy) ==> policy_misfit(mode, catalog, loaded)
            == catalog_misfit(
            policy.children.listing(),
            offered_names(catalog.children),
            allowlists(loaded),
        ),
        offered_names(catalog.children).contains_key(child) == catalog.children.contains_key(child),
        catalog.children.contains_key(child) ==> (offered_names(catalog.children)[child].contains(
            tool,
        ) <==> exists|k: int|
            0 <= k < catalog.children[child].tools.len() && (
            #[trigger] catalog.children[child].tools[k]).name == tool),
        0 <= i < loaded.len() ==> allowlists(loaded).contains_key(loaded[i].config.name)
            && allowlists(loaded)[loaded[i].config.name] == name_set(
            loaded[i].config.tool_allowlist,
        ),
    decreases loaded.len(),
{
    if loaded.len() > 0 {
        let rest = loaded.drop_last();
        assert forall|a: int, b: int| 0 <= a < b < rest.len() implies (
        #[trigger] rest[a]).config.name != (#[trigger] rest[b]).config.name by {
            assert(loaded[a].config.name != loaded[b].config.name);
        }
        law_policies_are_held_against_the_new_catalog(mode, catalog, rest, i, child, tool);
        if 0 <= i < rest.len() {
            assert(loaded[i].config.name != loaded[loaded.len() - 1].config.name);
            assert(rest[i] == loaded[i]);
        }
    }
    if catalog.children.contains_key(child) {
        assert(offered_names(catalog.children)[child].contains(tool) == offered_by(
            catalog.children[child].tools,
            tool,
        ));
    }
}

} // verus!

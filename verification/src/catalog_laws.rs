//! What holds of every catalog that is drawn up.
use crate::catalog::{builtin_name, builtins, Catalog, ListedTool, OfferedTool, Route, RunningChild};
use crate::config::{exposed_name, ConfigText};
use crate::config_files::LoadedText;
use crate::gateway::next_generation;
use crate::names::{named_within, MAX_TOOL_NAME};
use crate::policy::{permits, policy_in, Mode};
use crate::reload::{after_failure, draft_after, drawn_up, exposed_tool, exposure, has_name, leads_to_child, governed, lemma_claimed, missing, offered_by, policy_misfit, previous_after, routed, routes_of, started, tools_of, visible, with_child, with_failure, with_retained, Arrived, Draft, ReloadFault, Step};
use vstd::prelude::*;

verus! {

/// The gateway's own tools come first, no name occurs twice, and exactly the tools of children have a route: to their
/// child, which runs.
pub open spec fn sound(catalog: Catalog) -> bool {
    let tools = catalog.tools;
    &&& tools.len() >= builtins().len()
    &&& tools.take(builtins().len() as int) == builtins()
    &&& forall|i: int, j: int|
        0 <= i < j < tools.len() ==> (#[trigger] tools[i]).name != (#[trigger] tools[j]).name
    &&& forall|i: int|
        builtins().len() <= i < tools.len() ==> {
            &&& (#[trigger] tools[i]).child is Some
            &&& catalog.routes.contains_key(tools[i].name)
            &&& catalog.routes[tools[i].name].child == tools[i].child->0
            &&& catalog.children.contains_key(tools[i].child->0)
        }
    &&& forall|name: Seq<char>| #[trigger]
        catalog.routes.contains_key(name) ==> has_name(
            tools.skip(builtins().len() as int),
            name,
        )
}

/// A draft whose names taken are those of its tools.
pub open spec fn draft_sound(draft: Draft) -> bool {
    &&& sound(draft.catalog)
    &&& forall|name: Seq<char>| #[trigger]
        draft.names.contains(name) <==> has_name(draft.catalog.tools, name)
}

proof fn lemma_builtin_names()
    ensures
        builtins().len() == 4,
        forall|i: int, j: int|
            0 <= i < j < 4 ==> (#[trigger] builtins()[i]).name != (#[trigger] builtins()[j]).name,
        forall|name: Seq<char>| #[trigger] builtin_name(name) <==> has_name(builtins(), name),
{
    reveal_strlit("gateway_list_servers");
    reveal_strlit("gateway_reload");
    reveal_strlit("gateway_set_server_enabled");
    reveal_strlit("gateway_read_artifact");
    let b = builtins();
    assert(b[0].name.len() == 20);
    assert(b[1].name.len() == 14);
    assert(b[2].name.len() == 26);
    assert(b[3].name.len() == 21);
    assert forall|name: Seq<char>| #[trigger] builtin_name(name) <==> has_name(b, name) by {
        if builtin_name(name) {
            if name == b[0].name {
            } else if name == b[1].name {
            } else if name == b[2].name {
            } else {
                assert(name == b[3].name);
            }
        }
    }
}

/// A new catalog starts out sound.
pub proof fn law_new_catalogs_start_sound()
    ensures
        draft_sound(Draft::initial()),
{
    lemma_builtin_names();
    let draft = Draft::initial();
    assert(draft.catalog.tools.take(4) =~= builtins());
    assert forall|name: Seq<char>| #[trigger] draft.names.contains(name) <==> has_name(
        draft.catalog.tools,
        name,
    ) by {
        assert(builtin_name(name) <==> has_name(builtins(), name));
    }
}

proof fn lemma_exposure(
    config: ConfigText,
    mode: Mode,
    tools: Seq<OfferedTool>,
    names: Set<Seq<char>>,
)
    requires
        exposure(config, mode, tools, names) is Ok,
    ensures
        ({
            let exposed = exposure(config, mode, tools, names)->Ok_0;
            &&& exposed.len() <= tools.len()
            &&& forall|k: int|
                0 <= k < exposed.len() ==> {
                    let place = (#[trigger] exposed[k]).place;
                    &&& 0 <= place < tools.len()
                    &&& exposed[k] == exposed_tool(config, tools[place], place)
                    &&& visible(config, mode, tools[place].name)
                    &&& named_within(exposed[k].name, MAX_TOOL_NAME as int)
                    &&& !names.contains(exposed[k].name)
                }
            &&& forall|k: int, l: int|
                0 <= k < l < exposed.len() ==> (#[trigger] exposed[k]).name != (
                #[trigger] exposed[l]).name
            &&& forall|i: int|
                0 <= i < tools.len() && visible(config, mode, (#[trigger] tools[i]).name)
                    ==> has_name(exposed, exposed_name(config, tools[i].name))
        }),
    decreases tools.len(),
{
    if tools.len() > 0 {
        let rest = tools.drop_last();
        lemma_exposure(config, mode, rest, names);
        let done = exposure(config, mode, rest, names)->Ok_0;
        let exposed = exposure(config, mode, tools, names)->Ok_0;
        assert forall|k: int| 0 <= k < exposed.len() implies ({
            let place = (#[trigger] exposed[k]).place;
            &&& 0 <= place < tools.len()
            &&& exposed[k] == exposed_tool(config, tools[place], place)
            &&& visible(config, mode, tools[place].name)
            &&& named_within(exposed[k].name, MAX_TOOL_NAME as int)
            &&& !names.contains(exposed[k].name)
        }) by {
            if k < done.len() {
                assert(done[k] == exposed[k]);
                assert(rest[done[k].place] == tools[done[k].place]);
            }
        }
        assert forall|k: int, l: int| 0 <= k < l < exposed.len() implies (
        #[trigger] exposed[k]).name != (#[trigger] exposed[l]).name by {
            assert(done[k] == exposed[k]);
            if l < done.len() {
                assert(done[l] == exposed[l]);
            } else {
                assert(!has_name(done, exposed[l].name));
            }
        }
        assert forall|i: int| 0 <= i < tools.len() && visible(
            config,
            mode,
            (#[trigger] tools[i]).name,
        ) implies has_name(exposed, exposed_name(config, tools[i].name)) by {
            let name = exposed_name(config, tools[i].name);
            if i < rest.len() {
                assert(rest[i] == tools[i]);
                assert(has_name(done, name));
                let k = choose|k: int| 0 <= k < done.len() && (#[trigger] done[k]).name == name;
                assert(exposed[k].name == name);
            } else {
                assert(exposed[exposed.len() - 1].name == name);
            }
        }
    }
}

/// Exactly the tools that the allowlist and the active profile let through are exposed, under tool names that were
/// not taken, and no two under one name.
pub proof fn law_exactly_the_visible_tools_are_exposed(
    config: ConfigText,
    mode: Mode,
    tools: Seq<OfferedTool>,
    names: Set<Seq<char>>,
)
    requires
        exposure(config, mode, tools, names) is Ok,
    ensures
        ({
            let exposed = exposure(config, mode, tools, names)->Ok_0;
            &&& forall|k: int|
                0 <= k < exposed.len() ==> {
                    let place = (#[trigger] exposed[k]).place;
                    &&& 0 <= place < tools.len()
                    &&& exposed[k] == exposed_tool(config, tools[place], place)
                    &&& visible(config, mode, tools[place].name)
                    &&& permits(mode, config.name, tools[place].name)
                    &&& named_within(exposed[k].name, MAX_TOOL_NAME as int)
                    &&& !names.contains(exposed[k].name)
                }
            &&& forall|k: int, l: int|
                0 <= k < l < exposed.len() ==> (#[trigger] exposed[k]).name != (
                #[trigger] exposed[l]).name
            &&& forall|i: int|
                0 <= i < tools.len() && visible(config, mode, (#[trigger] tools[i]).name)
                    ==> has_name(exposed, exposed_name(config, tools[i].name))
        }),
{
    lemma_exposure(config, mode, tools, names);
}

proof fn lemma_routed(
    routes: Map<Seq<char>, Route>,
    exposed: Seq<ListedTool>,
    tools: Seq<OfferedTool>,
    child: Seq<char>,
    name: Seq<char>,
)
    requires
        forall|k: int, l: int|
            0 <= k < l < exposed.len() ==> (#[trigger] exposed[k]).name != (
            #[trigger] exposed[l]).name,
    ensures
        routed(routes, exposed, tools, child).contains_key(name) <==> routes.contains_key(name)
            || has_name(exposed, name),
        has_name(exposed, name) ==> routed(routes, exposed, tools, child)[name].child == child,
        forall|k: int|
            0 <= k < exposed.len() && (#[trigger] exposed[k]).name == name ==> routed(
                routes,
                exposed,
                tools,
                child,
            )[name].original_name == tools[exposed[k].place].name,
        !has_name(exposed, name) && routes.contains_key(name) ==> routed(
            routes,
            exposed,
            tools,
            child,
        )[name] == routes[name],
    decreases exposed.len(),
{
    if exposed.len() > 0 {
        let rest = exposed.drop_last();
        lemma_routed(routes, rest, tools, child, name);
        if has_name(rest, name) {
            let i = choose|i: int| 0 <= i < rest.len() && (#[trigger] rest[i]).name == name;
            assert(exposed[i].name == name);
        }
        if exposed.last().name == name {
            assert(exposed[exposed.len() - 1].name == name);
        }
        if has_name(exposed, name) {
            let i = choose|i: int| 0 <= i < exposed.len() && (#[trigger] exposed[i]).name == name;
            if i < rest.len() {
                assert(rest[i].name == name);
            }
        }
        assert forall|k: int| 0 <= k < exposed.len() && (#[trigger] exposed[k]).name == name implies routed(
            routes,
            exposed,
            tools,
            child,
        )[name].original_name == tools[exposed[k].place].name by {
            if k < rest.len() {
                assert(rest[k].name == name);
                assert(exposed[exposed.len() - 1].name != exposed[k].name);
            }
        }
    }
}

proof fn lemma_has_name_in_sum(a: Seq<ListedTool>, b: Seq<ListedTool>, name: Seq<char>)
    ensures
        has_name(a + b, name) <==> has_name(a, name) || has_name(b, name),
{
    let s = a + b;
    if has_name(a, name) {
        let i = choose|i: int| 0 <= i < a.len() && (#[trigger] a[i]).name == name;
        assert(s[i].name == name);
    }
    if has_name(b, name) {
        let i = choose|i: int| 0 <= i < b.len() && (#[trigger] b[i]).name == name;
        assert(s[a.len() + i].name == name);
    }
    if has_name(s, name) {
        let i = choose|i: int| 0 <= i < s.len() && (#[trigger] s[i]).name == name;
        if i < a.len() {
            assert(a[i].name == name);
        } else {
            assert(b[i - a.len()].name == name);
        }
    }
}

/// A sound catalog stays sound when tools with new names of one child are added, together with their routes.
proof fn lemma_added_tools_keep_soundness(
    before: Catalog,
    after: Catalog,
    added: Seq<ListedTool>,
    child: Seq<char>,
)
    requires
        sound(before),
        after.tools == before.tools + added,
        after.children.contains_key(child),
        forall|name: Seq<char>| #[trigger]
            before.children.contains_key(name) ==> after.children.contains_key(name),
        forall|k: int|
            0 <= k < added.len() ==> (#[trigger] added[k]).child == Some(child) && !has_name(
                before.tools,
                added[k].name,
            ),
        forall|k: int, l: int|
            0 <= k < l < added.len() ==> (#[trigger] added[k]).name != (#[trigger] added[l]).name,
        forall|name: Seq<char>| #[trigger]
            after.routes.contains_key(name) <==> before.routes.contains_key(name) || has_name(
                added,
                name,
            ),
        forall|name: Seq<char>|
            has_name(added, name) ==> (#[trigger] after.routes[name]).child == child,
        forall|name: Seq<char>|
            before.routes.contains_key(name) && !has_name(added, name)
                ==> #[trigger] after.routes[name] == before.routes[name],
    ensures
        sound(after),
{
    let n = builtins().len() as int;
    lemma_builtin_names();
    let tools = after.tools;
    let m = before.tools.len();
    assert(tools.take(n) =~= before.tools.take(n));
    assert forall|i: int, j: int| 0 <= i < j < tools.len() implies (#[trigger] tools[i]).name != (
    #[trigger] tools[j]).name by {
        if j < m {
            assert(tools[i] == before.tools[i] && tools[j] == before.tools[j]);
        } else if i < m {
            assert(tools[i] == before.tools[i]);
            assert(tools[j] == added[j - m]);
            if tools[i].name == tools[j].name {
                assert(has_name(before.tools, added[j - m].name));
            }
        } else {
            assert(tools[i] == added[i - m] && tools[j] == added[j - m]);
        }
    }
    assert forall|i: int| n <= i < tools.len() implies ({
        &&& (#[trigger] tools[i]).child is Some
        &&& after.routes.contains_key(tools[i].name)
        &&& after.routes[tools[i].name].child == tools[i].child->0
        &&& after.children.contains_key(tools[i].child->0)
    }) by {
        if i < m {
            assert(tools[i] == before.tools[i]);
            assert(before.routes.contains_key(tools[i].name));
            if has_name(added, tools[i].name) {
                let k = choose|k: int|
                    0 <= k < added.len() && (#[trigger] added[k]).name == tools[i].name;
                assert(has_name(before.tools, added[k].name));
            }
            assert(after.routes[tools[i].name] == before.routes[tools[i].name]);
        } else {
            assert(tools[i] == added[i - m]);
            assert(has_name(added, tools[i].name));
            assert(after.routes[tools[i].name].child == child);
        }
    }
    assert forall|name: Seq<char>| #[trigger] after.routes.contains_key(name) implies has_name(
        tools.skip(n),
        name,
    ) by {
        assert(tools.skip(n) =~= before.tools.skip(n) + added);
        lemma_has_name_in_sum(before.tools.skip(n), added, name);
    }
}

/// A sound draft stays sound when a running child is taken up, or not taken up because of its allowlist.
pub proof fn law_taking_up_a_child_keeps_the_catalog_sound(
    draft: Draft,
    item: LoadedText,
    child: RunningChild,
    reused: bool,
    mode: Mode,
)
    requires
        draft_sound(draft),
    ensures
        with_child(draft, item, child, reused, mode) matches Ok(drawn) ==> draft_sound(drawn.0),
{
    let result = with_child(draft, item, child, reused, mode);
    if result is Ok {
        let (drawn, kept) = result->Ok_0;
        if kept {
            let name = item.config.name;
            let exposed = exposure(item.config, mode, child.tools, draft.names)->Ok_0;
            lemma_exposure(item.config, mode, child.tools, draft.names);
            assert forall|n: Seq<char>| #[trigger]
                drawn.catalog.routes.contains_key(n) <==> draft.catalog.routes.contains_key(n)
                    || has_name(exposed, n) by {
                lemma_routed(draft.catalog.routes, exposed, child.tools, name, n);
            }
            assert forall|n: Seq<char>| has_name(exposed, n) implies (
            #[trigger] drawn.catalog.routes[n]).child == name by {
                lemma_routed(draft.catalog.routes, exposed, child.tools, name, n);
            }
            assert forall|n: Seq<char>|
                draft.catalog.routes.contains_key(n) && !has_name(exposed, n) implies #[trigger] drawn.catalog.routes[n]
                == draft.catalog.routes[n] by {
                lemma_routed(draft.catalog.routes, exposed, child.tools, name, n);
            }
            lemma_added_tools_keep_soundness(draft.catalog, drawn.catalog, exposed, name);
            assert forall|n: Seq<char>| #[trigger] drawn.names.contains(n) <==> has_name(
                drawn.catalog.tools,
                n,
            ) by {
                lemma_claimed(draft.names, exposed, n);
                lemma_has_name_in_sum(draft.catalog.tools, exposed, n);
            }
        }
    }
}

proof fn lemma_tools_of(catalog: Catalog, child: Seq<char>)
    requires
        sound(catalog),
    ensures
        ({
            let tools = tools_of(catalog, child);
            &&& forall|k: int|
                0 <= k < tools.len() ==> (#[trigger] tools[k]).child == Some(child)
                    && routes_of(catalog.routes, child).contains_key(tools[k].name)
            &&& forall|k: int, l: int|
                0 <= k < l < tools.len() ==> (#[trigger] tools[k]).name != (#[trigger] tools[l]).name
            &&& forall|name: Seq<char>| #[trigger]
                routes_of(catalog.routes, child).contains_key(name) ==> has_name(tools, name)
        }),
{
    lemma_builtin_names();
    let n = builtins().len() as int;
    let pred = leads_to_child(catalog.routes, child);
    let tools = tools_of(catalog, child);
    let all = catalog.tools;
    lemma_filter_is_a_part(all, pred);
    assert forall|k: int| 0 <= k < tools.len() implies (#[trigger] tools[k]).child == Some(child)
        && routes_of(catalog.routes, child).contains_key(tools[k].name) by {
        let i = choose|i: int| 0 <= i < all.len() && all[i] == tools[k];
        if i < n {
            assert(all.take(n)[i] == all[i]);
            assert(has_name(all.skip(n), all[i].name));
            let j = choose|j: int|
                0 <= j < all.skip(n).len() && (#[trigger] all.skip(n)[j]).name == all[i].name;
            assert(all[n + j].name == all[i].name);
        }
    }
    assert forall|name: Seq<char>| #[trigger]
        routes_of(catalog.routes, child).contains_key(name) implies has_name(tools, name) by {
        assert(catalog.routes.contains_key(name));
        let j = choose|j: int|
            0 <= j < all.skip(n).len() && (#[trigger] all.skip(n)[j]).name == name;
        assert(pred(all[n + j]));
        assert(tools.contains(all[n + j]));
        let k = choose|k: int| 0 <= k < tools.len() && tools[k] == all[n + j];
        assert(tools[k].name == name);
    }
}

proof fn lemma_filter_is_a_part(all: Seq<ListedTool>, pred: spec_fn(ListedTool) -> bool)
    requires
        forall|i: int, j: int|
            0 <= i < j < all.len() ==> (#[trigger] all[i]).name != (#[trigger] all[j]).name,
    ensures
        ({
            let part = all.filter(pred);
            &&& forall|k: int|
                0 <= k < part.len() ==> pred(#[trigger] part[k]) && all.contains(part[k])
            &&& forall|i: int|
                0 <= i < all.len() && pred(#[trigger] all[i]) ==> part.contains(all[i])
            &&& forall|k: int, l: int|
                0 <= k < l < part.len() ==> (#[trigger] part[k]).name != (#[trigger] part[l]).name
        }),
    decreases all.len(),
{
    reveal(Seq::filter);
    if all.len() > 0 {
        let rest = all.drop_last();
        lemma_filter_is_a_part(rest, pred);
        let less = rest.filter(pred);
        let part = all.filter(pred);
        assert forall|k: int| 0 <= k < part.len() implies pred(#[trigger] part[k])
            && all.contains(part[k]) by {
            if k < less.len() {
                assert(less[k] == part[k]);
                let i = choose|i: int| 0 <= i < rest.len() && rest[i] == less[k];
                assert(all[i] == part[k]);
            } else {
                assert(all[all.len() - 1] == part[k]);
            }
        }
        assert forall|i: int| 0 <= i < all.len() && pred(#[trigger] all[i]) implies part.contains(
            all[i],
        ) by {
            if i < rest.len() {
                assert(rest[i] == all[i]);
                assert(less.contains(rest[i]));
                let k = choose|k: int| 0 <= k < less.len() && less[k] == rest[i];
                assert(part[k] == all[i]);
            } else {
                assert(part[part.len() - 1] == all[i]);
            }
        }
        assert forall|k: int, l: int| 0 <= k < l < part.len() implies (#[trigger] part[k]).name != (
        #[trigger] part[l]).name by {
            assert(less[k] == part[k]);
            if l < less.len() {
                assert(less[l] == part[l]);
            } else {
                let i = choose|i: int| 0 <= i < rest.len() && rest[i] == less[k];
                assert(all[i] == part[k]);
                assert(all[all.len() - 1] == part[l]);
            }
        }
    }
}

/// A child of a sound catalog has as many tools as routes, so that only a name that is taken can keep it from being
/// retained.
pub proof fn law_a_sound_catalog_can_be_retained(catalog: Catalog, child: Seq<char>)
    requires
        sound(catalog),
    ensures
        tools_of(catalog, child).len() == routes_of(catalog.routes, child).len(),
{
    lemma_tools_of(catalog, child);
    let tools = tools_of(catalog, child);
    let own = routes_of(catalog.routes, child);
    let tool_names = tools.map_values(|tool: ListedTool| tool.name);
    assert(tool_names.no_duplicates());
    tool_names.unique_seq_to_set();
    assert(tool_names.to_set() =~= own.dom()) by {
        assert forall|name: Seq<char>| tool_names.to_set().contains(name) <==> own.dom().contains(
            name,
        ) by {
            if tool_names.contains(name) {
                let k = choose|k: int| 0 <= k < tool_names.len() && tool_names[k] == name;
                assert(own.contains_key(tools[k].name));
            }
            if own.contains_key(name) {
                let k = choose|k: int| 0 <= k < tools.len() && (#[trigger] tools[k]).name == name;
                assert(tool_names[k] == name);
            }
        }
    }
}

/// A sound draft stays sound when a child of a sound catalog in use is retained; the child, its tools and its routes
/// are then in the new catalog as they were.
pub proof fn law_retaining_keeps_the_last_known_good_child(
    draft: Draft,
    previous: Catalog,
    item: LoadedText,
    error: Seq<char>,
)
    requires
        draft_sound(draft),
        sound(previous),
        previous.children.contains_key(item.config.name),
    ensures
        with_retained(draft, previous, item, error) matches Ok(drawn) ==> {
            &&& draft_sound(drawn)
            &&& drawn.catalog.children[item.config.name] == previous.children[item.config.name]
            &&& drawn.reused.contains(item.config.name)
            &&& forall|name: Seq<char>|
                previous.routes.contains_key(name) && previous.routes[name].child
                    == item.config.name ==> drawn.catalog.routes.contains_key(name)
                    && #[trigger] drawn.catalog.routes[name] == previous.routes[name]
        },
        with_retained(draft, previous, item, error) is Err <==> exists|name: Seq<char>| #[trigger]
            routes_of(previous.routes, item.config.name).contains_key(name)
                && draft.names.contains(name),
{
    let child = item.config.name;
    law_a_sound_catalog_can_be_retained(previous, child);
    let result = with_retained(draft, previous, item, error);
    if result is Ok {
        let drawn = result->Ok_0;
        let tools = tools_of(previous, child);
        let own = routes_of(previous.routes, child);
        lemma_tools_of(previous, child);
        assert forall|name: Seq<char>| has_name(tools, name) <==> #[trigger] own.contains_key(
            name,
        ) by {
            if has_name(tools, name) {
                let k = choose|k: int| 0 <= k < tools.len() && (#[trigger] tools[k]).name == name;
                assert(own.contains_key(tools[k].name));
            }
        }
        assert forall|k: int| 0 <= k < tools.len() implies (#[trigger] tools[k]).child == Some(child)
            && !has_name(draft.catalog.tools, tools[k].name) by {
            assert(own.contains_key(tools[k].name));
            assert(!draft.names.contains(tools[k].name));
        }
        assert forall|name: Seq<char>| #[trigger]
            drawn.catalog.routes.contains_key(name) <==> draft.catalog.routes.contains_key(name)
                || has_name(tools, name) by {
            assert(has_name(tools, name) <==> own.contains_key(name));
        }
        assert forall|name: Seq<char>| has_name(tools, name) implies (
        #[trigger] drawn.catalog.routes[name]).child == child by {
            assert(own.contains_key(name));
        }
        assert forall|name: Seq<char>|
            draft.catalog.routes.contains_key(name) && !has_name(tools, name) implies #[trigger] drawn.catalog.routes[name]
            == draft.catalog.routes[name] by {
            assert(!own.contains_key(name));
        }
        lemma_added_tools_keep_soundness(draft.catalog, drawn.catalog, tools, child);
        assert forall|name: Seq<char>| #[trigger] drawn.names.contains(name) <==> has_name(
            drawn.catalog.tools,
            name,
        ) by {
            lemma_has_name_in_sum(draft.catalog.tools, tools, name);
            assert(has_name(tools, name) <==> own.contains_key(name));
        }
        assert forall|name: Seq<char>|
            previous.routes.contains_key(name) && previous.routes[name].child == child implies drawn.catalog.routes.contains_key(name)
            && #[trigger] drawn.catalog.routes[name] == previous.routes[name] by {
            assert(own.contains_key(name));
        }
    }
}

/// A child that could not be started leaves a sound draft sound; a catalog in use that was sound is sound after it.
pub proof fn law_a_failed_start_keeps_the_catalogs_sound(
    draft: Draft,
    previous: Catalog,
    item: LoadedText,
    error: Seq<char>,
    closed: bool,
    now_ms: u64,
)
    requires
        draft_sound(draft),
        sound(previous),
    ensures
        sound(after_failure(previous, item.config.name, closed, now_ms)),
        with_failure(
            draft,
            after_failure(previous, item.config.name, closed, now_ms),
            item,
            error,
            closed,
        ) matches Ok(drawn) ==> draft_sound(drawn),
{
    let after = after_failure(previous, item.config.name, closed, now_ms);
    assert(after.children.dom() =~= previous.children.dom());
    assert(sound(after));
    if after.children.contains_key(item.config.name) && !closed {
        law_retaining_keeps_the_last_known_good_child(draft, after, item, error);
    }
}

/// In a sound catalog no route has the name of one of the gateway's own tools.
pub proof fn law_own_tools_are_never_shadowed(catalog: Catalog, name: Seq<char>)
    requires
        sound(catalog),
        builtin_name(name),
    ensures
        !catalog.routes.contains_key(name),
{
    lemma_builtin_names();
    let n = builtins().len() as int;
    if catalog.routes.contains_key(name) {
        let all = catalog.tools;
        assert(has_name(builtins(), name));
        let i = choose|i: int| 0 <= i < builtins().len() && (#[trigger] builtins()[i]).name == name;
        assert(all.take(n)[i] == all[i]);
        let j = choose|j: int|
            0 <= j < all.skip(n).len() && (#[trigger] all.skip(n)[j]).name == name;
        assert(all[n + j].name == all[i].name);
    }
}

/// In a sound catalog every route leads to a child that runs.
pub proof fn law_routes_lead_to_running_children(catalog: Catalog, name: Seq<char>)
    requires
        sound(catalog),
        catalog.routes.contains_key(name),
    ensures
        catalog.children.contains_key(catalog.routes[name].child),
{
    let n = builtins().len() as int;
    let all = catalog.tools;
    let j = choose|j: int| 0 <= j < all.skip(n).len() && (#[trigger] all.skip(n)[j]).name == name;
    assert(all[n + j].name == name);
}

/// A catalog in use: a sound one, or the empty one that a gateway starts with.
pub open spec fn in_use(catalog: Catalog) -> bool {
    sound(catalog) || catalog == Catalog::empty()
}

/// Every catalog that a reload draws up is sound, and the one in use stays as sound as it was meanwhile.
pub proof fn law_reloads_draw_up_sound_catalogs(previous: Catalog, mode: Mode, steps: Seq<Step>)
    requires
        in_use(previous),
        forall|i: int|
            0 <= i < steps.len() && (#[trigger] steps[i]).arrived is Reused
                ==> previous.children.contains_key(steps[i].item.config.name),
    ensures
        drawn_up(previous, mode, steps) matches Ok(result) ==> draft_sound(result.0) && in_use(
            result.1,
        ) && result.1.children.dom() == previous.children.dom(),
    decreases steps.len(),
{
    if steps.len() == 0 {
        law_new_catalogs_start_sound();
    } else {
        let rest = steps.drop_last();
        assert forall|i: int| 0 <= i < rest.len() && (#[trigger] rest[i]).arrived is Reused implies previous.children.contains_key(
        rest[i].item.config.name) by {
            assert(rest[i] == steps[i]);
        }
        law_reloads_draw_up_sound_catalogs(previous, mode, rest);
        if drawn_up(previous, mode, rest) is Ok {
            let (draft, catalog) = drawn_up(previous, mode, rest)->Ok_0;
            let step = steps.last();
            let name = step.item.config.name;
            let after = previous_after(catalog, mode, step);
            assert(steps[steps.len() - 1] == step);
            match step.arrived {
                Arrived::Skipped => {},
                Arrived::Reused => {
                    law_taking_up_a_child_keeps_the_catalog_sound(
                        draft,
                        step.item,
                        governed(catalog.children[name], mode),
                        true,
                        mode,
                    );
                },
                Arrived::Started(signature, tools) => {
                    let stopped = if catalog.children.contains_key(name) && step.closed {
                        Some(catalog.children[name])
                    } else {
                        None
                    };
                    law_taking_up_a_child_keeps_the_catalog_sound(
                        draft,
                        step.item,
                        governed(
                            started(step.item.config, signature, tools, step.now_ms, stopped),
                            mode,
                        ),
                        false,
                        mode,
                    );
                },
                Arrived::Failed(error) => {
                    if sound(catalog) {
                        law_a_failed_start_keeps_the_catalogs_sound(
                            draft,
                            catalog,
                            step.item,
                            error,
                            step.closed,
                            step.now_ms,
                        );
                    }
                },
            }
            assert(after.children.dom() =~= catalog.children.dom());
        }
    }
}

/// Two catalogs with the same tools, routes and conditions, and with the same children but for their recovery.
pub open spec fn serves_alike(a: Catalog, b: Catalog) -> bool {
    &&& a.tools == b.tools
    &&& a.routes == b.routes
    &&& a.statuses == b.statuses
    &&& a.children.dom() == b.children.dom()
    &&& forall|name: Seq<char>| #[trigger]
        a.children.contains_key(name) ==> {
            &&& a.children[name].config == b.children[name].config
            &&& a.children[name].command_signature == b.children[name].command_signature
            &&& a.children[name].tools == b.children[name].tools
            &&& a.children[name].recovery.generation == b.children[name].recovery.generation
        }
}

/// The catalog in use after the steps of a reload.
pub open spec fn in_use_after(previous: Catalog, mode: Mode, steps: Seq<Step>) -> Catalog
    decreases steps.len(),
{
    if steps.len() == 0 {
        previous
    } else {
        previous_after(in_use_after(previous, mode, steps.drop_last()), mode, steps.last())
    }
}

/// A reload keeps the catalog in use serving until the new one takes its place, also where the reload is given up:
/// it changes nothing of it but the state of recovery of the children, and no generation.
pub proof fn law_a_reload_keeps_the_catalog_in_use_serving(
    previous: Catalog,
    mode: Mode,
    steps: Seq<Step>,
)
    requires
        forall|i: int|
            0 <= i < steps.len() && (#[trigger] steps[i]).arrived is Reused
                ==> previous.children.contains_key(steps[i].item.config.name),
    ensures
        serves_alike(previous, in_use_after(previous, mode, steps)),
        drawn_up(previous, mode, steps) matches Ok(result) ==> result.1 == in_use_after(
            previous,
            mode,
            steps,
        ),
    decreases steps.len(),
{
    if steps.len() > 0 {
        let rest = steps.drop_last();
        assert forall|i: int| 0 <= i < rest.len() && (#[trigger] rest[i]).arrived is Reused implies previous.children.contains_key(
        rest[i].item.config.name) by {
            assert(rest[i] == steps[i]);
        }
        law_a_reload_keeps_the_catalog_in_use_serving(previous, mode, rest);
        let before = in_use_after(previous, mode, rest);
        let after = in_use_after(previous, mode, steps);
        assert(steps[steps.len() - 1] == steps.last());
        assert(after.children.dom() =~= before.children.dom());
        assert forall|name: Seq<char>| #[trigger] previous.children.contains_key(name) implies ({
            &&& previous.children[name].config == after.children[name].config
            &&& previous.children[name].command_signature == after.children[name].command_signature
            &&& previous.children[name].tools == after.children[name].tools
            &&& previous.children[name].recovery.generation
                == after.children[name].recovery.generation
        }) by {
            assert(before.children.contains_key(name));
        }
    }
}

/// The step accounts for a route: it took up a child that offers the tool, which the child's allowlist and the policy
/// let through; or the child's replacement failed, and the route is the one in use.
pub open spec fn accounts_for(
    step: Step,
    previous: Catalog,
    mode: Mode,
    name: Seq<char>,
    route: Route,
) -> bool {
    &&& step.item.config.name == route.child
    &&& match step.arrived {
        Arrived::Skipped => false,
        Arrived::Reused | Arrived::Started(_, _) => visible(
            step.item.config,
            mode,
            route.original_name,
        ),
        Arrived::Failed(_) => !step.closed && previous.routes.contains_key(name)
            && previous.routes[name] == route,
    }
}

proof fn lemma_taking_up_accounts_for_routes(
    draft: Draft,
    item: LoadedText,
    child: RunningChild,
    reused: bool,
    mode: Mode,
    name: Seq<char>,
)
    requires
        with_child(draft, item, child, reused, mode) is Ok,
        (with_child(draft, item, child, reused, mode)->Ok_0).0.catalog.routes.contains_key(name),
    ensures
        ({
            let route = (with_child(draft, item, child, reused, mode)->Ok_0).0.catalog.routes[name];
            ||| draft.catalog.routes.contains_key(name) && draft.catalog.routes[name] == route
            ||| route.child == item.config.name && visible(item.config, mode, route.original_name)
        }),
{
    let (drawn, kept) = with_child(draft, item, child, reused, mode)->Ok_0;
    if kept {
        let exposed = exposure(item.config, mode, child.tools, draft.names)->Ok_0;
        lemma_exposure(item.config, mode, child.tools, draft.names);
        lemma_routed(draft.catalog.routes, exposed, child.tools, item.config.name, name);
        if has_name(exposed, name) {
            let k = choose|k: int| 0 <= k < exposed.len() && (#[trigger] exposed[k]).name == name;
            assert(visible(item.config, mode, child.tools[exposed[k].place].name));
        }
    }
}

/// A tool that is filtered out is not routable: every route of a catalog that a reload draws up leads to a tool that
/// its child's allowlist and the policy let through, or is the route in use of a child that is retained because its
/// replacement failed.
pub proof fn law_filtered_tools_are_not_routable(
    previous: Catalog,
    mode: Mode,
    steps: Seq<Step>,
    name: Seq<char>,
)
    requires
        forall|i: int|
            0 <= i < steps.len() && (#[trigger] steps[i]).arrived is Reused
                ==> previous.children.contains_key(steps[i].item.config.name),
        drawn_up(previous, mode, steps) is Ok,
        (drawn_up(previous, mode, steps)->Ok_0).0.catalog.routes.contains_key(name),
    ensures
        exists|i: int|
            0 <= i < steps.len() && accounts_for(
                #[trigger] steps[i],
                previous,
                mode,
                name,
                (drawn_up(previous, mode, steps)->Ok_0).0.catalog.routes[name],
            ),
    decreases steps.len(),
{
    if steps.len() > 0 {
        let rest = steps.drop_last();
        let step = steps.last();
        let (draft, catalog) = drawn_up(previous, mode, rest)->Ok_0;
        let (drawn, after) = drawn_up(previous, mode, steps)->Ok_0;
        let route = drawn.catalog.routes[name];
        let child = step.item.config.name;
        assert forall|i: int| 0 <= i < rest.len() && (#[trigger] rest[i]).arrived is Reused implies previous.children.contains_key(
        rest[i].item.config.name) by {
            assert(rest[i] == steps[i]);
        }
        law_a_reload_keeps_the_catalog_in_use_serving(previous, mode, rest);
        assert(steps[steps.len() - 1] == step);
        match step.arrived {
            Arrived::Skipped => {},
            Arrived::Reused => {
                lemma_taking_up_accounts_for_routes(
                    draft,
                    step.item,
                    governed(catalog.children[child], mode),
                    true,
                    mode,
                    name,
                );
            },
            Arrived::Started(signature, tools) => {
                let stopped = if catalog.children.contains_key(child) && step.closed {
                    Some(catalog.children[child])
                } else {
                    None
                };
                lemma_taking_up_accounts_for_routes(
                    draft,
                    step.item,
                    governed(
                        started(step.item.config, signature, tools, step.now_ms, stopped),
                        mode,
                    ),
                    false,
                    mode,
                    name,
                );
            },
            Arrived::Failed(error) => {
                assert(routes_of(after.routes, child).contains_key(name) ==> !step.closed
                    || drawn.catalog.routes == draft.catalog.routes);
            },
        }
        if !accounts_for(step, previous, mode, name, route) {
            assert(draft.catalog.routes.contains_key(name) && draft.catalog.routes[name] == route);
            law_filtered_tools_are_not_routable(previous, mode, rest, name);
            let i = choose|i: int|
                0 <= i < rest.len() && accounts_for(
                    #[trigger] rest[i],
                    previous,
                    mode,
                    name,
                    route,
                );
            assert(steps[i] == rest[i]);
        }
    }
}

/// A child that runs unchanged serves on in the new catalog as it is: with its tools, its generation and its state of
/// recovery, and as one of those that are not stopped.
pub proof fn law_unchanged_children_serve_on(
    draft: Draft,
    previous: Catalog,
    item: LoadedText,
    mode: Mode,
)
    requires
        previous.children.contains_key(item.config.name),
    ensures
        with_child(
            draft,
            item,
            governed(previous.children[item.config.name], mode),
            true,
            mode,
        ) matches Ok(drawn) ==> drawn.1 ==> {
            let was = previous.children[item.config.name];
            let child = drawn.0.catalog.children[item.config.name];
            &&& drawn.0.catalog.children.contains_key(item.config.name)
            &&& child.config == was.config
            &&& child.command_signature == was.command_signature
            &&& child.tools == was.tools
            &&& child.recovery == was.recovery
            &&& drawn.0.reused.contains(item.config.name)
        },
{
}

proof fn lemma_missing_is_found(allowlist: Seq<Seq<char>>, tools: Seq<OfferedTool>, i: int)
    requires
        0 <= i < allowlist.len(),
        !offered_by(tools, allowlist[i]),
    ensures
        missing(allowlist, tools) is Some,
    decreases allowlist.len(),
{
    if i < allowlist.len() - 1 {
        lemma_missing_is_found(allowlist.drop_last(), tools, i);
    }
}

/// A child whose allowlist names a tool that it does not offer is not taken up: nothing of it is exposed, and its
/// condition tells that it failed.
pub proof fn law_unknown_allowlist_entries_are_rejected(
    draft: Draft,
    item: LoadedText,
    child: RunningChild,
    reused: bool,
    mode: Mode,
    i: int,
)
    requires
        0 <= i < item.config.tool_allowlist.len(),
        !offered_by(child.tools, item.config.tool_allowlist[i]),
    ensures
        with_child(draft, item, child, reused, mode) matches Ok(drawn) && {
            let status = drawn.0.catalog.statuses[item.config.name];
            &&& !drawn.1
            &&& drawn.0.catalog.tools == draft.catalog.tools
            &&& drawn.0.catalog.routes == draft.catalog.routes
            &&& drawn.0.catalog.children == draft.catalog.children
            &&& drawn.0.reused == draft.reused
            &&& !status.running
            &&& status.tool_count == 0
            &&& status.error is Some
        },
{
    lemma_missing_is_found(item.config.tool_allowlist, child.tools, i);
}

/// The children that the steps take over run.
pub open spec fn takes_over_running(previous: Catalog, steps: Seq<Step>) -> bool {
    forall|i: int|
        0 <= i < steps.len() && (#[trigger] steps[i]).arrived is Reused
            ==> previous.children.contains_key(steps[i].item.config.name)
}

/// Some step is about the child.
pub open spec fn named(steps: Seq<Step>, child: Seq<char>) -> bool {
    exists|i: int| 0 <= i < steps.len() && (#[trigger] steps[i]).item.config.name == child
}

/// No two steps are about one child.
pub open spec fn about_distinct_children(steps: Seq<Step>) -> bool {
    forall|i: int, j: int|
        0 <= i < j < steps.len() ==> (#[trigger] steps[i]).item.config.name != (
        #[trigger] steps[j]).item.config.name
}

/// The new catalog that the steps draw up.
pub open spec fn draft_of(previous: Catalog, mode: Mode, steps: Seq<Step>) -> Draft {
    (drawn_up(previous, mode, steps)->Ok_0).0
}

/// The child serves on: it is in both catalogs, with the same tools listed and the same routes.
pub open spec fn serves_on(before: Catalog, after: Catalog, child: Seq<char>) -> bool {
    &&& before.children.contains_key(child)
    &&& after.children.contains_key(child)
    &&& after.children[child].config == before.children[child].config
    &&& after.children[child].command_signature == before.children[child].command_signature
    &&& after.children[child].tools == before.children[child].tools
    &&& after.children[child].recovery == before.children[child].recovery
    &&& routes_of(after.routes, child) == routes_of(before.routes, child)
    &&& tools_of(after, child) == tools_of(before, child)
}

/// The child serves on, and nothing that is told of it has changed.
pub open spec fn keeps_child(before: Catalog, after: Catalog, child: Seq<char>) -> bool {
    &&& serves_on(before, after, child)
    &&& after.children[child] == before.children[child]
    &&& after.statuses.contains_key(child) == before.statuses.contains_key(child)
    &&& after.statuses[child] == before.statuses[child]
}

proof fn lemma_filter_none(all: Seq<ListedTool>, pred: spec_fn(ListedTool) -> bool)
    requires
        forall|i: int| 0 <= i < all.len() ==> !pred(#[trigger] all[i]),
    ensures
        all.filter(pred) == Seq::<ListedTool>::empty(),
    decreases all.len(),
{
    reveal(Seq::filter);
    if all.len() > 0 {
        assert(!pred(all[all.len() - 1]));
        assert forall|i: int| 0 <= i < all.drop_last().len() implies !pred(
            #[trigger] all.drop_last()[i],
        ) by {
            assert(all.drop_last()[i] == all[i]);
        }
        lemma_filter_none(all.drop_last(), pred);
    }
}

proof fn lemma_filter_all(all: Seq<ListedTool>, pred: spec_fn(ListedTool) -> bool)
    requires
        forall|i: int| 0 <= i < all.len() ==> pred(#[trigger] all[i]),
    ensures
        all.filter(pred) == all,
    decreases all.len(),
{
    reveal(Seq::filter);
    if all.len() > 0 {
        assert(pred(all[all.len() - 1]));
        assert forall|i: int| 0 <= i < all.drop_last().len() implies pred(
            #[trigger] all.drop_last()[i],
        ) by {
            assert(all.drop_last()[i] == all[i]);
        }
        lemma_filter_all(all.drop_last(), pred);
        assert(all.drop_last().push(all.last()) =~= all);
    }
}

/// Tools of others that are added to a catalog are none of a child's.
proof fn lemma_added_tools_of_others(
    before: Catalog,
    after: Catalog,
    added: Seq<ListedTool>,
    child: Seq<char>,
)
    requires
        after.tools == before.tools + added,
        routes_of(after.routes, child) == routes_of(before.routes, child),
        forall|k: int|
            0 <= k < added.len() ==> !routes_of(before.routes, child).contains_key(
                (#[trigger] added[k]).name,
            ),
    ensures
        tools_of(after, child) == tools_of(before, child),
{
    let first = leads_to_child(before.routes, child);
    let second = leads_to_child(after.routes, child);
    assert forall|tool: ListedTool| #[trigger] first(tool) == second(tool) by {
        assert(first(tool) == routes_of(before.routes, child).contains_key(tool.name));
        assert(second(tool) == routes_of(after.routes, child).contains_key(tool.name));
    }
    assert(first =~= second);
    Seq::filter_distributes_over_add(before.tools, added, second);
    assert forall|k: int| 0 <= k < added.len() implies !second(#[trigger] added[k]) by {
        assert(second(added[k]) == routes_of(after.routes, child).contains_key(added[k].name));
    }
    lemma_filter_none(added, second);
    assert(before.tools.filter(first) + Seq::<ListedTool>::empty() =~= before.tools.filter(first));
}

/// Tools of a child that are added to a catalog without any of that child are the child's.
proof fn lemma_added_tools_of_its_own(
    before: Catalog,
    after: Catalog,
    added: Seq<ListedTool>,
    child: Seq<char>,
)
    requires
        after.tools == before.tools + added,
        forall|i: int|
            0 <= i < before.tools.len() ==> !routes_of(after.routes, child).contains_key(
                (#[trigger] before.tools[i]).name,
            ),
        forall|k: int|
            0 <= k < added.len() ==> routes_of(after.routes, child).contains_key(
                (#[trigger] added[k]).name,
            ),
    ensures
        tools_of(after, child) == added,
{
    let pred = leads_to_child(after.routes, child);
    Seq::filter_distributes_over_add(before.tools, added, pred);
    lemma_filter_none(before.tools, pred);
    lemma_filter_all(added, pred);
    assert(Seq::<ListedTool>::empty() + added =~= added);
}

proof fn lemma_routes_take_names(draft: Draft, name: Seq<char>)
    requires
        draft_sound(draft),
    ensures
        draft.catalog.routes.contains_key(name) ==> draft.names.contains(name),
        draft.names.contains(name) ==> builtin_name(name) || draft.catalog.routes.contains_key(name),
{
    lemma_builtin_names();
    let n = builtins().len() as int;
    let all = draft.catalog.tools;
    if draft.catalog.routes.contains_key(name) {
        let j = choose|j: int|
            0 <= j < all.skip(n).len() && (#[trigger] all.skip(n)[j]).name == name;
        assert(all[n + j].name == name);
    }
    if draft.names.contains(name) {
        let i = choose|i: int| 0 <= i < all.len() && (#[trigger] all[i]).name == name;
        if i < n {
            assert(all.take(n)[i] == all[i]);
            assert(builtins()[i].name == name);
        }
    }
}

proof fn lemma_taking_up_keeps_others(
    draft: Draft,
    item: LoadedText,
    child: RunningChild,
    reused: bool,
    mode: Mode,
    other: Seq<char>,
)
    requires
        draft_sound(draft),
        with_child(draft, item, child, reused, mode) is Ok,
        draft.catalog.children.contains_key(other),
        other != item.config.name,
    ensures
        keeps_child(
            draft.catalog,
            (with_child(draft, item, child, reused, mode)->Ok_0).0.catalog,
            other,
        ),
{
    let before = draft.catalog;
    let (drawn, kept) = with_child(draft, item, child, reused, mode)->Ok_0;
    let after = drawn.catalog;
    if kept {
        let exposed = exposure(item.config, mode, child.tools, draft.names)->Ok_0;
        lemma_exposure(item.config, mode, child.tools, draft.names);
        assert forall|name: Seq<char>| #[trigger]
            routes_of(after.routes, other).contains_key(name) == routes_of(
                before.routes,
                other,
            ).contains_key(name) && (routes_of(before.routes, other).contains_key(name)
                ==> after.routes[name] == before.routes[name]) by {
            lemma_routed(before.routes, exposed, child.tools, item.config.name, name);
            lemma_routes_take_names(draft, name);
            if has_name(exposed, name) {
                let k = choose|k: int|
                    0 <= k < exposed.len() && (#[trigger] exposed[k]).name == name;
                assert(!draft.names.contains(exposed[k].name));
            }
        }
        assert(routes_of(after.routes, other) =~= routes_of(before.routes, other));
        assert forall|k: int| 0 <= k < exposed.len() implies !routes_of(
            before.routes,
            other,
        ).contains_key((#[trigger] exposed[k]).name) by {
            lemma_routes_take_names(draft, exposed[k].name);
        }
        lemma_added_tools_of_others(before, after, exposed, other);
    }
}

proof fn lemma_failing_keeps_others(
    draft: Draft,
    previous: Catalog,
    item: LoadedText,
    error: Seq<char>,
    closed: bool,
    other: Seq<char>,
)
    requires
        draft_sound(draft),
        in_use(previous),
        with_failure(draft, previous, item, error, closed) is Ok,
        draft.catalog.children.contains_key(other),
        other != item.config.name,
    ensures
        keeps_child(
            draft.catalog,
            (with_failure(draft, previous, item, error, closed)->Ok_0).catalog,
            other,
        ),
{
    let before = draft.catalog;
    let after = (with_failure(draft, previous, item, error, closed)->Ok_0).catalog;
    let own = routes_of(previous.routes, item.config.name);
    if previous.children.contains_key(item.config.name) && !closed {
        assert forall|name: Seq<char>| #[trigger]
            routes_of(after.routes, other).contains_key(name) == routes_of(
                before.routes,
                other,
            ).contains_key(name) && (routes_of(before.routes, other).contains_key(name)
                ==> after.routes[name] == before.routes[name]) by {
            lemma_routes_take_names(draft, name);
            if before.routes.contains_key(name) {
                assert(!own.contains_key(name));
            }
            assert(own.contains_key(name) ==> own[name].child == item.config.name);
        }
        assert(routes_of(after.routes, other) =~= routes_of(before.routes, other));
        let tools = tools_of(previous, item.config.name);
        lemma_tools_of(previous, item.config.name);
        assert forall|k: int| 0 <= k < tools.len() implies !routes_of(
            before.routes,
            other,
        ).contains_key((#[trigger] tools[k]).name) by {
            assert(own.contains_key(tools[k].name));
            lemma_routes_take_names(draft, tools[k].name);
        }
        lemma_added_tools_of_others(before, after, tools, other);
    }
}

proof fn lemma_step_keeps_others(
    draft: Draft,
    previous: Catalog,
    mode: Mode,
    step: Step,
    other: Seq<char>,
)
    requires
        draft_sound(draft),
        in_use(previous),
        draft_after(draft, previous, mode, step) is Ok,
        draft.catalog.children.contains_key(other),
        other != step.item.config.name,
    ensures
        keeps_child(
            draft.catalog,
            (draft_after(draft, previous, mode, step)->Ok_0).0.catalog,
            other,
        ),
        draft.reused.contains(other) ==> (draft_after(
            draft,
            previous,
            mode,
            step,
        )->Ok_0).0.reused.contains(other),
{
    let name = step.item.config.name;
    match step.arrived {
        Arrived::Skipped => {},
        Arrived::Reused => {
            lemma_taking_up_keeps_others(
                draft,
                step.item,
                governed(previous.children[name], mode),
                true,
                mode,
                other,
            );
        },
        Arrived::Started(signature, tools) => {
            let stopped = if previous.children.contains_key(name) && step.closed {
                Some(previous.children[name])
            } else {
                None
            };
            lemma_taking_up_keeps_others(
                draft,
                step.item,
                governed(
                    started(step.item.config, signature, tools, step.now_ms, stopped),
                    mode,
                ),
                false,
                mode,
                other,
            );
        },
        Arrived::Failed(error) => {
            lemma_failing_keeps_others(
                draft,
                previous_after(previous, mode, step),
                step.item,
                error,
                step.closed,
                other,
            );
        },
    }
}

proof fn lemma_prefix_is_drawn_up(previous: Catalog, mode: Mode, steps: Seq<Step>, n: int)
    requires
        0 <= n <= steps.len(),
        drawn_up(previous, mode, steps) is Ok,
    ensures
        drawn_up(previous, mode, steps.take(n)) is Ok,
    decreases steps.len(),
{
    if n == steps.len() {
        assert(steps.take(n) =~= steps);
    } else {
        lemma_prefix_is_drawn_up(previous, mode, steps.drop_last(), n);
        assert(steps.drop_last().take(n) =~= steps.take(n));
    }
}

proof fn lemma_drafted_children_are_named(
    previous: Catalog,
    mode: Mode,
    steps: Seq<Step>,
    child: Seq<char>,
)
    requires
        drawn_up(previous, mode, steps) is Ok,
        draft_of(previous, mode, steps).catalog.children.contains_key(child),
    ensures
        named(steps, child),
    decreases steps.len(),
{
    if steps.len() > 0 {
        let rest = steps.drop_last();
        let step = steps.last();
        assert(steps[steps.len() - 1] == step);
        if step.item.config.name != child {
            let (draft, catalog) = drawn_up(previous, mode, rest)->Ok_0;
            assert(draft.catalog.children.contains_key(child));
            lemma_drafted_children_are_named(previous, mode, rest, child);
            let i = choose|i: int|
                0 <= i < rest.len() && (#[trigger] rest[i]).item.config.name == child;
            assert(steps[i].item.config.name == child);
        }
    }
}

proof fn lemma_others_leave_the_child_alone(
    previous: Catalog,
    mode: Mode,
    steps: Seq<Step>,
    child: Seq<char>,
)
    requires
        previous.children.contains_key(child),
        !named(steps, child),
    ensures
        in_use_after(previous, mode, steps).children.contains_key(child),
        in_use_after(previous, mode, steps).children[child] == previous.children[child],
    decreases steps.len(),
{
    if steps.len() > 0 {
        let rest = steps.drop_last();
        assert(steps[steps.len() - 1] == steps.last());
        assert(!named(rest, child)) by {
            if named(rest, child) {
                let i = choose|i: int|
                    0 <= i < rest.len() && (#[trigger] rest[i]).item.config.name == child;
                assert(steps[i].item.config.name == child);
            }
        }
        lemma_others_leave_the_child_alone(previous, mode, rest, child);
    }
}

proof fn lemma_later_steps_keep_the_child(
    previous: Catalog,
    mode: Mode,
    steps: Seq<Step>,
    n: int,
    child: Seq<char>,
)
    requires
        in_use(previous),
        takes_over_running(previous, steps),
        drawn_up(previous, mode, steps) is Ok,
        0 <= n <= steps.len(),
        draft_of(previous, mode, steps.take(n)).catalog.children.contains_key(child),
        forall|i: int|
            n <= i < steps.len() ==> (#[trigger] steps[i]).item.config.name != child,
    ensures
        keeps_child(
            draft_of(previous, mode, steps.take(n)).catalog,
            draft_of(previous, mode, steps).catalog,
            child,
        ),
        draft_of(previous, mode, steps.take(n)).reused.contains(child) ==> draft_of(
            previous,
            mode,
            steps,
        ).reused.contains(child),
    decreases steps.len(),
{
    if n == steps.len() {
        assert(steps.take(n) =~= steps);
    } else {
        let rest = steps.drop_last();
        let step = steps.last();
        assert(rest.take(n) =~= steps.take(n));
        assert(steps[steps.len() - 1] == step);
        assert forall|i: int| n <= i < rest.len() implies (#[trigger] rest[i]).item.config.name
            != child by {
            assert(rest[i] == steps[i]);
        }
        assert forall|i: int| 0 <= i < rest.len() && (#[trigger] rest[i]).arrived is Reused implies previous.children.contains_key(
        rest[i].item.config.name) by {
            assert(rest[i] == steps[i]);
        }
        lemma_later_steps_keep_the_child(previous, mode, rest, n, child);
        law_reloads_draw_up_sound_catalogs(previous, mode, rest);
        let (draft, catalog) = drawn_up(previous, mode, rest)->Ok_0;
        lemma_step_keeps_others(draft, catalog, mode, step, child);
    }
}

/// The child is shown as the mode demands: its allowlist is met, exactly the tools that the allowlist and the policy let
/// through are listed, and exactly those have a route, each under its exposed name.
pub open spec fn shown_under(catalog: Catalog, mode: Mode, name: Seq<char>) -> bool {
    let child = catalog.children[name];
    let shown = exposure(child.config, mode, child.tools, Set::empty());
    &&& child.config.name == name
    &&& missing(child.config.tool_allowlist, child.tools) is None
    &&& shown is Ok
    &&& tools_of(catalog, name) == shown->Ok_0
    &&& routes_of(catalog.routes, name) == routed(Map::empty(), shown->Ok_0, child.tools, name)
}

/// Each child is shown as some mode demands: the one that governed when it was taken up.
pub open spec fn well_shown(catalog: Catalog) -> bool {
    forall|name: Seq<char>| #[trigger]
        catalog.children.contains_key(name) ==> exists|mode: Mode| #[trigger]
            shown_under(catalog, mode, name)
}

proof fn lemma_exposure_among_names(
    config: ConfigText,
    mode: Mode,
    tools: Seq<OfferedTool>,
    names: Set<Seq<char>>,
)
    ensures
        exposure(config, mode, tools, names) is Ok ==> exposure(config, mode, tools, Set::empty())
            == exposure(config, mode, tools, names),
        exposure(config, mode, tools, Set::empty()) matches Ok(shown) ==> (forall|k: int|
            0 <= k < shown.len() ==> !names.contains((#[trigger] shown[k]).name)) ==> exposure(
            config,
            mode,
            tools,
            names,
        ) == exposure(config, mode, tools, Set::empty()),
    decreases tools.len(),
{
    if tools.len() > 0 {
        let rest = tools.drop_last();
        lemma_exposure_among_names(config, mode, rest, names);
        if exposure(config, mode, tools, Set::empty()) is Ok {
            let less = exposure(config, mode, rest, Set::empty())->Ok_0;
            let shown = exposure(config, mode, tools, Set::empty())->Ok_0;
            if forall|k: int| 0 <= k < shown.len() ==> !names.contains((#[trigger] shown[k]).name) {
                assert forall|k: int| 0 <= k < less.len() implies !names.contains(
                    (#[trigger] less[k]).name,
                ) by {
                    assert(shown[k] == less[k]);
                }
                if visible(config, mode, tools.last().name) {
                    assert(!names.contains(shown[shown.len() - 1].name));
                }
            }
        }
    }
}

/// No tool of a draft is one of a child that the draft does not hold.
proof fn lemma_tools_of_an_absent_child(draft: Draft, child: Seq<char>, name: Seq<char>)
    requires
        draft_sound(draft),
        !draft.catalog.children.contains_key(child),
    ensures
        !routes_of(draft.catalog.routes, child).contains_key(name),
{
    if draft.catalog.routes.contains_key(name) {
        law_routes_lead_to_running_children(draft.catalog, name);
    }
}

proof fn lemma_taking_up_shows_the_child(
    draft: Draft,
    item: LoadedText,
    child: RunningChild,
    reused: bool,
    mode: Mode,
)
    requires
        draft_sound(draft),
        !draft.catalog.children.contains_key(item.config.name),
        child.config == item.config,
        with_child(draft, item, child, reused, mode) is Ok,
        (with_child(draft, item, child, reused, mode)->Ok_0).1,
    ensures
        shown_under(
            (with_child(draft, item, child, reused, mode)->Ok_0).0.catalog,
            mode,
            item.config.name,
        ),
{
    let before = draft.catalog;
    let name = item.config.name;
    let after = (with_child(draft, item, child, reused, mode)->Ok_0).0.catalog;
    let exposed = exposure(item.config, mode, child.tools, draft.names)->Ok_0;
    lemma_exposure(item.config, mode, child.tools, draft.names);
    lemma_exposure_among_names(item.config, mode, child.tools, draft.names);
    let own = routes_of(after.routes, name);
    let alone = routed(Map::empty(), exposed, child.tools, name);
    assert forall|n: Seq<char>| #[trigger] own.contains_key(n) == alone.contains_key(n) && (
    own.contains_key(n) ==> own[n] == alone[n]) && own.contains_key(n) == has_name(exposed, n) by {
        lemma_routed(before.routes, exposed, child.tools, name, n);
        lemma_routed(Map::empty(), exposed, child.tools, name, n);
        lemma_tools_of_an_absent_child(draft, name, n);
        if has_name(exposed, n) {
            let k = choose|k: int| 0 <= k < exposed.len() && (#[trigger] exposed[k]).name == n;
            assert(after.routes[n].original_name == child.tools[exposed[k].place].name);
        }
    }
    assert(own =~= alone);
    assert forall|i: int| 0 <= i < before.tools.len() implies !own.contains_key(
        (#[trigger] before.tools[i]).name,
    ) by {
        let n = before.tools[i].name;
        assert(has_name(before.tools, n));
        assert(draft.names.contains(n));
        if has_name(exposed, n) {
            let k = choose|k: int| 0 <= k < exposed.len() && (#[trigger] exposed[k]).name == n;
            assert(!draft.names.contains(exposed[k].name));
        }
    }
    assert forall|k: int| 0 <= k < exposed.len() implies own.contains_key(
        (#[trigger] exposed[k]).name,
    ) by {
        assert(has_name(exposed, exposed[k].name));
    }
    lemma_added_tools_of_its_own(before, after, exposed, name);
}

proof fn lemma_retained_children_serve_on(
    draft: Draft,
    previous: Catalog,
    item: LoadedText,
    error: Seq<char>,
)
    requires
        draft_sound(draft),
        sound(previous),
        previous.children.contains_key(item.config.name),
        !draft.catalog.children.contains_key(item.config.name),
        with_retained(draft, previous, item, error) is Ok,
    ensures
        serves_on(
            previous,
            (with_retained(draft, previous, item, error)->Ok_0).catalog,
            item.config.name,
        ),
{
    let name = item.config.name;
    let before = draft.catalog;
    let after = (with_retained(draft, previous, item, error)->Ok_0).catalog;
    let kept = routes_of(previous.routes, name);
    let own = routes_of(after.routes, name);
    assert forall|n: Seq<char>| #[trigger] own.contains_key(n) == kept.contains_key(n) && (
    own.contains_key(n) ==> own[n] == kept[n]) by {
        lemma_tools_of_an_absent_child(draft, name, n);
    }
    assert(own =~= kept);
    let tools = tools_of(previous, name);
    lemma_tools_of(previous, name);
    assert forall|i: int| 0 <= i < before.tools.len() implies !own.contains_key(
        (#[trigger] before.tools[i]).name,
    ) by {
        assert(has_name(before.tools, before.tools[i].name));
        assert(draft.names.contains(before.tools[i].name));
        assert(!kept.contains_key(before.tools[i].name));
    }
    lemma_added_tools_of_its_own(before, after, tools, name);
}

/// The draft before a step about a child that no step before it is about does not hold the child.
proof fn lemma_a_child_comes_up_once(previous: Catalog, mode: Mode, steps: Seq<Step>, n: int)
    requires
        about_distinct_children(steps),
        0 <= n < steps.len(),
        drawn_up(previous, mode, steps.take(n)) is Ok,
    ensures
        !named(steps.take(n), steps[n].item.config.name),
        !draft_of(previous, mode, steps.take(n)).catalog.children.contains_key(
            steps[n].item.config.name,
        ),
{
    let name = steps[n].item.config.name;
    let rest = steps.take(n);
    if named(rest, name) {
        let i = choose|i: int|
            0 <= i < rest.len() && (#[trigger] rest[i]).item.config.name == name;
        assert(steps[i].item.config.name == name);
    }
    if draft_of(previous, mode, rest).catalog.children.contains_key(name) {
        lemma_drafted_children_are_named(previous, mode, rest, name);
    }
}

/// A child whose replacement could not be started is retained: it is in the finished catalog as it was in the one in
/// use, with all its tools and routes, and is told to run, with the fault of its replacement.
pub proof fn law_failed_replacements_leave_the_last_known_good_child(
    previous: Catalog,
    mode: Mode,
    steps: Seq<Step>,
    i: int,
)
    requires
        sound(previous),
        takes_over_running(previous, steps),
        about_distinct_children(steps),
        drawn_up(previous, mode, steps) is Ok,
        0 <= i < steps.len(),
        steps[i].arrived is Failed,
        !steps[i].closed,
        previous.children.contains_key(steps[i].item.config.name),
    ensures
        ({
            let name = steps[i].item.config.name;
            let draft = draft_of(previous, mode, steps);
            &&& serves_on(previous, draft.catalog, name)
            &&& draft.catalog.children[name] == previous.children[name]
            &&& draft.reused.contains(name)
            &&& draft.catalog.statuses.contains_key(name)
            &&& draft.catalog.statuses[name].running
            &&& draft.catalog.statuses[name].error == Some(
                "candidate replacement failed; retaining last known good generation: "@
                    + steps[i].arrived->Failed_0,
            )
        }),
{
    let name = steps[i].item.config.name;
    let rest = steps.take(i);
    let upto = steps.take(i + 1);
    lemma_prefix_is_drawn_up(previous, mode, steps, i);
    lemma_prefix_is_drawn_up(previous, mode, steps, i + 1);
    assert(upto.drop_last() =~= rest);
    assert(upto.last() == steps[i]);
    assert forall|j: int| 0 <= j < rest.len() && (#[trigger] rest[j]).arrived is Reused implies previous.children.contains_key(
    rest[j].item.config.name) by {
        assert(rest[j] == steps[j]);
    }
    law_reloads_draw_up_sound_catalogs(previous, mode, rest);
    law_a_reload_keeps_the_catalog_in_use_serving(previous, mode, rest);
    lemma_a_child_comes_up_once(previous, mode, steps, i);
    lemma_others_leave_the_child_alone(previous, mode, rest, name);
    let (draft, catalog) = drawn_up(previous, mode, rest)->Ok_0;
    assert(sound(catalog));
    lemma_retained_children_serve_on(draft, catalog, steps[i].item, steps[i].arrived->Failed_0);
    assert(tools_of(catalog, name) == tools_of(previous, name));
    assert forall|j: int| i + 1 <= j < steps.len() implies (#[trigger] steps[j]).item.config.name
        != name by {
        assert(steps[i].item.config.name != steps[j].item.config.name);
    }
    lemma_later_steps_keep_the_child(previous, mode, steps, i + 1, name);
}

proof fn lemma_shown_alike(a: Catalog, b: Catalog, mode: Mode, name: Seq<char>)
    requires
        serves_alike(a, b) || serves_on(a, b, name),
        a.children.contains_key(name),
        shown_under(a, mode, name),
    ensures
        shown_under(b, mode, name),
{
    if serves_alike(a, b) {
        assert(tools_of(a, name) == tools_of(b, name));
    }
}

proof fn lemma_a_step_shows_its_child(draft: Draft, previous: Catalog, mode: Mode, step: Step)
    requires
        draft_sound(draft),
        in_use(previous),
        well_shown(previous),
        !draft.catalog.children.contains_key(step.item.config.name),
        step.arrived is Reused ==> previous.children.contains_key(step.item.config.name)
            && previous.children[step.item.config.name].config == step.item.config,
        draft_after(draft, previous, mode, step) is Ok,
        (draft_after(draft, previous, mode, step)->Ok_0).0.catalog.children.contains_key(
            step.item.config.name,
        ),
    ensures
        exists|m: Mode| #[trigger]
            shown_under(
                (draft_after(draft, previous, mode, step)->Ok_0).0.catalog,
                m,
                step.item.config.name,
            ),
{
    let name = step.item.config.name;
    let after = (draft_after(draft, previous, mode, step)->Ok_0).0.catalog;
    match step.arrived {
        Arrived::Skipped => {},
        Arrived::Reused => {
            lemma_taking_up_shows_the_child(
                draft,
                step.item,
                governed(previous.children[name], mode),
                true,
                mode,
            );
            assert(shown_under(after, mode, name));
        },
        Arrived::Started(signature, tools) => {
            let stopped = if previous.children.contains_key(name) && step.closed {
                Some(previous.children[name])
            } else {
                None
            };
            lemma_taking_up_shows_the_child(
                draft,
                step.item,
                governed(
                    started(step.item.config, signature, tools, step.now_ms, stopped),
                    mode,
                ),
                false,
                mode,
            );
            assert(shown_under(after, mode, name));
        },
        Arrived::Failed(error) => {
            assert(previous.children.contains_key(name) && !step.closed);
            lemma_retained_children_serve_on(draft, previous, step.item, error);
            let m = choose|m: Mode| #[trigger] shown_under(previous, m, name);
            lemma_shown_alike(previous, after, m, name);
        },
    }
}

/// Every catalog that a reload draws up shows each of its children as some mode demands, if the one in use did.
pub proof fn law_reloads_draw_up_well_shown_catalogs(
    previous: Catalog,
    mode: Mode,
    steps: Seq<Step>,
)
    requires
        in_use(previous),
        well_shown(previous),
        about_distinct_children(steps),
        forall|i: int|
            0 <= i < steps.len() && (#[trigger] steps[i]).arrived is Reused
                ==> previous.children.contains_key(steps[i].item.config.name)
                && previous.children[steps[i].item.config.name].config == steps[i].item.config,
    ensures
        drawn_up(previous, mode, steps) is Ok ==> well_shown(
            draft_of(previous, mode, steps).catalog,
        ),
    decreases steps.len(),
{
    if steps.len() > 0 && drawn_up(previous, mode, steps) is Ok {
        let rest = steps.drop_last();
        let step = steps.last();
        let name = step.item.config.name;
        assert(rest =~= steps.take(steps.len() - 1));
        assert(steps[steps.len() - 1] == step);
        assert forall|i: int| 0 <= i < rest.len() && (#[trigger] rest[i]).arrived is Reused implies previous.children.contains_key(
        rest[i].item.config.name) && previous.children[rest[i].item.config.name].config
            == rest[i].item.config by {
            assert(rest[i] == steps[i]);
        }
        law_reloads_draw_up_well_shown_catalogs(previous, mode, rest);
        law_reloads_draw_up_sound_catalogs(previous, mode, rest);
        law_a_reload_keeps_the_catalog_in_use_serving(previous, mode, rest);
        lemma_a_child_comes_up_once(previous, mode, steps, steps.len() - 1);
        let (draft, catalog) = drawn_up(previous, mode, rest)->Ok_0;
        let after = draft_of(previous, mode, steps).catalog;
        assert(well_shown(catalog)) by {
            assert forall|other: Seq<char>| #[trigger]
                catalog.children.contains_key(other) implies exists|m: Mode| #[trigger]
                shown_under(catalog, m, other) by {
                assert(previous.children.contains_key(other));
                let m = choose|m: Mode| #[trigger] shown_under(previous, m, other);
                lemma_shown_alike(previous, catalog, m, other);
            }
        }
        assert forall|other: Seq<char>| #[trigger]
            after.children.contains_key(other) implies exists|m: Mode| #[trigger]
            shown_under(after, m, other) by {
            if other == name {
                lemma_a_step_shows_its_child(draft, catalog, mode, step);
            } else {
                assert(draft.catalog.children.contains_key(other));
                let m = choose|m: Mode| #[trigger] shown_under(draft.catalog, m, other);
                lemma_step_keeps_others(draft, catalog, mode, step, other);
                lemma_shown_alike(draft.catalog, after, m, other);
            }
        }
    }
}

/// The empty catalog that a gateway starts with shows each of its children.
pub proof fn law_the_empty_catalog_is_well_shown()
    ensures
        well_shown(Catalog::empty()),
{
}

/// In a catalog that reloads drew up the name of each route is the exposed name of the tool that it leads to, a tool
/// that its child offers, and is a valid name for a tool.
pub proof fn law_route_names_are_exposed_names(catalog: Catalog, name: Seq<char>)
    requires
        in_use(catalog),
        well_shown(catalog),
        catalog.routes.contains_key(name),
    ensures
        ({
            let route = catalog.routes[name];
            let child = catalog.children[route.child];
            &&& catalog.children.contains_key(route.child)
            &&& child.config.name == route.child
            &&& name == exposed_name(child.config, route.original_name)
            &&& named_within(name, MAX_TOOL_NAME as int)
            &&& offered_by(child.tools, route.original_name)
        }),
{
    law_routes_lead_to_running_children(catalog, name);
    let route = catalog.routes[name];
    let child = catalog.children[route.child];
    let mode = choose|mode: Mode| #[trigger] shown_under(catalog, mode, route.child);
    let shown = exposure(child.config, mode, child.tools, Set::empty())->Ok_0;
    lemma_exposure(child.config, mode, child.tools, Set::empty());
    assert(routes_of(catalog.routes, route.child).contains_key(name));
    assert(routes_of(catalog.routes, route.child)[name] == route);
    lemma_routed(Map::empty(), shown, child.tools, route.child, name);
    let k = choose|k: int| 0 <= k < shown.len() && (#[trigger] shown[k]).name == name;
    assert(shown[k] == exposed_tool(child.config, child.tools[shown[k].place], shown[k].place));
}

/// A step of a reload of a directory of unchanged files that starts nothing anew: a disabled child is passed over, an
/// enabled one is taken over unchanged or its replacement fails; none that serves has stopped.
pub open spec fn steady(catalog: Catalog, step: Step) -> bool {
    let name = step.item.config.name;
    match step.arrived {
        Arrived::Skipped => !step.item.config.enabled,
        Arrived::Reused => step.item.config.enabled && catalog.children.contains_key(name)
            && catalog.children[name].config == step.item.config,
        Arrived::Started(_, _) => false,
        Arrived::Failed(_) => step.item.config.enabled && (catalog.children.contains_key(name)
            ==> !step.closed),
    }
}

/// The routes of a draft are routes of the catalog in use.
pub open spec fn routes_within(draft: Draft, previous: Catalog) -> bool {
    forall|name: Seq<char>| #[trigger]
        draft.catalog.routes.contains_key(name) ==> previous.routes.contains_key(name)
            && previous.routes[name] == draft.catalog.routes[name]
}

proof fn lemma_taking_over_succeeds(draft: Draft, previous: Catalog, mode: Mode, item: LoadedText)
    requires
        draft_sound(draft),
        sound(previous),
        routes_within(draft, previous),
        previous.children.contains_key(item.config.name),
        previous.children[item.config.name].config == item.config,
        shown_under(previous, mode, item.config.name),
        !draft.catalog.children.contains_key(item.config.name),
    ensures
        ({
            let name = item.config.name;
            let taken = with_child(
                draft,
                item,
                governed(previous.children[name], mode),
                true,
                mode,
            );
            &&& taken is Ok
            &&& routes_within((taken->Ok_0).0, previous)
            &&& serves_on(previous, (taken->Ok_0).0.catalog, name)
            &&& shown_under((taken->Ok_0).0.catalog, mode, name)
        }),
{
    let name = item.config.name;
    let child = governed(previous.children[name], mode);
    let shown = exposure(item.config, mode, child.tools, Set::empty())->Ok_0;
    let kept = routes_of(previous.routes, name);
    lemma_exposure(item.config, mode, child.tools, Set::empty());
    assert forall|k: int| 0 <= k < shown.len() implies !draft.names.contains(
        (#[trigger] shown[k]).name,
    ) by {
        let n = shown[k].name;
        lemma_routed(Map::empty(), shown, child.tools, name, n);
        assert(has_name(shown, n));
        assert(kept.contains_key(n));
        lemma_routes_take_names(draft, n);
        if builtin_name(n) {
            law_own_tools_are_never_shadowed(previous, n);
        }
        if draft.catalog.routes.contains_key(n) {
            lemma_tools_of_an_absent_child(draft, name, n);
        }
    }
    lemma_exposure_among_names(item.config, mode, child.tools, draft.names);
    let (drawn, _) = with_child(draft, item, child, true, mode)->Ok_0;
    lemma_taking_up_shows_the_child(draft, item, child, true, mode);
    assert forall|n: Seq<char>| #[trigger]
        drawn.catalog.routes.contains_key(n) implies previous.routes.contains_key(n)
        && previous.routes[n] == drawn.catalog.routes[n] by {
        lemma_routed(draft.catalog.routes, shown, child.tools, name, n);
        lemma_routed(Map::empty(), shown, child.tools, name, n);
        if has_name(shown, n) {
            assert(kept.contains_key(n));
            assert(routes_of(drawn.catalog.routes, name).contains_key(n));
            assert(routes_of(drawn.catalog.routes, name)[n] == kept[n]);
        }
    }
}

proof fn lemma_retaining_succeeds(
    draft: Draft,
    previous: Catalog,
    item: LoadedText,
    error: Seq<char>,
)
    requires
        draft_sound(draft),
        sound(previous),
        routes_within(draft, previous),
        previous.children.contains_key(item.config.name),
        !draft.catalog.children.contains_key(item.config.name),
    ensures
        ({
            let retained = with_retained(draft, previous, item, error);
            &&& retained is Ok
            &&& routes_within(retained->Ok_0, previous)
            &&& serves_on(previous, (retained->Ok_0).catalog, item.config.name)
        }),
{
    let name = item.config.name;
    let own = routes_of(previous.routes, name);
    law_retaining_keeps_the_last_known_good_child(draft, previous, item, error);
    assert forall|n: Seq<char>| #[trigger] own.contains_key(n) implies !draft.names.contains(n) by {
        lemma_routes_take_names(draft, n);
        if builtin_name(n) {
            law_own_tools_are_never_shadowed(previous, n);
        }
        if draft.catalog.routes.contains_key(n) {
            lemma_tools_of_an_absent_child(draft, name, n);
        }
    }
    lemma_retained_children_serve_on(draft, previous, item, error);
    let drawn = with_retained(draft, previous, item, error)->Ok_0;
    assert forall|n: Seq<char>| #[trigger]
        drawn.catalog.routes.contains_key(n) implies previous.routes.contains_key(n)
        && previous.routes[n] == drawn.catalog.routes[n] by {
        if own.contains_key(n) {
            assert(own[n] == previous.routes[n]);
        }
    }
}

proof fn lemma_a_steady_step_succeeds(draft: Draft, previous: Catalog, mode: Mode, step: Step)
    requires
        draft_sound(draft),
        sound(previous),
        routes_within(draft, previous),
        steady(previous, step),
        step.arrived is Reused ==> shown_under(previous, mode, step.item.config.name),
        !draft.catalog.children.contains_key(step.item.config.name),
    ensures
        ({
            let name = step.item.config.name;
            let next = draft_after(draft, previous, mode, step);
            &&& next is Ok
            &&& routes_within((next->Ok_0).0, previous)
            &&& step.item.config.enabled && previous.children.contains_key(name) ==> serves_on(
                previous,
                (next->Ok_0).0.catalog,
                name,
            )
            &&& (next->Ok_0).0.catalog.children.contains_key(name)
                ==> previous.children.contains_key(name)
        }),
{
    let name = step.item.config.name;
    match step.arrived {
        Arrived::Reused => {
            lemma_taking_over_succeeds(draft, previous, mode, step.item);
        },
        Arrived::Failed(error) => {
            if previous.children.contains_key(name) {
                lemma_retaining_succeeds(draft, previous, step.item, error);
            }
        },
        _ => {},
    }
}

/// The steps are those of a reload of unchanged files that starts nothing anew, and the children that it takes over are
/// shown as the mode demands.
pub open spec fn all_steady(catalog: Catalog, mode: Mode, steps: Seq<Step>) -> bool {
    &&& about_distinct_children(steps)
    &&& forall|i: int|
        0 <= i < steps.len() ==> steady(catalog, #[trigger] steps[i]) && (steps[i].arrived is Reused
            ==> shown_under(catalog, mode, steps[i].item.config.name))
}

proof fn lemma_a_steady_reload_succeeds(previous: Catalog, mode: Mode, steps: Seq<Step>)
    requires
        sound(previous),
        all_steady(previous, mode, steps),
    ensures
        takes_over_running(previous, steps),
        drawn_up(previous, mode, steps) is Ok,
        routes_within(draft_of(previous, mode, steps), previous),
        forall|child: Seq<char>| #[trigger]
            draft_of(previous, mode, steps).catalog.children.contains_key(child)
                ==> previous.children.contains_key(child),
    decreases steps.len(),
{
    if steps.len() > 0 {
        let rest = steps.drop_last();
        let step = steps.last();
        let name = step.item.config.name;
        assert(steps[steps.len() - 1] == step);
        assert(rest =~= steps.take(steps.len() - 1));
        assert forall|i: int| 0 <= i < rest.len() implies steady(previous, #[trigger] rest[i]) && (
        rest[i].arrived is Reused ==> shown_under(previous, mode, rest[i].item.config.name)) by {
            assert(rest[i] == steps[i]);
        }
        lemma_a_steady_reload_succeeds(previous, mode, rest);
        law_reloads_draw_up_sound_catalogs(previous, mode, rest);
        law_a_reload_keeps_the_catalog_in_use_serving(previous, mode, rest);
        lemma_a_child_comes_up_once(previous, mode, steps, steps.len() - 1);
        let (draft, catalog) = drawn_up(previous, mode, rest)->Ok_0;
        assert(sound(catalog));
        assert(steady(catalog, step));
        if step.arrived is Reused {
            lemma_shown_alike(previous, catalog, mode, name);
        }
        lemma_a_steady_step_succeeds(draft, catalog, mode, step);
        let next = draft_of(previous, mode, steps);
        assert forall|child: Seq<char>| #[trigger]
            next.catalog.children.contains_key(child) implies previous.children.contains_key(
            child,
        ) by {
            if child != name {
                assert(draft.catalog.children.contains_key(child));
            }
        }
    } else {
        assert(draft_of(previous, mode, steps) == Draft::initial());
    }
}

/// A reload of unchanged files that starts nothing anew succeeds, and each enabled child that ran serves on, whether
/// it was taken over or its replacement failed.
pub proof fn law_steady_reloads_keep_every_child_serving(
    previous: Catalog,
    mode: Mode,
    steps: Seq<Step>,
    i: int,
)
    requires
        sound(previous),
        all_steady(previous, mode, steps),
        0 <= i < steps.len(),
        steps[i].item.config.enabled,
        previous.children.contains_key(steps[i].item.config.name),
    ensures
        drawn_up(previous, mode, steps) is Ok,
        serves_on(
            previous,
            draft_of(previous, mode, steps).catalog,
            steps[i].item.config.name,
        ),
{
    let name = steps[i].item.config.name;
    let rest = steps.take(i);
    let upto = steps.take(i + 1);
    lemma_a_steady_reload_succeeds(previous, mode, steps);
    assert forall|j: int| 0 <= j < rest.len() implies steady(previous, #[trigger] rest[j]) && (
    rest[j].arrived is Reused ==> shown_under(previous, mode, rest[j].item.config.name)) by {
        assert(rest[j] == steps[j]);
    }
    lemma_a_steady_reload_succeeds(previous, mode, rest);
    lemma_prefix_is_drawn_up(previous, mode, steps, i + 1);
    assert(upto.drop_last() =~= rest);
    assert(upto.last() == steps[i]);
    law_reloads_draw_up_sound_catalogs(previous, mode, rest);
    law_a_reload_keeps_the_catalog_in_use_serving(previous, mode, rest);
    lemma_a_child_comes_up_once(previous, mode, steps, i);
    lemma_others_leave_the_child_alone(previous, mode, rest, name);
    let (draft, catalog) = drawn_up(previous, mode, rest)->Ok_0;
    assert(sound(catalog));
    assert(steady(catalog, steps[i]));
    if steps[i].arrived is Reused {
        lemma_shown_alike(previous, catalog, mode, name);
    }
    lemma_a_steady_step_succeeds(draft, catalog, mode, steps[i]);
    assert(tools_of(catalog, name) == tools_of(previous, name));
    assert forall|j: int| i + 1 <= j < steps.len() implies (#[trigger] steps[j]).item.config.name
        != name by {
        assert(steps[i].item.config.name != steps[j].item.config.name);
    }
    lemma_later_steps_keep_the_child(previous, mode, steps, i + 1, name);
}

/// The catalog and its generation after reloads one after the other, up to the first that is given up. The items of
/// the steps of each reload are all configured children.
pub open spec fn reloads(
    catalog: Catalog,
    generation: u64,
    mode: Mode,
    rounds: Seq<Seq<Step>>,
) -> Result<(Catalog, u64), ReloadFault>
    decreases rounds.len(),
{
    if rounds.len() == 0 {
        Ok((catalog, generation))
    } else {
        match reloads(catalog, generation, mode, rounds.drop_last()) {
            Err(fault) => Err(fault),
            Ok((previous, last)) => match drawn_up(previous, mode, rounds.last()) {
                Err(fault) => Err(fault),
                Ok((draft, _)) => match policy_misfit(
                    mode,
                    draft.catalog,
                    rounds.last().map_values(|step: Step| step.item),
                ) {
                    Some(misfit) => Err(ReloadFault::Policy(misfit)),
                    None => Ok((draft.catalog, next_generation(last))),
                },
            },
        }
    }
}

/// However often a directory of unchanged files is reloaded while replacements fail, without a policy each reload
/// succeeds and counts one generation of the catalog, and each enabled child that ran serves on with its tools and
/// routes; one whose replacement failed last is told to run, with a fault.
pub proof fn law_repeated_failures_keep_the_last_known_good_children(
    catalog: Catalog,
    generation: u64,
    mode: Mode,
    items: Seq<LoadedText>,
    rounds: Seq<Seq<Step>>,
)
    requires
        policy_in(mode) is None,
        sound(catalog),
        generation + rounds.len() <= u64::MAX,
        forall|r: int|
            0 <= r < rounds.len() ==> all_steady(catalog, mode, #[trigger] rounds[r])
                && rounds[r].map_values(|step: Step| step.item) == items,
    ensures
        reloads(catalog, generation, mode, rounds) matches Ok(result) && {
            &&& sound(result.0)
            &&& result.1 == generation + rounds.len()
            &&& forall|child: Seq<char>| #[trigger]
                result.0.children.contains_key(child) ==> catalog.children.contains_key(child)
            &&& forall|i: int|
                0 <= i < items.len() && (#[trigger] items[i]).config.enabled
                    && catalog.children.contains_key(items[i].config.name) ==> serves_on(
                    catalog,
                    result.0,
                    items[i].config.name,
                )
            &&& rounds.len() > 0 ==> forall|i: int|
                0 <= i < items.len() && (#[trigger] rounds.last()[i]).arrived is Failed
                    && catalog.children.contains_key(items[i].config.name) ==> {
                    &&& result.0.statuses.contains_key(items[i].config.name)
                    &&& result.0.statuses[items[i].config.name].running
                    &&& result.0.statuses[items[i].config.name].error is Some
                }
        },
    decreases rounds.len(),
{
    if rounds.len() > 0 {
        let before = rounds.drop_last();
        let steps = rounds.last();
        assert forall|r: int| 0 <= r < before.len() implies all_steady(
            catalog,
            mode,
            #[trigger] before[r],
        ) && before[r].map_values(|step: Step| step.item) == items by {
            assert(before[r] == rounds[r]);
        }
        law_repeated_failures_keep_the_last_known_good_children(
            catalog,
            generation,
            mode,
            items,
            before,
        );
        assert(rounds[rounds.len() - 1] == steps);
        assert(steps.map_values(|step: Step| step.item) == items);
        let (previous, last) = reloads(catalog, generation, mode, before)->Ok_0;
        assert forall|i: int| 0 <= i < steps.len() implies steady(previous, #[trigger] steps[i]) && (
        steps[i].arrived is Reused ==> shown_under(previous, mode, steps[i].item.config.name)) by {
            let name = steps[i].item.config.name;
            assert(items[i] == steps[i].item);
            assert(steady(catalog, steps[i]));
            if steps[i].arrived is Reused {
                assert(serves_on(catalog, previous, name));
                lemma_shown_alike(catalog, previous, mode, name);
            }
        }
        lemma_a_steady_reload_succeeds(previous, mode, steps);
        law_reloads_draw_up_sound_catalogs(previous, mode, steps);
        let result = draft_of(previous, mode, steps).catalog;
        assert forall|i: int| 0 <= i < items.len() && (#[trigger] items[i]).config.enabled
            && catalog.children.contains_key(items[i].config.name) implies serves_on(
            catalog,
            result,
            items[i].config.name,
        ) by {
            assert(items[i] == steps[i].item);
            law_steady_reloads_keep_every_child_serving(previous, mode, steps, i);
        }
        assert forall|i: int| 0 <= i < items.len() && (#[trigger] rounds.last()[i]).arrived is Failed
            && catalog.children.contains_key(items[i].config.name) implies ({
            &&& result.statuses.contains_key(items[i].config.name)
            &&& result.statuses[items[i].config.name].running
            &&& result.statuses[items[i].config.name].error is Some
        }) by {
            assert(items[i] == steps[i].item);
            assert(steady(catalog, steps[i]));
            assert(serves_on(catalog, previous, items[i].config.name));
            law_failed_replacements_leave_the_last_known_good_child(previous, mode, steps, i);
        }
    }
}

} // verus!

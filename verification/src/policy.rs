//! The gateway policy: what it holds, when it is accepted, and what it allows.
use crate::name_map::{lemma_map_of, lists, texts, NameMap, NameSet};
use crate::names::{named_within, valid_name, MAX_CHILD_NAME};
use crate::span::Span;
use crate::text::{decimal, glue, same, to_decimal};
use vstd::prelude::*;

verus! {

pub const SCHEMA_VERSION: u32 = 1;

/// How the gateway is governed: as before policies existed, or by a policy.
#[derive(Debug, Clone, PartialEq, Eq)]
pub enum Mode {
    LegacyCompat,
    Strict(Box<Config>),
}

#[derive(Debug, Clone, PartialEq, Eq)]
pub struct Config {
    pub schema_version: u32,
    pub active_profile: String,
    pub limits: Limits,
    pub tool_class_defaults: ClassDefaults,
    pub drain: Drain,
    pub payload: Payload,
    pub artifacts: Artifacts,
    pub profiles: NameMap<EmptyProfile>,
    pub children: NameMap<Child>,
}

#[derive(Debug, Clone, Copy, PartialEq, Eq, Structural)]
pub struct Limits {
    pub global_active: usize,
    pub global_queue: usize,
    pub queue_wait_ms: u64,
    pub default_child_active: usize,
}

#[derive(Debug, Clone, Copy, PartialEq, Eq, Structural)]
pub struct ClassLimits {
    pub concurrency: usize,
}

#[derive(Debug, Clone, Copy, PartialEq, Eq, PartialOrd, Ord, Structural)]
pub enum ToolClass {
    Read,
    Mutation,
    LongRunning,
    Control,
}

/// The limits of each class of tools, as far as the policy gives them.
#[derive(Debug, Clone, Copy, PartialEq, Eq)]
pub struct ClassDefaults {
    pub read: Option<ClassLimits>,
    pub mutation: Option<ClassLimits>,
    pub long_running: Option<ClassLimits>,
    pub control: Option<ClassLimits>,
}

#[derive(Debug, Clone, Copy, PartialEq, Eq, Structural)]
pub struct Drain {
    pub deadline_ms: u64,
    pub allow_safe_reads: bool,
}

#[derive(Debug, Clone, Copy, PartialEq, Eq, Structural)]
pub struct Payload {
    pub request_bytes: usize,
    pub response_bytes: usize,
    pub text_preview_bytes: usize,
    pub structured_bytes: usize,
    pub binary_bytes: usize,
}

#[derive(Debug, Clone, Copy, PartialEq, Eq, Structural)]
pub struct Artifacts {
    pub enabled: bool,
    pub ttl_seconds: u64,
    pub max_item_bytes: usize,
    pub max_total_bytes: usize,
}

#[derive(Debug, Clone, Copy, PartialEq, Eq, Structural)]
pub struct EmptyProfile {}

#[derive(Debug, Clone, PartialEq, Eq)]
pub struct Child {
    pub concurrency: usize,
    pub restart: Restart,
    pub tools: NameMap<Tool>,
}

#[derive(Debug, Clone, Copy, PartialEq, Eq, Structural)]
pub struct Restart {
    pub policy: RestartMode,
    pub max_attempts: usize,
    pub stability_window_ms: u64,
    pub backoff: Backoff,
    pub circuit: Circuit,
}

#[derive(Debug, Clone, Copy, PartialEq, Eq, Structural)]
pub enum RestartMode {
    Never,
    OnFailure,
}

#[derive(Debug, Clone, Copy, PartialEq, Eq, Structural)]
pub struct Backoff {
    pub initial_ms: u64,
    pub max_ms: u64,
}

#[derive(Debug, Clone, Copy, PartialEq, Eq, Structural)]
pub struct Circuit {
    pub cooldown_ms: u64,
    pub half_open_attempts: usize,
}

#[derive(Debug, Clone, PartialEq, Eq)]
pub struct Tool {
    pub class: ToolClass,
    pub profiles: Vec<String>,
    pub concurrency: usize,
}

/// Why a policy is refused.
#[derive(Debug, Clone, PartialEq, Eq)]
pub enum PolicyError {
    UnsupportedSchema(u32),
    ActiveProfile,
    SchedulerLimits,
    MissingClass(ToolClass),
    ClassLimit(ToolClass),
    Bounds,
    Child(String),
    Tool(String, String),
}

/// Why a policy does not fit the tools that the children offer.
#[derive(Debug, Clone, PartialEq, Eq)]
pub enum CatalogError {
    UnknownChild(String),
    UnknownTool(String, String),
    ExcludedTool(String, String),
}

/// A refusal of a policy, its names as texts.
pub enum Fault {
    UnsupportedSchema(u32),
    ActiveProfile,
    SchedulerLimits,
    MissingClass(ToolClass),
    ClassLimit(ToolClass),
    Bounds,
    Child(Seq<char>),
    Tool(Seq<char>, Seq<char>),
}

/// A misfit of policy and catalog, its names as texts.
pub enum Misfit {
    UnknownChild(Seq<char>),
    UnknownTool(Seq<char>, Seq<char>),
    ExcludedTool(Seq<char>, Seq<char>),
}

impl View for PolicyError {
    type V = Fault;

    open spec fn view(&self) -> Fault {
        match self {
            PolicyError::UnsupportedSchema(v) => Fault::UnsupportedSchema(*v),
            PolicyError::ActiveProfile => Fault::ActiveProfile,
            PolicyError::SchedulerLimits => Fault::SchedulerLimits,
            PolicyError::MissingClass(c) => Fault::MissingClass(*c),
            PolicyError::ClassLimit(c) => Fault::ClassLimit(*c),
            PolicyError::Bounds => Fault::Bounds,
            PolicyError::Child(c) => Fault::Child(c@),
            PolicyError::Tool(c, t) => Fault::Tool(c@, t@),
        }
    }
}

impl View for CatalogError {
    type V = Misfit;

    open spec fn view(&self) -> Misfit {
        match self {
            CatalogError::UnknownChild(c) => Misfit::UnknownChild(c@),
            CatalogError::UnknownTool(c, t) => Misfit::UnknownTool(c@, t@),
            CatalogError::ExcludedTool(c, t) => Misfit::ExcludedTool(c@, t@),
        }
    }
}

impl ToolClass {
    pub open spec fn label(self) -> Seq<char> {
        match self {
            ToolClass::Read => "Read"@,
            ToolClass::Mutation => "Mutation"@,
            ToolClass::LongRunning => "LongRunning"@,
            ToolClass::Control => "Control"@,
        }
    }

    /// The name of the class as messages give it.
    pub fn name(&self) -> (r: &'static str)
        ensures
            r@ == self.label(),
    {
        match self {
            ToolClass::Read => "Read",
            ToolClass::Mutation => "Mutation",
            ToolClass::LongRunning => "LongRunning",
            ToolClass::Control => "Control",
        }
    }
}

impl Fault {
    pub open spec fn text(self) -> Seq<char> {
        match self {
            Fault::UnsupportedSchema(v) => "unsupported Gateway policy schema_version "@ + decimal(
                v as nat,
            ),
            Fault::ActiveProfile => "Gateway active_profile must name a declared valid profile"@,
            Fault::SchedulerLimits => "Gateway scheduler limits must be non-zero"@,
            Fault::MissingClass(c) => "Gateway policy lacks a default limit for "@ + c.label(),
            Fault::ClassLimit(c) => "Gateway class limit for "@ + c.label() + " is out of bounds"@,
            Fault::Bounds =>
                "Gateway drain, payload and artifact limits must be non-zero and bounded"@,
            Fault::Child(c) => "Gateway child policy for "@ + c + " is invalid"@,
            Fault::Tool(c, t) => "Gateway tool policy for "@ + c + "."@ + t + " is invalid"@,
        }
    }
}

impl PolicyError {
    pub fn message(&self) -> (r: String)
        ensures
            r@ == self@.text(),
    {
        match self {
            PolicyError::UnsupportedSchema(v) => glue(
                "unsupported Gateway policy schema_version ",
                &to_decimal(*v as u128),
            ),
            PolicyError::ActiveProfile =>
                "Gateway active_profile must name a declared valid profile".to_owned(),
            PolicyError::SchedulerLimits => "Gateway scheduler limits must be non-zero".to_owned(),
            PolicyError::MissingClass(c) => glue(
                "Gateway policy lacks a default limit for ",
                c.name(),
            ),
            PolicyError::ClassLimit(c) => glue(
                &glue("Gateway class limit for ", c.name()),
                " is out of bounds",
            ),
            PolicyError::Bounds =>
                "Gateway drain, payload and artifact limits must be non-zero and bounded".to_owned(),
            PolicyError::Child(c) => glue(&glue("Gateway child policy for ", c), " is invalid"),
            PolicyError::Tool(c, t) => glue(
                &glue(&glue(&glue("Gateway tool policy for ", c), "."), t),
                " is invalid",
            ),
        }
    }
}

impl Misfit {
    pub open spec fn text(self) -> Seq<char> {
        match self {
            Misfit::UnknownChild(c) => "Gateway policy references unknown child "@ + c,
            Misfit::UnknownTool(c, t) => "Gateway policy references unknown tool "@ + c + "."@ + t,
            Misfit::ExcludedTool(c, t) =>
                "Gateway policy exposes tool excluded by child allowlist: "@ + c + "."@ + t,
        }
    }
}

impl CatalogError {
    pub fn message(&self) -> (r: String)
        ensures
            r@ == self@.text(),
    {
        match self {
            CatalogError::UnknownChild(c) => glue("Gateway policy references unknown child ", c),
            CatalogError::UnknownTool(c, t) => glue(
                &glue(&glue("Gateway policy references unknown tool ", c), "."),
                t,
            ),
            CatalogError::ExcludedTool(c, t) => glue(
                &glue(
                    &glue("Gateway policy exposes tool excluded by child allowlist: ", c),
                    ".",
                ),
                t,
            ),
        }
    }
}

impl ClassDefaults {
    pub open spec fn limit(self, class: ToolClass) -> Option<ClassLimits> {
        match class {
            ToolClass::Read => self.read,
            ToolClass::Mutation => self.mutation,
            ToolClass::LongRunning => self.long_running,
            ToolClass::Control => self.control,
        }
    }

    /// The limits of one class.
    pub fn get(&self, class: ToolClass) -> (r: Option<ClassLimits>)
        ensures
            r == self.limit(class),
    {
        match class {
            ToolClass::Read => self.read,
            ToolClass::Mutation => self.mutation,
            ToolClass::LongRunning => self.long_running,
            ToolClass::Control => self.control,
        }
    }
}

// When a policy is accepted.

pub open spec fn good_name(s: Seq<char>) -> bool {
    named_within(s, MAX_CHILD_NAME as int)
}

/// The active profile is declared, and every declared profile has a valid name.
pub open spec fn profiles_fit(config: Config) -> bool {
    &&& config.profiles@.contains_key(config.active_profile@)
    &&& forall|i: int|
        0 <= i < config.profiles.listing().len() ==> good_name(
            #[trigger] config.profiles.listing()[i].0,
        )
}

pub open spec fn scheduler_fits(limits: Limits) -> bool {
    &&& limits.global_active > 0
    &&& limits.global_queue > 0
    &&& limits.queue_wait_ms > 0
    &&& limits.default_child_active > 0
}

pub open spec fn concurrency_fits(n: usize, limits: Limits) -> bool {
    0 < n <= limits.global_active
}

pub open spec fn class_fault(config: Config, class: ToolClass) -> Option<Fault> {
    match config.tool_class_defaults.limit(class) {
        None => Some(Fault::MissingClass(class)),
        Some(limit) => if concurrency_fits(limit.concurrency, config.limits) {
            None
        } else {
            Some(Fault::ClassLimit(class))
        },
    }
}

pub open spec fn or_else(a: Option<Fault>, b: Option<Fault>) -> Option<Fault> {
    if a is Some {
        a
    } else {
        b
    }
}

pub open spec fn classes_fault(config: Config) -> Option<Fault> {
    or_else(
        class_fault(config, ToolClass::Read),
        or_else(
            class_fault(config, ToolClass::Mutation),
            or_else(
                class_fault(config, ToolClass::LongRunning),
                class_fault(config, ToolClass::Control),
            ),
        ),
    )
}

pub open spec fn bounds_fit(config: Config) -> bool {
    &&& config.drain.deadline_ms > 0
    &&& config.payload.request_bytes > 0
    &&& config.payload.response_bytes > 0
    &&& config.payload.text_preview_bytes > 0
    &&& config.payload.structured_bytes > 0
    &&& config.payload.binary_bytes > 0
    &&& config.artifacts.ttl_seconds > 0
    &&& 0 < config.artifacts.max_item_bytes <= config.artifacts.max_total_bytes
}

pub open spec fn child_fits(limits: Limits, name: Seq<char>, child: Child) -> bool {
    &&& good_name(name)
    &&& concurrency_fits(child.concurrency, limits)
    &&& child.restart.max_attempts > 0
    &&& child.restart.stability_window_ms > 0
    &&& 0 < child.restart.backoff.initial_ms <= child.restart.backoff.max_ms
    &&& child.restart.circuit.cooldown_ms > 0
    &&& child.restart.circuit.half_open_attempts > 0
}

pub open spec fn tool_fits(config: Config, name: Seq<char>, tool: Tool) -> bool {
    &&& good_name(name)
    &&& concurrency_fits(tool.concurrency, config.limits)
    &&& tool.profiles@.len() > 0
    &&& forall|i: int|
        0 <= i < tool.profiles@.len() ==> config.profiles@.contains_key(
            #[trigger] tool.profiles@[i]@,
        )
}

/// The first tool, in the order of names, that does not fit.
pub open spec fn tools_fault(
    config: Config,
    child: Seq<char>,
    tools: Seq<(Seq<char>, Tool)>,
) -> Option<Fault>
    decreases tools.len(),
{
    if tools.len() == 0 {
        None
    } else if !tool_fits(config, tools[0].0, tools[0].1) {
        Some(Fault::Tool(child, tools[0].0))
    } else {
        tools_fault(config, child, tools.drop_first())
    }
}

/// The first fault among the children, in the order of names; of one child its own limits come first.
pub open spec fn children_fault(
    config: Config,
    children: Seq<(Seq<char>, Child)>,
) -> Option<Fault>
    decreases children.len(),
{
    if children.len() == 0 {
        None
    } else if !child_fits(config.limits, children[0].0, children[0].1) {
        Some(Fault::Child(children[0].0))
    } else {
        or_else(
            tools_fault(config, children[0].0, children[0].1.tools.listing()),
            children_fault(config, children.drop_first()),
        )
    }
}

/// What is reported of a policy: the first of its faults.
pub open spec fn fault(config: Config) -> Option<Fault> {
    if config.schema_version != SCHEMA_VERSION {
        Some(Fault::UnsupportedSchema(config.schema_version))
    } else if !profiles_fit(config) {
        Some(Fault::ActiveProfile)
    } else if !scheduler_fits(config.limits) {
        Some(Fault::SchedulerLimits)
    } else if classes_fault(config) is Some {
        classes_fault(config)
    } else if !bounds_fit(config) {
        Some(Fault::Bounds)
    } else {
        children_fault(config, config.children.listing())
    }
}

/// The rules that an accepted policy keeps.
pub open spec fn accepted(config: Config) -> bool {
    &&& config.schema_version == SCHEMA_VERSION
    &&& profiles_fit(config)
    &&& scheduler_fits(config.limits)
    &&& forall|class: ToolClass| #[trigger]
        config.tool_class_defaults.limit(class) matches Some(l) && concurrency_fits(
            l.concurrency,
            config.limits,
        )
    &&& bounds_fit(config)
    &&& forall|i: int|
        #![trigger config.children.listing()[i]]
        0 <= i < config.children.listing().len() ==> {
            let (name, child) = config.children.listing()[i];
            &&& child_fits(config.limits, name, child)
            &&& forall|j: int|
                #![trigger child.tools.listing()[j]]
                0 <= j < child.tools.listing().len() ==> tool_fits(
                    config,
                    child.tools.listing()[j].0,
                    child.tools.listing()[j].1,
                )
        }
}

proof fn lemma_tools_fault(config: Config, child: Seq<char>, tools: Seq<(Seq<char>, Tool)>)
    ensures
        tools_fault(config, child, tools) is None <==> (forall|j: int|
            #![trigger tools[j]]
            0 <= j < tools.len() ==> tool_fits(config, tools[j].0, tools[j].1)),
    decreases tools.len(),
{
    if tools.len() > 0 {
        let rest = tools.drop_first();
        lemma_tools_fault(config, child, rest);
        if tools_fault(config, child, tools) is None {
            assert forall|j: int| 0 <= j < tools.len() implies tool_fits(
                config,
                (#[trigger] tools[j]).0,
                tools[j].1,
            ) by {
                if j > 0 {
                    assert(rest[j - 1] == tools[j]);
                }
            }
        }
        if forall|j: int|
            #![trigger tools[j]]
            0 <= j < tools.len() ==> tool_fits(config, tools[j].0, tools[j].1) {
            assert(tools[0] == tools[0]);
            assert forall|j: int| 0 <= j < rest.len() implies tool_fits(
                config,
                (#[trigger] rest[j]).0,
                rest[j].1,
            ) by {
                assert(tools[j + 1] == rest[j]);
            }
        }
    }
}

spec fn child_sound(config: Config, entry: (Seq<char>, Child)) -> bool {
    &&& child_fits(config.limits, entry.0, entry.1)
    &&& forall|j: int|
        #![trigger entry.1.tools.listing()[j]]
        0 <= j < entry.1.tools.listing().len() ==> tool_fits(
            config,
            entry.1.tools.listing()[j].0,
            entry.1.tools.listing()[j].1,
        )
}

proof fn lemma_children_fault(config: Config, children: Seq<(Seq<char>, Child)>)
    ensures
        children_fault(config, children) is None <==> (forall|i: int|
            #![trigger children[i]]
            0 <= i < children.len() ==> child_sound(config, children[i])),
    decreases children.len(),
{
    if children.len() > 0 {
        let rest = children.drop_first();
        lemma_children_fault(config, rest);
        lemma_tools_fault(config, children[0].0, children[0].1.tools.listing());
        if children_fault(config, children) is None {
            assert forall|i: int| 0 <= i < children.len() implies child_sound(
                config,
                #[trigger] children[i],
            ) by {
                if i > 0 {
                    assert(rest[i - 1] == children[i]);
                }
            }
        }
        if forall|i: int|
            #![trigger children[i]]
            0 <= i < children.len() ==> child_sound(config, children[i]) {
            assert(child_sound(config, children[0]));
            assert forall|i: int| 0 <= i < rest.len() implies child_sound(
                config,
                #[trigger] rest[i],
            ) by {
                assert(children[i + 1] == rest[i]);
            }
        }
    }
}

/// A policy is accepted exactly if it keeps every rule: there is a fault to report for any that it breaks.
pub proof fn law_accepted_iff_without_fault(config: Config)
    ensures
        fault(config) is None <==> accepted(config),
{
    lemma_children_fault(config, config.children.listing());
    if fault(config) is None {
        assert forall|class: ToolClass| #[trigger]
            config.tool_class_defaults.limit(class) matches Some(l) && concurrency_fits(
                l.concurrency,
                config.limits,
            ) by {
            match class {
                ToolClass::Read => {},
                ToolClass::Mutation => {},
                ToolClass::LongRunning => {},
                ToolClass::Control => {},
            }
        }
        assert forall|i: int|
            #![trigger config.children.listing()[i]]
            0 <= i < config.children.listing().len() implies {
            let (name, child) = config.children.listing()[i];
            &&& child_fits(config.limits, name, child)
            &&& forall|j: int|
                #![trigger child.tools.listing()[j]]
                0 <= j < child.tools.listing().len() ==> tool_fits(
                    config,
                    child.tools.listing()[j].0,
                    child.tools.listing()[j].1,
                )
        } by {
            assert(child_sound(config, config.children.listing()[i]));
        }
        assert(accepted(config));
    }
    if accepted(config) {
        assert(config.tool_class_defaults.limit(ToolClass::Read) is Some);
        assert(config.tool_class_defaults.limit(ToolClass::Mutation) is Some);
        assert(config.tool_class_defaults.limit(ToolClass::LongRunning) is Some);
        assert(config.tool_class_defaults.limit(ToolClass::Control) is Some);
        assert forall|i: int|
            #![trigger config.children.listing()[i]]
            0 <= i < config.children.listing().len() implies child_sound(
            config,
            config.children.listing()[i],
        ) by {
            let (name, child) = config.children.listing()[i];
            assert(child_fits(config.limits, name, child));
        }
    }
}

fn check_concurrency(n: usize, limits: &Limits) -> (r: bool)
    ensures
        r == concurrency_fits(n, *limits),
{
    n != 0 && n <= limits.global_active
}

fn check_profiles(config: &Config) -> (r: bool)
    ensures
        r == profiles_fit(*config),
{
    let n: usize = config.profiles.len();
    proof {
        use_type_invariant(&config.profiles);
        lemma_map_of(config.profiles.listing());
    }
    if !config.profiles.contains_key(&config.active_profile) {
        return false;
    }
    let mut i: usize = 0;
    while i < n
        invariant
            i <= n,
            n == config.profiles.listing().len(),
            config.profiles@.contains_key(config.active_profile@),
            forall|j: int|
                0 <= j < i ==> good_name(#[trigger] config.profiles.listing()[j].0),
        decreases n - i,
    {
        if !valid_name(config.profiles.key_at(i)) {
            assert(!good_name(config.profiles.listing()[i as int].0));
            return false;
        }
        i = i + 1;
    }
    true
}

fn check_class(config: &Config, class: ToolClass) -> (r: Result<(), PolicyError>)
    ensures
        r is Ok <==> class_fault(*config, class) is None,
        r matches Err(e) ==> class_fault(*config, class) == Some(e@),
{
    match config.tool_class_defaults.get(class) {
        None => Err(PolicyError::MissingClass(class)),
        Some(limit) => {
            if check_concurrency(limit.concurrency, &config.limits) {
                Ok(())
            } else {
                Err(PolicyError::ClassLimit(class))
            }
        },
    }
}

fn check_tool(config: &Config, name: &str, tool: &Tool) -> (r: bool)
    ensures
        r == tool_fits(*config, name@, *tool),
{
    if !valid_name(name) || !check_concurrency(tool.concurrency, &config.limits)
        || tool.profiles.len() == 0 {
        return false;
    }
    let mut i: usize = 0;
    while i < tool.profiles.len()
        invariant
            i <= tool.profiles.len(),
            forall|j: int|
                0 <= j < i ==> config.profiles@.contains_key(#[trigger] tool.profiles@[j]@),
        decreases tool.profiles.len() - i,
    {
        if !config.profiles.contains_key(&tool.profiles[i]) {
            assert(!config.profiles@.contains_key(tool.profiles@[i as int]@));
            return false;
        }
        i = i + 1;
    }
    true
}

fn check_child(limits: &Limits, name: &str, child: &Child) -> (r: bool)
    ensures
        r == child_fits(*limits, name@, *child),
{
    valid_name(name) && check_concurrency(child.concurrency, limits) && child.restart.max_attempts
        != 0 && child.restart.stability_window_ms != 0 && child.restart.backoff.initial_ms != 0
        && child.restart.backoff.initial_ms <= child.restart.backoff.max_ms
        && child.restart.circuit.cooldown_ms != 0 && child.restart.circuit.half_open_attempts != 0
}

fn check_tools(config: &Config, name: &str, child: &Child) -> (r: Result<(), PolicyError>)
    ensures
        r is Ok <==> tools_fault(*config, name@, child.tools.listing()) is None,
        r matches Err(e) ==> tools_fault(*config, name@, child.tools.listing()) == Some(e@),
{
    let n: usize = child.tools.len();
    let ghost all = child.tools.listing();
    let mut i: usize = 0;
    assert(all.skip(0) =~= all);
    while i < n
        invariant
            i <= n,
            n == all.len(),
            all == child.tools.listing(),
            tools_fault(*config, name@, all) == tools_fault(*config, name@, all.skip(i as int)),
        decreases n - i,
    {
        let tool = child.tools.key_at(i);
        assert(all.skip(i as int).drop_first() =~= all.skip(i + 1));
        if !check_tool(config, tool, child.tools.value_at(i)) {
            return Err(PolicyError::Tool(name.to_owned(), tool.clone()));
        }
        i = i + 1;
    }
    Ok(())
}

/// Refuses a policy that breaks a rule, with the first fault.
pub fn validate(config: &Config) -> (r: Result<(), PolicyError>)
    ensures
        r is Ok <==> fault(*config) is None,
        r matches Err(e) ==> fault(*config) == Some(e@),
        r is Ok <==> accepted(*config),
{
    proof {
        law_accepted_iff_without_fault(*config);
    }
    if config.schema_version != SCHEMA_VERSION {
        return Err(PolicyError::UnsupportedSchema(config.schema_version));
    }
    if !check_profiles(config) {
        return Err(PolicyError::ActiveProfile);
    }
    if config.limits.global_active == 0 || config.limits.global_queue == 0
        || config.limits.queue_wait_ms == 0 || config.limits.default_child_active == 0 {
        return Err(PolicyError::SchedulerLimits);
    }
    check_class(config, ToolClass::Read)?;
    check_class(config, ToolClass::Mutation)?;
    check_class(config, ToolClass::LongRunning)?;
    check_class(config, ToolClass::Control)?;
    if config.drain.deadline_ms == 0 || config.payload.request_bytes == 0
        || config.payload.response_bytes == 0 || config.payload.text_preview_bytes == 0
        || config.payload.structured_bytes == 0 || config.payload.binary_bytes == 0
        || config.artifacts.ttl_seconds == 0 || config.artifacts.max_item_bytes == 0
        || config.artifacts.max_total_bytes == 0 || config.artifacts.max_item_bytes
        > config.artifacts.max_total_bytes {
        return Err(PolicyError::Bounds);
    }
    let n: usize = config.children.len();
    let ghost all = config.children.listing();
    let mut i: usize = 0;
    assert(all.skip(0) =~= all);
    while i < n
        invariant
            i <= n,
            n == all.len(),
            all == config.children.listing(),
            fault(*config) == children_fault(*config, all),
            children_fault(*config, all) == children_fault(*config, all.skip(i as int)),
            fault(*config) is None <==> accepted(*config),
        decreases n - i,
    {
        let name = config.children.key_at(i);
        let child = config.children.value_at(i);
        assert(all.skip(i as int).drop_first() =~= all.skip(i + 1));
        if !check_child(&config.limits, name, child) {
            return Err(PolicyError::Child(name.clone()));
        }
        check_tools(config, name, child)?;
        i = i + 1;
    }
    Ok(())
}

// What a policy may refer to.

/// The tool is offered by the child and not left out by a non-empty allowlist.
pub open spec fn offered(
    tool: Seq<char>,
    discovered: Set<Seq<char>>,
    allowlist: Option<Set<Seq<char>>>,
) -> bool {
    &&& discovered.contains(tool)
    &&& allowlist matches Some(list) ==> list == Set::<Seq<char>>::empty() || list.contains(tool)
}

/// Sets of names by the names of children.
pub type NamesByChild = Map<Seq<char>, Set<Seq<char>>>;

pub open spec fn sets_of(sets: Map<Seq<char>, NameSet>) -> NamesByChild {
    sets.map_values(|set: NameSet| set@)
}

pub open spec fn allowlist_of(allowlists: NamesByChild, child: Seq<char>) -> Option<
    Set<Seq<char>>,
> {
    if allowlists.contains_key(child) {
        Some(allowlists[child])
    } else {
        None
    }
}

/// The first tool of a child, in the order of names, that is not offered.
pub open spec fn tools_misfit(
    child: Seq<char>,
    tools: Seq<(Seq<char>, Tool)>,
    discovered: Set<Seq<char>>,
    allowlist: Option<Set<Seq<char>>>,
) -> Option<Misfit>
    decreases tools.len(),
{
    if tools.len() == 0 {
        None
    } else if !discovered.contains(tools[0].0) {
        Some(Misfit::UnknownTool(child, tools[0].0))
    } else if !offered(tools[0].0, discovered, allowlist) {
        Some(Misfit::ExcludedTool(child, tools[0].0))
    } else {
        tools_misfit(child, tools.drop_first(), discovered, allowlist)
    }
}

/// The first misfit of the policy's children, in the order of names.
pub open spec fn catalog_misfit(
    entries: Seq<(Seq<char>, Child)>,
    children: NamesByChild,
    allowlists: NamesByChild,
) -> Option<Misfit>
    decreases entries.len(),
{
    if entries.len() == 0 {
        None
    } else {
        let (name, child) = entries[0];
        if !children.contains_key(name) {
            Some(Misfit::UnknownChild(name))
        } else {
            let misfit = tools_misfit(
                name,
                child.tools.listing(),
                children[name],
                allowlist_of(allowlists, name),
            );
            if misfit is Some {
                misfit
            } else {
                catalog_misfit(entries.drop_first(), children, allowlists)
            }
        }
    }
}

proof fn lemma_tools_misfit(
    child: Seq<char>,
    tools: Seq<(Seq<char>, Tool)>,
    discovered: Set<Seq<char>>,
    allowlist: Option<Set<Seq<char>>>,
)
    requires
        tools_misfit(child, tools, discovered, allowlist) is None,
    ensures
        forall|j: int|
            0 <= j < tools.len() ==> offered((#[trigger] tools[j]).0, discovered, allowlist),
    decreases tools.len(),
{
    if tools.len() > 0 {
        lemma_tools_misfit(child, tools.drop_first(), discovered, allowlist);
        assert forall|j: int| 0 <= j < tools.len() implies offered(
            (#[trigger] tools[j]).0,
            discovered,
            allowlist,
        ) by {
            if j > 0 {
                assert(tools.drop_first()[j - 1] == tools[j]);
            }
        }
    }
}

/// Where a policy fits the catalog, every tool that it names is offered by a known child.
pub proof fn law_fitting_policy_names_offered_tools(
    entries: Seq<(Seq<char>, Child)>,
    children: NamesByChild,
    allowlists: NamesByChild,
    i: int,
    j: int,
)
    requires
        catalog_misfit(entries, children, allowlists) is None,
        0 <= i < entries.len(),
        0 <= j < entries[i].1.tools.listing().len(),
    ensures
        children.contains_key(entries[i].0),
        offered(
            entries[i].1.tools.listing()[j].0,
            children[entries[i].0],
            allowlist_of(allowlists, entries[i].0),
        ),
    decreases entries.len(),
{
    if i == 0 {
        lemma_tools_misfit(
            entries[0].0,
            entries[0].1.tools.listing(),
            children[entries[0].0],
            allowlist_of(allowlists, entries[0].0),
        );
        assert(entries[0].1.tools.listing()[j] == entries[0].1.tools.listing()[j]);
    } else {
        law_fitting_policy_names_offered_tools(
            entries.drop_first(),
            children,
            allowlists,
            i - 1,
            j,
        );
    }
}

proof fn lemma_offered_tools_fit(
    child: Seq<char>,
    tools: Seq<(Seq<char>, Tool)>,
    discovered: Set<Seq<char>>,
    allowlist: Option<Set<Seq<char>>>,
)
    requires
        forall|j: int|
            0 <= j < tools.len() ==> offered((#[trigger] tools[j]).0, discovered, allowlist),
    ensures
        tools_misfit(child, tools, discovered, allowlist) is None,
    decreases tools.len(),
{
    if tools.len() > 0 {
        let rest = tools.drop_first();
        assert(offered(tools[0].0, discovered, allowlist));
        assert forall|j: int| 0 <= j < rest.len() implies offered(
            (#[trigger] rest[j]).0,
            discovered,
            allowlist,
        ) by {
            assert(rest[j] == tools[j + 1]);
        }
        lemma_offered_tools_fit(child, rest, discovered, allowlist);
    }
}

/// Every tool that the policy names for a child is offered by the child, which is known.
pub open spec fn names_offered_tools(
    entry: (Seq<char>, Child),
    children: NamesByChild,
    allowlists: NamesByChild,
) -> bool {
    &&& children.contains_key(entry.0)
    &&& forall|j: int|
        0 <= j < entry.1.tools.listing().len() ==> offered(
            (#[trigger] entry.1.tools.listing()[j]).0,
            children[entry.0],
            allowlist_of(allowlists, entry.0),
        )
}

/// A policy fits the catalog where it names known children only, and of each only tools that the child offers.
pub proof fn law_policy_of_offered_tools_fits(
    entries: Seq<(Seq<char>, Child)>,
    children: NamesByChild,
    allowlists: NamesByChild,
)
    requires
        forall|i: int|
            0 <= i < entries.len() ==> names_offered_tools(
                #[trigger] entries[i],
                children,
                allowlists,
            ),
    ensures
        catalog_misfit(entries, children, allowlists) is None,
    decreases entries.len(),
{
    if entries.len() > 0 {
        let rest = entries.drop_first();
        let (name, child) = entries[0];
        assert(names_offered_tools(entries[0], children, allowlists));
        lemma_offered_tools_fit(
            name,
            child.tools.listing(),
            children[name],
            allowlist_of(allowlists, name),
        );
        assert forall|i: int| 0 <= i < rest.len() implies names_offered_tools(
            #[trigger] rest[i],
            children,
            allowlists,
        ) by {
            assert(rest[i] == entries[i + 1]);
        }
        law_policy_of_offered_tools_fits(rest, children, allowlists);
    }
}

fn check_offers(
    name: &str,
    child: &Child,
    discovered: &NameSet,
    allowlist: Option<&NameSet>,
) -> (r: Result<(), CatalogError>)
    ensures
        ({
            let list = match allowlist {
                Some(l) => Some(l@),
                None => None,
            };
            let misfit = tools_misfit(name@, child.tools.listing(), discovered@, list);
            &&& r is Ok <==> misfit is None
            &&& r matches Err(e) ==> misfit == Some(e@)
        }),
{
    let n: usize = child.tools.len();
    let ghost all = child.tools.listing();
    let ghost list = match allowlist {
        Some(l) => Some(l@),
        None => None,
    };
    let mut i: usize = 0;
    assert(all.skip(0) =~= all);
    while i < n
        invariant
            i <= n,
            n == all.len(),
            all == child.tools.listing(),
            list == (match allowlist {
                Some(l) => Some(l@),
                None => None,
            }),
            tools_misfit(name@, all, discovered@, list) == tools_misfit(
                name@,
                all.skip(i as int),
                discovered@,
                list,
            ),
        decreases n - i,
    {
        let tool = child.tools.key_at(i);
        assert(all.skip(i as int).drop_first() =~= all.skip(i + 1));
        if !discovered.contains(tool) {
            return Err(CatalogError::UnknownTool(name.to_owned(), tool.clone()));
        }
        if let Some(allowlist) = allowlist {
            if !allowlist.is_empty() && !allowlist.contains(tool) {
                return Err(CatalogError::ExcludedTool(name.to_owned(), tool.clone()));
            }
        }
        i = i + 1;
    }
    Ok(())
}

/// Refuses a policy that names a child or a tool that the catalog does not offer, with the first misfit.
pub fn validate_catalog(
    config: &Config,
    children: &NameMap<NameSet>,
    allowlists: &NameMap<NameSet>,
) -> (r: Result<(), CatalogError>)
    ensures
        ({
            let misfit = catalog_misfit(
                config.children.listing(),
                sets_of(children@),
                sets_of(allowlists@),
            );
            &&& r is Ok <==> misfit is None
            &&& r matches Err(e) ==> misfit == Some(e@)
        }),
{
    let n: usize = config.children.len();
    let ghost all = config.children.listing();
    let mut i: usize = 0;
    assert(all.skip(0) =~= all);
    while i < n
        invariant
            i <= n,
            n == all.len(),
            all == config.children.listing(),
            catalog_misfit(all, sets_of(children@), sets_of(allowlists@)) == catalog_misfit(
                all.skip(i as int),
                sets_of(children@),
                sets_of(allowlists@),
            ),
        decreases n - i,
    {
        let name = config.children.key_at(i);
        assert(all.skip(i as int).drop_first() =~= all.skip(i + 1));
        match children.get(name) {
            None => {
                return Err(CatalogError::UnknownChild(name.clone()));
            },
            Some(discovered) => {
                check_offers(name, config.children.value_at(i), discovered, allowlists.get(name))?;
            },
        }
        i = i + 1;
    }
    Ok(())
}

// What a mode allows.

/// The policy that governs, if one does.
pub open spec fn policy_in(mode: Mode) -> Option<Config> {
    match mode {
        Mode::LegacyCompat => None,
        Mode::Strict(config) => Some(*config),
    }
}

/// The name of the active profile, where a policy governs.
pub open spec fn profile_name(mode: Mode) -> Option<Seq<char>> {
    match policy_in(mode) {
        None => None,
        Some(config) => Some(config.active_profile@),
    }
}

/// The active profile may use the tool.
pub open spec fn grants(config: Config, child: Seq<char>, tool: Seq<char>) -> bool {
    &&& config.children@.contains_key(child)
    &&& config.children@[child].tools@.contains_key(tool)
    &&& texts(config.children@[child].tools@[tool].profiles@).contains(config.active_profile@)
}

/// Without a policy every tool is permitted; with one, those that the active profile may use.
pub open spec fn permits(mode: Mode, child: Seq<char>, tool: Seq<char>) -> bool {
    policy_in(mode) matches Some(config) ==> grants(config, child, tool)
}

/// The most concurrent calls of the child and of the tool.
pub open spec fn limits_of(mode: Mode, child: Seq<char>, tool: Seq<char>) -> Option<(usize, usize)> {
    match policy_in(mode) {
        None => Some((4, 4)),
        Some(config) => if !grants(config, child, tool) {
            None
        } else {
            let entry = config.children@[child].tools@[tool];
            match config.tool_class_defaults.limit(entry.class) {
                None => None,
                Some(class) => Some(
                    (
                        config.children@[child].concurrency,
                        if class.concurrency < entry.concurrency {
                            class.concurrency
                        } else {
                            entry.concurrency
                        },
                    ),
                ),
            }
        },
    }
}

impl Mode {
    pub fn schema_version(&self) -> (r: Option<u32>)
        ensures
            r == (match policy_in(*self) {
                None => None,
                Some(config) => Some(config.schema_version),
            }),
    {
        match self {
            Mode::LegacyCompat => None,
            Mode::Strict(config) => Some(config.schema_version),
        }
    }
}

/// The most running requests, the most waiting requests, and how long a request may wait.
pub fn scheduler_limits(mode: &Mode) -> (r: (usize, usize, Span))
    ensures
        match policy_in(*mode) {
            None => r.0 == 16 && r.1 == 64 && r.2@ == 30_000_000_000,
            Some(config) => r.0 == config.limits.global_active && r.1 == config.limits.global_queue
                && r.2@ == config.limits.queue_wait_ms * 1_000_000,
        },
{
    match mode {
        Mode::LegacyCompat => (16, 64, Span::from_secs(30)),
        Mode::Strict(policy) => (
            policy.limits.global_active,
            policy.limits.global_queue,
            Span::from_millis(policy.limits.queue_wait_ms),
        ),
    }
}

/// The name of the active profile, where a policy governs.
pub fn active_profile_name(mode: &Mode) -> (r: Option<&str>)
    ensures
        r is Some <==> profile_name(*mode) is Some,
        r matches Some(name) ==> profile_name(*mode) == Some(name@),
{
    match mode {
        Mode::LegacyCompat => None,
        Mode::Strict(policy) => Some(policy.active_profile.as_str()),
    }
}

/// Whether the mode permits the tool.
pub fn permitted(mode: &Mode, child: &str, tool: &str) -> (r: bool)
    ensures
        r == permits(*mode, child@, tool@),
{
    match mode {
        Mode::LegacyCompat => true,
        Mode::Strict(policy) => match policy.children.get(child) {
            None => false,
            Some(child_policy) => match child_policy.tools.get(tool) {
                None => false,
                Some(tool_policy) => lists(&tool_policy.profiles, &policy.active_profile),
            },
        },
    }
}

/// Whether two modes have different active profiles.
pub fn profile_changed(current: &Mode, next: &Mode) -> (r: bool)
    ensures
        r == (profile_name(*current) != profile_name(*next)),
{
    match (active_profile_name(current), active_profile_name(next)) {
        (None, None) => false,
        (Some(a), Some(b)) => !same(a, b),
        (None, Some(_)) => true,
        (Some(_), None) => true,
    }
}

/// The concurrency limits of a call, or none where the active profile may not use the tool.
pub fn route_limits(mode: &Mode, child: &str, tool: &str) -> (r: Option<(usize, usize)>)
    ensures
        r == limits_of(*mode, child@, tool@),
        *mode matches Mode::Strict(config) ==> match r {
            None => true,
            Some((child_limit, tool_limit)) => {
                let entry = config.children@[child@];
                let own = entry.tools@[tool@];
                let class = match own.class {
                    ToolClass::Read => config.tool_class_defaults.read,
                    ToolClass::Mutation => config.tool_class_defaults.mutation,
                    ToolClass::LongRunning => config.tool_class_defaults.long_running,
                    ToolClass::Control => config.tool_class_defaults.control,
                };
                &&& config.children@.contains_key(child@)
                &&& entry.tools@.contains_key(tool@)
                &&& exists|i: int|
                    0 <= i < own.profiles@.len() && (#[trigger] own.profiles@[i])@
                        == config.active_profile@
                &&& child_limit == entry.concurrency
                &&& class is Some
                &&& tool_limit <= own.concurrency
                &&& tool_limit <= class->0.concurrency
                &&& tool_limit == own.concurrency || tool_limit == class->0.concurrency
            },
        },
{
    proof {
        law_the_smaller_limit_counts(*mode, child@, tool@);
    }
    match mode {
        Mode::LegacyCompat => Some((4, 4)),
        Mode::Strict(policy) => {
            let child_policy = policy.children.get(child)?;
            let tool_policy = child_policy.tools.get(tool)?;
            if !lists(&tool_policy.profiles, &policy.active_profile) {
                return None;
            }
            let class_limit = policy.tool_class_defaults.get(tool_policy.class)?;
            let tool_limit: usize = if class_limit.concurrency < tool_policy.concurrency {
                class_limit.concurrency
            } else {
                tool_policy.concurrency
            };
            Some((child_policy.concurrency, tool_limit))
        },
    }
}

/// The most bytes that the arguments of a call may take.
pub fn request_budget(mode: &Mode) -> (r: usize)
    ensures
        r == (match policy_in(*mode) {
            None => usize::MAX,
            Some(config) => config.payload.request_bytes,
        }),
{
    match mode {
        Mode::LegacyCompat => usize::MAX,
        Mode::Strict(policy) => policy.payload.request_bytes,
    }
}

/// The limits that a child's response is held to, where a policy governs.
pub fn response_guard_limits(mode: &Mode) -> (r: Option<(Payload, crate::artifact::Limits)>)
    ensures
        match policy_in(*mode) {
            None => r is None,
            Some(config) => r matches Some((payload, artifacts)) && payload == config.payload
                && artifacts.ttl@ == config.artifacts.ttl_seconds * 1_000_000_000
                && artifacts.max_item_bytes == config.artifacts.max_item_bytes
                && artifacts.max_total_bytes == config.artifacts.max_total_bytes,
        },
{
    match mode {
        Mode::LegacyCompat => None,
        Mode::Strict(policy) => Some(
            (
                policy.payload,
                crate::artifact::Limits {
                    ttl: Span::from_secs(policy.artifacts.ttl_seconds),
                    max_item_bytes: policy.artifacts.max_item_bytes,
                    max_total_bytes: policy.artifacts.max_total_bytes,
                },
            ),
        ),
    }
}

/// Whether a policy governs that has artifacts kept.
pub fn artifact_enabled(mode: &Mode) -> (r: bool)
    ensures
        r == (policy_in(*mode) matches Some(config) && config.artifacts.enabled),
{
    match mode {
        Mode::LegacyCompat => false,
        Mode::Strict(policy) => policy.artifacts.enabled,
    }
}

/// How long a drain waits for running requests.
pub fn drain_deadline(mode: &Mode) -> (r: Span)
    ensures
        r@ == (match policy_in(*mode) {
            None => 60_000_000_000,
            Some(config) => config.drain.deadline_ms * 1_000_000,
        }),
{
    match mode {
        Mode::LegacyCompat => Span::from_secs(60),
        Mode::Strict(policy) => Span::from_millis(policy.drain.deadline_ms),
    }
}

/// A call has limits only where the mode permits the tool; under an accepted policy it always has them there,
/// and they are within the limit on all calls together.
pub proof fn law_limits_only_for_permitted_tools(mode: Mode, child: Seq<char>, tool: Seq<char>)
    ensures
        limits_of(mode, child, tool) is Some ==> permits(mode, child, tool),
        (policy_in(mode) matches Some(config) && accepted(config) && config.children.well_ordered()
            && config.children@[child].tools.well_ordered() && permits(mode, child, tool)) ==> (
        limits_of(mode, child, tool) matches Some((c, t)) && 0 < c
            <= policy_in(mode)->0.limits.global_active && 0 < t
            <= policy_in(mode)->0.limits.global_active),
{
    if policy_in(mode) matches Some(config) && accepted(config) && config.children.well_ordered()
        && config.children@[child].tools.well_ordered() && permits(mode, child, tool) {
        let config = policy_in(mode)->0;
        lemma_map_of(config.children.listing());
        let entry = config.children@[child];
        lemma_map_of(entry.tools.listing());
        let i = choose|i: int|
            0 <= i < config.children.listing().len() && #[trigger] config.children.listing()[i].0
                == child;
        assert(config.children.listing()[i] == (child, entry));
        let j = choose|j: int|
            0 <= j < entry.tools.listing().len() && #[trigger] entry.tools.listing()[j].0 == tool;
        assert(entry.tools.listing()[j] == (tool, entry.tools@[tool]));
        assert(config.tool_class_defaults.limit(entry.tools@[tool].class) is Some);
    }
}

/// What was found where the policy file belongs, and what could not be done about it.
#[derive(Debug, Clone, PartialEq, Eq)]
pub enum PolicySource {
    NoParent,
    Missing,
    Uninspected(String),
    Irregular,
    Unreadable(String),
    Malformed(String),
    Parsed(Box<Config>),
}

/// Why no mode comes of what was found.
#[derive(Debug, Clone, PartialEq, Eq)]
pub enum LoadError {
    NoParent,
    Uninspected(String),
    Irregular,
    Unreadable(String),
    Malformed(String),
    Invalid(PolicyError),
}

impl LoadError {
    /// What is told of the error, at the path of the policy file.
    pub open spec fn text(self, path: Seq<char>) -> Seq<char> {
        match self {
            LoadError::NoParent => "Gateway config directory has no parent"@,
            LoadError::Uninspected(error) => "cannot inspect "@ + path + ": "@ + error@,
            LoadError::Irregular => "Gateway policy must be a regular non-symlink file: "@ + path,
            LoadError::Unreadable(error) => "cannot read "@ + path + ": "@ + error@,
            LoadError::Malformed(error) => "invalid Gateway policy "@ + path + ": "@ + error@,
            LoadError::Invalid(error) => error@.text(),
        }
    }

    pub fn message(&self, path: &str) -> (r: String)
        ensures
            r@ == self.text(path@),
    {
        match self {
            LoadError::NoParent => "Gateway config directory has no parent".to_owned(),
            LoadError::Uninspected(error) => glue(
                &glue(&glue("cannot inspect ", path), ": "),
                error,
            ),
            LoadError::Irregular => glue(
                "Gateway policy must be a regular non-symlink file: ",
                path,
            ),
            LoadError::Unreadable(error) => glue(&glue(&glue("cannot read ", path), ": "), error),
            LoadError::Malformed(error) => glue(
                &glue(&glue("invalid Gateway policy ", path), ": "),
                error,
            ),
            LoadError::Invalid(error) => error.message(),
        }
    }
}

/// The mode to run in: without a policy file nothing is held to a policy; with one everything is, if it is a regular
/// file that can be read and its policy is accepted.
pub fn load(source: PolicySource) -> (r: Result<Mode, LoadError>)
    ensures
        match source {
            PolicySource::NoParent => r == Err::<Mode, LoadError>(LoadError::NoParent),
            PolicySource::Missing => r == Ok::<Mode, LoadError>(Mode::LegacyCompat),
            PolicySource::Uninspected(error) => r == Err::<Mode, LoadError>(
                LoadError::Uninspected(error),
            ),
            PolicySource::Irregular => r == Err::<Mode, LoadError>(LoadError::Irregular),
            PolicySource::Unreadable(error) => r == Err::<Mode, LoadError>(
                LoadError::Unreadable(error),
            ),
            PolicySource::Malformed(error) => r == Err::<Mode, LoadError>(
                LoadError::Malformed(error),
            ),
            PolicySource::Parsed(config) => {
                &&& r is Ok <==> accepted(*config)
                &&& r matches Ok(mode) ==> mode == Mode::Strict(config)
                &&& r matches Err(e) ==> e matches LoadError::Invalid(e) && fault(*config) == Some(
                    e@,
                )
            },
        },
{
    match source {
        PolicySource::NoParent => Err(LoadError::NoParent),
        PolicySource::Missing => Ok(Mode::LegacyCompat),
        PolicySource::Uninspected(error) => Err(LoadError::Uninspected(error)),
        PolicySource::Irregular => Err(LoadError::Irregular),
        PolicySource::Unreadable(error) => Err(LoadError::Unreadable(error)),
        PolicySource::Malformed(error) => Err(LoadError::Malformed(error)),
        PolicySource::Parsed(config) => {
            match validate(&config) {
                Ok(()) => Ok(Mode::Strict(config)),
                Err(e) => Err(LoadError::Invalid(e)),
            }
        },
    }
}

/// A tool is permitted without a policy, and under one exactly if the policy names it for its child and lists the active
/// profile among its profiles.
pub proof fn law_tools_are_permitted_to_listed_profiles(
    mode: Mode,
    child: Seq<char>,
    tool: Seq<char>,
)
    ensures
        match mode {
            Mode::LegacyCompat => permits(mode, child, tool) && policy_in(mode) is None
                && profile_name(mode) is None,
            Mode::Strict(config) => {
                &&& policy_in(mode) == Some(*config)
                &&& profile_name(mode) == Some(config.active_profile@)
                &&& permits(mode, child, tool) <==> {
                    &&& config.children@.contains_key(child)
                    &&& config.children@[child].tools@.contains_key(tool)
                    &&& exists|i: int|
                        0 <= i < config.children@[child].tools@[tool].profiles@.len() && (
                        #[trigger] config.children@[child].tools@[tool].profiles@[i])@
                            == config.active_profile@
                }
            },
        },
{
    if let Mode::Strict(config) = mode {
        let profiles = config.children@[child].tools@[tool].profiles@;
        if texts(profiles).contains(config.active_profile@) {
            let i = choose|i: int|
                0 <= i < texts(profiles).len() && texts(profiles)[i] == config.active_profile@;
            assert(profiles[i]@ == config.active_profile@);
        }
        if exists|i: int|
            0 <= i < profiles.len() && (#[trigger] profiles[i])@ == config.active_profile@ {
            let i = choose|i: int|
                0 <= i < profiles.len() && (#[trigger] profiles[i])@ == config.active_profile@;
            assert(texts(profiles)[i] == config.active_profile@);
        }
    }
}

/// The child limit of a permitted call is the child's; its tool limit is the smaller of the tool's own and that of the
/// tool's class. There are limits exactly where the tool is permitted and its class has one.
pub proof fn law_the_smaller_limit_counts(mode: Mode, child: Seq<char>, tool: Seq<char>)
    ensures
        match mode {
            Mode::LegacyCompat => limits_of(mode, child, tool) == Some((4usize, 4usize)),
            Mode::Strict(config) => match limits_of(mode, child, tool) {
                None => true,
                Some((child_limit, tool_limit)) => {
                    let entry = config.children@[child];
                    let own = entry.tools@[tool];
                    let class = match own.class {
                        ToolClass::Read => config.tool_class_defaults.read,
                        ToolClass::Mutation => config.tool_class_defaults.mutation,
                        ToolClass::LongRunning => config.tool_class_defaults.long_running,
                        ToolClass::Control => config.tool_class_defaults.control,
                    };
                    &&& config.children@.contains_key(child)
                    &&& entry.tools@.contains_key(tool)
                    &&& exists|i: int|
                        0 <= i < own.profiles@.len() && (#[trigger] own.profiles@[i])@
                            == config.active_profile@
                    &&& child_limit == entry.concurrency
                    &&& class is Some
                    &&& tool_limit <= own.concurrency
                    &&& tool_limit <= class->0.concurrency
                    &&& tool_limit == own.concurrency || tool_limit == class->0.concurrency
                },
            },
        },
        mode matches Mode::Strict(config) ==> (limits_of(mode, child, tool) is Some <==> {
            let own = config.children@[child].tools@[tool];
            &&& permits(mode, child, tool)
            &&& (match own.class {
                        ToolClass::Read => config.tool_class_defaults.read,
                        ToolClass::Mutation => config.tool_class_defaults.mutation,
                        ToolClass::LongRunning => config.tool_class_defaults.long_running,
                        ToolClass::Control => config.tool_class_defaults.control,
                    }) is Some
        }),
{
    law_tools_are_permitted_to_listed_profiles(mode, child, tool);
}

/// A policy is accepted exactly if it keeps every bound.
pub proof fn law_accepted_policies_keep_every_bound(config: Config)
    ensures
        accepted(config) <==> ({
            &&& config.schema_version == 1
            &&& config.profiles@.contains_key(config.active_profile@)
            &&& forall|i: int|
                0 <= i < config.profiles.listing().len() ==> named_within(
                    #[trigger] config.profiles.listing()[i].0,
                    128,
                )
            &&& config.limits.global_active > 0
            &&& config.limits.global_queue > 0
            &&& config.limits.queue_wait_ms > 0
            &&& config.limits.default_child_active > 0
            &&& config.tool_class_defaults.read matches Some(l) && 0 < l.concurrency
                <= config.limits.global_active
            &&& config.tool_class_defaults.mutation matches Some(l) && 0 < l.concurrency
                <= config.limits.global_active
            &&& config.tool_class_defaults.long_running matches Some(l) && 0 < l.concurrency
                <= config.limits.global_active
            &&& config.tool_class_defaults.control matches Some(l) && 0 < l.concurrency
                <= config.limits.global_active
            &&& config.drain.deadline_ms > 0
            &&& config.payload.request_bytes > 0
            &&& config.payload.response_bytes > 0
            &&& config.payload.text_preview_bytes > 0
            &&& config.payload.structured_bytes > 0
            &&& config.payload.binary_bytes > 0
            &&& config.artifacts.ttl_seconds > 0
            &&& config.artifacts.max_item_bytes > 0
            &&& config.artifacts.max_item_bytes <= config.artifacts.max_total_bytes
            &&& forall|i: int|
                #![trigger config.children.listing()[i]]
                0 <= i < config.children.listing().len() ==> {
                    let (name, child) = config.children.listing()[i];
                    &&& named_within(name, 128)
                    &&& 0 < child.concurrency <= config.limits.global_active
                    &&& child.restart.max_attempts > 0
                    &&& child.restart.stability_window_ms > 0
                    &&& child.restart.backoff.initial_ms > 0
                    &&& child.restart.backoff.initial_ms <= child.restart.backoff.max_ms
                    &&& child.restart.circuit.cooldown_ms > 0
                    &&& child.restart.circuit.half_open_attempts > 0
                    &&& forall|j: int|
                        #![trigger child.tools.listing()[j]]
                        0 <= j < child.tools.listing().len() ==> {
                            let (tool_name, tool) = child.tools.listing()[j];
                            &&& named_within(tool_name, 128)
                            &&& 0 < tool.concurrency <= config.limits.global_active
                            &&& tool.profiles@.len() > 0
                            &&& forall|k: int|
                                0 <= k < tool.profiles@.len() ==> config.profiles@.contains_key(
                                    #[trigger] tool.profiles@[k]@,
                                )
                        }
                }
        }),
{
    if accepted(config) {
        assert(config.tool_class_defaults.limit(ToolClass::Read) is Some);
        assert(config.tool_class_defaults.limit(ToolClass::Mutation) is Some);
        assert(config.tool_class_defaults.limit(ToolClass::LongRunning) is Some);
        assert(config.tool_class_defaults.limit(ToolClass::Control) is Some);
        assert forall|i: int|
            #![trigger config.profiles.listing()[i]]
            0 <= i < config.profiles.listing().len() implies named_within(
            config.profiles.listing()[i].0,
            128,
        ) by {
            assert(good_name(config.profiles.listing()[i].0));
        }
    }
    if ({
            &&& config.schema_version == 1
            &&& config.profiles@.contains_key(config.active_profile@)
            &&& forall|i: int|
                0 <= i < config.profiles.listing().len() ==> named_within(
                    #[trigger] config.profiles.listing()[i].0,
                    128,
                )
            &&& config.limits.global_active > 0
            &&& config.limits.global_queue > 0
            &&& config.limits.queue_wait_ms > 0
            &&& config.limits.default_child_active > 0
            &&& config.tool_class_defaults.read matches Some(l) && 0 < l.concurrency
                <= config.limits.global_active
            &&& config.tool_class_defaults.mutation matches Some(l) && 0 < l.concurrency
                <= config.limits.global_active
            &&& config.tool_class_defaults.long_running matches Some(l) && 0 < l.concurrency
                <= config.limits.global_active
            &&& config.tool_class_defaults.control matches Some(l) && 0 < l.concurrency
                <= config.limits.global_active
            &&& config.drain.deadline_ms > 0
            &&& config.payload.request_bytes > 0
            &&& config.payload.response_bytes > 0
            &&& config.payload.text_preview_bytes > 0
            &&& config.payload.structured_bytes > 0
            &&& config.payload.binary_bytes > 0
            &&& config.artifacts.ttl_seconds > 0
            &&& config.artifacts.max_item_bytes > 0
            &&& config.artifacts.max_item_bytes <= config.artifacts.max_total_bytes
            &&& forall|i: int|
                #![trigger config.children.listing()[i]]
                0 <= i < config.children.listing().len() ==> {
                    let (name, child) = config.children.listing()[i];
                    &&& named_within(name, 128)
                    &&& 0 < child.concurrency <= config.limits.global_active
                    &&& child.restart.max_attempts > 0
                    &&& child.restart.stability_window_ms > 0
                    &&& child.restart.backoff.initial_ms > 0
                    &&& child.restart.backoff.initial_ms <= child.restart.backoff.max_ms
                    &&& child.restart.circuit.cooldown_ms > 0
                    &&& child.restart.circuit.half_open_attempts > 0
                    &&& forall|j: int|
                        #![trigger child.tools.listing()[j]]
                        0 <= j < child.tools.listing().len() ==> {
                            let (tool_name, tool) = child.tools.listing()[j];
                            &&& named_within(tool_name, 128)
                            &&& 0 < tool.concurrency <= config.limits.global_active
                            &&& tool.profiles@.len() > 0
                            &&& forall|k: int|
                                0 <= k < tool.profiles@.len() ==> config.profiles@.contains_key(
                                    #[trigger] tool.profiles@[k]@,
                                )
                        }
                }
    }) {
        assert forall|class: ToolClass| #[trigger]
            config.tool_class_defaults.limit(class) matches Some(l) && concurrency_fits(
                l.concurrency,
                config.limits,
            ) by {
            match class {
                ToolClass::Read => {},
                ToolClass::Mutation => {},
                ToolClass::LongRunning => {},
                ToolClass::Control => {},
            }
        }
        assert(profiles_fit(config));
        assert forall|i: int|
            #![trigger config.children.listing()[i]]
            0 <= i < config.children.listing().len() implies child_sound(
            config,
            config.children.listing()[i],
        ) by {
            let (name, child) = config.children.listing()[i];
            assert(child_fits(config.limits, name, child));
            assert forall|j: int|
                #![trigger child.tools.listing()[j]]
                0 <= j < child.tools.listing().len() implies tool_fits(
                config,
                child.tools.listing()[j].0,
                child.tools.listing()[j].1,
            ) by {
                let (tool_name, tool) = child.tools.listing()[j];
                assert(named_within(tool_name, 128));
            }
        }
        lemma_children_fault(config, config.children.listing());
        law_accepted_iff_without_fault(config);
    }
}

proof fn lemma_told_tool(config: Config, child: Seq<char>, tools: Seq<(Seq<char>, Tool)>) -> (at: int)
    requires
        tools_fault(config, child, tools) is Some,
    ensures
        0 <= at < tools.len(),
        tools_fault(config, child, tools) == Some(Fault::Tool(child, tools[at].0)),
        !tool_fits(config, tools[at].0, tools[at].1),
        forall|j: int|
            0 <= j < at ==> tool_fits(config, (#[trigger] tools[j]).0, tools[j].1),
    decreases tools.len(),
{
    if !tool_fits(config, tools[0].0, tools[0].1) {
        0
    } else {
        let at = lemma_told_tool(config, child, tools.drop_first());
        assert forall|j: int| 0 <= j < at + 1 implies tool_fits(
            config,
            (#[trigger] tools[j]).0,
            tools[j].1,
        ) by {
            if j > 0 {
                assert(tools.drop_first()[j - 1] == tools[j]);
            }
        }
        at + 1
    }
}

proof fn lemma_told_child(config: Config, children: Seq<(Seq<char>, Child)>) -> (at: int)
    requires
        children_fault(config, children) is Some,
    ensures
        0 <= at < children.len(),
        forall|i: int| 0 <= i < at ==> child_sound(config, #[trigger] children[i]),
        children_fault(config, children) == if !child_fits(
            config.limits,
            children[at].0,
            children[at].1,
        ) {
            Some(Fault::Child(children[at].0))
        } else {
            tools_fault(config, children[at].0, children[at].1.tools.listing())
        },
        children_fault(config, children) is Some,
    decreases children.len(),
{
    let (name, child) = children[0];
    lemma_tools_fault(config, name, child.tools.listing());
    if !child_fits(config.limits, name, child) || tools_fault(
        config,
        name,
        child.tools.listing(),
    ) is Some {
        0
    } else {
        let at = lemma_told_child(config, children.drop_first());
        assert forall|i: int| 0 <= i < at + 1 implies child_sound(
            config,
            #[trigger] children[i],
        ) by {
            if i > 0 {
                assert(children.drop_first()[i - 1] == children[i]);
            }
        }
        at + 1
    }
}

/// What is told of a policy that is refused is true of it, and is the first thing that is wrong with it: the schema
/// before the profiles, these before the limits on all requests, then the classes, the other bounds and the children,
/// child by child in the order of their names.
pub proof fn law_the_first_fault_of_a_policy_is_told(config: Config)
    ensures
        ({
            let schema = config.schema_version == 1;
            let profiles = config.profiles@.contains_key(config.active_profile@) && forall|i: int|
                0 <= i < config.profiles.listing().len() ==> named_within(
                    #[trigger] config.profiles.listing()[i].0,
                    128,
                );
            let scheduler = config.limits.global_active > 0 && config.limits.global_queue > 0
                && config.limits.queue_wait_ms > 0 && config.limits.default_child_active > 0;
            let bounds = config.drain.deadline_ms > 0 && config.payload.request_bytes > 0
                && config.payload.response_bytes > 0 && config.payload.text_preview_bytes > 0
                && config.payload.structured_bytes > 0 && config.payload.binary_bytes > 0
                && config.artifacts.ttl_seconds > 0 && config.artifacts.max_item_bytes > 0
                && config.artifacts.max_item_bytes <= config.artifacts.max_total_bytes;
            match fault(config) {
                None => schema && profiles && scheduler && bounds,
                Some(Fault::UnsupportedSchema(version)) => !schema && version
                    == config.schema_version,
                Some(Fault::ActiveProfile) => schema && !profiles,
                Some(Fault::SchedulerLimits) => schema && profiles && !scheduler,
                Some(Fault::MissingClass(class)) => schema && profiles && scheduler && (match class {
                            ToolClass::Read => config.tool_class_defaults.read,
                            ToolClass::Mutation => config.tool_class_defaults.mutation,
                            ToolClass::LongRunning => config.tool_class_defaults.long_running,
                            ToolClass::Control => config.tool_class_defaults.control,
                        }) is None,
                Some(Fault::ClassLimit(class)) => schema && profiles && scheduler && ((match class {
                            ToolClass::Read => config.tool_class_defaults.read,
                            ToolClass::Mutation => config.tool_class_defaults.mutation,
                            ToolClass::LongRunning => config.tool_class_defaults.long_running,
                            ToolClass::Control => config.tool_class_defaults.control,
                        }) matches Some(l) && (l.concurrency == 0 || l.concurrency
                    > config.limits.global_active)),
                Some(Fault::Bounds) => schema && profiles && scheduler && !bounds,
                Some(Fault::Child(name)) => schema && profiles && scheduler && bounds && exists|
                    i: int,
                |
                    #![trigger config.children.listing()[i]]
                    0 <= i < config.children.listing().len() && config.children.listing()[i].0
                        == name && ({
                        let child = config.children.listing()[i].1;
                        ||| !named_within(name, 128)
                        ||| child.concurrency == 0
                        ||| child.concurrency > config.limits.global_active
                        ||| child.restart.max_attempts == 0
                        ||| child.restart.stability_window_ms == 0
                        ||| child.restart.backoff.initial_ms == 0
                        ||| child.restart.backoff.initial_ms > child.restart.backoff.max_ms
                        ||| child.restart.circuit.cooldown_ms == 0
                        ||| child.restart.circuit.half_open_attempts == 0
                    }),
                Some(Fault::Tool(name, tool_name)) => schema && profiles && scheduler && bounds
                    && exists|i: int, j: int|
                    #![trigger config.children.listing()[i].1.tools.listing()[j]]
                    0 <= i < config.children.listing().len() && config.children.listing()[i].0
                        == name && 0 <= j < config.children.listing()[i].1.tools.listing().len()
                        && config.children.listing()[i].1.tools.listing()[j].0 == tool_name && ({
                        let tool = config.children.listing()[i].1.tools.listing()[j].1;
                        ||| !named_within(tool_name, 128)
                        ||| tool.concurrency == 0
                        ||| tool.concurrency > config.limits.global_active
                        ||| tool.profiles@.len() == 0
                        ||| exists|k: int|
                            0 <= k < tool.profiles@.len() && !config.profiles@.contains_key(
                                #[trigger] tool.profiles@[k]@,
                            )
                    }),
            }
        }),
{
    let profiles = config.profiles@.contains_key(config.active_profile@) && forall|i: int|
        0 <= i < config.profiles.listing().len() ==> named_within(
            #[trigger] config.profiles.listing()[i].0,
            128,
        );
    assert(profiles == profiles_fit(config)) by {
        if profiles_fit(config) {
            assert forall|i: int|
                #![trigger config.profiles.listing()[i]]
                0 <= i < config.profiles.listing().len() implies named_within(
                config.profiles.listing()[i].0,
                128,
            ) by {
                assert(good_name(config.profiles.listing()[i].0));
            }
        }
    }
    let all = config.children.listing();
    if children_fault(config, all) is Some {
        let i = lemma_told_child(config, all);
        if child_fits(config.limits, all[i].0, all[i].1) {
            let tools = all[i].1.tools.listing();
            let j = lemma_told_tool(config, all[i].0, tools);
            assert(config.children.listing()[i].1.tools.listing()[j].0 == tools[j].0);
        }
    }
}

/// What is told of each fault of a policy: the class, the child or the tool that is at fault.
pub proof fn law_policy_errors_are_told_in_words(error: PolicyError, class: ToolClass)
    ensures
        match class {
            ToolClass::Read => class.label() == "Read"@,
            ToolClass::Mutation => class.label() == "Mutation"@,
            ToolClass::LongRunning => class.label() == "LongRunning"@,
            ToolClass::Control => class.label() == "Control"@,
        },
        match error {
            PolicyError::UnsupportedSchema(v) => error@.text()
                == "unsupported Gateway policy schema_version "@ + decimal(v as nat),
            PolicyError::ActiveProfile => error@.text()
                == "Gateway active_profile must name a declared valid profile"@,
            PolicyError::SchedulerLimits => error@.text()
                == "Gateway scheduler limits must be non-zero"@,
            PolicyError::MissingClass(c) => error@.text()
                == "Gateway policy lacks a default limit for "@ + c.label(),
            PolicyError::ClassLimit(c) => error@.text() == "Gateway class limit for "@ + c.label()
                + " is out of bounds"@,
            PolicyError::Bounds => error@.text()
                == "Gateway drain, payload and artifact limits must be non-zero and bounded"@,
            PolicyError::Child(c) => error@.text() == "Gateway child policy for "@ + c@
                + " is invalid"@,
            PolicyError::Tool(c, t) => error@.text() == "Gateway tool policy for "@ + c@ + "."@ + t@
                + " is invalid"@,
        },
{
}

/// What is told of each misfit, and of each reason for which a policy could not be loaded.
pub proof fn law_misfits_and_failed_loads_are_told_in_words(
    misfit: CatalogError,
    error: LoadError,
    path: Seq<char>,
)
    ensures
        match misfit {
            CatalogError::UnknownChild(c) => misfit@.text()
                == "Gateway policy references unknown child "@ + c@,
            CatalogError::UnknownTool(c, t) => misfit@.text()
                == "Gateway policy references unknown tool "@ + c@ + "."@ + t@,
            CatalogError::ExcludedTool(c, t) => misfit@.text()
                == "Gateway policy exposes tool excluded by child allowlist: "@ + c@ + "."@ + t@,
        },
        match error {
            LoadError::NoParent => error.text(path) == "Gateway config directory has no parent"@,
            LoadError::Uninspected(reason) => error.text(path) == "cannot inspect "@ + path + ": "@
                + reason@,
            LoadError::Irregular => error.text(path)
                == "Gateway policy must be a regular non-symlink file: "@ + path,
            LoadError::Unreadable(reason) => error.text(path) == "cannot read "@ + path + ": "@
                + reason@,
            LoadError::Malformed(reason) => error.text(path) == "invalid Gateway policy "@ + path
                + ": "@ + reason@,
            LoadError::Invalid(fault) => error.text(path) == fault@.text(),
        },
{
}

/// The child has the tool, and its allowlist, if it has one that is not empty, names it.
pub open spec fn serves(
    child: Seq<char>,
    tool: Seq<char>,
    children: NamesByChild,
    allowlists: NamesByChild,
) -> bool {
    &&& children[child].contains(tool)
    &&& allowlists.contains_key(child) && (exists|name: Seq<char>| #[trigger]
        allowlists[child].contains(name)) ==> allowlists[child].contains(tool)
}

/// The child is known, and serves every tool that the policy names for it.
pub open spec fn is_served(
    entry: (Seq<char>, Child),
    children: NamesByChild,
    allowlists: NamesByChild,
) -> bool {
    &&& children.contains_key(entry.0)
    &&& forall|j: int|
        0 <= j < entry.1.tools.listing().len() ==> serves(
            entry.0,
            (#[trigger] entry.1.tools.listing()[j]).0,
            children,
            allowlists,
        )
}

/// The tool at the place is the first of the child's that it does not serve.
pub open spec fn first_unserved(
    entry: (Seq<char>, Child),
    at: int,
    children: NamesByChild,
    allowlists: NamesByChild,
) -> bool {
    &&& 0 <= at < entry.1.tools.listing().len()
    &&& !serves(entry.0, entry.1.tools.listing()[at].0, children, allowlists)
    &&& forall|j: int|
        0 <= j < at ==> serves(
            entry.0,
            (#[trigger] entry.1.tools.listing()[j]).0,
            children,
            allowlists,
        )
}

/// Where the child at the place is the first that is not served, what is told is this: the child where it is not known,
/// else the first of its tools that it does not serve, and whether it lacks the tool or excludes it.
pub open spec fn told_at(
    misfit: Misfit,
    entries: Seq<(Seq<char>, Child)>,
    at: int,
    children: NamesByChild,
    allowlists: NamesByChild,
) -> bool {
    let (name, child) = entries[at];
    if !children.contains_key(name) {
        misfit == Misfit::UnknownChild(name)
    } else {
        exists|j: int|
            {
                let tool = child.tools.listing()[j].0;
                &&& #[trigger] first_unserved(entries[at], j, children, allowlists)
                &&& misfit == if children[name].contains(tool) {
                    Misfit::ExcludedTool(name, tool)
                } else {
                    Misfit::UnknownTool(name, tool)
                }
            }
    }
}

/// A policy fits exactly if each of its children is known and serves every tool that the policy names for it; of a
/// policy that does not fit the first child is told for which that does not hold.
pub proof fn law_the_first_misfit_is_told(
    entries: Seq<(Seq<char>, Child)>,
    children: NamesByChild,
    allowlists: NamesByChild,
)
    ensures
        match catalog_misfit(entries, children, allowlists) {
            None => forall|i: int|
                0 <= i < entries.len() ==> is_served(#[trigger] entries[i], children, allowlists),
            Some(misfit) => exists|i: int|
                {
                    &&& 0 <= i < entries.len()
                    &&& #[trigger] told_at(misfit, entries, i, children, allowlists)
                    &&& forall|k: int|
                        0 <= k < i ==> is_served(#[trigger] entries[k], children, allowlists)
                },
        },
    decreases entries.len(),
{
    if entries.len() > 0 {
        let rest = entries.drop_first();
        let (name, child) = entries[0];
        law_the_first_misfit_is_told(rest, children, allowlists);
        if !children.contains_key(name) {
            assert(told_at(Misfit::UnknownChild(name), entries, 0, children, allowlists));
        } else {
            lemma_first_unserved(entries[0], child.tools.listing(), 0, children, allowlists);
            let found = tools_misfit(
                name,
                child.tools.listing(),
                children[name],
                allowlist_of(allowlists, name),
            );
            assert(child.tools.listing().skip(0) =~= child.tools.listing());
            if found is Some {
                assert(told_at(found->0, entries, 0, children, allowlists));
            } else {
                assert(is_served(entries[0], children, allowlists));
                match catalog_misfit(rest, children, allowlists) {
                    None => {
                        assert forall|i: int| 0 <= i < entries.len() implies is_served(
                            #[trigger] entries[i],
                            children,
                            allowlists,
                        ) by {
                            if i > 0 {
                                assert(rest[i - 1] == entries[i]);
                            }
                        }
                    },
                    Some(misfit) => {
                        let i = choose|i: int|
                            {
                                &&& 0 <= i < rest.len()
                                &&& #[trigger] told_at(misfit, rest, i, children, allowlists)
                                &&& forall|k: int|
                                    0 <= k < i ==> is_served(
                                        #[trigger] rest[k],
                                        children,
                                        allowlists,
                                    )
                            };
                        assert(rest[i] == entries[i + 1]);
                        assert(told_at(misfit, entries, i + 1, children, allowlists));
                        assert forall|k: int| 0 <= k < i + 1 implies is_served(
                            #[trigger] entries[k],
                            children,
                            allowlists,
                        ) by {
                            if k > 0 {
                                assert(rest[k - 1] == entries[k]);
                            }
                        }
                    },
                }
            }
        }
    }
}

proof fn lemma_first_unserved(
    entry: (Seq<char>, Child),
    tools: Seq<(Seq<char>, Tool)>,
    from: int,
    children: NamesByChild,
    allowlists: NamesByChild,
)
    requires
        tools == entry.1.tools.listing(),
        0 <= from <= tools.len(),
        children.contains_key(entry.0),
        forall|j: int|
            0 <= j < from ==> serves(entry.0, (#[trigger] tools[j]).0, children, allowlists),
    ensures
        ({
            let name = entry.0;
            let found = tools_misfit(
                name,
                tools.skip(from),
                children[name],
                allowlist_of(allowlists, name),
            );
            match found {
                None => is_served(entry, children, allowlists),
                Some(misfit) => exists|j: int|
                    {
                        &&& #[trigger] first_unserved(entry, j, children, allowlists)
                        &&& misfit == if children[name].contains(tools[j].0) {
                            Misfit::ExcludedTool(name, tools[j].0)
                        } else {
                            Misfit::UnknownTool(name, tools[j].0)
                        }
                    },
            }
        }),
    decreases tools.len() - from,
{
    let name = entry.0;
    let left = tools.skip(from);
    if from < tools.len() {
        let tool = tools[from].0;
        assert(left[0] == tools[from]);
        assert(offered(tool, children[name], allowlist_of(allowlists, name)) <==> serves(
            name,
            tool,
            children,
            allowlists,
        )) by {
            if allowlists.contains_key(name) {
                let list = allowlists[name];
                if !(exists|n: Seq<char>| #[trigger] list.contains(n)) {
                    assert(list =~= Set::<Seq<char>>::empty());
                }
            }
        }
        if serves(name, tool, children, allowlists) {
            assert(left.drop_first() =~= tools.skip(from + 1));
            lemma_first_unserved(entry, tools, from + 1, children, allowlists);
        } else {
            assert(first_unserved(entry, from, children, allowlists));
        }
    }
}

} // verus!

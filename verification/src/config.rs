//! The children as they are configured.
use crate::name_map::{copy_list, lists, texts, NameMap, NameSet};
use crate::names::{has_only_name_chars, name_char, name_chars, named_within, valid_tool_name, validate_child_name, MAX_CHILD_NAME, MAX_TOOL_NAME};
use crate::text::{blank, chars_of, glue, has_char, is_blank, same, white_space};
use vstd::prelude::*;

verus! {

/// The most entries of an allowlist.
pub const MAX_ALLOWLIST: usize = 256;

/// The longest time in milliseconds that a call may take.
pub const MAX_TIMEOUT_MS: u64 = 600_000;

#[derive(Debug, Clone, Copy, PartialEq, Eq, Structural)]
pub enum RestartPolicy {
    Never,
    OnFailure,
}

impl Default for RestartPolicy {
    fn default() -> (r: Self)
        ensures
            r == RestartPolicy::OnFailure,
    {
        RestartPolicy::OnFailure
    }
}

#[derive(Debug, Clone, Copy, PartialEq, Eq, Structural)]
pub struct RestartConfig {
    pub policy: RestartPolicy,
}

impl Default for RestartConfig {
    fn default() -> (r: Self)
        ensures
            r.policy == RestartPolicy::OnFailure,
    {
        RestartConfig { policy: RestartPolicy::OnFailure }
    }
}

/// A child: how it is started, which of its tools are exposed and under which names.
#[derive(Debug, PartialEq, Eq)]
pub struct ChildConfig {
    pub name: String,
    pub enabled: bool,
    pub command: String,
    pub args: Vec<String>,
    pub env: NameMap<String>,
    /// Stands before the name of every exposed tool.
    pub tool_prefix: Option<String>,
    /// The tools that are exposed, by the names that the child gives them; all of them where it is empty.
    pub tool_allowlist: Vec<String>,
    pub timeout_ms: u64,
    pub restart: RestartConfig,
}

/// What a configuration says.
#[verifier::ext_equal]
pub struct ConfigText {
    pub name: Seq<char>,
    pub enabled: bool,
    pub command: Seq<char>,
    pub args: Seq<Seq<char>>,
    pub env: Seq<(Seq<char>, Seq<char>)>,
    pub tool_prefix: Option<Seq<char>>,
    pub tool_allowlist: Seq<Seq<char>>,
    pub timeout_ms: u64,
    pub restart: RestartConfig,
}

pub open spec fn env_texts(env: NameMap<String>) -> Seq<(Seq<char>, Seq<char>)> {
    env.listing().map_values(|entry: (Seq<char>, String)| (entry.0, entry.1@))
}

pub open spec fn optional_text(text: Option<String>) -> Option<Seq<char>> {
    match text {
        None => None,
        Some(text) => Some(text@),
    }
}

impl View for ChildConfig {
    type V = ConfigText;

    open spec fn view(&self) -> ConfigText {
        ConfigText {
            name: self.name@,
            enabled: self.enabled,
            command: self.command@,
            args: texts(self.args@),
            env: env_texts(self.env),
            tool_prefix: optional_text(self.tool_prefix),
            tool_allowlist: texts(self.tool_allowlist@),
            timeout_ms: self.timeout_ms,
            restart: self.restart,
        }
    }
}

pub fn default_true() -> (r: bool)
    ensures
        r,
{
    true
}

pub fn default_timeout_ms() -> (r: u64)
    ensures
        r == 30_000,
{
    30_000
}

pub(crate) fn copy_optional(text: &Option<String>) -> (r: Option<String>)
    ensures
        optional_text(r) == optional_text(*text),
{
    match text {
        None => None,
        Some(text) => Some(text.clone()),
    }
}

impl Clone for ChildConfig {
    fn clone(&self) -> (r: Self)
        ensures
            r@ == self@,
    {
        let env = self.env.clone();
        assert(env_texts(env) =~= env_texts(self.env));
        ChildConfig {
            name: self.name.clone(),
            enabled: self.enabled,
            command: self.command.clone(),
            args: copy_list(&self.args),
            env,
            tool_prefix: copy_optional(&self.tool_prefix),
            tool_allowlist: copy_list(&self.tool_allowlist),
            timeout_ms: self.timeout_ms,
            restart: self.restart,
        }
    }
}

fn same_lists(a: &Vec<String>, b: &Vec<String>) -> (r: bool)
    ensures
        r == (texts(a@) == texts(b@)),
{
    if a.len() != b.len() {
        assert(texts(a@).len() != texts(b@).len());
        return false;
    }
    let mut i: usize = 0;
    while i < a.len()
        invariant
            i <= a.len(),
            a.len() == b.len(),
            forall|j: int| 0 <= j < i ==> a@[j]@ == b@[j]@,
        decreases a.len() - i,
    {
        if !same(&a[i], &b[i]) {
            assert(texts(a@)[i as int] != texts(b@)[i as int]);
            return false;
        }
        i = i + 1;
    }
    assert(texts(a@) =~= texts(b@));
    true
}

fn same_env(a: &NameMap<String>, b: &NameMap<String>) -> (r: bool)
    ensures
        r == (env_texts(*a) == env_texts(*b)),
{
    let n: usize = a.len();
    if n != b.len() {
        assert(env_texts(*a).len() != env_texts(*b).len());
        return false;
    }
    let mut i: usize = 0;
    while i < n
        invariant
            i <= n,
            n == a.listing().len(),
            n == b.listing().len(),
            forall|j: int| 0 <= j < i ==> #[trigger] env_texts(*a)[j] == env_texts(*b)[j],
        decreases n - i,
    {
        if !same(a.key_at(i), b.key_at(i)) || !same(a.value_at(i), b.value_at(i)) {
            assert(env_texts(*a)[i as int] != env_texts(*b)[i as int]);
            return false;
        }
        i = i + 1;
    }
    assert(env_texts(*a) =~= env_texts(*b));
    true
}

fn same_optional(a: &Option<String>, b: &Option<String>) -> (r: bool)
    ensures
        r == (optional_text(*a) == optional_text(*b)),
{
    match (a, b) {
        (None, None) => true,
        (Some(a), Some(b)) => same(a, b),
        (None, Some(_)) => false,
        (Some(_), None) => false,
    }
}

/// Two configurations say the same exactly if they agree in every part: the arguments and the allowlist one by one and
/// in order, the environment name by name.
pub proof fn law_configurations_agree_in_every_part(a: ChildConfig, b: ChildConfig)
    ensures
        a@ == b@ <==> ({
            &&& a.name@ == b.name@
            &&& a.enabled == b.enabled
            &&& a.command@ == b.command@
            &&& a.args@.len() == b.args@.len()
            &&& forall|i: int|
                0 <= i < a.args@.len() ==> (#[trigger] a.args@[i])@ == b.args@[i]@
            &&& a.env.listing().len() == b.env.listing().len()
            &&& forall|i: int|
                0 <= i < a.env.listing().len() ==> (#[trigger] a.env.listing()[i]).0
                    == b.env.listing()[i].0 && a.env.listing()[i].1@ == b.env.listing()[i].1@
            &&& match (a.tool_prefix, b.tool_prefix) {
                (None, None) => true,
                (Some(x), Some(y)) => x@ == y@,
                _ => false,
            }
            &&& a.tool_allowlist@.len() == b.tool_allowlist@.len()
            &&& forall|i: int|
                0 <= i < a.tool_allowlist@.len() ==> (#[trigger] a.tool_allowlist@[i])@
                    == b.tool_allowlist@[i]@
            &&& a.timeout_ms == b.timeout_ms
            &&& a.restart.policy == b.restart.policy
        }),
{
    if a@ == b@ {
        assert(a@.args.len() == b@.args.len());
        assert(a@.env.len() == b@.env.len());
        assert(a@.tool_allowlist.len() == b@.tool_allowlist.len());
        assert forall|i: int| 0 <= i < a.args@.len() implies (#[trigger] a.args@[i])@
            == b.args@[i]@ by {
            assert(a@.args[i] == b@.args[i]);
        }
        assert forall|i: int| 0 <= i < a.env.listing().len() implies (
        #[trigger] a.env.listing()[i]).0 == b.env.listing()[i].0 && a.env.listing()[i].1@
            == b.env.listing()[i].1@ by {
            assert(a@.env[i] == b@.env[i]);
        }
        assert forall|i: int| 0 <= i < a.tool_allowlist@.len() implies (
        #[trigger] a.tool_allowlist@[i])@ == b.tool_allowlist@[i]@ by {
            assert(a@.tool_allowlist[i] == b@.tool_allowlist[i]);
        }
        assert(a@.tool_prefix == b@.tool_prefix);
    }
    if ({
            &&& a.name@ == b.name@
            &&& a.enabled == b.enabled
            &&& a.command@ == b.command@
            &&& a.args@.len() == b.args@.len()
            &&& forall|i: int|
                0 <= i < a.args@.len() ==> (#[trigger] a.args@[i])@ == b.args@[i]@
            &&& a.env.listing().len() == b.env.listing().len()
            &&& forall|i: int|
                0 <= i < a.env.listing().len() ==> (#[trigger] a.env.listing()[i]).0
                    == b.env.listing()[i].0 && a.env.listing()[i].1@ == b.env.listing()[i].1@
            &&& match (a.tool_prefix, b.tool_prefix) {
                (None, None) => true,
                (Some(x), Some(y)) => x@ == y@,
                _ => false,
            }
            &&& a.tool_allowlist@.len() == b.tool_allowlist@.len()
            &&& forall|i: int|
                0 <= i < a.tool_allowlist@.len() ==> (#[trigger] a.tool_allowlist@[i])@
                    == b.tool_allowlist@[i]@
            &&& a.timeout_ms == b.timeout_ms
            &&& a.restart.policy == b.restart.policy
    }) {
        assert(a@.args =~= b@.args);
        assert(a@.env =~= b@.env);
        assert(a@.tool_allowlist =~= b@.tool_allowlist);
        assert(a@ =~= b@);
    }
}

/// Whether two configurations say the same: whether they agree in every part.
pub fn same_config(a: &ChildConfig, b: &ChildConfig) -> (r: bool)
    ensures
        r == (a@ == b@),
        r <==> ({
            &&& a.name@ == b.name@
            &&& a.enabled == b.enabled
            &&& a.command@ == b.command@
            &&& a.args@.len() == b.args@.len()
            &&& forall|i: int|
                0 <= i < a.args@.len() ==> (#[trigger] a.args@[i])@ == b.args@[i]@
            &&& a.env.listing().len() == b.env.listing().len()
            &&& forall|i: int|
                0 <= i < a.env.listing().len() ==> (#[trigger] a.env.listing()[i]).0
                    == b.env.listing()[i].0 && a.env.listing()[i].1@ == b.env.listing()[i].1@
            &&& match (a.tool_prefix, b.tool_prefix) {
                (None, None) => true,
                (Some(x), Some(y)) => x@ == y@,
                _ => false,
            }
            &&& a.tool_allowlist@.len() == b.tool_allowlist@.len()
            &&& forall|i: int|
                0 <= i < a.tool_allowlist@.len() ==> (#[trigger] a.tool_allowlist@[i])@
                    == b.tool_allowlist@[i]@
            &&& a.timeout_ms == b.timeout_ms
            &&& a.restart.policy == b.restart.policy
        }),
{
    proof {
        law_configurations_agree_in_every_part(*a, *b);
    }
    same(&a.name, &b.name) && a.enabled == b.enabled && same(&a.command, &b.command) && same_lists(
        &a.args,
        &b.args,
    ) && same_env(&a.env, &b.env) && same_optional(&a.tool_prefix, &b.tool_prefix) && same_lists(
        &a.tool_allowlist,
        &b.tool_allowlist,
    ) && a.timeout_ms == b.timeout_ms && a.restart == b.restart
}

/// Why a configuration is refused.
#[derive(Debug, PartialEq, Eq)]
pub enum ConfigError {
    Name,
    Command,
    Timeout,
    Prefix,
    AllowlistLength,
    InvalidTool(String),
    DuplicateTool(String),
}

pub enum ConfigFault {
    Name,
    Command,
    Timeout,
    Prefix,
    AllowlistLength,
    InvalidTool(Seq<char>),
    DuplicateTool(Seq<char>),
}

impl View for ConfigError {
    type V = ConfigFault;

    open spec fn view(&self) -> ConfigFault {
        match self {
            ConfigError::Name => ConfigFault::Name,
            ConfigError::Command => ConfigFault::Command,
            ConfigError::Timeout => ConfigFault::Timeout,
            ConfigError::Prefix => ConfigFault::Prefix,
            ConfigError::AllowlistLength => ConfigFault::AllowlistLength,
            ConfigError::InvalidTool(name) => ConfigFault::InvalidTool(name@),
            ConfigError::DuplicateTool(name) => ConfigFault::DuplicateTool(name@),
        }
    }
}

impl ConfigFault {
    pub open spec fn text(self) -> Seq<char> {
        match self {
            ConfigFault::Name =>
                "child name may contain only ASCII letters, digits, '_', '-' and '.'"@,
            ConfigFault::Command => "command must be non-empty and contain no NUL"@,
            ConfigFault::Timeout => "timeout_ms must be between 1 and 600000"@,
            ConfigFault::Prefix =>
                "tool_prefix may contain only ASCII letters, digits, '_', '-' and '.'"@,
            ConfigFault::AllowlistLength => "tool_allowlist may contain at most 256 entries"@,
            ConfigFault::InvalidTool(name) => "tool_allowlist contains invalid tool name '"@ + name
                + "'"@,
            ConfigFault::DuplicateTool(name) => "tool_allowlist contains duplicate tool name '"@
                + name + "'"@,
        }
    }
}

impl ConfigError {
    pub fn message(&self) -> (r: String)
        ensures
            r@ == self@.text(),
    {
        match self {
            ConfigError::Name =>
                "child name may contain only ASCII letters, digits, '_', '-' and '.'".to_owned(),
            ConfigError::Command => "command must be non-empty and contain no NUL".to_owned(),
            ConfigError::Timeout => "timeout_ms must be between 1 and 600000".to_owned(),
            ConfigError::Prefix =>
                "tool_prefix may contain only ASCII letters, digits, '_', '-' and '.'".to_owned(),
            ConfigError::AllowlistLength =>
                "tool_allowlist may contain at most 256 entries".to_owned(),
            ConfigError::InvalidTool(name) => glue(
                &glue("tool_allowlist contains invalid tool name '", name),
                "'",
            ),
            ConfigError::DuplicateTool(name) => glue(
                &glue("tool_allowlist contains duplicate tool name '", name),
                "'",
            ),
        }
    }
}

/// The first entry of an allowlist that is no tool name or stands there before, if there is one.
pub open spec fn allowlist_fault(list: Seq<Seq<char>>) -> Option<ConfigFault>
    decreases list.len(),
{
    if list.len() == 0 {
        None
    } else if allowlist_fault(list.drop_last()) is Some {
        allowlist_fault(list.drop_last())
    } else if !named_within(list.last(), MAX_TOOL_NAME as int) {
        Some(ConfigFault::InvalidTool(list.last()))
    } else if list.drop_last().contains(list.last()) {
        Some(ConfigFault::DuplicateTool(list.last()))
    } else {
        None
    }
}

/// The first thing that is wrong with a configuration, if anything is.
pub open spec fn config_fault(config: ConfigText) -> Option<ConfigFault> {
    if !named_within(config.name, MAX_CHILD_NAME as int) {
        Some(ConfigFault::Name)
    } else if blank(config.command) || config.command.contains('\0') {
        Some(ConfigFault::Command)
    } else if config.timeout_ms == 0 || config.timeout_ms > MAX_TIMEOUT_MS {
        Some(ConfigFault::Timeout)
    } else if config.tool_prefix matches Some(prefix) && (prefix.len() == 0 || !name_chars(prefix)) {
        Some(ConfigFault::Prefix)
    } else if config.tool_allowlist.len() > MAX_ALLOWLIST {
        Some(ConfigFault::AllowlistLength)
    } else {
        allowlist_fault(config.tool_allowlist)
    }
}

proof fn lemma_allowlist_fault_stays(list: Seq<Seq<char>>, n: int)
    requires
        0 <= n <= list.len(),
        allowlist_fault(list.take(n)) is Some,
    ensures
        allowlist_fault(list) == allowlist_fault(list.take(n)),
    decreases list.len() - n,
{
    if n < list.len() {
        assert(list.take(n + 1).drop_last() =~= list.take(n));
        lemma_allowlist_fault_stays(list, n + 1);
    } else {
        assert(list.take(n) =~= list);
    }
}

fn check_allowlist(list: &Vec<String>) -> (r: Result<(), ConfigError>)
    ensures
        r is Ok <==> allowlist_fault(texts(list@)) is None,
        r matches Err(e) ==> allowlist_fault(texts(list@)) == Some(e@),
{
    let ghost all = texts(list@);
    let mut seen = NameSet::new();
    let mut i: usize = 0;
    while i < list.len()
        invariant
            i <= list.len(),
            all == texts(list@),
            allowlist_fault(all.take(i as int)) is None,
            forall|name: Seq<char>| #[trigger]
                seen@.contains(name) <==> all.take(i as int).contains(name),
        decreases list.len() - i,
    {
        let ghost upto = all.take(i + 1);
        proof {
            assert(upto.drop_last() =~= all.take(i as int));
            assert(upto.last() == list@[i as int]@);
        }
        if !valid_tool_name(&list[i]) {
            proof {
                lemma_allowlist_fault_stays(all, i + 1);
            }
            return Err(ConfigError::InvalidTool(list[i].clone()));
        }
        if !seen.insert(list[i].clone()) {
            proof {
                lemma_allowlist_fault_stays(all, i + 1);
            }
            return Err(ConfigError::DuplicateTool(list[i].clone()));
        }
        proof {
            assert forall|name: Seq<char>| #[trigger] seen@.contains(name) <==> upto.contains(
                name,
            ) by {
                let s = all.take(i as int);
                if s.contains(name) {
                    let j = choose|j: int| 0 <= j < s.len() && s[j] == name;
                    assert(upto[j] == name);
                }
                if name == list@[i as int]@ {
                    assert(upto[i as int] == name);
                }
                if upto.contains(name) {
                    let j = choose|j: int| 0 <= j < upto.len() && upto[j] == name;
                    if j < i {
                        assert(s[j] == name);
                    }
                }
            }
        }
        i = i + 1;
    }
    assert(all.take(i as int) =~= all);
    Ok(())
}

/// Refuses a configuration that is not in order, with the first thing that is wrong.
pub fn validate_config(config: &ChildConfig) -> (r: Result<(), ConfigError>)
    ensures
        r is Ok <==> config_fault(config@) is None,
        r matches Err(e) ==> config_fault(config@) == Some(e@),
{
    if validate_child_name(&config.name).is_err() {
        return Err(ConfigError::Name);
    }
    if is_blank(&config.command) || has_char(&config.command, '\0') {
        return Err(ConfigError::Command);
    }
    if config.timeout_ms == 0 || config.timeout_ms > MAX_TIMEOUT_MS {
        return Err(ConfigError::Timeout);
    }
    if let Some(prefix) = &config.tool_prefix {
        if chars_of(prefix).len() == 0 || !has_only_name_chars(prefix) {
            return Err(ConfigError::Prefix);
        }
    }
    if config.tool_allowlist.len() > MAX_ALLOWLIST {
        return Err(ConfigError::AllowlistLength);
    }
    check_allowlist(&config.tool_allowlist)
}

/// An allowlist without fault holds tool names only, each once.
pub proof fn law_accepted_allowlist_has_distinct_names(list: Seq<Seq<char>>, i: int, j: int)
    requires
        allowlist_fault(list) is None,
        0 <= i < j < list.len(),
    ensures
        list[i] != list[j],
        named_within(list[i], MAX_TOOL_NAME as int),
        named_within(list[j], MAX_TOOL_NAME as int),
    decreases list.len(),
{
    if j < list.len() - 1 {
        law_accepted_allowlist_has_distinct_names(list.drop_last(), i, j);
    } else {
        assert(list.drop_last()[i] == list[i]);
        assert(list.drop_last().contains(list[i]));
        lemma_allowlist_prefix(list, i + 1);
        assert(list.take(i + 1).last() == list[i]);
    }
}

proof fn lemma_allowlist_prefix(list: Seq<Seq<char>>, n: int)
    requires
        allowlist_fault(list) is None,
        0 <= n <= list.len(),
    ensures
        allowlist_fault(list.take(n)) is None,
{
    if allowlist_fault(list.take(n)) is Some {
        lemma_allowlist_fault_stays(list, n);
    }
}

/// The allowlist lets the tool through: it is empty, or it names the tool.
pub open spec fn exposes(config: ConfigText, tool: Seq<char>) -> bool {
    config.tool_allowlist.len() == 0 || config.tool_allowlist.contains(tool)
}

/// The name under which the gateway exposes a tool.
pub open spec fn exposed_name(config: ConfigText, tool: Seq<char>) -> Seq<char> {
    match config.tool_prefix {
        None => tool,
        Some(prefix) => prefix + tool,
    }
}

/// Whether the allowlist lets the tool through.
pub fn tool_is_exposed(config: &ChildConfig, original_name: &str) -> (r: bool)
    ensures
        r == exposes(config@, original_name@),
{
    config.tool_allowlist.len() == 0 || lists(&config.tool_allowlist, original_name)
}

/// The name under which the gateway exposes a tool.
pub fn exposed_tool_name(config: &ChildConfig, original_name: &str) -> (r: String)
    ensures
        r@ == exposed_name(config@, original_name@),
{
    match &config.tool_prefix {
        Some(prefix) => glue(prefix, original_name),
        None => original_name.to_owned(),
    }
}

/// Two tools of one child are exposed under one name only if they are the same tool.
pub proof fn law_exposed_names_keep_tools_apart(config: ConfigText, a: Seq<char>, b: Seq<char>)
    requires
        exposed_name(config, a) == exposed_name(config, b),
    ensures
        a == b,
{
    if let Some(prefix) = config.tool_prefix {
        assert(a =~= (prefix + a).skip(prefix.len() as int));
        assert(b =~= (prefix + b).skip(prefix.len() as int));
    }
}

proof fn lemma_allowlist_without_fault(list: Seq<Seq<char>>)
    ensures
        allowlist_fault(list) is None <==> (forall|i: int|
            0 <= i < list.len() ==> named_within(#[trigger] list[i], 256)) && (forall|
            i: int,
            j: int,
        |
            0 <= i < j < list.len() ==> #[trigger] list[i] != #[trigger] list[j]),
    decreases list.len(),
{
    if list.len() > 0 {
        let rest = list.drop_last();
        lemma_allowlist_without_fault(rest);
        if allowlist_fault(list) is None {
            assert forall|i: int| 0 <= i < list.len() implies named_within(
                #[trigger] list[i],
                256,
            ) by {
                if i < rest.len() {
                    assert(rest[i] == list[i]);
                }
            }
            assert forall|i: int, j: int| 0 <= i < j < list.len() implies #[trigger] list[i]
                != #[trigger] list[j] by {
                assert(rest[i] == list[i]);
                if j < rest.len() {
                    assert(rest[j] == list[j]);
                } else {
                    assert(rest.contains(list[i]));
                }
            }
        }
        if (forall|i: int| 0 <= i < list.len() ==> named_within(#[trigger] list[i], 256)) && (
        forall|i: int, j: int|
            0 <= i < j < list.len() ==> #[trigger] list[i] != #[trigger] list[j]) {
            assert forall|i: int| 0 <= i < rest.len() implies named_within(
                #[trigger] rest[i],
                256,
            ) by {
                assert(rest[i] == list[i]);
            }
            assert forall|i: int, j: int| 0 <= i < j < rest.len() implies #[trigger] rest[i]
                != #[trigger] rest[j] by {
                assert(list[i] != list[j]);
            }
            assert(named_within(list[list.len() - 1], 256));
            if rest.contains(list.last()) {
                let i = choose|i: int| 0 <= i < rest.len() && rest[i] == list.last();
                assert(list[i] != list[list.len() - 1]);
            }
        }
    }
}

proof fn lemma_allowlist_told(list: Seq<Seq<char>>) -> (at: int)
    requires
        allowlist_fault(list) is Some,
    ensures
        0 <= at < list.len(),
        allowlist_fault(list.take(at)) is None,
        match allowlist_fault(list)->0 {
            ConfigFault::InvalidTool(name) => name == list[at] && !named_within(name, 256),
            ConfigFault::DuplicateTool(name) => name == list[at] && exists|i: int|
                0 <= i < at && #[trigger] list[i] == name,
            _ => false,
        },
    decreases list.len(),
{
    let rest = list.drop_last();
    if allowlist_fault(rest) is Some {
        let at = lemma_allowlist_told(rest);
        assert(rest.take(at) =~= list.take(at));
        if let ConfigFault::DuplicateTool(name) = allowlist_fault(list)->0 {
            let i = choose|i: int| 0 <= i < at && #[trigger] rest[i] == name;
            assert(list[i] == name);
        }
        at
    } else {
        assert(list.take(list.len() - 1) =~= rest);
        if rest.contains(list.last()) {
            let i = choose|i: int| 0 <= i < rest.len() && rest[i] == list.last();
            assert(list[i] == list.last());
        }
        list.len() - 1
    }
}

/// A configuration is in order exactly if its child has a name, its command says something and can be handed to the
/// system, its time is within bounds, its prefix can stand in a tool name, and its allowlist is short and holds
/// different tool names.
pub proof fn law_configurations_in_order_keep_every_rule(config: ConfigText)
    ensures
        config_fault(config) is None <==> {
            &&& named_within(config.name, 128)
            &&& exists|i: int|
                0 <= i < config.command.len() && !white_space(#[trigger] config.command[i])
            &&& forall|i: int| 0 <= i < config.command.len() ==> #[trigger] config.command[i] != '\0'
            &&& 1 <= config.timeout_ms <= 600_000
            &&& config.tool_prefix matches Some(prefix) ==> prefix.len() > 0 && forall|i: int|
                0 <= i < prefix.len() ==> name_char(#[trigger] prefix[i])
            &&& config.tool_allowlist.len() <= 256
            &&& forall|i: int|
                0 <= i < config.tool_allowlist.len() ==> named_within(
                    #[trigger] config.tool_allowlist[i],
                    256,
                )
            &&& forall|i: int, j: int|
                0 <= i < j < config.tool_allowlist.len() ==> #[trigger] config.tool_allowlist[i]
                    != #[trigger] config.tool_allowlist[j]
        },
{
    lemma_allowlist_without_fault(config.tool_allowlist);
    if blank(config.command) {
        assert(forall|i: int|
            0 <= i < config.command.len() ==> white_space(#[trigger] config.command[i]));
    }
    if config.command.contains('\0') {
        let i = choose|i: int| 0 <= i < config.command.len() && config.command[i] == '\0';
        assert(config.command[i] == '\0');
    }
    if let Some(prefix) = config.tool_prefix {
        if forall|i: int| 0 <= i < prefix.len() ==> name_char(#[trigger] prefix[i]) {
            assert(name_chars(prefix));
        }
    }
}

/// What is told of a configuration that is refused is true of it, and nothing that comes before it is wrong: the name,
/// the command, the time, the prefix, the length of the allowlist, and its first entry that is no tool name or stands
/// there twice.
pub proof fn law_the_first_fault_of_a_configuration_is_told(config: ConfigText)
    requires
        config_fault(config) is Some,
    ensures
        ({
            let name = named_within(config.name, 128);
            let command = !blank(config.command) && !config.command.contains('\0');
            let time = 1 <= config.timeout_ms <= 600_000;
            let prefix = config.tool_prefix matches Some(prefix) ==> prefix.len() > 0 && name_chars(
                prefix,
            );
            let list = config.tool_allowlist;
            match config_fault(config)->0 {
                ConfigFault::Name => !name,
                ConfigFault::Command => name && !command,
                ConfigFault::Timeout => name && command && !time,
                ConfigFault::Prefix => name && command && time && !prefix,
                ConfigFault::AllowlistLength => name && command && time && prefix && list.len()
                    > 256,
                ConfigFault::InvalidTool(tool) => name && command && time && prefix && list.len()
                    <= 256 && !named_within(tool, 256) && exists|i: int|
                    0 <= i < list.len() && #[trigger] list[i] == tool && forall|j: int|
                        0 <= j < i ==> named_within(#[trigger] list[j], 256),
                ConfigFault::DuplicateTool(tool) => name && command && time && prefix && list.len()
                    <= 256 && exists|i: int, j: int|
                    0 <= i < j < list.len() && #[trigger] list[i] == tool && #[trigger] list[j]
                        == tool,
            }
        }),
{
    let list = config.tool_allowlist;
    if allowlist_fault(list) is Some {
        let at = lemma_allowlist_told(list);
        lemma_allowlist_without_fault(list.take(at));
        assert forall|j: int| 0 <= j < at implies named_within(#[trigger] list[j], 256) by {
            assert(list.take(at)[j] == list[j]);
        }
        if let ConfigFault::DuplicateTool(tool) = allowlist_fault(list)->0 {
            let i = choose|i: int| 0 <= i < at && #[trigger] list[i] == tool;
            assert(list[i] == tool && list[at] == tool);
        }
    }
}

/// A tool is let through exactly if the allowlist is empty or one of its entries is the tool's own name, whatever the
/// prefix is.
pub proof fn law_allowlists_name_tools_by_their_own_names(config: ConfigText, tool: Seq<char>)
    ensures
        exposes(config, tool) <==> config.tool_allowlist.len() == 0 || exists|i: int|
            0 <= i < config.tool_allowlist.len() && #[trigger] config.tool_allowlist[i] == tool,
{
    if config.tool_allowlist.contains(tool) {
        let i = choose|i: int|
            0 <= i < config.tool_allowlist.len() && config.tool_allowlist[i] == tool;
        assert(config.tool_allowlist[i] == tool);
    }
}

/// The exposed name of a tool is its own, behind the prefix where there is one.
pub proof fn law_exposed_names_are_prefixed(config: ConfigText, tool: Seq<char>)
    ensures
        ({
            let name = exposed_name(config, tool);
            let prefix = match config.tool_prefix {
                None => Seq::<char>::empty(),
                Some(prefix) => prefix,
            };
            &&& name.len() == prefix.len() + tool.len()
            &&& forall|i: int| 0 <= i < prefix.len() ==> #[trigger] name[i] == prefix[i]
            &&& forall|i: int|
                0 <= i < tool.len() ==> name[prefix.len() + i] == #[trigger] tool[i]
        }),
{
}

/// What is told of each fault of a configuration; a tool is named.
pub proof fn law_configuration_errors_are_told_in_words(error: ConfigError)
    ensures
        match error {
            ConfigError::Name => error@.text()
                == "child name may contain only ASCII letters, digits, '_', '-' and '.'"@,
            ConfigError::Command => error@.text()
                == "command must be non-empty and contain no NUL"@,
            ConfigError::Timeout => error@.text() == "timeout_ms must be between 1 and 600000"@,
            ConfigError::Prefix => error@.text()
                == "tool_prefix may contain only ASCII letters, digits, '_', '-' and '.'"@,
            ConfigError::AllowlistLength => error@.text()
                == "tool_allowlist may contain at most 256 entries"@,
            ConfigError::InvalidTool(name) => error@.text()
                == "tool_allowlist contains invalid tool name '"@ + name@ + "'"@,
            ConfigError::DuplicateTool(name) => error@.text()
                == "tool_allowlist contains duplicate tool name '"@ + name@ + "'"@,
        },
{
}

} // verus!

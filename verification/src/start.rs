//! Starting a child.
use crate::config::{config_fault, validate_config, ChildConfig, ConfigError, ConfigFault, ConfigText};
use crate::text::{decimal, glue, to_decimal};
use vstd::prelude::*;

verus! {

/// Why a child was not started.
#[derive(Debug)]
pub enum StartError {
    Invalid(ConfigError),
    Spawn(String),
    Handshake(String),
    ListFailed(String),
    ListTimedOut,
}

pub enum StartFault {
    Invalid(ConfigFault),
    Spawn(Seq<char>),
    Handshake(Seq<char>),
    ListFailed(Seq<char>),
    ListTimedOut,
}

impl View for StartError {
    type V = StartFault;

    open spec fn view(&self) -> StartFault {
        match self {
            StartError::Invalid(error) => StartFault::Invalid(error@),
            StartError::Spawn(error) => StartFault::Spawn(error@),
            StartError::Handshake(error) => StartFault::Handshake(error@),
            StartError::ListFailed(error) => StartFault::ListFailed(error@),
            StartError::ListTimedOut => StartFault::ListTimedOut,
        }
    }
}

impl StartFault {
    /// What is told of the fault, of the child that was to be started.
    pub open spec fn text(self, config: ConfigText) -> Seq<char> {
        match self {
            StartFault::Invalid(fault) => fault.text(),
            StartFault::Spawn(error) => "failed to spawn '"@ + config.command + "': "@ + error,
            StartFault::Handshake(error) => "MCP initialize handshake failed for child '"@
                + config.name + "': "@ + error,
            StartFault::ListFailed(error) => "tools/list failed for '"@ + config.name + "': "@
                + error,
            StartFault::ListTimedOut => "tools/list timed out for '"@ + config.name + "' after "@
                + decimal(config.timeout_ms as nat) + " ms"@,
        }
    }
}

impl StartError {
    pub fn message(&self, config: &ChildConfig) -> (r: String)
        ensures
            r@ == self@.text(config@),
    {
        match self {
            StartError::Invalid(error) => error.message(),
            StartError::Spawn(error) => glue(
                &glue(&glue("failed to spawn '", &config.command), "': "),
                error,
            ),
            StartError::Handshake(error) => glue(
                &glue(
                    &glue("MCP initialize handshake failed for child '", &config.name),
                    "': ",
                ),
                error,
            ),
            StartError::ListFailed(error) => glue(
                &glue(&glue("tools/list failed for '", &config.name), "': "),
                error,
            ),
            StartError::ListTimedOut => glue(
                &glue(
                    &glue(&glue("tools/list timed out for '", &config.name), "' after "),
                    &to_decimal(config.timeout_ms as u128),
                ),
                " ms",
            ),
        }
    }
}

/// A child is started only if its configuration is in order.
pub fn check_start(config: &ChildConfig) -> (r: Result<(), StartError>)
    ensures
        r is Ok <==> config_fault(config@) is None,
        r matches Err(e) ==> e@ == StartFault::Invalid(config_fault(config@)->0),
{
    match validate_config(config) {
        Ok(()) => Ok(()),
        Err(error) => Err(StartError::Invalid(error)),
    }
}

/// What is told of a child that was not started gives the reason, and names the child, or the command that failed.
pub proof fn law_failed_starts_are_told_with_their_reason(error: StartError, config: ChildConfig)
    ensures
        match error {
            StartError::Invalid(fault) => error@.text(config@) == fault@.text(),
            StartError::Spawn(reason) => error@.text(config@) == "failed to spawn '"@
                + config.command@ + "': "@ + reason@,
            StartError::Handshake(reason) => error@.text(config@)
                == "MCP initialize handshake failed for child '"@ + config.name@ + "': "@ + reason@,
            StartError::ListFailed(reason) => error@.text(config@) == "tools/list failed for '"@
                + config.name@ + "': "@ + reason@,
            StartError::ListTimedOut => error@.text(config@) == "tools/list timed out for '"@
                + config.name@ + "' after "@ + decimal(config.timeout_ms as nat) + " ms"@,
        },
{
}

} // verus!

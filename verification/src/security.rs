//! What a configuration reload does to the permissions in force.

use vstd::prelude::*;

use crate::config::SecurityConfig;
use crate::text::is_blank;

verus! {

/// Whether a permission in force would be withdrawn.
pub open spec fn withdraws(previous: SecurityConfig, next: SecurityConfig) -> bool {
    (previous.allow_command_actions && !next.allow_command_actions) || (
    previous.allow_uinput_actions && !next.allow_uinput_actions)
}

/// The permissions that two configurations both grant.
pub open spec fn in_common(previous: SecurityConfig, next: SecurityConfig) -> SecurityConfig {
    SecurityConfig {
        allow_command_actions: previous.allow_command_actions && next.allow_command_actions,
        allow_uinput_actions: previous.allow_uinput_actions && next.allow_uinput_actions,
    }
}

/// Tests whether a permission in force would be withdrawn.
pub fn security_became_more_restrictive(previous: &SecurityConfig, next: &SecurityConfig) -> (result:
    bool)
    ensures
        result == withdraws(*previous, *next),
{
    (previous.allow_command_actions && !next.allow_command_actions) || (
    previous.allow_uinput_actions && !next.allow_uinput_actions)
}

/// The permissions to fall back on where a stricter configuration is not valid.
pub fn fail_closed_security(previous: &SecurityConfig, next: &SecurityConfig) -> (effective:
    SecurityConfig)
    ensures
        effective == in_common(*previous, *next),
{
    SecurityConfig {
        allow_command_actions: previous.allow_command_actions && next.allow_command_actions,
        allow_uinput_actions: previous.allow_uinput_actions && next.allow_uinput_actions,
    }
}

/// What to do with a configuration that was read again.
#[derive(Debug, Clone, Copy, PartialEq, Eq, Structural)]
pub enum ReloadDecision {
    /// Use it.
    Replace,
    /// Use it with these permissions, though its providers did not accept it.
    FailClosed { security: SecurityConfig },
    /// Keep the previous configuration.
    Keep,
}

/// What a reload comes to, given whether the providers accepted the new
/// configuration.
pub open spec fn decision(
    previous: SecurityConfig,
    next: SecurityConfig,
    accepted: bool,
) -> ReloadDecision {
    if accepted {
        ReloadDecision::Replace
    } else if withdraws(previous, next) {
        ReloadDecision::FailClosed { security: in_common(previous, next) }
    } else {
        ReloadDecision::Keep
    }
}

/// The permissions in force after a reload.
pub open spec fn in_force(
    previous: SecurityConfig,
    next: SecurityConfig,
    accepted: bool,
) -> SecurityConfig {
    match decision(previous, next, accepted) {
        ReloadDecision::Replace => next,
        ReloadDecision::FailClosed { security } => security,
        ReloadDecision::Keep => previous,
    }
}

/// Decides what a reload comes to.
pub fn reload_decision(previous: &SecurityConfig, next: &SecurityConfig, accepted: bool) -> (result:
    ReloadDecision)
    ensures
        result == decision(*previous, *next, accepted),
{
    if accepted {
        ReloadDecision::Replace
    } else if security_became_more_restrictive(previous, next) {
        ReloadDecision::FailClosed { security: fail_closed_security(previous, next) }
    } else {
        ReloadDecision::Keep
    }
}

/// A failed reload never grants a permission that was not in force.
pub proof fn law_failed_reloads_grant_nothing(previous: SecurityConfig, next: SecurityConfig)
    ensures
        in_force(previous, next, false).allow_command_actions ==> previous.allow_command_actions,
        in_force(previous, next, false).allow_uinput_actions ==> previous.allow_uinput_actions,
{
}

/// A permission that a reload withdraws is gone, whether or not the providers
/// accepted the configuration.
pub proof fn law_withdrawals_always_apply(
    previous: SecurityConfig,
    next: SecurityConfig,
    accepted: bool,
)
    ensures
        previous.allow_command_actions && !next.allow_command_actions ==> !in_force(
            previous,
            next,
            accepted,
        ).allow_command_actions,
        previous.allow_uinput_actions && !next.allow_uinput_actions ==> !in_force(
            previous,
            next,
            accepted,
        ).allow_uinput_actions,
{
}

/// A path from the configuration; a blank one counts as none.
pub fn nonempty_path(value: &str) -> (path: Option<String>)
    ensures
        path is Some <==> !crate::text::blank(value@),
        path matches Some(path) ==> path@ == value@,
{
    if is_blank(value) {
        None
    } else {
        Some(value.to_owned())
    }
}

/// An accepted configuration brings its own permissions. One that is not accepted leaves
/// the previous ones where it keeps each of them; where it lacks one, only those are left
/// that both grant.
pub proof fn law_permissions_after_a_reload(
    previous: SecurityConfig,
    next: SecurityConfig,
    accepted: bool,
)
    ensures
        ({
            let now = in_force(previous, next, accepted);
            let keeps_commands = previous.allow_command_actions ==> next.allow_command_actions;
            let keeps_uinput = previous.allow_uinput_actions ==> next.allow_uinput_actions;
            &&& accepted ==> now.allow_command_actions == next.allow_command_actions
                && now.allow_uinput_actions == next.allow_uinput_actions
            &&& !accepted && keeps_commands && keeps_uinput ==> now.allow_command_actions
                == previous.allow_command_actions && now.allow_uinput_actions
                == previous.allow_uinput_actions
            &&& !accepted && !(keeps_commands && keeps_uinput) ==> (now.allow_command_actions
                <==> previous.allow_command_actions && next.allow_command_actions) && (
            now.allow_uinput_actions <==> previous.allow_uinput_actions
                && next.allow_uinput_actions)
            &&& decision(previous, next, accepted) is Replace <==> accepted
            &&& decision(previous, next, accepted) is Keep <==> !accepted && keeps_commands
                && keeps_uinput
        }),
{
}

} // verus!

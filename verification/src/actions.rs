//! The built-in action providers.
//!
//! A provider checks what it is asked to do and says what to do; the effects
//! themselves, a log line or a process, are left to the caller. Parameters come
//! in already read: `None` where they do not have the form that an action
//! expects.

use vstd::prelude::*;

use crate::config::ActionSpec;
use crate::provider::{ActionOutcome, ActionRegistry, ConditionRegistry, RegistryError};
use crate::text::{append, is_blank, quote, same_text};

verus! {

/// The built-in action providers.
#[derive(Debug, Clone, Copy, PartialEq, Eq, Structural)]
pub enum BuiltinAction {
    Core,
    Process,
    Uinput,
}

/// The built-in condition providers.
#[derive(Debug, Clone, Copy, PartialEq, Eq, Structural)]
pub enum BuiltinCondition {
    Core,
}

/// The providers that the permissions admit, by name.
pub open spec fn admitted(allow_commands: bool, allow_uinput: bool) -> Map<
    Seq<char>,
    BuiltinAction,
> {
    let core = Map::<Seq<char>, BuiltinAction>::empty().insert("core"@, BuiltinAction::Core);
    let process = if allow_commands {
        core.insert("process"@, BuiltinAction::Process)
    } else {
        core
    };
    if allow_uinput {
        process.insert("uinput"@, BuiltinAction::Uinput)
    } else {
        process
    }
}

proof fn lemma_provider_names()
    ensures
        "core"@ != "process"@,
        "core"@ != "uinput"@,
        "process"@ != "uinput"@,
{
    reveal_strlit("core");
    reveal_strlit("process");
    reveal_strlit("uinput");
    assert("core"@.len() == 4 && "process"@.len() == 7 && "uinput"@.len() == 6);
}

/// The action providers without virtual input.
pub fn default_action_registry(allow_commands: bool) -> (result: Result<
    ActionRegistry<BuiltinAction>,
    RegistryError,
>)
    ensures
        result matches Ok(registry) && registry@ == admitted(allow_commands, false),
{
    default_action_registry_with_security(allow_commands, false)
}

/// The action providers that the permissions admit.
pub fn default_action_registry_with_security(allow_commands: bool, allow_uinput: bool) -> (result:
    Result<ActionRegistry<BuiltinAction>, RegistryError>)
    ensures
        result matches Ok(registry) && registry@ == admitted(allow_commands, allow_uinput),
{
    proof {
        lemma_provider_names();
    }
    let mut registry: ActionRegistry<BuiltinAction> = ActionRegistry::new();
    if let Err(error) = registry.register(CoreActionProvider.name(), BuiltinAction::Core) {
        return Err(error);
    }
    if allow_commands {
        if let Err(error) = registry.register(
            ProcessActionProvider.name(),
            BuiltinAction::Process,
        ) {
            return Err(error);
        }
    }
    if allow_uinput {
        if let Err(error) = registry.register("uinput", BuiltinAction::Uinput) {
            return Err(error);
        }
    }
    Ok(registry)
}

/// The condition providers.
pub fn default_condition_registry() -> (result: Result<
    ConditionRegistry<BuiltinCondition>,
    RegistryError,
>)
    ensures
        result matches Ok(registry) && registry@ == Map::<
            Seq<char>,
            BuiltinCondition,
        >::empty().insert("core"@, BuiltinCondition::Core),
{
    let mut registry: ConditionRegistry<BuiltinCondition> = ConditionRegistry::new();
    if let Err(error) = registry.register("core", BuiltinCondition::Core) {
        return Err(error);
    }
    Ok(registry)
}

/// A provider that acts on the system is registered exactly where its
/// permission is given, and the core provider always.
pub proof fn law_providers_need_permission(allow_commands: bool, allow_uinput: bool)
    ensures
        admitted(allow_commands, allow_uinput).contains_key("core"@),
        admitted(allow_commands, allow_uinput).contains_key("process"@) <==> allow_commands,
        admitted(allow_commands, allow_uinput).contains_key("uinput"@) <==> allow_uinput,
        forall|name: Seq<char>| #[trigger]
            admitted(allow_commands, allow_uinput).contains_key(name) ==> name == "core"@ || name
                == "process"@ || name == "uinput"@,
{
    lemma_provider_names();
}

/// The parameters of `core.log`.
#[derive(Debug, Clone)]
pub struct LogParams {
    pub message: String,
    pub level: String,
}

#[derive(Debug, Clone, Copy, PartialEq, Eq, Structural)]
pub enum LogLevel {
    Debug,
    Info,
    Warn,
    Error,
}

/// The level that a name stands for.
pub open spec fn level_of(name: Seq<char>) -> Option<LogLevel> {
    if name == "debug"@ {
        Some(LogLevel::Debug)
    } else if name == "info"@ {
        Some(LogLevel::Info)
    } else if name == "warn"@ {
        Some(LogLevel::Warn)
    } else if name == "error"@ {
        Some(LogLevel::Error)
    } else {
        None
    }
}

fn log_level(name: &str) -> (level: Option<LogLevel>)
    ensures
        level == level_of(name@),
{
    if same_text(name, "debug") {
        Some(LogLevel::Debug)
    } else if same_text(name, "info") {
        Some(LogLevel::Info)
    } else if same_text(name, "warn") {
        Some(LogLevel::Warn)
    } else if same_text(name, "error") {
        Some(LogLevel::Error)
    } else {
        None
    }
}

/// Why a built-in action is refused.
#[derive(Debug)]
pub enum ActionError {
    UnknownCoreAction { action: String },
    LogParams,
    EmptyLogMessage,
    UnsupportedLogLevel { level: String },
    UnknownProcessAction { action: String },
    RunParams,
    EmptyProgram,
    NotLaunched { program: String },
    ExitStatus { program: String, status: String },
}

/// What an [`ActionError`] says.
#[verifier::ext_equal]
pub enum ActionFault {
    UnknownCoreAction { action: Seq<char> },
    LogParams,
    EmptyLogMessage,
    UnsupportedLogLevel { level: Seq<char> },
    UnknownProcessAction { action: Seq<char> },
    RunParams,
    EmptyProgram,
    NotLaunched { program: Seq<char> },
    ExitStatus { program: Seq<char>, status: Seq<char> },
}

impl View for ActionError {
    type V = ActionFault;

    open spec fn view(&self) -> ActionFault {
        match *self {
            ActionError::UnknownCoreAction { action } => ActionFault::UnknownCoreAction {
                action: action@,
            },
            ActionError::LogParams => ActionFault::LogParams,
            ActionError::EmptyLogMessage => ActionFault::EmptyLogMessage,
            ActionError::UnsupportedLogLevel { level } => ActionFault::UnsupportedLogLevel {
                level: level@,
            },
            ActionError::UnknownProcessAction { action } => ActionFault::UnknownProcessAction {
                action: action@,
            },
            ActionError::RunParams => ActionFault::RunParams,
            ActionError::EmptyProgram => ActionFault::EmptyProgram,
            ActionError::NotLaunched { program } => ActionFault::NotLaunched { program: program@ },
            ActionError::ExitStatus { program, status } => ActionFault::ExitStatus {
                program: program@,
                status: status@,
            },
        }
    }
}

impl ActionFault {
    pub open spec fn text(self) -> Seq<char> {
        match self {
            ActionFault::UnknownCoreAction { action } => "unknown core action "@
                + crate::text::quoted(action),
            ActionFault::LogParams => "core.log expects { message, level? }"@,
            ActionFault::EmptyLogMessage => "core.log message must not be empty"@,
            ActionFault::UnsupportedLogLevel { level } => "unsupported core.log level "@
                + crate::text::quoted(level),
            ActionFault::UnknownProcessAction { action } => "unknown process action "@
                + crate::text::quoted(action),
            ActionFault::RunParams => "process.run expects { program, args?, wait? }"@,
            ActionFault::EmptyProgram => "process.run program must not be empty"@,
            ActionFault::NotLaunched { program } => "failed to launch "@ + crate::text::quoted(
                program,
            ),
            ActionFault::ExitStatus { program, status } => "program "@ + crate::text::quoted(
                program,
            ) + " exited with "@ + status,
        }
    }
}

fn with_quoted(start: &str, text: &String) -> (result: String)
    ensures
        result@ == start@ + crate::text::quoted(text@),
{
    let mut result = start.to_owned();
    append(&mut result, quote(text.as_str()).as_str());
    result
}

impl ActionError {
    pub fn message(&self) -> (text: String)
        ensures
            text@ == self@.text(),
    {
        match self {
            ActionError::UnknownCoreAction { action } => with_quoted("unknown core action ", action),
            ActionError::LogParams => "core.log expects { message, level? }".to_owned(),
            ActionError::EmptyLogMessage => "core.log message must not be empty".to_owned(),
            ActionError::UnsupportedLogLevel { level } => with_quoted(
                "unsupported core.log level ",
                level,
            ),
            ActionError::UnknownProcessAction { action } => with_quoted(
                "unknown process action ",
                action,
            ),
            ActionError::RunParams => "process.run expects { program, args?, wait? }".to_owned(),
            ActionError::EmptyProgram => "process.run program must not be empty".to_owned(),
            ActionError::NotLaunched { program } => with_quoted("failed to launch ", program),
            ActionError::ExitStatus { program, status } => {
                let mut text = with_quoted("program ", program);
                append(&mut text, " exited with ");
                append(&mut text, status.as_str());
                text
            },
        }
    }
}

/// What is wrong with a `core` action, if anything.
pub open spec fn core_fault(spec: ActionSpec, params: Option<LogParams>) -> Option<ActionFault> {
    if spec.action@ == "noop"@ {
        None
    } else if spec.action@ == "log"@ {
        match params {
            None => Some(ActionFault::LogParams),
            Some(params) => if crate::text::blank(params.message@) {
                Some(ActionFault::EmptyLogMessage)
            } else if level_of(params.level@) is None {
                Some(ActionFault::UnsupportedLogLevel { level: params.level@ })
            } else {
                None
            },
        }
    } else {
        Some(ActionFault::UnknownCoreAction { action: spec.action@ })
    }
}

/// What a `core` action does: it writes a line to the log, or nothing.
#[derive(Debug)]
pub struct CoreEffect {
    pub log: Option<(LogLevel, String)>,
    pub outcome: ActionOutcome,
}

/// `core.noop` and `core.log`.
#[derive(Debug, Clone, Copy, PartialEq, Eq, Structural)]
pub struct CoreActionProvider;

impl CoreActionProvider {
    pub fn name(&self) -> (name: &'static str)
        ensures
            name@ == "core"@,
    {
        "core"
    }

    pub fn validate(&self, spec: &ActionSpec, params: &Option<LogParams>) -> (result: Result<
        (),
        ActionError,
    >)
        ensures
            result is Ok <==> core_fault(*spec, *params) is None,
            result matches Err(error) ==> Some(error@) == core_fault(*spec, *params),
    {
        if same_text(spec.action.as_str(), "noop") {
            return Ok(());
        }
        if !same_text(spec.action.as_str(), "log") {
            return Err(ActionError::UnknownCoreAction { action: spec.action.clone() });
        }
        match params {
            None => Err(ActionError::LogParams),
            Some(params) => {
                if is_blank(params.message.as_str()) {
                    return Err(ActionError::EmptyLogMessage);
                }
                match log_level(params.level.as_str()) {
                    Some(_) => Ok(()),
                    None => Err(ActionError::UnsupportedLogLevel { level: params.level.clone() }),
                }
            },
        }
    }

    /// Checks an action and says what it does.
    pub fn execute(&self, spec: &ActionSpec, params: &Option<LogParams>) -> (result: Result<
        CoreEffect,
        ActionError,
    >)
        ensures
            result is Ok <==> core_fault(*spec, *params) is None,
            result matches Err(error) ==> Some(error@) == core_fault(*spec, *params),
            result matches Ok(effect) ==> if spec.action@ == "noop"@ {
                &&& effect.log is None
                &&& effect.outcome@ == crate::provider::succeeded(*spec, Some("no operation"@))
            } else {
                &&& effect.log matches Some((level, message))
                &&& Some(level) == level_of(params->0.level@)
                &&& message@ == params->0.message@
                &&& effect.outcome@ == crate::provider::succeeded(*spec, Some(params->0.message@))
            },
    {
        match self.validate(spec, params) {
            Err(error) => return Err(error),
            Ok(()) => {},
        }
        if same_text(spec.action.as_str(), "noop") {
            return Ok(
                CoreEffect {
                    log: None,
                    outcome: ActionOutcome::success(spec, Some("no operation".to_owned())),
                },
            );
        }
        match params {
            Some(params) => match log_level(params.level.as_str()) {
                Some(level) => Ok(
                    CoreEffect {
                        log: Some((level, params.message.clone())),
                        outcome: ActionOutcome::success(spec, Some(params.message.clone())),
                    },
                ),
                None => Err(ActionError::UnsupportedLogLevel { level: params.level.clone() }),
            },
            None => Err(ActionError::LogParams),
        }
    }
}

/// The parameters of `process.run`.
#[derive(Debug, Clone)]
pub struct RunParams {
    pub program: String,
    pub args: Vec<String>,
    pub wait: bool,
}

/// How a program went.
#[derive(Debug)]
pub enum ProcessRun {
    NotLaunched,
    /// It was started and not waited for.
    Started,
    /// It was waited for and succeeded.
    Succeeded,
    /// It was waited for and ended with another status.
    Failed { status: String },
}

/// What is wrong with a `process` action, if anything.
pub open spec fn process_fault(spec: ActionSpec, params: Option<RunParams>) -> Option<ActionFault> {
    if spec.action@ != "run"@ {
        Some(ActionFault::UnknownProcessAction { action: spec.action@ })
    } else {
        match params {
            None => Some(ActionFault::RunParams),
            Some(params) => if crate::text::blank(params.program@) {
                Some(ActionFault::EmptyProgram)
            } else {
                None
            },
        }
    }
}

/// `process.run`.
#[derive(Debug, Clone, Copy, PartialEq, Eq, Structural)]
pub struct ProcessActionProvider;

impl ProcessActionProvider {
    pub fn name(&self) -> (name: &'static str)
        ensures
            name@ == "process"@,
    {
        "process"
    }

    pub fn validate(&self, spec: &ActionSpec, params: &Option<RunParams>) -> (result: Result<
        (),
        ActionError,
    >)
        ensures
            result is Ok <==> process_fault(*spec, *params) is None,
            result matches Err(error) ==> Some(error@) == process_fault(*spec, *params),
    {
        if !same_text(spec.action.as_str(), "run") {
            return Err(ActionError::UnknownProcessAction { action: spec.action.clone() });
        }
        match params {
            None => Err(ActionError::RunParams),
            Some(params) => if is_blank(params.program.as_str()) {
                Err(ActionError::EmptyProgram)
            } else {
                Ok(())
            },
        }
    }

    /// What is reported of a program that was run.
    pub fn outcome(&self, spec: &ActionSpec, params: &RunParams, run: ProcessRun) -> (result:
        Result<ActionOutcome, ActionError>)
        ensures
            match run {
                ProcessRun::NotLaunched => result matches Err(error) && error@ == (
                ActionFault::NotLaunched { program: params.program@ }),
                ProcessRun::Started => result matches Ok(outcome) && outcome@
                    == crate::provider::succeeded(
                    *spec,
                    Some("program started: "@ + params.program@),
                ),
                ProcessRun::Succeeded => result matches Ok(outcome) && outcome@
                    == crate::provider::succeeded(
                    *spec,
                    Some("program exited successfully: "@ + params.program@),
                ),
                ProcessRun::Failed { status } => result matches Err(error) && error@ == (
                ActionFault::ExitStatus { program: params.program@, status: status@ }),
            },
    {
        match run {
            ProcessRun::NotLaunched => Err(
                ActionError::NotLaunched { program: params.program.clone() },
            ),
            ProcessRun::Started => {
                let mut message = "program started: ".to_owned();
                append(&mut message, params.program.as_str());
                Ok(ActionOutcome::success(spec, Some(message)))
            },
            ProcessRun::Succeeded => {
                let mut message = "program exited successfully: ".to_owned();
                append(&mut message, params.program.as_str());
                Ok(ActionOutcome::success(spec, Some(message)))
            },
            ProcessRun::Failed { status } => Err(
                ActionError::ExitStatus { program: params.program.clone(), status },
            ),
        }
    }
}

/// A `core` action is accepted exactly when it is `noop`, or `log` with a message that is
/// not blank and one of the four levels.
pub proof fn law_core_actions(spec: ActionSpec, params: Option<LogParams>)
    ensures
        core_fault(spec, params) is None <==> spec.action@ == "noop"@ || (spec.action@ == "log"@
            && params is Some && !crate::text::blank(params->0.message@) && (params->0.level@
            == "debug"@ || params->0.level@ == "info"@ || params->0.level@ == "warn"@
            || params->0.level@ == "error"@)),
        level_of("debug"@) == Some(LogLevel::Debug),
        level_of("info"@) == Some(LogLevel::Info),
        level_of("warn"@) == Some(LogLevel::Warn),
        level_of("error"@) == Some(LogLevel::Error),
{
    reveal_strlit("noop");
    reveal_strlit("log");
    reveal_strlit("debug");
    reveal_strlit("info");
    reveal_strlit("warn");
    reveal_strlit("error");
    assert("noop"@.len() == 4 && "log"@.len() == 3);
    assert("debug"@.len() == 5 && "error"@.len() == 5 && "debug"@[0] != "error"@[0]);
    assert("info"@.len() == 4 && "warn"@.len() == 4 && "info"@[0] != "warn"@[0]);
}

/// A `process` action is accepted exactly when it is `run` and names a program.
pub proof fn law_process_actions(spec: ActionSpec, params: Option<RunParams>)
    ensures
        process_fault(spec, params) is None <==> spec.action@ == "run"@ && params is Some
            && !crate::text::blank(params->0.program@),
{
}

/// Each provider is registered under its own name.
pub proof fn law_providers_have_their_names(allow_commands: bool, allow_uinput: bool)
    ensures
        admitted(allow_commands, allow_uinput)["core"@] is Core,
        allow_commands ==> admitted(allow_commands, allow_uinput)["process"@] is Process,
        allow_uinput ==> admitted(allow_commands, allow_uinput)["uinput"@] is Uinput,
{
    lemma_provider_names();
}

} // verus!

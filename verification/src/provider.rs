//! Action outcomes, and the registries of providers.

use vstd::prelude::*;

use crate::config::ActionSpec;
use crate::text::{append, quote};
use crate::text_map::TextMap;

verus! {

/// What an [`ActionOutcome`] says.
#[verifier::ext_equal]
pub struct OutcomeView {
    pub provider: Seq<char>,
    pub action: Seq<char>,
    pub success: bool,
    pub message: Option<Seq<char>>,
}

/// How one action went.
#[derive(Debug, Clone)]
pub struct ActionOutcome {
    pub provider: String,
    pub action: String,
    pub success: bool,
    pub message: Option<String>,
}

impl View for ActionOutcome {
    type V = OutcomeView;

    open spec fn view(&self) -> OutcomeView {
        OutcomeView {
            provider: self.provider@,
            action: self.action@,
            success: self.success,
            message: crate::text::optional_text(self.message),
        }
    }
}

/// An action that succeeded.
pub open spec fn succeeded(spec: ActionSpec, message: Option<Seq<char>>) -> OutcomeView {
    OutcomeView { provider: spec.provider@, action: spec.action@, success: true, message }
}

/// An action that failed.
pub open spec fn failed(spec: ActionSpec, message: Seq<char>) -> OutcomeView {
    OutcomeView {
        provider: spec.provider@,
        action: spec.action@,
        success: false,
        message: Some(message),
    }
}

impl ActionOutcome {
    /// The outcome of an action that succeeded.
    pub fn success(spec: &ActionSpec, message: Option<String>) -> (outcome: ActionOutcome)
        ensures
            outcome@ == succeeded(*spec, crate::text::optional_text(message)),
    {
        ActionOutcome {
            provider: spec.provider.clone(),
            action: spec.action.clone(),
            success: true,
            message,
        }
    }

    /// The outcome of an action that failed.
    pub fn failure(spec: &ActionSpec, message: String) -> (outcome: ActionOutcome)
        ensures
            outcome@ == failed(*spec, message@),
    {
        ActionOutcome {
            provider: spec.provider.clone(),
            action: spec.action.clone(),
            success: false,
            message: Some(message),
        }
    }
}

/// What a registry holds.
#[derive(Debug, Clone, Copy, PartialEq, Eq, Structural)]
pub enum ProviderKind {
    Action,
    Condition,
}

/// Why a registry refused.
#[derive(Debug)]
pub enum RegistryError {
    AlreadyRegistered { kind: ProviderKind, name: String },
    Unknown { kind: ProviderKind, name: String },
}

/// What a [`RegistryError`] says.
#[verifier::ext_equal]
pub enum RegistryFault {
    AlreadyRegistered { kind: ProviderKind, name: Seq<char> },
    Unknown { kind: ProviderKind, name: Seq<char> },
}

impl View for RegistryError {
    type V = RegistryFault;

    open spec fn view(&self) -> RegistryFault {
        match *self {
            RegistryError::AlreadyRegistered { kind, name } => RegistryFault::AlreadyRegistered {
                kind,
                name: name@,
            },
            RegistryError::Unknown { kind, name } => RegistryFault::Unknown { kind, name: name@ },
        }
    }
}

impl RegistryFault {
    pub open spec fn text(self) -> Seq<char> {
        match self {
            RegistryFault::AlreadyRegistered { kind: ProviderKind::Action, name } =>
                "action provider "@ + crate::text::quoted(name) + " is already registered"@,
            RegistryFault::AlreadyRegistered { kind: ProviderKind::Condition, name } =>
                "condition provider "@ + crate::text::quoted(name) + " is already registered"@,
            RegistryFault::Unknown { kind: ProviderKind::Action, name } =>
                "unknown action provider "@ + crate::text::quoted(name),
            RegistryFault::Unknown { kind: ProviderKind::Condition, name } =>
                "unknown condition provider "@ + crate::text::quoted(name),
        }
    }
}

impl RegistryError {
    pub fn message(&self) -> (text: String)
        ensures
            text@ == self@.text(),
    {
        match self {
            RegistryError::AlreadyRegistered { kind, name } => {
                let mut text = match kind {
                    ProviderKind::Action => "action provider ".to_owned(),
                    ProviderKind::Condition => "condition provider ".to_owned(),
                };
                append(&mut text, quote(name.as_str()).as_str());
                append(&mut text, " is already registered");
                text
            },
            RegistryError::Unknown { kind, name } => {
                let mut text = match kind {
                    ProviderKind::Action => "unknown action provider ".to_owned(),
                    ProviderKind::Condition => "unknown condition provider ".to_owned(),
                };
                append(&mut text, quote(name.as_str()).as_str());
                text
            },
        }
    }
}

/// The action providers, by name.
#[derive(Debug)]
pub struct ActionRegistry<P> {
    pub providers: TextMap<P>,
}

impl<P> View for ActionRegistry<P> {
    type V = Map<Seq<char>, P>;

    open spec fn view(&self) -> Map<Seq<char>, P> {
        self.providers@
    }
}

impl<P> ActionRegistry<P> {
    pub fn new() -> (registry: ActionRegistry<P>)
        ensures
            registry@ == Map::<Seq<char>, P>::empty(),
    {
        ActionRegistry { providers: TextMap::new() }
    }

    /// Registers a provider. One that has the name already is replaced, and
    /// that is reported as an error.
    pub fn register(&mut self, name: &str, provider: P) -> (result: Result<(), RegistryError>)
        ensures
            final(self)@ == old(self)@.insert(name@, provider),
            result is Err <==> old(self)@.contains_key(name@),
            result matches Err(error) ==> error@ == (RegistryFault::AlreadyRegistered {
                kind: ProviderKind::Action,
                name: name@,
            }),
    {
        let taken: bool = self.providers.get(name).is_some();
        self.providers.insert(name.to_owned(), provider);
        if taken {
            Err(
                RegistryError::AlreadyRegistered {
                    kind: ProviderKind::Action,
                    name: name.to_owned(),
                },
            )
        } else {
            Ok(())
        }
    }

    /// The provider of a name.
    pub fn provider(&self, name: &str) -> (result: Result<&P, RegistryError>)
        ensures
            result is Ok <==> self@.contains_key(name@),
            result matches Ok(provider) ==> *provider == self@[name@],
            result matches Err(error) ==> error@ == (RegistryFault::Unknown {
                kind: ProviderKind::Action,
                name: name@,
            }),
    {
        match self.providers.get(name) {
            Some(provider) => Ok(provider),
            None => Err(
                RegistryError::Unknown { kind: ProviderKind::Action, name: name.to_owned() },
            ),
        }
    }
}

/// The condition providers, by name.
#[derive(Debug)]
pub struct ConditionRegistry<P> {
    pub providers: TextMap<P>,
}

impl<P> View for ConditionRegistry<P> {
    type V = Map<Seq<char>, P>;

    open spec fn view(&self) -> Map<Seq<char>, P> {
        self.providers@
    }
}

impl<P> ConditionRegistry<P> {
    pub fn new() -> (registry: ConditionRegistry<P>)
        ensures
            registry@ == Map::<Seq<char>, P>::empty(),
    {
        ConditionRegistry { providers: TextMap::new() }
    }

    /// Registers a provider. One that has the name already is replaced, and
    /// that is reported as an error.
    pub fn register(&mut self, name: &str, provider: P) -> (result: Result<(), RegistryError>)
        ensures
            final(self)@ == old(self)@.insert(name@, provider),
            result is Err <==> old(self)@.contains_key(name@),
            result matches Err(error) ==> error@ == (RegistryFault::AlreadyRegistered {
                kind: ProviderKind::Condition,
                name: name@,
            }),
    {
        let taken: bool = self.providers.get(name).is_some();
        self.providers.insert(name.to_owned(), provider);
        if taken {
            Err(
                RegistryError::AlreadyRegistered {
                    kind: ProviderKind::Condition,
                    name: name.to_owned(),
                },
            )
        } else {
            Ok(())
        }
    }

    /// The provider of a name.
    pub fn provider(&self, name: &str) -> (result: Result<&P, RegistryError>)
        ensures
            result is Ok <==> self@.contains_key(name@),
            result matches Ok(provider) ==> *provider == self@[name@],
            result matches Err(error) ==> error@ == (RegistryFault::Unknown {
                kind: ProviderKind::Condition,
                name: name@,
            }),
    {
        match self.providers.get(name) {
            Some(provider) => Ok(provider),
            None => Err(
                RegistryError::Unknown { kind: ProviderKind::Condition, name: name.to_owned() },
            ),
        }
    }
}

/// What failed when an action failed: the context that goes before its cause.
pub open spec fn action_failure(spec: ActionSpec) -> Seq<char> {
    "action "@ + spec.provider@ + "."@ + spec.action@ + " failed"@
}

/// Says that an action failed.
pub fn action_failure_text(spec: &ActionSpec) -> (text: String)
    ensures
        text@ == action_failure(*spec),
{
    let mut text = "action ".to_owned();
    append(&mut text, spec.provider.as_str());
    append(&mut text, ".");
    append(&mut text, spec.action.as_str());
    append(&mut text, " failed");
    text
}

/// What a condition decides, given what its provider found.
pub open spec fn decided(negate: bool, found: bool) -> bool {
    found != negate
}

/// What a condition decides, given what its provider found.
pub fn condition_result(negate: bool, found: bool) -> (holds: bool)
    ensures
        holds == decided(negate, found),
{
    if negate {
        !found
    } else {
        found
    }
}

/// An outcome names its action and its provider, and says whether the action succeeded
/// and what there is to say of it.
pub proof fn law_outcomes_name_their_action(
    spec: ActionSpec,
    note: Option<Seq<char>>,
    failure: Seq<char>,
)
    ensures
        succeeded(spec, note).success && !failed(spec, failure).success,
        succeeded(spec, note).provider == spec.provider@ && failed(spec, failure).provider
            == spec.provider@,
        succeeded(spec, note).action == spec.action@ && failed(spec, failure).action
            == spec.action@,
        succeeded(spec, note).message == note && failed(spec, failure).message == Some(failure),
{
}

/// A condition holds where its provider finds it to, and a negated one where it does not.
pub proof fn law_negated_conditions(found: bool)
    ensures
        decided(false, found) <==> found,
        decided(true, found) <==> !found,
{
}

} // verus!

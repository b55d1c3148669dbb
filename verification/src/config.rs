//! The versioned configuration: bindings of triggers and conditions to actions.

use vstd::prelude::*;

use crate::metric::Metric;
use crate::number_text::decimal_text;
use crate::text::{append, characters, is_blank, quote, same_text};
use crate::text_map::TextMap;

verus! {

/// Runtime settings.
#[derive(Debug, Clone)]
pub struct RuntimeConfig {
    pub socket_path: String,
    pub log_level: String,
}

impl Default for RuntimeConfig {
    fn default() -> (config: RuntimeConfig)
        ensures
            config.socket_path@ == ""@,
            config.log_level@ == "info"@,
    {
        RuntimeConfig { socket_path: "".to_owned(), log_level: "info".to_owned() }
    }
}

/// What the configuration permits. Everything is forbidden by default.
#[derive(Debug, Clone, Copy, PartialEq, Eq, Structural)]
pub struct SecurityConfig {
    pub allow_command_actions: bool,
    pub allow_uinput_actions: bool,
}

impl Default for SecurityConfig {
    fn default() -> (config: SecurityConfig)
        ensures
            !config.allow_command_actions,
            !config.allow_uinput_actions,
    {
        SecurityConfig { allow_command_actions: false, allow_uinput_actions: false }
    }
}

/// What a failed action stops.
#[derive(Debug, Clone, Copy, PartialEq, Eq, Structural)]
pub enum ErrorPolicy {
    Continue,
    StopBinding,
    StopDispatch,
}

impl Default for ErrorPolicy {
    fn default() -> (policy: ErrorPolicy)
        ensures
            policy is Continue,
    {
        ErrorPolicy::Continue
    }
}

/// One action of a binding, addressed by provider and name.
#[derive(Debug)]
pub struct ActionSpec {
    pub provider: String,
    pub action: String,
    /// The parameters, as JSON text.
    pub params: String,
    pub on_error: ErrorPolicy,
}

impl Clone for ActionSpec {
    fn clone(&self) -> (spec: ActionSpec)
        ensures
            spec == *self,
    {
        ActionSpec {
            provider: self.provider.clone(),
            action: self.action.clone(),
            params: self.params.clone(),
            on_error: self.on_error,
        }
    }
}

/// One condition of a binding, addressed by provider and name.
#[derive(Debug)]
pub struct ConditionSpec {
    pub provider: String,
    pub condition: String,
    pub negate: bool,
    /// The parameters, as JSON text.
    pub params: String,
}

impl Clone for ConditionSpec {
    fn clone(&self) -> (spec: ConditionSpec)
        ensures
            spec == *self,
    {
        ConditionSpec {
            provider: self.provider.clone(),
            condition: self.condition.clone(),
            negate: self.negate,
            params: self.params.clone(),
        }
    }
}

/// The event shapes that a binding matches. An empty list means any value.
#[derive(Debug, Clone)]
pub struct TriggerPattern {
    pub family: String,
    pub phases: Vec<String>,
    pub fingers: Vec<u8>,
    pub directions: Vec<String>,
    pub min_values: TextMap<Metric>,
    pub max_values: TextMap<Metric>,
    pub labels: TextMap<String>,
}

/// A trigger, the conditions under which it counts, and the actions to run.
#[derive(Debug, Clone)]
pub struct Binding {
    pub id: String,
    pub enabled: bool,
    pub priority: i32,
    pub consume: bool,
    pub trigger: TriggerPattern,
    pub conditions: Vec<ConditionSpec>,
    pub actions: Vec<ActionSpec>,
}

#[derive(Debug, Clone)]
pub struct Config {
    pub version: u32,
    pub runtime: RuntimeConfig,
    pub security: SecurityConfig,
    pub bindings: Vec<Binding>,
}

impl Default for Config {
    fn default() -> (config: Config)
        ensures
            config.version == 1,
            config.runtime.socket_path@ == ""@,
            config.runtime.log_level@ == "info"@,
            !config.security.allow_command_actions,
            !config.security.allow_uinput_actions,
            config.bindings@.len() == 0,
    {
        Config {
            version: 1,
            runtime: RuntimeConfig::default(),
            security: SecurityConfig::default(),
            bindings: Vec::new(),
        }
    }
}

/// Which identifier is at fault.
#[derive(Debug, Clone, Copy, PartialEq, Eq, Structural)]
pub enum Identifier {
    ActionProvider,
    ActionName,
    ConditionProvider,
    ConditionName,
}

impl Identifier {
    pub open spec fn label(self) -> Seq<char> {
        match self {
            Identifier::ActionProvider => "action provider"@,
            Identifier::ActionName => "action name"@,
            Identifier::ConditionProvider => "condition provider"@,
            Identifier::ConditionName => "condition name"@,
        }
    }

    fn label_text(self) -> (text: &'static str)
        ensures
            text@ == self.label(),
    {
        match self {
            Identifier::ActionProvider => "action provider",
            Identifier::ActionName => "action name",
            Identifier::ConditionProvider => "condition provider",
            Identifier::ConditionName => "condition name",
        }
    }
}

/// What is wrong with an identifier.
#[derive(Debug)]
pub enum IdentifierError {
    Empty { identifier: Identifier },
    UnsupportedCharacters { identifier: Identifier, value: String },
}

/// What an [`IdentifierError`] says.
#[verifier::ext_equal]
pub enum IdentifierFault {
    Empty { identifier: Identifier },
    UnsupportedCharacters { identifier: Identifier, value: Seq<char> },
}

impl View for IdentifierError {
    type V = IdentifierFault;

    open spec fn view(&self) -> IdentifierFault {
        match *self {
            IdentifierError::Empty { identifier } => IdentifierFault::Empty { identifier },
            IdentifierError::UnsupportedCharacters {
                identifier,
                value,
            } => IdentifierFault::UnsupportedCharacters { identifier, value: value@ },
        }
    }
}

impl IdentifierFault {
    pub open spec fn text(self) -> Seq<char> {
        match self {
            IdentifierFault::Empty { identifier } => identifier.label() + " must not be empty"@,
            IdentifierFault::UnsupportedCharacters { identifier, value } => identifier.label()
                + " contains unsupported characters: "@ + crate::text::quoted(value),
        }
    }
}

impl IdentifierError {
    pub fn message(&self) -> (text: String)
        ensures
            text@ == self@.text(),
    {
        match self {
            IdentifierError::Empty { identifier } => {
                let mut text = identifier.label_text().to_owned();
                append(&mut text, " must not be empty");
                text
            },
            IdentifierError::UnsupportedCharacters { identifier, value } => {
                let mut text = identifier.label_text().to_owned();
                append(&mut text, " contains unsupported characters: ");
                append(&mut text, quote(value.as_str()).as_str());
                text
            },
        }
    }
}

/// What is wrong with a trigger.
#[derive(Debug)]
pub enum TriggerError {
    EmptyFamily,
    MinimumExceedsMaximum { name: String },
}

/// What a [`TriggerError`] says.
#[verifier::ext_equal]
pub enum TriggerFault {
    EmptyFamily,
    MinimumExceedsMaximum { name: Seq<char> },
}

impl View for TriggerError {
    type V = TriggerFault;

    open spec fn view(&self) -> TriggerFault {
        match *self {
            TriggerError::EmptyFamily => TriggerFault::EmptyFamily,
            TriggerError::MinimumExceedsMaximum {
                name,
            } => TriggerFault::MinimumExceedsMaximum { name: name@ },
        }
    }
}

impl TriggerFault {
    pub open spec fn text(self) -> Seq<char> {
        match self {
            TriggerFault::EmptyFamily => "trigger family must not be empty"@,
            TriggerFault::MinimumExceedsMaximum { name } => "minimum value for "@
                + crate::text::quoted(name) + " exceeds maximum value"@,
        }
    }
}

impl TriggerError {
    pub fn message(&self) -> (text: String)
        ensures
            text@ == self@.text(),
    {
        match self {
            TriggerError::EmptyFamily => "trigger family must not be empty".to_owned(),
            TriggerError::MinimumExceedsMaximum { name } => {
                let mut text = "minimum value for ".to_owned();
                append(&mut text, quote(name.as_str()).as_str());
                append(&mut text, " exceeds maximum value");
                text
            },
        }
    }
}

/// What is wrong with a binding.
#[derive(Debug)]
pub enum BindingError {
    EmptyId,
    Trigger { id: String, cause: TriggerError },
    NoActions { id: String },
    Action { id: String, cause: IdentifierError },
    Condition { id: String, cause: IdentifierError },
}

/// What a [`BindingError`] says.
#[verifier::ext_equal]
pub enum BindingFault {
    EmptyId,
    Trigger { id: Seq<char>, cause: TriggerFault },
    NoActions { id: Seq<char> },
    Action { id: Seq<char>, cause: IdentifierFault },
    Condition { id: Seq<char>, cause: IdentifierFault },
}

impl View for BindingError {
    type V = BindingFault;

    open spec fn view(&self) -> BindingFault {
        match *self {
            BindingError::EmptyId => BindingFault::EmptyId,
            BindingError::Trigger { id, cause } => BindingFault::Trigger {
                id: id@,
                cause: cause@,
            },
            BindingError::NoActions { id } => BindingFault::NoActions { id: id@ },
            BindingError::Action { id, cause } => BindingFault::Action { id: id@, cause: cause@ },
            BindingError::Condition { id, cause } => BindingFault::Condition {
                id: id@,
                cause: cause@,
            },
        }
    }
}

impl BindingFault {
    pub open spec fn text(self) -> Seq<char> {
        match self {
            BindingFault::EmptyId => "binding id must not be empty"@,
            BindingFault::Trigger { id, .. } => "binding "@ + crate::text::quoted(id)
                + " has an invalid trigger"@,
            BindingFault::NoActions { id } => "binding "@ + crate::text::quoted(id)
                + " must define at least one action"@,
            BindingFault::Action { id, .. } => "binding "@ + crate::text::quoted(id)
                + " has an invalid action"@,
            BindingFault::Condition { id, .. } => "binding "@ + crate::text::quoted(id)
                + " has an invalid condition"@,
        }
    }
}

fn about_binding(id: &String, what: &str) -> (text: String)
    ensures
        text@ == "binding "@ + crate::text::quoted(id@) + what@,
{
    let mut text = "binding ".to_owned();
    append(&mut text, quote(id.as_str()).as_str());
    append(&mut text, what);
    text
}

impl BindingError {
    /// The error; its cause, where it has one, has a message of its own.
    pub fn message(&self) -> (text: String)
        ensures
            text@ == self@.text(),
    {
        match self {
            BindingError::EmptyId => "binding id must not be empty".to_owned(),
            BindingError::Trigger { id, .. } => about_binding(id, " has an invalid trigger"),
            BindingError::NoActions { id } => about_binding(id, " must define at least one action"),
            BindingError::Action { id, .. } => about_binding(id, " has an invalid action"),
            BindingError::Condition { id, .. } => about_binding(id, " has an invalid condition"),
        }
    }
}

/// What is wrong with a configuration.
#[derive(Debug)]
pub enum ConfigError {
    UnsupportedVersion { version: u32 },
    Binding { cause: BindingError },
    DuplicateId { id: String },
}

/// What a [`ConfigError`] says.
#[verifier::ext_equal]
pub enum ConfigFault {
    UnsupportedVersion { version: u32 },
    Binding { cause: BindingFault },
    DuplicateId { id: Seq<char> },
}

impl View for ConfigError {
    type V = ConfigFault;

    open spec fn view(&self) -> ConfigFault {
        match *self {
            ConfigError::UnsupportedVersion { version } => ConfigFault::UnsupportedVersion {
                version,
            },
            ConfigError::Binding { cause } => ConfigFault::Binding { cause: cause@ },
            ConfigError::DuplicateId { id } => ConfigFault::DuplicateId { id: id@ },
        }
    }
}

impl ConfigFault {
    pub open spec fn text(self) -> Seq<char> {
        match self {
            ConfigFault::UnsupportedVersion { version } => "unsupported configuration version "@
                + crate::number_text::decimal(version as nat) + "; expected 1"@,
            ConfigFault::Binding { cause } => cause.text(),
            ConfigFault::DuplicateId { id } => "duplicate binding id "@ + crate::text::quoted(id),
        }
    }
}

impl ConfigError {
    pub fn message(&self) -> (text: String)
        ensures
            text@ == self@.text(),
    {
        match self {
            ConfigError::UnsupportedVersion { version } => {
                let mut text = "unsupported configuration version ".to_owned();
                append(&mut text, decimal_text(*version as u64).as_str());
                append(&mut text, "; expected 1");
                text
            },
            ConfigError::Binding { cause } => cause.message(),
            ConfigError::DuplicateId { id } => {
                let mut text = "duplicate binding id ".to_owned();
                append(&mut text, quote(id.as_str()).as_str());
                text
            },
        }
    }
}

/// A character that an identifier may hold.
pub open spec fn identifier_character(character: char) -> bool {
    ||| 'a' <= character && character <= 'z'
    ||| 'A' <= character && character <= 'Z'
    ||| '0' <= character && character <= '9'
    ||| character == '-'
    ||| character == '_'
    ||| character == '.'
}

/// What is wrong with an identifier, if anything.
pub open spec fn identifier_fault(identifier: Identifier, value: Seq<char>) -> Option<
    IdentifierFault,
> {
    if crate::text::blank(value) {
        Some(IdentifierFault::Empty { identifier })
    } else if exists|i: int| 0 <= i < value.len() && !identifier_character(#[trigger] value[i]) {
        Some(IdentifierFault::UnsupportedCharacters { identifier, value })
    } else {
        None
    }
}

/// Checks an identifier.
pub fn validate_identifier(identifier: Identifier, value: &str) -> (result: Result<
    (),
    IdentifierError,
>)
    ensures
        result is Ok <==> identifier_fault(identifier, value@) is None,
        result matches Err(error) ==> Some(error@) == identifier_fault(identifier, value@),
{
    if is_blank(value) {
        return Err(IdentifierError::Empty { identifier });
    }
    let chars = characters(value);
    let mut index: usize = 0;
    while index < chars.len()
        invariant
            index <= chars@.len(),
            chars@ == value@,
            !crate::text::blank(value@),
            forall|i: int| 0 <= i < index ==> identifier_character(#[trigger] value@[i]),
        decreases chars@.len() - index,
    {
        let character = chars[index];
        let allowed: bool = ('a' <= character && character <= 'z') || ('A' <= character && character
            <= 'Z') || ('0' <= character && character <= '9') || character == '-' || character
            == '_' || character == '.';
        if !allowed {
            assert(!identifier_character(value@[index as int]));
            return Err(
                IdentifierError::UnsupportedCharacters { identifier, value: value.to_owned() },
            );
        }
        index = index + 1;
    }
    Ok(())
}

impl ActionSpec {
    pub open spec fn fault(self) -> Option<IdentifierFault> {
        let provider = identifier_fault(Identifier::ActionProvider, self.provider@);
        if provider is Some {
            provider
        } else {
            identifier_fault(Identifier::ActionName, self.action@)
        }
    }

    pub fn validate(&self) -> (result: Result<(), IdentifierError>)
        ensures
            result is Ok <==> self.fault() is None,
            result matches Err(error) ==> Some(error@) == self.fault(),
    {
        match validate_identifier(Identifier::ActionProvider, self.provider.as_str()) {
            Ok(()) => validate_identifier(Identifier::ActionName, self.action.as_str()),
            Err(error) => Err(error),
        }
    }
}

impl ConditionSpec {
    pub open spec fn fault(self) -> Option<IdentifierFault> {
        let provider = identifier_fault(Identifier::ConditionProvider, self.provider@);
        if provider is Some {
            provider
        } else {
            identifier_fault(Identifier::ConditionName, self.condition@)
        }
    }

    pub fn validate(&self) -> (result: Result<(), IdentifierError>)
        ensures
            result is Ok <==> self.fault() is None,
            result matches Err(error) ==> Some(error@) == self.fault(),
    {
        match validate_identifier(Identifier::ConditionProvider, self.provider.as_str()) {
            Ok(()) => validate_identifier(Identifier::ConditionName, self.condition.as_str()),
            Err(error) => Err(error),
        }
    }
}

impl TriggerPattern {
    /// Whether a value has a minimum above its maximum.
    pub open spec fn conflict(self, name: Seq<char>) -> bool {
        &&& self.min_values@.contains_key(name)
        &&& self.max_values@.contains_key(name)
        &&& self.max_values@[name].below(self.min_values@[name])
    }

    /// Whether a value is the first, in the order of names, with a minimum above
    /// its maximum.
    pub open spec fn first_conflict(self, name: Seq<char>) -> bool {
        &&& self.conflict(name)
        &&& forall|other: Seq<char>| #[trigger]
            self.conflict(other) ==> other == name || crate::text::precedes(name, other)
    }

    /// What is wrong with a trigger, if anything.
    pub open spec fn fault(self) -> Option<TriggerFault> {
        if crate::text::blank(self.family@) {
            Some(TriggerFault::EmptyFamily)
        } else if exists|name: Seq<char>| #[trigger] self.conflict(name) {
            Some(
                TriggerFault::MinimumExceedsMaximum {
                    name: choose|name: Seq<char>| self.first_conflict(name),
                },
            )
        } else {
            None
        }
    }

    pub fn validate(&self) -> (result: Result<(), TriggerError>)
        ensures
            result is Ok <==> self.fault() is None,
            result matches Err(error) ==> Some(error@) == self.fault(),
    {
        if is_blank(self.family.as_str()) {
            return Err(TriggerError::EmptyFamily);
        }
        let count: usize = self.min_values.len();
        let ghost names = self.min_values.keys();
        let mut index: usize = 0;
        while index < count
            invariant
                index <= count,
                !crate::text::blank(self.family@),
                count == names.len(),
                names == self.min_values.keys(),
                forall|i: int, j: int|
                    0 <= i < j < names.len() ==> crate::text::precedes(
                        #[trigger] names[i],
                        #[trigger] names[j],
                    ),
                forall|name: Seq<char>| #[trigger]
                    self.min_values@.contains_key(name) ==> names.contains(name),
                forall|i: int| 0 <= i < index ==> !self.conflict(#[trigger] names[i]),
            decreases count - index,
        {
            let (name, minimum) = self.min_values.entry(index);
            if let Some(maximum) = self.max_values.get(name.as_str()) {
                if maximum.is_below(minimum) {
                    proof {
                        let first = names[index as int];
                        assert(self.conflict(first));
                        assert forall|other: Seq<char>| #[trigger]
                            self.conflict(other) implies other == first || crate::text::precedes(
                            first,
                            other,
                        ) by {
                            let i = choose|i: int| 0 <= i < names.len() && names[i] == other;
                            assert(names.contains(other));
                        }
                        assert(self.first_conflict(first));
                        let chosen = choose|name: Seq<char>| self.first_conflict(name);
                        crate::text::law_precedence_is_total(first, chosen);
                    }
                    return Err(TriggerError::MinimumExceedsMaximum { name: name.clone() });
                }
            }
            assert(!self.conflict(names[index as int]));
            index = index + 1;
        }
        proof {
            assert forall|name: Seq<char>| !#[trigger] self.conflict(name) by {
                if self.conflict(name) {
                    assert(names.contains(name));
                    let i = choose|i: int| 0 <= i < names.len() && names[i] == name;
                    assert(!self.conflict(names[i]));
                }
            }
        }
        Ok(())
    }
}

/// What is wrong with the first faulty action of a list, if any is.
pub open spec fn first_action_fault(actions: Seq<ActionSpec>) -> Option<IdentifierFault>
    decreases actions.len(),
{
    if actions.len() == 0 {
        None
    } else if actions[0].fault() is Some {
        actions[0].fault()
    } else {
        first_action_fault(actions.drop_first())
    }
}

/// What is wrong with the first faulty condition of a list, if any is.
pub open spec fn first_condition_fault(conditions: Seq<ConditionSpec>) -> Option<IdentifierFault>
    decreases conditions.len(),
{
    if conditions.len() == 0 {
        None
    } else if conditions[0].fault() is Some {
        conditions[0].fault()
    } else {
        first_condition_fault(conditions.drop_first())
    }
}

impl Binding {
    /// What is wrong with a binding, if anything.
    pub open spec fn fault(self) -> Option<BindingFault> {
        let id = self.id@;
        if crate::text::blank(id) {
            Some(BindingFault::EmptyId)
        } else if self.trigger.fault() is Some {
            Some(BindingFault::Trigger { id, cause: self.trigger.fault()->0 })
        } else if self.actions@.len() == 0 {
            Some(BindingFault::NoActions { id })
        } else if first_action_fault(self.actions@) is Some {
            Some(BindingFault::Action { id, cause: first_action_fault(self.actions@)->0 })
        } else if first_condition_fault(self.conditions@) is Some {
            Some(BindingFault::Condition { id, cause: first_condition_fault(self.conditions@)->0 })
        } else {
            None
        }
    }

    fn validate_actions(&self) -> (result: Result<(), IdentifierError>)
        ensures
            result is Ok <==> first_action_fault(self.actions@) is None,
            result matches Err(error) ==> Some(error@) == first_action_fault(self.actions@),
    {
        let ghost all = self.actions@;
        let mut index: usize = 0;
        assert(all.skip(0) =~= all);
        while index < self.actions.len()
            invariant
                index <= self.actions@.len(),
                all == self.actions@,
                first_action_fault(all) == first_action_fault(all.skip(index as int)),
            decreases self.actions@.len() - index,
        {
            assert(all.skip(index as int)[0] == all[index as int]);
            assert(all.skip(index as int).drop_first() =~= all.skip(index + 1));
            if let Err(error) = self.actions[index].validate() {
                return Err(error);
            }
            index = index + 1;
        }
        Ok(())
    }

    fn validate_conditions(&self) -> (result: Result<(), IdentifierError>)
        ensures
            result is Ok <==> first_condition_fault(self.conditions@) is None,
            result matches Err(error) ==> Some(error@) == first_condition_fault(self.conditions@),
    {
        let ghost all = self.conditions@;
        let mut index: usize = 0;
        assert(all.skip(0) =~= all);
        while index < self.conditions.len()
            invariant
                index <= self.conditions@.len(),
                all == self.conditions@,
                first_condition_fault(all) == first_condition_fault(all.skip(index as int)),
            decreases self.conditions@.len() - index,
        {
            assert(all.skip(index as int)[0] == all[index as int]);
            assert(all.skip(index as int).drop_first() =~= all.skip(index + 1));
            if let Err(error) = self.conditions[index].validate() {
                return Err(error);
            }
            index = index + 1;
        }
        Ok(())
    }

    pub fn validate(&self) -> (result: Result<(), BindingError>)
        ensures
            result is Ok <==> self.fault() is None,
            result matches Err(error) ==> Some(error@) == self.fault(),
    {
        if is_blank(self.id.as_str()) {
            return Err(BindingError::EmptyId);
        }
        if let Err(cause) = self.trigger.validate() {
            return Err(BindingError::Trigger { id: self.id.clone(), cause });
        }
        if self.actions.len() == 0 {
            return Err(BindingError::NoActions { id: self.id.clone() });
        }
        if let Err(cause) = self.validate_actions() {
            return Err(BindingError::Action { id: self.id.clone(), cause });
        }
        if let Err(cause) = self.validate_conditions() {
            return Err(BindingError::Condition { id: self.id.clone(), cause });
        }
        Ok(())
    }
}

/// Whether an earlier binding has the identity of the one at `at`.
pub open spec fn repeated_id(bindings: Seq<Binding>, at: int) -> bool {
    exists|i: int| 0 <= i < at && (#[trigger] bindings[i]).id@ == bindings[at].id@
}

/// What is wrong with the bindings from `at` on, if anything.
pub open spec fn bindings_fault(bindings: Seq<Binding>, at: int) -> Option<ConfigFault>
    decreases bindings.len() - at,
{
    if at < 0 || at >= bindings.len() {
        None
    } else if bindings[at].fault() is Some {
        Some(ConfigFault::Binding { cause: bindings[at].fault()->0 })
    } else if repeated_id(bindings, at) {
        Some(ConfigFault::DuplicateId { id: bindings[at].id@ })
    } else {
        bindings_fault(bindings, at + 1)
    }
}

impl Config {
    /// What is wrong with a configuration, if anything.
    pub open spec fn fault(self) -> Option<ConfigFault> {
        if self.version != 1 {
            Some(ConfigFault::UnsupportedVersion { version: self.version })
        } else {
            bindings_fault(self.bindings@, 0)
        }
    }

    fn repeats_id(&self, at: usize) -> (result: bool)
        requires
            at < self.bindings@.len(),
        ensures
            result == repeated_id(self.bindings@, at as int),
    {
        let mut index: usize = 0;
        while index < at
            invariant
                index <= at < self.bindings@.len(),
                forall|i: int|
                    0 <= i < index ==> (#[trigger] self.bindings@[i]).id@ != self.bindings@[at as int].id@,
            decreases at - index,
        {
            if same_text(self.bindings[index].id.as_str(), self.bindings[at].id.as_str()) {
                return true;
            }
            index = index + 1;
        }
        false
    }

    /// Checks the version, every binding, and that no identity is used twice.
    pub fn validate(&self) -> (result: Result<(), ConfigError>)
        ensures
            result is Ok <==> self.fault() is None,
            result matches Err(error) ==> Some(error@) == self.fault(),
    {
        if self.version != 1 {
            return Err(ConfigError::UnsupportedVersion { version: self.version });
        }
        let mut index: usize = 0;
        while index < self.bindings.len()
            invariant
                index <= self.bindings@.len(),
                self.version == 1,
                bindings_fault(self.bindings@, 0) == bindings_fault(self.bindings@, index as int),
            decreases self.bindings@.len() - index,
        {
            if let Err(cause) = self.bindings[index].validate() {
                return Err(ConfigError::Binding { cause });
            }
            if self.repeats_id(index) {
                return Err(ConfigError::DuplicateId { id: self.bindings[index].id.clone() });
            }
            index = index + 1;
        }
        Ok(())
    }
}

proof fn lemma_valid_bindings(bindings: Seq<Binding>, at: int)
    requires
        0 <= at <= bindings.len(),
        bindings_fault(bindings, at) is None,
    ensures
        forall|i: int|
            at <= i < bindings.len() ==> (#[trigger] bindings[i]).fault() is None && !repeated_id(
                bindings,
                i,
            ),
    decreases bindings.len() - at,
{
    if at < bindings.len() {
        lemma_valid_bindings(bindings, at + 1);
    }
}

/// In a valid configuration every binding is valid and has an identity of its
/// own.
pub proof fn law_valid_bindings_are_distinct(config: Config)
    requires
        config.fault() is None,
    ensures
        forall|i: int| 0 <= i < config.bindings@.len() ==> (#[trigger] config.bindings@[i]).fault() is None,
        forall|i: int, j: int|
            0 <= i < j < config.bindings@.len() ==> (#[trigger] config.bindings@[i]).id@ != (
            #[trigger] config.bindings@[j]).id@,
{
    lemma_valid_bindings(config.bindings@, 0);
    assert forall|i: int, j: int| 0 <= i < j < config.bindings@.len() implies (
    #[trigger] config.bindings@[i]).id@ != (#[trigger] config.bindings@[j]).id@ by {
        assert(!repeated_id(config.bindings@, j));
    }
}

/// Whether a text can name a provider, an action or a condition: it is not empty and has
/// ASCII letters, digits, `-`, `_` and `.` only.
pub open spec fn is_name(text: Seq<char>) -> bool {
    text.len() > 0 && forall|i: int|
        0 <= i < text.len() ==> {
            let c = #[trigger] text[i];
            ('a' <= c <= 'z') || ('A' <= c <= 'Z') || ('0' <= c <= '9') || c == '-' || c == '_' || c
                == '.'
        }
}

/// An identifier is accepted exactly when it is a name; it is called empty exactly when
/// it has nothing but white space.
pub proof fn law_identifiers(identifier: Identifier, value: Seq<char>)
    ensures
        identifier_fault(identifier, value) is None <==> is_name(value),
        identifier_fault(identifier, value) == Some(IdentifierFault::Empty { identifier })
            <==> crate::text::blank(value),
{
    if is_name(value) {
        assert(!crate::text::is_whitespace(value[0]));
        assert forall|i: int| 0 <= i < value.len() implies identifier_character(
            #[trigger] value[i],
        ) by {}
    }
    if identifier_fault(identifier, value) is None {
        assert forall|i: int| 0 <= i < value.len() implies {
            let c = #[trigger] value[i];
            ('a' <= c <= 'z') || ('A' <= c <= 'Z') || ('0' <= c <= '9') || c == '-' || c == '_' || c
                == '.'
        } by {
            assert(identifier_character(value[i]));
        }
    }
}

/// Whether everything about a binding is as it should be: it has an identity and a
/// family, no value has a minimum above its maximum, it has an action, and each of its
/// actions and conditions has proper names.
pub open spec fn is_sound(binding: Binding) -> bool {
    &&& !crate::text::blank(binding.id@)
    &&& !crate::text::blank(binding.trigger.family@)
    &&& forall|name: Seq<char>| #[trigger]
        binding.trigger.min_values@.contains_key(name) && binding.trigger.max_values@.contains_key(
            name,
        ) ==> !binding.trigger.max_values@[name].below(binding.trigger.min_values@[name])
    &&& binding.actions@.len() >= 1
    &&& forall|i: int|
        0 <= i < binding.actions@.len() ==> is_name((#[trigger] binding.actions@[i]).provider@)
            && is_name(binding.actions@[i].action@)
    &&& forall|i: int|
        0 <= i < binding.conditions@.len() ==> is_name(
            (#[trigger] binding.conditions@[i]).provider@,
        ) && is_name(binding.conditions@[i].condition@)
}

proof fn lemma_first_action_fault(actions: Seq<ActionSpec>)
    ensures
        first_action_fault(actions) is None <==> forall|i: int|
            0 <= i < actions.len() ==> (#[trigger] actions[i]).fault() is None,
    decreases actions.len(),
{
    if actions.len() > 0 {
        let rest = actions.drop_first();
        lemma_first_action_fault(rest);
        assert(forall|i: int| 0 <= i < rest.len() ==> #[trigger] rest[i] == actions[i + 1]);
        assert forall|i: int|
            first_action_fault(actions) is None && 0 <= i < actions.len() implies (
        #[trigger] actions[i]).fault() is None by {
            if i > 0 {
                assert(rest[i - 1].fault() is None);
            }
        }
    }
}

proof fn lemma_first_condition_fault(conditions: Seq<ConditionSpec>)
    ensures
        first_condition_fault(conditions) is None <==> forall|i: int|
            0 <= i < conditions.len() ==> (#[trigger] conditions[i]).fault() is None,
    decreases conditions.len(),
{
    if conditions.len() > 0 {
        let rest = conditions.drop_first();
        lemma_first_condition_fault(rest);
        assert(forall|i: int| 0 <= i < rest.len() ==> #[trigger] rest[i] == conditions[i + 1]);
        assert forall|i: int|
            first_condition_fault(conditions) is None && 0 <= i < conditions.len() implies (
        #[trigger] conditions[i]).fault() is None by {
            if i > 0 {
                assert(rest[i - 1].fault() is None);
            }
        }
    }
}

/// A binding is accepted exactly when everything about it is as it should be.
pub proof fn law_sound_bindings_are_accepted(binding: Binding)
    ensures
        binding.fault() is None <==> is_sound(binding),
{
    lemma_first_action_fault(binding.actions@);
    lemma_first_condition_fault(binding.conditions@);
    assert forall|i: int| 0 <= i < binding.actions@.len() implies (
    #[trigger] binding.actions@[i]).fault() is None == (is_name(binding.actions@[i].provider@)
        && is_name(binding.actions@[i].action@)) by {
        law_identifiers(Identifier::ActionProvider, binding.actions@[i].provider@);
        law_identifiers(Identifier::ActionName, binding.actions@[i].action@);
    }
    assert forall|i: int| 0 <= i < binding.conditions@.len() implies (
    #[trigger] binding.conditions@[i]).fault() is None == (is_name(
        binding.conditions@[i].provider@,
    ) && is_name(binding.conditions@[i].condition@)) by {
        law_identifiers(Identifier::ConditionProvider, binding.conditions@[i].provider@);
        law_identifiers(Identifier::ConditionName, binding.conditions@[i].condition@);
    }
    let trigger = binding.trigger;
    if exists|name: Seq<char>| #[trigger] trigger.conflict(name) {
        let name = choose|name: Seq<char>| #[trigger] trigger.conflict(name);
        assert(trigger.min_values@.contains_key(name));
    } else {
        assert forall|name: Seq<char>| #[trigger]
            trigger.min_values@.contains_key(name) && trigger.max_values@.contains_key(
                name,
            ) implies !trigger.max_values@[name].below(trigger.min_values@[name]) by {
            assert(!trigger.conflict(name));
        }
    }
}

proof fn lemma_no_binding_fault(bindings: Seq<Binding>, at: int)
    requires
        0 <= at,
        forall|i: int|
            0 <= i < bindings.len() ==> (#[trigger] bindings[i]).fault() is None && !repeated_id(
                bindings,
                i,
            ),
    ensures
        bindings_fault(bindings, at) is None,
    decreases bindings.len() - at,
{
    if at < bindings.len() {
        assert(bindings[at].fault() is None);
        lemma_no_binding_fault(bindings, at + 1);
    }
}

/// A configuration is accepted exactly when it has the supported version, every binding,
/// disabled ones too, is as it should be, and no two bindings share an identity.
pub proof fn law_sound_configurations_are_accepted(config: Config)
    ensures
        config.fault() is None <==> {
            &&& config.version == 1
            &&& forall|i: int| 0 <= i < config.bindings@.len() ==> is_sound(
                #[trigger] config.bindings@[i],
            )
            &&& forall|i: int, j: int|
                0 <= i < j < config.bindings@.len() ==> (#[trigger] config.bindings@[i]).id@ != (
                #[trigger] config.bindings@[j]).id@
        },
{
    let bindings = config.bindings@;
    assert forall|i: int| 0 <= i < bindings.len() implies is_sound(#[trigger] bindings[i]) == (
    bindings[i].fault() is None) by {
        law_sound_bindings_are_accepted(bindings[i]);
    }
    if config.fault() is None {
        law_valid_bindings_are_distinct(config);
    }
    if config.version == 1 && (forall|i: int|
        0 <= i < bindings.len() ==> is_sound(#[trigger] bindings[i])) && (forall|i: int, j: int|
        0 <= i < j < bindings.len() ==> (#[trigger] bindings[i]).id@ != (#[trigger] bindings[j]).id@)
    {
        assert forall|i: int| 0 <= i < bindings.len() implies (#[trigger] bindings[i]).fault()
            is None && !repeated_id(bindings, i) by {
            assert(is_sound(bindings[i]));
        }
        lemma_no_binding_fault(bindings, 0);
    }
}

} // verus!

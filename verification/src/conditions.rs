//! The built-in condition provider.

use vstd::prelude::*;

use crate::config::ConditionSpec;
use crate::event::InputEvent;
use crate::json::{json_equal, json_is_object, json_member, json_string};
use crate::text::{append, quote, same_text};

verus! {

/// Why a condition is refused.
#[derive(Debug)]
pub enum ConditionError {
    Unknown { condition: String },
    NotATable,
    NoValue,
    NoKey,
}

/// What a [`ConditionError`] says.
#[verifier::ext_equal]
pub enum ConditionFault {
    Unknown { condition: Seq<char> },
    NotATable,
    NoValue,
    NoKey,
}

impl View for ConditionError {
    type V = ConditionFault;

    open spec fn view(&self) -> ConditionFault {
        match *self {
            ConditionError::Unknown { condition } => ConditionFault::Unknown {
                condition: condition@,
            },
            ConditionError::NotATable => ConditionFault::NotATable,
            ConditionError::NoValue => ConditionFault::NoValue,
            ConditionError::NoKey => ConditionFault::NoKey,
        }
    }
}

impl ConditionFault {
    pub open spec fn text(self) -> Seq<char> {
        match self {
            ConditionFault::Unknown { condition } => "unknown core condition "@
                + crate::text::quoted(condition),
            ConditionFault::NotATable => "condition parameters must be a table"@,
            ConditionFault::NoValue => "condition requires a value parameter"@,
            ConditionFault::NoKey => "label/context condition requires a string key parameter"@,
        }
    }
}

impl ConditionError {
    pub fn message(&self) -> (text: String)
        ensures
            text@ == self@.text(),
    {
        match self {
            ConditionError::Unknown { condition } => {
                let mut text = "unknown core condition ".to_owned();
                append(&mut text, quote(condition.as_str()).as_str());
                text
            },
            ConditionError::NotATable => "condition parameters must be a table".to_owned(),
            ConditionError::NoValue => "condition requires a value parameter".to_owned(),
            ConditionError::NoKey => "label/context condition requires a string key parameter".to_owned(),
        }
    }
}

/// The core conditions.
#[derive(Debug, Clone, Copy, PartialEq, Eq, Structural)]
pub enum CoreCondition {
    Always,
    AppId,
    WindowTitle,
    Label,
    Context,
}

/// The core condition of a name.
pub open spec fn condition_of(name: Seq<char>) -> Option<CoreCondition> {
    if name == "always"@ {
        Some(CoreCondition::Always)
    } else if name == "app-id"@ {
        Some(CoreCondition::AppId)
    } else if name == "window-title"@ {
        Some(CoreCondition::WindowTitle)
    } else if name == "label"@ {
        Some(CoreCondition::Label)
    } else if name == "context"@ {
        Some(CoreCondition::Context)
    } else {
        None
    }
}

/// Reads the name of a core condition.
pub fn core_condition(name: &str) -> (condition: Option<CoreCondition>)
    ensures
        condition == condition_of(name@),
{
    if same_text(name, "always") {
        Some(CoreCondition::Always)
    } else if same_text(name, "app-id") {
        Some(CoreCondition::AppId)
    } else if same_text(name, "window-title") {
        Some(CoreCondition::WindowTitle)
    } else if same_text(name, "label") {
        Some(CoreCondition::Label)
    } else if same_text(name, "context") {
        Some(CoreCondition::Context)
    } else {
        None
    }
}

/// What is read out of a condition's parameters.
#[verifier::ext_equal]
pub struct ParamsView {
    /// Whether they are a table.
    pub table: bool,
    /// The member `value`, as JSON text.
    pub value: Option<Seq<char>>,
    /// The member `value`, where it is a string.
    pub value_string: Option<Seq<char>>,
    /// The member `key`, where it is a string.
    pub key: Option<Seq<char>>,
}

/// What is read out of a condition's parameters.
#[derive(Debug)]
pub struct ConditionParams {
    pub table: bool,
    pub value: Option<String>,
    pub value_string: Option<String>,
    pub key: Option<String>,
}

impl View for ConditionParams {
    type V = ParamsView;

    open spec fn view(&self) -> ParamsView {
        ParamsView {
            table: self.table,
            value: crate::text::optional_text(self.value),
            value_string: crate::text::optional_text(self.value_string),
            key: crate::text::optional_text(self.key),
        }
    }
}

/// The string member of a JSON object under a key.
pub open spec fn string_member(params: Seq<char>, key: Seq<char>) -> Option<Seq<char>> {
    match crate::json::member(params, key) {
        Some(member) => crate::json::string(member),
        None => None,
    }
}

/// What is read out of parameters in JSON.
pub open spec fn params_of(params: Seq<char>) -> ParamsView {
    ParamsView {
        table: crate::json::is_object(params),
        value: crate::json::member(params, "value"@),
        value_string: string_member(params, "value"@),
        key: string_member(params, "key"@),
    }
}

/// Reads parameters in JSON.
pub fn read_params(params: &str) -> (result: ConditionParams)
    ensures
        result@ == params_of(params@),
{
    let value = json_member(params, "value");
    let value_string: Option<String> = match &value {
        Some(member) => json_string(member.as_str()),
        None => None,
    };
    let key: Option<String> = match json_member(params, "key") {
        Some(member) => json_string(member.as_str()),
        None => None,
    };
    ConditionParams { table: json_is_object(params), value, value_string, key }
}

/// What is wrong with a condition and its parameters, if anything.
pub open spec fn condition_fault(name: Seq<char>, params: ParamsView) -> Option<ConditionFault> {
    match condition_of(name) {
        None => Some(ConditionFault::Unknown { condition: name }),
        Some(CoreCondition::Always) => None,
        Some(condition) => if !params.table {
            Some(ConditionFault::NotATable)
        } else if params.value is None {
            Some(ConditionFault::NoValue)
        } else if (condition is Label || condition is Context) && params.key is None {
            Some(ConditionFault::NoKey)
        } else {
            None
        },
    }
}

/// The label of a key, where an event has it.
pub open spec fn label(event: crate::event::EventView, key: Seq<char>) -> Option<Seq<char>> {
    if event.labels.contains_key(key) {
        Some(event.labels[key])
    } else {
        None
    }
}

/// Whether a condition holds of an event. `same_extra` says whether the
/// context value under the key equals the value parameter.
pub open spec fn condition_holds(
    condition: CoreCondition,
    params: ParamsView,
    event: crate::event::EventView,
    same_extra: bool,
) -> bool {
    match condition {
        CoreCondition::Always => true,
        CoreCondition::AppId => event.context.app_id == params.value_string,
        CoreCondition::WindowTitle => event.context.window_title == params.value_string,
        CoreCondition::Label => label(event, params.key->0) == params.value_string,
        CoreCondition::Context => event.context.extra.contains_key(params.key->0) && same_extra,
    }
}

/// Whether the context value under the key equals the value parameter.
pub open spec fn extra_matches(params: ParamsView, event: crate::event::EventView) -> bool {
    params.key matches Some(key) && params.value matches Some(value)
        && event.context.extra.contains_key(key) && crate::json::equal(
        event.context.extra[key],
        value,
    )
}

fn same_optional(left: Option<&String>, right: &Option<String>) -> (result: bool)
    ensures
        result == (match left {
            Some(text) => crate::text::optional_text(*right) == Some(text@),
            None => right is None,
        }),
{
    match (left, right) {
        (Some(left), Some(right)) => same_text(left.as_str(), right.as_str()),
        (None, None) => true,
        _ => false,
    }
}

/// Checks a condition, given its parameters.
pub fn check_condition(name: &str, params: &ConditionParams) -> (result: Result<
    CoreCondition,
    ConditionError,
>)
    ensures
        result is Ok <==> condition_fault(name@, params@) is None,
        result matches Ok(condition) ==> Some(condition) == condition_of(name@),
        result matches Err(error) ==> Some(error@) == condition_fault(name@, params@),
{
    let condition = match core_condition(name) {
        Some(condition) => condition,
        None => {
            return Err(ConditionError::Unknown { condition: name.to_owned() });
        },
    };
    if matches!(condition, CoreCondition::Always) {
        return Ok(condition);
    }
    if !params.table {
        return Err(ConditionError::NotATable);
    }
    if params.value.is_none() {
        return Err(ConditionError::NoValue);
    }
    let keyed: bool = matches!(condition, CoreCondition::Label | CoreCondition::Context);
    if keyed && params.key.is_none() {
        return Err(ConditionError::NoKey);
    }
    Ok(condition)
}

/// Decides a condition, given its parameters and whether the context value
/// under the key equals the value parameter.
pub fn decide_condition(
    name: &str,
    params: &ConditionParams,
    event: &InputEvent,
    same_extra: bool,
) -> (result: Result<bool, ConditionError>)
    ensures
        result is Ok <==> condition_fault(name@, params@) is None,
        result matches Ok(holds) ==> holds == condition_holds(
            condition_of(name@)->0,
            params@,
            event@,
            same_extra,
        ),
        result matches Err(error) ==> Some(error@) == condition_fault(name@, params@),
{
    let condition = match check_condition(name, params) {
        Ok(condition) => condition,
        Err(error) => {
            return Err(error);
        },
    };
    let holds: bool = match condition {
        CoreCondition::Always => true,
        CoreCondition::AppId => same_optional(
            event.context.app_id.as_ref(),
            &params.value_string,
        ),
        CoreCondition::WindowTitle => same_optional(
            event.context.window_title.as_ref(),
            &params.value_string,
        ),
        CoreCondition::Label => match &params.key {
            Some(key) => same_optional(event.labels.get(key.as_str()), &params.value_string),
            None => false,
        },
        CoreCondition::Context => match &params.key {
            Some(key) => event.context.extra.get(key.as_str()).is_some() && same_extra,
            None => false,
        },
    };
    Ok(holds)
}

/// `core.always`, `core.app-id`, `core.window-title`, `core.label` and
/// `core.context`.
#[derive(Debug, Clone, Copy, PartialEq, Eq, Structural)]
pub struct CoreConditionProvider;

impl CoreConditionProvider {
    pub fn name(&self) -> (name: &'static str)
        ensures
            name@ == "core"@,
    {
        "core"
    }

    /// Checks a condition and its parameters.
    pub fn validate(&self, spec: &ConditionSpec) -> (result: Result<(), ConditionError>)
        ensures
            result is Ok <==> condition_fault(spec.condition@, params_of(spec.params@)) is None,
            result matches Err(error) ==> Some(error@) == condition_fault(
                spec.condition@,
                params_of(spec.params@),
            ),
    {
        let params = read_params(spec.params.as_str());
        match check_condition(spec.condition.as_str(), &params) {
            Ok(_) => Ok(()),
            Err(error) => Err(error),
        }
    }

    /// Decides a condition; negation is not its concern.
    pub fn evaluate(&self, spec: &ConditionSpec, event: &InputEvent) -> (result: Result<
        bool,
        ConditionError,
    >)
        ensures
            result is Ok <==> condition_fault(spec.condition@, params_of(spec.params@)) is None,
            result matches Ok(holds) ==> holds == condition_holds(
                condition_of(spec.condition@)->0,
                params_of(spec.params@),
                event@,
                extra_matches(params_of(spec.params@), event@),
            ),
            result matches Err(error) ==> Some(error@) == condition_fault(
                spec.condition@,
                params_of(spec.params@),
            ),
    {
        let params = read_params(spec.params.as_str());
        let same_extra: bool = match (&params.key, &params.value) {
            (Some(key), Some(value)) => match event.context.extra.get(key.as_str()) {
                Some(extra) => json_equal(extra.as_str(), value.as_str()),
                None => false,
            },
            _ => false,
        };
        decide_condition(spec.condition.as_str(), &params, event, same_extra)
    }
}

/// What a condition decides of an event, where it can be decided.
pub open spec fn decision(name: Seq<char>, params: Seq<char>, event: crate::event::EventView) -> bool {
    condition_holds(
        condition_of(name)->0,
        params_of(params),
        event,
        extra_matches(params_of(params), event),
    )
}

proof fn lemma_condition_names_differ()
    ensures
        condition_of("always"@) == Some(CoreCondition::Always),
        condition_of("app-id"@) == Some(CoreCondition::AppId),
        condition_of("window-title"@) == Some(CoreCondition::WindowTitle),
        condition_of("label"@) == Some(CoreCondition::Label),
        condition_of("context"@) == Some(CoreCondition::Context),
        "value"@ != "key"@,
{
    reveal_strlit("always");
    reveal_strlit("app-id");
    reveal_strlit("window-title");
    reveal_strlit("label");
    reveal_strlit("context");
    reveal_strlit("value");
    reveal_strlit("key");
    assert("always"@.len() == 6 && "app-id"@.len() == 6 && "always"@[1] != "app-id"@[1]);
    assert("window-title"@.len() == 12 && "label"@.len() == 5 && "context"@.len() == 7);
    assert("value"@.len() == 5 && "key"@.len() == 3);
}

/// `always` holds of every event. `app-id` holds of those whose application is the value
/// parameter, `window-title` of those with that window title, `label` of those whose
/// label under the key parameter is that value, and `context` of those whose context
/// holds an equal value under the key parameter. Where a parameter that is compared is
/// no string, events without the thing match.
pub proof fn law_core_conditions(params: Seq<char>, event: crate::event::EventView)
    ensures
        decision("always"@, params, event),
        string_member(params, "value"@) matches Some(value) ==> {
            &&& decision("app-id"@, params, event) <==> event.context.app_id == Some(value)
            &&& decision("window-title"@, params, event) <==> event.context.window_title == Some(
                value,
            )
            &&& string_member(params, "key"@) matches Some(key) ==> (decision(
                "label"@,
                params,
                event,
            ) <==> event.labels.contains_key(key) && event.labels[key] == value)
        },
        string_member(params, "value"@) is None ==> {
            &&& decision("app-id"@, params, event) <==> event.context.app_id is None
            &&& decision("window-title"@, params, event) <==> event.context.window_title is None
            &&& string_member(params, "key"@) matches Some(key) ==> (decision(
                "label"@,
                params,
                event,
            ) <==> !event.labels.contains_key(key))
        },
        string_member(params, "key"@) matches Some(key) ==> (crate::json::member(
            params,
            "value"@,
        ) matches Some(value) ==> (decision("context"@, params, event)
            <==> event.context.extra.contains_key(key) && crate::json::equal(
            event.context.extra[key],
            value,
        ))),
{
    lemma_condition_names_differ();
}

/// A condition can be decided exactly when it is `always`, or one of the four others and
/// its parameters are a table with a value and, for `label` and `context`, a string key.
pub proof fn law_core_conditions_need_parameters(name: Seq<char>, params: Seq<char>)
    ensures
        ({
            let valued = crate::json::is_object(params) && crate::json::member(params, "value"@)
                is Some;
            let keyed = string_member(params, "key"@) is Some;
            condition_fault(name, params_of(params)) is None <==> {
                ||| name == "always"@
                ||| (name == "app-id"@ || name == "window-title"@) && valued
                ||| (name == "label"@ || name == "context"@) && valued && keyed
            }
        }),
{
    lemma_condition_names_differ();
}

} // verus!

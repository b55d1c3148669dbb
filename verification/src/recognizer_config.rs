//! The rules by which gestures are recognized.

use vstd::prelude::*;

use crate::metric::Metric;
use crate::text::{append, quote, same_text};

verus! {

/// The thresholds of a swipe.
#[derive(Debug, Clone, Copy, PartialEq, Eq, Structural)]
pub struct SwipeRecognizerConfig {
    pub enabled: bool,
    pub fingers: u8,
    pub min_distance: Metric,
    pub min_average_velocity: Metric,
    pub max_duration_ms: Metric,
    pub max_axis_deviation_degrees: Metric,
}

/// Three fingers, 200 units, 400 units a second, 900 milliseconds, 30 degrees.
pub open spec fn calibrated_swipe() -> SwipeRecognizerConfig {
    SwipeRecognizerConfig {
        enabled: true,
        fingers: 3,
        min_distance: Metric { bits: 0x4069_0000_0000_0000 },
        min_average_velocity: Metric { bits: 0x4079_0000_0000_0000 },
        max_duration_ms: Metric { bits: 0x408c_2000_0000_0000 },
        max_axis_deviation_degrees: Metric { bits: 0x403e_0000_0000_0000 },
    }
}

impl Default for SwipeRecognizerConfig {
    fn default() -> (config: SwipeRecognizerConfig)
        ensures
            config == calibrated_swipe(),
    {
        SwipeRecognizerConfig {
            enabled: true,
            fingers: 3,
            min_distance: Metric { bits: 0x4069_0000_0000_0000 },
            min_average_velocity: Metric { bits: 0x4079_0000_0000_0000 },
            max_duration_ms: Metric { bits: 0x408c_2000_0000_0000 },
            max_axis_deviation_degrees: Metric { bits: 0x403e_0000_0000_0000 },
        }
    }
}

/// The thresholds of a hold.
#[derive(Debug, Clone, Copy, PartialEq, Eq, Structural)]
pub struct HoldRecognizerConfig {
    pub enabled: bool,
    pub fingers: u8,
    pub min_duration_ms: Metric,
    pub max_net_distance: Metric,
}

/// Three fingers, 650 milliseconds, 30 units.
pub open spec fn calibrated_hold() -> HoldRecognizerConfig {
    HoldRecognizerConfig {
        enabled: true,
        fingers: 3,
        min_duration_ms: Metric { bits: 0x4084_5000_0000_0000 },
        max_net_distance: Metric { bits: 0x403e_0000_0000_0000 },
    }
}

impl Default for HoldRecognizerConfig {
    fn default() -> (config: HoldRecognizerConfig)
        ensures
            config == calibrated_hold(),
    {
        HoldRecognizerConfig {
            enabled: true,
            fingers: 3,
            min_duration_ms: Metric { bits: 0x4084_5000_0000_0000 },
            max_net_distance: Metric { bits: 0x403e_0000_0000_0000 },
        }
    }
}

/// A swipe rule.
#[derive(Debug)]
pub struct SwipeRule {
    pub id: String,
    pub swipe: SwipeRecognizerConfig,
    /// Whether frames count only where every effective finger has complete
    /// coordinates.
    pub require_complete_tracking: bool,
}

/// A hold rule.
#[derive(Debug)]
pub struct HoldRule {
    pub id: String,
    pub hold: HoldRecognizerConfig,
    /// Whether frames count only where every effective finger has complete
    /// coordinates.
    pub require_complete_tracking: bool,
}

/// A rule for a drag that follows a hold.
#[derive(Debug)]
pub struct DragRule {
    pub id: String,
    pub enabled: bool,
    pub fingers: u8,
    pub min_hold_duration_ms: Metric,
    pub max_hold_distance: Metric,
    pub min_drag_distance: Metric,
    /// Whether frames count only where every effective finger has complete
    /// coordinates.
    pub require_complete_tracking: bool,
}

impl Clone for SwipeRule {
    fn clone(&self) -> (rule: SwipeRule)
        ensures
            rule == *self,
    {
        SwipeRule {
            id: self.id.clone(),
            swipe: self.swipe,
            require_complete_tracking: self.require_complete_tracking,
        }
    }
}

impl Clone for DragRule {
    fn clone(&self) -> (rule: DragRule)
        ensures
            rule == *self,
    {
        DragRule {
            id: self.id.clone(),
            enabled: self.enabled,
            fingers: self.fingers,
            min_hold_duration_ms: self.min_hold_duration_ms,
            max_hold_distance: self.max_hold_distance,
            min_drag_distance: self.min_drag_distance,
            require_complete_tracking: self.require_complete_tracking,
        }
    }
}

impl Clone for HoldRule {
    fn clone(&self) -> (rule: HoldRule)
        ensures
            rule == *self,
    {
        HoldRule {
            id: self.id.clone(),
            hold: self.hold,
            require_complete_tracking: self.require_complete_tracking,
        }
    }
}

/// What is wrong with the thresholds of a swipe.
#[derive(Debug, Clone, Copy, PartialEq, Eq, Structural)]
pub enum SwipeError {
    NoFingers,
    MinDistance,
    MinAverageVelocity,
    MaxDuration,
    MaxAxisDeviation,
}

impl SwipeError {
    pub open spec fn text(self) -> Seq<char> {
        match self {
            SwipeError::NoFingers => "swipe finger count must be greater than zero"@,
            SwipeError::MinDistance => "swipe min_distance must be a finite non-negative number"@,
            SwipeError::MinAverageVelocity =>
                "swipe min_average_velocity must be a finite non-negative number"@,
            SwipeError::MaxDuration => "swipe max_duration_ms must be a finite positive number"@,
            SwipeError::MaxAxisDeviation =>
                "swipe max_axis_deviation_degrees must be between 0 and 45"@,
        }
    }

    pub fn message(&self) -> (text: &'static str)
        ensures
            text@ == self.text(),
    {
        match self {
            SwipeError::NoFingers => "swipe finger count must be greater than zero",
            SwipeError::MinDistance => "swipe min_distance must be a finite non-negative number",
            SwipeError::MinAverageVelocity =>
                "swipe min_average_velocity must be a finite non-negative number",
            SwipeError::MaxDuration => "swipe max_duration_ms must be a finite positive number",
            SwipeError::MaxAxisDeviation =>
                "swipe max_axis_deviation_degrees must be between 0 and 45",
        }
    }
}

/// What is wrong with the thresholds of a hold.
#[derive(Debug, Clone, Copy, PartialEq, Eq, Structural)]
pub enum HoldError {
    NoFingers,
    MinDuration,
    MaxNetDistance,
}

impl HoldError {
    pub open spec fn text(self) -> Seq<char> {
        match self {
            HoldError::NoFingers => "hold finger count must be greater than zero"@,
            HoldError::MinDuration => "hold min_duration_ms must be a finite positive number"@,
            HoldError::MaxNetDistance =>
                "hold max_net_distance must be a finite non-negative number"@,
        }
    }

    pub fn message(&self) -> (text: &'static str)
        ensures
            text@ == self.text(),
    {
        match self {
            HoldError::NoFingers => "hold finger count must be greater than zero",
            HoldError::MinDuration => "hold min_duration_ms must be a finite positive number",
            HoldError::MaxNetDistance =>
                "hold max_net_distance must be a finite non-negative number",
        }
    }
}

/// What is wrong with the thresholds of a drag.
#[derive(Debug, Clone, Copy, PartialEq, Eq, Structural)]
pub enum DragRuleError {
    NoFingers,
    MinHoldDuration,
    MaxHoldDistance,
    MinDragDistance,
}

impl DragRuleError {
    pub open spec fn text(self) -> Seq<char> {
        match self {
            DragRuleError::NoFingers => "drag finger count must be greater than zero"@,
            DragRuleError::MinHoldDuration =>
                "drag min_hold_duration_ms must be a finite positive number"@,
            DragRuleError::MaxHoldDistance =>
                "drag max_hold_distance must be a finite non-negative number"@,
            DragRuleError::MinDragDistance =>
                "drag min_drag_distance must be a finite non-negative number"@,
        }
    }

    pub fn message(&self) -> (text: &'static str)
        ensures
            text@ == self.text(),
    {
        match self {
            DragRuleError::NoFingers => "drag finger count must be greater than zero",
            DragRuleError::MinHoldDuration =>
                "drag min_hold_duration_ms must be a finite positive number",
            DragRuleError::MaxHoldDistance =>
                "drag max_hold_distance must be a finite non-negative number",
            DragRuleError::MinDragDistance =>
                "drag min_drag_distance must be a finite non-negative number",
        }
    }
}

/// A finite number that is not negative.
pub open spec fn non_negative(metric: Metric) -> bool {
    metric.finite() && !metric.below(Metric::zero())
}

/// A finite number above zero.
pub open spec fn positive(metric: Metric) -> bool {
    metric.finite() && Metric::zero().below(metric)
}

/// Forty-five.
pub open spec fn half_right_angle() -> Metric {
    Metric { bits: 0x4046_8000_0000_0000 }
}

fn is_non_negative(metric: &Metric) -> (result: bool)
    ensures
        result == non_negative(*metric),
{
    metric.is_finite() && !metric.is_below(&Metric { bits: 0 })
}

fn is_positive(metric: &Metric) -> (result: bool)
    ensures
        result == positive(*metric),
{
    metric.is_finite() && (Metric { bits: 0 }).is_below(metric)
}

impl SwipeRecognizerConfig {
    /// What is wrong with the thresholds, if anything.
    pub open spec fn fault(self) -> Option<SwipeError> {
        if self.fingers == 0 {
            Some(SwipeError::NoFingers)
        } else if !non_negative(self.min_distance) {
            Some(SwipeError::MinDistance)
        } else if !non_negative(self.min_average_velocity) {
            Some(SwipeError::MinAverageVelocity)
        } else if !positive(self.max_duration_ms) {
            Some(SwipeError::MaxDuration)
        } else if !(self.max_axis_deviation_degrees.finite() && Metric::zero().at_most(
            self.max_axis_deviation_degrees,
        ) && self.max_axis_deviation_degrees.at_most(half_right_angle())) {
            Some(SwipeError::MaxAxisDeviation)
        } else {
            None
        }
    }

    pub fn validate(&self) -> (result: Result<(), SwipeError>)
        ensures
            result == match self.fault() {
                Some(error) => Err(error),
                None => Ok(()),
            },
    {
        if self.fingers == 0 {
            return Err(SwipeError::NoFingers);
        }
        if !is_non_negative(&self.min_distance) {
            return Err(SwipeError::MinDistance);
        }
        if !is_non_negative(&self.min_average_velocity) {
            return Err(SwipeError::MinAverageVelocity);
        }
        if !is_positive(&self.max_duration_ms) {
            return Err(SwipeError::MaxDuration);
        }
        let deviation = self.max_axis_deviation_degrees;
        let zero = Metric { bits: 0 };
        if !deviation.is_finite() || !zero.is_at_most(&deviation) || !deviation.is_at_most(
            &Metric { bits: 0x4046_8000_0000_0000 },
        ) {
            return Err(SwipeError::MaxAxisDeviation);
        }
        Ok(())
    }
}

impl HoldRecognizerConfig {
    /// What is wrong with the thresholds, if anything.
    pub open spec fn fault(self) -> Option<HoldError> {
        if self.fingers == 0 {
            Some(HoldError::NoFingers)
        } else if !positive(self.min_duration_ms) {
            Some(HoldError::MinDuration)
        } else if !non_negative(self.max_net_distance) {
            Some(HoldError::MaxNetDistance)
        } else {
            None
        }
    }

    pub fn validate(&self) -> (result: Result<(), HoldError>)
        ensures
            result == match self.fault() {
                Some(error) => Err(error),
                None => Ok(()),
            },
    {
        if self.fingers == 0 {
            return Err(HoldError::NoFingers);
        }
        if !is_positive(&self.min_duration_ms) {
            return Err(HoldError::MinDuration);
        }
        if !is_non_negative(&self.max_net_distance) {
            return Err(HoldError::MaxNetDistance);
        }
        Ok(())
    }
}

impl DragRule {
    /// What is wrong with the thresholds, if anything.
    pub open spec fn fault(self) -> Option<DragRuleError> {
        if self.fingers == 0 {
            Some(DragRuleError::NoFingers)
        } else if !positive(self.min_hold_duration_ms) {
            Some(DragRuleError::MinHoldDuration)
        } else if !non_negative(self.max_hold_distance) {
            Some(DragRuleError::MaxHoldDistance)
        } else if !non_negative(self.min_drag_distance) {
            Some(DragRuleError::MinDragDistance)
        } else {
            None
        }
    }

    pub fn validate(&self) -> (result: Result<(), DragRuleError>)
        ensures
            result == match self.fault() {
                Some(error) => Err(error),
                None => Ok(()),
            },
    {
        if self.fingers == 0 {
            return Err(DragRuleError::NoFingers);
        }
        if !is_positive(&self.min_hold_duration_ms) {
            return Err(DragRuleError::MinHoldDuration);
        }
        if !is_non_negative(&self.max_hold_distance) {
            return Err(DragRuleError::MaxHoldDistance);
        }
        if !is_non_negative(&self.min_drag_distance) {
            return Err(DragRuleError::MinDragDistance);
        }
        Ok(())
    }
}

/// The recognition rules. A list of swipe or hold rules stands in place of the
/// three-finger table of its kind; a table that was given explicitly cannot be
/// combined with the list.
#[derive(Debug, Clone)]
pub struct RecognitionSettings {
    pub three_finger_swipe: SwipeRecognizerConfig,
    /// Whether the three-finger swipe table was given explicitly.
    pub swipe_table_given: bool,
    pub three_finger_hold: HoldRecognizerConfig,
    /// Whether the three-finger hold table was given explicitly.
    pub hold_table_given: bool,
    pub swipes: Option<Vec<SwipeRule>>,
    pub holds: Option<Vec<HoldRule>>,
    pub drags: Vec<DragRule>,
}

impl Default for RecognitionSettings {
    fn default() -> (settings: RecognitionSettings)
        ensures
            settings.three_finger_swipe == calibrated_swipe(),
            settings.three_finger_hold == calibrated_hold(),
            !settings.swipe_table_given,
            !settings.hold_table_given,
            settings.swipes is None,
            settings.holds is None,
            settings.drags@.len() == 0,
    {
        RecognitionSettings {
            three_finger_swipe: SwipeRecognizerConfig::default(),
            swipe_table_given: false,
            three_finger_hold: HoldRecognizerConfig::default(),
            hold_table_given: false,
            swipes: None,
            holds: None,
            drags: Vec::new(),
        }
    }
}

#[derive(Debug, Clone)]
pub struct RecognizerConfig {
    pub recognition: RecognitionSettings,
}

impl Default for RecognizerConfig {
    fn default() -> (config: RecognizerConfig)
        ensures
            config.recognition.three_finger_swipe == calibrated_swipe(),
            config.recognition.three_finger_hold == calibrated_hold(),
            !config.recognition.swipe_table_given,
            !config.recognition.hold_table_given,
            config.recognition.swipes is None,
            config.recognition.holds is None,
            config.recognition.drags@.len() == 0,
    {
        RecognizerConfig { recognition: RecognitionSettings::default() }
    }
}

/// What is wrong with recognition rules.
#[derive(Debug)]
pub enum RecognizerError {
    Swipe(SwipeError),
    Hold(HoldError),
    Drag(DragRuleError),
    SwipeTableAndList,
    HoldTableAndList,
    DuplicateRule { id: String },
}

/// What a [`RecognizerError`] says.
#[verifier::ext_equal]
pub enum RecognizerFault {
    Swipe(SwipeError),
    Hold(HoldError),
    Drag(DragRuleError),
    SwipeTableAndList,
    HoldTableAndList,
    DuplicateRule { id: Seq<char> },
}

impl View for RecognizerError {
    type V = RecognizerFault;

    open spec fn view(&self) -> RecognizerFault {
        match *self {
            RecognizerError::Swipe(error) => RecognizerFault::Swipe(error),
            RecognizerError::Hold(error) => RecognizerFault::Hold(error),
            RecognizerError::Drag(error) => RecognizerFault::Drag(error),
            RecognizerError::SwipeTableAndList => RecognizerFault::SwipeTableAndList,
            RecognizerError::HoldTableAndList => RecognizerFault::HoldTableAndList,
            RecognizerError::DuplicateRule { id } => RecognizerFault::DuplicateRule { id: id@ },
        }
    }
}

impl RecognizerFault {
    pub open spec fn text(self) -> Seq<char> {
        match self {
            RecognizerFault::Swipe(error) => error.text(),
            RecognizerFault::Hold(error) => error.text(),
            RecognizerFault::Drag(error) => error.text(),
            RecognizerFault::SwipeTableAndList =>
                "recognition.three_finger_swipe cannot be combined with recognition.swipes"@,
            RecognizerFault::HoldTableAndList =>
                "recognition.three_finger_hold cannot be combined with recognition.holds"@,
            RecognizerFault::DuplicateRule { id } => "duplicate recognition rule id "@
                + crate::text::quoted(id),
        }
    }
}

impl RecognizerError {
    pub fn message(&self) -> (text: String)
        ensures
            text@ == self@.text(),
    {
        match self {
            RecognizerError::Swipe(error) => error.message().to_owned(),
            RecognizerError::Hold(error) => error.message().to_owned(),
            RecognizerError::Drag(error) => error.message().to_owned(),
            RecognizerError::SwipeTableAndList =>
                "recognition.three_finger_swipe cannot be combined with recognition.swipes".to_owned(),
            RecognizerError::HoldTableAndList =>
                "recognition.three_finger_hold cannot be combined with recognition.holds".to_owned(),
            RecognizerError::DuplicateRule { id } => {
                let mut text = "duplicate recognition rule id ".to_owned();
                append(&mut text, quote(id.as_str()).as_str());
                text
            },
        }
    }
}

/// What is wrong with the first faulty swipe rule of a list, if any is.
pub open spec fn first_swipe_fault(rules: Seq<SwipeRule>) -> Option<SwipeError>
    decreases rules.len(),
{
    if rules.len() == 0 {
        None
    } else if rules[0].swipe.fault() is Some {
        rules[0].swipe.fault()
    } else {
        first_swipe_fault(rules.drop_first())
    }
}

/// What is wrong with the first faulty hold rule of a list, if any is.
pub open spec fn first_hold_fault(rules: Seq<HoldRule>) -> Option<HoldError>
    decreases rules.len(),
{
    if rules.len() == 0 {
        None
    } else if rules[0].hold.fault() is Some {
        rules[0].hold.fault()
    } else {
        first_hold_fault(rules.drop_first())
    }
}

/// What is wrong with the first faulty drag rule of a list, if any is.
pub open spec fn first_drag_fault(rules: Seq<DragRule>) -> Option<DragRuleError>
    decreases rules.len(),
{
    if rules.len() == 0 {
        None
    } else if rules[0].fault() is Some {
        rules[0].fault()
    } else {
        first_drag_fault(rules.drop_first())
    }
}

impl RecognitionSettings {
    /// The swipe rules in force.
    pub open spec fn swipe_rules(self) -> Seq<SwipeRuleView> {
        match self.swipes {
            Some(rules) => rules@.map_values(|rule: SwipeRule| swipe_view(rule)),
            None => seq![
                SwipeRuleView {
                    id: "three-finger-swipe"@,
                    swipe: self.three_finger_swipe,
                    require_complete_tracking: !self.swipe_table_given,
                },
            ],
        }
    }

    /// The hold rules in force.
    pub open spec fn hold_rules(self) -> Seq<HoldRuleView> {
        match self.holds {
            Some(rules) => rules@.map_values(|rule: HoldRule| hold_view(rule)),
            None => seq![
                HoldRuleView {
                    id: "three-finger-hold"@,
                    hold: self.three_finger_hold,
                    require_complete_tracking: false,
                },
            ],
        }
    }

    /// The identities of the swipe and hold rules in force, swipes first.
    pub open spec fn rule_ids(self) -> Seq<Seq<char>> {
        self.swipe_rules().map_values(|rule: SwipeRuleView| rule.id) + self.hold_rules().map_values(
            |rule: HoldRuleView| rule.id,
        )
    }
}

/// What a [`SwipeRule`] holds.
#[verifier::ext_equal]
pub struct SwipeRuleView {
    pub id: Seq<char>,
    pub swipe: SwipeRecognizerConfig,
    pub require_complete_tracking: bool,
}

/// What a [`HoldRule`] holds.
#[verifier::ext_equal]
pub struct HoldRuleView {
    pub id: Seq<char>,
    pub hold: HoldRecognizerConfig,
    pub require_complete_tracking: bool,
}

pub open spec fn swipe_view(rule: SwipeRule) -> SwipeRuleView {
    SwipeRuleView {
        id: rule.id@,
        swipe: rule.swipe,
        require_complete_tracking: rule.require_complete_tracking,
    }
}

pub open spec fn hold_view(rule: HoldRule) -> HoldRuleView {
    HoldRuleView {
        id: rule.id@,
        hold: rule.hold,
        require_complete_tracking: rule.require_complete_tracking,
    }
}

/// Whether an identity at `at` occurs earlier in a list.
pub open spec fn repeated(ids: Seq<Seq<char>>, at: int) -> bool {
    exists|i: int| 0 <= i < at && #[trigger] ids[i] == ids[at]
}

/// The first identity, from `at` on, that occurs earlier in a list.
pub open spec fn first_repeated(ids: Seq<Seq<char>>, at: int) -> Option<Seq<char>>
    decreases ids.len() - at,
{
    if at < 0 || at >= ids.len() {
        None
    } else if repeated(ids, at) {
        Some(ids[at])
    } else {
        first_repeated(ids, at + 1)
    }
}

impl RecognizerConfig {
    /// What is wrong with the rules, if anything.
    pub open spec fn fault(self) -> Option<RecognizerFault> {
        let settings = self.recognition;
        if settings.three_finger_swipe.fault() is Some {
            Some(RecognizerFault::Swipe(settings.three_finger_swipe.fault()->0))
        } else if settings.three_finger_hold.fault() is Some {
            Some(RecognizerFault::Hold(settings.three_finger_hold.fault()->0))
        } else if settings.swipe_table_given && settings.swipes is Some {
            Some(RecognizerFault::SwipeTableAndList)
        } else if settings.hold_table_given && settings.holds is Some {
            Some(RecognizerFault::HoldTableAndList)
        } else if settings.swipes is Some && first_swipe_fault(settings.swipes->0@) is Some {
            Some(RecognizerFault::Swipe(first_swipe_fault(settings.swipes->0@)->0))
        } else if settings.holds is Some && first_hold_fault(settings.holds->0@) is Some {
            Some(RecognizerFault::Hold(first_hold_fault(settings.holds->0@)->0))
        } else if first_drag_fault(settings.drags@) is Some {
            Some(RecognizerFault::Drag(first_drag_fault(settings.drags@)->0))
        } else if first_repeated(settings.rule_ids(), 0) is Some {
            Some(
                RecognizerFault::DuplicateRule { id: first_repeated(settings.rule_ids(), 0)->0 },
            )
        } else {
            None
        }
    }
}

fn validate_swipes(rules: &Vec<SwipeRule>) -> (result: Result<(), SwipeError>)
    ensures
        result == match first_swipe_fault(rules@) {
            Some(error) => Err(error),
            None => Ok(()),
        },
{
    let mut index: usize = 0;
    assert(rules@.skip(0) =~= rules@);
    while index < rules.len()
        invariant
            index <= rules@.len(),
            first_swipe_fault(rules@) == first_swipe_fault(rules@.skip(index as int)),
        decreases rules@.len() - index,
    {
        assert(rules@.skip(index as int)[0] == rules@[index as int]);
        assert(rules@.skip(index as int).drop_first() =~= rules@.skip(index + 1));
        if let Err(error) = rules[index].swipe.validate() {
            return Err(error);
        }
        index = index + 1;
    }
    Ok(())
}

fn validate_holds(rules: &Vec<HoldRule>) -> (result: Result<(), HoldError>)
    ensures
        result == match first_hold_fault(rules@) {
            Some(error) => Err(error),
            None => Ok(()),
        },
{
    let mut index: usize = 0;
    assert(rules@.skip(0) =~= rules@);
    while index < rules.len()
        invariant
            index <= rules@.len(),
            first_hold_fault(rules@) == first_hold_fault(rules@.skip(index as int)),
        decreases rules@.len() - index,
    {
        assert(rules@.skip(index as int)[0] == rules@[index as int]);
        assert(rules@.skip(index as int).drop_first() =~= rules@.skip(index + 1));
        if let Err(error) = rules[index].hold.validate() {
            return Err(error);
        }
        index = index + 1;
    }
    Ok(())
}

fn validate_drags(rules: &Vec<DragRule>) -> (result: Result<(), DragRuleError>)
    ensures
        result == match first_drag_fault(rules@) {
            Some(error) => Err(error),
            None => Ok(()),
        },
{
    let mut index: usize = 0;
    assert(rules@.skip(0) =~= rules@);
    while index < rules.len()
        invariant
            index <= rules@.len(),
            first_drag_fault(rules@) == first_drag_fault(rules@.skip(index as int)),
        decreases rules@.len() - index,
    {
        assert(rules@.skip(index as int)[0] == rules@[index as int]);
        assert(rules@.skip(index as int).drop_first() =~= rules@.skip(index + 1));
        if let Err(error) = rules[index].validate() {
            return Err(error);
        }
        index = index + 1;
    }
    Ok(())
}

/// Some texts, as characters.
pub open spec fn id_views(ids: Seq<String>) -> Seq<Seq<char>> {
    ids.map_values(|id: String| id@)
}

fn find_repeated(ids: &Vec<String>) -> (result: Option<usize>)
    ensures
        result is Some <==> first_repeated(id_views(ids@), 0) is Some,
        result matches Some(at) ==> at < ids@.len() && first_repeated(id_views(ids@), 0) == Some(
            ids@[at as int]@,
        ),
{
    let ghost views = id_views(ids@);
    let mut at: usize = 0;
    while at < ids.len()
        invariant
            at <= ids@.len(),
            views == id_views(ids@),
            first_repeated(views, 0) == first_repeated(views, at as int),
        decreases ids@.len() - at,
    {
        let mut index: usize = 0;
        while index < at
            invariant
                index <= at < ids@.len(),
                views == id_views(ids@),
                first_repeated(views, 0) == first_repeated(views, at as int),
                forall|i: int| 0 <= i < index ==> #[trigger] views[i] != views[at as int],
            decreases at - index,
        {
            if same_text(ids[index].as_str(), ids[at].as_str()) {
                assert(views[index as int] == views[at as int]);
                return Some(at);
            }
            index = index + 1;
        }
        at = at + 1;
    }
    None
}

/// The rules of a list, as they are held.
pub open spec fn swipe_views(rules: Seq<SwipeRule>) -> Seq<SwipeRuleView> {
    rules.map_values(|rule: SwipeRule| swipe_view(rule))
}

/// The rules of a list, as they are held.
pub open spec fn hold_views(rules: Seq<HoldRule>) -> Seq<HoldRuleView> {
    rules.map_values(|rule: HoldRule| hold_view(rule))
}

impl RecognitionSettings {
    /// The swipe rules in force: the list, or the three-finger rule.
    pub fn effective_swipes(&self) -> (rules: Vec<SwipeRule>)
        ensures
            swipe_views(rules@) == self.swipe_rules(),
    {
        let mut rules: Vec<SwipeRule> = Vec::new();
        match &self.swipes {
            Some(list) => {
                let mut index: usize = 0;
                while index < list.len()
                    invariant
                        index <= list@.len(),
                        rules@ == list@.take(index as int),
                    decreases list@.len() - index,
                {
                    rules.push(list[index].clone());
                    assert(rules@ =~= list@.take(index + 1));
                    index = index + 1;
                }
                assert(rules@ =~= list@);
            },
            None => {
                rules.push(
                    SwipeRule {
                        id: "three-finger-swipe".to_owned(),
                        swipe: self.three_finger_swipe,
                        require_complete_tracking: !self.swipe_table_given,
                    },
                );
                assert(swipe_views(rules@) =~= self.swipe_rules());
            },
        }
        rules
    }

    /// The hold rules in force: the list, or the three-finger rule.
    pub fn effective_holds(&self) -> (rules: Vec<HoldRule>)
        ensures
            hold_views(rules@) == self.hold_rules(),
    {
        let mut rules: Vec<HoldRule> = Vec::new();
        match &self.holds {
            Some(list) => {
                let mut index: usize = 0;
                while index < list.len()
                    invariant
                        index <= list@.len(),
                        rules@ == list@.take(index as int),
                    decreases list@.len() - index,
                {
                    rules.push(list[index].clone());
                    assert(rules@ =~= list@.take(index + 1));
                    index = index + 1;
                }
                assert(rules@ =~= list@);
            },
            None => {
                rules.push(
                    HoldRule {
                        id: "three-finger-hold".to_owned(),
                        hold: self.three_finger_hold,
                        require_complete_tracking: false,
                    },
                );
                assert(hold_views(rules@) =~= self.hold_rules());
            },
        }
        rules
    }

    fn effective_ids(&self) -> (ids: Vec<String>)
        ensures
            id_views(ids@) == self.rule_ids(),
    {
        let swipes = self.effective_swipes();
        let holds = self.effective_holds();
        let ghost swipe_ids = self.swipe_rules().map_values(|rule: SwipeRuleView| rule.id);
        let ghost hold_ids = self.hold_rules().map_values(|rule: HoldRuleView| rule.id);
        let mut ids: Vec<String> = Vec::new();
        let mut index: usize = 0;
        while index < swipes.len()
            invariant
                index <= swipes@.len(),
                swipe_views(swipes@) == self.swipe_rules(),
                swipe_ids == self.swipe_rules().map_values(|rule: SwipeRuleView| rule.id),
                swipe_ids.len() == swipes@.len(),
                id_views(ids@) == swipe_ids.take(index as int),
            decreases swipes@.len() - index,
        {
            let ghost before = id_views(ids@);
            let id = swipes[index].id.clone();
            assert(swipe_views(swipes@)[index as int].id == id@);
            ids.push(id);
            assert(id_views(ids@) =~= before.push(id@));
            assert(id_views(ids@) =~= swipe_ids.take(index + 1));
            index = index + 1;
        }
        assert(id_views(ids@) =~= swipe_ids);
        index = 0;
        while index < holds.len()
            invariant
                index <= holds@.len(),
                hold_views(holds@) == self.hold_rules(),
                hold_ids == self.hold_rules().map_values(|rule: HoldRuleView| rule.id),
                hold_ids.len() == holds@.len(),
                id_views(ids@) == swipe_ids + hold_ids.take(index as int),
            decreases holds@.len() - index,
        {
            let ghost before = id_views(ids@);
            let id = holds[index].id.clone();
            assert(hold_views(holds@)[index as int].id == id@);
            ids.push(id);
            assert(id_views(ids@) =~= before.push(id@));
            assert(id_views(ids@) =~= swipe_ids + hold_ids.take(index + 1));
            index = index + 1;
        }
        assert(id_views(ids@) =~= swipe_ids + hold_ids);
        ids
    }
}

impl RecognizerConfig {
    /// Checks the thresholds of every rule, that no table is combined with the
    /// list of its kind, and that no identity is used twice among swipes and holds.
    pub fn validate(&self) -> (result: Result<(), RecognizerError>)
        ensures
            result is Ok <==> self.fault() is None,
            result matches Err(error) ==> Some(error@) == self.fault(),
    {
        let settings = &self.recognition;
        if let Err(error) = settings.three_finger_swipe.validate() {
            return Err(RecognizerError::Swipe(error));
        }
        if let Err(error) = settings.three_finger_hold.validate() {
            return Err(RecognizerError::Hold(error));
        }
        if settings.swipe_table_given && settings.swipes.is_some() {
            return Err(RecognizerError::SwipeTableAndList);
        }
        if settings.hold_table_given && settings.holds.is_some() {
            return Err(RecognizerError::HoldTableAndList);
        }
        if let Some(rules) = &settings.swipes {
            if let Err(error) = validate_swipes(rules) {
                return Err(RecognizerError::Swipe(error));
            }
        }
        if let Some(rules) = &settings.holds {
            if let Err(error) = validate_holds(rules) {
                return Err(RecognizerError::Hold(error));
            }
        }
        if let Err(error) = validate_drags(&settings.drags) {
            return Err(RecognizerError::Drag(error));
        }
        let ids = settings.effective_ids();
        if let Some(at) = find_repeated(&ids) {
            return Err(RecognizerError::DuplicateRule { id: ids[at].clone() });
        }
        Ok(())
    }
}

proof fn lemma_none_repeated(ids: Seq<Seq<char>>, at: int)
    requires
        0 <= at <= ids.len(),
        first_repeated(ids, at) is None,
    ensures
        forall|i: int, j: int| 0 <= i < j < ids.len() && at <= j ==> #[trigger] ids[i] != #[trigger] ids[j],
    decreases ids.len() - at,
{
    if at < ids.len() {
        lemma_none_repeated(ids, at + 1);
        assert(!repeated(ids, at));
    }
}

/// In valid rules no two swipe or hold rules have the same identity.
pub proof fn law_rule_identities_are_distinct(config: RecognizerConfig)
    requires
        config.fault() is None,
    ensures
        forall|i: int, j: int|
            0 <= i < j < config.recognition.rule_ids().len()
                ==> #[trigger] config.recognition.rule_ids()[i]
                != #[trigger] config.recognition.rule_ids()[j],
{
    lemma_none_repeated(config.recognition.rule_ids(), 0);
}

/// The built-in rules are valid.
pub proof fn law_built_in_rules_are_valid(config: RecognizerConfig)
    requires
        config.recognition.three_finger_swipe == calibrated_swipe(),
        config.recognition.three_finger_hold == calibrated_hold(),
        config.recognition.swipes is None,
        config.recognition.holds is None,
        config.recognition.drags@.len() == 0,
    ensures
        config.fault() is None,
{
    reveal_strlit("three-finger-swipe");
    reveal_strlit("three-finger-hold");
    assert("three-finger-swipe"@.len() == 18 && "three-finger-hold"@.len() == 17);
    let ids = config.recognition.rule_ids();
    assert(ids =~= seq!["three-finger-swipe"@, "three-finger-hold"@]);
    assert(!repeated(ids, 0));
    assert(!repeated(ids, 1));
    reveal_with_fuel(first_repeated, 3);
}

/// Whether a metric is a number from zero up to, and without, infinity.
pub open spec fn from_zero_on(metric: Metric) -> bool {
    0 <= metric.rank() < 0x7ff0_0000_0000_0000
}

/// Thresholds are valid exactly when there are fingers, distances and velocities are
/// finite and not negative, durations are finite and above zero, and an axis deviation
/// is at most forty-five degrees.
pub proof fn law_thresholds_are_bounded(
    swipe: SwipeRecognizerConfig,
    hold: HoldRecognizerConfig,
    drag: DragRule,
)
    ensures
        swipe.fault() is None <==> swipe.fingers > 0 && from_zero_on(swipe.min_distance)
            && from_zero_on(swipe.min_average_velocity) && from_zero_on(swipe.max_duration_ms)
            && swipe.max_duration_ms.rank() > 0 && from_zero_on(swipe.max_axis_deviation_degrees)
            && swipe.max_axis_deviation_degrees.rank() <= 0x4046_8000_0000_0000,
        hold.fault() is None <==> hold.fingers > 0 && from_zero_on(hold.min_duration_ms)
            && hold.min_duration_ms.rank() > 0 && from_zero_on(hold.max_net_distance),
        drag.fault() is None <==> drag.fingers > 0 && from_zero_on(drag.min_hold_duration_ms)
            && drag.min_hold_duration_ms.rank() > 0 && from_zero_on(drag.max_hold_distance)
            && from_zero_on(drag.min_drag_distance),
        swipe.fault() == Some(SwipeError::NoFingers) <==> swipe.fingers == 0,
        swipe.fault() == Some(SwipeError::MinDistance) ==> !from_zero_on(swipe.min_distance),
        swipe.fault() == Some(SwipeError::MinAverageVelocity) ==> !from_zero_on(
            swipe.min_average_velocity,
        ),
        swipe.fault() == Some(SwipeError::MaxDuration) ==> !(from_zero_on(swipe.max_duration_ms)
            && swipe.max_duration_ms.rank() > 0),
        hold.fault() == Some(HoldError::NoFingers) <==> hold.fingers == 0,
        hold.fault() == Some(HoldError::MinDuration) ==> !(from_zero_on(hold.min_duration_ms)
            && hold.min_duration_ms.rank() > 0),
        hold.fault() == Some(HoldError::MaxNetDistance) ==> !from_zero_on(hold.max_net_distance),
        drag.fault() == Some(DragRuleError::NoFingers) <==> drag.fingers == 0,
        drag.fault() == Some(DragRuleError::MaxHoldDistance) ==> !from_zero_on(
            drag.max_hold_distance,
        ),
        drag.fault() == Some(DragRuleError::MinDragDistance) ==> !from_zero_on(
            drag.min_drag_distance,
        ),
{
}

proof fn lemma_first_swipe_fault(rules: Seq<SwipeRule>)
    ensures
        first_swipe_fault(rules) is None <==> forall|i: int|
            0 <= i < rules.len() ==> (#[trigger] rules[i]).swipe.fault() is None,
    decreases rules.len(),
{
    if rules.len() > 0 {
        let rest = rules.drop_first();
        lemma_first_swipe_fault(rest);
        assert(forall|i: int| 0 <= i < rest.len() ==> #[trigger] rest[i] == rules[i + 1]);
        assert forall|i: int|
            first_swipe_fault(rules) is None && 0 <= i < rules.len() implies (
        #[trigger] rules[i]).swipe.fault() is None by {
            if i > 0 {
                assert(rest[i - 1].swipe.fault() is None);
            }
        }
    }
}

proof fn lemma_first_hold_fault(rules: Seq<HoldRule>)
    ensures
        first_hold_fault(rules) is None <==> forall|i: int|
            0 <= i < rules.len() ==> (#[trigger] rules[i]).hold.fault() is None,
    decreases rules.len(),
{
    if rules.len() > 0 {
        let rest = rules.drop_first();
        lemma_first_hold_fault(rest);
        assert(forall|i: int| 0 <= i < rest.len() ==> #[trigger] rest[i] == rules[i + 1]);
        assert forall|i: int|
            first_hold_fault(rules) is None && 0 <= i < rules.len() implies (
        #[trigger] rules[i]).hold.fault() is None by {
            if i > 0 {
                assert(rest[i - 1].hold.fault() is None);
            }
        }
    }
}

proof fn lemma_first_drag_fault(rules: Seq<DragRule>)
    ensures
        first_drag_fault(rules) is None <==> forall|i: int|
            0 <= i < rules.len() ==> (#[trigger] rules[i]).fault() is None,
    decreases rules.len(),
{
    if rules.len() > 0 {
        let rest = rules.drop_first();
        lemma_first_drag_fault(rest);
        assert(forall|i: int| 0 <= i < rest.len() ==> #[trigger] rest[i] == rules[i + 1]);
        assert forall|i: int|
            first_drag_fault(rules) is None && 0 <= i < rules.len() implies (
        #[trigger] rules[i]).fault() is None by {
            if i > 0 {
                assert(rest[i - 1].fault() is None);
            }
        }
    }
}

/// Rules are valid exactly when the thresholds of both tables and of every listed rule
/// are, no explicit table stands beside a list of its kind, and no two swipe or hold
/// rules in force have the same identity. Rules that are not in force count all the
/// same, and so do disabled ones; drag rules may share an identity.
pub proof fn law_valid_rules(config: RecognizerConfig)
    ensures
        ({
            let settings = config.recognition;
            let ids = settings.rule_ids();
            config.fault() is None <==> {
                &&& settings.three_finger_swipe.fault() is None
                &&& settings.three_finger_hold.fault() is None
                &&& !(settings.swipe_table_given && settings.swipes is Some)
                &&& !(settings.hold_table_given && settings.holds is Some)
                &&& settings.swipes matches Some(rules) ==> forall|i: int|
                    0 <= i < rules@.len() ==> (#[trigger] rules@[i]).swipe.fault() is None
                &&& settings.holds matches Some(rules) ==> forall|i: int|
                    0 <= i < rules@.len() ==> (#[trigger] rules@[i]).hold.fault() is None
                &&& forall|i: int|
                    0 <= i < settings.drags@.len() ==> (#[trigger] settings.drags@[i]).fault()
                        is None
                &&& forall|i: int, j: int|
                    0 <= i < j < ids.len() ==> #[trigger] ids[i] != #[trigger] ids[j]
            }
        }),
{
    let settings = config.recognition;
    let ids = settings.rule_ids();
    if settings.swipes is Some {
        lemma_first_swipe_fault(settings.swipes->0@);
    }
    if settings.holds is Some {
        lemma_first_hold_fault(settings.holds->0@);
    }
    lemma_first_drag_fault(settings.drags@);
    if first_repeated(ids, 0) is None {
        lemma_none_repeated(ids, 0);
    } else if forall|i: int, j: int|
        0 <= i < j < ids.len() ==> #[trigger] ids[i] != #[trigger] ids[j] {
        lemma_none_found(ids, 0);
    }
}

proof fn lemma_none_found(ids: Seq<Seq<char>>, at: int)
    requires
        0 <= at,
        forall|k: int| 0 <= k < ids.len() ==> !#[trigger] repeated(ids, k),
    ensures
        first_repeated(ids, at) is None,
    decreases ids.len() - at,
{
    if at < ids.len() {
        lemma_none_found(ids, at + 1);
    }
}

/// The rules in force are those of the list where there is one, and the three-finger
/// table otherwise. The built-in swipe table counts frames only with complete tracking;
/// one that was given explicitly, and either hold table, count them regardless.
pub proof fn law_rules_in_force(settings: RecognitionSettings, i: int)
    ensures
        settings.swipes matches Some(rules) ==> settings.swipe_rules().len() == rules@.len() && (
        0 <= i < rules@.len() ==> settings.swipe_rules()[i].id == rules@[i].id@
            && settings.swipe_rules()[i].swipe == rules@[i].swipe
            && settings.swipe_rules()[i].require_complete_tracking
            == rules@[i].require_complete_tracking),
        settings.swipes is None ==> settings.swipe_rules().len() == 1 && settings.swipe_rules()[0].id
            == "three-finger-swipe"@ && settings.swipe_rules()[0].swipe
            == settings.three_finger_swipe && (settings.swipe_rules()[0].require_complete_tracking
            <==> !settings.swipe_table_given),
        settings.holds matches Some(rules) ==> settings.hold_rules().len() == rules@.len() && (0
            <= i < rules@.len() ==> settings.hold_rules()[i].id == rules@[i].id@
            && settings.hold_rules()[i].hold == rules@[i].hold
            && settings.hold_rules()[i].require_complete_tracking
            == rules@[i].require_complete_tracking),
        settings.holds is None ==> settings.hold_rules().len() == 1 && settings.hold_rules()[0].id
            == "three-finger-hold"@ && settings.hold_rules()[0].hold == settings.three_finger_hold
            && !settings.hold_rules()[0].require_complete_tracking,
        settings.rule_ids().len() == settings.swipe_rules().len() + settings.hold_rules().len(),
        0 <= i < settings.swipe_rules().len() ==> settings.rule_ids()[i]
            == settings.swipe_rules()[i].id,
        0 <= i < settings.hold_rules().len() ==> settings.rule_ids()[settings.swipe_rules().len()
            + i] == settings.hold_rules()[i].id,
{
}

} // verus!

//! Virtual keyboard chords: which keys a chord presses, and how it is tapped so
//! that no key stays down.

use vstd::prelude::*;

use crate::output::{key_event, VirtualEvent};
use crate::text::{append, quote, to_uppercase, trimmed};

verus! {

/// The first code that is no keyboard key.
pub const KEYBOARD_CODE_LIMIT_EXCLUSIVE: u16 = 0x100;

pub const MAX_CHORD_KEYS: usize = 8;

pub const DEFAULT_HOLD_MS: u64 = 50;

pub const MAX_HOLD_MS: u64 = 1000;

/// The parameters of `uinput.key-chord`.
#[derive(Debug, Clone)]
pub struct KeyChordParams {
    pub keys: Vec<String>,
    pub hold_ms: u64,
}

/// Keys to press together, and for how many milliseconds.
#[derive(Debug, Clone, PartialEq, Eq)]
pub struct KeyChord {
    pub keys: Vec<u16>,
    pub hold_ms: u64,
}

/// The code of a key name, where there is a key of that name.
pub uninterp spec fn key_code(name: Seq<char>) -> Option<u16>;

/// Looks a key name up in the table of `evdev::KeyCode`, by its `FromStr`, which
/// compares names exactly. What the table holds is not spelled out.
#[verifier::external_body]
pub(crate) fn named_key(name: &str) -> (code: Option<u16>)
    ensures
        code == key_code(name@),
{
    match name.parse::<evdev::KeyCode>() {
        Ok(key) => Some(key.code()),
        Err(_) => None,
    }
}

/// Why a chord is refused.
#[derive(Debug)]
pub enum ChordError {
    Params,
    NoKeys,
    HoldOutOfRange,
    TooManyKeys,
    EmptyName,
    UnknownKey { name: String },
    NotAKeyboardKey { name: String },
    DuplicateKey { name: String },
}

/// What a [`ChordError`] says.
#[verifier::ext_equal]
pub enum ChordFault {
    Params,
    NoKeys,
    HoldOutOfRange,
    TooManyKeys,
    EmptyName,
    UnknownKey { name: Seq<char> },
    NotAKeyboardKey { name: Seq<char> },
    DuplicateKey { name: Seq<char> },
}

impl View for ChordError {
    type V = ChordFault;

    open spec fn view(&self) -> ChordFault {
        match *self {
            ChordError::Params => ChordFault::Params,
            ChordError::NoKeys => ChordFault::NoKeys,
            ChordError::HoldOutOfRange => ChordFault::HoldOutOfRange,
            ChordError::TooManyKeys => ChordFault::TooManyKeys,
            ChordError::EmptyName => ChordFault::EmptyName,
            ChordError::UnknownKey { name } => ChordFault::UnknownKey { name: name@ },
            ChordError::NotAKeyboardKey { name } => ChordFault::NotAKeyboardKey { name: name@ },
            ChordError::DuplicateKey { name } => ChordFault::DuplicateKey { name: name@ },
        }
    }
}

impl ChordFault {
    pub open spec fn text(self) -> Seq<char> {
        match self {
            ChordFault::Params =>
                "uinput.key-chord expects { keys = [\"KEY_LEFTMETA\", ...], hold_ms? }"@,
            ChordFault::NoKeys => "uinput.key-chord keys must not be empty"@,
            ChordFault::HoldOutOfRange => "uinput.key-chord hold_ms must be between 1 and 1000"@,
            ChordFault::TooManyKeys => "uinput.key-chord supports at most 8 simultaneous keys"@,
            ChordFault::EmptyName => "uinput.key-chord key names must not be empty"@,
            ChordFault::UnknownKey { name } => "unsupported uinput key name "@
                + crate::text::quoted(name) + ": failed to parse Key from string"@,
            ChordFault::NotAKeyboardKey { name } => "uinput.key-chord key "@ + crate::text::quoted(
                name,
            ) + " is not a standard keyboard key"@,
            ChordFault::DuplicateKey { name } => "uinput.key-chord contains duplicate key "@
                + crate::text::quoted(name),
        }
    }
}

impl ChordError {
    pub fn message(&self) -> (text: String)
        ensures
            text@ == self@.text(),
    {
        match self {
            ChordError::Params =>
                "uinput.key-chord expects { keys = [\"KEY_LEFTMETA\", ...], hold_ms? }".to_owned(),
            ChordError::NoKeys => "uinput.key-chord keys must not be empty".to_owned(),
            ChordError::HoldOutOfRange =>
                "uinput.key-chord hold_ms must be between 1 and 1000".to_owned(),
            ChordError::TooManyKeys =>
                "uinput.key-chord supports at most 8 simultaneous keys".to_owned(),
            ChordError::EmptyName => "uinput.key-chord key names must not be empty".to_owned(),
            ChordError::UnknownKey { name } => {
                let mut text = "unsupported uinput key name ".to_owned();
                append(&mut text, quote(name.as_str()).as_str());
                append(&mut text, ": failed to parse Key from string");
                text
            },
            ChordError::NotAKeyboardKey { name } => {
                let mut text = "uinput.key-chord key ".to_owned();
                append(&mut text, quote(name.as_str()).as_str());
                append(&mut text, " is not a standard keyboard key");
                text
            },
            ChordError::DuplicateKey { name } => {
                let mut text = "uinput.key-chord contains duplicate key ".to_owned();
                append(&mut text, quote(name.as_str()).as_str());
                text
            },
        }
    }
}

/// A key name as it is looked up: without white space around it, in capitals.
pub open spec fn normalized(name: Seq<char>) -> Seq<char> {
    crate::text::uppercase(crate::text::trim(name))
}

/// Whether a name can join the keys of a chord, given the code that was found
/// for it; the code, or why not.
pub open spec fn joined(keys: Seq<u16>, name: Seq<char>, code: Option<u16>) -> Result<
    u16,
    ChordFault,
> {
    if name.len() == 0 {
        Err(ChordFault::EmptyName)
    } else {
        match code {
            None => Err(ChordFault::UnknownKey { name }),
            Some(code) => if code == 0 || code >= KEYBOARD_CODE_LIMIT_EXCLUSIVE {
                Err(ChordFault::NotAKeyboardKey { name })
            } else if keys.contains(code) {
                Err(ChordFault::DuplicateKey { name })
            } else {
                Ok(code)
            },
        }
    }
}

/// The codes of the first `count` names, or why one of them cannot join.
pub open spec fn chord_keys(names: Seq<String>, count: int) -> Result<Seq<u16>, ChordFault>
    decreases count,
{
    if count <= 0 {
        Ok(Seq::empty())
    } else {
        match chord_keys(names, count - 1) {
            Err(fault) => Err(fault),
            Ok(keys) => {
                let name = normalized(names[count - 1]@);
                match joined(keys, name, key_code(name)) {
                    Err(fault) => Err(fault),
                    Ok(code) => Ok(keys.push(code)),
                }
            },
        }
    }
}

/// The keys of a chord, or why it is refused.
pub open spec fn chord(params: Option<KeyChordParams>) -> Result<Seq<u16>, ChordFault> {
    match params {
        None => Err(ChordFault::Params),
        Some(params) => if params.keys@.len() == 0 {
            Err(ChordFault::NoKeys)
        } else if params.hold_ms == 0 || params.hold_ms > MAX_HOLD_MS {
            Err(ChordFault::HoldOutOfRange)
        } else if params.keys@.len() > MAX_CHORD_KEYS {
            Err(ChordFault::TooManyKeys)
        } else {
            chord_keys(params.keys@, params.keys@.len() as int)
        },
    }
}

fn holds_key(keys: &Vec<u16>, code: u16) -> (result: bool)
    ensures
        result == keys@.contains(code),
{
    let mut index: usize = 0;
    while index < keys.len()
        invariant
            index <= keys@.len(),
            forall|i: int| 0 <= i < index ==> keys@[i] != code,
        decreases keys@.len() - index,
    {
        if keys[index] == code {
            return true;
        }
        index = index + 1;
    }
    false
}

/// Decides whether a name can join the keys of a chord, given the code that was
/// found for it.
pub fn join_key(keys: &Vec<u16>, name: &str, code: Option<u16>) -> (result: Result<u16, ChordError>)
    ensures
        result is Ok <==> joined(keys@, name@, code) is Ok,
        result matches Ok(code_found) ==> joined(keys@, name@, code) == Ok::<u16, ChordFault>(
            code_found,
        ),
        result matches Err(error) ==> joined(keys@, name@, code) == Err::<u16, ChordFault>(error@),
{
    if name.unicode_len() == 0 {
        return Err(ChordError::EmptyName);
    }
    match code {
        None => Err(ChordError::UnknownKey { name: name.to_owned() }),
        Some(code) => {
            if code == 0 || code >= KEYBOARD_CODE_LIMIT_EXCLUSIVE {
                Err(ChordError::NotAKeyboardKey { name: name.to_owned() })
            } else if holds_key(keys, code) {
                Err(ChordError::DuplicateKey { name: name.to_owned() })
            } else {
                Ok(code)
            }
        },
    }
}

proof fn lemma_chord_stops(names: Seq<String>, at: int, count: int)
    requires
        0 <= at <= count,
        chord_keys(names, at) is Err,
    ensures
        chord_keys(names, count) == chord_keys(names, at),
    decreases count,
{
    if at < count {
        lemma_chord_stops(names, at, count - 1);
    }
}

/// Reads a chord out of its parameters.
pub fn parse_key_chord(params: &Option<KeyChordParams>) -> (result: Result<KeyChord, ChordError>)
    ensures
        result is Ok <==> chord(*params) is Ok,
        result matches Ok(parsed) ==> chord(*params) == Ok::<Seq<u16>, ChordFault>(parsed.keys@)
            && parsed.hold_ms == params->0.hold_ms,
        result matches Err(error) ==> chord(*params) == Err::<Seq<u16>, ChordFault>(error@),
{
    let given = match params {
        Some(given) => given,
        None => {
            return Err(ChordError::Params);
        },
    };
    if given.keys.len() == 0 {
        return Err(ChordError::NoKeys);
    }
    if given.hold_ms == 0 || given.hold_ms > MAX_HOLD_MS {
        return Err(ChordError::HoldOutOfRange);
    }
    if given.keys.len() > MAX_CHORD_KEYS {
        return Err(ChordError::TooManyKeys);
    }
    let mut keys: Vec<u16> = Vec::new();
    let mut index: usize = 0;
    while index < given.keys.len()
        invariant
            index <= given.keys@.len(),
            *params == Some(*given),
            chord(*params) == chord_keys(given.keys@, given.keys@.len() as int),
            chord_keys(given.keys@, index as int) == Ok::<Seq<u16>, ChordFault>(keys@),
        decreases given.keys@.len() - index,
    {
        let name = to_uppercase(trimmed(given.keys[index].as_str()).as_str());
        let code = named_key(name.as_str());
        match join_key(&keys, name.as_str(), code) {
            Ok(code) => {
                keys.push(code);
            },
            Err(error) => {
                proof {
                    lemma_chord_stops(given.keys@, index + 1, given.keys@.len() as int);
                }
                return Err(error);
            },
        }
        index = index + 1;
    }
    Ok(KeyChord { keys, hold_ms: given.hold_ms })
}

proof fn lemma_chord_keys(names: Seq<String>, count: int)
    requires
        0 <= count,
        chord_keys(names, count) is Ok,
    ensures
        chord_keys(names, count)->Ok_0.len() == count,
        forall|i: int| 0 <= i < count ==> 0 < #[trigger] chord_keys(names, count)->Ok_0[i] < 0x100,
        forall|i: int, j: int|
            0 <= i < j < count ==> #[trigger] chord_keys(names, count)->Ok_0[i]
                != #[trigger] chord_keys(names, count)->Ok_0[j],
    decreases count,
{
    if count > 0 {
        lemma_chord_keys(names, count - 1);
        let earlier = chord_keys(names, count - 1)->Ok_0;
        let keys = chord_keys(names, count)->Ok_0;
        assert(keys.drop_last() =~= earlier);
        assert forall|i: int, j: int| 0 <= i < j < count implies #[trigger] keys[i]
            != #[trigger] keys[j] by {
            assert(keys[i] == earlier[i]);
            if j < count - 1 {
                assert(keys[j] == earlier[j]);
            } else {
                assert(earlier.contains(earlier[i]));
            }
        }
    }
}

/// An accepted chord has one to eight keys, all of them keyboard keys and no
/// two the same, and is held for a bounded time.
pub proof fn law_chords_are_bounded(params: Option<KeyChordParams>)
    requires
        chord(params) is Ok,
    ensures
        ({
            let keys = chord(params)->Ok_0;
            &&& 1 <= keys.len() <= 8
            &&& forall|i: int| 0 <= i < keys.len() ==> 0 < #[trigger] keys[i] < 0x100
            &&& forall|i: int, j: int|
                0 <= i < j < keys.len() ==> #[trigger] keys[i] != #[trigger] keys[j]
            &&& 1 <= params->0.hold_ms <= 1000
        }),
{
    lemma_chord_keys(params->0.keys@, params->0.keys@.len() as int);
}

/// One frame per key, in the order of the keys.
pub open spec fn key_frames(keys: Seq<u16>, value: i32) -> Seq<Seq<VirtualEvent>> {
    keys.map_values(|code: u16| seq![crate::output::key(code, value)])
}

/// The events of each of some frames.
pub open spec fn frames(packets: Seq<Vec<VirtualEvent>>) -> Seq<Seq<VirtualEvent>> {
    packets.map_values(|packet: Vec<VirtualEvent>| packet@)
}

/// One frame per key, in the order of the keys.
pub fn key_event_packets(keys: &Vec<u16>, value: i32) -> (packets: Vec<Vec<VirtualEvent>>)
    ensures
        frames(packets@) == key_frames(keys@, value),
{
    let mut packets: Vec<Vec<VirtualEvent>> = Vec::new();
    let mut index: usize = 0;
    while index < keys.len()
        invariant
            index <= keys@.len(),
            packets@.len() == index,
            forall|i: int|
                0 <= i < index ==> (#[trigger] packets@[i])@ == seq![
                    crate::output::key(keys@[i], value),
                ],
        decreases keys@.len() - index,
    {
        let mut packet: Vec<VirtualEvent> = Vec::new();
        packet.push(key_event(keys[index], value));
        assert(packet@ =~= seq![crate::output::key(keys@[index as int], value)]);
        packets.push(packet);
        index = index + 1;
    }
    assert(frames(packets@) =~= key_frames(keys@, value));
    packets
}

fn reversed(keys: &Vec<u16>) -> (result: Vec<u16>)
    ensures
        result@ == keys@.reverse(),
{
    let mut result: Vec<u16> = Vec::new();
    let mut left: usize = keys.len();
    while left > 0
        invariant
            left <= keys@.len(),
            result@.len() == keys@.len() - left,
            forall|i: int| 0 <= i < result@.len() ==> result@[i] == keys@[keys@.len() - 1 - i],
        decreases left,
    {
        left = left - 1;
        result.push(keys[left]);
    }
    assert(result@ =~= keys@.reverse());
    result
}

/// The frames that press keys, in order.
pub fn press_packets(keys: &Vec<u16>) -> (packets: Vec<Vec<VirtualEvent>>)
    ensures
        frames(packets@) == key_frames(keys@, 1),
{
    key_event_packets(keys, 1)
}

/// The frames that release keys, in reverse order.
pub fn release_packets(keys: &Vec<u16>) -> (packets: Vec<Vec<VirtualEvent>>)
    ensures
        frames(packets@) == key_frames(keys@.reverse(), 0),
{
    key_event_packets(&reversed(keys), 0)
}

/// How a tap ended.
#[derive(Debug, Clone, Copy, PartialEq, Eq, Structural)]
pub enum TapOutcome {
    Sent,
    StaleKeysNotReleased,
    NoDevice,
    NotPressed { emergency_failed: bool },
    NotReleased { emergency_failed: bool },
}

/// Where a tap stands.
#[derive(Debug, Clone, Copy, PartialEq, Eq, Structural)]
pub enum TapStage {
    ReleaseStale,
    OpenDevice,
    Press,
    Hold,
    Release,
    EmergencyAfterPress,
    EmergencyAfterRelease,
    Finished(TapOutcome),
}

impl TapStage {
    /// The stage after one whose work succeeded or failed.
    pub open spec fn after(self, succeeded: bool) -> TapStage {
        match self {
            TapStage::ReleaseStale => if succeeded {
                TapStage::OpenDevice
            } else {
                TapStage::Finished(TapOutcome::StaleKeysNotReleased)
            },
            TapStage::OpenDevice => if succeeded {
                TapStage::Press
            } else {
                TapStage::Finished(TapOutcome::NoDevice)
            },
            TapStage::Press => if succeeded {
                TapStage::Hold
            } else {
                TapStage::EmergencyAfterPress
            },
            TapStage::Hold => TapStage::Release,
            TapStage::Release => if succeeded {
                TapStage::Finished(TapOutcome::Sent)
            } else {
                TapStage::EmergencyAfterRelease
            },
            TapStage::EmergencyAfterPress => TapStage::Finished(
                TapOutcome::NotPressed { emergency_failed: !succeeded },
            ),
            TapStage::EmergencyAfterRelease => TapStage::Finished(
                TapOutcome::NotReleased { emergency_failed: !succeeded },
            ),
            TapStage::Finished(outcome) => TapStage::Finished(outcome),
        }
    }

    /// Whether a key of the chord may be down.
    pub open spec fn keys_may_be_down(self) -> bool {
        match self {
            TapStage::Press
            | TapStage::Hold
            | TapStage::Release
            | TapStage::EmergencyAfterPress
            | TapStage::EmergencyAfterRelease => true,
            _ => false,
        }
    }
}

/// What to do at a stage.
#[derive(Debug)]
pub enum TapWork {
    Emit(Vec<Vec<VirtualEvent>>),
    Open,
    Sleep { milliseconds: u64 },
    Nothing,
}

/// What a [`KeyboardTap`] holds.
#[verifier::ext_equal]
pub struct TapView {
    pub keys: Seq<u16>,
    pub hold_ms: u64,
    /// The keys that are taken to be down.
    pub pressed: Seq<u16>,
    pub stage: TapStage,
}

impl TapView {
    /// The frames that the work of the stage emits: those that press the keys, or
    /// those that release what is taken to be down.
    pub open spec fn emitted(self) -> Seq<Seq<VirtualEvent>> {
        match self.stage {
            TapStage::ReleaseStale
            | TapStage::Release
            | TapStage::EmergencyAfterPress
            | TapStage::EmergencyAfterRelease => key_frames(self.pressed.reverse(), 0),
            TapStage::Press => key_frames(self.keys, 1),
            TapStage::OpenDevice | TapStage::Hold | TapStage::Finished(_) => Seq::empty(),
        }
    }

    /// The tap after the work of its stage succeeded or failed.
    pub open spec fn after(self, succeeded: bool) -> TapView {
        let stage = self.stage.after(succeeded);
        TapView {
            stage,
            pressed: if stage.keys_may_be_down() {
                self.keys
            } else {
                Seq::empty()
            },
            ..self
        }
    }
}

/// Taps a chord: releases what an earlier tap may have left down, presses the
/// keys, holds them and releases them, and tries to release them once more
/// where that failed.
#[derive(Debug)]
pub struct KeyboardTap {
    keys: Vec<u16>,
    hold_ms: u64,
    pressed: Vec<u16>,
    stage: TapStage,
}

impl View for KeyboardTap {
    type V = TapView;

    closed spec fn view(&self) -> TapView {
        TapView {
            keys: self.keys@,
            hold_ms: self.hold_ms,
            pressed: self.pressed@,
            stage: self.stage,
        }
    }
}

impl KeyboardTap {
    /// A tap of a chord, where `pressed` are the keys that may still be down.
    pub fn new(chord: KeyChord, pressed: Vec<u16>) -> (tap: KeyboardTap)
        ensures
            tap@ == (TapView {
                keys: chord.keys@,
                hold_ms: chord.hold_ms,
                pressed: pressed@,
                stage: TapStage::ReleaseStale,
            }),
    {
        KeyboardTap {
            keys: chord.keys,
            hold_ms: chord.hold_ms,
            pressed,
            stage: TapStage::ReleaseStale,
        }
    }

    pub fn stage(&self) -> (stage: TapStage)
        ensures
            stage == self@.stage,
    {
        self.stage
    }

    /// What to do now.
    pub fn work(&self) -> (work: TapWork)
        ensures
            match self@.stage {
                TapStage::ReleaseStale
                | TapStage::Release
                | TapStage::EmergencyAfterPress
                | TapStage::EmergencyAfterRelease => work matches TapWork::Emit(packets) && frames(
                    packets@,
                ) == key_frames(self@.pressed.reverse(), 0),
                TapStage::OpenDevice => work is Open,
                TapStage::Press => work matches TapWork::Emit(packets) && frames(packets@)
                    == key_frames(self@.keys, 1),
                TapStage::Hold => work == (TapWork::Sleep { milliseconds: self@.hold_ms }),
                TapStage::Finished(_) => work is Nothing,
            },
            work matches TapWork::Emit(packets) ==> frames(packets@) == self@.emitted(),
    {
        match self.stage {
            TapStage::ReleaseStale
            | TapStage::Release
            | TapStage::EmergencyAfterPress
            | TapStage::EmergencyAfterRelease => TapWork::Emit(release_packets(&self.pressed)),
            TapStage::OpenDevice => TapWork::Open,
            TapStage::Press => TapWork::Emit(press_packets(&self.keys)),
            TapStage::Hold => TapWork::Sleep { milliseconds: self.hold_ms },
            TapStage::Finished(_) => TapWork::Nothing,
        }
    }

    /// Moves on, after the work succeeded or failed.
    pub fn advance(&mut self, succeeded: bool)
        ensures
            final(self)@ == old(self)@.after(succeeded),
    {
        self.stage =
        match self.stage {
            TapStage::ReleaseStale => if succeeded {
                TapStage::OpenDevice
            } else {
                TapStage::Finished(TapOutcome::StaleKeysNotReleased)
            },
            TapStage::OpenDevice => if succeeded {
                TapStage::Press
            } else {
                TapStage::Finished(TapOutcome::NoDevice)
            },
            TapStage::Press => if succeeded {
                TapStage::Hold
            } else {
                TapStage::EmergencyAfterPress
            },
            TapStage::Hold => TapStage::Release,
            TapStage::Release => if succeeded {
                TapStage::Finished(TapOutcome::Sent)
            } else {
                TapStage::EmergencyAfterRelease
            },
            TapStage::EmergencyAfterPress => TapStage::Finished(
                TapOutcome::NotPressed { emergency_failed: !succeeded },
            ),
            TapStage::EmergencyAfterRelease => TapStage::Finished(
                TapOutcome::NotReleased { emergency_failed: !succeeded },
            ),
            TapStage::Finished(outcome) => TapStage::Finished(outcome),
        };
        let down: bool = match self.stage {
            TapStage::Press
            | TapStage::Hold
            | TapStage::Release
            | TapStage::EmergencyAfterPress
            | TapStage::EmergencyAfterRelease => true,
            _ => false,
        };
        if down {
            self.pressed = self.keys.clone();
            assert(self.pressed@ =~= self.keys@);
        } else {
            self.pressed = Vec::new();
        }
    }

    /// The keys that may be down.
    pub fn pressed(&self) -> (pressed: &Vec<u16>)
        ensures
            pressed@ == self@.pressed,
    {
        &self.pressed
    }
}

/// A tap in a given stage after some further steps, whose work succeeded or
/// failed as listed.
pub open spec fn tap_run(tap: TapView, results: Seq<bool>) -> TapView
    decreases results.len(),
{
    if results.len() == 0 {
        tap
    } else {
        tap_run(tap, results.drop_last()).after(results.last())
    }
}

/// A tap ends within six steps, whatever fails, and takes no key to be down
/// when it has ended.
pub proof fn law_taps_end_with_no_key_down(tap: TapView, results: Seq<bool>)
    requires
        tap.stage is ReleaseStale,
        results.len() == 6,
    ensures
        tap_run(tap, results).stage is Finished,
        tap_run(tap, results).pressed.len() == 0,
{
    reveal_with_fuel(tap_run, 7);
}

/// Whenever a key of the chord may be down, all of them are taken to be.
pub proof fn law_keys_that_may_be_down_are_known(tap: TapView, results: Seq<bool>)
    requires
        tap.stage is ReleaseStale,
    ensures
        tap_run(tap, results).keys == tap.keys,
        tap_run(tap, results).stage.keys_may_be_down() ==> tap_run(tap, results).pressed
            == tap.keys,
    decreases results.len(),
{
    if results.len() > 0 {
        law_keys_that_may_be_down_are_known(tap, results.drop_last());
    }
}

/// From a stage in which a key may be down, a tap ends only with a release: the
/// last work before the end is to release every key that is taken to be down.
pub proof fn law_pressed_keys_are_released_before_the_end(tap: TapView, succeeded: bool)
    requires
        tap.stage.keys_may_be_down(),
        tap.after(succeeded).stage is Finished,
    ensures
        tap.stage is Release || tap.stage is EmergencyAfterPress || tap.stage is EmergencyAfterRelease,
{
}

/// The release frames are the press frames the other way round.
pub proof fn law_releases_mirror_presses(keys: Seq<u16>, at: int)
    requires
        0 <= at < keys.len(),
    ensures
        key_frames(keys.reverse(), 0).len() == key_frames(keys, 1).len(),
        key_frames(keys, 1)[at] == seq![crate::output::key(keys[at], 1)],
        key_frames(keys.reverse(), 0)[keys.len() - 1 - at] == seq![
            crate::output::key(keys[at], 0),
        ],
{
}

impl TapOutcome {
    /// What is said of a tap; `cause` is the error of the device that could not
    /// be opened, or of the emergency release that failed.
    pub open spec fn text(self, cause: Seq<char>) -> Seq<char> {
        match self {
            TapOutcome::Sent => "virtual keyboard sent key chord"@,
            TapOutcome::StaleKeysNotReleased => "failed to clear stale virtual keyboard state"@,
            TapOutcome::NoDevice => cause,
            TapOutcome::NotPressed { emergency_failed } => if emergency_failed {
                "failed to press virtual key chord; emergency release also failed: "@ + cause
            } else {
                "failed to press virtual key chord; emergency release was attempted"@
            },
            TapOutcome::NotReleased { emergency_failed } => if emergency_failed {
                "failed to release virtual key chord; emergency release also failed: "@ + cause
            } else {
                "failed to release virtual key chord; emergency release was attempted"@
            },
        }
    }

    pub fn message(&self, cause: &str) -> (text: String)
        ensures
            text@ == self.text(cause@),
    {
        match self {
            TapOutcome::Sent => "virtual keyboard sent key chord".to_owned(),
            TapOutcome::StaleKeysNotReleased =>
                "failed to clear stale virtual keyboard state".to_owned(),
            TapOutcome::NoDevice => cause.to_owned(),
            TapOutcome::NotPressed { emergency_failed } => if *emergency_failed {
                let mut text =
                    "failed to press virtual key chord; emergency release also failed: ".to_owned();
                append(&mut text, cause);
                text
            } else {
                "failed to press virtual key chord; emergency release was attempted".to_owned()
            },
            TapOutcome::NotReleased { emergency_failed } => if *emergency_failed {
                let mut text =
                    "failed to release virtual key chord; emergency release also failed: ".to_owned();
                append(&mut text, cause);
                text
            } else {
                "failed to release virtual key chord; emergency release was attempted".to_owned()
            },
        }
    }
}

proof fn lemma_named_keys(names: Seq<String>, count: int)
    requires
        0 <= count <= names.len(),
    ensures
        chord_keys(names, count) matches Ok(keys) ==> keys.len() == count && forall|i: int|
            0 <= i < count ==> key_code(looked_up((#[trigger] names[i])@)) == Some(keys[i]),
        chord_keys(names, count) is Ok <==> {
            &&& forall|i: int|
                0 <= i < count ==> is_keyboard_key((#[trigger] names[i])@)
            &&& forall|i: int, j: int|
                0 <= i < j < count ==> key_code(looked_up((#[trigger] names[i])@)) != key_code(
                    looked_up((#[trigger] names[j])@),
                )
        },
    decreases count,
{
    if count > 0 {
        lemma_named_keys(names, count - 1);
        let last = names[count - 1]@;
        assert(looked_up(last) == normalized(last));
        if chord_keys(names, count - 1) is Ok {
            let keys = chord_keys(names, count - 1)->Ok_0;
            let code = key_code(looked_up(last));
            if chord_keys(names, count) is Ok {
                assert forall|i: int, j: int| 0 <= i < j < count implies key_code(
                    looked_up((#[trigger] names[i])@),
                ) != key_code(looked_up((#[trigger] names[j])@)) by {
                    if j == count - 1 {
                        assert(keys.contains(keys[i]));
                    }
                }
            } else if is_keyboard_key(last) {
                assert(keys.contains(code->0));
                let i = choose|i: int| 0 <= i < keys.len() && keys[i] == code->0;
                assert(key_code(looked_up(names[i]@)) == key_code(looked_up(names[count - 1]@)));
            }
        } else {
            if forall|i: int| 0 <= i < count - 1 ==> is_keyboard_key((#[trigger] names[i])@) {
                let (i, j) = choose|i: int, j: int|
                    0 <= i < j < count - 1 && key_code(looked_up((#[trigger] names[i])@))
                        == key_code(looked_up((#[trigger] names[j])@));
                assert(key_code(looked_up(names[i]@)) == key_code(looked_up(names[j]@)));
            }
        }
    }
}

/// A key name as it is looked up: in capitals, without white space at its ends.
pub open spec fn looked_up(name: Seq<char>) -> Seq<char> {
    crate::text::uppercase(crate::text::trim(name))
}

/// Whether a name is that of a keyboard key: it is not blank, there is a key of that
/// name, and its code is neither zero nor that of a button.
pub open spec fn is_keyboard_key(name: Seq<char>) -> bool {
    &&& looked_up(name).len() > 0
    &&& key_code(looked_up(name)) matches Some(code) && 0 < code < 0x100
}

/// Parameters give a chord exactly when they name one to eight keyboard keys, no two of
/// them the same, and a time of one to a thousand milliseconds. The chord has the key of
/// each name, in their order.
pub proof fn law_chords(params: KeyChordParams)
    ensures
        chord(Some(params)) is Ok <==> {
            &&& 1 <= params.keys@.len() <= 8
            &&& 1 <= params.hold_ms <= 1000
            &&& forall|i: int|
                0 <= i < params.keys@.len() ==> is_keyboard_key((#[trigger] params.keys@[i])@)
            &&& forall|i: int, j: int|
                0 <= i < j < params.keys@.len() ==> key_code(
                    looked_up((#[trigger] params.keys@[i])@),
                ) != key_code(looked_up((#[trigger] params.keys@[j])@))
        },
        chord(Some(params)) matches Ok(keys) ==> keys.len() == params.keys@.len() && forall|i: int|
            0 <= i < keys.len() ==> key_code(looked_up((#[trigger] params.keys@[i])@)) == Some(
                keys[i],
            ),
        chord(None) is Err,
{
    lemma_named_keys(params.keys@, params.keys@.len() as int);
}

/// A tap that meets no failure goes through its stages in order: it releases what may be
/// down, opens the device, presses, holds, releases, and has sent its chord.
pub proof fn law_taps_go_through_their_stages(tap: TapView)
    requires
        tap.stage is ReleaseStale,
    ensures
        tap.after(true).stage is OpenDevice,
        tap.after(true).after(true).stage is Press,
        tap.after(true).after(true).after(true).stage is Hold,
        tap.after(true).after(true).after(true).after(true).stage is Release,
        tap.after(true).after(true).after(true).after(true).after(true).stage
            == TapStage::Finished(TapOutcome::Sent),
        tap.after(true).after(true).after(true).after(true).after(true).keys == tap.keys,
        tap.after(true).after(true).after(true).after(true).after(true).hold_ms == tap.hold_ms,
{
}

/// A tap that fails ends at once where no key can be down yet, and otherwise with one
/// attempt to release the keys; how it ends says what failed.
pub proof fn law_failed_taps(tap: TapView, succeeded: bool)
    ensures
        tap.stage is ReleaseStale ==> tap.after(false).stage == TapStage::Finished(
            TapOutcome::StaleKeysNotReleased,
        ),
        tap.stage is OpenDevice ==> tap.after(false).stage == TapStage::Finished(
            TapOutcome::NoDevice,
        ),
        tap.stage is Press ==> tap.after(false).after(succeeded).stage == TapStage::Finished(
            TapOutcome::NotPressed { emergency_failed: !succeeded },
        ),
        tap.stage is Release ==> tap.after(false).after(succeeded).stage == TapStage::Finished(
            TapOutcome::NotReleased { emergency_failed: !succeeded },
        ),
        tap.stage is Press || tap.stage is Release ==> tap.after(false).emitted() == key_frames(
            tap.keys.reverse(),
            0,
        ),
{
}

} // verus!

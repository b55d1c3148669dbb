//! Compositor-independent input automation: touch frames, gesture recognition,
//! event matching and virtual input, with machine-checked contracts.

pub mod actions;
pub mod client;
pub mod codes;
pub mod conditions;
pub mod config;
pub mod device;
pub mod dispatch;
pub mod drag_stream;
pub mod engine;
pub mod event;
pub mod history;
pub mod ids;
pub mod json;
pub mod key_chord;
pub mod metric;
pub mod number_text;
pub mod output;
pub mod passthrough;
pub mod physical;
pub mod plans;
pub mod pointer_drag;
pub mod provider;
pub mod proxy;
pub mod raw_event;
pub mod recognizer;
pub mod recognizer_config;
pub mod router;
pub mod security;
pub mod segments;
pub mod sessions;
pub mod slots;
pub mod synthesizer;
pub mod text;
pub mod text_map;
pub mod touch_frame;
pub mod trigger;
pub mod virtual_device;
pub mod virtual_input;

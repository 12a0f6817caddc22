//! A multi-stage countdown timer: an ordered list of named stages that a
//! one-second tick advances one after the other, with a pause switch, the
//! duration grammar its command line accepts, and the decisions of the loop
//! that drives it.

pub mod control;
pub mod display;
pub mod duration;
pub mod error;
pub mod timer;

pub use control::{classify_key, handle_event, Directive, InputAction, Key, KeyPress, LoopEvent, Modifiers};
pub use display::{format_seconds, row_layout, stage_style, stage_title, StageStyle};
pub use duration::parse_duration;
pub use error::SetupError;
pub use timer::{create_timer_list, pair_stages, update_state, fresh_stage, Timer, TimerStage, TimerView};

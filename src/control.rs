use vstd::prelude::*;

use crate::timer::Timer;

verus! {

/// The key of an input event, as far as the loop tells keys apart.
#[derive(Clone, Copy, Debug, PartialEq, Eq, Structural)]
pub enum Key {
    Esc,
    Char(char),
    Other,
}

/// The modifier keys held with a key.
#[derive(Clone, Copy, Debug, PartialEq, Eq, Structural)]
pub enum Modifiers {
    /// No modifier.
    Plain,
    /// Control and nothing else.
    ControlOnly,
    /// Any other combination.
    Mixed,
}

/// One key press.
#[derive(Clone, Copy, Debug, PartialEq, Eq, Structural)]
pub struct KeyPress {
    pub key: Key,
    pub modifiers: Modifiers,
}

/// What a key press asks of the loop.
#[derive(Clone, Copy, Debug, PartialEq, Eq, Structural)]
pub enum InputAction {
    Quit,
    TogglePause,
    Ignored,
}

/// Escape with any modifiers, or control-c, quits; the space bar alone
/// toggles the pause; every other press is ignored.
pub open spec fn action_of(press: KeyPress) -> InputAction {
    if press.key == Key::Esc || (press.key == Key::Char('c') && press.modifiers == Modifiers::ControlOnly) {
        InputAction::Quit
    } else if press.key == Key::Char(' ') && press.modifiers == Modifiers::Plain {
        InputAction::TogglePause
    } else {
        InputAction::Ignored
    }
}

pub fn classify_key(press: KeyPress) -> (r: InputAction)
    ensures
        r == action_of(press),
{
    let quit = match press.key {
        Key::Esc => true,
        Key::Char(c) => c == 'c' && press.modifiers == Modifiers::ControlOnly,
        Key::Other => false,
    };
    if quit {
        return InputAction::Quit;
    }
    match (press.key, press.modifiers) {
        (Key::Char(' '), Modifiers::Plain) => InputAction::TogglePause,
        _ => InputAction::Ignored,
    }
}

/// What reaches the loop in one step: a second has passed, or a key was
/// pressed.
#[derive(Clone, Copy, Debug, PartialEq, Eq, Structural)]
pub enum LoopEvent {
    Tick,
    Input(InputAction),
}

/// What the loop does after an event: draw a new frame, and whether to end.
/// When both are set, the frame is drawn first.
#[derive(Clone, Copy, Debug, PartialEq, Eq, Structural)]
pub struct Directive {
    pub render: bool,
    pub stop: bool,
}

/// Applies one event to the timer. A tick advances it and is always drawn;
/// the loop ends once the timer is complete. Quit ends the loop at once,
/// without a frame; a pause toggle is drawn; anything else does nothing.
pub fn handle_event(timer: &mut Timer, event: LoopEvent) -> (r: Directive)
    requires
        old(timer).wf(),
    ensures
        final(timer).wf(),
        event == LoopEvent::Tick ==> {
            &&& final(timer)@ == old(timer)@.next()
            &&& r == (Directive { render: true, stop: !old(timer)@.next_reports() })
        },
        event == LoopEvent::Input(InputAction::Quit) ==> {
            &&& final(timer)@ == old(timer)@
            &&& r == (Directive { render: false, stop: true })
        },
        event == LoopEvent::Input(InputAction::TogglePause) ==> {
            &&& final(timer)@ == old(timer)@.toggled()
            &&& r == (Directive { render: true, stop: false })
        },
        event == LoopEvent::Input(InputAction::Ignored) ==> {
            &&& final(timer)@ == old(timer)@
            &&& r == (Directive { render: false, stop: false })
        },
{
    match event {
        LoopEvent::Tick => {
            let running = timer.advance();
            Directive { render: true, stop: !running }
        },
        LoopEvent::Input(InputAction::Quit) => Directive { render: false, stop: true },
        LoopEvent::Input(InputAction::TogglePause) => {
            timer.toggle_pause();
            Directive { render: true, stop: false }
        },
        LoopEvent::Input(InputAction::Ignored) => Directive { render: false, stop: false },
    }
}

} // verus!

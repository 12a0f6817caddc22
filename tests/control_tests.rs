use staged_timer::{
    classify_key, handle_event, Directive, InputAction, Key, KeyPress, LoopEvent, Modifiers, Timer,
};

fn timer(list: &[(&str, u32)]) -> Timer {
    let e: Vec<(String, u32)> = list.iter().map(|(n, t)| (n.to_string(), *t)).collect();
    Timer::new(&e).unwrap()
}

fn press(key: Key, modifiers: Modifiers) -> KeyPress {
    KeyPress { key, modifiers }
}

#[test]
fn escape_quits_with_any_modifiers() {
    assert_eq!(classify_key(press(Key::Esc, Modifiers::Plain)), InputAction::Quit);
    assert_eq!(classify_key(press(Key::Esc, Modifiers::Mixed)), InputAction::Quit);
}

#[test]
fn control_c_quits() {
    assert_eq!(classify_key(press(Key::Char('c'), Modifiers::ControlOnly)), InputAction::Quit);
    assert_eq!(classify_key(press(Key::Char('c'), Modifiers::Plain)), InputAction::Ignored);
    assert_eq!(classify_key(press(Key::Char('c'), Modifiers::Mixed)), InputAction::Ignored);
}

#[test]
fn plain_space_toggles_pause() {
    assert_eq!(classify_key(press(Key::Char(' '), Modifiers::Plain)), InputAction::TogglePause);
    assert_eq!(classify_key(press(Key::Char(' '), Modifiers::ControlOnly)), InputAction::Ignored);
}

#[test]
fn other_keys_are_ignored() {
    assert_eq!(classify_key(press(Key::Char('q'), Modifiers::Plain)), InputAction::Ignored);
    assert_eq!(classify_key(press(Key::Other, Modifiers::ControlOnly)), InputAction::Ignored);
}

#[test]
fn tick_advances_and_draws() {
    let mut t = timer(&[("A", 2)]);
    let d = handle_event(&mut t, LoopEvent::Tick);
    assert_eq!(d, Directive { render: true, stop: false });
    assert_eq!(t.stages[0].elapsed_s, 1);
    let d = handle_event(&mut t, LoopEvent::Tick);
    assert_eq!(d, Directive { render: true, stop: true });
    assert_eq!(t.current_index, 1);
}

#[test]
fn quit_stops_without_drawing() {
    let mut t = timer(&[("A", 2)]);
    let d = handle_event(&mut t, LoopEvent::Input(InputAction::Quit));
    assert_eq!(d, Directive { render: false, stop: true });
    assert_eq!(t.stages[0].elapsed_s, 0);
    assert!(!t.paused);
}

#[test]
fn toggle_draws_and_pauses() {
    let mut t = timer(&[("A", 2)]);
    let d = handle_event(&mut t, LoopEvent::Input(InputAction::TogglePause));
    assert_eq!(d, Directive { render: true, stop: false });
    assert!(t.paused);
    let d = handle_event(&mut t, LoopEvent::Tick);
    assert_eq!(d, Directive { render: true, stop: false });
    assert_eq!(t.stages[0].elapsed_s, 0);
}

#[test]
fn ignored_input_does_nothing() {
    let mut t = timer(&[("A", 2)]);
    let d = handle_event(&mut t, LoopEvent::Input(InputAction::Ignored));
    assert_eq!(d, Directive { render: false, stop: false });
    assert!(!t.paused);
    assert_eq!(t.current_index, 0);
}

#[test]
fn scenario_through_the_loop() {
    let mut t = timer(&[("A", 3), ("B", 2)]);
    let mut ticks = 0;
    loop {
        ticks += 1;
        if handle_event(&mut t, LoopEvent::Tick).stop {
            break;
        }
        if ticks == 3 {
            assert_eq!(t.current_index, 1);
        }
    }
    assert_eq!(ticks, 5);
    assert_eq!(t.current_index, 2);
}

use staged_timer::{create_timer_list, pair_stages, update_state, SetupError, Timer};

fn entries(list: &[(&str, u32)]) -> Vec<(String, u32)> {
    list.iter().map(|(n, t)| (n.to_string(), *t)).collect()
}

fn timer(list: &[(&str, u32)]) -> Timer {
    Timer::new(&entries(list)).unwrap()
}

#[test]
fn new_timer_starts_at_first_stage() {
    let t = timer(&[("A", 3), ("B", 2)]);
    assert_eq!(t.current_index, 0);
    assert!(!t.paused);
    assert_eq!(t.stages.len(), 2);
    assert_eq!(t.stages[0].name, "A");
    assert_eq!(t.stages[1].duration_s, 2);
    assert_eq!(t.stages[0].elapsed_s, 0);
}

#[test]
fn zero_duration_is_rejected() {
    let r = Timer::new(&entries(&[("A", 3), ("B", 0), ("C", 0)]));
    assert!(matches!(r, Err(SetupError::InvalidDuration { index: 1 })));
}

#[test]
fn create_timer_list_keeps_order() {
    let list = create_timer_list(&entries(&[("wash", 30), ("fix", 0)]));
    assert_eq!(list.len(), 2);
    assert_eq!(list[0].name, "wash");
    assert_eq!(list[0].duration_s, 30);
    assert_eq!(list[1].name, "fix");
    assert_eq!(list[1].elapsed_s, 0);
}

#[test]
fn pair_stages_pairs_by_position() {
    let names = vec!["a".to_string(), "b".to_string()];
    let r = pair_stages(&names, &[5, 7]).unwrap();
    assert_eq!(r, vec![("a".to_string(), 5), ("b".to_string(), 7)]);
}

#[test]
fn pair_stages_rejects_count_mismatch() {
    let names = vec!["a".to_string(), "b".to_string()];
    assert_eq!(pair_stages(&names, &[5]), Err(SetupError::CountMismatch { names: 2, times: 1 }));
}

#[test]
fn stage_takes_its_duration_in_ticks() {
    let mut t = timer(&[("A", 4), ("B", 2)]);
    for _ in 0..3 {
        assert!(t.advance());
        assert_eq!(t.current_index, 0);
    }
    assert!(t.advance());
    assert_eq!(t.stages[0].elapsed_s, 4);
    assert_eq!(t.current_index, 1);
    assert_eq!(t.stages[1].elapsed_s, 0);
}

#[test]
fn even_toggles_restore_state() {
    let mut t = timer(&[("A", 3)]);
    t.advance();
    for _ in 0..4 {
        t.toggle_pause();
    }
    assert!(!t.paused);
    assert_eq!(t.stages[0].elapsed_s, 1);
    assert_eq!(t.current_index, 0);
    t.toggle_pause();
    assert!(t.paused);
}

#[test]
fn false_once_complete_and_nothing_changes() {
    let mut t = timer(&[("A", 1)]);
    assert!(!t.advance());
    assert_eq!(t.current_index, 1);
    for _ in 0..3 {
        assert!(!t.advance());
        assert_eq!(t.current_index, 1);
        assert_eq!(t.stages[0].elapsed_s, 1);
    }
    t.toggle_pause();
    assert!(!t.advance());
    assert_eq!(t.stages[0].elapsed_s, 1);
}

#[test]
fn completion_ratio_rises_from_zero_to_one() {
    let mut t = timer(&[("A", 4)]);
    let ratio = |t: &Timer| t.stages[0].elapsed_s as f64 / t.stages[0].duration_s as f64;
    assert_eq!(ratio(&t), 0.0);
    let mut last = ratio(&t);
    for _ in 0..4 {
        t.advance();
        assert!(ratio(&t) >= last);
        last = ratio(&t);
    }
    assert_eq!(ratio(&t), 1.0);
}

#[test]
fn two_stage_scenario() {
    let mut t = timer(&[("A", 3), ("B", 2)]);
    for _ in 0..3 {
        assert!(update_state(&mut t));
    }
    assert_eq!(t.current_index, 1);
    assert_eq!(t.stages[0].elapsed_s, 3);
    assert!(update_state(&mut t));
    assert!(!update_state(&mut t));
    assert_eq!(t.current_index, 2);
    assert_eq!(t.stages[1].elapsed_s, 2);
    assert!(!update_state(&mut t));
    assert_eq!(t.stages[1].elapsed_s, 2);
}

#[test]
fn paused_ticks_do_not_count() {
    let mut t = timer(&[("A", 10)]);
    t.toggle_pause();
    for _ in 0..5 {
        assert!(t.advance());
    }
    assert_eq!(t.stages[0].elapsed_s, 0);
    t.toggle_pause();
    assert!(t.advance());
    assert_eq!(t.stages[0].elapsed_s, 1);
}

#[test]
fn remaining_counts_down() {
    let mut t = timer(&[("A", 5)]);
    t.advance();
    t.advance();
    assert_eq!(t.stages[0].remaining_s(), 3);
}

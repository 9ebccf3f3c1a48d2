use poe_screenshot::monitor::choose_actual_monitor;

#[test]
fn takes_a_preference_within_bounds() {
    assert_eq!(choose_actual_monitor(Some(0), 1), 0);
    assert_eq!(choose_actual_monitor(Some(1), 2), 1);
    assert_eq!(choose_actual_monitor(Some(2), 3), 2);
    assert_eq!(choose_actual_monitor(Some(0), 3), 0);
}

#[test]
fn falls_back_when_the_monitor_is_gone() {
    assert_eq!(choose_actual_monitor(Some(1), 1), 0);
    assert_eq!(choose_actual_monitor(Some(2), 2), 0);
    assert_eq!(choose_actual_monitor(Some(7), 2), 0);
    assert_eq!(choose_actual_monitor(Some(usize::MAX), usize::MAX), 0);
    assert_eq!(choose_actual_monitor(Some(usize::MAX - 1), usize::MAX), usize::MAX - 1);
}

#[test]
fn takes_the_first_without_a_preference() {
    assert_eq!(choose_actual_monitor(None, 1), 0);
    assert_eq!(choose_actual_monitor(None, 4), 0);
}

#[test]
fn one_monitor_is_always_the_choice() {
    assert_eq!(choose_actual_monitor(None, 1), 0);
    assert_eq!(choose_actual_monitor(Some(0), 1), 0);
    assert_eq!(choose_actual_monitor(Some(1), 1), 0);
    assert_eq!(choose_actual_monitor(Some(usize::MAX), 1), 0);
}

#[test]
fn stays_within_bounds() {
    for count in 1..6usize {
        for preferred in 0..8usize {
            let index = choose_actual_monitor(Some(preferred), count);
            assert!(index < count);
            assert_eq!(index, if preferred < count { preferred } else { 0 });
        }
    }
}

use pendulum_raster::{recurrence_color, RecurrenceSearch, MIN_RETURN_STEP};

fn run(budget: u32, within: impl Fn(u32) -> bool) -> ((u8, u8, u8), u32) {
    let mut search = RecurrenceSearch::new(budget);
    let mut steps = 0u32;
    while !search.is_done() {
        search.observe(within(steps));
        steps += 1;
    }
    (search.color(), steps)
}

#[test]
fn palette_values() {
    assert_eq!(recurrence_color(0), (0, 0, 255));
    assert_eq!(recurrence_color(6), (48, 54, 231));
    assert_eq!(recurrence_color(40), (64, 104, 95));
    assert_eq!(recurrence_color(100), (32, 132, 111));
    assert_eq!(recurrence_color(254), (240, 238, 7));
}

#[test]
fn resting_pendulum_returns_right_after_the_guard() {
    let (color, steps) = run(255, |_| true);
    assert_eq!(steps, MIN_RETURN_STEP + 2);
    assert_eq!(color, recurrence_color(6));
    assert_eq!(color, (48, 54, 231));
}

#[test]
fn first_return_after_guard_wins() {
    let (color, steps) = run(255, |i| i == 3 || i == 9 || i == 20);
    assert_eq!(steps, 10);
    assert_eq!(color, (72, 81, 219));
}

#[test]
fn no_return_gives_black_within_budget() {
    let (color, steps) = run(255, |_| false);
    assert_eq!(steps, 255);
    assert_eq!(color, (0, 0, 0));
}

#[test]
fn zero_budget_is_done_at_once() {
    let search = RecurrenceSearch::new(0);
    assert!(search.is_done());
    assert_eq!(search.color(), (0, 0, 0));
}

#[test]
fn return_at_last_step_counts() {
    let (color, steps) = run(8, |i| i == 7);
    assert_eq!(steps, 8);
    assert_eq!(color, recurrence_color(7));
}

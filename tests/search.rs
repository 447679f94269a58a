use ternary_search::bracket::Narrow;
use ternary_search::search::{choose_narrowing, Search};

fn quartic(x: f64) -> f64 {
    let xx = x * x;
    let xxx = xx * x;
    let xxxx = xxx * x;
    1.0 + 4.0 * x + 6.0 * xx + 4.0 * xxx + xxxx
}

fn square(x: f64) -> f64 {
    x * x
}

fn constant(_x: f64) -> f64 {
    7.0
}

/// Runs the search with `Search` making every decision; returns the
/// minimizer, its value, the iteration count and each bracket visited.
fn run(
    func: fn(f64) -> f64,
    left: f64,
    right: f64,
    eps: f64,
    max_iterations: i32,
) -> (f64, f64, i32, Vec<(f64, f64)>) {
    let mut search = Search::new(max_iterations);
    let mut left = left;
    let mut right = right;
    let mut brackets = vec![(left, right)];
    while search.should_continue(right - left > eps) {
        let ml = left * 2.0 / 3.0 + right / 3.0;
        let mr = left / 3.0 + right * 2.0 / 3.0;
        match search.advance(func(ml) < func(mr)) {
            Narrow::DropRight => right = mr,
            Narrow::DropLeft => left = ml,
        }
        brackets.push((left, right));
    }
    let r = left / 2.0 + right / 2.0;
    (r, func(r), search.iterations(), brackets)
}

#[test]
fn strict_lower_left_point_drops_right_third() {
    assert_eq!(choose_narrowing(true), Narrow::DropRight);
}

#[test]
fn tie_drops_left_third() {
    assert_eq!(choose_narrowing(false), Narrow::DropLeft);
}

#[test]
fn new_search_has_no_iterations() {
    let s = Search::new(1000);
    assert_eq!(s.iterations(), 0);
    assert_eq!(s.max_iterations(), 1000);
    assert!(s.should_continue(true));
    assert!(!s.should_continue(false));
}

#[test]
fn zero_cap_stops_at_once() {
    let s = Search::new(0);
    assert!(!s.should_continue(true));
    assert_eq!(s.iterations(), 0);
}

#[test]
fn negative_cap_stops_at_once() {
    let s = Search::new(-3);
    assert!(!s.should_continue(true));
    assert_eq!(s.iterations(), 0);
}

#[test]
fn cap_reached_after_max_iterations() {
    let mut s = Search::new(3);
    assert_eq!(s.advance(true), Narrow::DropRight);
    assert_eq!(s.advance(false), Narrow::DropLeft);
    assert!(s.should_continue(true));
    assert_eq!(s.advance(false), Narrow::DropLeft);
    assert_eq!(s.iterations(), 3);
    assert!(!s.should_continue(true));
}

#[test]
fn quartic_minimum_found() {
    let (at, value, iterations, _) = run(quartic, -2.0, 2.0, 1e-15, 1000);
    assert!((at + 1.0).abs() < 1e-6, "argmin {}", at);
    assert!(value.abs() < 1e-6, "value {}", value);
    assert!(iterations < 1000, "iterations {}", iterations);
}

#[test]
fn quartic_scenario_terminates_early() {
    let (at, value, iterations, brackets) = run(quartic, -2.0, 2.0, 1e-15, 1000);
    assert!(iterations < 1000);
    assert!(iterations > 80, "iterations {}", iterations);
    let (l, r) = brackets[brackets.len() - 1];
    assert!(r - l <= 1e-15);
    assert!((at + 1.0).abs() < 1e-6);
    assert!(value.abs() < 1e-6);
}

#[test]
fn width_shrinks_by_two_thirds() {
    for func in [quartic as fn(f64) -> f64, square, constant] {
        let (_, _, iterations, brackets) = run(func, -2.0, 2.0, 1e-9, 1000);
        assert_eq!(brackets.len() as i32, iterations + 1);
        for (k, (l, r)) in brackets.iter().enumerate() {
            let expected = 4.0 * (2.0f64 / 3.0).powi(k as i32);
            // Each end point is rounded to the float spacing near 2.0 at worst.
            assert!(((r - l) - expected).abs() <= 1e-12 * expected + 1e-14, "k {}", k);
        }
    }
}

#[test]
fn width_never_grows() {
    let (_, _, _, brackets) = run(quartic, -2.0, 2.0, 1e-15, 1000);
    for pair in brackets.windows(2) {
        let (l0, r0) = pair[0];
        let (l1, r1) = pair[1];
        assert!(r1 - l1 <= r0 - l0);
        assert!(l0 <= l1 && r1 <= r0);
    }
}

#[test]
fn zero_iterations_gives_midpoint() {
    let (at, value, iterations, _) = run(quartic, -2.0, 2.0, 1e-15, 0);
    assert_eq!(iterations, 0);
    assert_eq!(at, 0.0);
    assert_eq!(value, 1.0);
    let (at, _, iterations, _) = run(square, 1.0, 4.0, 1e-15, 0);
    assert_eq!(iterations, 0);
    assert_eq!(at, 2.5);
}

#[test]
fn iterations_capped() {
    let (_, _, iterations, _) = run(quartic, -2.0, 2.0, 1e-15, 10);
    assert_eq!(iterations, 10);
}

#[test]
fn search_again_near_minimizer_agrees() {
    let (first, _, _, _) = run(square, -2.0, 2.0, 1e-15, 1000);
    let delta = 1e-3;
    let (second, _, _, _) = run(square, first - delta, first + delta, 1e-15, 1000);
    assert!((second - first).abs() < 1e-6);
    assert!(second.abs() < 1e-6);
}

#[test]
fn constant_function_shrinks_from_left() {
    let (_, value, _, brackets) = run(constant, -2.0, 2.0, 1e-6, 1000);
    assert_eq!(value, 7.0);
    for pair in brackets.windows(2) {
        let (l0, r0) = pair[0];
        let (l1, r1) = pair[1];
        assert_eq!(r1, r0);
        assert_eq!(r1, 2.0);
        assert!(l1 > l0);
    }
    let mut s = Search::new(5);
    while s.should_continue(true) {
        assert_eq!(s.advance(7.0f64 < 7.0f64), Narrow::DropLeft);
    }
    assert_eq!(s.iterations(), 5);
}

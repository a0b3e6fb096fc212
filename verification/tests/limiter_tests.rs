use prompt_pipeline::rate::RateLimiter;

const SECOND: u64 = 1_000_000_000;

#[test]
fn a_full_budget_fits_at_once() {
    let mut lim = RateLimiter::new(60, 60 * SECOND);
    assert!(lim.try_consume(0, 60));
}

#[test]
fn an_exhausted_budget_refuses_more() {
    let mut lim = RateLimiter::new(60, 60 * SECOND);
    assert!(lim.try_consume(0, 60));
    assert!(!lim.try_consume(0, 1));
    // refusal changes nothing: the same consume keeps failing at the same
    // instant
    assert!(!lim.try_consume(0, 1));
}

#[test]
fn replenishment_admits_exactly_what_elapsed() {
    // 60 units per 60 s replenish one unit per second
    let mut lim = RateLimiter::new(60, 60 * SECOND);
    assert!(lim.try_consume(0, 60));
    // after one second exactly one unit has come back
    assert!(!lim.try_consume(SECOND, 2));
    assert!(lim.try_consume(SECOND, 1));
    // and it is spent again
    assert!(!lim.try_consume(SECOND, 1));
}

#[test]
fn a_cost_above_capacity_never_succeeds() {
    let mut lim = RateLimiter::new(4, 60 * SECOND);
    assert!(!lim.try_consume(0, 5));
    assert!(!lim.try_consume(600 * SECOND, 5));
    // smaller costs still pass
    assert!(lim.try_consume(600 * SECOND, 4));
}

#[test]
fn repeated_weighted_consumes_respect_the_budget() {
    // a batch weighted at 8 against 60 per minute: seven batches exhaust
    // the budget, the eighth must wait
    let mut lim = RateLimiter::new(60, 60 * SECOND);
    for _ in 0..7 {
        assert!(lim.try_consume(0, 8));
    }
    assert!(!lim.try_consume(0, 8));
    // three seconds replenish three units: with the four spare that is
    // still short of a cost of 8
    assert!(!lim.try_consume(3 * SECOND, 8));
    // the fourth second closes the gap exactly
    assert!(lim.try_consume(4 * SECOND, 8));
}

#[test]
fn a_backwards_clock_is_read_as_no_time_passing() {
    let mut lim = RateLimiter::new(2, 60 * SECOND);
    assert!(lim.try_consume(10 * SECOND, 2));
    assert!(!lim.try_consume(0, 1));
}

#[test]
fn check_and_consume_mirrors_try_consume() {
    let mut lim = RateLimiter::new(1, SECOND);
    assert!(lim.check_and_consume(0, 1).is_ok());
    assert!(lim.check_and_consume(0, 1).is_err());
    assert!(lim.check_and_consume(SECOND, 1).is_ok());
}

#[test]
fn a_drained_budget_admits_a_fresh_burst() {
    // continuous replenishment means an interval can see more than one
    // budget in total: half the budget spent at once, then a full budget
    // once enough has drained — never more than the budget outstanding at
    // any single instant
    let mut lim = RateLimiter::new(60, 60 * SECOND);
    assert!(lim.try_consume(0, 30));
    assert!(!lim.try_consume(29 * SECOND, 60));
    assert!(lim.try_consume(30 * SECOND, 60));
}

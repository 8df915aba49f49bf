use rustic::progress::{dispatch_more, flush_requested, Accumulation, TickOutcome};

#[test]
fn tick_publishes_average_and_denoises() {
    let mut acc = Accumulation::new(0);
    assert!(!acc.begin_tick(false));
    acc.add_samples(3);
    let out = acc.finish_tick(false, true);
    assert_eq!(out, TickOutcome { publish: true, divisor: 3, denoise: true });
    assert_eq!(acc.samples(), 3);
}

#[test]
fn flush_clears_accumulator_before_the_new_samples() {
    let mut acc = Accumulation::new(5);
    acc.add_samples(1);
    // the configuration changes: the next tick flushes first
    assert!(acc.begin_tick(true));
    assert_eq!(acc.samples(), 0);
    acc.add_samples(1);
    let out = acc.finish_tick(true, true);
    // the frame holds only the one sample drawn after the flush
    assert_eq!(out, TickOutcome { publish: true, divisor: 1, denoise: false });
    assert!(!acc.begin_tick(false));
    acc.add_samples(2);
    let next = acc.finish_tick(false, false);
    assert_eq!(next, TickOutcome { publish: true, divisor: 3, denoise: false });
}

#[test]
fn empty_accumulator_is_not_published() {
    let mut acc = Accumulation::new(4);
    acc.begin_tick(true);
    let out = acc.finish_tick(true, true);
    assert_eq!(out, TickOutcome { publish: false, divisor: 0, denoise: false });
}

#[test]
fn flush_follows_interaction_or_edit() {
    assert!(flush_requested(true, false));
    assert!(flush_requested(false, true));
    assert!(!flush_requested(false, false));
}

#[test]
fn batch_length_and_early_stop() {
    assert!(dispatch_more(0, 32, false));
    assert!(dispatch_more(31, 32, false));
    assert!(!dispatch_more(32, 32, false));
    assert!(dispatch_more(0, 32, true));
    assert!(!dispatch_more(1, 32, true));
    assert!(!dispatch_more(0, 0, false));
}

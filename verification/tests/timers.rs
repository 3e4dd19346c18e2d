use msm_wgpu::utils::{time_begin, time_end, Timers};

#[test]
fn a_stopwatch_runs_from_begin_to_end() {
    let mut timers = Timers::new();
    assert!(!timers.is_running("split"));
    time_begin(&mut timers, "split", 1000);
    assert!(timers.is_running("split"));
    assert_eq!(time_end(&mut timers, "split", 1250), 250);
    assert!(!timers.is_running("split"));
}

#[test]
fn stopwatches_run_side_by_side() {
    let mut timers = Timers::new();
    time_begin(&mut timers, "bucketing (cpu)", 10);
    time_begin(&mut timers, "summing (cpu)", 30);
    time_begin(&mut timers, "ffi", 35);
    assert_eq!(time_end(&mut timers, "summing (cpu)", 100), 70);
    assert!(timers.is_running("bucketing (cpu)"));
    assert!(timers.is_running("ffi"));
    assert_eq!(time_end(&mut timers, "bucketing (cpu)", 100), 90);
    assert_eq!(time_end(&mut timers, "ffi", 36), 1);
}

#[test]
fn a_label_can_be_started_again_once_it_was_stopped() {
    let mut timers = Timers::new();
    time_begin(&mut timers, "split", 5);
    assert_eq!(time_end(&mut timers, "split", 5), 0);
    time_begin(&mut timers, "split", 7);
    assert_eq!(time_end(&mut timers, "split", 20), 13);
}

#[test]
fn a_clock_that_went_back_counts_as_no_time() {
    let mut timers = Timers::new();
    time_begin(&mut timers, "split", 50);
    assert_eq!(time_end(&mut timers, "split", 40), 0);
}

use simple_electronics::resources::{
    FrameRates, Tick, TickProgress, FPS_DEFAULT, FPS_WINDOW,
};

#[test]
fn the_frame_counter_counts() {
    let mut tick = Tick::default();
    assert_eq!(tick, Tick(0));
    tick.incr();
    tick.incr();
    assert_eq!(tick.0, 2);
}

#[test]
fn the_window_starts_at_the_default_rate() {
    assert_eq!(FPS_WINDOW, 256);
    assert_eq!(FPS_DEFAULT, 60);
    let rates = FrameRates::new();
    assert_eq!(rates.tick_frames(), 60);
    assert_eq!(rates.progress(Tick(0)), Some(TickProgress { elapsed: 0, period: 60 }));
    assert_eq!(rates.progress(Tick(59)), Some(TickProgress { elapsed: 59, period: 60 }));
    assert_eq!(rates.progress(Tick(60)), Some(TickProgress { elapsed: 0, period: 60 }));
    assert_eq!(rates.progress(Tick(125)), Some(TickProgress { elapsed: 5, period: 60 }));
}

#[test]
fn the_interval_is_the_average_rounded_down() {
    let mut rates = FrameRates::new();
    rates.record(Tick(0), 61);
    // 255 * 60 + 61 = 15361, and 15361 / 256 = 60
    assert_eq!(rates.tick_frames(), 60);
    for i in 0..128 {
        rates.record(Tick(i), 120);
    }
    // 128 * 120 + 128 * 60 = 23040, and 23040 / 256 = 90
    assert_eq!(rates.tick_frames(), 90);
    for i in 0..256 {
        rates.record(Tick(i), 144);
    }
    assert_eq!(rates.tick_frames(), 144);
}

#[test]
fn a_sample_replaces_the_one_a_window_earlier() {
    let mut rates = FrameRates::new();
    rates.record(Tick(3), 60 + 256);
    assert_eq!(rates.tick_frames(), 61);
    rates.record(Tick(3 + 256), 60);
    assert_eq!(rates.tick_frames(), 60);
    rates.record(Tick(3 + 512), 60 + 512);
    assert_eq!(rates.tick_frames(), 62);
}

#[test]
fn the_largest_rates_do_not_overflow() {
    let mut rates = FrameRates::new();
    for i in 0..256 {
        rates.record(Tick(i), u32::MAX);
    }
    assert_eq!(rates.tick_frames(), u32::MAX as usize);
}

#[test]
fn no_interval_below_one_frame_a_second() {
    let mut rates = FrameRates::new();
    for i in 0..256 {
        rates.record(Tick(i), 0);
    }
    assert_eq!(rates.tick_frames(), 0);
    assert_eq!(rates.progress(Tick(7)), None);
    rates.record(Tick(0), 255);
    assert_eq!(rates.progress(Tick(7)), None);
    rates.record(Tick(0), 256);
    assert_eq!(rates.progress(Tick(7)), Some(TickProgress { elapsed: 0, period: 1 }));
}

#[test]
fn progress_is_a_proper_fraction() {
    let rates = FrameRates::new();
    for frame in 0..300 {
        let p = rates.progress(Tick(frame)).unwrap();
        assert!(p.elapsed < p.period);
        assert_eq!(p.is_tick(), frame % 60 == 0);
    }
}

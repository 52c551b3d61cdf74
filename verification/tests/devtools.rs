//! Measuring a scroll, and capturing the window.

use porpoise::devtools::{
    percentiles, ready_to_capture, CaptureEnd, FrameTiming, Millis, ScreenshotRequest,
    Screenshotter, ScrollBenchmark, WARMUP_FRAMES,
};

fn millis(value: f32) -> Millis {
    Millis {
        bits: value.to_bits(),
    }
}

fn value(millis: Millis) -> f32 {
    f32::from_bits(millis.bits)
}

fn timing(frame_ms: f32) -> FrameTiming {
    FrameTiming {
        ui_ms: millis(1.0),
        logic_ms: millis(0.5),
        frame_ms: millis(frame_ms),
    }
}

#[test]
fn warmup_frames_are_discarded_rather_than_measured() {
    let mut benchmark = ScrollBenchmark::new(10);

    for _ in 0..WARMUP_FRAMES {
        benchmark.record(timing(150.0));
    }
    assert_eq!(
        benchmark.measured_frames(),
        0,
        "warmup frames leaked into the samples"
    );
    assert!(!benchmark.is_finished(), "warmup consumed the frame budget");

    benchmark.record(timing(16.0));
    assert_eq!(benchmark.measured_frames(), 1);

    assert_eq!(value(benchmark.warmup_worst()), 150.0);
}

#[test]
fn the_benchmark_finishes_after_the_requested_frame_count() {
    let mut benchmark = ScrollBenchmark::new(3);
    for _ in 0..WARMUP_FRAMES {
        benchmark.record(timing(16.0));
    }
    for _ in 0..3 {
        assert!(!benchmark.is_finished());
        benchmark.record(timing(16.0));
    }
    assert!(benchmark.is_finished());
    assert_eq!(benchmark.measured_frames(), 3);
}

#[test]
fn percentiles_of_no_samples_is_none() {
    assert!(percentiles(&[]).is_none());
}

#[test]
fn percentiles_report_real_samples_not_interpolated_ones() {
    let samples: Vec<Millis> = (0..100u8).map(|sample| millis(f32::from(sample))).collect();
    let spread = percentiles(&samples).expect("100 samples");

    assert_eq!(value(spread.p50), 50.0);
    assert_eq!(value(spread.p95), 94.0);
    assert_eq!(value(spread.p99), 98.0);
    assert_eq!(value(spread.max), 99.0);
}

#[test]
fn percentiles_of_one_sample_are_all_that_sample() {
    let spread = percentiles(&[millis(7.5)]).expect("one sample");
    assert_eq!(value(spread.p50), 7.5);
    assert_eq!(value(spread.p99), 7.5);
    assert_eq!(value(spread.max), 7.5);
}

#[test]
fn a_nan_sample_does_not_corrupt_the_ordering() {
    let spread = percentiles(&[16.0, f32::NAN, 1.0, 8.0].map(millis)).expect("four samples");
    assert!(
        value(spread.p50).is_finite(),
        "a single NaN poisoned the median: {}",
        value(spread.p50)
    );
    assert!(value(spread.max).is_nan());
}

#[test]
fn samples_are_ordered_as_numbers_are() {
    let ranks: Vec<u32> = [f32::NEG_INFINITY, -2.0, -0.0, 0.0, 1.5, 3.0, f32::INFINITY, f32::NAN]
        .map(|sample| millis(sample).rank())
        .to_vec();
    for pair in ranks.windows(2) {
        assert!(pair[0] < pair[1], "{ranks:?}");
    }
    assert!(millis(f32::NAN).is_nan());
    assert!(!millis(f32::INFINITY).is_nan());
    assert_eq!(value(Millis::zero()), 0.0);
}

#[test]
fn a_warmup_frame_that_is_no_number_is_not_the_worst() {
    let mut benchmark = ScrollBenchmark::new(1);
    benchmark.record(timing(f32::NAN));
    benchmark.record(timing(20.0));
    benchmark.record(timing(10.0));
    assert_eq!(value(benchmark.warmup_worst()), 20.0);
}

#[test]
fn what_was_measured_is_what_was_recorded() {
    let mut benchmark = ScrollBenchmark::new(2);
    for _ in 0..WARMUP_FRAMES {
        benchmark.record(timing(1.0));
    }
    benchmark.record(timing(16.0));
    benchmark.record(timing(17.0));
    let frames: Vec<f32> = benchmark.measured().iter().map(|frame| value(frame.frame_ms)).collect();
    assert_eq!(frames, [16.0, 17.0]);
}

fn screenshot() -> Screenshotter {
    Screenshotter::new(ScreenshotRequest {
        path: String::from("window.png"),
        warmup_frames: 3,
        budget_frames: 10,
        exit_when_done: true,
    })
}

#[test]
fn a_picture_is_asked_for_once_the_pages_are_there() {
    let mut capture = screenshot();
    assert_eq!(capture.request().path, "window.png");
    assert!(!capture.drive(2, true, false).ask, "asked before the warmup was over");
    assert!(!capture.drive(3, false, false).ask, "asked with pages still missing");
    assert!(capture.drive(4, true, false).ask);
    assert!(!capture.drive(5, true, false).ask, "asked twice");
    let last = capture.drive(6, true, true);
    assert!(!last.ask);
    assert!(matches!(last.end, Some(CaptureEnd::Write)));
}

#[test]
fn a_picture_that_never_comes_is_given_up_on() {
    let mut capture = screenshot();
    assert!(capture.drive(10, true, false).end.is_none());
    let Some(CaptureEnd::GaveUp { message }) = capture.drive(11, true, false).end else {
        panic!("kept waiting");
    };
    assert_eq!(message, "no screenshot arrived within 10 frames");
}

#[test]
fn an_empty_window_is_ready_at_once() {
    assert!(ready_to_capture(false, true, false));
    assert!(!ready_to_capture(true, true, false));
    assert!(ready_to_capture(true, true, true));
    assert!(!ready_to_capture(true, false, true));
}

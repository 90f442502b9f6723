use hl_capture::profiler::{Profiler, ProfilerError};

#[test]
fn profiler_without_laps_has_no_data() {
    let profiler = Profiler::new();
    assert_eq!(profiler.get_data().err(), Some(ProfilerError::NoData));
}

#[test]
fn profiler_stop_without_section_fails() {
    let mut profiler = Profiler::new();
    assert_eq!(profiler.stop(false), Err(ProfilerError::NoSectionRunning));
}

#[test]
fn profiler_counts_laps_and_orders_sections() {
    let mut profiler = Profiler::new();
    for _ in 0..3 {
        profiler.start_section("read");
        profiler.start_section("encode");
        assert_eq!(profiler.stop(false), Ok(()));
    }
    assert!(profiler.check_lap_counters());
    assert_eq!(profiler.lap_count(), 3);
    let data = profiler.get_data().unwrap();
    assert_eq!(data.lap_count, 3);
    let names: Vec<&str> = data.average_section_times_us.iter().map(|(n, _)| n.as_str()).collect();
    assert_eq!(names, vec!["read", "encode"]);
}

#[test]
fn profiler_cancelled_runs_are_discarded() {
    let mut profiler = Profiler::new();
    profiler.start_section("a");
    assert_eq!(profiler.stop(true), Ok(()));
    assert_eq!(profiler.get_data().err(), Some(ProfilerError::NoData));
    profiler.start_section("a");
    assert_eq!(profiler.stop(false), Ok(()));
    assert_eq!(profiler.get_data().unwrap().lap_count, 1);
}

#[test]
fn profiler_lap_counters_detect_skipped_section() {
    let mut profiler = Profiler::new();
    profiler.start_section("a");
    profiler.start_section("b");
    profiler.stop(false).unwrap();
    profiler.start_section("a");
    profiler.stop(false).unwrap();
    assert!(!profiler.check_lap_counters());
}

fn busy_wait_micros(micros: u64) {
    let start = std::time::Instant::now();
    while start.elapsed().as_micros() < u128::from(micros) {}
}

#[test]
fn profiler_averages_measure_the_sections() {
    let mut profiler = Profiler::new();
    for _ in 0..2 {
        profiler.start_section("slow");
        busy_wait_micros(3000);
        profiler.start_section("fast");
        profiler.stop(false).unwrap();
    }
    let data = profiler.get_data().unwrap();
    assert_eq!(data.lap_count, 2);
    let slow = data.average_section_times_us[0].1;
    let fast = data.average_section_times_us[1].1;
    assert!(slow >= 3000);
    assert!(data.average_lap_time_us >= slow + fast);
}

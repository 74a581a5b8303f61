use solar_series::assembler::{
    load_q_and_dt_for_period, split_series, AssembleError, Deadline, RequestWindow,
    SeriesAssembler, NANOS_PER_DAY, NANOS_PER_SECOND,
};
use solar_series::sample::Sample;
use solar_series::time::Timestamp;

// 2022-09-28T00:00:00 on the civil timeline.
const DAY: i64 = 19_263;
const START: i64 = DAY * 86_400;

const HOUR: u64 = 3_600 * NANOS_PER_SECOND;

fn window(start: Timestamp, span_days: u32, fraction_nanos: u64) -> RequestWindow {
    RequestWindow::new(start, span_days, fraction_nanos).unwrap()
}

fn record(secs: i64, nanos: u32, value: f64) -> Sample {
    Sample::new(Timestamp::new(secs, nanos), value.to_bits())
}

fn every_second(from: i64, to_inclusive: i64) -> Vec<Sample> {
    (from..=to_inclusive).map(|s| record(s, 0, 0.001 * (s - from) as f64 + 0.5)).collect()
}

#[test]
fn half_a_day_is_cut_at_noon() {
    // A span of 0.5 days: no whole day and twelve hours.
    let window = window(Timestamp::new(START, 0), 0, 12 * HOUR);
    let records = every_second(START + 8 * 3_600, START + 16 * 3_600);
    let (times, values) = load_q_and_dt_for_period(&window, &vec![records.clone()]).unwrap();
    assert_eq!(times.len(), values.len());
    assert_eq!(times.len(), 28_800 + 14_401);
    assert_eq!(times[0], Timestamp::new(START, 0));
    assert_eq!(*times.last().unwrap(), Timestamp::new(START + 12 * 3_600, 0));
    let noon = Timestamp::new(START + 12 * 3_600, 0);
    for t in &times {
        assert!(Timestamp::new(START, 0).is_le(t));
        assert!(t.is_le(&noon));
    }
    for k in 0..28_800 {
        assert_eq!(f64::from_bits(values[k]), 0.0);
    }
    for k in 0..14_401 {
        assert_eq!(times[28_800 + k], records[k].timestamp);
        assert_eq!(values[28_800 + k], records[k].irradiance_bits);
    }
}

#[test]
fn two_days_are_joined_whole() {
    let window = window(Timestamp::new(START, 0), 2, 0);
    let first = every_second(START + 6 * 3_600, START + 18 * 3_600);
    let second: Vec<Sample> = Vec::new();
    let third = every_second(START + 2 * 86_400, START + 2 * 86_400 + 10);
    let days = vec![first.clone(), second, third];
    let (times, values) = load_q_and_dt_for_period(&window, &days).unwrap();
    // Day one: 21600 leading, 43201 records, 21600 trailing through midnight.
    // Day two: empty, 86400 placeholders. The third set is not looked at.
    let day_one = 21_600 + 43_201 + 21_600;
    assert_eq!(times.len(), day_one + 86_400);
    assert_eq!(values.len(), times.len());
    assert_eq!(times[0], Timestamp::new(START, 0));
    assert_eq!(times[day_one - 1], Timestamp::new(START + 86_400, 0));
    assert_eq!(times[day_one], Timestamp::new(START + 86_400, 0));
    assert_eq!(*times.last().unwrap(), Timestamp::new(START + 2 * 86_400 - 1, 0));
    for k in 0..43_201 {
        assert_eq!(values[21_600 + k], first[k].irradiance_bits);
    }
    for w in times.windows(2) {
        assert!(w[0].is_le(&w[1]));
    }
}

#[test]
fn the_assembler_asks_for_one_day_after_the_other() {
    let window = window(Timestamp::new(START + 3_600, 0), 2, 0);
    assert_eq!(window.max_days(), 2);
    let mut assembler = SeriesAssembler::new(window).unwrap();
    assert!(!assembler.is_finished());
    assert_eq!(assembler.days_absorbed(), 0);
    assert_eq!(assembler.pending_day(), Some(DAY));
    assembler = assembler.absorb(&Vec::new());
    assert_eq!(assembler.days_absorbed(), 1);
    assert_eq!(assembler.series().len(), 86_400);
    assert_eq!(assembler.pending_day(), Some(DAY + 1));
    assembler = assembler.absorb(&Vec::new());
    assert!(assembler.is_finished());
    assert_eq!(assembler.pending_day(), None);
    assert_eq!(assembler.days_absorbed(), 2);
    // A complete series takes nothing more.
    assembler = assembler.absorb(&every_second(START + 2 * 86_400, START + 2 * 86_400 + 5));
    assert_eq!(assembler.days_absorbed(), 2);
    let series = assembler.into_series();
    assert_eq!(series.len(), 2 * 86_400);
    // The deadline is counted from the first sample, which is the midnight
    // of the first day, not from the start of the window.
    assert_eq!(series[0].timestamp, Timestamp::new(START, 0));
}

#[test]
fn a_span_of_zero_still_visits_one_day() {
    let window = window(Timestamp::new(START, 0), 0, 0);
    assert_eq!(window.max_days(), 1);
    let mut assembler = SeriesAssembler::new(window).unwrap();
    assert_eq!(assembler.pending_day(), Some(DAY));
    assembler = assembler.absorb(&Vec::new());
    assert!(assembler.is_finished());
    assert_eq!(assembler.days_absorbed(), 1);
    // Nothing but the first sample is within a span of zero.
    let series = assembler.into_series();
    assert_eq!(series, vec![Sample::synthetic(Timestamp::new(START, 0))]);
}

#[test]
fn a_fraction_of_a_day_is_kept_to_the_second() {
    // A span of 0.03125 days is three quarters of an hour.
    let window = window(Timestamp::new(START, 0), 0, 2_700 * NANOS_PER_SECOND);
    assert_eq!(window.max_days(), 1);
    let (times, values) = load_q_and_dt_for_period(&window, &vec![Vec::new()]).unwrap();
    assert_eq!(times.len(), 2_701);
    assert_eq!(values.len(), 2_701);
    assert_eq!(times[0], Timestamp::new(START, 0));
    assert_eq!(*times.last().unwrap(), Timestamp::new(START + 45 * 60, 0));
    assert!(values.iter().all(|bits| f64::from_bits(*bits) == 0.0));
}

#[test]
fn a_fraction_below_a_second_keeps_what_lies_within_it() {
    let window = window(Timestamp::new(START, 0), 0, 400_000_000);
    assert_eq!(window.max_days(), 1);
    let records = vec![record(START, 300_000_000, 1.0), record(START, 800_000_000, 2.0)];
    let (times, _) = load_q_and_dt_for_period(&window, &vec![records]).unwrap();
    // The deadline is 00:00:00.7, four tenths of a second after the first.
    assert_eq!(times, vec![Timestamp::new(START, 300_000_000)]);
    let window = RequestWindow::new(Timestamp::new(START, 0), 0, 500_000_000).unwrap();
    let records = vec![record(START, 300_000_000, 1.0), record(START, 800_000_000, 2.0)];
    let (times, _) = load_q_and_dt_for_period(&window, &vec![records]).unwrap();
    assert_eq!(times, vec![Timestamp::new(START, 300_000_000), Timestamp::new(START, 800_000_000)]);
}

#[test]
fn the_days_visited_follow_from_the_span() {
    let start = Timestamp::new(START, 0);
    assert_eq!(window(start, 0, 0).max_days(), 1);
    assert_eq!(window(start, 0, 1).max_days(), 1);
    assert_eq!(window(start, 1, 0).max_days(), 1);
    assert_eq!(window(start, 1, 1).max_days(), 2);
    assert_eq!(window(start, 1, 12 * HOUR).max_days(), 2);
    assert_eq!(window(start, 7, NANOS_PER_DAY - 1).max_days(), 8);
    assert_eq!(window(start, u32::MAX, 1).max_days(), 4_294_967_296);
}

#[test]
fn a_fraction_of_a_day_or_more_is_refused() {
    let start = Timestamp::new(START, 0);
    assert_eq!(RequestWindow::new(start, 0, NANOS_PER_DAY), None);
    assert_eq!(RequestWindow::new(start, 3, u64::MAX), None);
    assert!(RequestWindow::new(start, 0, NANOS_PER_DAY - 1).is_some());
    let forged = RequestWindow { start, span_days: 1, fraction_nanos: NANOS_PER_DAY };
    assert!(!forged.is_wf());
    assert!(matches!(SeriesAssembler::new(forged), Err(AssembleError::InvalidSpan)));
    let r = load_q_and_dt_for_period(&forged, &vec![Vec::new(), Vec::new()]);
    assert_eq!(r, Err(AssembleError::InvalidSpan));
}

#[test]
fn a_day_and_a_half_ends_on_the_second_day() {
    let window = window(Timestamp::new(START, 0), 1, 12 * HOUR);
    assert_eq!(window.max_days(), 2);
    let mut assembler = SeriesAssembler::new(window).unwrap();
    assembler = assembler.absorb(&Vec::new());
    assert!(!assembler.is_finished());
    assembler = assembler.absorb(&Vec::new());
    assert!(assembler.is_finished());
    let series = assembler.into_series();
    assert_eq!(series.len(), 86_400 + 43_201);
    assert_eq!(series.last().unwrap().timestamp, Timestamp::new(START + 86_400 + 43_200, 0));
}

#[test]
fn the_deadline_is_the_span_after_the_first_sample() {
    let window = window(Timestamp::new(START, 0), 1, 2 * HOUR);
    let first = Timestamp::new(START, 250);
    let deadline = Deadline::compute(first, &window);
    assert_eq!(deadline.secs, (START + 86_400 + 7_200) as i128);
    assert_eq!(deadline.nanos, 250);
    // Nanoseconds that make up a second are carried over.
    let late = Timestamp::new(START, 999_999_999);
    let carried = Deadline::compute(late, &RequestWindow::new(late, 0, 1_500_000_002).unwrap());
    assert_eq!(carried, Deadline { secs: (START + 2) as i128, nanos: 500_000_001 });
    assert!(deadline.is_admitted(&Timestamp::new(START + 93_600, 250)));
    assert!(!deadline.is_admitted(&Timestamp::new(START + 93_600, 251)));
    assert!(deadline.is_admitted(&Timestamp::new(START + 93_599, 999_999_999)));
    assert!(!deadline.is_admitted(&Timestamp::new(START + 93_601, 0)));
}

#[test]
fn a_first_record_in_the_first_second_moves_the_deadline() {
    let window = window(Timestamp::new(START, 0), 0, HOUR);
    let records = vec![record(START, 500_000_000, 1.0), record(START + 3_600, 600_000_000, 2.0)];
    let (times, values) = load_q_and_dt_for_period(&window, &vec![records]).unwrap();
    // No leading placeholder; the record at 01:00:00.6 is past 01:00:00.5;
    // the placeholders from 01:00:01 on are past it as well.
    assert_eq!(times, vec![Timestamp::new(START, 500_000_000)]);
    assert_eq!(f64::from_bits(values[0]), 1.0);
}

#[test]
fn records_of_a_later_day_end_the_series_early() {
    let window = window(Timestamp::new(START, 0), 3, 0);
    // The first day holds a record that was taken four days later.
    let stray = record(START + 4 * 86_400 + 7, 0, 9.0);
    let mut assembler = SeriesAssembler::new(window).unwrap();
    assembler = assembler.absorb(&vec![record(START + 7, 0, 1.0), stray]);
    assert!(assembler.is_finished());
    assert_eq!(assembler.days_absorbed(), 1);
    for s in assembler.series() {
        assert!(s.timestamp.is_le(&Timestamp::new(START + 7 + 3 * 86_400, 0)));
        assert!(*s != stray);
    }
}

#[test]
fn too_few_days_are_reported() {
    let window = window(Timestamp::new(START, 0), 2, 0);
    let r = load_q_and_dt_for_period(&window, &vec![Vec::new()]);
    assert_eq!(r, Err(AssembleError::MissingDay(DAY + 1)));
    let r = load_q_and_dt_for_period(&window, &Vec::new());
    assert_eq!(r, Err(AssembleError::MissingDay(DAY)));
}

#[test]
fn a_window_beyond_the_range_is_refused() {
    let late = window(Timestamp::new(i64::MAX, 0), 1, 0);
    assert!(matches!(SeriesAssembler::new(late), Err(AssembleError::OutOfRange)));
    let r = load_q_and_dt_for_period(&late, &vec![Vec::new()]);
    assert_eq!(r, Err(AssembleError::OutOfRange));
    let early = window(Timestamp::new(i64::MIN, 0), 1, 0);
    assert!(matches!(SeriesAssembler::new(early), Err(AssembleError::OutOfRange)));
    // The last day that fits, and a span that runs over it.
    let last_day_start = 106_751_991_167_299i64 * 86_400;
    let fitting = window(Timestamp::new(last_day_start, 0), 1, 0);
    assert!(SeriesAssembler::new(fitting).is_ok());
    let running_over = window(Timestamp::new(last_day_start, 0), 1, 1);
    assert!(matches!(SeriesAssembler::new(running_over), Err(AssembleError::OutOfRange)));
}

#[test]
fn a_series_splits_into_times_and_values() {
    let series = vec![record(1, 2, 0.5), record(3, 4, -1.5)];
    let (times, values) = split_series(&series);
    assert_eq!(times, vec![Timestamp::new(1, 2), Timestamp::new(3, 4)]);
    assert_eq!(values, vec![0.5f64.to_bits(), (-1.5f64).to_bits()]);
    let (times, values) = split_series(&Vec::new());
    assert!(times.is_empty() && values.is_empty());
}

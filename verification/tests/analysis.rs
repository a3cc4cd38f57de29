use amp_core::calendar::{is_timestamp_in_range, TIMESTAMP_LIMIT};
use amp_core::correlation::{last_peak, CorrelationAnalyzer};
use amp_core::decimal::DecimalNumber;
use amp_core::error::AMPError;
use amp_core::grouping::{seen_before, time_ordered_group};
use amp_core::models::{CleaningEvent, CleaningSchedule, GpsCoordinate};
use chrono::Utc;

const HOUR: i64 = 3_600;
const DAY: i64 = 86_400;
/// Monday, the first of January 2024, at midnight.
const MONDAY: i64 = 1_704_067_200;

fn hours(count: f64) -> i64 {
    (count * 3600.0) as i64
}

fn confidence(ppm: u32) -> f64 {
    ppm as f64 / 1_000_000.0
}

fn frequency_hours(schedule: &CleaningSchedule) -> f64 {
    schedule.frequency_ms as f64 / 3_600_000.0
}

fn event(address: &str, coordinate: GpsCoordinate, timestamp: i64, is_active: bool) -> CleaningEvent {
    CleaningEvent { address: address.to_string(), coordinate, timestamp, is_active }
}

fn somewhere() -> GpsCoordinate {
    GpsCoordinate::new("55.6050", "13.0038").unwrap()
}

fn schedule_of<'a>(schedules: &'a [CleaningSchedule], address: &str) -> Option<&'a CleaningSchedule> {
    schedules.iter().find(|schedule| schedule.address == address)
}

fn message_of(error: AMPError) -> String {
    match error {
        AMPError::CorrelationFailed(message) => message,
        other => panic!("another error: {:?}", other),
    }
}

#[test]
fn test_confidence_calculation() {
    let analyzer = CorrelationAnalyzer::new(750_000);

    // Perfect pattern (same interval)
    let perfect = vec![hours(168.0), hours(168.0), hours(168.0)];
    let confidence_perfect = confidence(analyzer.calculate_confidence(&perfect, hours(168.0) * 1000));
    assert!(confidence_perfect > 0.95);

    // Noisy pattern
    let noisy = vec![hours(168.0), hours(100.0), hours(200.0)];
    let confidence_noisy = confidence(analyzer.calculate_confidence(&noisy, hours(168.0) * 1000));
    assert!(confidence_noisy < confidence_perfect);
}

#[test]
fn test_end_to_end_analysis() {
    // Create sample events
    let mut events = Vec::new();
    let coord = GpsCoordinate::new("55.6050", "13.0038").unwrap();
    let base_time = Utc::now().timestamp();

    for i in 0..5 {
        events.push(CleaningEvent {
            address: "Nygatan 5, Malmö".to_string(),
            coordinate: coord,
            timestamp: base_time + 7 * i as i64 * DAY,
            is_active: true,
        });
    }

    // Analyze
    let analyzer = CorrelationAnalyzer::new(750_000);
    let schedules = analyzer.analyze(events).unwrap();

    // Verify
    assert!(schedule_of(&schedules, "Nygatan 5, Malmö").is_some());
    let schedule = schedule_of(&schedules, "Nygatan 5, Malmö").unwrap();
    assert!(confidence(schedule.confidence_ppm) > 0.95);
    assert!((frequency_hours(schedule) - 168.0).abs() < 1.0);
}

#[test]
fn test_correlation_analysis() {
    let coord = GpsCoordinate::new("55.6050", "13.0038").unwrap();
    let base_time = Utc::now().timestamp();

    let mut events = Vec::new();
    for i in 0..5 {
        events.push(CleaningEvent {
            address: "Test Street".to_string(),
            coordinate: coord,
            timestamp: base_time + 7 * i * DAY,
            is_active: true,
        });
    }

    let analyzer = CorrelationAnalyzer::new(750_000);
    let schedules = analyzer.analyze(events).unwrap();

    assert!(schedule_of(&schedules, "Test Street").is_some());
    let schedule = schedule_of(&schedules, "Test Street").unwrap();
    assert!(confidence(schedule.confidence_ppm) > 0.5);
}

#[test]
fn equal_intervals_are_their_own_dominant_interval() {
    let analyzer = CorrelationAnalyzer::new(0);
    let intervals = vec![hours(168.0), hours(168.0), hours(168.0)];
    let dominant = analyzer.find_dominant_interval(&intervals).unwrap();
    assert_eq!(dominant, 604_800_000);
    assert_eq!(analyzer.calculate_confidence(&intervals, dominant), 1_000_000);
}

#[test]
fn noise_lowers_the_confidence() {
    let analyzer = CorrelationAnalyzer::new(0);
    let steady = analyzer.calculate_confidence(&[hours(168.0), hours(168.0), hours(168.0)], 604_800_000);
    let noisy = analyzer.calculate_confidence(&[hours(168.0), hours(100.0), hours(200.0)], 604_800_000);
    assert_eq!(steady, 1_000_000);
    assert_eq!(noisy, 751_801);
    assert!(noisy < steady);
}

#[test]
fn the_dominant_interval_is_the_centre_of_the_fullest_bin() {
    let analyzer = CorrelationAnalyzer::new(0);
    // bins of 10 s from 0 to 200; two intervals fall into the bin from 100 to 110
    assert_eq!(analyzer.find_dominant_interval(&[0, 100, 100, 200]).unwrap(), 105_000);
    assert_eq!(analyzer.find_dominant_interval(&[7, 7, 9]).unwrap(), 7_050);
}

#[test]
fn the_greatest_interval_falls_into_the_last_bin() {
    let analyzer = CorrelationAnalyzer::new(0);
    // one interval in the first bin and one in the last: the last one wins
    assert_eq!(analyzer.find_dominant_interval(&[0, 200]).unwrap(), 195_000);
    assert_eq!(analyzer.find_dominant_interval(&[200, 0, 200, 0]).unwrap(), 195_000);
}

#[test]
fn the_dominant_interval_of_negative_intervals() {
    let analyzer = CorrelationAnalyzer::new(0);
    assert_eq!(analyzer.find_dominant_interval(&[-50, 50, 50]).unwrap(), 47_500);
    assert_eq!(analyzer.find_dominant_interval(&[10, 10, 10]).unwrap(), 10_000);
}

#[test]
fn the_histogram_of_intervals_of_three_days_and_three_weeks() {
    let analyzer = CorrelationAnalyzer::new(0);
    let intervals = [hours(168.0), hours(100.0), hours(200.0)];
    let dominant = analyzer.find_dominant_interval(&intervals).unwrap();
    assert_eq!(dominant, 711_000_000);
    assert_eq!(analyzer.calculate_confidence(&intervals, dominant), 788_874);
}

#[test]
fn no_intervals_no_dominant_interval() {
    let analyzer = CorrelationAnalyzer::new(0);
    let error = analyzer.find_dominant_interval(&[]).unwrap_err();
    assert_eq!(message_of(error), "No intervals to analyze");
}

#[test]
fn the_confidence_is_rounded_down_to_a_millionth() {
    let analyzer = CorrelationAnalyzer::new(0);
    // the standard deviation is a third of the expected interval
    assert_eq!(analyzer.calculate_confidence(&[100, 200], 150_000), 666_666);
    assert_eq!(analyzer.calculate_confidence(&[100, 200], 50_001), 19);
}

#[test]
fn the_confidence_is_kept_between_zero_and_one() {
    let analyzer = CorrelationAnalyzer::new(0);
    assert_eq!(analyzer.calculate_confidence(&[0, 1_000], 100_000), 0);
    assert_eq!(analyzer.calculate_confidence(&[100, 200], 50_000), 0);
    assert_eq!(analyzer.calculate_confidence(&[100, 200], -150_000), 1_000_000);
    assert_eq!(analyzer.calculate_confidence(&[100, 100], -1), 1_000_000);
}

#[test]
fn too_few_intervals_give_no_confidence() {
    let analyzer = CorrelationAnalyzer::new(0);
    assert_eq!(analyzer.calculate_confidence(&[], 604_800_000), 0);
    assert_eq!(analyzer.calculate_confidence(&[604_800], 604_800_000), 0);
}

#[test]
fn an_expected_interval_of_zero_gives_no_confidence() {
    let analyzer = CorrelationAnalyzer::new(0);
    assert_eq!(analyzer.calculate_confidence(&[0, 0, 0], 0), 0);
    assert_eq!(analyzer.calculate_confidence(&[5, 10], 0), 0);
}

#[test]
fn the_confidence_of_the_longest_intervals() {
    let analyzer = CorrelationAnalyzer::new(0);
    let longest = 2 * TIMESTAMP_LIMIT;
    assert_eq!(analyzer.calculate_confidence(&[longest, longest], longest * 1000), 1_000_000);
    assert_eq!(analyzer.calculate_confidence(&[-longest, longest], longest * 1000), 0);
    assert_eq!(analyzer.calculate_confidence(&[longest, longest / 2], longest * 1000), 750_000);
}

#[test]
fn the_last_peak_of_some_marks() {
    assert_eq!(last_peak(&vec![2, 0, 2, 1, 0, 3], 4), 2);
    assert_eq!(last_peak(&vec![], 7), 6);
    assert_eq!(last_peak(&vec![-1, 9, 1], 3), 1);
}

#[test]
fn the_weekday_of_most_events() {
    let analyzer = CorrelationAnalyzer::new(0);
    let here = somewhere();
    let events = vec![
        event("a", here, MONDAY + 8 * HOUR, true),
        event("a", here, MONDAY + DAY, true),
        event("a", here, MONDAY + 7 * DAY, false),
        event("a", here, MONDAY + 8 * DAY, true),
        event("a", here, MONDAY + 14 * DAY + 23 * HOUR, true),
    ];
    let refs: Vec<&CleaningEvent> = events.iter().collect();
    assert_eq!(analyzer.get_dominant_day(&refs), "Monday");
}

#[test]
fn every_weekday_has_its_name() {
    let analyzer = CorrelationAnalyzer::new(0);
    let here = somewhere();
    let names = ["Monday", "Tuesday", "Wednesday", "Thursday", "Friday", "Saturday", "Sunday"];
    for (day, name) in names.iter().enumerate() {
        let events = vec![event("a", here, MONDAY + day as i64 * DAY + 12 * HOUR, true)];
        let refs: Vec<&CleaningEvent> = events.iter().collect();
        assert_eq!(&analyzer.get_dominant_day(&refs), name);
    }
    // the first of January 1970 was a Thursday, the day before a Wednesday
    let events = vec![event("a", here, 0, true)];
    let refs: Vec<&CleaningEvent> = events.iter().collect();
    assert_eq!(analyzer.get_dominant_day(&refs), "Thursday");
    let events = vec![event("a", here, -1, true)];
    let refs: Vec<&CleaningEvent> = events.iter().collect();
    assert_eq!(analyzer.get_dominant_day(&refs), "Wednesday");
}

#[test]
fn of_weekdays_as_frequent_the_later_one_is_named() {
    let analyzer = CorrelationAnalyzer::new(0);
    let here = somewhere();
    let events =
        vec![event("a", here, MONDAY + 2 * DAY, true), event("a", here, MONDAY, true)];
    let refs: Vec<&CleaningEvent> = events.iter().collect();
    assert_eq!(analyzer.get_dominant_day(&refs), "Wednesday");
    let none: Vec<&CleaningEvent> = Vec::new();
    assert_eq!(analyzer.get_dominant_day(&none), "Sunday");
}

#[test]
fn the_hour_of_most_events() {
    let analyzer = CorrelationAnalyzer::new(0);
    let here = somewhere();
    let events = vec![
        event("a", here, MONDAY + 8 * HOUR + 120, true),
        event("a", here, MONDAY + DAY + 9 * HOUR - 1, false),
        event("a", here, MONDAY + 15 * HOUR, true),
    ];
    let refs: Vec<&CleaningEvent> = events.iter().collect();
    assert_eq!(analyzer.get_dominant_time(&refs), "08:00-09:00");
}

#[test]
fn the_hour_before_midnight_ends_at_midnight() {
    let analyzer = CorrelationAnalyzer::new(0);
    let here = somewhere();
    let events = vec![event("a", here, MONDAY + 23 * HOUR + 59 * 60, true)];
    let refs: Vec<&CleaningEvent> = events.iter().collect();
    assert_eq!(analyzer.get_dominant_time(&refs), "23:00-00:00");
    let events = vec![event("a", here, -1, true)];
    let refs: Vec<&CleaningEvent> = events.iter().collect();
    assert_eq!(analyzer.get_dominant_time(&refs), "23:00-00:00");
    let events = vec![event("a", here, MONDAY, true)];
    let refs: Vec<&CleaningEvent> = events.iter().collect();
    assert_eq!(analyzer.get_dominant_time(&refs), "00:00-01:00");
    let none: Vec<&CleaningEvent> = Vec::new();
    assert_eq!(analyzer.get_dominant_time(&none), "23:00-00:00");
}

#[test]
fn an_event_out_of_range_has_neither_weekday_nor_hour() {
    let analyzer = CorrelationAnalyzer::new(0);
    let here = somewhere();
    let events = vec![
        event("a", here, TIMESTAMP_LIMIT + 1, true),
        event("a", here, TIMESTAMP_LIMIT + 2, true),
        event("a", here, MONDAY + 5 * HOUR, true),
    ];
    let refs: Vec<&CleaningEvent> = events.iter().collect();
    assert_eq!(analyzer.get_dominant_day(&refs), "Monday");
    assert_eq!(analyzer.get_dominant_time(&refs), "05:00-06:00");
    assert!(is_timestamp_in_range(TIMESTAMP_LIMIT));
    assert!(is_timestamp_in_range(-TIMESTAMP_LIMIT));
    assert!(!is_timestamp_in_range(TIMESTAMP_LIMIT + 1));
}

#[test]
fn five_weekly_cleanings_of_nygatan_5() {
    let here = somewhere();
    let first = MONDAY + 8 * HOUR;
    let events: Vec<CleaningEvent> =
        (0..5).map(|week| event("Nygatan 5", here, first + week * 7 * DAY, true)).collect();
    let schedules = CorrelationAnalyzer::new(750_000).analyze(events).unwrap();
    assert_eq!(schedules.len(), 1);
    let schedule = &schedules[0];
    assert_eq!(schedule.address, "Nygatan 5");
    assert_eq!(schedule.coordinate, here);
    assert_eq!(schedule.frequency_ms, 604_800_000);
    assert!((frequency_hours(schedule) - 168.0).abs() < 1.0);
    assert_eq!(schedule.confidence_ppm, 1_000_000);
    assert!(confidence(schedule.confidence_ppm) > 0.95);
    assert_eq!(schedule.sample_size, 5);
    assert_eq!(schedule.last_cleaning, first + 28 * DAY);
    assert_eq!(schedule.next_cleaning, first + 35 * DAY);
    assert_eq!(schedule.day_of_week, "Monday");
    assert_eq!(schedule.time_of_day, "08:00-09:00");
}

#[test]
fn one_active_event_gives_no_schedule() {
    let here = somewhere();
    let events = vec![
        event("Nygatan 5", here, MONDAY, true),
        event("Nygatan 5", here, MONDAY + 7 * DAY, false),
        event("Nygatan 5", here, MONDAY + 14 * DAY, false),
    ];
    let schedules = CorrelationAnalyzer::new(0).analyze(events).unwrap();
    assert!(schedules.is_empty());
}

#[test]
fn no_events_no_schedules() {
    let schedules = CorrelationAnalyzer::new(0).analyze(Vec::new()).unwrap();
    assert!(schedules.is_empty());
}

#[test]
fn two_active_events_give_a_schedule_without_confidence() {
    let here = somewhere();
    let events =
        vec![event("Nygatan 5", here, MONDAY, true), event("Nygatan 5", here, MONDAY + DAY, true)];
    let schedules = CorrelationAnalyzer::new(0).analyze(events.clone()).unwrap();
    assert_eq!(schedules.len(), 1);
    assert_eq!(schedules[0].frequency_ms, 86_400_000);
    assert_eq!(schedules[0].confidence_ppm, 0);
    assert_eq!(schedules[0].sample_size, 2);
    // and none where any confidence is asked for
    let schedules = CorrelationAnalyzer::new(1).analyze(events).unwrap();
    assert!(schedules.is_empty());
}

#[test]
fn events_are_taken_in_the_order_of_time() {
    let here = somewhere();
    let elsewhere = GpsCoordinate::new("55.61", "13.01").unwrap();
    let events = vec![
        event("Nygatan 5", here, MONDAY + 14 * DAY, true),
        event("Nygatan 5", elsewhere, MONDAY, true),
        event("Nygatan 5", here, MONDAY + 21 * DAY, true),
        event("Nygatan 5", here, MONDAY + 7 * DAY, true),
    ];
    let schedules = CorrelationAnalyzer::new(750_000).analyze(events).unwrap();
    assert_eq!(schedules.len(), 1);
    assert_eq!(schedules[0].frequency_ms, 604_800_000);
    assert_eq!(schedules[0].confidence_ppm, 1_000_000);
    assert_eq!(schedules[0].last_cleaning, MONDAY + 21 * DAY);
    assert_eq!(schedules[0].next_cleaning, MONDAY + 28 * DAY);
    // the position is that of the earliest active event
    assert_eq!(schedules[0].coordinate, elsewhere);
}

#[test]
fn the_events_of_an_address_in_the_order_of_time() {
    let here = somewhere();
    let events = vec![
        event("b", here, 50, true),
        event("a", here, 30, true),
        event("b", here, 10, false),
        event("b", here, TIMESTAMP_LIMIT + 1, true),
        event("b", here, 10, true),
        event("a", here, 5, true),
    ];
    assert_eq!(time_ordered_group(&events, 0), vec![(10, 2), (10, 4), (50, 0)]);
    assert_eq!(time_ordered_group(&events, 1), vec![(5, 5), (30, 1)]);
    assert!(!seen_before(&events, 0));
    assert!(!seen_before(&events, 1));
    assert!(seen_before(&events, 2));
    assert!(seen_before(&events, 5));
}

#[test]
fn inactive_events_count_for_weekday_and_hour_only() {
    let here = somewhere();
    let events = vec![
        event("Nygatan 5", here, MONDAY + 8 * HOUR, true),
        event("Nygatan 5", here, MONDAY + 2 * DAY + 15 * HOUR, false),
        event("Nygatan 5", here, MONDAY + 7 * DAY + 8 * HOUR, true),
        event("Nygatan 5", here, MONDAY + 9 * DAY + 15 * HOUR, false),
        event("Nygatan 5", here, MONDAY + 16 * DAY + 15 * HOUR, false),
    ];
    let schedules = CorrelationAnalyzer::new(0).analyze(events).unwrap();
    assert_eq!(schedules.len(), 1);
    assert_eq!(schedules[0].sample_size, 2);
    assert_eq!(schedules[0].frequency_ms, 604_800_000);
    assert_eq!(schedules[0].day_of_week, "Wednesday");
    assert_eq!(schedules[0].time_of_day, "15:00-16:00");
    assert_eq!(schedules[0].last_cleaning, MONDAY + 7 * DAY + 8 * HOUR);
}

#[test]
fn a_schedule_below_the_least_confidence_is_dropped() {
    let here = somewhere();
    let times = [0, hours(168.0), hours(268.0), hours(468.0)];
    let events: Vec<CleaningEvent> =
        times.iter().map(|offset| event("Nygatan 5", here, MONDAY + offset, true)).collect();
    let kept = CorrelationAnalyzer::new(788_874).analyze(events.clone()).unwrap();
    assert_eq!(kept.len(), 1);
    assert_eq!(kept[0].frequency_ms, 711_000_000);
    assert_eq!(kept[0].confidence_ppm, 788_874);
    // 197.5 hours are rounded to 198
    assert_eq!(kept[0].next_cleaning, MONDAY + hours(468.0) + 198 * HOUR);
    let dropped = CorrelationAnalyzer::new(788_875).analyze(events).unwrap();
    assert!(dropped.is_empty());
}

#[test]
fn every_address_has_its_own_schedule() {
    let here = somewhere();
    let mut events = Vec::new();
    for week in 0..4 {
        events.push(event("Nygatan 5", here, MONDAY + week * 7 * DAY, true));
        events.push(event("Storgatan 1", here, MONDAY + DAY + week * 14 * DAY, true));
        events.push(event("Lilla Torg", here, MONDAY + week * DAY, week == 0));
    }
    let schedules = CorrelationAnalyzer::new(900_000).analyze(events).unwrap();
    assert_eq!(schedules.len(), 2);
    assert_eq!(schedule_of(&schedules, "Nygatan 5").unwrap().frequency_ms, 604_800_000);
    assert_eq!(schedule_of(&schedules, "Storgatan 1").unwrap().frequency_ms, 1_209_600_000);
    assert_eq!(schedule_of(&schedules, "Storgatan 1").unwrap().day_of_week, "Tuesday");
    assert!(schedule_of(&schedules, "Lilla Torg").is_none());
}

#[test]
fn an_event_out_of_range_does_not_count() {
    let here = somewhere();
    let events = vec![
        event("Nygatan 5", here, MONDAY, true),
        event("Nygatan 5", here, TIMESTAMP_LIMIT + 1, true),
        event("Storgatan 1", here, -TIMESTAMP_LIMIT, true),
        event("Storgatan 1", here, TIMESTAMP_LIMIT, true),
    ];
    let schedules = CorrelationAnalyzer::new(0).analyze(events).unwrap();
    assert_eq!(schedules.len(), 1);
    assert_eq!(schedules[0].address, "Storgatan 1");
    assert_eq!(schedules[0].frequency_ms, 2 * TIMESTAMP_LIMIT * 1000);
}

#[test]
fn the_schedule_of_one_address() {
    let here = somewhere();
    let events = vec![
        event("x", here, MONDAY, false),
        event("x", here, MONDAY + 10 * HOUR, true),
        event("x", here, MONDAY + 20 * HOUR, true),
        event("x", here, MONDAY + 30 * HOUR + 1_799, true),
    ];
    let refs: Vec<&CleaningEvent> = events.iter().collect();
    let schedule = CorrelationAnalyzer::new(0).analyze_address("Nygatan 5", &refs).unwrap();
    assert_eq!(schedule.address, "Nygatan 5");
    assert_eq!(schedule.sample_size, 3);
    // intervals of 36 000 s and 37 799 s: the later bin is as full as the earlier
    assert_eq!(schedule.frequency_ms, 36_000_000 + 39 * 1_799 * 25);
    assert_eq!(schedule.last_cleaning, MONDAY + 30 * HOUR + 1_799);
    assert_eq!(schedule.next_cleaning, MONDAY + 30 * HOUR + 1_799 + 10 * HOUR);
    assert_eq!(schedule.day_of_week, "Monday");
}

#[test]
fn fewer_than_two_active_events_are_an_error_for_one_address() {
    let here = somewhere();
    let events = vec![event("x", here, MONDAY, false), event("x", here, MONDAY + DAY, true)];
    let refs: Vec<&CleaningEvent> = events.iter().collect();
    let error = CorrelationAnalyzer::new(0).analyze_address("x", &refs).unwrap_err();
    assert_eq!(message_of(error), "No intervals calculated");
}

#[test]
fn the_position_of_a_schedule_is_a_coordinate() {
    let here = GpsCoordinate {
        latitude: DecimalNumber { mantissa: 556_050, scale: 4 },
        longitude: DecimalNumber { mantissa: 130_038, scale: 4 },
    };
    assert_eq!(somewhere(), here);
}

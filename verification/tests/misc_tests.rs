use wows_player_stats::cheatsheet::ShipClass;
use wows_player_stats::error::DroppableError;
use wows_player_stats::progress_logger::ProgressLogger;
use wows_player_stats::wows_data::{metric_name, METRIC_COUNT};

#[test]
fn ship_class_short_codes() {
    assert_eq!(ShipClass::Destroyer.short(), "DD");
    assert_eq!(ShipClass::Cruiser.short(), "CR");
    assert_eq!(ShipClass::Battleship.short(), "BB");
    assert_eq!(ShipClass::AircraftCarrier.short(), "CV");
}

#[test]
fn ship_class_from_api_names() {
    assert_eq!(ShipClass::from_type_name("Cruiser"), Some(ShipClass::Cruiser));
    assert_eq!(ShipClass::from_type_name("Destroyer"), Some(ShipClass::Destroyer));
    assert_eq!(ShipClass::from_type_name("Battleship"), Some(ShipClass::Battleship));
    assert_eq!(ShipClass::from_type_name("AirCarrier"), Some(ShipClass::AircraftCarrier));
    assert_eq!(ShipClass::from_type_name("Submarine"), None);
}

#[test]
fn ship_classes_order_for_display() {
    assert!(ShipClass::Destroyer < ShipClass::Cruiser);
    assert!(ShipClass::Cruiser < ShipClass::Battleship);
    assert!(ShipClass::Battleship < ShipClass::AircraftCarrier);
    assert!(ShipClass::Cruiser == ShipClass::Cruiser);
}

#[test]
fn progress_logger_counts() {
    let mut pl = ProgressLogger::new("api_requests");
    assert_eq!(pl.tagline(), "api_requests");
    assert_eq!(pl.target(), None);
    pl.increment(3);
    pl.increment(4);
    assert_eq!(pl.item_count(), 7);
    assert_eq!(pl.total(), 7);
    pl.reset_window();
    pl.increment(2);
    assert_eq!(pl.item_count(), 2);
    assert_eq!(pl.total(), 9);

    let pl2 = ProgressLogger::new_with_target("histogram_prime", 500);
    assert_eq!(pl2.target(), Some(500));
}

#[test]
fn errors_are_logged_and_dropped() {
    let ok: Result<u32, &str> = Ok(5);
    let mut called = false;
    assert_eq!(ok.log_and_drop_error(|_e| called = true), Some(5));
    assert!(!called);

    let err: Result<u32, &str> = Err("boom");
    let mut seen = String::new();
    assert_eq!(err.log_and_drop_error(|e| seen = e.to_string()), None);
    assert_eq!(seen, "boom");
}

#[test]
fn metric_names_are_unique_and_complete() {
    let mut names = Vec::new();
    for i in 0..METRIC_COUNT {
        names.push(metric_name(i));
    }
    assert_eq!(names.len(), 30);
    for i in 0..names.len() {
        for j in 0..i {
            assert_ne!(names[i], names[j]);
        }
    }
    assert!(names.contains(&"winrate"));
    assert!(names.contains(&"win_surviverate"));
    assert!(names.contains(&"torpedoes.hitrate"));
}

use chrono::{Datelike, NaiveDateTime, Timelike};
use helsinki_bike_app::decimal::Decimal;
use helsinki_bike_app::journey::Violation;
use helsinki_bike_app::timestamp::Timestamp;
use helsinki_bike_app::Journey;

fn ts(s: &str) -> Timestamp {
    let t = s.parse::<NaiveDateTime>().unwrap();
    Timestamp {
        year: t.year(),
        month: t.month(),
        day: t.day(),
        hour: t.hour(),
        minute: t.minute(),
        second: t.second(),
        nanosecond: t.nanosecond(),
    }
}

fn journey() -> Journey {
    Journey {
        departure_time: ts("2021-05-31T23:57:25"),
        return_time: ts("2021-06-01T00:05:46"),
        departure_station_id: "094".to_string(),
        return_station_id: "100".to_string(),
        distance_m: Decimal::new(2043, 0),
        duration_sec: Decimal::new(500, 0),
    }
}

#[test]
fn journey_validating_correct_journey_works() -> Result<(), Vec<Violation>> {
    journey().validate()
}

#[test]
fn journey_validating_invalid_times_fails() {
    let journey = Journey {
        departure_time: ts("2021-06-02T00:05:46"),
        ..journey()
    };
    assert!(journey.validate().is_err());
}

#[test]
fn journey_validating_invalid_ids_fails() {
    let j1 = Journey {
        departure_station_id: "xxx".to_string(),
        ..journey()
    };
    let j2 = Journey {
        departure_station_id: "0459".to_string(),
        ..journey()
    };

    assert!(j1.validate().is_err());
    assert!(j2.validate().is_err());
}

#[test]
fn journey_validating_invalid_distance_fails() {
    let journey = Journey {
        distance_m: Decimal::new(99, 1),
        ..journey()
    };
    assert!(journey.validate().is_err());
}

#[test]
fn journey_validating_invalid_duration_fails() {
    let journey = Journey {
        duration_sec: Decimal::new(99, 1),
        ..journey()
    };
    assert!(journey.validate().is_err());
}

#[test]
fn lib_validating_correct_journey_works() -> Result<(), Vec<Violation>> {
    journey().validate()
}

#[test]
fn lib_validating_invalid_times_fails() {
    let journey = Journey {
        departure_time: ts("2021-06-02T00:05:46"),
        ..journey()
    };
    assert!(journey.validate().is_err());
}

#[test]
fn lib_validating_invalid_ids_fails() {
    let j1 = Journey {
        departure_station_id: "xxx".to_string(),
        ..journey()
    };
    let j2 = Journey {
        departure_station_id: "0459".to_string(),
        ..journey()
    };

    assert!(j1.validate().is_err());
    assert!(j2.validate().is_err());
}

#[test]
fn lib_validating_invalid_distance_fails() {
    let journey = Journey {
        distance_m: Decimal::new(99, 1),
        ..journey()
    };
    assert!(journey.validate().is_err());
}

#[test]
fn lib_validating_invalid_duration_fails() {
    let journey = Journey {
        duration_sec: Decimal::new(99, 1),
        ..journey()
    };
    assert!(journey.validate().is_err());
}

use std::collections::HashSet;

use helsinki_bike_app::batch::{column_batches, load_plan, ColumnBatch, GROUP_SIZE};
use helsinki_bike_app::decimal::{parse_decimal, Decimal};
use helsinki_bike_app::journey::{
    accepted_journeys, count_dropped, decode_journeys, decode_table, dropped_records, parse_table, parse_amount, parse_journeys, valid_station_id,
    Violation,
};
use helsinki_bike_app::routes::{journeys_response, JourneyWithId, SERVICE_UNAVAILABLE};
use helsinki_bike_app::table::{find_column, same_text, CsvTable};
use helsinki_bike_app::timestamp::{combine_parses, parse_timestamp, CalendarDate, Timestamp};
use helsinki_bike_app::Journey;

const HEADER: &str = "Departure,Return,Departure station id,Departure station name,Return station id,Return station name,Covered distance (m),Duration (sec.)";

fn at(year: i32, month: u32, day: u32, hour: u32, minute: u32, second: u32) -> Timestamp {
    Timestamp { year, month, day, hour, minute, second, nanosecond: 0 }
}

fn journey() -> Journey {
    Journey {
        departure_time: at(2021, 5, 31, 23, 57, 25),
        return_time: at(2021, 6, 1, 0, 5, 46),
        departure_station_id: "094".to_string(),
        return_station_id: "100".to_string(),
        distance_m: Decimal::new(2043, 0),
        duration_sec: Decimal::new(500, 0),
    }
}

fn rows_of(batches: &[ColumnBatch]) -> Vec<(Timestamp, Timestamp, String, String, Decimal, Decimal)> {
    let mut out = Vec::new();
    for b in batches {
        for i in 0..b.len() {
            out.push((
                b.departure_time[i],
                b.return_time[i],
                b.departure_station_id[i].clone(),
                b.return_station_id[i].clone(),
                b.distance_m[i],
                b.duration_sec[i],
            ));
        }
    }
    out
}

#[test]
fn valid_row_is_accepted_with_exact_fields() {
    let text = format!("{}\n2021-05-31T23:57:25,2021-06-01T00:05:46,094,A,100,B,2043.5,500\n", HEADER);
    let batches = load_plan(&text);
    let accepted = parse_journeys(&text).unwrap();
    assert_eq!(rows_of(&batches).len(), 1);
    assert_eq!(accepted.len(), 1);
    let expected = Journey { distance_m: Decimal::new(20435, 1), ..journey() };
    assert_eq!(accepted[0], expected);
}

#[test]
fn date_only_departure_is_midnight() {
    assert_eq!(parse_timestamp("2021-05-31"), Some(at(2021, 5, 31, 0, 0, 0)));
    let text = format!("{}\n2021-05-31,2021-06-01T00:05:46,094,A,100,B,2043,500\n", HEADER);
    let decoded = decode_journeys(&text);
    assert_eq!(decoded[0].as_ref().unwrap().departure_time, at(2021, 5, 31, 0, 0, 0));
}

#[test]
fn full_timestamp_keeps_time_and_fraction() {
    let t = parse_timestamp("2021-05-31T23:57:25.5").unwrap();
    assert_eq!(t, Timestamp { nanosecond: 500_000_000, ..at(2021, 5, 31, 23, 57, 25) });
    assert_eq!(parse_timestamp("31.05.2021"), None);
    assert_eq!(parse_timestamp(""), None);
}

#[test]
fn combine_prefers_full_timestamp() {
    let d = CalendarDate { year: 2021, month: 5, day: 31 };
    let t = at(2021, 5, 31, 1, 2, 3);
    assert_eq!(combine_parses(Some(t), Some(d)), Some(t));
    assert_eq!(combine_parses(None, Some(d)), Some(at(2021, 5, 31, 0, 0, 0)));
    assert_eq!(combine_parses(None, None), None);
}

#[test]
fn empty_distance_is_zero_and_rejected() {
    let text = format!("{}\n2021-05-31T23:57:25,2021-06-01T00:05:46,094,A,100,B,,500\n", HEADER);
    let decoded = decode_journeys(&text);
    let j = decoded[0].as_ref().unwrap();
    assert_eq!(j.distance_m, Decimal::new(0, 0));
    assert_eq!(j.validate(), Err(vec![Violation::Distance]));
    assert_eq!(load_plan(&text).len(), 0);
}

#[test]
fn departure_not_before_return_is_rejected() {
    let same = Journey { departure_time: journey().return_time, ..journey() };
    assert_eq!(same.validate(), Err(vec![Violation::DepartureNotBeforeReturn]));
    let later = Journey { departure_time: at(2021, 6, 2, 0, 5, 46), ..journey() };
    assert_eq!(later.validate(), Err(vec![Violation::DepartureNotBeforeReturn]));
    let fraction = Journey {
        departure_time: journey().return_time,
        return_time: Timestamp { nanosecond: 1, ..journey().return_time },
        ..journey()
    };
    assert!(fraction.validate().is_ok());
}

#[test]
fn station_id_format() {
    assert!(!valid_station_id("xxx"));
    assert!(!valid_station_id("0459"));
    assert!(!valid_station_id("94"));
    assert!(!valid_station_id("09a"));
    assert!(valid_station_id("094"));
    let bad = Journey { return_station_id: "0459".to_string(), ..journey() };
    assert_eq!(bad.validate(), Err(vec![Violation::ReturnStationId]));
}

#[test]
fn every_rule_is_checked() {
    let j = Journey {
        departure_time: at(2021, 6, 2, 0, 0, 0),
        return_time: at(2021, 6, 1, 0, 0, 0),
        departure_station_id: "x".to_string(),
        return_station_id: "1234".to_string(),
        distance_m: Decimal::new(0, 0),
        duration_sec: Decimal::new(999, 2),
    };
    assert_eq!(
        j.validate(),
        Err(vec![
            Violation::DepartureStationId,
            Violation::ReturnStationId,
            Violation::Distance,
            Violation::Duration,
            Violation::DepartureNotBeforeReturn,
        ])
    );
    assert!(!j.is_valid());
    assert!(journey().is_valid());
}

#[test]
fn decimal_text() {
    assert_eq!(parse_decimal("9.9"), Some(Decimal::new(99, 1)));
    assert_eq!(parse_decimal("2043.0"), Some(Decimal::new(2043, 0)));
    assert_eq!(parse_decimal("2043.0"), Some(Decimal { negative: false, mantissa: 2043, scale: 0 }));
    assert_eq!(parse_decimal("+.5"), Some(Decimal::new(5, 1)));
    assert_eq!(parse_decimal("7."), Some(Decimal::new(7, 0)));
    assert_eq!(parse_decimal("-12.50"), Some(Decimal { negative: true, mantissa: 125, scale: 1 }));
    assert_eq!(parse_decimal("-0"), Some(Decimal::new(0, 0)));
    assert_eq!(parse_decimal("18446744073709551615"), Some(Decimal::new(u64::MAX, 0)));
    assert_eq!(parse_decimal("18446744073709551616"), None);
    assert_eq!(parse_decimal("1e3"), None);
    assert_eq!(parse_decimal("1.2.3"), None);
    assert_eq!(parse_decimal("."), None);
    assert_eq!(parse_decimal(""), None);
    assert_eq!(parse_decimal(" 5"), None);
    assert_eq!(parse_amount(""), Some(Decimal::new(0, 0)));
    assert_eq!(parse_amount("abc"), None);
}

#[test]
fn at_least_ten_bound() {
    assert!(Decimal::new(10, 0).at_least_ten());
    assert!(Decimal::new(100, 1).at_least_ten());
    assert!(!Decimal::new(999, 2).at_least_ten());
    assert!(!parse_decimal("-20").unwrap().at_least_ten());
    assert!(Decimal::new(u64::MAX, 18).at_least_ten());
    assert!(!Decimal::new(u64::MAX, 19).at_least_ten());
    assert!(!Decimal::new(1, 40).at_least_ten());
}

#[test]
fn columns_found_by_name() {
    let text = "Duration (sec.),Return station id,Extra,Covered distance (m),Return,Departure station id,Departure\n500,100,x,2043,2021-06-01T00:05:46,094,2021-05-31T23:57:25\n";
    let decoded = decode_journeys(text);
    assert_eq!(decoded.len(), 1);
    assert_eq!(decoded[0].as_ref().unwrap(), &journey());
}

#[test]
fn missing_or_repeated_column_fails_each_row() {
    let missing = "Departure,Return,Departure station id,Return station id,Covered distance (m)\n2021-05-31T23:57:25,2021-06-01T00:05:46,094,100,2043\n";
    assert!(decode_journeys(missing)[0].is_none());
    let twice = "Departure,Return,Departure station id,Return station id,Covered distance (m),Duration (sec.),Return\n2021-05-31T23:57:25,2021-06-01T00:05:46,094,100,2043,500,2021-06-01T00:05:46\n";
    assert!(decode_journeys(twice)[0].is_none());
}

#[test]
fn csv_records_split_by_the_reader() {
    // a quoted comma, a short record and an empty line
    let text = format!(
        "\n{}\n2021-05-31T23:57:25,2021-06-01T00:05:46,094,\"Aukio, A\",100,B,2043,500\n2021-05-31\n\n2021-05-31T23:56:44,2021-06-01T00:03:26,123,E,121,F,1025,399\n",
        HEADER
    );
    let decoded = decode_journeys(&text);
    assert_eq!(decoded.len(), 3);
    assert_eq!(decoded[0].as_ref().unwrap(), &journey());
    assert!(decoded[1].is_none());
    assert_eq!(decoded[2].as_ref().unwrap().departure_station_id, "123");
}

#[test]
fn table_decoding_and_columns() {
    let s = |x: &str| x.to_string();
    let header = vec![s("Departure"), s("Return"), s("Departure station id"), s("Return station id"), s("Covered distance (m)"), s("Duration (sec.)")];
    let good = vec![s("2021-05-31T23:57:25"), s("2021-06-01T00:05:46"), s("094"), s("100"), s("2043"), s("500")];
    let short_trip = vec![s("2021-05-31T23:57:25"), s("2021-06-01T00:05:46"), s("094"), s("100"), s("5"), s("500")];
    let table = CsvTable { header: Some(header.clone()), rows: vec![Some(good.clone()), None, Some(short_trip)] };
    let decoded = decode_table(&table);
    assert_eq!(decoded.len(), 3);
    assert!(decoded[0].is_some() && decoded[1].is_none() && decoded[2].is_some());
    assert_eq!(accepted_journeys(&table), vec![journey()]);
    assert_eq!(parse_table(&table).err(), Some(1));
    let dropped = dropped_records(&table);
    assert_eq!((dropped.undecodable, dropped.rejected), (1, 1));
    let no_header = CsvTable { header: None, rows: vec![Some(good)] };
    assert!(decode_table(&no_header)[0].is_none());
    let h = header;
    assert_eq!(find_column(&h, "Return"), Some(1));
    assert_eq!(find_column(&h, "Return station"), None);
    assert!(same_text("Return", "Return"));
    assert!(!same_text("Return", "Returns"));
}

#[test]
fn reload_leaves_same_rows() {
    let text = format!(
        "{}\n2021-05-31T23:57:25,2021-06-01T00:05:46,094,A,100,B,2043,500\n2021-05-31T23:56:59,2021-06-01T00:07:14,082,C,113,D,1870,611\n",
        HEADER
    );
    let mut store = HashSet::new();
    for row in rows_of(&load_plan(&text)) {
        store.insert(row);
    }
    let once = store.len();
    for row in rows_of(&load_plan(&text)) {
        store.insert(row);
    }
    assert_eq!(once, 2);
    assert_eq!(store.len(), once);
}

#[test]
fn one_more_than_a_group_makes_two_groups() {
    let n = GROUP_SIZE + 1;
    assert_eq!(n, 8193);
    let journeys: Vec<Journey> = (0..n as u64)
        .map(|i| Journey { distance_m: Decimal::new(10 + i, 0), ..journey() })
        .collect();
    let batches = column_batches(&journeys);
    assert_eq!(batches.len(), 2);
    assert_eq!(batches[0].len(), 8192);
    assert_eq!(batches[1].len(), 1);
    assert_eq!(batches[1].distance_m[0], Decimal::new(10 + 8192, 0));
    let distinct: HashSet<_> = rows_of(&batches).into_iter().collect();
    assert_eq!(distinct.len(), 8193);
    assert_eq!(column_batches(&Vec::new()).len(), 0);
}

#[test]
fn malformed_row_does_not_stop_the_load() {
    let text = format!(
        "{}\n2021-05-31T23:57:25,2021-06-01T00:05:46,094,A,100,B,2043,500\nnot a time,2021-06-01T00:07:14,082,C,113,D,1870,611\n2021-05-31T23:56:44,2021-06-01T00:03:26,123,E,121,F,1025,399\n",
        HEADER
    );
    let decoded = decode_journeys(&text);
    assert!(decoded[0].is_some() && decoded[1].is_none() && decoded[2].is_some());
    let batches = load_plan(&text);
    assert_eq!(batches.len(), 1);
    assert_eq!(rows_of(&batches).len(), 2);
    assert_eq!(parse_journeys(&text).err(), Some(1));
    let dropped = count_dropped(&text);
    assert_eq!((dropped.undecodable, dropped.rejected), (1, 0));
}

fn stored(id: i64) -> JourneyWithId {
    let j = journey();
    JourneyWithId {
        id,
        departure_time: j.departure_time,
        return_time: j.return_time,
        departure_station_id: j.departure_station_id,
        return_station_id: j.return_station_id,
        distance_m: j.distance_m,
        duration_sec: j.duration_sec,
    }
}

#[test]
fn listing_returns_at_most_a_hundred() {
    let rows: Vec<JourneyWithId> = (0..150).map(stored).collect();
    let listed = journeys_response::<()>(Ok(rows)).unwrap();
    assert_eq!(listed.len(), 100);
    assert_eq!(listed[99].id, 99);
    let few: Vec<JourneyWithId> = (0..3).map(stored).collect();
    assert_eq!(journeys_response::<()>(Ok(few)).unwrap().len(), 3);
    assert_eq!(journeys_response::<&str>(Err("down")).err(), Some(SERVICE_UNAVAILABLE));
    assert_eq!(SERVICE_UNAVAILABLE, 500);
}

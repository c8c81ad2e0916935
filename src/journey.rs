use crate::decimal::{canonical_decimal, decimal_of_text, parse_decimal, Decimal};
use crate::table::{column_of, csv_table_of, fields_view, find_column, read_csv, CsvTable};
use crate::timestamp::{parse_timestamp, timestamp_of_text, Timestamp};
use vstd::prelude::*;

verus! {

/// One bicycle trip.
#[derive(Debug)]
pub struct Journey {
    pub departure_time: Timestamp,
    pub return_time: Timestamp,
    pub departure_station_id: String,
    pub return_station_id: String,
    pub distance_m: Decimal,
    pub duration_sec: Decimal,
}

/// A trip as values.
pub struct JourneyView {
    pub departure_time: Timestamp,
    pub return_time: Timestamp,
    pub departure_station_id: Seq<char>,
    pub return_station_id: Seq<char>,
    pub distance_m: Decimal,
    pub duration_sec: Decimal,
}

impl View for Journey {
    type V = JourneyView;

    open spec fn view(&self) -> JourneyView {
        JourneyView {
            departure_time: self.departure_time,
            return_time: self.return_time,
            departure_station_id: self.departure_station_id@,
            return_station_id: self.return_station_id@,
            distance_m: self.distance_m,
            duration_sec: self.duration_sec,
        }
    }
}

impl PartialEq for Journey {
    fn eq(&self, other: &Journey) -> (r: bool)
        ensures
            r == (self@ == other@),
    {
        self.departure_time == other.departure_time && self.return_time == other.return_time
            && self.departure_station_id == other.departure_station_id
            && self.return_station_id == other.return_station_id && self.distance_m
            == other.distance_m && self.duration_sec == other.duration_sec
    }
}

impl vstd::std_specs::cmp::PartialEqSpecImpl for Journey {
    open spec fn obeys_eq_spec() -> bool {
        true
    }

    open spec fn eq_spec(&self, other: &Journey) -> bool {
        self@ == other@
    }
}

/// A rule that a trip must meet.
#[derive(Clone, Copy, Debug, PartialEq, Eq, Structural)]
pub enum Violation {
    /// The departure station id is not three decimal digits.
    DepartureStationId,
    /// The return station id is not three decimal digits.
    ReturnStationId,
    /// The distance is under ten metres.
    Distance,
    /// The duration is under ten seconds.
    Duration,
    /// The departure does not come strictly before the return.
    DepartureNotBeforeReturn,
}

/// Exactly three decimal digits.
pub open spec fn is_station_id(s: Seq<char>) -> bool {
    s.len() == 3 && forall|i: int| 0 <= i < 3 ==> '0' <= #[trigger] s[i] && s[i] <= '9'
}

/// Whether `s` is exactly three decimal digits.
pub fn valid_station_id(s: &str) -> (r: bool)
    ensures
        r == is_station_id(s@),
{
    if s.unicode_len() != 3 {
        return false;
    }
    let mut i: usize = 0;
    while i < 3
        invariant
            s@.len() == 3,
            i <= 3,
            forall|j: int| 0 <= j < i ==> '0' <= #[trigger] s@[j] && s@[j] <= '9',
        decreases 3 - i,
    {
        let c = s.get_char(i);
        if c < '0' || c > '9' {
            return false;
        }
        i = i + 1;
    }
    true
}

/// The rule as a one-element list when it fails, else empty.
pub open spec fn failing(holds: bool, v: Violation) -> Seq<Violation> {
    if holds {
        Seq::empty()
    } else {
        seq![v]
    }
}

impl JourneyView {
    /// The rules that this trip breaks, in a fixed order; every rule is
    /// checked.
    pub open spec fn violations(self) -> Seq<Violation> {
        failing(is_station_id(self.departure_station_id), Violation::DepartureStationId)
            + failing(is_station_id(self.return_station_id), Violation::ReturnStationId)
            + failing(self.distance_m.spec_at_least_ten(), Violation::Distance)
            + failing(self.duration_sec.spec_at_least_ten(), Violation::Duration)
            + failing(
            self.departure_time.spec_before(self.return_time),
            Violation::DepartureNotBeforeReturn,
        )
    }

    /// The trip meets every rule.
    pub open spec fn is_valid(self) -> bool {
        &&& is_station_id(self.departure_station_id)
        &&& is_station_id(self.return_station_id)
        &&& self.distance_m.spec_at_least_ten()
        &&& self.duration_sec.spec_at_least_ten()
        &&& self.departure_time.spec_before(self.return_time)
    }
}

fn push_if_failing(list: &mut Vec<Violation>, holds: bool, v: Violation)
    ensures
        final(list)@ == old(list)@ + failing(holds, v),
{
    if !holds {
        list.push(v);
    }
    assert(final(list)@ =~= old(list)@ + failing(holds, v));
}

impl Journey {
    /// Checks every rule, without stopping at the first that fails; the error
    /// lists all that fail.
    pub fn validate(&self) -> (r: Result<(), Vec<Violation>>)
        ensures
            r is Ok <==> self@.is_valid(),
            r is Ok <==> self@.violations().len() == 0,
            r matches Err(v) ==> v@ == self@.violations(),
    {
        let mut list: Vec<Violation> = Vec::new();
        push_if_failing(
            &mut list,
            valid_station_id(self.departure_station_id.as_str()),
            Violation::DepartureStationId,
        );
        push_if_failing(
            &mut list,
            valid_station_id(self.return_station_id.as_str()),
            Violation::ReturnStationId,
        );
        push_if_failing(&mut list, self.distance_m.at_least_ten(), Violation::Distance);
        push_if_failing(&mut list, self.duration_sec.at_least_ten(), Violation::Duration);
        push_if_failing(
            &mut list,
            self.departure_time.is_before(&self.return_time),
            Violation::DepartureNotBeforeReturn,
        );
        assert(list@ =~= self@.violations());
        if list.len() == 0 {
            Ok(())
        } else {
            Err(list)
        }
    }

    /// Whether the trip meets every rule.
    pub fn is_valid(&self) -> (r: bool)
        ensures
            r == self@.is_valid(),
    {
        valid_station_id(self.departure_station_id.as_str()) && valid_station_id(
            self.return_station_id.as_str(),
        ) && self.distance_m.at_least_ten() && self.duration_sec.at_least_ten()
            && self.departure_time.is_before(&self.return_time)
    }
}

pub open spec fn departure_name() -> Seq<char> {
    "Departure"@
}

pub open spec fn return_name() -> Seq<char> {
    "Return"@
}

pub open spec fn departure_station_name() -> Seq<char> {
    "Departure station id"@
}

pub open spec fn return_station_name() -> Seq<char> {
    "Return station id"@
}

pub open spec fn distance_name() -> Seq<char> {
    "Covered distance (m)"@
}

pub open spec fn duration_name() -> Seq<char> {
    "Duration (sec.)"@
}

/// An amount field: empty text is zero, other text must be a decimal.
pub open spec fn amount_of_text(s: Seq<char>) -> Option<Decimal> {
    if s.len() == 0 {
        Some(canonical_decimal(false, 0, 0))
    } else {
        decimal_of_text(s)
    }
}

/// The field of the column called `name`.
pub open spec fn field_of(h: Seq<Seq<char>>, row: Seq<Seq<char>>, name: Seq<char>) -> Option<
    Seq<char>,
> {
    match column_of(h, name) {
        Some(i) => if i < row.len() {
            Some(row[i])
        } else {
            None
        },
        None => None,
    }
}

/// The trip that a record spells, with columns found by name, or `None`
/// where a column is missing or a field does not read.
pub open spec fn decode_row(h: Seq<Seq<char>>, row: Seq<Seq<char>>) -> Option<JourneyView> {
    let dep = field_of(h, row, departure_name());
    let ret = field_of(h, row, return_name());
    let dep_id = field_of(h, row, departure_station_name());
    let ret_id = field_of(h, row, return_station_name());
    let dist = field_of(h, row, distance_name());
    let dur = field_of(h, row, duration_name());
    if dep is Some && ret is Some && dep_id is Some && ret_id is Some && dist is Some
        && dur is Some && timestamp_of_text(dep->0) is Some && timestamp_of_text(ret->0) is Some
        && amount_of_text(dist->0) is Some && amount_of_text(dur->0) is Some {
        Some(
            JourneyView {
                departure_time: timestamp_of_text(dep->0)->0,
                return_time: timestamp_of_text(ret->0)->0,
                departure_station_id: dep_id->0,
                return_station_id: ret_id->0,
                distance_m: amount_of_text(dist->0)->0,
                duration_sec: amount_of_text(dur->0)->0,
            },
        )
    } else {
        None
    }
}

/// The trip of one entry of a table.
pub open spec fn decode_entry(
    header: Option<Seq<Seq<char>>>,
    row: Option<Seq<Seq<char>>>,
) -> Option<JourneyView> {
    match header {
        Some(h) => match row {
            Some(r) => decode_row(h, r),
            None => None,
        },
        None => None,
    }
}

pub open spec fn journey_opt_view(j: Option<Journey>) -> Option<JourneyView> {
    match j {
        Some(j) => Some(j@),
        None => None,
    }
}

/// Reads an amount field.
pub fn parse_amount(s: &str) -> (r: Option<Decimal>)
    ensures
        r == amount_of_text(s@),
{
    if s.unicode_len() == 0 {
        Some(Decimal::zero())
    } else {
        parse_decimal(s)
    }
}

/// Where each column stands in the header.
pub struct Columns {
    pub departure: usize,
    pub return_: usize,
    pub departure_station: usize,
    pub return_station: usize,
    pub distance: usize,
    pub duration: usize,
}

impl Columns {
    pub open spec fn of_header(self, h: Seq<Seq<char>>) -> bool {
        &&& column_of(h, departure_name()) == Some(self.departure as int)
        &&& column_of(h, return_name()) == Some(self.return_ as int)
        &&& column_of(h, departure_station_name()) == Some(self.departure_station as int)
        &&& column_of(h, return_station_name()) == Some(self.return_station as int)
        &&& column_of(h, distance_name()) == Some(self.distance as int)
        &&& column_of(h, duration_name()) == Some(self.duration as int)
    }
}

/// Where the six columns stand, or `None` where one is missing or named
/// twice.
pub fn find_columns(header: &Vec<String>) -> (r: Option<Columns>)
    ensures
        match r {
            Some(c) => c.of_header(fields_view(*header)),
            None => {
                let h = fields_view(*header);
                column_of(h, departure_name()) is None || column_of(h, return_name()) is None
                    || column_of(h, departure_station_name()) is None || column_of(
                    h,
                    return_station_name(),
                ) is None || column_of(h, distance_name()) is None || column_of(
                    h,
                    duration_name(),
                ) is None
            },
        },
{
    let departure = find_column(header, "Departure");
    let return_ = find_column(header, "Return");
    let departure_station = find_column(header, "Departure station id");
    let return_station = find_column(header, "Return station id");
    let distance = find_column(header, "Covered distance (m)");
    let duration = find_column(header, "Duration (sec.)");
    match (departure, return_, departure_station, return_station, distance, duration) {
        (Some(a), Some(b), Some(c), Some(d), Some(e), Some(f)) => Some(
            Columns {
                departure: a,
                return_: b,
                departure_station: c,
                return_station: d,
                distance: e,
                duration: f,
            },
        ),
        _ => None,
    }
}

/// The trip that one record spells, given where the columns stand.
pub fn decode_record(columns: &Columns, row: &Vec<String>) -> (r: Option<Journey>)
    ensures
        forall|h: Seq<Seq<char>>|
            columns.of_header(h) ==> journey_opt_view(r) == decode_row(h, fields_view(*row)),
{
    let n = row.len();
    if columns.departure >= n || columns.return_ >= n || columns.departure_station >= n
        || columns.return_station >= n || columns.distance >= n || columns.duration >= n {
        return None;
    }
    let departure_time = parse_timestamp(row[columns.departure].as_str());
    let return_time = parse_timestamp(row[columns.return_].as_str());
    let distance_m = parse_amount(row[columns.distance].as_str());
    let duration_sec = parse_amount(row[columns.duration].as_str());
    match (departure_time, return_time, distance_m, duration_sec) {
        (Some(a), Some(b), Some(c), Some(d)) => Some(
            Journey {
                departure_time: a,
                return_time: b,
                departure_station_id: row[columns.departure_station].clone(),
                return_station_id: row[columns.return_station].clone(),
                distance_m: c,
                duration_sec: d,
            },
        ),
        _ => None,
    }
}

/// The decoded trip of each record of a table, in order.
pub open spec fn decoded_rows(
    t: (Option<Seq<Seq<char>>>, Seq<Option<Seq<Seq<char>>>>),
) -> Seq<Option<JourneyView>> {
    t.1.map_values(|r: Option<Seq<Seq<char>>>| decode_entry(t.0, r))
}

/// The trips that decoded and meet every rule, in order.
pub open spec fn accepted(s: Seq<Option<JourneyView>>) -> Seq<JourneyView>
    decreases s.len(),
{
    if s.len() == 0 {
        Seq::empty()
    } else {
        let rest = accepted(s.drop_last());
        match s.last() {
            Some(j) => if j.is_valid() {
                rest.push(j)
            } else {
                rest
            },
            None => rest,
        }
    }
}

pub open spec fn journeys_view(v: Seq<Journey>) -> Seq<JourneyView> {
    v.map_values(|j: Journey| j@)
}

/// Where the columns of a table stand, or `None` where no record can decode.
fn table_columns(table: &CsvTable) -> (r: Option<Columns>)
    ensures
        match r {
            Some(c) => table@.0 is Some && c.of_header(table@.0->0),
            None => forall|row: Option<Seq<Seq<char>>>| decode_entry(table@.0, row) is None,
        },
{
    match &table.header {
        Some(h) => find_columns(h),
        None => None,
    }
}

fn decode_table_entry(
    columns: &Option<Columns>,
    table: &CsvTable,
    row: &Option<Vec<String>>,
) -> (r: Option<Journey>)
    requires
        match columns {
            Some(c) => table@.0 is Some && c.of_header(table@.0->0),
            None => forall|e: Option<Seq<Seq<char>>>| decode_entry(table@.0, e) is None,
        },
    ensures
        journey_opt_view(r) == decode_entry(
            table@.0,
            match row {
                Some(v) => Some(fields_view(*v)),
                None => None,
            },
        ),
{
    match (columns, row) {
        (Some(c), Some(v)) => decode_record(c, v),
        _ => None,
    }
}

/// Decodes every record of a table; a record that does not decode is `None`
/// and does not stop the others.
pub fn decode_table(table: &CsvTable) -> (r: Vec<Option<Journey>>)
    ensures
        r@.map_values(|j: Option<Journey>| journey_opt_view(j)) == decoded_rows(table@),
{
    let columns = table_columns(table);
    let mut out: Vec<Option<Journey>> = Vec::new();
    let mut i: usize = 0;
    while i < table.rows.len()
        invariant
            i <= table.rows.len(),
            out@.len() == i,
            match columns {
                Some(c) => table@.0 is Some && c.of_header(table@.0->0),
                None => forall|e: Option<Seq<Seq<char>>>| decode_entry(table@.0, e) is None,
            },
            forall|k: int|
                0 <= k < i ==> journey_opt_view(#[trigger] out@[k]) == decoded_rows(table@)[k],
        decreases table.rows.len() - i,
    {
        let j = decode_table_entry(&columns, table, &table.rows[i]);
        out.push(j);
        i = i + 1;
    }
    assert(out@.map_values(|j: Option<Journey>| journey_opt_view(j)) =~= decoded_rows(table@));
    out
}

/// The trips of a table that decode and meet every rule, in order; the
/// others are dropped.
pub fn accepted_journeys(table: &CsvTable) -> (r: Vec<Journey>)
    ensures
        journeys_view(r@) == accepted(decoded_rows(table@)),
{
    let columns = table_columns(table);
    let ghost d = decoded_rows(table@);
    let mut out: Vec<Journey> = Vec::new();
    let mut i: usize = 0;
    while i < table.rows.len()
        invariant
            i <= table.rows.len(),
            d == decoded_rows(table@),
            d.len() == table.rows@.len(),
            match columns {
                Some(c) => table@.0 is Some && c.of_header(table@.0->0),
                None => forall|e: Option<Seq<Seq<char>>>| decode_entry(table@.0, e) is None,
            },
            journeys_view(out@) == accepted(d.take(i as int)),
        decreases table.rows.len() - i,
    {
        let j = decode_table_entry(&columns, table, &table.rows[i]);
        assert(d.take(i + 1).drop_last() =~= d.take(i as int));
        match j {
            Some(journey) => {
                if journey.is_valid() {
                    out.push(journey);
                }
            },
            None => {},
        }
        assert(journeys_view(out@) =~= accepted(d.take(i + 1)));
        i = i + 1;
    }
    assert(d.take(i as int) =~= d);
    out
}

/// Decodes every record of a table, failing with the position of the first
/// record that does not decode.
pub fn parse_table(table: &CsvTable) -> (r: Result<Vec<Journey>, usize>)
    ensures
        match r {
            Ok(v) => forall|k: int| 0 <= k < decoded_rows(table@).len() ==> (#[trigger] decoded_rows(table@)[k]) is Some,
            Err(i) => i < decoded_rows(table@).len() && decoded_rows(table@)[i as int] is None
                && forall|k: int| 0 <= k < i ==> (#[trigger] decoded_rows(table@)[k]) is Some,
        },
        r matches Ok(v) ==> journeys_view(v@) == decoded_rows(table@).map_values(
            |j: Option<JourneyView>| j->0,
        ),
{
    let columns = table_columns(table);
    let ghost d = decoded_rows(table@);
    let mut out: Vec<Journey> = Vec::new();
    let mut i: usize = 0;
    while i < table.rows.len()
        invariant
            i <= table.rows.len(),
            d == decoded_rows(table@),
            d.len() == table.rows@.len(),
            out@.len() == i,
            match columns {
                Some(c) => table@.0 is Some && c.of_header(table@.0->0),
                None => forall|e: Option<Seq<Seq<char>>>| decode_entry(table@.0, e) is None,
            },
            forall|k: int| 0 <= k < i ==> (#[trigger] d[k]) is Some && out@[k]@ == d[k]->0,
        decreases table.rows.len() - i,
    {
        match decode_table_entry(&columns, table, &table.rows[i]) {
            Some(journey) => {
                out.push(journey);
            },
            None => {
                return Err(i);
            },
        }
        i = i + 1;
    }
    assert(journeys_view(out@) =~= d.map_values(|j: Option<JourneyView>| j->0));
    Ok(out)
}

/// Decodes every record of a CSV text whose first record names the columns;
/// a record that does not decode is `None` and does not stop the others.
pub fn decode_journeys(text: &str) -> (r: Vec<Option<Journey>>)
    ensures
        r@.map_values(|j: Option<Journey>| journey_opt_view(j)) == decoded_rows(
            csv_table_of(text@),
        ),
{
    decode_table(&read_csv(text))
}

/// Decodes every record of a CSV text, failing with the position of the
/// first record that does not decode.
pub fn parse_journeys(text: &str) -> (r: Result<Vec<Journey>, usize>)
    ensures
        match r {
            Ok(v) => forall|k: int|
                0 <= k < decoded_rows(csv_table_of(text@)).len() ==> (
                #[trigger] decoded_rows(csv_table_of(text@))[k]) is Some,
            Err(i) => i < decoded_rows(csv_table_of(text@)).len() && decoded_rows(
                csv_table_of(text@),
            )[i as int] is None && forall|k: int|
                0 <= k < i ==> (#[trigger] decoded_rows(csv_table_of(text@))[k]) is Some,
        },
        r matches Ok(v) ==> journeys_view(v@) == decoded_rows(csv_table_of(text@)).map_values(
            |j: Option<JourneyView>| j->0,
        ),
{
    parse_table(&read_csv(text))
}

/// A record whose six columns are found and whose fields read, with values
/// that meet every rule, decodes to exactly the trip that its fields spell,
/// and that trip is accepted after whatever came before it.
pub proof fn lemma_valid_record_accepted(
    h: Seq<Seq<char>>,
    row: Seq<Seq<char>>,
    before: Seq<Option<JourneyView>>,
)
    requires
        field_of(h, row, departure_name()) is Some,
        field_of(h, row, return_name()) is Some,
        field_of(h, row, departure_station_name()) is Some,
        field_of(h, row, return_station_name()) is Some,
        field_of(h, row, distance_name()) is Some,
        field_of(h, row, duration_name()) is Some,
        timestamp_of_text(field_of(h, row, departure_name())->0) is Some,
        timestamp_of_text(field_of(h, row, return_name())->0) is Some,
        amount_of_text(field_of(h, row, distance_name())->0) is Some,
        amount_of_text(field_of(h, row, duration_name())->0) is Some,
        (JourneyView {
            departure_time: timestamp_of_text(field_of(h, row, departure_name())->0)->0,
            return_time: timestamp_of_text(field_of(h, row, return_name())->0)->0,
            departure_station_id: field_of(h, row, departure_station_name())->0,
            return_station_id: field_of(h, row, return_station_name())->0,
            distance_m: amount_of_text(field_of(h, row, distance_name())->0)->0,
            duration_sec: amount_of_text(field_of(h, row, duration_name())->0)->0,
        }).is_valid(),
    ensures
        decode_row(h, row) == Some(
            JourneyView {
                departure_time: timestamp_of_text(field_of(h, row, departure_name())->0)->0,
                return_time: timestamp_of_text(field_of(h, row, return_name())->0)->0,
                departure_station_id: field_of(h, row, departure_station_name())->0,
                return_station_id: field_of(h, row, return_station_name())->0,
                distance_m: amount_of_text(field_of(h, row, distance_name())->0)->0,
                duration_sec: amount_of_text(field_of(h, row, duration_name())->0)->0,
            },
        ),
        accepted(before.push(decode_row(h, row))) == accepted(before).push(decode_row(h, row)->0),
{
    let s = before.push(decode_row(h, row));
    assert(s.drop_last() =~= before);
}

/// Number of records that did not decode.
pub open spec fn undecodable_count(s: Seq<Option<JourneyView>>) -> nat
    decreases s.len(),
{
    if s.len() == 0 {
        0
    } else {
        undecodable_count(s.drop_last()) + if s.last() is None {
            1nat
        } else {
            0
        }
    }
}

/// Number of records that decoded but break a rule.
pub open spec fn rejected_count(s: Seq<Option<JourneyView>>) -> nat
    decreases s.len(),
{
    if s.len() == 0 {
        0
    } else {
        rejected_count(s.drop_last()) + match s.last() {
            Some(j) => if j.is_valid() {
                0nat
            } else {
                1
            },
            None => 0,
        }
    }
}

/// How many records of a table were dropped, and why.
pub struct DroppedRecords {
    /// Records that did not decode.
    pub undecodable: usize,
    /// Records that decoded but break a rule.
    pub rejected: usize,
}

/// Counts the records of a table that ingestion drops.
pub fn dropped_records(table: &CsvTable) -> (r: DroppedRecords)
    ensures
        r.undecodable == undecodable_count(decoded_rows(table@)),
        r.rejected == rejected_count(decoded_rows(table@)),
{
    let columns = table_columns(table);
    let ghost d = decoded_rows(table@);
    let mut undecodable: usize = 0;
    let mut rejected: usize = 0;
    let mut i: usize = 0;
    while i < table.rows.len()
        invariant
            i <= table.rows.len(),
            d == decoded_rows(table@),
            d.len() == table.rows@.len(),
            match columns {
                Some(c) => table@.0 is Some && c.of_header(table@.0->0),
                None => forall|e: Option<Seq<Seq<char>>>| decode_entry(table@.0, e) is None,
            },
            undecodable == undecodable_count(d.take(i as int)),
            rejected == rejected_count(d.take(i as int)),
            undecodable + rejected <= i,
        decreases table.rows.len() - i,
    {
        let j = decode_table_entry(&columns, table, &table.rows[i]);
        assert(d.take(i + 1).drop_last() =~= d.take(i as int));
        match j {
            Some(journey) => {
                if !journey.is_valid() {
                    rejected = rejected + 1;
                }
            },
            None => {
                undecodable = undecodable + 1;
            },
        }
        i = i + 1;
    }
    assert(d.take(i as int) =~= d);
    DroppedRecords { undecodable, rejected }
}

/// Counts the records of a CSV text that ingestion drops.
pub fn count_dropped(text: &str) -> (r: DroppedRecords)
    ensures
        r.undecodable == undecodable_count(decoded_rows(csv_table_of(text@))),
        r.rejected == rejected_count(decoded_rows(csv_table_of(text@))),
{
    dropped_records(&read_csv(text))
}

/// Every record is accepted, fails to decode, or is rejected: the three
/// counts add up to the number of records.
pub proof fn lemma_every_record_counted(s: Seq<Option<JourneyView>>)
    ensures
        accepted(s).len() + undecodable_count(s) + rejected_count(s) == s.len(),
    decreases s.len(),
{
    if s.len() > 0 {
        lemma_every_record_counted(s.drop_last());
    }
}

} // verus!

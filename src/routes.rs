use crate::decimal::Decimal;
use crate::timestamp::Timestamp;
use vstd::prelude::*;

verus! {

/// Most trips that one listing returns.
pub const LISTING_LIMIT: usize = 100;

/// Status code of a listing whose store read failed.
pub const SERVICE_UNAVAILABLE: u16 = 500;

/// A stored trip with the identifier that the store gave it.
#[derive(Debug)]
pub struct JourneyWithId {
    pub id: i64,
    pub departure_time: Timestamp,
    pub return_time: Timestamp,
    pub departure_station_id: String,
    pub return_station_id: String,
    pub distance_m: Decimal,
    pub duration_sec: Decimal,
}

/// The first `LISTING_LIMIT` rows, or all where there are fewer.
pub open spec fn listed<A>(rows: Seq<A>) -> Seq<A> {
    if rows.len() <= 100 {
        rows
    } else {
        rows.take(100)
    }
}

/// Keeps at most `LISTING_LIMIT` rows, the first ones, in order.
pub fn first_journeys(rows: Vec<JourneyWithId>) -> (r: Vec<JourneyWithId>)
    ensures
        r@ == listed(rows@),
        r@.len() <= LISTING_LIMIT,
{
    let mut rows = rows;
    let ghost all = rows@;
    while rows.len() > LISTING_LIMIT
        invariant
            rows@.len() >= 100 ==> rows@ == all.take(rows@.len() as int),
            rows@.len() < 100 ==> rows@ == all,
            all.len() >= rows@.len(),
        decreases rows.len(),
    {
        rows.pop();
        assert(rows@ =~= all.take(rows@.len() as int));
    }
    proof {
        if all.len() <= 100 {
            assert(rows@ =~= all);
        } else {
            assert(rows@ =~= all.take(100));
        }
    }
    rows
}

/// What a listing answers for the result of a store read: at most
/// `LISTING_LIMIT` trips, or `SERVICE_UNAVAILABLE` with no detail where the
/// read failed.
pub fn journeys_response<E>(read: Result<Vec<JourneyWithId>, E>) -> (r: Result<
    Vec<JourneyWithId>,
    u16,
>)
    ensures
        match read {
            Ok(rows) => r matches Ok(v) && v@ == listed(rows@),
            Err(_) => r == Err::<Vec<JourneyWithId>, u16>(SERVICE_UNAVAILABLE),
        },
        r matches Ok(v) ==> v@.len() <= LISTING_LIMIT,
{
    match read {
        Ok(rows) => Ok(first_journeys(rows)),
        Err(_) => Err(SERVICE_UNAVAILABLE),
    }
}

} // verus!

use crate::journey::{
    accepted, accepted_journeys, decoded_rows, journeys_view, Journey, JourneyView,
};
use crate::table::{csv_table_of, read_csv};
use crate::decimal::Decimal;
use crate::timestamp::Timestamp;
use vstd::prelude::*;

verus! {

/// Number of trips loaded together in one statement.
pub const GROUP_SIZE: usize = 8192;

/// Number of groups that `n` trips make.
pub open spec fn group_count(n: nat) -> nat {
    ((n + 8191) / 8192) as nat
}

/// The `g`-th group: the trips from `8192 * g` on, at most 8192 of them.
pub open spec fn group_of<A>(s: Seq<A>, g: int) -> Seq<A> {
    let end = if (g + 1) * 8192 < s.len() {
        (g + 1) * 8192
    } else {
        s.len() as int
    };
    s.subrange(g * 8192, end)
}

/// The trips cut into groups of 8192, in order; the last may be smaller.
pub open spec fn groups_of<A>(s: Seq<A>) -> Seq<Seq<A>> {
    Seq::new(group_count(s.len()), |g: int| group_of(s, g))
}

/// A group of trips as six columns of equal length, one per field.
pub struct ColumnBatch {
    pub departure_time: Vec<Timestamp>,
    pub return_time: Vec<Timestamp>,
    pub departure_station_id: Vec<String>,
    pub return_station_id: Vec<String>,
    pub distance_m: Vec<Decimal>,
    pub duration_sec: Vec<Decimal>,
}

impl ColumnBatch {
    /// The six columns have one length.
    pub open spec fn wf(self) -> bool {
        let n = self.departure_time@.len();
        &&& self.return_time@.len() == n
        &&& self.departure_station_id@.len() == n
        &&& self.return_station_id@.len() == n
        &&& self.distance_m@.len() == n
        &&& self.duration_sec@.len() == n
    }

    /// The trips that the columns hold, row by row.
    pub open spec fn rows(self) -> Seq<JourneyView> {
        Seq::new(
            self.departure_time@.len(),
            |i: int|
                JourneyView {
                    departure_time: self.departure_time@[i],
                    return_time: self.return_time@[i],
                    departure_station_id: self.departure_station_id@[i]@,
                    return_station_id: self.return_station_id@[i]@,
                    distance_m: self.distance_m@[i],
                    duration_sec: self.duration_sec@[i],
                },
        )
    }

    /// Number of trips in the batch.
    pub fn len(&self) -> (r: usize)
        requires
            self.wf(),
        ensures
            r == self.rows().len(),
    {
        self.departure_time.len()
    }
}

pub open spec fn batches_rows(b: Seq<ColumnBatch>) -> Seq<Seq<JourneyView>> {
    b.map_values(|c: ColumnBatch| c.rows())
}

/// The trips from `start` up to `end` as columns.
pub fn transpose(journeys: &Vec<Journey>, start: usize, end: usize) -> (r: ColumnBatch)
    requires
        start <= end <= journeys.len(),
    ensures
        r.wf(),
        r.rows() == journeys_view(journeys@).subrange(start as int, end as int),
{
    let mut b = ColumnBatch {
        departure_time: Vec::new(),
        return_time: Vec::new(),
        departure_station_id: Vec::new(),
        return_station_id: Vec::new(),
        distance_m: Vec::new(),
        duration_sec: Vec::new(),
    };
    let mut i: usize = start;
    while i < end
        invariant
            start <= i <= end,
            end <= journeys.len(),
            b.wf(),
            b.departure_time@.len() == i - start,
            b.rows() =~= journeys_view(journeys@).subrange(start as int, i as int),
        decreases end - i,
    {
        let j = &journeys[i];
        b.departure_time.push(j.departure_time);
        b.return_time.push(j.return_time);
        b.departure_station_id.push(j.departure_station_id.clone());
        b.return_station_id.push(j.return_station_id.clone());
        b.distance_m.push(j.distance_m);
        b.duration_sec.push(j.duration_sec);
        i = i + 1;
        assert(b.rows() =~= journeys_view(journeys@).subrange(start as int, i as int));
    }
    b
}

/// Cuts the trips into groups of 8192, in order, each as columns.
pub fn column_batches(journeys: &Vec<Journey>) -> (r: Vec<ColumnBatch>)
    ensures
        forall|g: int| 0 <= g < r@.len() ==> (#[trigger] r@[g]).wf(),
        batches_rows(r@) == groups_of(journeys_view(journeys@)),
{
    let n = journeys.len();
    let ghost s = journeys_view(journeys@);
    let mut out: Vec<ColumnBatch> = Vec::new();
    let mut start: usize = 0;
    while start < n
        invariant
            n == journeys@.len(),
            s == journeys_view(journeys@),
            s.len() == n,
            start <= n,
            start as int == out@.len() * 8192,
            forall|g: int| 0 <= g < out@.len() ==> (#[trigger] out@[g]).wf(),
            forall|g: int|
                0 <= g < out@.len() ==> (#[trigger] out@[g]).rows() == group_of(s, g),
        decreases n - start,
    {
        let end: usize = if n - start > GROUP_SIZE {
            start + GROUP_SIZE
        } else {
            n
        };
        let b = transpose(journeys, start, end);
        out.push(b);
        if end == n && end - start < GROUP_SIZE {
            proof {
                assert(group_count(n as nat) == out@.len());
                assert forall|g: int| 0 <= g < out@.len() implies (#[trigger] out@[g]).wf()
                    && out@[g].rows() == group_of(s, g) by {}
                assert(batches_rows(out@) =~= groups_of(s));
            }
            return out;
        }
        start = end;
    }
    assert(group_count(n as nat) == out@.len());
    assert(batches_rows(out@) =~= groups_of(s));
    out
}

/// The groups of trips that ingesting a CSV text loads.
pub open spec fn planned_groups(text: Seq<char>) -> Seq<Seq<JourneyView>> {
    groups_of(accepted(decoded_rows(csv_table_of(text))))
}

/// What ingesting one CSV text loads: the trips that decode and meet every
/// rule, in order, cut into groups of 8192 as columns. Records that do not
/// decode or break a rule are dropped and stop nothing.
pub fn load_plan(text: &str) -> (r: Vec<ColumnBatch>)
    ensures
        forall|g: int| 0 <= g < r@.len() ==> (#[trigger] r@[g]).wf(),
        batches_rows(r@) == planned_groups(text@),
{
    let table = read_csv(text);
    let journeys = accepted_journeys(&table);
    column_batches(&journeys)
}

/// The rows that a store holds after an insert that skips conflicts, one
/// batch after another: a trip equal on all six fields to one already held
/// adds nothing.
pub open spec fn stored_after(store: Set<JourneyView>, batches: Seq<Seq<JourneyView>>) -> Set<
    JourneyView,
>
    decreases batches.len(),
{
    if batches.len() == 0 {
        store
    } else {
        stored_after(store, batches.drop_last()).union(batches.last().to_set())
    }
}

/// Every trip of some batch.
pub open spec fn in_some_batch(batches: Seq<Seq<JourneyView>>, x: JourneyView) -> bool {
    exists|g: int, i: int| 0 <= g < batches.len() && 0 <= i < batches[g].len() && batches[g][i] == x
}

/// The store afterwards holds what it held and every trip of the batches,
/// and nothing else.
pub proof fn lemma_stored_after(store: Set<JourneyView>, batches: Seq<Seq<JourneyView>>)
    ensures
        forall|x: JourneyView|
            #[trigger] stored_after(store, batches).contains(x) <==> store.contains(x)
                || in_some_batch(batches, x),
    decreases batches.len(),
{
    if batches.len() > 0 {
        broadcast use vstd::seq_lib::group_seq_properties;

        let pre = batches.drop_last();
        lemma_stored_after(store, pre);
        assert(stored_after(store, batches) == stored_after(store, pre).union(
            batches.last().to_set(),
        ));
        assert forall|x: JourneyView|
            #[trigger] stored_after(store, batches).contains(x) <==> store.contains(x)
                || in_some_batch(batches, x) by {
            if in_some_batch(batches, x) {
                let (g, i) = choose|g: int, i: int|
                    0 <= g < batches.len() && 0 <= i < batches[g].len() && batches[g][i] == x;
                if g < pre.len() {
                    assert(pre[g][i] == x);
                    assert(in_some_batch(pre, x));
                } else {
                    assert(batches.last().contains(x));
                }
            }
            if in_some_batch(pre, x) {
                let (g, i) = choose|g: int, i: int|
                    0 <= g < pre.len() && 0 <= i < pre[g].len() && pre[g][i] == x;
                assert(batches[g][i] == x);
            }
            if batches.last().contains(x) {
                let i = choose|i: int| 0 <= i < batches.last().len() && batches.last()[i] == x;
                assert(batches[batches.len() - 1][i] == x);
            }
        }
    }
}

/// Loading the same batches a second time leaves the store as one load left
/// it.
pub proof fn lemma_reload_is_idempotent(store: Set<JourneyView>, batches: Seq<Seq<JourneyView>>)
    ensures
        stored_after(stored_after(store, batches), batches) == stored_after(store, batches),
{
    lemma_stored_after(store, batches);
    lemma_stored_after(stored_after(store, batches), batches);
    assert(stored_after(stored_after(store, batches), batches) =~= stored_after(store, batches));
}

/// Each trip lies in exactly the group of its position, and each trip of a
/// group is one of the trips.
pub proof fn lemma_groups_cover<A>(s: Seq<A>)
    ensures
        forall|i: int|
            0 <= i < s.len() ==> i / 8192 < group_count(s.len()) && #[trigger] s[i]
                == group_of(s, i / 8192)[i % 8192] && i % 8192 < group_of(s, i / 8192).len(),
        forall|g: int, k: int|
            0 <= g < group_count(s.len()) && 0 <= k < group_of(s, g).len() ==> g * 8192 + k
                < s.len() && #[trigger] group_of(s, g)[k] == s[g * 8192 + k],
{
}

/// Loading the groups of a list of trips into an empty store leaves exactly
/// the distinct trips of the list; so where no two are equal, as many rows as
/// trips.
pub proof fn lemma_load_holds_each_trip_once(s: Seq<JourneyView>)
    ensures
        stored_after(Set::empty(), groups_of(s)) == s.to_set(),
        s.no_duplicates() ==> stored_after(Set::empty(), groups_of(s)).len() == s.len(),
{
    let b = groups_of(s);
    lemma_stored_after(Set::empty(), b);
    lemma_groups_cover(s);
    assert forall|x: JourneyView|
        #[trigger] stored_after(Set::empty(), b).contains(x) <==> s.to_set().contains(x) by {
        if s.to_set().contains(x) {
            let i = choose|i: int| 0 <= i < s.len() && s[i] == x;
            assert(s[i] == group_of(s, i / 8192)[i % 8192]);
            assert(b[i / 8192][i % 8192] == x);
            assert(in_some_batch(b, x));
        }
        if in_some_batch(b, x) {
            let (g, k) = choose|g: int, k: int|
                0 <= g < b.len() && 0 <= k < b[g].len() && b[g][k] == x;
            assert(group_of(s, g)[k] == s[g * 8192 + k]);
            assert(s.contains(x));
        }
    }
    assert(stored_after(Set::empty(), b) =~= s.to_set());
    if s.no_duplicates() {
        s.unique_seq_to_set();
    }
}

/// Every group holds 8192 trips but the last, which holds from one to 8192.
pub proof fn lemma_group_sizes<A>(s: Seq<A>)
    ensures
        forall|g: int|
            0 <= g < group_count(s.len()) - 1 ==> (#[trigger] group_of(s, g)).len() == 8192,
        group_count(s.len()) > 0 ==> group_of(s, group_count(s.len()) - 1).len() == s.len()
            - 8192 * (group_count(s.len()) - 1),
        group_count(s.len()) > 0 ==> 1 <= group_of(s, group_count(s.len()) - 1).len() <= 8192,
{
}

/// Ingesting the same text twice leaves the store as ingesting it once did.
pub proof fn lemma_ingest_twice_is_idempotent(store: Set<JourneyView>, text: Seq<char>)
    ensures
        stored_after(stored_after(store, planned_groups(text)), planned_groups(text))
            == stored_after(store, planned_groups(text)),
{
    lemma_reload_is_idempotent(store, planned_groups(text));
}

/// Ingesting a text into an empty store leaves exactly the trips that decode
/// and meet every rule; records that do not decode add nothing.
pub proof fn lemma_ingest_stores_accepted(text: Seq<char>)
    ensures
        stored_after(Set::empty(), planned_groups(text)) == accepted(
            decoded_rows(csv_table_of(text)),
        ).to_set(),
{
    lemma_load_holds_each_trip_once(accepted(decoded_rows(csv_table_of(text))));
}

} // verus!

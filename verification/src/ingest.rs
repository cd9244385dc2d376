//! Building the lap store from the rows of the source table.

use crate::data::{lap_views, DataProcessor, DriverLaps, LapView, ProcessedLapData};
use crate::sequence::{
    is_stable_sort_of, lemma_filter_take_step, lemma_insert_keeps_stable_sort,
    lemma_stable_sort_is_unique, lemma_stable_sort_under_key_keeping_map,
};
use crate::text::{to_uppercase, uppercase};
use vstd::prelude::*;

verus! {

/// One row of the source table before validation. A number is in millionths, rounded to
/// the nearest and cut at the ends of `i64`; `None` stands for a cell that holds no number.
#[derive(Debug, Clone)]
pub struct RawLapData {
    pub driver: String,
    pub lap_number_micros: Option<i64>,
    pub compound: String,
    pub tyre_life_micros: Option<i64>,
    pub lap_time_micros: Option<i64>,
    pub track_temp_micros: Option<i64>,
    /// The row carries a pit-out time.
    pub has_pit_out_time: bool,
    /// The row carries a pit-in time.
    pub has_pit_in_time: bool,
}

/// A lap time must lie below this: 300 s.
pub const LAP_TIME_CEILING_MICROS: i64 = 300_000_000;

/// A row is kept when its lap time is positive and below the ceiling, its track
/// temperature positive, its tyre life not negative, its lap number at least 1, and
/// neither its driver nor its compound empty.
pub open spec fn valid_row(r: RawLapData) -> bool {
    &&& r.lap_time_micros matches Some(t) && 0 < t < LAP_TIME_CEILING_MICROS
    &&& r.track_temp_micros matches Some(c) && c > 0
    &&& r.tyre_life_micros matches Some(a) && a >= 0
    &&& r.lap_number_micros matches Some(n) && n >= 1_000_000
    &&& r.driver@.len() > 0
    &&& r.compound@.len() > 0
}

/// A count given in millionths, rounded to the nearest whole number, a tie going up, and
/// cut at `u32::MAX`.
pub open spec fn whole_count(micros: int) -> int {
    let rounded = (micros + 500_000) / 1_000_000;
    if rounded > u32::MAX {
        u32::MAX as int
    } else {
        rounded
    }
}

/// The lap record of a valid row, its time delta taken against `reference`.
pub open spec fn lap_of(reference: int) -> spec_fn(RawLapData) -> LapView {
    |r: RawLapData|
        LapView {
            driver: r.driver@,
            lap_number: whole_count(r.lap_number_micros->Some_0 as int) as u32,
            compound: uppercase(r.compound@),
            tyre_life: whole_count(r.tyre_life_micros->Some_0 as int) as u32,
            lap_time_micros: r.lap_time_micros->Some_0,
            track_temp_micros: r.track_temp_micros->Some_0,
            time_delta_micros: Some((r.lap_time_micros->Some_0 - reference) as i64),
            is_pit_out_lap: r.has_pit_out_time,
            is_pit_in_lap: r.has_pit_in_time,
        }
}

/// The same lap with its time delta taken against `reference`.
pub open spec fn retimed(reference: int) -> spec_fn(LapView) -> LapView {
    |v: LapView|
        LapView { time_delta_micros: Some((v.lap_time_micros - reference) as i64), ..v }
}

/// The key by which a driver's laps are put in order.
pub open spec fn lap_number_key() -> spec_fn(LapView) -> int {
    |v: LapView| v.lap_number as int
}

/// The valid rows of `driver`.
pub open spec fn valid_for(driver: Seq<char>) -> spec_fn(RawLapData) -> bool {
    |r: RawLapData| valid_row(r) && r.driver@ == driver
}

/// The valid rows of `driver`, in the order of the table.
pub open spec fn rows_of(rows: Seq<RawLapData>, driver: Seq<char>) -> Seq<RawLapData> {
    rows.filter(valid_for(driver))
}

/// The drivers that have a valid row, each once, in the order in which they first appear.
pub open spec fn drivers_of(rows: Seq<RawLapData>) -> Seq<Seq<char>>
    decreases rows.len(),
{
    if rows.len() == 0 {
        Seq::empty()
    } else {
        let before = drivers_of(rows.drop_last());
        if valid_row(rows.last()) && !before.contains(rows.last().driver@) {
            before.push(rows.last().driver@)
        } else {
            before
        }
    }
}

/// The shortest lap time among the rows that carry no pit time, if there is such a row.
pub open spec fn best_time(rows: Seq<RawLapData>) -> Option<i64>
    decreases rows.len(),
{
    if rows.len() == 0 {
        None
    } else {
        let before = best_time(rows.drop_last());
        let r = rows.last();
        if r.has_pit_in_time || r.has_pit_out_time {
            before
        } else {
            match before {
                Some(b) if b <= r.lap_time_micros->Some_0 => before,
                _ => r.lap_time_micros,
            }
        }
    }
}

/// The time against which a driver's deltas are taken: the best lap away from the pits,
/// or 0 where every lap touches the pits.
pub open spec fn reference_time(rows: Seq<RawLapData>) -> int {
    match best_time(rows) {
        Some(b) => b as int,
        None => 0,
    }
}

/// The best time is a lap time away from the pits, and no lap away from the pits is
/// shorter; there is none exactly when every row carries a pit time.
pub proof fn lemma_best_time_is_least(rows: Seq<RawLapData>)
    requires
        forall|i: int| 0 <= i < rows.len() ==> valid_row(#[trigger] rows[i]),
    ensures
        best_time(rows) is None <==> forall|i: int|
            0 <= i < rows.len() ==> (#[trigger] rows[i]).has_pit_in_time || rows[i].has_pit_out_time,
        best_time(rows) matches Some(b) ==> {
            &&& exists|i: int|
                0 <= i < rows.len() && !(#[trigger] rows[i]).has_pit_in_time
                    && !rows[i].has_pit_out_time && rows[i].lap_time_micros == Some(b)
            &&& forall|i: int|
                0 <= i < rows.len() && !(#[trigger] rows[i]).has_pit_in_time
                    && !rows[i].has_pit_out_time ==> b <= rows[i].lap_time_micros->Some_0
        },
    decreases rows.len(),
{
    if rows.len() > 0 {
        let head = rows.drop_last();
        let last = rows.len() - 1;
        assert(forall|i: int| 0 <= i < head.len() ==> #[trigger] head[i] == rows[i]);
        lemma_best_time_is_least(head);
        assert(valid_row(rows[last]));
        if let Some(b) = best_time(rows) {
            if best_time(head) == Some(b) {
                let i = choose|i: int|
                    0 <= i < head.len() && !(#[trigger] head[i]).has_pit_in_time
                        && !head[i].has_pit_out_time && head[i].lap_time_micros == Some(b);
                assert(rows[i] == head[i]);
            } else {
                assert(rows[last].lap_time_micros == Some(b));
            }
            assert forall|i: int|
                0 <= i < rows.len() && !(#[trigger] rows[i]).has_pit_in_time
                    && !rows[i].has_pit_out_time implies b <= rows[i].lap_time_micros->Some_0 by {
                if i < last {
                    assert(rows[i] == head[i]);
                }
            }
        } else {
            assert forall|i: int| 0 <= i < rows.len() implies (#[trigger] rows[i]).has_pit_in_time
                || rows[i].has_pit_out_time by {
                if i < last {
                    assert(rows[i] == head[i]);
                }
            }
        }
    }
}

/// A driver is listed exactly when a valid row names that driver.
pub proof fn lemma_drivers_have_valid_rows(rows: Seq<RawLapData>, driver: Seq<char>)
    ensures
        drivers_of(rows).contains(driver) <==> exists|i: int|
            0 <= i < rows.len() && valid_row(#[trigger] rows[i]) && rows[i].driver@ == driver,
    decreases rows.len(),
{
    if rows.len() > 0 {
        let head = rows.drop_last();
        let last = rows.len() - 1;
        assert(forall|i: int| 0 <= i < head.len() ==> #[trigger] head[i] == rows[i]);
        lemma_drivers_have_valid_rows(head, driver);
        let listed = drivers_of(rows);
        if listed.contains(driver) {
            if drivers_of(head).contains(driver) {
                let i = choose|i: int|
                    0 <= i < head.len() && valid_row(#[trigger] head[i]) && head[i].driver@
                        == driver;
                assert(valid_row(rows[i]) && rows[i].driver@ == driver);
            } else {
                let k = choose|k: int| 0 <= k < listed.len() && listed[k] == driver;
                if k < drivers_of(head).len() {
                    assert(drivers_of(head)[k] == driver);
                }
                assert(valid_row(rows[last]) && rows[last].driver@ == driver);
            }
        }
        if exists|i: int|
            0 <= i < rows.len() && valid_row(#[trigger] rows[i]) && rows[i].driver@ == driver {
            let i = choose|i: int|
                0 <= i < rows.len() && valid_row(#[trigger] rows[i]) && rows[i].driver@ == driver;
            if i < last {
                assert(valid_row(head[i]) && head[i].driver@ == driver);
                let k = choose|k: int|
                    0 <= k < drivers_of(head).len() && drivers_of(head)[k] == driver;
                assert(listed[k] == driver);
            } else {
                if drivers_of(head).contains(driver) {
                    let k = choose|k: int|
                        0 <= k < drivers_of(head).len() && drivers_of(head)[k] == driver;
                    assert(listed[k] == driver);
                } else {
                    assert(listed.last() == driver);
                }
            }
        }
    }
}

/// `group` holds the valid rows of its driver as laps, in ascending order of lap number,
/// rows of one lap number in the order of the table, with time deltas against `reference`.
pub open spec fn holds_laps_of(group: DriverLaps, rows: Seq<RawLapData>, reference: int) -> bool {
    is_stable_sort_of(
        lap_views(group.laps@),
        rows_of(rows, group.driver@).map_values(lap_of(reference)),
        lap_number_key(),
    )
}

/// `data` is the lap store of the table `rows`: one group for each driver with a valid
/// row, and in each group that driver's laps with their deltas against the driver's
/// reference time.
pub open spec fn processed(rows: Seq<RawLapData>, data: Seq<DriverLaps>) -> bool {
    &&& data.len() == drivers_of(rows).len()
    &&& forall|g: int|
        0 <= g < data.len() ==> {
            &&& (#[trigger] data[g]).driver@ == drivers_of(rows)[g]
            &&& holds_laps_of(data[g], rows, reference_time(rows_of(rows, data[g].driver@)))
        }
}

/// Two lap stores of one table hold the same drivers in the same order, and for each
/// driver the same laps in the same order.
pub proof fn lemma_store_is_determined(rows: Seq<RawLapData>, a: Seq<DriverLaps>, b: Seq<DriverLaps>)
    requires
        processed(rows, a),
        processed(rows, b),
    ensures
        a.len() == b.len(),
        forall|g: int|
            0 <= g < a.len() ==> (#[trigger] a[g]).driver@ == b[g].driver@ && lap_views(a[g].laps@)
                == lap_views(b[g].laps@),
{
    assert forall|g: int| 0 <= g < a.len() implies (#[trigger] a[g]).driver@ == b[g].driver@
        && lap_views(a[g].laps@) == lap_views(b[g].laps@) by {
        let driver = a[g].driver@;
        assert(b[g].driver@ == drivers_of(rows)[g]);
        lemma_stable_sort_is_unique(
            lap_views(a[g].laps@),
            lap_views(b[g].laps@),
            rows_of(rows, driver).map_values(lap_of(reference_time(rows_of(rows, driver)))),
            lap_number_key(),
        );
    }
}

/// Every lap time of `laps` is positive and below the ceiling.
pub open spec fn times_in_range(laps: Seq<ProcessedLapData>) -> bool {
    forall|j: int|
        0 <= j < laps.len() ==> 0 < (#[trigger] laps[j]).lap_time_micros < LAP_TIME_CEILING_MICROS
}

/// No driver is listed twice.
pub proof fn lemma_drivers_distinct(rows: Seq<RawLapData>)
    ensures
        drivers_of(rows).no_duplicates(),
    decreases rows.len(),
{
    if rows.len() > 0 {
        lemma_drivers_distinct(rows.drop_last());
    }
}

/// The best time of valid rows is a valid lap time.
proof fn lemma_best_time_in_range(rows: Seq<RawLapData>)
    requires
        forall|i: int| 0 <= i < rows.len() ==> valid_row(#[trigger] rows[i]),
    ensures
        best_time(rows) matches Some(b) ==> 0 < b < LAP_TIME_CEILING_MICROS,
    decreases rows.len(),
{
    if rows.len() > 0 {
        assert(forall|i: int|
            0 <= i < rows.drop_last().len() ==> #[trigger] rows.drop_last()[i] == rows[i]);
        lemma_best_time_in_range(rows.drop_last());
        assert(valid_row(rows.last()));
    }
}

impl RawLapData {
    /// Tells whether the row is kept.
    pub fn is_valid(&self) -> (ok: bool)
        ensures
            ok == valid_row(*self),
    {
        let time_ok = match self.lap_time_micros {
            Some(t) => 0 < t && t < LAP_TIME_CEILING_MICROS,
            None => false,
        };
        let temp_ok = match self.track_temp_micros {
            Some(c) => c > 0,
            None => false,
        };
        let life_ok = match self.tyre_life_micros {
            Some(a) => a >= 0,
            None => false,
        };
        let number_ok = match self.lap_number_micros {
            Some(n) => n >= 1_000_000,
            None => false,
        };
        time_ok && temp_ok && life_ok && number_ok && !self.driver.as_str().is_empty()
            && !self.compound.as_str().is_empty()
    }
}

/// Rounds a count given in millionths to a whole number.
fn round_count(micros: i64) -> (n: u32)
    requires
        micros >= 0,
    ensures
        n == whole_count(micros as int),
{
    let q = micros / 1_000_000;
    let r = micros % 1_000_000;
    proof {
        vstd::arithmetic::div_mod::lemma_fundamental_div_mod(micros as int, 1_000_000);
        if r >= 500_000 {
            vstd::arithmetic::div_mod::lemma_fundamental_div_mod_converse(
                micros + 500_000,
                1_000_000,
                q + 1,
                r - 500_000,
            );
        } else {
            vstd::arithmetic::div_mod::lemma_fundamental_div_mod_converse(
                micros + 500_000,
                1_000_000,
                q as int,
                r + 500_000,
            );
        }
    }
    let rounded = if r >= 500_000 {
        q + 1
    } else {
        q
    };
    if rounded > 0xffff_ffff {
        0xffff_ffff
    } else {
        rounded as u32
    }
}

/// The lap record of a valid row, its time delta taken against 0.
fn observe(r: &RawLapData) -> (lap: ProcessedLapData)
    requires
        valid_row(*r),
    ensures
        lap@ == lap_of(0)(*r),
{
    let lap_time = r.lap_time_micros.unwrap();
    ProcessedLapData {
        driver: r.driver.clone(),
        lap_number: round_count(r.lap_number_micros.unwrap()),
        compound: to_uppercase(r.compound.as_str()),
        tyre_life: round_count(r.tyre_life_micros.unwrap()),
        lap_time_micros: lap_time,
        track_temp_micros: r.track_temp_micros.unwrap(),
        time_delta_micros: Some(lap_time),
        is_pit_out_lap: r.has_pit_out_time,
        is_pit_in_lap: r.has_pit_in_time,
    }
}

/// The index of the group of `driver`, if it has one.
fn find_driver(groups: &Vec<DriverLaps>, driver: &String) -> (found: Option<usize>)
    ensures
        match found {
            Some(g) => g < groups.len() && groups[g as int].driver@ == driver@,
            None => forall|g: int| 0 <= g < groups.len() ==> (#[trigger] groups[g]).driver@ != driver@,
        },
{
    let mut g: usize = 0;
    while g < groups.len()
        invariant
            0 <= g <= groups.len(),
            forall|k: int| 0 <= k < g ==> (#[trigger] groups[k]).driver@ != driver@,
        decreases groups.len() - g,
    {
        if groups[g].driver == *driver {
            return Some(g);
        }
        g += 1;
    }
    None
}

/// Puts `lap` behind the laps whose number is not above its own.
fn insert_lap(laps: &mut Vec<ProcessedLapData>, lap: ProcessedLapData, Ghost(source): Ghost<
    Seq<LapView>,
>)
    requires
        is_stable_sort_of(lap_views(old(laps)@), source, lap_number_key()),
    ensures
        is_stable_sort_of(lap_views(final(laps)@), source.push(lap@), lap_number_key()),
        final(laps).len() == old(laps).len() + 1,
        times_in_range(old(laps)@) && 0 < lap.lap_time_micros < LAP_TIME_CEILING_MICROS
            ==> times_in_range(final(laps)@),
{
    let mut p: usize = laps.len();
    while p > 0 && laps[p - 1].lap_number > lap.lap_number
        invariant
            0 <= p <= laps.len(),
            laps@ == old(laps)@,
            forall|i: int|
                p <= i < laps.len() ==> lap_number_key()(#[trigger] lap_views(laps@)[i])
                    > lap_number_key()(lap@),
        decreases p,
    {
        p -= 1;
    }
    proof {
        let views = lap_views(laps@);
        assert forall|i: int| 0 <= i < p implies lap_number_key()(#[trigger] views[i])
            <= lap_number_key()(lap@) by {
            assert(lap_number_key()(views[p - 1]) <= lap_number_key()(lap@));
            assert(lap_number_key()(views[i]) <= lap_number_key()(views[p - 1]));
        }
        lemma_insert_keeps_stable_sort(views, source, lap_number_key(), lap@, p as int);
        assert(lap_views(laps@.insert(p as int, lap)) == views.insert(p as int, lap@));
    }
    let ghost before = laps@;
    laps.insert(p, lap);
    proof {
        if times_in_range(before) && 0 < lap.lap_time_micros < LAP_TIME_CEILING_MICROS {
            assert forall|j: int| 0 <= j < laps.len() implies 0 < (
            #[trigger] laps@[j]).lap_time_micros < LAP_TIME_CEILING_MICROS by {
                if j < p {
                    assert(laps@[j] == before[j]);
                } else if j > p {
                    assert(laps@[j] == before[j - 1]);
                }
            }
        }
    }
}

/// Takes every time delta of `laps` anew, against `reference`.
fn retime(laps: &mut Vec<ProcessedLapData>, reference: i64)
    requires
        times_in_range(old(laps)@),
        0 <= reference < LAP_TIME_CEILING_MICROS,
    ensures
        lap_views(final(laps)@) == lap_views(old(laps)@).map_values(retimed(reference as int)),
{
    let n = laps.len();
    let mut j: usize = 0;
    while j < n
        invariant
            n == laps.len(),
            n == old(laps).len(),
            0 <= j <= n,
            0 <= reference < LAP_TIME_CEILING_MICROS,
            times_in_range(old(laps)@),
            forall|k: int| 0 <= k < j ==> (#[trigger] laps@[k])@ == retimed(reference as int)(old(laps)@[k]@),
            forall|k: int| j <= k < n ==> #[trigger] laps@[k] == old(laps)@[k],
        decreases n - j,
    {
        let lap_time = laps[j].lap_time_micros;
        assert(0 < old(laps)@[j as int].lap_time_micros < LAP_TIME_CEILING_MICROS);
        laps[j].time_delta_micros = Some(lap_time - reference);
        j += 1;
    }
    assert(lap_views(laps@) =~= lap_views(old(laps)@).map_values(retimed(reference as int)));
}

/// The state of the grouping after the rows `seen`: one group per driver met, each with
/// that driver's laps so far in order and deltas against 0, and that driver's best time.
spec fn grouping(seen: Seq<RawLapData>, groups: Seq<DriverLaps>, best: Seq<Option<i64>>) -> bool {
    &&& groups.len() == drivers_of(seen).len()
    &&& best.len() == groups.len()
    &&& forall|g: int|
        0 <= g < groups.len() ==> {
            &&& (#[trigger] groups[g]).driver@ == drivers_of(seen)[g]
            &&& holds_laps_of(groups[g], seen, 0)
            &&& times_in_range(groups[g].laps@)
            &&& best[g] == best_time(rows_of(seen, groups[g].driver@))
        }
}

/// The rows of a driver are valid rows.
proof fn lemma_rows_of_are_valid(rows: Seq<RawLapData>, driver: Seq<char>)
    ensures
        forall|i: int|
            0 <= i < rows_of(rows, driver).len() ==> valid_row(#[trigger] rows_of(rows, driver)[i]),
{
    assert forall|i: int| 0 <= i < rows_of(rows, driver).len() implies valid_row(
        #[trigger] rows_of(rows, driver)[i],
    ) by {
        rows.lemma_filter_pred(valid_for(driver), i);
    }
}

impl DataProcessor {
    /// Builds the lap store from the rows of the source table: drops the rows that are not
    /// valid, groups the others by driver, puts each driver's laps in ascending order of
    /// lap number, and takes each lap's time delta against the driver's best lap away from
    /// the pits.
    pub fn new(rows: &Vec<RawLapData>) -> (store: Self)
        ensures
            processed(rows@, store.driver_data@),
    {
        let mut groups: Vec<DriverLaps> = Vec::new();
        let mut best: Vec<Option<i64>> = Vec::new();
        let n = rows.len();
        let mut i: usize = 0;
        while i < n
            invariant
                n == rows.len(),
                0 <= i <= n,
                grouping(rows@.take(i as int), groups@, best@),
            decreases n - i,
        {
            let row = &rows[i];
            let ghost seen = rows@.take(i as int);
            let ghost next = rows@.take(i + 1);
            let ghost old_groups = groups@;
            let ghost old_best = best@;
            proof {
                assert(next.drop_last() == seen);
                assert(next.last() == rows@[i as int]);
                lemma_drivers_distinct(seen);
                assert forall|g: int| 0 <= g < old_groups.len() implies rows_of(
                    next,
                    (#[trigger] old_groups[g]).driver@,
                ) == if valid_for(old_groups[g].driver@)(rows@[i as int]) {
                    rows_of(seen, old_groups[g].driver@).push(rows@[i as int])
                } else {
                    rows_of(seen, old_groups[g].driver@)
                } by {
                    lemma_filter_take_step(rows@, valid_for(old_groups[g].driver@), i as int);
                }
            }
            if row.is_valid() {
                let g = match find_driver(&groups, &row.driver) {
                    Some(g) => g,
                    None => {
                        proof {
                            lemma_filter_take_step(rows@, valid_for(row.driver@), i as int);
                            assert forall|k: int| 0 <= k < drivers_of(seen).len() implies drivers_of(
                                seen,
                            )[k] != row.driver@ by {
                                assert(old_groups[k].driver@ == drivers_of(seen)[k]);
                            }
                            lemma_no_valid_row_yet(seen, row.driver@);
                        }
                        groups.push(DriverLaps { driver: row.driver.clone(), laps: Vec::new() });
                        best.push(None);
                        groups.len() - 1
                    },
                };
                let ghost mid_groups = groups@;
                let ghost mid_best = best@;
                let ghost source = rows_of(seen, row.driver@).map_values(lap_of(0));
                proof {
                    assert(mid_groups[g as int].driver@ == row.driver@);
                    assert(is_stable_sort_of(
                        lap_views(mid_groups[g as int].laps@),
                        source,
                        lap_number_key(),
                    )) by {
                        if g < old_groups.len() {
                            assert(mid_groups[g as int] == old_groups[g as int]);
                        } else {
                            assert(lap_views(mid_groups[g as int].laps@) == Seq::<LapView>::empty());
                            assert(source == Seq::<LapView>::empty());
                            reveal(Seq::filter);
                        }
                    }
                    assert(times_in_range(mid_groups[g as int].laps@));
                    assert(mid_best[g as int] == best_time(rows_of(seen, row.driver@)));
                }
                let lap = observe(row);
                insert_lap(&mut groups[g].laps, lap, Ghost(source));
                if !row.has_pit_in_time && !row.has_pit_out_time {
                    let t = row.lap_time_micros.unwrap();
                    let better = match best[g] {
                        Some(b) => !(b <= t),
                        None => true,
                    };
                    if better {
                        best[g] = Some(t);
                    }
                }
                proof {
                    let d = row.driver@;
                    lemma_filter_take_step(rows@, valid_for(d), i as int);
                    assert(rows_of(next, d) == rows_of(seen, d).push(rows@[i as int]));
                    assert(rows_of(next, d).map_values(lap_of(0)) == source.push(lap@));
                    assert(rows_of(next, d).drop_last() == rows_of(seen, d));
                    assert(groups@.len() == drivers_of(next).len());
                    assert forall|k: int| 0 <= k < groups@.len() implies {
                        &&& (#[trigger] groups@[k]).driver@ == drivers_of(next)[k]
                        &&& holds_laps_of(groups@[k], next, 0)
                        &&& times_in_range(groups@[k].laps@)
                        &&& best@[k] == best_time(rows_of(next, groups@[k].driver@))
                    } by {
                        if k != g {
                            assert(groups@[k] == mid_groups[k]);
                            assert(mid_groups[k] == old_groups[k]);
                            assert(best@[k] == old_best[k]);
                            assert(old_groups[k].driver@ == drivers_of(seen)[k]);
                            if g < old_groups.len() {
                                assert(old_groups[g as int].driver@ == drivers_of(seen)[g as int]);
                            }
                            assert(old_groups[k].driver@ != d);
                        }
                    }
                }
            } else {
                proof {
                    assert(drivers_of(next) == drivers_of(seen));
                }
            }
            i += 1;
        }
        assert(rows@.take(n as int) == rows@);

        let count = groups.len();
        let mut g: usize = 0;
        while g < count
            invariant
                count == groups.len(),
                count == best.len(),
                count == drivers_of(rows@).len(),
                0 <= g <= count,
                forall|k: int|
                    0 <= k < count ==> (#[trigger] groups@[k]).driver@ == drivers_of(rows@)[k],
                forall|k: int|
                    0 <= k < g ==> holds_laps_of(
                        #[trigger] groups@[k],
                        rows@,
                        reference_time(rows_of(rows@, groups@[k].driver@)),
                    ),
                forall|k: int|
                    g <= k < count ==> {
                        &&& holds_laps_of(#[trigger] groups@[k], rows@, 0)
                        &&& times_in_range(groups@[k].laps@)
                        &&& best@[k] == best_time(rows_of(rows@, groups@[k].driver@))
                    },
            decreases count - g,
        {
            let ghost driver = groups@[g as int].driver@;
            let ghost before = groups@;
            let ghost views = lap_views(groups@[g as int].laps@);
            let ghost source = rows_of(rows@, driver).map_values(lap_of(0));
            let reference: i64 = match best[g] {
                Some(b) => b,
                None => 0,
            };
            proof {
                lemma_rows_of_are_valid(rows@, driver);
                lemma_best_time_in_range(rows_of(rows@, driver));
                assert(reference == reference_time(rows_of(rows@, driver)));
            }
            retime(&mut groups[g].laps, reference);
            proof {
                lemma_stable_sort_under_key_keeping_map(
                    views,
                    source,
                    lap_number_key(),
                    retimed(reference as int),
                );
                assert(source.map_values(retimed(reference as int)) == rows_of(
                    rows@,
                    driver,
                ).map_values(lap_of(reference as int)));
                assert(groups@[g as int].driver@ == driver);
                assert forall|k: int| 0 <= k < count && k != g implies #[trigger] groups@[k]
                    == before[k] by {}
            }
            g += 1;
        }
        DataProcessor { driver_data: groups }
    }
}

/// A driver who is not listed has no valid row.
proof fn lemma_no_valid_row_yet(rows: Seq<RawLapData>, driver: Seq<char>)
    requires
        !drivers_of(rows).contains(driver),
    ensures
        rows_of(rows, driver) == Seq::<RawLapData>::empty(),
    decreases rows.len(),
{
    reveal(Seq::filter);
    if rows.len() > 0 {
        let before = drivers_of(rows.drop_last());
        if before.contains(driver) {
            let k = choose|k: int| 0 <= k < before.len() && before[k] == driver;
            assert(drivers_of(rows)[k] == driver);
        }
        lemma_no_valid_row_yet(rows.drop_last(), driver);
        if valid_row(rows.last()) && rows.last().driver@ == driver {
            assert(drivers_of(rows).last() == driver || before.contains(driver));
        }
    }
}

} // verus!

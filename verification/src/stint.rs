//! Cutting one driver's laps into stints: runs on one set of tyres between pit stops.

use crate::config::SimulationConfig;
use crate::data::{chronological, ProcessedLapData};
use crate::mean::Mean;
use crate::sequence::lemma_filter_take_step;
use vstd::prelude::*;
use vstd::string::*;

verus! {

/// A run of laps on one tyre compound, from `start_lap` to `end_lap` inclusive.
#[derive(Debug, Clone)]
pub struct Stint {
    pub compound: String,
    pub start_lap: u32,
    pub end_lap: u32,
}

impl Stint {
    /// Number of lap numbers from `start_lap` to `end_lap`, both included.
    pub open spec fn length_spec(&self) -> int {
        self.end_lap - self.start_lap + 1
    }

    /// Whether `lap_number` lies between `start_lap` and `end_lap`.
    pub open spec fn covers(&self, lap_number: int) -> bool {
        self.start_lap <= lap_number <= self.end_lap
    }

    /// Length in laps; at least 1 for every stint the segmenter records.
    pub fn length(&self) -> (n: i64)
        ensures
            n == self.length_spec(),
    {
        self.end_lap as i64 - self.start_lap as i64 + 1
    }
}

/// Lap `i` closes a stint: it is the last lap, it goes into the pits, the next lap comes
/// out of the pits, or the next lap is on another compound without a pit-out flag.
pub open spec fn is_stint_end(laps: Seq<ProcessedLapData>, i: int) -> bool
    recommends
        0 <= i < laps.len(),
{
    ||| i == laps.len() - 1
    ||| laps[i].is_pit_in_lap
    ||| laps[i + 1].is_pit_out_lap
    ||| (laps[i + 1].compound@ != laps[i].compound@ && !laps[i + 1].is_pit_out_lap)
}

/// The stint that opened at index `start` and closes at index `end`, as a sequence of one;
/// nothing when its length would not be positive.
pub open spec fn closed_stint(laps: Seq<ProcessedLapData>, start: int, end: int) -> Seq<Stint>
    recommends
        0 <= start <= end < laps.len(),
{
    if laps[end].lap_number >= laps[start].lap_number {
        seq![
            Stint {
                compound: laps[start].compound,
                start_lap: laps[start].lap_number,
                end_lap: laps[end].lap_number,
            },
        ]
    } else {
        Seq::empty()
    }
}

/// The stints that close at index `i` or later, the open one having begun at `start`.
pub open spec fn stints_from(laps: Seq<ProcessedLapData>, start: int, i: int) -> Seq<Stint>
    decreases laps.len() - i,
{
    if i < 0 || i >= laps.len() {
        Seq::empty()
    } else if is_stint_end(laps, i) {
        closed_stint(laps, start, i) + stints_from(laps, i + 1, i + 1)
    } else {
        stints_from(laps, start, i + 1)
    }
}

/// The stints of one driver's laps, in the order in which they were driven.
pub open spec fn stints_of(laps: Seq<ProcessedLapData>) -> Seq<Stint> {
    stints_from(laps, 0, 0)
}

/// Sum of the lengths of `stints`.
pub open spec fn total_length(stints: Seq<Stint>) -> int
    decreases stints.len(),
{
    if stints.len() == 0 {
        0
    } else {
        total_length(stints.drop_last()) + stints.last().length_spec()
    }
}

/// One more stint adds its length to the sum.
pub proof fn lemma_total_length_push(stints: Seq<Stint>, stint: Stint)
    ensures
        total_length(stints.push(stint)) == total_length(stints) + stint.length_spec(),
{
    assert(stints.push(stint).drop_last() == stints);
}

/// The length of two lists of stints put together is the sum of their lengths.
pub proof fn lemma_total_length_concat(a: Seq<Stint>, b: Seq<Stint>)
    ensures
        total_length(a + b) == total_length(a) + total_length(b),
    decreases b.len(),
{
    if b.len() == 0 {
        assert(a + b == a);
    } else {
        assert((a + b).drop_last() == a + b.drop_last());
        lemma_total_length_concat(a, b.drop_last());
    }
}

/// How many of `stints` hold `lap_number` in their range.
pub open spec fn times_covered(stints: Seq<Stint>, lap_number: int) -> int
    decreases stints.len(),
{
    if stints.len() == 0 {
        0
    } else {
        (if stints.first().covers(lap_number) { 1int } else { 0int })
            + times_covered(stints.drop_first(), lap_number)
    }
}

/// Between two laps of one stint the lap number goes up by exactly one.
pub open spec fn gap_free_within_stints(laps: Seq<ProcessedLapData>) -> bool {
    forall|i: int|
        0 <= i < laps.len() - 1 && !is_stint_end(laps, i) ==> (#[trigger] laps[i + 1]).lap_number
            == laps[i].lap_number + 1
}

/// Cuts one driver's laps into stints.
///
/// A stint is recorded when its last lap number is not below its first; on laps in
/// chronological order that is every stint.
pub fn segment_stints(laps: &Vec<ProcessedLapData>) -> (stints: Vec<Stint>)
    ensures
        stints@ == stints_of(laps@),
{
    let mut stints: Vec<Stint> = Vec::new();
    let n = laps.len();
    let mut start: usize = 0;
    let mut i: usize = 0;
    while i < n
        invariant
            n == laps.len(),
            0 <= start <= i <= n,
            stints@ + stints_from(laps@, start as int, i as int) == stints_of(laps@),
        decreases n - i,
    {
        let is_last = i == n - 1;
        let ends = is_last || laps[i].is_pit_in_lap || laps[i + 1].is_pit_out_lap || !(laps[i
            + 1].compound == laps[i].compound);
        assert(ends == is_stint_end(laps@, i as int));
        if ends {
            let ghost before = stints@;
            if laps[i].lap_number >= laps[start].lap_number {
                stints.push(
                    Stint {
                        compound: laps[start].compound.clone(),
                        start_lap: laps[start].lap_number,
                        end_lap: laps[i].lap_number,
                    },
                );
            }
            assert(stints@ == before + closed_stint(laps@, start as int, i as int));
            assert(before + (closed_stint(laps@, start as int, i as int) + stints_from(
                laps@,
                i + 1,
                i + 1,
            )) == stints@ + stints_from(laps@, i + 1, i + 1));
            start = i + 1;
        }
        i += 1;
    }
    assert(stints_from(laps@, start as int, n as int) == Seq::<Stint>::empty());
    assert(stints@ + Seq::<Stint>::empty() == stints@);
    stints
}

/// No stint that closes at index `i` or later covers a lap number below that of the lap
/// at `start`.
proof fn lemma_earlier_laps_uncovered(
    laps: Seq<ProcessedLapData>,
    start: int,
    i: int,
    lap_number: int,
)
    requires
        chronological(laps),
        0 <= start <= i <= laps.len(),
        start < laps.len() ==> lap_number < laps[start].lap_number,
    ensures
        times_covered(stints_from(laps, start, i), lap_number) == 0,
    decreases laps.len() - i,
{
    if i < laps.len() {
        if is_stint_end(laps, i) {
            let rest = stints_from(laps, i + 1, i + 1);
            lemma_earlier_laps_uncovered(laps, i + 1, i + 1, lap_number);
            let closed = closed_stint(laps, start, i);
            if closed.len() == 1 {
                assert((closed + rest).drop_first() == rest);
            } else {
                assert(closed + rest == rest);
            }
        } else {
            lemma_earlier_laps_uncovered(laps, start, i + 1, lap_number);
        }
    }
}

/// With the open stint begun at `start` and no stint closed between `start` and `i`,
/// the lap at any index `k` from `start` on lies in exactly one of the stints to come.
proof fn lemma_covered_once_from(laps: Seq<ProcessedLapData>, start: int, i: int, k: int)
    requires
        chronological(laps),
        0 <= start <= i <= laps.len(),
        forall|j: int| start <= j < i ==> !is_stint_end(laps, j),
        start <= k < laps.len(),
    ensures
        times_covered(stints_from(laps, start, i), laps[k].lap_number as int) == 1,
    decreases laps.len() - i,
{
    if i >= laps.len() {
        assert(is_stint_end(laps, laps.len() - 1));
    } else if is_stint_end(laps, i) {
        let rest = stints_from(laps, i + 1, i + 1);
        let closed = closed_stint(laps, start, i);
        assert(laps[start].lap_number <= laps[i].lap_number);
        assert(closed.len() == 1);
        assert((closed + rest).drop_first() == rest);
        assert((closed + rest).first() == closed[0]);
        if k <= i {
            assert(laps[start].lap_number <= laps[k].lap_number <= laps[i].lap_number);
            lemma_earlier_laps_uncovered(laps, i + 1, i + 1, laps[k].lap_number as int);
        } else {
            assert(laps[i].lap_number < laps[k].lap_number);
            lemma_covered_once_from(laps, i + 1, i + 1, k);
        }
    } else {
        lemma_covered_once_from(laps, start, i + 1, k);
    }
}

/// On laps in chronological order every lap number of the input lies in the range of
/// exactly one stint.
pub proof fn lemma_each_lap_in_one_stint(laps: Seq<ProcessedLapData>, k: int)
    requires
        chronological(laps),
        0 <= k < laps.len(),
    ensures
        times_covered(stints_of(laps), laps[k].lap_number as int) == 1,
{
    lemma_covered_once_from(laps, 0, 0, k);
}

/// With the open stint begun at `start`, no stint closed between `start` and `i`, and the
/// lap numbers from `start` to `i` consecutive, the stints to come are as long together as
/// there are laps from `start` on.
proof fn lemma_total_length_from(laps: Seq<ProcessedLapData>, start: int, i: int)
    requires
        gap_free_within_stints(laps),
        0 <= start <= i <= laps.len(),
        forall|j: int| start <= j < i ==> !is_stint_end(laps, j),
        i < laps.len() ==> laps[i].lap_number == laps[start].lap_number + (i - start),
    ensures
        total_length(stints_from(laps, start, i)) == laps.len() - start,
    decreases laps.len() - i,
{
    if i >= laps.len() {
        if start < laps.len() {
            assert(is_stint_end(laps, laps.len() - 1));
        }
    } else if is_stint_end(laps, i) {
        let rest = stints_from(laps, i + 1, i + 1);
        let closed = closed_stint(laps, start, i);
        assert(closed.len() == 1);
        assert(total_length(closed) == closed[0].length_spec()) by {
            assert(closed.drop_last().len() == 0);
            assert(total_length(closed.drop_last()) == 0);
        }
        lemma_total_length_concat(closed, rest);
        lemma_total_length_from(laps, i + 1, i + 1);
    } else {
        assert(laps[i + 1].lap_number == laps[i].lap_number + 1);
        lemma_total_length_from(laps, start, i + 1);
    }
}

/// Where the lap numbers inside each stint are consecutive, the lengths of the stints add
/// up to the number of laps.
pub proof fn lemma_stint_lengths_sum_to_lap_count(laps: Seq<ProcessedLapData>)
    requires
        gap_free_within_stints(laps),
    ensures
        total_length(stints_of(laps)) == laps.len(),
{
    lemma_total_length_from(laps, 0, 0);
}

/// A single lap gives exactly one stint, of length 1, whatever its compound and flags.
pub proof fn lemma_single_lap_is_one_stint(laps: Seq<ProcessedLapData>)
    requires
        laps.len() == 1,
    ensures
        stints_of(laps) == seq![
            Stint {
                compound: laps[0].compound,
                start_lap: laps[0].lap_number,
                end_lap: laps[0].lap_number,
            },
        ],
        stints_of(laps)[0].length_spec() == 1,
{
    assert(is_stint_end(laps, 0));
    assert(stints_from(laps, 1, 1) == Seq::<Stint>::empty());
    assert(stints_of(laps) == closed_stint(laps, 0, 0) + Seq::<Stint>::empty());
}

/// While a stint is open, every lap in it is on the compound of its first lap: the
/// compound that a following lap is held against is that of the whole stint.
pub proof fn lemma_open_stint_has_one_compound(laps: Seq<ProcessedLapData>, start: int, i: int)
    requires
        0 <= start <= i < laps.len(),
        forall|j: int| start <= j < i ==> !is_stint_end(laps, j),
    ensures
        laps[i].compound@ == laps[start].compound@,
    decreases i - start,
{
    if start < i {
        lemma_open_stint_has_one_compound(laps, start, i - 1);
        assert(!is_stint_end(laps, i - 1));
    }
}

/// None of the laps carries a pit flag.
pub open spec fn no_pit_flags(laps: Seq<ProcessedLapData>) -> bool {
    forall|i: int|
        0 <= i < laps.len() ==> !(#[trigger] laps[i]).is_pit_in_lap && !laps[i].is_pit_out_lap
}

/// All laps are on the compound of the first.
pub open spec fn constant_compound(laps: Seq<ProcessedLapData>) -> bool {
    forall|i: int| 0 <= i < laps.len() ==> (#[trigger] laps[i]).compound@ == laps[0].compound@
}

proof fn lemma_one_stint_from(laps: Seq<ProcessedLapData>, i: int)
    requires
        chronological(laps),
        no_pit_flags(laps),
        constant_compound(laps),
        0 <= i < laps.len(),
    ensures
        stints_from(laps, 0, i) == closed_stint(laps, 0, laps.len() - 1),
    decreases laps.len() - i,
{
    if i == laps.len() - 1 {
        assert(stints_from(laps, i + 1, i + 1) == Seq::<Stint>::empty());
        assert(closed_stint(laps, 0, i) + Seq::<Stint>::empty() == closed_stint(laps, 0, i));
    } else {
        assert(laps[i + 1].compound@ == laps[0].compound@);
        assert(laps[i].compound@ == laps[0].compound@);
        assert(!is_stint_end(laps, i));
        lemma_one_stint_from(laps, i + 1);
    }
}

/// Laps in chronological order, without pit flags and all on one compound, give exactly
/// one stint, from the first lap to the last.
pub proof fn lemma_unbroken_run_is_one_stint(laps: Seq<ProcessedLapData>)
    requires
        laps.len() > 0,
        chronological(laps),
        no_pit_flags(laps),
        constant_compound(laps),
    ensures
        stints_of(laps) == seq![
            Stint {
                compound: laps[0].compound,
                start_lap: laps[0].lap_number,
                end_lap: laps.last().lap_number,
            },
        ],
{
    lemma_one_stint_from(laps, 0);
    assert(laps[0].lap_number <= laps[laps.len() - 1].lap_number);
}

/// The stints that enter the average for `compound`: those on it whose length is positive.
pub open spec fn counted_on(compound: Seq<char>) -> spec_fn(Stint) -> bool {
    |s: Stint| s.compound@ == compound && s.length_spec() > 0
}

/// The mean length of the stints on `compound`, or `default` when there is none.
pub open spec fn average_length(stints: Seq<Stint>, compound: Seq<char>, default: Mean) -> Mean {
    let counted = stints.filter(counted_on(compound));
    if counted.len() == 0 {
        default
    } else {
        Mean { total: total_length(counted) as u128, count: counted.len() as u128 }
    }
}

/// Mean stint length on the medium and on the hard compound, in that order. A compound
/// without a stint gets the default that `config` holds for it.
pub fn average_stint_lengths(stints: &Vec<Stint>, config: &SimulationConfig) -> (averages: (
    Mean,
    Mean,
))
    ensures
        averages.0 == average_length(stints@, "MEDIUM"@, config.default_medium_stint),
        averages.1 == average_length(stints@, "HARD"@, config.default_hard_stint),
        stints@.filter(counted_on("MEDIUM"@)).len() == 0 ==> averages.0
            == config.default_medium_stint,
        stints@.filter(counted_on("HARD"@)).len() == 0 ==> averages.1
            == config.default_hard_stint,
{
    let medium = String::from_str("MEDIUM");
    let hard = String::from_str("HARD");
    let mut medium_total: u128 = 0;
    let mut medium_count: u128 = 0;
    let mut hard_total: u128 = 0;
    let mut hard_count: u128 = 0;
    let n = stints.len();
    let mut i: usize = 0;
    proof {
        reveal(Seq::filter);
        assert(stints@.take(0).filter(counted_on("MEDIUM"@)).len() == 0);
        assert(stints@.take(0).filter(counted_on("HARD"@)).len() == 0);
    }
    while i < n
        invariant
            n == stints.len(),
            0 <= i <= n,
            medium@ == "MEDIUM"@,
            hard@ == "HARD"@,
            medium_count == stints@.take(i as int).filter(counted_on("MEDIUM"@)).len(),
            medium_total == total_length(stints@.take(i as int).filter(counted_on("MEDIUM"@))),
            hard_count == stints@.take(i as int).filter(counted_on("HARD"@)).len(),
            hard_total == total_length(stints@.take(i as int).filter(counted_on("HARD"@))),
            medium_count <= i,
            hard_count <= i,
            medium_total <= i * 0x1_0000_0000,
            hard_total <= i * 0x1_0000_0000,
        decreases n - i,
    {
        let stint = &stints[i];
        let length = stint.length();
        proof {
            lemma_filter_take_step(stints@, counted_on("MEDIUM"@), i as int);
            lemma_filter_take_step(stints@, counted_on("HARD"@), i as int);
            lemma_total_length_push(
                stints@.take(i as int).filter(counted_on("MEDIUM"@)),
                stints@[i as int],
            );
            lemma_total_length_push(
                stints@.take(i as int).filter(counted_on("HARD"@)),
                stints@[i as int],
            );
        }
        if length > 0 {
            if stint.compound == medium {
                medium_total = medium_total + length as u128;
                medium_count = medium_count + 1;
            }
            if stint.compound == hard {
                hard_total = hard_total + length as u128;
                hard_count = hard_count + 1;
            }
        }
        i += 1;
    }
    assert(stints@.take(n as int) == stints@);
    let medium_average = if medium_count == 0 {
        config.default_medium_stint
    } else {
        Mean { total: medium_total, count: medium_count }
    };
    let hard_average = if hard_count == 0 {
        config.default_hard_stint
    } else {
        Mean { total: hard_total, count: hard_count }
    };
    (medium_average, hard_average)
}

} // verus!

//! Electricity rate structures: a flat rate, or named tiers that are active
//! over hour ranges of weekdays and weekends.

use crate::calendar::{DAYS_PER_YEAR, HOURS_PER_YEAR};
use vstd::prelude::*;

verus! {

/// Number of hours in a day; hours are counted `0..HOURS_PER_DAY`.
pub const HOURS_PER_DAY: u8 = 24;

/// The kind of day a range applies to.
#[derive(Debug, Clone, Copy, PartialEq, Eq, Structural)]
pub enum WeekdayType {
    /// Monday through Friday
    Weekday,
    /// Saturday and Sunday
    Weekend,
}

/// A range of hours `from..till` on one kind of day. Where `from > till` the
/// range wraps past midnight: it holds the hours from `from` on and those
/// before `till`.
#[derive(Debug, Clone, Copy, PartialEq, Eq, Structural)]
pub struct HourRange {
    /// Starting hour (0-23)
    pub from: u8,
    /// Ending hour (exclusive)
    pub till: u8,
    /// Kind of day this range applies to
    pub weekday_type: WeekdayType,
}

impl HourRange {
    /// Whether `hour` on a day of kind `weekday_type` lies in this range.
    pub open spec fn covers(self, hour: int, weekday_type: WeekdayType) -> bool {
        &&& self.weekday_type == weekday_type
        &&& if self.from > self.till {
            hour >= self.from || hour < self.till
        } else {
            self.from <= hour < self.till
        }
    }

    /// Creates a new hour range
    pub fn new(from: u8, till: u8, weekday_type: WeekdayType) -> (r: Self)
        ensures
            r.from == from,
            r.till == till,
            r.weekday_type == weekday_type,
    {
        Self { from, till, weekday_type }
    }

    /// Checks if this hour range matches the given hour and day type
    pub fn matches_hour(&self, hour: u8, weekday_type: WeekdayType) -> (r: bool)
        ensures
            r == self.covers(hour as int, weekday_type),
    {
        if self.weekday_type != weekday_type {
            return false;
        }
        if self.from > self.till {
            hour >= self.from || hour < self.till
        } else {
            hour >= self.from && hour < self.till
        }
    }
}

/// How many of `ranges` hold `hour` on a day of kind `weekday_type`.
pub open spec fn ranges_count(ranges: Seq<HourRange>, hour: int, weekday_type: WeekdayType) -> nat
    decreases ranges.len(),
{
    if ranges.len() == 0 {
        0
    } else {
        ranges_count(ranges.drop_last(), hour, weekday_type) + if ranges.last().covers(
            hour,
            weekday_type,
        ) {
            1nat
        } else {
            0nat
        }
    }
}

/// A single tier of a tiered rate structure.
#[derive(Debug, Clone, PartialEq)]
pub struct RateTier {
    /// Name of the tier (e.g., "Peak", "Off-Peak", "Super Off-Peak")
    pub name: String,
    /// Price per unit of electricity in this tier. The library carries the
    /// value and never computes with it; zero stands for "no price".
    pub rate: u64,
    /// Hour ranges in which this tier applies
    pub hour_ranges: Vec<HourRange>,
}

impl RateTier {
    /// Whether some range of this tier holds `hour` on a day of kind
    /// `weekday_type`.
    pub open spec fn applies(self, hour: int, weekday_type: WeekdayType) -> bool {
        exists|i: int|
            0 <= i < self.hour_ranges@.len() && (#[trigger] self.hour_ranges@[i]).covers(
                hour,
                weekday_type,
            )
    }

    /// Creates a new rate tier
    pub fn new(name: String, rate: u64, hour_ranges: Vec<HourRange>) -> (r: Self)
        ensures
            r.name == name,
            r.rate == rate,
            r.hour_ranges == hour_ranges,
    {
        Self { name, rate, hour_ranges }
    }

    /// Checks if this tier applies to the given hour and day type
    pub fn matches_hour(&self, hour: u8, weekday_type: WeekdayType) -> (r: bool)
        ensures
            r == self.applies(hour as int, weekday_type),
    {
        let n = self.hour_ranges.len();
        let mut i: usize = 0;
        while i < n
            invariant
                n == self.hour_ranges@.len(),
                i <= n,
                forall|k: int|
                    0 <= k < i ==> !(#[trigger] self.hour_ranges@[k]).covers(
                        hour as int,
                        weekday_type,
                    ),
            decreases n - i,
        {
            if self.hour_ranges[i].matches_hour(hour, weekday_type) {
                return true;
            }
            i += 1;
        }
        false
    }
}

/// How many ranges over all of `tiers` hold `hour` on a day of kind
/// `weekday_type`.
pub open spec fn tiers_count(tiers: Seq<RateTier>, hour: int, weekday_type: WeekdayType) -> nat
    decreases tiers.len(),
{
    if tiers.len() == 0 {
        0
    } else {
        tiers_count(tiers.drop_last(), hour, weekday_type) + ranges_count(
            tiers.last().hour_ranges@,
            hour,
            weekday_type,
        )
    }
}

/// Every hour of a day of kind `weekday_type` lies in exactly one range of
/// `tiers`.
pub open spec fn covered_exactly_once(tiers: Seq<RateTier>, weekday_type: WeekdayType) -> bool {
    forall|hour: int|
        0 <= hour < HOURS_PER_DAY ==> #[trigger] tiers_count(tiers, hour, weekday_type) == 1
}

/// The rate of the first of `tiers` that applies to `hour` on a day of kind
/// `weekday_type`; zero where none applies.
pub open spec fn first_applicable_rate(
    tiers: Seq<RateTier>,
    hour: int,
    weekday_type: WeekdayType,
) -> u64
    decreases tiers.len(),
{
    if tiers.len() == 0 {
        0
    } else if tiers.first().applies(hour, weekday_type) {
        tiers.first().rate
    } else {
        first_applicable_rate(tiers.drop_first(), hour, weekday_type)
    }
}

/// The kind of the day with number `day` in a year whose first day, number 0,
/// is a Monday.
pub open spec fn weekday_type_of_day(day: int) -> WeekdayType {
    if day % 7 < 5 {
        WeekdayType::Weekday
    } else {
        WeekdayType::Weekend
    }
}

/// Counting over one more range adds that range's share.
proof fn lemma_ranges_count_step(
    ranges: Seq<HourRange>,
    k: int,
    hour: int,
    weekday_type: WeekdayType,
)
    requires
        0 <= k < ranges.len(),
    ensures
        ranges_count(ranges.take(k + 1), hour, weekday_type) == ranges_count(
            ranges.take(k),
            hour,
            weekday_type,
        ) + if ranges[k].covers(hour, weekday_type) {
            1nat
        } else {
            0nat
        },
{
    assert(ranges.take(k + 1).drop_last() =~= ranges.take(k));
}

/// Counting over one more tier adds that tier's count.
proof fn lemma_tiers_count_step(tiers: Seq<RateTier>, k: int, hour: int, weekday_type: WeekdayType)
    requires
        0 <= k < tiers.len(),
    ensures
        tiers_count(tiers.take(k + 1), hour, weekday_type) == tiers_count(
            tiers.take(k),
            hour,
            weekday_type,
        ) + ranges_count(tiers[k].hour_ranges@, hour, weekday_type),
{
    assert(tiers.take(k + 1).drop_last() =~= tiers.take(k));
}

/// A count over the first `k` ranges never exceeds the count over all.
proof fn lemma_ranges_count_prefix(
    ranges: Seq<HourRange>,
    k: int,
    hour: int,
    weekday_type: WeekdayType,
)
    requires
        0 <= k <= ranges.len(),
    ensures
        ranges_count(ranges.take(k), hour, weekday_type) <= ranges_count(
            ranges,
            hour,
            weekday_type,
        ),
    decreases ranges.len() - k,
{
    if k == ranges.len() {
        assert(ranges.take(k) =~= ranges);
    } else {
        lemma_ranges_count_step(ranges, k, hour, weekday_type);
        lemma_ranges_count_prefix(ranges, k + 1, hour, weekday_type);
    }
}

/// A count over the first `k` tiers never exceeds the count over all.
proof fn lemma_tiers_count_prefix(
    tiers: Seq<RateTier>,
    k: int,
    hour: int,
    weekday_type: WeekdayType,
)
    requires
        0 <= k <= tiers.len(),
    ensures
        tiers_count(tiers.take(k), hour, weekday_type) <= tiers_count(tiers, hour, weekday_type),
    decreases tiers.len() - k,
{
    if k == tiers.len() {
        assert(tiers.take(k) =~= tiers);
    } else {
        lemma_tiers_count_step(tiers, k, hour, weekday_type);
        lemma_tiers_count_prefix(tiers, k + 1, hour, weekday_type);
    }
}

/// What has been counted once the first `i` tiers and the first `j` ranges
/// of the tier after them have been looked at.
spec fn progress_count(
    tiers: Seq<RateTier>,
    i: int,
    j: int,
    hour: int,
    weekday_type: WeekdayType,
) -> nat
    recommends
        0 <= i < tiers.len(),
        0 <= j <= tiers[i].hour_ranges@.len(),
{
    tiers_count(tiers.take(i), hour, weekday_type) + ranges_count(
        tiers[i].hour_ranges@.take(j),
        hour,
        weekday_type,
    )
}

/// Progress through a table never counts more than the whole table holds.
proof fn lemma_progress_count_bound(
    tiers: Seq<RateTier>,
    i: int,
    j: int,
    hour: int,
    weekday_type: WeekdayType,
)
    requires
        0 <= i < tiers.len(),
        0 <= j <= tiers[i].hour_ranges@.len(),
    ensures
        progress_count(tiers, i, j, hour, weekday_type) <= tiers_count(tiers, hour, weekday_type),
{
    lemma_ranges_count_prefix(tiers[i].hour_ranges@, j, hour, weekday_type);
    lemma_tiers_count_step(tiers, i, hour, weekday_type);
    lemma_tiers_count_prefix(tiers, i + 1, hour, weekday_type);
}

/// No range is counted exactly where no range holds the hour.
pub proof fn lemma_ranges_count_zero(ranges: Seq<HourRange>, hour: int, weekday_type: WeekdayType)
    ensures
        ranges_count(ranges, hour, weekday_type) == 0 <==> forall|k: int|
            0 <= k < ranges.len() ==> !(#[trigger] ranges[k]).covers(hour, weekday_type),
    decreases ranges.len(),
{
    if ranges.len() > 0 {
        let front = ranges.drop_last();
        lemma_ranges_count_zero(front, hour, weekday_type);
        if ranges_count(ranges, hour, weekday_type) == 0 {
            assert forall|k: int| 0 <= k < ranges.len() implies !(#[trigger] ranges[k]).covers(
                hour,
                weekday_type,
            ) by {
                if k < front.len() {
                    assert(front[k] == ranges[k]);
                }
            }
        }
        if forall|k: int|
            0 <= k < ranges.len() ==> !(#[trigger] ranges[k]).covers(hour, weekday_type) {
            assert(!ranges.last().covers(hour, weekday_type));
            assert forall|k: int| 0 <= k < front.len() implies !(#[trigger] front[k]).covers(
                hour,
                weekday_type,
            ) by {
                assert(front[k] == ranges[k]);
            }
        }
    }
}

/// A tier counts for an hour exactly where it applies to it.
pub proof fn lemma_tier_counts_where_it_applies(tier: RateTier, hour: int, weekday_type: WeekdayType)
    ensures
        ranges_count(tier.hour_ranges@, hour, weekday_type) > 0 <==> tier.applies(
            hour,
            weekday_type,
        ),
{
    lemma_ranges_count_zero(tier.hour_ranges@, hour, weekday_type);
}

/// Where an hour is counted exactly once, exactly one tier applies to it,
/// and that tier sets the hour's rate.
pub proof fn lemma_counted_once_has_one_tier(
    tiers: Seq<RateTier>,
    hour: int,
    weekday_type: WeekdayType,
) -> (i: int)
    requires
        tiers_count(tiers, hour, weekday_type) == 1,
    ensures
        0 <= i < tiers.len(),
        tiers[i].applies(hour, weekday_type),
        forall|j: int|
            0 <= j < tiers.len() && j != i ==> !(#[trigger] tiers[j]).applies(hour, weekday_type),
        first_applicable_rate(tiers, hour, weekday_type) == tiers[i].rate,
    decreases tiers.len(),
{
    let front = tiers.drop_last();
    let last = tiers.last();
    lemma_tier_counts_where_it_applies(last, hour, weekday_type);
    let i = if tiers_count(front, hour, weekday_type) == 0 {
        lemma_no_tier_counted(front, hour, weekday_type);
        tiers.len() - 1
    } else {
        lemma_counted_once_has_one_tier(front, hour, weekday_type)
    };
    assert forall|j: int| 0 <= j < tiers.len() && j != i implies !(#[trigger] tiers[j]).applies(
        hour,
        weekday_type,
    ) by {
        if j < front.len() {
            assert(front[j] == tiers[j]);
        }
    }
    if i < front.len() {
        assert(front[i] == tiers[i]);
    }
    lemma_first_tier_sets_the_rate(tiers, i, hour, weekday_type);
    i
}

/// No tier is counted exactly where no tier applies.
pub proof fn lemma_no_tier_counted(tiers: Seq<RateTier>, hour: int, weekday_type: WeekdayType)
    ensures
        tiers_count(tiers, hour, weekday_type) == 0 <==> forall|i: int|
            0 <= i < tiers.len() ==> !(#[trigger] tiers[i]).applies(hour, weekday_type),
    decreases tiers.len(),
{
    if tiers.len() > 0 {
        let front = tiers.drop_last();
        lemma_no_tier_counted(front, hour, weekday_type);
        lemma_tier_counts_where_it_applies(tiers.last(), hour, weekday_type);
        if tiers_count(tiers, hour, weekday_type) == 0 {
            assert forall|i: int| 0 <= i < tiers.len() implies !(#[trigger] tiers[i]).applies(
                hour,
                weekday_type,
            ) by {
                if i < front.len() {
                    assert(front[i] == tiers[i]);
                }
            }
        }
        if forall|i: int|
            0 <= i < tiers.len() ==> !(#[trigger] tiers[i]).applies(hour, weekday_type) {
            assert(!tiers.last().applies(hour, weekday_type));
            assert forall|i: int| 0 <= i < front.len() implies !(#[trigger] front[i]).applies(
                hour,
                weekday_type,
            ) by {
                assert(front[i] == tiers[i]);
            }
        }
    }
}

/// The first tier that applies to an hour sets the hour's rate.
pub proof fn lemma_first_tier_sets_the_rate(
    tiers: Seq<RateTier>,
    i: int,
    hour: int,
    weekday_type: WeekdayType,
)
    requires
        0 <= i < tiers.len(),
        tiers[i].applies(hour, weekday_type),
        forall|j: int| 0 <= j < i ==> !(#[trigger] tiers[j]).applies(hour, weekday_type),
    ensures
        first_applicable_rate(tiers, hour, weekday_type) == tiers[i].rate,
    decreases i,
{
    if i > 0 {
        let rest = tiers.drop_first();
        assert(!tiers[0].applies(hour, weekday_type));
        assert(rest[i - 1] == tiers[i]);
        assert forall|j: int| 0 <= j < i - 1 implies !(#[trigger] rest[j]).applies(
            hour,
            weekday_type,
        ) by {
            assert(rest[j] == tiers[j + 1]);
        }
        lemma_first_tier_sets_the_rate(rest, i - 1, hour, weekday_type);
    }
}

/// A range and the range that wraps from its end to its start part the
/// day between them: each hour lies in exactly one of the two.
pub proof fn lemma_range_and_complement_part_the_day(
    from: u8,
    till: u8,
    weekday_type: WeekdayType,
    hour: int,
)
    requires
        from < till,
    ensures
        (HourRange { from, till, weekday_type }).covers(hour, weekday_type) != (HourRange {
            from: till,
            till: from,
            weekday_type,
        }).covers(hour, weekday_type),
        ranges_count(
            seq![
                HourRange { from, till, weekday_type },
                HourRange { from: till, till: from, weekday_type },
            ],
            hour,
            weekday_type,
        ) == 1,
{
    let pair = seq![
        HourRange { from, till, weekday_type },
        HourRange { from: till, till: from, weekday_type },
    ];
    assert(pair.drop_last().drop_last().len() == 0);
    assert(pair.drop_last().last() == pair[0]);
    reveal_with_fuel(ranges_count, 3);
}

/// A day on which no hour is marked yet.
fn unmarked_day() -> (covered: Vec<bool>)
    ensures
        covered@.len() == HOURS_PER_DAY,
        forall|h: int| 0 <= h < HOURS_PER_DAY ==> !covered@[h],
{
    let mut covered: Vec<bool> = Vec::new();
    let mut h: u8 = 0;
    while h < HOURS_PER_DAY
        invariant
            h <= HOURS_PER_DAY,
            covered@.len() == h,
            forall|k: int| 0 <= k < h ==> !covered@[k],
        decreases HOURS_PER_DAY - h,
    {
        covered.push(false);
        h += 1;
    }
    covered
}

/// Marks the hours of `hour_range` in `covered_hours`. Returns false, with
/// the marks left unfinished, if one of them was marked before.
fn mark_hours_covered(covered_hours: &mut Vec<bool>, hour_range: &HourRange) -> (ok: bool)
    requires
        old(covered_hours)@.len() == HOURS_PER_DAY,
    ensures
        final(covered_hours)@.len() == HOURS_PER_DAY,
        ok <==> forall|h: int|
            0 <= h < HOURS_PER_DAY ==> !(old(covered_hours)@[h] && hour_range.covers(
                h,
                hour_range.weekday_type,
            )),
        ok ==> forall|h: int|
            0 <= h < HOURS_PER_DAY ==> final(covered_hours)@[h] == (old(covered_hours)@[h]
                || hour_range.covers(h, hour_range.weekday_type)),
{
    let mut hour: u8 = 0;
    while hour < HOURS_PER_DAY
        invariant
            hour <= HOURS_PER_DAY,
            covered_hours@.len() == HOURS_PER_DAY,
            forall|h: int|
                0 <= h < hour ==> !(old(covered_hours)@[h] && hour_range.covers(
                    h,
                    hour_range.weekday_type,
                )),
            forall|h: int|
                0 <= h < hour ==> covered_hours@[h] == (old(covered_hours)@[h]
                    || hour_range.covers(h, hour_range.weekday_type)),
            forall|h: int| hour <= h < HOURS_PER_DAY ==> covered_hours@[h] == old(covered_hours)@[h],
        decreases HOURS_PER_DAY - hour,
    {
        if hour_range.matches_hour(hour, hour_range.weekday_type) {
            if covered_hours[hour as usize] {
                return false;
            }
            covered_hours.set(hour as usize, true);
        }
        hour += 1;
    }
    true
}

/// Validates that every hour of a day of kind `weekday_type` is covered
/// exactly once.
fn validate_coverage(tiers: &Vec<RateTier>, weekday_type: WeekdayType) -> (r: bool)
    ensures
        r == covered_exactly_once(tiers@, weekday_type),
{
    let mut covered_hours = unmarked_day();
    let n = tiers.len();
    let mut i: usize = 0;
    while i < n
        invariant
            n == tiers@.len(),
            i <= n,
            covered_hours@.len() == HOURS_PER_DAY,
            forall|h: int|
                0 <= h < HOURS_PER_DAY ==> (#[trigger] tiers_count(
                    tiers@.take(i as int),
                    h,
                    weekday_type,
                )) <= 1,
            forall|h: int|
                0 <= h < HOURS_PER_DAY ==> covered_hours@[h] == ((#[trigger] tiers_count(
                    tiers@.take(i as int),
                    h,
                    weekday_type,
                )) == 1),
        decreases n - i,
    {
        let tier = &tiers[i];
        let m = tier.hour_ranges.len();
        let mut j: usize = 0;
        assert(tier.hour_ranges@.take(0).len() == 0);
        while j < m
            invariant
                n == tiers@.len(),
                i < n,
                *tier == tiers@[i as int],
                m == tier.hour_ranges@.len(),
                j <= m,
                covered_hours@.len() == HOURS_PER_DAY,
                forall|h: int|
                    0 <= h < HOURS_PER_DAY ==> (#[trigger] progress_count(
                        tiers@,
                        i as int,
                        j as int,
                        h,
                        weekday_type,
                    )) <= 1,
                forall|h: int|
                    0 <= h < HOURS_PER_DAY ==> covered_hours@[h] == ((#[trigger] progress_count(
                        tiers@,
                        i as int,
                        j as int,
                        h,
                        weekday_type,
                    )) == 1),
            decreases m - j,
        {
            let hour_range = &tier.hour_ranges[j];
            let ghost before = covered_hours@;
            proof {
                assert forall|h: int| 0 <= h < HOURS_PER_DAY implies progress_count(
                    tiers@,
                    i as int,
                    j as int + 1,
                    h,
                    weekday_type,
                ) == progress_count(tiers@, i as int, j as int, h, weekday_type)
                    + if hour_range.covers(h, weekday_type) {
                    1nat
                } else {
                    0nat
                } by {
                    lemma_ranges_count_step(tier.hour_ranges@, j as int, h, weekday_type);
                }
            }
            if hour_range.weekday_type == weekday_type {
                let ok = mark_hours_covered(&mut covered_hours, hour_range);
                if !ok {
                    proof {
                        let h = choose|h: int|
                            0 <= h < HOURS_PER_DAY && before[h] && hour_range.covers(
                                h,
                                weekday_type,
                            );
                        assert(progress_count(tiers@, i as int, j as int, h, weekday_type) == 1);
                        assert(progress_count(tiers@, i as int, j as int + 1, h, weekday_type)
                            == 2);
                        lemma_progress_count_bound(
                            tiers@,
                            i as int,
                            j as int + 1,
                            h,
                            weekday_type,
                        );
                        assert(tiers_count(tiers@, h, weekday_type) >= 2);
                    }
                    return false;
                }
            }
            j += 1;
        }
        proof {
            assert(tier.hour_ranges@.take(m as int) =~= tier.hour_ranges@);
            assert forall|h: int| 0 <= h < HOURS_PER_DAY implies (#[trigger] tiers_count(
                tiers@.take(i as int + 1),
                h,
                weekday_type,
            )) == progress_count(tiers@, i as int, j as int, h, weekday_type) by {
                lemma_tiers_count_step(tiers@, i as int, h, weekday_type);
            }
        }
        i += 1;
    }
    assert(tiers@.take(n as int) =~= tiers@);
    let mut hour: u8 = 0;
    while hour < HOURS_PER_DAY
        invariant
            hour <= HOURS_PER_DAY,
            covered_hours@.len() == HOURS_PER_DAY,
            forall|h: int|
                0 <= h < HOURS_PER_DAY ==> covered_hours@[h] == ((#[trigger] tiers_count(
                    tiers@,
                    h,
                    weekday_type,
                )) == 1),
            forall|h: int| 0 <= h < hour ==> covered_hours@[h],
        decreases HOURS_PER_DAY - hour,
    {
        if !covered_hours[hour as usize] {
            assert(tiers_count(tiers@, hour as int, weekday_type) != 1);
            return false;
        }
        hour += 1;
    }
    true
}

/// Hours in a week: the length of a weekly rate vector.
pub const HOURS_PER_WEEK: usize = 168;

/// The place of `hour` of day number `day` in a vector of hourly values.
pub open spec fn hour_slot(day: int, hour: int) -> int {
    day * 24 + hour
}

/// An electricity rate structure.
#[derive(Debug, Clone, PartialEq)]
pub enum ElectricityRate {
    /// Fixed rate for all hours
    Fixed {
        /// The rate per unit of electricity
        rate: u64,
    },
    /// Different rates for different periods of the day and kinds of day
    Tiered {
        /// List of rate tiers
        tiers: Vec<RateTier>,
    },
}

impl ElectricityRate {
    /// A flat rate is always valid. A tier table is valid where every hour
    /// of a weekday lies in exactly one range, and every hour of a weekend
    /// day too.
    pub open spec fn valid(self) -> bool {
        match self {
            ElectricityRate::Fixed { .. } => true,
            ElectricityRate::Tiered { tiers } => covered_exactly_once(
                tiers@,
                WeekdayType::Weekday,
            ) && covered_exactly_once(tiers@, WeekdayType::Weekend),
        }
    }

    /// The rate that is charged in `hour` of a day of kind `weekday_type`.
    pub open spec fn rate_at(self, hour: int, weekday_type: WeekdayType) -> u64 {
        match self {
            ElectricityRate::Fixed { rate } => rate,
            ElectricityRate::Tiered { tiers } => first_applicable_rate(tiers@, hour, weekday_type),
        }
    }

    /// Creates a new fixed electricity rate
    pub fn fixed(rate: u64) -> (r: Self)
        ensures
            r == (ElectricityRate::Fixed { rate }),
    {
        Self::Fixed { rate }
    }

    /// Creates a new tiered electricity rate
    pub fn tiered(tiers: Vec<RateTier>) -> (r: Self)
        ensures
            r == (ElectricityRate::Tiered { tiers }),
    {
        Self::Tiered { tiers }
    }

    /// Gets the rate for a specific hour and day type: that of the first
    /// tier that applies, zero where none does.
    pub fn get_rate_for_hour(&self, hour: u8, weekday_type: WeekdayType) -> (r: u64)
        ensures
            r == self.rate_at(hour as int, weekday_type),
    {
        match self {
            ElectricityRate::Fixed { rate } => *rate,
            ElectricityRate::Tiered { tiers } => {
                let n = tiers.len();
                let mut i: usize = 0;
                assert(tiers@.skip(0) =~= tiers@);
                while i < n
                    invariant
                        n == tiers@.len(),
                        i <= n,
                        self.rate_at(hour as int, weekday_type) == first_applicable_rate(
                            tiers@,
                            hour as int,
                            weekday_type,
                        ),
                        first_applicable_rate(tiers@, hour as int, weekday_type)
                            == first_applicable_rate(
                            tiers@.skip(i as int),
                            hour as int,
                            weekday_type,
                        ),
                    decreases n - i,
                {
                    assert(tiers@.skip(i as int).drop_first() =~= tiers@.skip(i as int + 1));
                    assert(tiers@.skip(i as int).first() == tiers@[i as int]);
                    if tiers[i].matches_hour(hour, weekday_type) {
                        return tiers[i].rate;
                    }
                    i += 1;
                }
                0
            },
        }
    }

    /// Determines the kind of a day of the year, where day 0, the first of
    /// January, is taken to be a Monday.
    pub fn get_weekday_type_for_day_of_year(&self, day_of_year: u16) -> (r: WeekdayType)
        ensures
            r == weekday_type_of_day(day_of_year as int),
    {
        let day_of_week = day_of_year % 7;
        if day_of_week < 5 {
            WeekdayType::Weekday
        } else {
            WeekdayType::Weekend
        }
    }

    /// Converts the rate to the hourly rates of one week, Monday 0h first
    /// and Sunday 23h last.
    pub fn to_weekly_hourly_rates(&self) -> (rates: Vec<u64>)
        ensures
            rates@.len() == HOURS_PER_WEEK,
            forall|day: int, hour: int|
                0 <= day < 7 && 0 <= hour < HOURS_PER_DAY ==> rates@[#[trigger] hour_slot(day, hour)]
                    == self.rate_at(hour, weekday_type_of_day(day)),
    {
        self.hourly_rates(7)
    }

    /// Converts the rate to the hourly rates of a whole year of 365 days,
    /// the first of January 0h first.
    pub fn to_yearly_hourly_rates(&self) -> (rates: Vec<u64>)
        ensures
            rates@.len() == HOURS_PER_YEAR,
            forall|day: int, hour: int|
                0 <= day < DAYS_PER_YEAR && 0 <= hour < HOURS_PER_DAY ==> rates@[#[trigger] hour_slot(
                    day,
                    hour,
                )] == self.rate_at(hour, weekday_type_of_day(day)),
    {
        self.hourly_rates(DAYS_PER_YEAR)
    }

    /// The hourly rates of the first `days` days of the year.
    fn hourly_rates(&self, days: usize) -> (rates: Vec<u64>)
        requires
            days <= DAYS_PER_YEAR,
        ensures
            rates@.len() == days * 24,
            forall|day: int, hour: int|
                0 <= day < days && 0 <= hour < HOURS_PER_DAY ==> rates@[#[trigger] hour_slot(day, hour)]
                    == self.rate_at(hour, weekday_type_of_day(day)),
    {
        let mut rates: Vec<u64> = Vec::new();
        let mut day: usize = 0;
        while day < days
            invariant
                day <= days <= DAYS_PER_YEAR,
                rates@.len() == day * 24,
                forall|d: int, h: int|
                    0 <= d < day && 0 <= h < HOURS_PER_DAY ==> rates@[#[trigger] hour_slot(d, h)]
                        == self.rate_at(h, weekday_type_of_day(d)),
            decreases days - day,
        {
            let weekday_type = self.get_weekday_type_for_day_of_year(day as u16);
            let mut hour: u8 = 0;
            while hour < HOURS_PER_DAY
                invariant
                    day < days <= DAYS_PER_YEAR,
                    hour <= HOURS_PER_DAY,
                    weekday_type == weekday_type_of_day(day as int),
                    rates@.len() == day * 24 + hour,
                    forall|d: int, h: int|
                        0 <= d < day && 0 <= h < HOURS_PER_DAY ==> rates@[#[trigger] hour_slot(d, h)]
                            == self.rate_at(h, weekday_type_of_day(d)),
                    forall|h: int|
                        0 <= h < hour ==> #[trigger] rates@[day * 24 + h] == self.rate_at(
                            h,
                            weekday_type,
                        ),
                decreases HOURS_PER_DAY - hour,
            {
                let rate = self.get_rate_for_hour(hour, weekday_type);
                rates.push(rate);
                hour += 1;
            }
            day += 1;
        }
        rates
    }

    /// Validates that all weekday hours (0-23) are covered exactly once
    fn validate_weekday_coverage(&self, tiers: &Vec<RateTier>) -> (r: bool)
        ensures
            r == covered_exactly_once(tiers@, WeekdayType::Weekday),
    {
        validate_coverage(tiers, WeekdayType::Weekday)
    }

    /// Validates that all weekend hours (0-23) are covered exactly once
    fn validate_weekend_coverage(&self, tiers: &Vec<RateTier>) -> (r: bool)
        ensures
            r == covered_exactly_once(tiers@, WeekdayType::Weekend),
    {
        validate_coverage(tiers, WeekdayType::Weekend)
    }

    /// Validates that all weekend and weekday hours are covered exactly once
    pub fn is_valid(&self) -> (r: bool)
        ensures
            r == self.valid(),
    {
        match self {
            ElectricityRate::Fixed { .. } => true,
            ElectricityRate::Tiered { tiers } => {
                self.validate_weekday_coverage(tiers) && self.validate_weekend_coverage(tiers)
            },
        }
    }
}

/// A flat rate is valid, whatever it charges.
pub proof fn lemma_flat_rate_is_valid(rate: u64)
    ensures
        (ElectricityRate::Fixed { rate }).valid(),
{
}

/// A tier table in which some hour of a weekday or of a weekend day lies
/// in no range is invalid.
pub proof fn lemma_uncovered_hour_makes_invalid(
    tiers: Vec<RateTier>,
    hour: int,
    weekday_type: WeekdayType,
)
    requires
        0 <= hour < HOURS_PER_DAY,
        forall|i: int| 0 <= i < tiers@.len() ==> !(#[trigger] tiers@[i]).applies(hour, weekday_type),
    ensures
        !(ElectricityRate::Tiered { tiers }).valid(),
{
    lemma_no_tier_counted(tiers@, hour, weekday_type);
    assert(tiers_count(tiers@, hour, weekday_type) != 1);
    assert(!covered_exactly_once(tiers@, weekday_type));
}

/// In a valid tier table every hour of every day has exactly one tier that
/// applies to it, and is charged that tier's rate: no hour falls back to
/// the rate of zero for want of a tier.
pub proof fn lemma_valid_table_prices_every_hour(
    tiers: Vec<RateTier>,
    hour: int,
    weekday_type: WeekdayType,
) -> (i: int)
    requires
        (ElectricityRate::Tiered { tiers }).valid(),
        0 <= hour < HOURS_PER_DAY,
    ensures
        0 <= i < tiers@.len(),
        tiers@[i].applies(hour, weekday_type),
        forall|j: int|
            0 <= j < tiers@.len() && j != i ==> !(#[trigger] tiers@[j]).applies(hour, weekday_type),
        (ElectricityRate::Tiered { tiers }).rate_at(hour, weekday_type) == tiers@[i].rate,
{
    assert(covered_exactly_once(tiers@, weekday_type)) by {
        if weekday_type == WeekdayType::Weekday {
        } else {
        }
    }
    assert(tiers_count(tiers@, hour, weekday_type) == 1);
    lemma_counted_once_has_one_tier(tiers@, hour, weekday_type)
}

} // verus!

use crate::database::{
    records, revenue_keyed, same_day, PayoutData, RevenueData, SalaryData, ScheduleData,
    UserData, UserRecord,
};
use vstd::prelude::*;

verus! {

// ---------------------------------------------------------------------------
// What a statement is
// ---------------------------------------------------------------------------

/// Whether the worker is on the schedule of the day.
pub open spec fn worked(
    schedule: Seq<ScheduleData>,
    month: u8,
    year: u16,
    user_id: i32,
    day: u8,
) -> bool {
    schedule.contains(ScheduleData { day, month, year, user_id })
}

/// The workers on the schedule of a day.
pub open spec fn crew(schedule: Seq<ScheduleData>, month: u8, year: u16, day: u8) -> Set<i32> {
    Set::new(|user_id: i32| worked(schedule, month, year, user_id, day))
}

/// How many workers share the revenue of a day.
pub open spec fn num_users(schedule: Seq<ScheduleData>, month: u8, year: u16, day: u8) -> nat {
    crew(schedule, month, year, day).len()
}

/// Whether the revenue row is of the day.
pub open spec fn of_day(row: RevenueData, month: u8, year: u16, day: u8) -> bool {
    row.day == day && row.month == month && row.year == year
}

/// The revenue of a day that is shared out by percent: that of the last row
/// entered for the day, 0 if there is none.
pub open spec fn revenue_on(revenue: Seq<RevenueData>, month: u8, year: u16, day: u8) -> int
    decreases revenue.len(),
{
    if revenue.len() == 0 {
        0
    } else if of_day(revenue.last(), month, year, day) {
        revenue.last().with_percent as int
    } else {
        revenue_on(revenue.drop_last(), month, year, day)
    }
}

/// The share of a worker in the revenue of one day: the revenue is split evenly
/// among the crew, and the worker gets `percent` hundredths of one part. Each
/// division rounds down. Without a crew there is nothing to share.
pub open spec fn day_share(amount: int, crew: int, percent: int) -> int {
    if crew <= 0 {
        0
    } else {
        (amount / crew) * percent / 100
    }
}

/// What a day adds to the percent earnings of a worker.
pub open spec fn day_contribution(
    schedule: Seq<ScheduleData>,
    revenue: Seq<RevenueData>,
    month: u8,
    year: u16,
    user: UserRecord,
    day: u8,
) -> int {
    if worked(schedule, month, year, user.id, day) {
        day_share(
            revenue_on(revenue, month, year, day),
            num_users(schedule, month, year, day) as int,
            user.percent as int,
        )
    } else {
        0
    }
}

/// The number of days below `days` on which the worker is on the schedule.
pub open spec fn working_days_before(
    schedule: Seq<ScheduleData>,
    month: u8,
    year: u16,
    user_id: i32,
    days: int,
) -> int
    decreases days,
{
    if days <= 0 {
        0
    } else {
        working_days_before(schedule, month, year, user_id, days - 1) + if worked(
            schedule,
            month,
            year,
            user_id,
            (days - 1) as u8,
        ) {
            1int
        } else {
            0int
        }
    }
}

/// The number of distinct days of the month on which the worker is on the
/// schedule.
pub open spec fn working_days(
    schedule: Seq<ScheduleData>,
    month: u8,
    year: u16,
    user_id: i32,
) -> int {
    working_days_before(schedule, month, year, user_id, 256)
}

/// The contributions of the days below `days`, summed.
pub open spec fn percent_earnings_before(
    schedule: Seq<ScheduleData>,
    revenue: Seq<RevenueData>,
    month: u8,
    year: u16,
    user: UserRecord,
    days: int,
) -> int
    decreases days,
{
    if days <= 0 {
        0
    } else {
        percent_earnings_before(schedule, revenue, month, year, user, days - 1)
            + day_contribution(schedule, revenue, month, year, user, (days - 1) as u8)
    }
}

/// What the worker earns by percent over the month.
pub open spec fn percent_earnings(
    schedule: Seq<ScheduleData>,
    revenue: Seq<RevenueData>,
    month: u8,
    year: u16,
    user: UserRecord,
) -> int {
    percent_earnings_before(schedule, revenue, month, year, user, 256)
}

/// What the worker earns by the day over the month.
pub open spec fn fixed_earnings(
    schedule: Seq<ScheduleData>,
    month: u8,
    year: u16,
    user: UserRecord,
) -> int {
    user.pay * working_days(schedule, month, year, user.id)
}

/// What the worker is owed for the month.
pub open spec fn amount_owed(
    schedule: Seq<ScheduleData>,
    revenue: Seq<RevenueData>,
    month: u8,
    year: u16,
    user: UserRecord,
) -> int {
    fixed_earnings(schedule, month, year, user) + percent_earnings(
        schedule,
        revenue,
        month,
        year,
        user,
    )
}

/// What a payout row adds to what the worker was paid in the month.
pub open spec fn payout_to(row: PayoutData, month: u8, year: u16, user_id: i32) -> int {
    if row.month == month && row.year == year && row.user_id == user_id {
        row.amount as int
    } else {
        0
    }
}

/// What the worker was paid in the month: the sum of the worker's payout rows.
pub open spec fn amount_paid(payouts: Seq<PayoutData>, month: u8, year: u16, user_id: i32) -> int
    decreases payouts.len(),
{
    if payouts.len() == 0 {
        0
    } else {
        amount_paid(payouts.drop_last(), month, year, user_id) + payout_to(
            payouts.last(),
            month,
            year,
            user_id,
        )
    }
}

/// The statement of one user.
pub open spec fn statement(
    schedule: Seq<ScheduleData>,
    revenue: Seq<RevenueData>,
    payouts: Seq<PayoutData>,
    month: u8,
    year: u16,
    user: UserRecord,
) -> SalaryData {
    SalaryData {
        user_id: user.id,
        amount_paid: amount_paid(payouts, month, year, user.id) as u64,
        amount_owed: amount_owed(schedule, revenue, month, year, user) as u64,
    }
}

/// Whether both amounts of the user's statement fit in 64 bits.
pub open spec fn statement_fits(
    schedule: Seq<ScheduleData>,
    revenue: Seq<RevenueData>,
    payouts: Seq<PayoutData>,
    month: u8,
    year: u16,
    user: UserRecord,
) -> bool {
    amount_paid(payouts, month, year, user.id) <= u64::MAX && amount_owed(
        schedule,
        revenue,
        month,
        year,
        user,
    ) <= u64::MAX
}

/// Whether the statements of all workers fit.
pub open spec fn salaries_fit(
    users: Seq<UserRecord>,
    schedule: Seq<ScheduleData>,
    revenue: Seq<RevenueData>,
    payouts: Seq<PayoutData>,
    month: u8,
    year: u16,
) -> bool {
    forall|i: int|
        0 <= i < users.len() && (#[trigger] users[i]).is_worker ==> statement_fits(
            schedule,
            revenue,
            payouts,
            month,
            year,
            users[i],
        )
}

/// One statement for each user that is a worker, in the order of the users. A
/// worker without a row in any ledger has a statement too, with both amounts 0.
pub open spec fn statements(
    users: Seq<UserRecord>,
    schedule: Seq<ScheduleData>,
    revenue: Seq<RevenueData>,
    payouts: Seq<PayoutData>,
    month: u8,
    year: u16,
) -> Seq<SalaryData> {
    users.filter(|u: UserRecord| u.is_worker).map_values(
        |u: UserRecord| statement(schedule, revenue, payouts, month, year, u),
    )
}

// ---------------------------------------------------------------------------
// Grouping the ledgers by day
// ---------------------------------------------------------------------------

/// The crew of a day after one more row: the row's worker joins the crew of the
/// row's day, and no other crew changes.
proof fn lemma_crew_push(rows: Seq<ScheduleData>, row: ScheduleData, month: u8, year: u16, day: u8)
    ensures
        crew(rows.push(row), month, year, day) == if row.month == month && row.year == year
            && row.day == day {
            crew(rows, month, year, day).insert(row.user_id)
        } else {
            crew(rows, month, year, day)
        },
{
    let after = crew(rows.push(row), month, year, day);
    let before = crew(rows, month, year, day);
    assert forall|u: i32| after.contains(u) <==> (before.contains(u) || (row == ScheduleData {
        day,
        month,
        year,
        user_id: u,
    })) by {
        let key = ScheduleData { day, month, year, user_id: u };
        if rows.push(row).contains(key) {
            let i = choose|i: int| 0 <= i < rows.push(row).len() && rows.push(row)[i] == key;
            if i < rows.len() {
                assert(rows[i] == key);
            }
        }
        if rows.contains(key) {
            let i = choose|i: int| 0 <= i < rows.len() && rows[i] == key;
            assert(rows.push(row)[i] == key);
        }
        if row == key {
            assert(rows.push(row)[rows.len() as int] == key);
        }
    }
    if row.month == month && row.year == year && row.day == day {
        assert(after =~= before.insert(row.user_id));
    } else {
        assert(after =~= before);
    }
}

/// The crew of a day is finite, and no larger than the schedule is long.
pub proof fn lemma_crew_finite(schedule: Seq<ScheduleData>, month: u8, year: u16, day: u8)
    ensures
        crew(schedule, month, year, day).finite(),
        num_users(schedule, month, year, day) <= schedule.len(),
    decreases schedule.len(),
{
    if schedule.len() == 0 {
        assert(crew(schedule, month, year, day) =~= Set::<i32>::empty());
    } else {
        let rest = schedule.drop_last();
        lemma_crew_finite(rest, month, year, day);
        lemma_crew_push(rest, schedule.last(), month, year, day);
        assert(rest.push(schedule.last()) =~= schedule);
    }
}

/// Whether the row at `index` stands in the schedule before `index` too.
fn occurs_before(schedule: &Vec<ScheduleData>, index: usize) -> (r: bool)
    requires
        index < schedule.len(),
    ensures
        r == schedule@.take(index as int).contains(schedule@[index as int]),
{
    let row = schedule[index];
    let mut j: usize = 0;
    while j < index
        invariant
            j <= index < schedule.len(),
            row == schedule@[index as int],
            !schedule@.take(j as int).contains(row),
        decreases index - j,
    {
        if schedule[j] == row {
            assert(schedule@.take(index as int)[j as int] == row);
            return true;
        }
        proof {
            let upto = schedule@.take(j + 1);
            if upto.contains(row) {
                let i = choose|i: int| 0 <= i < upto.len() && upto[i] == row;
                if i < j {
                    assert(schedule@.take(j as int)[i] == row);
                }
            }
        }
        j += 1;
    }
    false
}

/// For each day from 0 to 255, how many distinct workers are on the schedule.
fn crew_sizes(schedule: &Vec<ScheduleData>, month: u8, year: u16) -> (sizes: Vec<u64>)
    ensures
        sizes@.len() == 256,
        forall|d: int|
            0 <= d < 256 ==> #[trigger] sizes@[d] == num_users(schedule@, month, year, d as u8),
{
    let mut sizes: Vec<u64> = Vec::new();
    let mut d: usize = 0;
    while d < 256
        invariant
            d <= 256,
            sizes@.len() == d,
            forall|k: int| 0 <= k < d ==> #[trigger] sizes@[k] == 0,
        decreases 256 - d,
    {
        sizes.push(0);
        d += 1;
    }
    proof {
        assert forall|k: int| 0 <= k < 256 implies #[trigger] sizes@[k] == num_users(
            schedule@.take(0),
            month,
            year,
            k as u8,
        ) by {
            lemma_crew_finite(schedule@.take(0), month, year, k as u8);
        }
    }
    let mut i: usize = 0;
    while i < schedule.len()
        invariant
            i <= schedule.len(),
            sizes@.len() == 256,
            forall|k: int|
                0 <= k < 256 ==> #[trigger] sizes@[k] == num_users(
                    schedule@.take(i as int),
                    month,
                    year,
                    k as u8,
                ),
        decreases schedule.len() - i,
    {
        let row = schedule[i];
        let ghost before = schedule@.take(i as int);
        let ghost old_sizes = sizes@;
        let counts = row.month == month && row.year == year && !occurs_before(schedule, i);
        if counts {
            let day = row.day as usize;
            proof {
                lemma_crew_finite(before, month, year, row.day);
            }
            let size = sizes[day];
            sizes.set(day, size + 1);
        }
        proof {
            assert(schedule@.take(i + 1) =~= before.push(row));
            assert forall|k: int| 0 <= k < 256 implies #[trigger] sizes@[k] == num_users(
                schedule@.take(i + 1),
                month,
                year,
                k as u8,
            ) by {
                lemma_crew_push(before, row, month, year, k as u8);
                lemma_crew_finite(before, month, year, k as u8);
                assert(old_sizes[k] == num_users(before, month, year, k as u8));
                if row.month == month && row.year == year && row.day == k as u8 {
                    assert(row == ScheduleData { day: k as u8, month, year, user_id: row.user_id });
                    assert(crew(before, month, year, k as u8).contains(row.user_id)
                        == before.contains(row));
                }
            }
        }
        i += 1;
    }
    assert(schedule@.take(i as int) =~= schedule@);
    sizes
}

/// For each day from 0 to 255, the revenue that is shared out by percent.
fn revenue_by_day(revenue: &Vec<RevenueData>, month: u8, year: u16) -> (amounts: Vec<u64>)
    ensures
        amounts@.len() == 256,
        forall|d: int|
            0 <= d < 256 ==> #[trigger] amounts@[d] == revenue_on(revenue@, month, year, d as u8),
{
    let mut amounts: Vec<u64> = Vec::new();
    let mut d: usize = 0;
    while d < 256
        invariant
            d <= 256,
            amounts@.len() == d,
            forall|k: int| 0 <= k < d ==> #[trigger] amounts@[k] == 0,
        decreases 256 - d,
    {
        amounts.push(0);
        d += 1;
    }
    let mut i: usize = 0;
    while i < revenue.len()
        invariant
            i <= revenue.len(),
            amounts@.len() == 256,
            forall|k: int|
                0 <= k < 256 ==> #[trigger] amounts@[k] == revenue_on(
                    revenue@.take(i as int),
                    month,
                    year,
                    k as u8,
                ),
        decreases revenue.len() - i,
    {
        let row = revenue[i];
        if row.month == month && row.year == year {
            amounts.set(row.day as usize, row.with_percent);
        }
        proof {
            let upto = revenue@.take(i + 1);
            assert(upto.drop_last() =~= revenue@.take(i as int));
            assert(upto.last() == row);
        }
        i += 1;
    }
    assert(revenue@.take(i as int) =~= revenue@);
    amounts
}

/// For each day from 0 to 255, whether the worker is on the schedule.
fn days_worked(schedule: &Vec<ScheduleData>, month: u8, year: u16, user_id: i32) -> (present: Vec<
    bool,
>)
    ensures
        present@.len() == 256,
        forall|d: int|
            0 <= d < 256 ==> #[trigger] present@[d] == worked(
                schedule@,
                month,
                year,
                user_id,
                d as u8,
            ),
{
    let mut present: Vec<bool> = Vec::new();
    let mut d: usize = 0;
    while d < 256
        invariant
            d <= 256,
            present@.len() == d,
            forall|k: int| 0 <= k < d ==> #[trigger] present@[k] == false,
        decreases 256 - d,
    {
        present.push(false);
        d += 1;
    }
    let mut i: usize = 0;
    while i < schedule.len()
        invariant
            i <= schedule.len(),
            present@.len() == 256,
            forall|k: int|
                0 <= k < 256 ==> #[trigger] present@[k] == worked(
                    schedule@.take(i as int),
                    month,
                    year,
                    user_id,
                    k as u8,
                ),
        decreases schedule.len() - i,
    {
        let row = schedule[i];
        let ghost before = schedule@.take(i as int);
        let ghost old_present = present@;
        if row.month == month && row.year == year && row.user_id == user_id {
            present.set(row.day as usize, true);
        }
        proof {
            assert(schedule@.take(i + 1) =~= before.push(row));
            assert forall|k: int| 0 <= k < 256 implies #[trigger] present@[k] == worked(
                schedule@.take(i + 1),
                month,
                year,
                user_id,
                k as u8,
            ) by {
                lemma_crew_push(before, row, month, year, k as u8);
                assert(crew(before.push(row), month, year, k as u8).contains(user_id) == worked(
                    before.push(row),
                    month,
                    year,
                    user_id,
                    k as u8,
                ));
                assert(crew(before, month, year, k as u8).contains(user_id) == worked(
                    before,
                    month,
                    year,
                    user_id,
                    k as u8,
                ));
                assert(old_present[k] == worked(before, month, year, user_id, k as u8));
            }
        }
        i += 1;
    }
    assert(schedule@.take(i as int) =~= schedule@);
    present
}

// ---------------------------------------------------------------------------
// Folding per worker
// ---------------------------------------------------------------------------

/// What was paid up to a row is no more than what was paid in all.
proof fn lemma_paid_prefix(payouts: Seq<PayoutData>, month: u8, year: u16, user_id: i32, n: int)
    requires
        0 <= n <= payouts.len(),
    ensures
        0 <= amount_paid(payouts.take(n), month, year, user_id) <= amount_paid(
            payouts,
            month,
            year,
            user_id,
        ),
    decreases payouts.len(),
{
    if n == payouts.len() {
        assert(payouts.take(n) =~= payouts);
        if n > 0 {
            lemma_paid_prefix(payouts.drop_last(), month, year, user_id, n - 1);
            assert(payouts.drop_last().take(n - 1) =~= payouts.drop_last());
        }
    } else {
        lemma_paid_prefix(payouts.drop_last(), month, year, user_id, n);
        assert(payouts.drop_last().take(n) =~= payouts.take(n));
    }
}

/// A share is never negative, and is the product that the machine computes.
proof fn lemma_day_share_bounds(amount: int, crew: int, percent: int)
    requires
        0 <= amount <= u64::MAX,
        0 <= crew,
        0 <= percent <= u64::MAX,
    ensures
        0 <= day_share(amount, crew, percent),
        crew > 0 ==> 0 <= (amount / crew) * percent <= 0xffff_ffff_ffff_ffff
            * 0xffff_ffff_ffff_ffff,
{
    if crew > 0 {
        let part = amount / crew;
        assert(0 <= part <= amount) by (nonlinear_arith)
            requires
                0 <= amount,
                crew > 0,
                part == amount / crew,
        ;
        assert(0 <= part * percent <= 0xffff_ffff_ffff_ffff * 0xffff_ffff_ffff_ffff)
            by (nonlinear_arith)
            requires
                0 <= part <= 0xffff_ffff_ffff_ffff,
                0 <= percent <= 0xffff_ffff_ffff_ffff,
        ;
    }
}

/// Percent earnings only grow from day to day, from 0.
proof fn lemma_percent_earnings_grow(
    schedule: Seq<ScheduleData>,
    revenue: Seq<RevenueData>,
    month: u8,
    year: u16,
    user: UserRecord,
    from: int,
    to: int,
)
    requires
        0 <= from <= to <= 256,
    ensures
        0 <= percent_earnings_before(schedule, revenue, month, year, user, from)
            <= percent_earnings_before(schedule, revenue, month, year, user, to),
    decreases to,
{
    if to > 0 {
        let day = (to - 1) as u8;
        lemma_revenue_on_bounds(revenue, month, year, day);
        lemma_crew_finite(schedule, month, year, day);
        lemma_day_share_bounds(
            revenue_on(revenue, month, year, day),
            num_users(schedule, month, year, day) as int,
            user.percent as int,
        );
        if from < to {
            lemma_percent_earnings_grow(schedule, revenue, month, year, user, from, to - 1);
        } else {
            lemma_percent_earnings_grow(schedule, revenue, month, year, user, from - 1, to - 1);
        }
    }
}

/// The revenue of a day is an amount of 64 bits.
proof fn lemma_revenue_on_bounds(revenue: Seq<RevenueData>, month: u8, year: u16, day: u8)
    ensures
        0 <= revenue_on(revenue, month, year, day) <= u64::MAX,
    decreases revenue.len(),
{
    if revenue.len() > 0 {
        lemma_revenue_on_bounds(revenue.drop_last(), month, year, day);
    }
}

/// A worker has between 0 and `days` working days below `days`.
proof fn lemma_working_days_bounds(
    schedule: Seq<ScheduleData>,
    month: u8,
    year: u16,
    user_id: i32,
    days: int,
)
    requires
        0 <= days,
    ensures
        0 <= working_days_before(schedule, month, year, user_id, days) <= days,
    decreases days,
{
    if days > 0 {
        lemma_working_days_bounds(schedule, month, year, user_id, days - 1);
    }
}

/// What the worker was paid in the month, if it fits in 64 bits.
fn paid_to(payouts: &Vec<PayoutData>, month: u8, year: u16, user_id: i32) -> (r: Option<u64>)
    ensures
        r is Some <==> amount_paid(payouts@, month, year, user_id) <= u64::MAX,
        r matches Some(paid) ==> paid == amount_paid(payouts@, month, year, user_id),
{
    let mut paid: u64 = 0;
    let mut i: usize = 0;
    while i < payouts.len()
        invariant
            i <= payouts.len(),
            paid == amount_paid(payouts@.take(i as int), month, year, user_id),
        decreases payouts.len() - i,
    {
        let row = payouts[i];
        proof {
            let upto = payouts@.take(i + 1);
            assert(upto.drop_last() =~= payouts@.take(i as int));
            assert(upto.last() == row);
            lemma_paid_prefix(payouts@, month, year, user_id, i + 1);
        }
        if row.month == month && row.year == year && row.user_id == user_id {
            let sum: u128 = paid as u128 + row.amount as u128;
            if sum > u64::MAX as u128 {
                return None;
            }
            paid = sum as u64;
        }
        i += 1;
    }
    assert(payouts@.take(i as int) =~= payouts@);
    Some(paid)
}

/// What the worker is owed for the month, if it fits in 64 bits, from the
/// ledgers grouped by day.
fn owed_to(
    sizes: &Vec<u64>,
    amounts: &Vec<u64>,
    present: &Vec<bool>,
    user: &UserData,
    Ghost(schedule): Ghost<Seq<ScheduleData>>,
    Ghost(revenue): Ghost<Seq<RevenueData>>,
    Ghost(month): Ghost<u8>,
    Ghost(year): Ghost<u16>,
) -> (r: Option<u64>)
    requires
        sizes@.len() == 256,
        amounts@.len() == 256,
        present@.len() == 256,
        forall|d: int|
            0 <= d < 256 ==> #[trigger] sizes@[d] == num_users(schedule, month, year, d as u8),
        forall|d: int|
            0 <= d < 256 ==> #[trigger] amounts@[d] == revenue_on(revenue, month, year, d as u8),
        forall|d: int|
            0 <= d < 256 ==> #[trigger] present@[d] == worked(
                schedule,
                month,
                year,
                user.id,
                d as u8,
            ),
    ensures
        r is Some <==> amount_owed(schedule, revenue, month, year, user@) <= u64::MAX,
        r matches Some(owed) ==> owed == amount_owed(schedule, revenue, month, year, user@),
{
    let mut days: u64 = 0;
    let mut earned: u64 = 0;
    let mut d: usize = 0;
    proof {
        lemma_working_days_bounds(schedule, month, year, user.id, 256);
        lemma_percent_earnings_grow(schedule, revenue, month, year, user@, 0, 256);
        assert(0 <= user.pay * working_days(schedule, month, year, user.id))
            by (nonlinear_arith)
            requires
                0 <= user.pay,
                0 <= working_days(schedule, month, year, user.id),
        ;
    }
    while d < 256
        invariant
            d <= 256,
            sizes@.len() == 256,
            amounts@.len() == 256,
            present@.len() == 256,
            forall|k: int|
                0 <= k < 256 ==> #[trigger] sizes@[k] == num_users(schedule, month, year, k as u8),
            forall|k: int|
                0 <= k < 256 ==> #[trigger] amounts@[k] == revenue_on(
                    revenue,
                    month,
                    year,
                    k as u8,
                ),
            forall|k: int|
                0 <= k < 256 ==> #[trigger] present@[k] == worked(
                    schedule,
                    month,
                    year,
                    user.id,
                    k as u8,
                ),
            days == working_days_before(schedule, month, year, user.id, d as int),
            days <= d,
            earned == percent_earnings_before(schedule, revenue, month, year, user@, d as int),
            0 <= fixed_earnings(schedule, month, year, user@),
        decreases 256 - d,
    {
        proof {
            lemma_percent_earnings_grow(schedule, revenue, month, year, user@, d + 1, 256);
            lemma_day_share_bounds(
                amounts@[d as int] as int,
                sizes@[d as int] as int,
                user.percent as int,
            );
            assert(d as u8 == d);
        }
        if present[d] {
            days = days + 1;
            let crew_size = sizes[d];
            let share: u128 = if crew_size == 0 {
                0
            } else {
                (amounts[d] as u128 / crew_size as u128) * (user.percent as u128) / 100
            };
            let sum: u128 = earned as u128 + share;
            if sum > u64::MAX as u128 {
                return None;
            }
            earned = sum as u64;
        }
        d += 1;
    }
    assert(0 <= user.pay as int * days as int <= 0xffff_ffff_ffff_ffff * 256)
        by (nonlinear_arith)
        requires
            0 <= days <= 256,
            0 <= user.pay <= 0xffff_ffff_ffff_ffff,
    ;
    let fixed: u128 = (user.pay as u128) * (days as u128);
    let owed: u128 = fixed + earned as u128;
    assert(fixed == fixed_earnings(schedule, month, year, user@)) by (nonlinear_arith)
        requires
            fixed == user.pay * days,
            days == working_days(schedule, month, year, user.id),
            fixed_earnings(schedule, month, year, user@) == user.pay * working_days(
                schedule,
                month,
                year,
                user.id,
            ),
    ;
    if owed > u64::MAX as u128 {
        None
    } else {
        Some(owed as u64)
    }
}

/// The statement of every worker for a month, from the users and the three
/// ledgers.
///
/// The ledgers may hold rows of other months; they are passed over. Workers come
/// in the order of `users`. The answer is `None` exactly when an amount of some
/// worker's statement does not fit in 64 bits.
pub fn calculate_salaries(
    users: &Vec<UserData>,
    schedule: &Vec<ScheduleData>,
    revenue: &Vec<RevenueData>,
    payouts: &Vec<PayoutData>,
    month: u8,
    year: u16,
) -> (r: Option<Vec<SalaryData>>)
    ensures
        r is Some <==> salaries_fit(records(users@), schedule@, revenue@, payouts@, month, year),
        r matches Some(rows) ==> rows@ == statements(
            records(users@),
            schedule@,
            revenue@,
            payouts@,
            month,
            year,
        ),
{
    let sizes = crew_sizes(schedule, month, year);
    let amounts = revenue_by_day(revenue, month, year);
    let mut rows: Vec<SalaryData> = Vec::new();
    let ghost all = records(users@);
    let ghost is_worker = |u: UserRecord| u.is_worker;
    let ghost to_statement = |u: UserRecord|
        statement(schedule@, revenue@, payouts@, month, year, u);
    let mut i: usize = 0;
    proof {
        reveal(Seq::filter);
        assert(all.take(0).filter(is_worker) =~= Seq::<UserRecord>::empty());
    }
    while i < users.len()
        invariant
            i <= users.len(),
            all == records(users@),
            all.len() == users.len(),
            is_worker == |u: UserRecord| u.is_worker,
            to_statement == |u: UserRecord|
                statement(schedule@, revenue@, payouts@, month, year, u),
            sizes@.len() == 256,
            amounts@.len() == 256,
            forall|d: int|
                0 <= d < 256 ==> #[trigger] sizes@[d] == num_users(schedule@, month, year, d as u8),
            forall|d: int|
                0 <= d < 256 ==> #[trigger] amounts@[d] == revenue_on(
                    revenue@,
                    month,
                    year,
                    d as u8,
                ),
            rows@ == all.take(i as int).filter(is_worker).map_values(to_statement),
            forall|k: int|
                0 <= k < i && (#[trigger] all[k]).is_worker ==> statement_fits(
                    schedule@,
                    revenue@,
                    payouts@,
                    month,
                    year,
                    all[k],
                ),
        decreases users.len() - i,
    {
        let user = &users[i];
        proof {
            assert(all[i as int] == user@);
            let before = all.take(i as int);
            assert(all.take(i + 1) =~= before.push(user@));
            before.lemma_filter_push(user@, is_worker);
            before.filter(is_worker).lemma_push_map_commute(to_statement, user@);
        }
        if user.is_worker {
            let present = days_worked(schedule, month, year, user.id);
            let owed = owed_to(
                &sizes,
                &amounts,
                &present,
                user,
                Ghost(schedule@),
                Ghost(revenue@),
                Ghost(month),
                Ghost(year),
            );
            let paid = paid_to(payouts, month, year, user.id);
            match (owed, paid) {
                (Some(amount_owed), Some(amount_paid)) => {
                    rows.push(SalaryData { user_id: user.id, amount_paid, amount_owed });
                },
                _ => {
                    return None;
                },
            }
        }
        i += 1;
    }
    assert(all.take(i as int) =~= all);
    Some(rows)
}

// ---------------------------------------------------------------------------
// Laws
// ---------------------------------------------------------------------------

/// A month without a schedule row owes nothing: every user's working days,
/// percent earnings and amount owed are 0, and so is the amount owed of every
/// statement.
pub proof fn lemma_empty_schedule_owes_nothing(
    users: Seq<UserRecord>,
    schedule: Seq<ScheduleData>,
    revenue: Seq<RevenueData>,
    payouts: Seq<PayoutData>,
    month: u8,
    year: u16,
)
    requires
        forall|i: int|
            0 <= i < schedule.len() ==> !((#[trigger] schedule[i]).month == month
                && schedule[i].year == year),
    ensures
        forall|user: UserRecord| #[trigger]
            amount_owed(schedule, revenue, month, year, user) == 0,
        forall|k: int|
            0 <= k < statements(users, schedule, revenue, payouts, month, year).len() ==> (
            #[trigger] statements(users, schedule, revenue, payouts, month, year)[k]).amount_owed
                == 0,
{
    assert forall|user: UserRecord| #[trigger]
        amount_owed(schedule, revenue, month, year, user) == 0 by {
        lemma_idle_before(schedule, revenue, month, year, user, 256);
    }
}

/// Without a schedule row in the month, nothing accrues up to any day.
proof fn lemma_idle_before(
    schedule: Seq<ScheduleData>,
    revenue: Seq<RevenueData>,
    month: u8,
    year: u16,
    user: UserRecord,
    days: int,
)
    requires
        forall|i: int|
            0 <= i < schedule.len() ==> !((#[trigger] schedule[i]).month == month
                && schedule[i].year == year),
    ensures
        working_days_before(schedule, month, year, user.id, days) == 0,
        percent_earnings_before(schedule, revenue, month, year, user, days) == 0,
    decreases days,
{
    if days > 0 {
        lemma_idle_before(schedule, revenue, month, year, user, days - 1);
        let key = ScheduleData { day: (days - 1) as u8, month, year, user_id: user.id };
        if schedule.contains(key) {
            let i = choose|i: int| 0 <= i < schedule.len() && schedule[i] == key;
            assert(schedule[i].month == month);
        }
    }
}

/// On a day on which the worker is on the schedule, the crew counts at least
/// that worker, and the day adds one crew member's part of the revenue, taken
/// at the worker's percent: `revenue / crew * percent / 100`.
pub proof fn lemma_contribution_of_a_worked_day(
    schedule: Seq<ScheduleData>,
    revenue: Seq<RevenueData>,
    month: u8,
    year: u16,
    user: UserRecord,
    day: u8,
)
    requires
        worked(schedule, month, year, user.id, day),
    ensures
        num_users(schedule, month, year, day) >= 1,
        day_contribution(schedule, revenue, month, year, user, day) == (revenue_on(
            revenue,
            month,
            year,
            day,
        ) / (num_users(schedule, month, year, day) as int)) * user.percent / 100,
{
    lemma_crew_finite(schedule, month, year, day);
    let members = crew(schedule, month, year, day);
    assert(members.contains(user.id));
    if members.len() == 0 {
        assert(members =~= Set::<i32>::empty());
    }
}

/// A day without a crew adds nothing to anyone, whatever its revenue: nothing
/// is ever divided by a crew of 0.
pub proof fn lemma_day_without_crew_adds_nothing(
    schedule: Seq<ScheduleData>,
    revenue: Seq<RevenueData>,
    month: u8,
    year: u16,
    user: UserRecord,
    day: u8,
)
    requires
        num_users(schedule, month, year, day) == 0,
    ensures
        day_contribution(schedule, revenue, month, year, user, day) == 0,
        forall|amount: int, percent: int| #[trigger] day_share(amount, 0, percent) == 0,
{
}

/// What was paid is what was paid without one row, plus that row's part.
proof fn lemma_paid_remove(payouts: Seq<PayoutData>, month: u8, year: u16, user_id: i32, at: int)
    requires
        0 <= at < payouts.len(),
    ensures
        amount_paid(payouts, month, year, user_id) == amount_paid(
            payouts.remove(at),
            month,
            year,
            user_id,
        ) + payout_to(payouts[at], month, year, user_id),
    decreases payouts.len(),
{
    if at == payouts.len() - 1 {
        assert(payouts.remove(at) =~= payouts.drop_last());
    } else {
        lemma_paid_remove(payouts.drop_last(), month, year, user_id, at);
        assert(payouts.remove(at).drop_last() =~= payouts.drop_last().remove(at));
        assert(payouts.remove(at).last() == payouts.last());
    }
}

/// The amount paid to a worker does not depend on the order of the payout rows:
/// two ledgers that hold the same rows, each as often as the other, give the
/// same amount.
pub proof fn lemma_paid_ignores_row_order(
    a: Seq<PayoutData>,
    b: Seq<PayoutData>,
    month: u8,
    year: u16,
    user_id: i32,
)
    requires
        a.to_multiset() == b.to_multiset(),
    ensures
        amount_paid(a, month, year, user_id) == amount_paid(b, month, year, user_id),
    decreases a.len(),
{
    broadcast use vstd::multiset::group_multiset_axioms;

    a.to_multiset_ensures();
    b.to_multiset_ensures();
    if a.len() == 0 {
        assert(b.len() == 0);
    } else {
        let row = a.last();
        assert(a[a.len() - 1] == row);
        assert(a.contains(row));
        assert(b.to_multiset().count(row) > 0);
        assert(b.contains(row));
        let at = choose|at: int| 0 <= at < b.len() && b[at] == row;
        vstd::seq_lib::to_multiset_remove(a, a.len() - 1);
        vstd::seq_lib::to_multiset_remove(b, at);
        assert(a.remove(a.len() - 1) =~= a.drop_last());
        lemma_paid_ignores_row_order(a.drop_last(), b.remove(at), month, year, user_id);
        lemma_paid_remove(b, month, year, user_id, at);
    }
}

/// What a worker is owed does not depend on the order of the schedule rows, nor
/// on how often a row is repeated: two schedules that hold the same rows give
/// the same crews, the same working days and the same amount owed.
pub proof fn lemma_owed_ignores_schedule_order(
    a: Seq<ScheduleData>,
    b: Seq<ScheduleData>,
    revenue: Seq<RevenueData>,
    month: u8,
    year: u16,
    user: UserRecord,
)
    requires
        forall|row: ScheduleData| a.contains(row) <==> b.contains(row),
    ensures
        forall|day: u8| #[trigger] num_users(a, month, year, day) == num_users(b, month, year, day),
        working_days(a, month, year, user.id) == working_days(b, month, year, user.id),
        amount_owed(a, revenue, month, year, user) == amount_owed(b, revenue, month, year, user),
{
    assert forall|day: u8| #[trigger]
        num_users(a, month, year, day) == num_users(b, month, year, day) by {
        assert(crew(a, month, year, day) =~= crew(b, month, year, day));
    }
    lemma_same_rows_before(a, b, revenue, month, year, user, 256);
}

/// Two schedules that hold the same rows accrue the same up to any day.
proof fn lemma_same_rows_before(
    a: Seq<ScheduleData>,
    b: Seq<ScheduleData>,
    revenue: Seq<RevenueData>,
    month: u8,
    year: u16,
    user: UserRecord,
    days: int,
)
    requires
        forall|row: ScheduleData| a.contains(row) <==> b.contains(row),
    ensures
        working_days_before(a, month, year, user.id, days) == working_days_before(
            b,
            month,
            year,
            user.id,
            days,
        ),
        percent_earnings_before(a, revenue, month, year, user, days) == percent_earnings_before(
            b,
            revenue,
            month,
            year,
            user,
            days,
        ),
    decreases days,
{
    if days > 0 {
        lemma_same_rows_before(a, b, revenue, month, year, user, days - 1);
        let day = (days - 1) as u8;
        assert(crew(a, month, year, day) =~= crew(b, month, year, day));
    }
}

/// Where each day has one revenue row at most, the revenue of a day is that of
/// its row, and 0 where it has none.
pub proof fn lemma_revenue_of_the_row(revenue: Seq<RevenueData>, month: u8, year: u16, day: u8)
    requires
        revenue_keyed(revenue),
    ensures
        forall|i: int|
            0 <= i < revenue.len() && of_day(#[trigger] revenue[i], month, year, day)
                ==> revenue_on(revenue, month, year, day) == revenue[i].with_percent,
        (forall|i: int| 0 <= i < revenue.len() ==> !of_day(#[trigger] revenue[i], month, year, day))
            ==> revenue_on(revenue, month, year, day) == 0,
    decreases revenue.len(),
{
    if revenue.len() > 0 {
        let rest = revenue.drop_last();
        assert forall|i: int, j: int| 0 <= i < j < rest.len() implies !same_day(
            rest[i],
            rest[j],
        ) by {
            assert(!same_day(revenue[i], revenue[j]));
        }
        lemma_revenue_of_the_row(rest, month, year, day);
        let last = revenue.last();
        assert forall|i: int|
            0 <= i < revenue.len() && of_day(
                #[trigger] revenue[i],
                month,
                year,
                day,
            ) implies revenue_on(revenue, month, year, day) == revenue[i].with_percent by {
            if i < revenue.len() - 1 {
                assert(rest[i] == revenue[i]);
                assert(!same_day(revenue[i], revenue[revenue.len() - 1]));
            }
        }
        if forall|i: int|
            0 <= i < revenue.len() ==> !of_day(#[trigger] revenue[i], month, year, day) {
            assert(!of_day(revenue[revenue.len() - 1], month, year, day));
            assert forall|i: int| 0 <= i < rest.len() implies !of_day(
                #[trigger] rest[i],
                month,
                year,
                day,
            ) by {
                assert(rest[i] == revenue[i]);
            }
        }
    }
}

/// What a worker is owed does not depend on the order of the revenue rows: two
/// ledgers with one row at most for each day that hold the same rows give the
/// same revenue for every day and the same amount owed.
pub proof fn lemma_owed_ignores_revenue_order(
    schedule: Seq<ScheduleData>,
    a: Seq<RevenueData>,
    b: Seq<RevenueData>,
    month: u8,
    year: u16,
    user: UserRecord,
)
    requires
        revenue_keyed(a),
        revenue_keyed(b),
        forall|row: RevenueData| a.contains(row) <==> b.contains(row),
    ensures
        forall|day: u8| #[trigger]
            revenue_on(a, month, year, day) == revenue_on(b, month, year, day),
        amount_owed(schedule, a, month, year, user) == amount_owed(schedule, b, month, year, user),
{
    assert forall|day: u8| #[trigger]
        revenue_on(a, month, year, day) == revenue_on(b, month, year, day) by {
        lemma_same_revenue(a, b, month, year, day);
    }
    lemma_same_revenue_before(schedule, a, b, month, year, user, 256);
}

/// Two revenue ledgers with one row at most for each day that hold the same
/// rows give the same revenue for a day.
proof fn lemma_same_revenue(a: Seq<RevenueData>, b: Seq<RevenueData>, month: u8, year: u16, day: u8)
    requires
        revenue_keyed(a),
        revenue_keyed(b),
        forall|row: RevenueData| a.contains(row) <==> b.contains(row),
    ensures
        revenue_on(a, month, year, day) == revenue_on(b, month, year, day),
{
    lemma_revenue_of_the_row(a, month, year, day);
    lemma_revenue_of_the_row(b, month, year, day);
    if exists|i: int| 0 <= i < a.len() && of_day(#[trigger] a[i], month, year, day) {
        let i = choose|i: int| 0 <= i < a.len() && of_day(#[trigger] a[i], month, year, day);
        assert(a.contains(a[i]));
        let j = choose|j: int| 0 <= j < b.len() && b[j] == a[i];
        assert(of_day(b[j], month, year, day));
    } else {
        assert forall|j: int| 0 <= j < b.len() implies !of_day(
            #[trigger] b[j],
            month,
            year,
            day,
        ) by {
            assert(b.contains(b[j]));
            if of_day(b[j], month, year, day) {
                let i = choose|i: int| 0 <= i < a.len() && a[i] == b[j];
                assert(of_day(a[i], month, year, day));
            }
        }
    }
}

/// Two such revenue ledgers accrue the same up to any day.
proof fn lemma_same_revenue_before(
    schedule: Seq<ScheduleData>,
    a: Seq<RevenueData>,
    b: Seq<RevenueData>,
    month: u8,
    year: u16,
    user: UserRecord,
    days: int,
)
    requires
        revenue_keyed(a),
        revenue_keyed(b),
        forall|row: RevenueData| a.contains(row) <==> b.contains(row),
    ensures
        percent_earnings_before(schedule, a, month, year, user, days) == percent_earnings_before(
            schedule,
            b,
            month,
            year,
            user,
            days,
        ),
    decreases days,
{
    if days > 0 {
        lemma_same_revenue_before(schedule, a, b, month, year, user, days - 1);
        lemma_same_revenue(a, b, month, year, (days - 1) as u8);
    }
}

/// A statement does not depend on the order of the rows of the three ledgers:
/// schedules that hold the same rows, revenue ledgers with one row at most for
/// each day that hold the same rows, and payout ledgers that hold the same rows
/// each as often as the other, give every user the same statement.
pub proof fn lemma_statement_ignores_row_order(
    schedule_a: Seq<ScheduleData>,
    schedule_b: Seq<ScheduleData>,
    revenue_a: Seq<RevenueData>,
    revenue_b: Seq<RevenueData>,
    payouts_a: Seq<PayoutData>,
    payouts_b: Seq<PayoutData>,
    month: u8,
    year: u16,
    user: UserRecord,
)
    requires
        forall|row: ScheduleData| schedule_a.contains(row) <==> schedule_b.contains(row),
        revenue_keyed(revenue_a),
        revenue_keyed(revenue_b),
        forall|row: RevenueData| revenue_a.contains(row) <==> revenue_b.contains(row),
        payouts_a.to_multiset() == payouts_b.to_multiset(),
    ensures
        statement(schedule_a, revenue_a, payouts_a, month, year, user) == statement(
            schedule_b,
            revenue_b,
            payouts_b,
            month,
            year,
            user,
        ),
{
    lemma_owed_ignores_schedule_order(schedule_a, schedule_b, revenue_a, month, year, user);
    lemma_owed_ignores_revenue_order(schedule_b, revenue_a, revenue_b, month, year, user);
    lemma_paid_ignores_row_order(payouts_a, payouts_b, month, year, user.id);
}

} // verus!

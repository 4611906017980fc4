use pravda::database::{PayoutData, RevenueData, SalaryData, ScheduleData, UserData};
use pravda::salary::calculate_salaries;

fn worker(id: i32, pay: u64, percent: u64) -> UserData {
    UserData {
        id,
        login: format!("worker{}", id),
        name: format!("Worker {}", id),
        is_admin: false,
        is_worker: true,
        pay,
        percent,
        pwd_hash: String::new(),
        pwd_salt: String::new(),
        token: String::new(),
    }
}

fn shift(day: u8, user_id: i32) -> ScheduleData {
    ScheduleData { day, month: 3, year: 2024, user_id }
}

fn revenue(day: u8, with_percent: u64) -> RevenueData {
    RevenueData { day, month: 3, year: 2024, with_percent, without_percent: 0 }
}

fn payout(day: u8, user_id: i32, amount: u64) -> PayoutData {
    PayoutData { day, month: 3, year: 2024, user_id, amount }
}

fn statement(user_id: i32, amount_paid: u64, amount_owed: u64) -> SalaryData {
    SalaryData { user_id, amount_paid, amount_owed }
}

#[test]
fn two_workers_share_the_revenue_of_a_day() {
    let users = vec![worker(1, 0, 50), worker(2, 0, 20)];
    let schedule = vec![shift(5, 1), shift(5, 2)];
    let rows = calculate_salaries(&users, &schedule, &vec![revenue(5, 100)], &vec![], 3, 2024);
    assert_eq!(rows, Some(vec![statement(1, 0, 25), statement(2, 0, 10)]));
}

#[test]
fn empty_schedule_owes_nothing() {
    let users = vec![worker(1, 1000, 50), worker(2, 700, 20)];
    let revenue_rows = vec![revenue(1, 5000), revenue(2, 7000)];
    let payouts = vec![payout(1, 2, 30)];
    let rows = calculate_salaries(&users, &vec![], &revenue_rows, &payouts, 3, 2024);
    assert_eq!(rows, Some(vec![statement(1, 0, 0), statement(2, 30, 0)]));
}

#[test]
fn schedule_of_another_month_owes_nothing() {
    let users = vec![worker(1, 1000, 50)];
    let schedule = vec![
        ScheduleData { day: 5, month: 4, year: 2024, user_id: 1 },
        ScheduleData { day: 5, month: 3, year: 2023, user_id: 1 },
    ];
    let rows = calculate_salaries(&users, &schedule, &vec![revenue(5, 100)], &vec![], 3, 2024);
    assert_eq!(rows, Some(vec![statement(1, 0, 0)]));
}

#[test]
fn share_is_revenue_by_crew_times_percent() {
    let users = vec![worker(1, 0, 50), worker(2, 0, 100), worker(3, 0, 7)];
    let schedule = vec![shift(9, 1), shift(9, 2), shift(9, 3)];
    let rows = calculate_salaries(&users, &schedule, &vec![revenue(9, 100)], &vec![], 3, 2024);
    // 100 / 3 = 33; 33 * 50 / 100 = 16; 33 * 100 / 100 = 33; 33 * 7 / 100 = 2
    assert_eq!(rows, Some(vec![statement(1, 0, 16), statement(2, 0, 33), statement(3, 0, 2)]));
}

#[test]
fn day_without_workers_contributes_nothing() {
    let users = vec![worker(1, 10, 50)];
    let schedule = vec![shift(4, 1)];
    let revenue_rows = vec![revenue(4, 200), revenue(6, 1_000_000)];
    let rows = calculate_salaries(&users, &schedule, &revenue_rows, &vec![], 3, 2024);
    assert_eq!(rows, Some(vec![statement(1, 0, 10 + 100)]));
}

#[test]
fn fixed_pay_counts_distinct_days() {
    let users = vec![worker(1, 1500, 0)];
    let schedule = vec![shift(1, 1), shift(2, 1), shift(2, 1), shift(1, 1), shift(31, 1)];
    let rows = calculate_salaries(&users, &schedule, &vec![], &vec![], 3, 2024);
    assert_eq!(rows, Some(vec![statement(1, 0, 4500)]));
}

#[test]
fn a_repeated_row_counts_one_worker() {
    let users = vec![worker(1, 0, 100), worker(2, 0, 100)];
    let schedule = vec![shift(5, 1), shift(5, 1), shift(5, 2)];
    let rows = calculate_salaries(&users, &schedule, &vec![revenue(5, 100)], &vec![], 3, 2024);
    assert_eq!(rows, Some(vec![statement(1, 0, 50), statement(2, 0, 50)]));
}

#[test]
fn paid_is_the_sum_of_the_payouts_in_any_order() {
    let users = vec![worker(1, 0, 0), worker(2, 0, 0)];
    let forward = vec![payout(1, 1, 100), payout(2, 2, 7), payout(3, 1, 250), payout(9, 1, 1)];
    let backward = vec![payout(9, 1, 1), payout(3, 1, 250), payout(2, 2, 7), payout(1, 1, 100)];
    let a = calculate_salaries(&users, &vec![], &vec![], &forward, 3, 2024);
    let b = calculate_salaries(&users, &vec![], &vec![], &backward, 3, 2024);
    assert_eq!(a, Some(vec![statement(1, 351, 0), statement(2, 7, 0)]));
    assert_eq!(a, b);
}

#[test]
fn payouts_of_other_months_are_passed_over() {
    let users = vec![worker(1, 0, 0)];
    let payouts = vec![
        payout(1, 1, 100),
        PayoutData { day: 1, month: 2, year: 2024, user_id: 1, amount: 5000 },
        PayoutData { day: 1, month: 3, year: 2025, user_id: 1, amount: 6000 },
    ];
    let rows = calculate_salaries(&users, &vec![], &vec![], &payouts, 3, 2024);
    assert_eq!(rows, Some(vec![statement(1, 100, 0)]));
}

#[test]
fn schedule_order_does_not_matter() {
    let users = vec![worker(1, 100, 50), worker(2, 200, 20)];
    let revenue_rows = vec![revenue(5, 100), revenue(6, 301)];
    let one = vec![shift(5, 1), shift(5, 2), shift(6, 2)];
    let other = vec![shift(6, 2), shift(5, 2), shift(5, 1)];
    let a = calculate_salaries(&users, &one, &revenue_rows, &vec![], 3, 2024);
    let b = calculate_salaries(&users, &other, &revenue_rows, &vec![], 3, 2024);
    // worker 1: 100 + 100/2*50/100 = 125; worker 2: 400 + 100/2*20/100 + 301*20/100 = 470
    assert_eq!(a, Some(vec![statement(1, 0, 125), statement(2, 0, 470)]));
    assert_eq!(a, b);
}

#[test]
fn only_workers_get_a_statement_and_idle_workers_get_zeros() {
    let mut admin = worker(1, 100, 10);
    admin.is_worker = false;
    let users = vec![admin, worker(2, 100, 10), worker(3, 100, 10)];
    let schedule = vec![shift(5, 1), shift(5, 3)];
    let rows = calculate_salaries(&users, &schedule, &vec![revenue(5, 1000)], &vec![], 3, 2024);
    // the crew of day 5 is two, whoever is a worker: 1000 / 2 * 10 / 100 = 50
    assert_eq!(rows, Some(vec![statement(2, 0, 0), statement(3, 0, 150)]));
}

#[test]
fn the_last_revenue_row_of_a_day_counts() {
    let users = vec![worker(1, 0, 100)];
    let schedule = vec![shift(5, 1)];
    let revenue_rows = vec![revenue(5, 100), revenue(5, 300)];
    let rows = calculate_salaries(&users, &schedule, &revenue_rows, &vec![], 3, 2024);
    assert_eq!(rows, Some(vec![statement(1, 0, 300)]));
}

#[test]
fn day_zero_and_day_255_count() {
    let users = vec![worker(1, 3, 100)];
    let schedule = vec![shift(0, 1), shift(255, 1)];
    let revenue_rows = vec![revenue(0, 10), revenue(255, 20)];
    let rows = calculate_salaries(&users, &schedule, &revenue_rows, &vec![], 3, 2024);
    assert_eq!(rows, Some(vec![statement(1, 0, 36)]));
}

#[test]
fn amounts_that_do_not_fit_give_none() {
    let users = vec![worker(1, 0, 0)];
    let payouts = vec![payout(1, 1, u64::MAX), payout(2, 1, 1)];
    assert_eq!(calculate_salaries(&users, &vec![], &vec![], &payouts, 3, 2024), None);

    let users = vec![worker(1, u64::MAX, 0)];
    let schedule = vec![shift(1, 1), shift(2, 1)];
    assert_eq!(calculate_salaries(&users, &schedule, &vec![], &vec![], 3, 2024), None);

    let users = vec![worker(1, 0, 200)];
    let schedule = vec![shift(1, 1)];
    let revenue_rows = vec![revenue(1, u64::MAX)];
    assert_eq!(calculate_salaries(&users, &schedule, &revenue_rows, &vec![], 3, 2024), None);
}

#[test]
fn amounts_at_the_limit_fit() {
    let users = vec![worker(1, u64::MAX, 100)];
    let schedule = vec![shift(1, 1)];
    let payouts = vec![payout(1, 1, u64::MAX)];
    let rows = calculate_salaries(&users, &schedule, &vec![], &payouts, 3, 2024);
    assert_eq!(rows, Some(vec![statement(1, u64::MAX, u64::MAX)]));

    let users = vec![worker(1, 0, 100)];
    let revenue_rows = vec![revenue(1, u64::MAX)];
    let rows = calculate_salaries(&users, &schedule, &revenue_rows, &vec![], 3, 2024);
    assert_eq!(rows, Some(vec![statement(1, 0, u64::MAX)]));
}

#[test]
fn no_users_no_statements() {
    let schedule = vec![shift(1, 1)];
    assert_eq!(calculate_salaries(&vec![], &schedule, &vec![], &vec![], 3, 2024), Some(vec![]));
}

use crate::database::{
    added_user, after_add_user, after_update_user, can_add_user, can_update_user, find_user,
    lemma_add_user_keeps_wf, lemma_can_update_in_wf, lemma_find_in_wf, lemma_find_the_only,
    lemma_find_user, lemma_next_id_is_free, lemma_toggle_on_then_off,
    lemma_toggled_keeps_distinct, lemma_update_user_keeps_wf, lemma_with_revenue_keeps_keyed,
    next_id, password_digest, pick_users, records, revenue_of, schedule_of, toggled,
    with_revenue, Database, RevenueData, SalaryData, ScheduleData, Store, UserData, UserKey,
    UserRecord, UserSearch,
};
use crate::protocol::{
    day_flags, name_texts, profiles, response_view, AdminRequest, ErrorView, Profile,
    ProtocolError, Request, Response, ResponseData, ResponseView, Revenue, Salary, User, UserId,
    UserRequest,
};
use crate::salary::{salaries_fit, statements, worked};
use crate::utils::{days_in_month, get_days_in_month, is_uuid_text, make_uuid};
use std::collections::HashMap;
use vstd::prelude::*;
use vstd::string::*;

verus! {

// ---------------------------------------------------------------------------
// What a request leads to
// ---------------------------------------------------------------------------

/// What a request leads to: the store after it, and the answer.
pub struct Outcome {
    pub state: Store,
    pub response: Result<ResponseView, ErrorView>,
}

/// What a request may use that it does not name itself: a fresh salt, a fresh
/// token, and the identifier that the store allots to a new user, if it has
/// one.
pub struct Drawn {
    pub salt: Seq<char>,
    pub token: Seq<char>,
    pub id: Option<UserId>,
}

/// The request went as `ideal` says.
pub open spec fn exact(
    ideal: Outcome,
    after: Store,
    response: Result<ResponseView, ErrorView>,
) -> bool {
    after == ideal.state && response == ideal.response
}

/// What holds of the store `after` a request and of the `response` to it, where
/// `ideal` is what the request leads to from the store `s` as long as the store
/// does not fail.
///
/// With a reliable store the request goes as `ideal` says. With any store, the
/// store is left as it was or as `ideal` says; an answer that is no error is the
/// one that `ideal` says, with the store as `ideal` says; a request that `ideal`
/// refuses changes nothing; and an error other than the one that `ideal` says
/// is an internal failure, or `LoginFailed` where the request is a sign-in.
pub open spec fn conforms(
    s: Store,
    ideal: Outcome,
    sign_in: bool,
    reliable: bool,
    after: Store,
    response: Result<ResponseView, ErrorView>,
) -> bool {
    &&& reliable ==> exact(ideal, after, response)
    &&& after == s || after == ideal.state
    &&& response is Ok ==> exact(ideal, after, response)
    &&& ideal.response is Err ==> after == s
    &&& response is Err && response != ideal.response ==> {
        ||| response == Err::<ResponseView, ErrorView>(ErrorView::Unknown)
        ||| sign_in && response == Err::<ResponseView, ErrorView>(ErrorView::LoginFailed)
    }
}

/// The request is refused and the store stays as it is.
pub open spec fn refused(s: Store, error: ErrorView) -> Outcome {
    Outcome { state: s, response: Err(error) }
}

/// The request is answered from the store, which stays as it is.
pub open spec fn answered(s: Store, data: ResponseView) -> Outcome {
    Outcome { state: s, response: Ok(data) }
}

/// The password that a new user gets, and a user whose password is reset.
pub open spec fn default_password() -> Seq<char> {
    "Qwer4321"@
}

/// The profile in a user's record.
pub open spec fn profile_of(user: UserRecord) -> Profile {
    Profile {
        id: user.id,
        login: user.login,
        name: user.name,
        is_admin: user.is_admin,
        is_worker: user.is_worker,
        pay: user.pay,
        percent: user.percent,
    }
}

/// The profiles of a list of users.
pub open spec fn profiles_of(users: Seq<UserRecord>) -> Seq<Profile> {
    users.map_values(|u: UserRecord| profile_of(u))
}

/// Whether the password is the one of the user.
pub open spec fn password_matches(user: UserRecord, password: Seq<char>) -> bool {
    user.pwd_hash == password_digest(password, user.pwd_salt)
}

/// A sign-in. It fails unless the login is known and the password is that
/// user's. Then the user gets the fresh token, and the answer holds it.
pub open spec fn login_outcome(
    s: Store,
    login: Seq<char>,
    password: Seq<char>,
    token: Seq<char>,
) -> Outcome {
    match find_user(s.users, UserKey::Login(login)) {
        None => refused(s, ErrorView::LoginFailed),
        Some(user) => if password_matches(user, password) {
            let renewed = UserRecord { token, ..user };
            if can_update_user(s.users, renewed) {
                Outcome {
                    state: after_update_user(s, renewed),
                    response: Ok(ResponseView::Login { token, id: user.id }),
                }
            } else {
                refused(s, ErrorView::Unknown)
            }
        } else {
            refused(s, ErrorView::LoginFailed)
        },
    }
}

/// Whether the worker has a row in the month.
pub open spec fn on_schedule(
    rows: Seq<ScheduleData>,
    month: u8,
    year: u16,
    user_id: UserId,
) -> bool {
    exists|i: int|
        0 <= i < rows.len() && (#[trigger] rows[i]).month == month && rows[i].year == year
            && rows[i].user_id == user_id
}

/// Whether the worker is on the schedule, day by day from day 0 on.
pub open spec fn presence(
    rows: Seq<ScheduleData>,
    month: u8,
    year: u16,
    user_id: UserId,
    len: nat,
) -> Seq<bool> {
    Seq::new(len, |d: int| worked(rows, month, year, user_id, d as u8))
}

/// The schedule of a month as a table: for each worker with a row in the month,
/// the days from 0 to the last day of the month. A row for a day beyond the
/// month does not show.
pub open spec fn presence_table(rows: Seq<ScheduleData>, year: u16, month: u8) -> Map<
    UserId,
    Seq<bool>,
> {
    Map::new(
        |user_id: UserId| on_schedule(rows, month, year, user_id),
        |user_id: UserId|
            presence(
                rows,
                month,
                year,
                user_id,
                (days_in_month(year as int, month as int) + 1) as nat,
            ),
    )
}

/// The schedule of a month.
pub open spec fn schedule_outcome(s: Store, year: u16, month: u8) -> Outcome {
    answered(
        s,
        ResponseView::Schedule { year, month, schedule: presence_table(s.schedule, year, month) },
    )
}

/// A day is marked as worked or as not worked by the user, and the schedule of
/// the month is answered as it then is.
pub open spec fn set_workday_outcome(
    s: Store,
    user_id: UserId,
    year: u16,
    month: u8,
    day: u8,
    is_working: bool,
) -> Outcome {
    schedule_outcome(
        Store {
            schedule: toggled(s.schedule, ScheduleData { day, month, year, user_id }, is_working),
            ..s
        },
        year,
        month,
    )
}

/// A user changes the password. It fails unless the old password is right.
/// Then the user gets the fresh salt and the digest of the new password; the
/// token stays.
pub open spec fn set_password_outcome(
    s: Store,
    user: UserRecord,
    old_password: Seq<char>,
    new_password: Seq<char>,
    salt: Seq<char>,
) -> Outcome {
    if password_matches(user, old_password) {
        let changed = UserRecord {
            pwd_salt: salt,
            pwd_hash: password_digest(new_password, salt),
            ..user
        };
        if can_update_user(s.users, changed) {
            Outcome {
                state: after_update_user(s, changed),
                response: Ok(ResponseView::PasswordChanged),
            }
        } else {
            refused(s, ErrorView::Unknown)
        }
    } else {
        refused(s, ErrorView::LoginFailed)
    }
}

/// The names of the users by identifier. Where two users share an identifier,
/// the later one shows.
pub open spec fn names_of(users: Seq<UserRecord>) -> Map<UserId, Seq<char>>
    decreases users.len(),
{
    if users.len() == 0 {
        Map::empty()
    } else {
        names_of(users.drop_last()).insert(users.last().id, users.last().name)
    }
}

/// The names of the users with the given identifiers.
pub open spec fn user_names_outcome(s: Store, ids: Seq<UserId>) -> Outcome {
    answered(s, ResponseView::UserNames { names: names_of(pick_users(s.users, Some(ids))) })
}

/// The profiles of all users.
pub open spec fn users_outcome(s: Store) -> Outcome {
    answered(s, ResponseView::Users(profiles_of(s.users)))
}

/// The record of a new user with the given profile: the default password under
/// the fresh salt, and the fresh token. The identifier is yet to be allotted.
pub open spec fn new_user(profile: Profile, salt: Seq<char>, token: Seq<char>) -> UserRecord {
    UserRecord {
        id: 0,
        login: profile.login,
        name: profile.name,
        is_admin: profile.is_admin,
        is_worker: profile.is_worker,
        pay: profile.pay,
        percent: profile.percent,
        pwd_hash: password_digest(default_password(), salt),
        pwd_salt: salt,
        token,
    }
}

/// A user is added under the identifier that the store allots. It fails with
/// `UserExist` if the login is taken. Then all profiles are answered.
pub open spec fn add_user_outcome(
    s: Store,
    profile: Profile,
    salt: Seq<char>,
    token: Seq<char>,
    id: Option<UserId>,
) -> Outcome {
    if find_user(s.users, UserKey::Login(profile.login)) is Some {
        refused(s, ErrorView::UserExist)
    } else if can_add_user(s.users, new_user(profile, salt, token), id) {
        Outcome {
            state: after_add_user(s, new_user(profile, salt, token), id),
            response: users_outcome(
                after_add_user(s, new_user(profile, salt, token), id),
            ).response,
        }
    } else {
        refused(s, ErrorView::Unknown)
    }
}

/// A user's password is reset to the default one, under the fresh salt, and the
/// user gets the fresh token, so that the session that was open ends.
pub open spec fn reset_password_outcome(
    s: Store,
    id: UserId,
    salt: Seq<char>,
    token: Seq<char>,
) -> Outcome {
    match find_user(s.users, UserKey::Id(id)) {
        None => refused(s, ErrorView::Unknown),
        Some(user) => {
            let reset = UserRecord {
                pwd_salt: salt,
                pwd_hash: password_digest(default_password(), salt),
                token,
                ..user
            };
            if can_update_user(s.users, reset) {
                Outcome {
                    state: after_update_user(s, reset),
                    response: Ok(ResponseView::PasswordReset),
                }
            } else {
                refused(s, ErrorView::Unknown)
            }
        },
    }
}

/// The record of a user after the profile was updated: name, roles, pay and
/// percent are taken from the profile; login and credentials stay.
pub open spec fn with_profile(user: UserRecord, profile: Profile) -> UserRecord {
    UserRecord {
        name: profile.name,
        is_worker: profile.is_worker,
        is_admin: profile.is_admin,
        pay: profile.pay,
        percent: profile.percent,
        ..user
    }
}

/// The profile of a user is updated, and all profiles are answered.
pub open spec fn update_user_outcome(s: Store, profile: Profile) -> Outcome {
    match find_user(s.users, UserKey::Id(profile.id)) {
        None => refused(s, ErrorView::Unknown),
        Some(user) => if can_update_user(s.users, with_profile(user, profile)) {
            users_outcome(after_update_user(s, with_profile(user, profile)))
        } else {
            refused(s, ErrorView::Unknown)
        },
    }
}

/// A revenue row as callers see it.
pub open spec fn revenue_entry(row: RevenueData) -> Revenue {
    Revenue { day: row.day, with_percent: row.with_percent, without_percent: row.without_percent }
}

/// The revenue rows as callers see them.
pub open spec fn revenue_entries(rows: Seq<RevenueData>) -> Seq<Revenue> {
    rows.map_values(|r: RevenueData| revenue_entry(r))
}

/// The revenue of a month.
pub open spec fn revenue_outcome(s: Store, year: u16, month: u8) -> Outcome {
    answered(
        s,
        ResponseView::Revenue {
            year,
            month,
            revenue: revenue_entries(revenue_of(s.revenue, month, year)),
        },
    )
}

/// The revenue of a day is set, and the revenue of the month is answered as it
/// then is.
pub open spec fn set_revenue_outcome(s: Store, year: u16, month: u8, revenue: Revenue) -> Outcome {
    revenue_outcome(
        Store {
            revenue: with_revenue(
                s.revenue,
                RevenueData {
                    day: revenue.day,
                    month,
                    year,
                    with_percent: revenue.with_percent,
                    without_percent: revenue.without_percent,
                },
            ),
            ..s
        },
        year,
        month,
    )
}

/// A statement as callers see it. The total is the sum of what is owed and what
/// was paid.
pub open spec fn salary_of(row: SalaryData) -> Salary {
    Salary {
        id: row.user_id,
        total: (row.amount_owed + row.amount_paid) as u64,
        paid: row.amount_paid,
    }
}

/// The statements as callers see them.
pub open spec fn salaries_of(rows: Seq<SalaryData>) -> Seq<Salary> {
    rows.map_values(|r: SalaryData| salary_of(r))
}

/// Whether the total of every statement fits in 64 bits.
pub open spec fn totals_fit(rows: Seq<SalaryData>) -> bool {
    forall|i: int|
        0 <= i < rows.len() ==> (#[trigger] rows[i]).amount_owed + rows[i].amount_paid <= u64::MAX
}

/// The statements of a month. It fails if an amount does not fit in 64 bits.
pub open spec fn salary_outcome(s: Store, year: u16, month: u8) -> Outcome {
    let rows = statements(s.users, s.schedule, s.revenue, s.payouts, month, year);
    if salaries_fit(s.users, s.schedule, s.revenue, s.payouts, month, year) && totals_fit(rows) {
        answered(s, ResponseView::SalaryCalculation { salaries: salaries_of(rows) })
    } else {
        refused(s, ErrorView::Unknown)
    }
}

/// What a request of a signed-in user leads to. A request of the
/// administrator's kind is refused with `Forbidden` unless the user is one.
pub open spec fn serve(s: Store, user: UserRecord, request: Request, drawn: Drawn) -> Outcome {
    match request {
        Request::User(request) => match request {
            UserRequest::Login { login, password } => login_outcome(
                s,
                login@,
                password@,
                drawn.token,
            ),
            UserRequest::GetUserInfo => answered(s, ResponseView::UserInfo(profile_of(user))),
            UserRequest::GetSchedule { year, month } => schedule_outcome(s, year, month),
            UserRequest::SetWorkday { year, month, day, is_working } => set_workday_outcome(
                s,
                user.id,
                year,
                month,
                day,
                is_working,
            ),
            UserRequest::ChangePassword { old_password, new_password } => set_password_outcome(
                s,
                user,
                old_password@,
                new_password@,
                drawn.salt,
            ),
            UserRequest::GetUserNames { ids } => user_names_outcome(s, ids@),
        },
        Request::Admin(request) => if !user.is_admin {
            refused(s, ErrorView::Forbidden)
        } else {
            match request {
                AdminRequest::GetUsers => users_outcome(s),
                AdminRequest::AddUser(profile) => add_user_outcome(
                    s,
                    profile@,
                    drawn.salt,
                    drawn.token,
                    drawn.id,
                ),
                AdminRequest::ResetPassword { id } => reset_password_outcome(
                    s,
                    id,
                    drawn.salt,
                    drawn.token,
                ),
                AdminRequest::UpdateUser(profile) => update_user_outcome(s, profile@),
                AdminRequest::GetRevenue { year, month } => revenue_outcome(s, year, month),
                AdminRequest::SetRevenue { year, month, revenue } => set_revenue_outcome(
                    s,
                    year,
                    month,
                    revenue,
                ),
                AdminRequest::GetSalaryCalculation { year, month } => salary_outcome(
                    s,
                    year,
                    month,
                ),
            }
        },
    }
}

/// Whether the request is a sign-in.
pub open spec fn is_login(request: Request) -> bool {
    request matches Request::User(UserRequest::Login { .. })
}

/// Whether the request is of a kind that uses a fresh salt or token: a sign-in,
/// a change or reset of a password, a new user.
pub open spec fn draws_identifiers(request: Request) -> bool {
    match request {
        Request::User(UserRequest::Login { .. }) => true,
        Request::User(UserRequest::ChangePassword { .. }) => true,
        Request::Admin(AdminRequest::AddUser(_)) => true,
        Request::Admin(AdminRequest::ResetPassword { .. }) => true,
        _ => false,
    }
}

/// What a request leads to as long as the store does not fail, given the token
/// that came with it and what it may draw.
///
/// A sign-in needs no token. Any other request is refused with `Forbidden`
/// without a token, and with `UnknownToken` if no user holds the token;
/// otherwise it is served for the user that holds it.
pub open spec fn respond(
    s: Store,
    request: Request,
    auth: Option<Seq<char>>,
    drawn: Drawn,
) -> Outcome {
    match request {
        Request::User(UserRequest::Login { login, password }) => login_outcome(
            s,
            login@,
            password@,
            drawn.token,
        ),
        _ => match auth {
            None => refused(s, ErrorView::Forbidden),
            Some(held) => match find_user(s.users, UserKey::Token(held)) {
                None => refused(s, ErrorView::UnknownToken),
                Some(user) => serve(s, user, request, drawn),
            },
        },
    }
}

/// The text of the token that came with a request.
pub open spec fn token_text(token: Option<String>) -> Option<Seq<char>> {
    match token {
        Some(token) => Some(token@),
        None => None,
    }
}

// ---------------------------------------------------------------------------
// Answers built from rows
// ---------------------------------------------------------------------------

/// An internal failure with the given detail.
fn unknown(detail: &str) -> (e: ProtocolError)
    ensures
        e@ == ErrorView::Unknown,
{
    ProtocolError::Unknown(String::from_str(detail))
}

/// The profile in a user's record.
pub fn to_profile(user: &UserData) -> (r: User)
    ensures
        r@ == profile_of(user@),
{
    User {
        id: user.id,
        login: user.login.clone(),
        name: user.name.clone(),
        is_admin: user.is_admin,
        is_worker: user.is_worker,
        pay: user.pay,
        percent: user.percent,
    }
}

/// The profiles of a list of users, in the same order.
pub fn to_profiles(users: &Vec<UserData>) -> (r: Vec<User>)
    ensures
        profiles(r@) == profiles_of(records(users@)),
{
    let mut out: Vec<User> = Vec::new();
    let mut i: usize = 0;
    while i < users.len()
        invariant
            i <= users.len(),
            out@.len() == i,
            forall|k: int| 0 <= k < i ==> (#[trigger] out@[k])@ == profile_of(users@[k]@),
        decreases users.len() - i,
    {
        out.push(to_profile(&users[i]));
        i += 1;
    }
    assert(profiles(out@) =~= profiles_of(records(users@)));
    out
}

/// The names of the users by identifier; of two users with one identifier the
/// later one shows.
pub fn to_names(users: &Vec<UserData>) -> (r: HashMap<UserId, String>)
    ensures
        name_texts(r@) == names_of(records(users@)),
{
    broadcast use vstd::std_specs::hash::group_hash_axioms;

    let mut names: HashMap<UserId, String> = HashMap::new();
    let mut i: usize = 0;
    let ghost all = records(users@);
    assert(name_texts(names@) =~= names_of(all.take(0)));
    while i < users.len()
        invariant
            i <= users.len(),
            all == records(users@),
            name_texts(names@) == names_of(all.take(i as int)),
        decreases users.len() - i,
    {
        let user = &users[i];
        let name = user.name.clone();
        let ghost before = names@;
        names.insert(user.id, name);
        proof {
            let upto = all.take(i + 1);
            assert(upto.drop_last() =~= all.take(i as int));
            assert(upto.last() == user@);
            assert(name_texts(names@) =~= name_texts(before).insert(user.id, name@));
        }
        i += 1;
    }
    assert(all.take(i as int) =~= all);
    names
}

/// The revenue rows as callers see them, in the same order.
pub fn to_revenue_entries(rows: &Vec<RevenueData>) -> (r: Vec<Revenue>)
    ensures
        r@ == revenue_entries(rows@),
{
    let mut out: Vec<Revenue> = Vec::new();
    let mut i: usize = 0;
    while i < rows.len()
        invariant
            i <= rows.len(),
            out@.len() == i,
            forall|k: int| 0 <= k < i ==> #[trigger] out@[k] == revenue_entry(rows@[k]),
        decreases rows.len() - i,
    {
        let row = rows[i];
        out.push(
            Revenue {
                day: row.day,
                with_percent: row.with_percent,
                without_percent: row.without_percent,
            },
        );
        i += 1;
    }
    assert(out@ =~= revenue_entries(rows@));
    out
}

/// The statements as callers see them, in the same order, each with its total;
/// `None` exactly when a total does not fit in 64 bits.
pub fn to_salaries(rows: &Vec<SalaryData>) -> (r: Option<Vec<Salary>>)
    ensures
        r is Some <==> totals_fit(rows@),
        r matches Some(salaries) ==> salaries@ == salaries_of(rows@),
{
    let mut out: Vec<Salary> = Vec::new();
    let mut i: usize = 0;
    while i < rows.len()
        invariant
            i <= rows.len(),
            out@.len() == i,
            forall|k: int|
                0 <= k < i ==> (#[trigger] rows@[k]).amount_owed + rows@[k].amount_paid
                    <= u64::MAX,
            forall|k: int| 0 <= k < i ==> #[trigger] out@[k] == salary_of(rows@[k]),
        decreases rows.len() - i,
    {
        let row = rows[i];
        if row.amount_owed > u64::MAX - row.amount_paid {
            return None;
        }
        out.push(
            Salary {
                id: row.user_id,
                total: row.amount_owed + row.amount_paid,
                paid: row.amount_paid,
            },
        );
        i += 1;
    }
    assert(out@ =~= salaries_of(rows@));
    Some(out)
}

/// A row is in the rows of a month if it is in the ledger and of that month.
proof fn lemma_schedule_of_contains(
    rows: Seq<ScheduleData>,
    month: u8,
    year: u16,
    row: ScheduleData,
)
    ensures
        schedule_of(rows, month, year).contains(row) <==> rows.contains(row) && row.month == month
            && row.year == year,
    decreases rows.len(),
{
    reveal(Seq::filter);
    let wanted = |r: ScheduleData| r.month == month && r.year == year;
    if rows.len() > 0 {
        let rest = rows.drop_last();
        lemma_schedule_of_contains(rest, month, year, row);
        let kept = rest.filter(wanted);
        if wanted(rows.last()) {
            let all = kept.push(rows.last());
            if all.contains(row) {
                let i = choose|i: int| 0 <= i < all.len() && all[i] == row;
                if i < kept.len() {
                    assert(kept[i] == row);
                }
            }
            if kept.contains(row) {
                let i = choose|i: int| 0 <= i < kept.len() && kept[i] == row;
                assert(all[i] == row);
            }
            if rows.last() == row {
                assert(all[kept.len() as int] == row);
            }
        }
        if rows.contains(row) {
            let i = choose|i: int| 0 <= i < rows.len() && rows[i] == row;
            if i < rest.len() {
                assert(rest[i] == row);
            }
        }
        if rest.contains(row) {
            let i = choose|i: int| 0 <= i < rest.len() && rest[i] == row;
            assert(rows[i] == row);
        }
        assert(rows[rows.len() - 1] == rows.last());
    }
}

/// The table of a month is the same from the whole schedule and from the rows
/// of the month alone.
pub proof fn lemma_presence_table_of_month(rows: Seq<ScheduleData>, year: u16, month: u8)
    ensures
        presence_table(schedule_of(rows, month, year), year, month) == presence_table(
            rows,
            year,
            month,
        ),
{
    let of_month = schedule_of(rows, month, year);
    let len = (days_in_month(year as int, month as int) + 1) as nat;
    assert forall|user_id: UserId|
        on_schedule(of_month, month, year, user_id) == on_schedule(
            rows,
            month,
            year,
            user_id,
        ) by {
        if on_schedule(of_month, month, year, user_id) {
            let i = choose|i: int|
                0 <= i < of_month.len() && (#[trigger] of_month[i]).month == month
                    && of_month[i].year == year && of_month[i].user_id == user_id;
            assert(of_month.contains(of_month[i]));
            lemma_schedule_of_contains(rows, month, year, of_month[i]);
            let j = choose|j: int| 0 <= j < rows.len() && rows[j] == of_month[i];
            assert(rows[j].month == month);
        }
        if on_schedule(rows, month, year, user_id) {
            let i = choose|i: int|
                0 <= i < rows.len() && (#[trigger] rows[i]).month == month && rows[i].year == year
                    && rows[i].user_id == user_id;
            assert(rows.contains(rows[i]));
            lemma_schedule_of_contains(rows, month, year, rows[i]);
            let j = choose|j: int| 0 <= j < of_month.len() && of_month[j] == rows[i];
            assert(of_month[j].month == month);
        }
    }
    assert forall|user_id: UserId|
        presence(of_month, month, year, user_id, len) == presence(
            rows,
            month,
            year,
            user_id,
            len,
        ) by {
        assert forall|d: int| 0 <= d < len implies #[trigger] presence(
            of_month,
            month,
            year,
            user_id,
            len,
        )[d] == presence(rows, month, year, user_id, len)[d] by {
            lemma_schedule_of_contains(
                rows,
                month,
                year,
                ScheduleData { day: d as u8, month, year, user_id },
            );
        }
        assert(presence(of_month, month, year, user_id, len) =~= presence(
            rows,
            month,
            year,
            user_id,
            len,
        ));
    }
    assert(presence_table(of_month, year, month) =~= presence_table(rows, year, month));
}

/// A list of `len` times `false`.
fn all_absent(len: usize) -> (r: Vec<bool>)
    ensures
        r@.len() == len,
        forall|d: int| 0 <= d < len ==> !r@[d],
{
    let mut days: Vec<bool> = Vec::new();
    let mut d: usize = 0;
    while d < len
        invariant
            d <= len,
            days@.len() == d,
            forall|k: int| 0 <= k < d ==> !days@[k],
        decreases len - d,
    {
        days.push(false);
        d += 1;
    }
    days
}

/// The schedule of a month as a table: for each worker with a row in the month,
/// a list with one entry for each day from 0 to the last day of the month, which
/// says whether the worker is on the schedule of that day. Rows of other months
/// are passed over, and so is a row for a day after the last of the month.
pub fn schedule_table(rows: &Vec<ScheduleData>, year: u16, month: u8) -> (r: HashMap<
    UserId,
    Vec<bool>,
>)
    ensures
        day_flags(r@) == presence_table(rows@, year, month),
{
    broadcast use vstd::std_specs::hash::group_hash_axioms;

    let len = get_days_in_month(year, month) as usize + 1;
    let mut table: HashMap<UserId, Vec<bool>> = HashMap::new();
    let mut i: usize = 0;
    while i < rows.len()
        invariant
            i <= rows.len(),
            1 <= len <= 32,
            len == days_in_month(year as int, month as int) + 1,
            forall|u: UserId|
                table@.contains_key(u) <==> on_schedule(rows@.take(i as int), month, year, u),
            forall|u: UserId| #[trigger]
                table@.contains_key(u) ==> table@[u]@ == presence(
                    rows@.take(i as int),
                    month,
                    year,
                    u,
                    len as nat,
                ),
        decreases rows.len() - i,
    {
        let row = rows[i];
        let ghost before = rows@.take(i as int);
        let ghost upto = rows@.take(i + 1);
        let ghost old_table = table@;
        proof {
            assert(upto =~= before.push(row));
            assert forall|u: UserId|
                on_schedule(upto, month, year, u) <==> on_schedule(before, month, year, u) || (
                row.month == month && row.year == year && row.user_id == u) by {
                if on_schedule(upto, month, year, u) {
                    let k = choose|k: int|
                        0 <= k < upto.len() && (#[trigger] upto[k]).month == month && upto[k].year
                            == year && upto[k].user_id == u;
                    if k < before.len() {
                        assert(before[k] == upto[k]);
                    }
                }
                if on_schedule(before, month, year, u) {
                    let k = choose|k: int|
                        0 <= k < before.len() && (#[trigger] before[k]).month == month
                            && before[k].year == year && before[k].user_id == u;
                    assert(upto[k] == before[k]);
                }
                if row.month == month && row.year == year && row.user_id == u {
                    assert(upto[before.len() as int] == row);
                }
            }
            assert forall|u: UserId, d: u8|
                worked(upto, month, year, u, d) <==> worked(before, month, year, u, d) || row
                    == (ScheduleData { day: d, month, year, user_id: u }) by {
                let key = ScheduleData { day: d, month, year, user_id: u };
                if upto.contains(key) {
                    let k = choose|k: int| 0 <= k < upto.len() && upto[k] == key;
                    if k < before.len() {
                        assert(before[k] == key);
                    }
                }
                if before.contains(key) {
                    let k = choose|k: int| 0 <= k < before.len() && before[k] == key;
                    assert(upto[k] == key);
                }
                if row == key {
                    assert(upto[before.len() as int] == key);
                }
            }
        }
        if row.month == month && row.year == year {
            let mut days = match table.remove(&row.user_id) {
                Some(days) => days,
                None => all_absent(len),
            };
            proof {
                if !old_table.contains_key(row.user_id) {
                    assert forall|d: int| 0 <= d < len implies !(#[trigger] presence(
                        before,
                        month,
                        year,
                        row.user_id,
                        len as nat,
                    )[d]) by {
                        let key = ScheduleData { day: d as u8, month, year, user_id: row.user_id };
                        if before.contains(key) {
                            let k = choose|k: int| 0 <= k < before.len() && before[k] == key;
                            assert(before[k].month == month);
                        }
                    }
                    assert(days@ =~= presence(before, month, year, row.user_id, len as nat));
                }
            }
            if (row.day as usize) < len {
                days.set(row.day as usize, true);
            }
            proof {
                assert(days@ =~= presence(upto, month, year, row.user_id, len as nat));
            }
            table.insert(row.user_id, days);
            proof {
                assert forall|u: UserId| #[trigger] table@.contains_key(u) implies table@[u]@
                    == presence(upto, month, year, u, len as nat) by {
                    if u != row.user_id {
                        assert(old_table.contains_key(u));
                        assert(table@[u] == old_table[u]);
                        assert(presence(upto, month, year, u, len as nat) =~= presence(
                            before,
                            month,
                            year,
                            u,
                            len as nat,
                        ));
                    }
                }
            }
        } else {
            proof {
                assert forall|u: UserId| #[trigger] table@.contains_key(u) implies table@[u]@
                    == presence(upto, month, year, u, len as nat) by {
                    assert(presence(upto, month, year, u, len as nat) =~= presence(
                        before,
                        month,
                        year,
                        u,
                        len as nat,
                    ));
                }
            }
        }
        i += 1;
    }
    assert(rows@.take(i as int) =~= rows@);
    assert(day_flags(table@) =~= presence_table(rows@, year, month));
    table
}

// ---------------------------------------------------------------------------
// The handler
// ---------------------------------------------------------------------------

/// Whether the request is of a kind that uses a fresh salt or token.
pub fn draws(request: &Request) -> (r: bool)
    ensures
        r == draws_identifiers(*request),
{
    match request {
        Request::User(UserRequest::Login { .. }) => true,
        Request::User(UserRequest::ChangePassword { .. }) => true,
        Request::Admin(AdminRequest::AddUser(_)) => true,
        Request::Admin(AdminRequest::ResetPassword { .. }) => true,
        _ => false,
    }
}

/// A request that is refused leaves the store as it is.
pub proof fn lemma_refusal_keeps_state(
    s: Store,
    request: Request,
    auth: Option<Seq<char>>,
    drawn: Drawn,
)
    ensures
        respond(s, request, auth, drawn).response is Err ==> respond(
            s,
            request,
            auth,
            drawn,
        ).state == s,
{
}

/// The password that a new user gets, and a user whose password is reset.
pub fn initial_password() -> (r: &'static str)
    ensures
        r@ == default_password(),
{
    "Qwer4321"
}

/// Answers requests from a store.
///
/// Each request is answered from the store as it stands and changes it at most
/// once. Requests that change the store are not repeated on failure.
#[derive(Clone)]
pub struct PravdaHandler<T: Database> {
    database: T,
}

impl<T: Database> PravdaHandler<T> {
    /// What the store behind the handler holds.
    pub closed spec fn state(&self) -> Store {
        self.database.state()
    }

    /// Whether the store behind the handler is reliable.
    pub closed spec fn reliable(&self) -> bool {
        self.database.reliable()
    }

    /// A handler that answers from the given store.
    pub fn new(database: T) -> (r: Self)
        ensures
            r.state() == database.state(),
            r.reliable() == database.reliable(),
    {
        Self { database }
    }

    /// The store behind the handler.
    pub fn database(&self) -> (r: &T)
        ensures
            r.state() == self.state(),
            r.reliable() == self.reliable(),
    {
        &self.database
    }

    /// Answers a request. `token` is the token that came with it, if any.
    ///
    /// A request of a kind that uses a fresh salt or token gets both drawn as
    /// random identifiers. What then holds is what `conforms` says of `respond`
    /// for the values drawn and for the identifier that the store allots.
    pub fn process(&mut self, request: Request, token: Option<String>) -> (r: Response)
        ensures
            final(self).reliable() == old(self).reliable(),
            exists|drawn: Drawn|
                {
                    &&& draws_identifiers(request) ==> is_uuid_text(drawn.salt) && is_uuid_text(
                        drawn.token,
                    )
                    &&& old(self).reliable() ==> drawn.id == next_id(old(self).state().users)
                    &&& #[trigger] conforms(
                        old(self).state(),
                        respond(old(self).state(), request, token_text(token), drawn),
                        is_login(request),
                        old(self).reliable(),
                        final(self).state(),
                        response_view(r),
                    )
                },
            old(self).state().wf() ==> final(self).state().wf(),
    {
        let (salt, fresh) = if draws(&request) {
            (make_uuid(), make_uuid())
        } else {
            (String::new(), String::new())
        };
        let ghost s = self.state();
        let r = self.process_with(request, token, salt, fresh);
        proof {
            let id = choose|id: Option<UserId>|
                {
                    &&& old(self).reliable() ==> id == next_id(s.users)
                    &&& #[trigger] conforms(
                        s,
                        respond(
                            s,
                            request,
                            token_text(token),
                            Drawn { salt: salt@, token: fresh@, id },
                        ),
                        is_login(request),
                        old(self).reliable(),
                        self.state(),
                        response_view(r),
                    )
                };
            let drawn = Drawn { salt: salt@, token: fresh@, id };
            assert(conforms(
                s,
                respond(s, request, token_text(token), drawn),
                is_login(request),
                old(self).reliable(),
                self.state(),
                response_view(r),
            ));
        }
        r
    }

    /// Answers a request with the given fresh salt and token, of which it uses
    /// what the request needs: a sign-in the token, a change of password the
    /// salt, a new user and a reset of a password both.
    ///
    /// With a reliable store, the answer and the store afterwards are those of
    /// `respond` for the salt and token given and the identifier after the
    /// largest in use. With any store, they are as `conforms` says of `respond`
    /// for the identifier that the store allots. A store in which every key is
    /// to itself stays so.
    pub fn process_with(
        &mut self,
        request: Request,
        token: Option<String>,
        salt: String,
        fresh: String,
    ) -> (r: Response)
        ensures
            final(self).reliable() == old(self).reliable(),
            old(self).reliable() ==> exact(
                respond(
                    old(self).state(),
                    request,
                    token_text(token),
                    Drawn {
                        salt: salt@,
                        token: fresh@,
                        id: next_id(old(self).state().users),
                    },
                ),
                final(self).state(),
                response_view(r),
            ),
            exists|id: Option<UserId>|
                {
                    &&& old(self).reliable() ==> id == next_id(old(self).state().users)
                    &&& #[trigger] conforms(
                        old(self).state(),
                        respond(
                            old(self).state(),
                            request,
                            token_text(token),
                            Drawn { salt: salt@, token: fresh@, id },
                        ),
                        is_login(request),
                        old(self).reliable(),
                        final(self).state(),
                        response_view(r),
                    )
                },
            old(self).state().wf() ==> final(self).state().wf(),
    {
        let ghost s = self.state();
        let ghost auth = token_text(token);
        let ghost next = next_id(s.users);
        let ghost at_next = Drawn { salt: salt@, token: fresh@, id: next };
        proof {
            if s.wf() {
                assert forall|id: Option<UserId>| #[trigger]
                    respond(
                        s,
                        request,
                        auth,
                        Drawn { salt: salt@, token: fresh@, id },
                    ).state.wf() by {
                    lemma_respond_keeps_wf(
                        s,
                        request,
                        auth,
                        Drawn { salt: salt@, token: fresh@, id },
                    );
                }
            }
        }
        match request {
            Request::User(UserRequest::Login { login, password }) => {
                let r = self.login(login, password, fresh);
                assert(conforms(
                    s,
                    respond(s, request, auth, at_next),
                    is_login(request),
                    old(self).reliable(),
                    self.state(),
                    response_view(r),
                ));
                r
            },
            other => {
                let held = match token {
                    Some(held) => held,
                    None => {
                        let r = Err(ProtocolError::Forbidden);
                        assert(conforms(
                            s,
                            respond(s, request, auth, at_next),
                            is_login(request),
                            old(self).reliable(),
                            self.state(),
                            response_view(r),
                        ));
                        return r;
                    },
                };
                let user = match self.database.get_user(&UserSearch::Token(held)) {
                    Ok(Some(user)) => user,
                    Ok(None) => {
                        let r = Err(ProtocolError::UnknownToken);
                        assert(conforms(
                            s,
                            respond(s, request, auth, at_next),
                            is_login(request),
                            old(self).reliable(),
                            self.state(),
                            response_view(r),
                        ));
                        return r;
                    },
                    Err(e) => {
                        let r = Err(ProtocolError::Unknown(e.detail));
                        proof {
                            lemma_refusal_keeps_state(s, request, auth, at_next);
                            assert(conforms(
                                s,
                                respond(s, request, auth, at_next),
                                is_login(request),
                                old(self).reliable(),
                                self.state(),
                                response_view(r),
                            ));
                        }
                        return r;
                    },
                };
                let (r, Ghost(id)) = self.serve(user, other, salt, fresh);
                assert(conforms(
                    s,
                    respond(s, request, auth, Drawn { salt: salt@, token: fresh@, id }),
                    is_login(request),
                    old(self).reliable(),
                    self.state(),
                    response_view(r),
                ));
                r
            },
        }
    }

    /// Answers the request of a signed-in user, and says which identifier the
    /// store allotted if it allotted one.
    fn serve(&mut self, user: UserData, request: Request, salt: String, fresh: String) -> (r: (
        Response,
        Ghost<Option<UserId>>,
    ))
        ensures
            final(self).reliable() == old(self).reliable(),
            old(self).reliable() ==> r.1@ == next_id(old(self).state().users),
            conforms(
                old(self).state(),
                serve(
                    old(self).state(),
                    user@,
                    request,
                    Drawn { salt: salt@, token: fresh@, id: r.1@ },
                ),
                is_login(request),
                old(self).reliable(),
                final(self).state(),
                response_view(r.0),
            ),
    {
        let ghost next = next_id(self.state().users);
        match request {
            Request::User(request) => {
                let r = match request {
                    UserRequest::Login { login, password } => self.login(login, password, fresh),
                    UserRequest::GetUserInfo => Ok(ResponseData::UserInfo(to_profile(&user))),
                    UserRequest::GetSchedule { year, month } => self.get_schedule(year, month),
                    UserRequest::SetWorkday { year, month, day, is_working } => self.set_workday(
                        user.id,
                        year,
                        month,
                        day,
                        is_working,
                    ),
                    UserRequest::ChangePassword {
                        old_password,
                        new_password,
                    } => self.set_password(user, old_password, new_password, salt),
                    UserRequest::GetUserNames { ids } => self.get_user_names(ids),
                };
                (r, Ghost(next))
            },
            Request::Admin(request) => {
                if !user.is_admin {
                    return (Err(ProtocolError::Forbidden), Ghost(next));
                }
                match request {
                    AdminRequest::AddUser(profile) => self.add_user(profile, salt, fresh),
                    AdminRequest::GetUsers => (self.get_users(), Ghost(next)),
                    AdminRequest::ResetPassword { id } => (
                        self.reset_password(id, salt, fresh),
                        Ghost(next),
                    ),
                    AdminRequest::UpdateUser(profile) => (self.update_user(profile), Ghost(next)),
                    AdminRequest::GetRevenue { year, month } => (
                        self.get_revenue(year, month),
                        Ghost(next),
                    ),
                    AdminRequest::SetRevenue { year, month, revenue } => (
                        self.set_revenue(year, month, revenue),
                        Ghost(next),
                    ),
                    AdminRequest::GetSalaryCalculation { year, month } => (
                        self.get_salary_calculation(year, month),
                        Ghost(next),
                    ),
                }
            },
        }
    }

    /// Signs a user in and gives the user the fresh token. A store that cannot
    /// be read shows as `LoginFailed`, like a wrong password.
    fn login(&mut self, login: String, password: String, token: String) -> (r: Response)
        ensures
            final(self).reliable() == old(self).reliable(),
            conforms(
                old(self).state(),
                login_outcome(old(self).state(), login@, password@, token@),
                true,
                old(self).reliable(),
                final(self).state(),
                response_view(r),
            ),
    {
        let mut user = match self.database.get_user(&UserSearch::Login(login)) {
            Ok(Some(user)) => user,
            Ok(None) => {
                return Err(ProtocolError::LoginFailed);
            },
            Err(_) => {
                return Err(ProtocolError::LoginFailed);
            },
        };
        let digest = user.get_pwd_hash(password.as_str());
        if user.pwd_hash == digest {
            user.token = token;
            match self.database.update_user(&user) {
                Ok(stored) => Ok(ResponseData::Login { token: stored.token, id: stored.id }),
                Err(e) => Err(ProtocolError::Unknown(e.detail)),
            }
        } else {
            Err(ProtocolError::LoginFailed)
        }
    }

    /// The schedule of a month as a table by worker and day.
    fn get_schedule(&self, year: u16, month: u8) -> (r: Response)
        ensures
            conforms(
                self.state(),
                schedule_outcome(self.state(), year, month),
                false,
                self.reliable(),
                self.state(),
                response_view(r),
            ),
    {
        let rows = match self.database.get_schedule(month, year) {
            Ok(rows) => rows,
            Err(e) => {
                return Err(ProtocolError::Unknown(e.detail));
            },
        };
        let schedule = schedule_table(&rows, year, month);
        proof {
            lemma_presence_table_of_month(self.state().schedule, year, month);
        }
        Ok(ResponseData::Schedule { year, month, schedule })
    }

    /// Marks a day of the user as worked or as not worked, and answers the
    /// schedule of the month.
    fn set_workday(
        &mut self,
        user_id: UserId,
        year: u16,
        month: u8,
        day: u8,
        is_working: bool,
    ) -> (r: Response)
        ensures
            final(self).reliable() == old(self).reliable(),
            conforms(
                old(self).state(),
                set_workday_outcome(
                    old(self).state(),
                    user_id,
                    year,
                    month,
                    day,
                    is_working,
                ),
                false,
                old(self).reliable(),
                final(self).state(),
                response_view(r),
            ),
    {
        match self.database.set_schedule(&ScheduleData { day, month, year, user_id }, is_working) {
            Ok(_) => self.get_schedule(year, month),
            Err(e) => Err(ProtocolError::Unknown(e.detail)),
        }
    }

    /// Changes the password of the user, who has to know the old one. The user
    /// gets the fresh salt and keeps the token.
    fn set_password(
        &mut self,
        user: UserData,
        old_password: String,
        new_password: String,
        salt: String,
    ) -> (r: Response)
        ensures
            final(self).reliable() == old(self).reliable(),
            conforms(
                old(self).state(),
                set_password_outcome(
                    old(self).state(),
                    user@,
                    old_password@,
                    new_password@,
                    salt@,
                ),
                false,
                old(self).reliable(),
                final(self).state(),
                response_view(r),
            ),
    {
        let mut user = user;
        let digest = user.get_pwd_hash(old_password.as_str());
        if !(user.pwd_hash == digest) {
            return Err(ProtocolError::LoginFailed);
        }
        user.pwd_salt = salt;
        user.pwd_hash = user.get_pwd_hash(new_password.as_str());
        match self.database.update_user(&user) {
            Ok(_) => Ok(ResponseData::PasswordChanged),
            Err(e) => Err(ProtocolError::Unknown(e.detail)),
        }
    }

    /// The names of the users with the given identifiers.
    fn get_user_names(&self, ids: Vec<UserId>) -> (r: Response)
        ensures
            conforms(
                self.state(),
                user_names_outcome(self.state(), ids@),
                false,
                self.reliable(),
                self.state(),
                response_view(r),
            ),
    {
        match self.database.get_users(Some(&ids)) {
            Ok(users) => Ok(ResponseData::UserNames { names: to_names(&users) }),
            Err(e) => Err(ProtocolError::Unknown(e.detail)),
        }
    }

    /// The profiles of all users.
    fn get_users(&self) -> (r: Response)
        ensures
            conforms(
                self.state(),
                users_outcome(self.state()),
                false,
                self.reliable(),
                self.state(),
                response_view(r),
            ),
    {
        match self.database.get_users(None) {
            Ok(users) => Ok(ResponseData::Users(to_profiles(&users))),
            Err(e) => Err(ProtocolError::Unknown(e.detail)),
        }
    }

    /// Adds a user with the default password under the fresh salt, and with the
    /// fresh token, and answers the profiles of all users. Says which
    /// identifier the store allotted if it allotted one.
    fn add_user(&mut self, user: User, salt: String, token: String) -> (r: (
        Response,
        Ghost<Option<UserId>>,
    ))
        ensures
            final(self).reliable() == old(self).reliable(),
            old(self).reliable() ==> r.1@ == next_id(old(self).state().users),
            conforms(
                old(self).state(),
                add_user_outcome(old(self).state(), user@, salt@, token@, r.1@),
                false,
                old(self).reliable(),
                final(self).state(),
                response_view(r.0),
            ),
    {
        let ghost s = self.state();
        let ghost next = next_id(s.users);
        proof {
            lemma_find_user(s.users, UserKey::Login(user.login@));
        }
        match self.database.get_user(&UserSearch::Login(user.login.clone())) {
            Ok(Some(_)) => {
                return (Err(ProtocolError::UserExist), Ghost(next));
            },
            _ => {},
        }
        let mut user = UserData {
            id: 0,
            login: user.login,
            name: user.name,
            is_admin: user.is_admin,
            is_worker: user.is_worker,
            pay: user.pay,
            percent: user.percent,
            pwd_hash: String::new(),
            pwd_salt: salt,
            token,
        };
        user.pwd_hash = user.get_pwd_hash(initial_password());
        match self.database.add_user(&user) {
            Ok(stored) => (self.get_users(), Ghost(Some(stored.id))),
            Err(e) => (Err(ProtocolError::Unknown(e.detail)), Ghost(next)),
        }
    }

    /// Gives a user the default password under the fresh salt, and the fresh
    /// token, which ends the session that was open.
    fn reset_password(&mut self, id: UserId, salt: String, token: String) -> (r: Response)
        ensures
            final(self).reliable() == old(self).reliable(),
            conforms(
                old(self).state(),
                reset_password_outcome(old(self).state(), id, salt@, token@),
                false,
                old(self).reliable(),
                final(self).state(),
                response_view(r),
            ),
    {
        match self.database.get_user(&UserSearch::Id(id)) {
            Ok(Some(user)) => {
                let mut user = user;
                user.pwd_salt = salt;
                user.pwd_hash = user.get_pwd_hash(initial_password());
                user.token = token;
                match self.database.update_user(&user) {
                    Ok(_) => Ok(ResponseData::PasswordReset),
                    Err(e) => Err(ProtocolError::Unknown(e.detail)),
                }
            },
            _ => Err(unknown("Не удалось найти пользователя")),
        }
    }

    /// Takes name, roles, pay and percent of a user from the profile, and
    /// answers the profiles of all users.
    fn update_user(&mut self, new_user: User) -> (r: Response)
        ensures
            final(self).reliable() == old(self).reliable(),
            conforms(
                old(self).state(),
                update_user_outcome(old(self).state(), new_user@),
                false,
                old(self).reliable(),
                final(self).state(),
                response_view(r),
            ),
    {
        match self.database.get_user(&UserSearch::Id(new_user.id)) {
            Ok(Some(user)) => {
                let mut user = user;
                user.name = new_user.name;
                user.is_worker = new_user.is_worker;
                user.is_admin = new_user.is_admin;
                user.pay = new_user.pay;
                user.percent = new_user.percent;
                match self.database.update_user(&user) {
                    Ok(_) => self.get_users(),
                    Err(e) => Err(ProtocolError::Unknown(e.detail)),
                }
            },
            _ => Err(unknown("Не удалось найти пользователя")),
        }
    }

    /// The revenue of a month, day by day.
    fn get_revenue(&self, year: u16, month: u8) -> (r: Response)
        ensures
            conforms(
                self.state(),
                revenue_outcome(self.state(), year, month),
                false,
                self.reliable(),
                self.state(),
                response_view(r),
            ),
    {
        match self.database.get_revenue(month, year) {
            Ok(rows) => Ok(
                ResponseData::Revenue { year, month, revenue: to_revenue_entries(&rows) },
            ),
            Err(e) => Err(ProtocolError::Unknown(e.detail)),
        }
    }

    /// Sets the revenue of a day and answers the revenue of the month.
    fn set_revenue(&mut self, year: u16, month: u8, revenue: Revenue) -> (r: Response)
        ensures
            final(self).reliable() == old(self).reliable(),
            conforms(
                old(self).state(),
                set_revenue_outcome(old(self).state(), year, month, revenue),
                false,
                old(self).reliable(),
                final(self).state(),
                response_view(r),
            ),
    {
        match self.database.set_revenue(
            &RevenueData {
                day: revenue.day,
                month,
                year,
                with_percent: revenue.with_percent,
                without_percent: revenue.without_percent,
            },
        ) {
            Ok(_) => self.get_revenue(year, month),
            Err(e) => Err(ProtocolError::Unknown(e.detail)),
        }
    }

    /// The statement of every worker for a month, each with its total.
    fn get_salary_calculation(&self, year: u16, month: u8) -> (r: Response)
        ensures
            conforms(
                self.state(),
                salary_outcome(self.state(), year, month),
                false,
                self.reliable(),
                self.state(),
                response_view(r),
            ),
    {
        match self.database.get_salaries(month, year) {
            Ok(rows) => match to_salaries(&rows) {
                Some(salaries) => Ok(ResponseData::SalaryCalculation { salaries }),
                None => Err(unknown("a total does not fit in 64 bits")),
            },
            Err(e) => Err(ProtocolError::Unknown(e.detail)),
        }
    }
}

// ---------------------------------------------------------------------------
// Laws
// ---------------------------------------------------------------------------

/// A sign-in with the login and the password of a user succeeds: the answer
/// holds the fresh token and the user's identifier, the user holds the token
/// from then on and is otherwise as before, and a request that comes with the
/// token is no longer refused for its token: the token is found, and where no
/// user held it before, it is that user's.
pub proof fn lemma_login_succeeds(s: Store, at: int, password: Seq<char>, token: Seq<char>)
    requires
        s.wf(),
        0 <= at < s.users.len(),
        password_matches(s.users[at], password),
    ensures
        ({
            let user = s.users[at];
            let after = login_outcome(s, user.login, password, token);
            &&& after.response == Ok::<ResponseView, ErrorView>(
                ResponseView::Login { token, id: user.id },
            )
            &&& after.state == Store {
                users: s.users.update(at, UserRecord { token, ..user }),
                ..s
            }
            &&& after.state.wf()
            &&& find_user(after.state.users, UserKey::Token(token)) is Some
            &&& find_user(s.users, UserKey::Token(token)) is None ==> find_user(
                after.state.users,
                UserKey::Token(token),
            ) == Some(UserRecord { token, ..user })
        }),
{
    let user = s.users[at];
    let renewed = UserRecord { token, ..user };
    lemma_find_in_wf(s, at);
    lemma_can_update_in_wf(s, renewed, at);
    lemma_update_user_keeps_wf(s, renewed, at);
    let after = s.users.update(at, renewed);
    lemma_find_user(after, UserKey::Token(token));
    assert(UserKey::Token(token).selects(after[at]));
    lemma_find_user(s.users, UserKey::Token(token));
    if find_user(s.users, UserKey::Token(token)) is None {
        assert forall|j: int| 0 <= j < after.len() && j != at implies !UserKey::Token(
            token,
        ).selects(#[trigger] after[j]) by {
            assert(after[j] == s.users[j]);
        }
        lemma_find_the_only(after, UserKey::Token(token), at);
    }
}

/// After a sign-in that succeeded, a request that comes with the token issued
/// is served for a user who holds it: it is refused neither for want of a
/// token nor for an unknown one.
pub proof fn lemma_token_resolves_after_login(
    s: Store,
    at: int,
    password: Seq<char>,
    token: Seq<char>,
    request: Request,
    drawn: Drawn,
)
    requires
        s.wf(),
        0 <= at < s.users.len(),
        password_matches(s.users[at], password),
        !is_login(request),
    ensures
        ({
            let after = login_outcome(s, s.users[at].login, password, token).state;
            &&& find_user(after.users, UserKey::Token(token)) matches Some(holder)
            &&& holder.token == token
            &&& respond(after, request, Some(token), drawn) == serve(
                after,
                find_user(after.users, UserKey::Token(token))->0,
                request,
                drawn,
            )
        }),
{
    lemma_login_succeeds(s, at, password, token);
    let after = login_outcome(s, s.users[at].login, password, token).state;
    lemma_find_user(after.users, UserKey::Token(token));
}

/// A sign-in with an unknown login or a wrong password fails with
/// `LoginFailed` and changes nothing: no token is replaced.
pub proof fn lemma_login_fails(s: Store, login: Seq<char>, password: Seq<char>, token: Seq<char>)
    requires
        forall|i: int|
            0 <= i < s.users.len() && (#[trigger] s.users[i]).login == login ==> !password_matches(
                s.users[i],
                password,
            ),
    ensures
        login_outcome(s, login, password, token) == refused(s, ErrorView::LoginFailed),
{
    lemma_find_user(s.users, UserKey::Login(login));
}

/// A change of password with a wrong old password fails with `LoginFailed` and
/// changes nothing: digest, salt and token stay.
pub proof fn lemma_change_password_fails(
    s: Store,
    user: UserRecord,
    old_password: Seq<char>,
    new_password: Seq<char>,
    salt: Seq<char>,
)
    requires
        !password_matches(user, old_password),
    ensures
        set_password_outcome(s, user, old_password, new_password, salt) == refused(
            s,
            ErrorView::LoginFailed,
        ),
{
}

/// A change of password with the right old password succeeds: the user gets
/// the fresh salt and the digest of the new password, and keeps the token.
/// From then on a sign-in with the new password succeeds, and one with the old
/// password fails, unless the two passwords have the same digest under the
/// fresh salt, as they do where they are the same.
pub proof fn lemma_change_password_succeeds(
    s: Store,
    at: int,
    old_password: Seq<char>,
    new_password: Seq<char>,
    salt: Seq<char>,
    token: Seq<char>,
)
    requires
        s.wf(),
        0 <= at < s.users.len(),
        password_matches(s.users[at], old_password),
    ensures
        ({
            let user = s.users[at];
            let changed = UserRecord {
                pwd_salt: salt,
                pwd_hash: password_digest(new_password, salt),
                ..user
            };
            let after = set_password_outcome(s, user, old_password, new_password, salt);
            &&& after.response == Ok::<ResponseView, ErrorView>(ResponseView::PasswordChanged)
            &&& after.state == Store { users: s.users.update(at, changed), ..s }
            &&& after.state.wf()
            &&& login_outcome(after.state, user.login, new_password, token).response == Ok::<
                ResponseView,
                ErrorView,
            >(ResponseView::Login { token, id: user.id })
            &&& password_digest(old_password, salt) != password_digest(new_password, salt)
                ==> login_outcome(after.state, user.login, old_password, token) == refused(
                after.state,
                ErrorView::LoginFailed,
            )
        }),
{
    let user = s.users[at];
    let changed = UserRecord {
        pwd_salt: salt,
        pwd_hash: password_digest(new_password, salt),
        ..user
    };
    lemma_can_update_in_wf(s, changed, at);
    lemma_update_user_keeps_wf(s, changed, at);
    let after = Store { users: s.users.update(at, changed), ..s };
    assert(after.users[at] == changed);
    lemma_login_succeeds(after, at, new_password, token);
    lemma_find_in_wf(after, at);
}

/// A new user under a login that is taken is refused with `UserExist`, and no
/// record is made, whatever the store would allot.
pub proof fn lemma_add_user_with_taken_login(
    s: Store,
    profile: Profile,
    salt: Seq<char>,
    token: Seq<char>,
    id: Option<UserId>,
    at: int,
)
    requires
        0 <= at < s.users.len(),
        s.users[at].login == profile.login,
    ensures
        add_user_outcome(s, profile, salt, token, id) == refused(s, ErrorView::UserExist),
{
    lemma_find_user(s.users, UserKey::Login(profile.login));
}

/// A new user under a free login is added as the last user, with the profile
/// given, the fresh salt and token and the identifier allotted; the default
/// password signs the user in. The identifier after the largest in use will do
/// as long as there is one.
pub proof fn lemma_add_user_with_free_login(
    s: Store,
    profile: Profile,
    salt: Seq<char>,
    token: Seq<char>,
    id: Option<UserId>,
    next: Seq<char>,
)
    requires
        s.wf(),
        can_add_user(s.users, new_user(profile, salt, token), id),
    ensures
        ({
            let after = add_user_outcome(s, profile, salt, token, id);
            let added = added_user(new_user(profile, salt, token), id->0);
            &&& after.state.wf()
            &&& after.state == Store { users: s.users.push(added), ..s }
            &&& after.response == Ok::<ResponseView, ErrorView>(
                ResponseView::Users(profiles_of(after.state.users)),
            )
            &&& login_outcome(after.state, profile.login, default_password(), next).response
                == Ok::<ResponseView, ErrorView>(ResponseView::Login { token: next, id: added.id })
        }),
        next_id(s.users) is Some ==> can_add_user(
            s.users,
            new_user(profile, salt, token),
            next_id(s.users),
        ),
{
    let fresh = new_user(profile, salt, token);
    lemma_find_user(s.users, UserKey::Login(profile.login));
    lemma_add_user_keeps_wf(s, fresh, id);
    lemma_next_id_is_free(s.users);
    let after = after_add_user(s, fresh, id);
    lemma_login_succeeds(after, s.users.len() as int, default_password(), next);
}

/// A reset of a user's password gives the user the default password under the
/// fresh salt, and the fresh token in place of the one held: the default
/// password signs the user in.
pub proof fn lemma_reset_password(
    s: Store,
    at: int,
    salt: Seq<char>,
    token: Seq<char>,
    next: Seq<char>,
)
    requires
        s.wf(),
        0 <= at < s.users.len(),
    ensures
        ({
            let user = s.users[at];
            let reset = UserRecord {
                pwd_salt: salt,
                pwd_hash: password_digest(default_password(), salt),
                token,
                ..user
            };
            let after = reset_password_outcome(s, user.id, salt, token);
            &&& after.response == Ok::<ResponseView, ErrorView>(ResponseView::PasswordReset)
            &&& after.state == Store { users: s.users.update(at, reset), ..s }
            &&& after.state.wf()
            &&& login_outcome(after.state, user.login, default_password(), next).response == Ok::<
                ResponseView,
                ErrorView,
            >(ResponseView::Login { token: next, id: user.id })
        }),
{
    let user = s.users[at];
    let reset = UserRecord {
        pwd_salt: salt,
        pwd_hash: password_digest(default_password(), salt),
        token,
        ..user
    };
    lemma_find_in_wf(s, at);
    lemma_can_update_in_wf(s, reset, at);
    lemma_update_user_keeps_wf(s, reset, at);
    let after = Store { users: s.users.update(at, reset), ..s };
    assert(after.users[at] == reset);
    lemma_login_succeeds(after, at, default_password(), next);
}

/// Marking a day as worked and then as not worked leaves the store as marking
/// it as not worked at once does: without a row for that worker and day. Where
/// there was no such row, the store is as if the day had never been marked.
pub proof fn lemma_workday_on_then_off(s: Store, user_id: UserId, year: u16, month: u8, day: u8)
    ensures
        ({
            let entry = ScheduleData { day, month, year, user_id };
            let on = set_workday_outcome(s, user_id, year, month, day, true).state;
            let off = set_workday_outcome(on, user_id, year, month, day, false).state;
            &&& off == set_workday_outcome(s, user_id, year, month, day, false).state
            &&& !off.schedule.contains(entry)
            &&& !s.schedule.contains(entry) ==> off == s
        }),
{
    lemma_toggle_on_then_off(s.schedule, ScheduleData { day, month, year, user_id });
}

/// Replacing a user of the store by a record with the same identifier and
/// login keeps every key to itself.
proof fn lemma_replacing_keeps_wf(s: Store, user: UserRecord, changed: UserRecord)
    requires
        s.wf(),
        s.users.contains(user),
        changed.id == user.id,
        changed.login == user.login,
    ensures
        can_update_user(s.users, changed),
        after_update_user(s, changed).wf(),
{
    let at = choose|i: int| 0 <= i < s.users.len() && s.users[i] == user;
    lemma_can_update_in_wf(s, changed, at);
    lemma_update_user_keeps_wf(s, changed, at);
}

/// The user that a key finds is a user of the store.
proof fn lemma_found_is_there(users: Seq<UserRecord>, key: UserKey)
    ensures
        find_user(users, key) matches Some(user) ==> users.contains(user),
{
    lemma_find_user(users, key);
}

/// Serving a request keeps every key to itself.
proof fn lemma_serve_keeps_wf(s: Store, user: UserRecord, request: Request, drawn: Drawn)
    requires
        s.wf(),
        s.users.contains(user),
    ensures
        serve(s, user, request, drawn).state.wf(),
{
    match request {
        Request::User(request) => match request {
            UserRequest::Login { login, password } => {
                lemma_found_is_there(s.users, UserKey::Login(login@));
                match find_user(s.users, UserKey::Login(login@)) {
                    Some(found) => {
                        lemma_replacing_keeps_wf(
                            s,
                            found,
                            UserRecord { token: drawn.token, ..found },
                        );
                    },
                    None => {},
                }
            },
            UserRequest::SetWorkday { year, month, day, is_working } => {
                lemma_toggled_keeps_distinct(
                    s.schedule,
                    ScheduleData { day, month, year, user_id: user.id },
                    is_working,
                );
            },
            UserRequest::ChangePassword { old_password, new_password } => {
                lemma_replacing_keeps_wf(
                    s,
                    user,
                    UserRecord {
                        pwd_salt: drawn.salt,
                        pwd_hash: password_digest(new_password@, drawn.salt),
                        ..user
                    },
                );
            },
            _ => {},
        },
        Request::Admin(request) => match request {
            AdminRequest::AddUser(profile) => {
                lemma_add_user_keeps_wf(
                    s,
                    new_user(profile@, drawn.salt, drawn.token),
                    drawn.id,
                );
            },
            AdminRequest::ResetPassword { id } => {
                lemma_found_is_there(s.users, UserKey::Id(id));
                match find_user(s.users, UserKey::Id(id)) {
                    Some(found) => {
                        lemma_replacing_keeps_wf(
                            s,
                            found,
                            UserRecord {
                                pwd_salt: drawn.salt,
                                pwd_hash: password_digest(default_password(), drawn.salt),
                                token: drawn.token,
                                ..found
                            },
                        );
                    },
                    None => {},
                }
            },
            AdminRequest::UpdateUser(profile) => {
                lemma_found_is_there(s.users, UserKey::Id(profile.id));
                match find_user(s.users, UserKey::Id(profile.id)) {
                    Some(found) => {
                        lemma_replacing_keeps_wf(s, found, with_profile(found, profile@));
                    },
                    None => {},
                }
            },
            AdminRequest::SetRevenue { year, month, revenue } => {
                lemma_with_revenue_keeps_keyed(
                    s.revenue,
                    RevenueData {
                        day: revenue.day,
                        month,
                        year,
                        with_percent: revenue.with_percent,
                        without_percent: revenue.without_percent,
                    },
                );
            },
            _ => {},
        },
    }
}

/// No request breaks the store: if every key is to itself before a request, it
/// is so after it, whatever the request, the token and the values drawn.
pub proof fn lemma_respond_keeps_wf(
    s: Store,
    request: Request,
    auth: Option<Seq<char>>,
    drawn: Drawn,
)
    requires
        s.wf(),
    ensures
        respond(s, request, auth, drawn).state.wf(),
{
    match request {
        Request::User(UserRequest::Login { login, password }) => {
            lemma_found_is_there(s.users, UserKey::Login(login@));
            match find_user(s.users, UserKey::Login(login@)) {
                Some(found) => {
                    lemma_replacing_keeps_wf(s, found, UserRecord { token: drawn.token, ..found });
                },
                None => {},
            }
        },
        _ => match auth {
            Some(held) => {
                lemma_found_is_there(s.users, UserKey::Token(held));
                match find_user(s.users, UserKey::Token(held)) {
                    Some(user) => {
                        lemma_serve_keeps_wf(s, user, request, drawn);
                    },
                    None => {},
                }
            },
            None => {},
        },
    }
}

/// A request other than a sign-in that comes without a token is refused with
/// `Forbidden`, one with a token that no user holds with `UnknownToken`, and a
/// request of the administrator's kind from a user who is none with
/// `Forbidden`; the store stays as it is.
pub proof fn lemma_gate(s: Store, request: Request, auth: Option<Seq<char>>, drawn: Drawn)
    requires
        !is_login(request),
    ensures
        auth is None ==> respond(s, request, auth, drawn) == refused(s, ErrorView::Forbidden),
        auth matches Some(held) ==> match find_user(s.users, UserKey::Token(held)) {
            None => respond(s, request, auth, drawn) == refused(s, ErrorView::UnknownToken),
            Some(user) => request is Admin && !user.is_admin ==> respond(s, request, auth, drawn)
                == refused(s, ErrorView::Forbidden),
        },
{
}

} // verus!

use crate::salary::{salaries_fit, statements};
use crate::utils::{sha3, sha3_text};
use vstd::prelude::*;
use vstd::string::*;

verus! {

// ---------------------------------------------------------------------------
// Records
// ---------------------------------------------------------------------------

/// A user as the store keeps it: the profile, and the credentials that go with it.
///
/// Amounts are whole numbers of the smallest unit of currency; `percent` is a
/// whole number of hundredths.
#[derive(Debug, PartialEq, Eq)]
pub struct UserData {
    pub id: i32,
    pub login: String,
    pub name: String,
    pub is_admin: bool,
    pub is_worker: bool,
    pub pay: u64,
    pub percent: u64,
    pub pwd_hash: String,
    pub pwd_salt: String,
    pub token: String,
}

/// The mathematical value of a `UserData`.
pub struct UserRecord {
    pub id: i32,
    pub login: Seq<char>,
    pub name: Seq<char>,
    pub is_admin: bool,
    pub is_worker: bool,
    pub pay: u64,
    pub percent: u64,
    pub pwd_hash: Seq<char>,
    pub pwd_salt: Seq<char>,
    pub token: Seq<char>,
}

impl View for UserData {
    type V = UserRecord;

    open spec fn view(&self) -> UserRecord {
        UserRecord {
            id: self.id,
            login: self.login@,
            name: self.name@,
            is_admin: self.is_admin,
            is_worker: self.is_worker,
            pay: self.pay,
            percent: self.percent,
            pwd_hash: self.pwd_hash@,
            pwd_salt: self.pwd_salt@,
            token: self.token@,
        }
    }
}

impl Clone for UserData {
    fn clone(&self) -> (r: Self)
        ensures
            r@ == self@,
    {
        UserData {
            id: self.id,
            login: self.login.clone(),
            name: self.name.clone(),
            is_admin: self.is_admin,
            is_worker: self.is_worker,
            pay: self.pay,
            percent: self.percent,
            pwd_hash: self.pwd_hash.clone(),
            pwd_salt: self.pwd_salt.clone(),
            token: self.token.clone(),
        }
    }
}

/// The digest under which a password is stored with a salt: that of the
/// password, a `#` and the salt, hashed once.
pub open spec fn password_digest(password: Seq<char>, salt: Seq<char>) -> Seq<char> {
    sha3_text(password + seq!['#'] + salt)
}

impl UserData {
    /// The digest of `password` with this user's salt.
    pub fn get_pwd_hash(&self, password: &str) -> (r: String)
        ensures
            r@ == password_digest(password@, self.pwd_salt@),
    {
        let mut salted = String::from_str(password);
        salted.append("#");
        salted.append(self.pwd_salt.as_str());
        proof {
            reveal_strlit("#");
            assert(salted@ =~= password@ + seq!['#'] + self.pwd_salt@);
        }
        sha3(salted.as_str())
    }
}

/// The values of a list of users.
pub open spec fn records(users: Seq<UserData>) -> Seq<UserRecord> {
    users.map_values(|u: UserData| u@)
}

/// By what a user is looked up.
#[derive(Clone, Debug, PartialEq, Eq)]
pub enum UserSearch {
    Id(i32),
    Login(String),
    Token(String),
}

/// The mathematical value of a `UserSearch`.
pub enum UserKey {
    Id(i32),
    Login(Seq<char>),
    Token(Seq<char>),
}

impl View for UserSearch {
    type V = UserKey;

    open spec fn view(&self) -> UserKey {
        match *self {
            UserSearch::Id(id) => UserKey::Id(id),
            UserSearch::Login(login) => UserKey::Login(login@),
            UserSearch::Token(token) => UserKey::Token(token@),
        }
    }
}

impl UserKey {
    /// Whether the key picks this user.
    pub open spec fn selects(self, user: UserRecord) -> bool {
        match self {
            UserKey::Id(id) => user.id == id,
            UserKey::Login(login) => user.login == login,
            UserKey::Token(token) => user.token == token,
        }
    }
}

/// Presence of a worker on a day. A row stands for "worked that day"; there is no
/// row for a day off.
#[derive(Clone, Copy, PartialEq, Eq, Structural, Debug)]
pub struct ScheduleData {
    pub day: u8,
    pub month: u8,
    pub year: u16,
    pub user_id: i32,
}

/// The revenue of a day: the part that is shared out by percent, and the part
/// that is not.
#[derive(Clone, Copy, PartialEq, Eq, Structural, Debug)]
pub struct RevenueData {
    pub day: u8,
    pub month: u8,
    pub year: u16,
    pub with_percent: u64,
    pub without_percent: u64,
}

/// An amount already handed to a worker on a day.
#[derive(Clone, Copy, PartialEq, Eq, Structural, Debug)]
pub struct PayoutData {
    pub day: u8,
    pub month: u8,
    pub year: u16,
    pub user_id: i32,
    pub amount: u64,
}

/// What a worker is owed and was paid over a month.
#[derive(Clone, Copy, PartialEq, Eq, Structural, Debug)]
pub struct SalaryData {
    pub user_id: i32,
    pub amount_paid: u64,
    pub amount_owed: u64,
}

/// A request that the store refused or could not carry out. The detail is meant
/// for the log, not for the caller.
#[derive(Clone, Debug, PartialEq, Eq)]
pub struct StoreError {
    pub detail: String,
}

// ---------------------------------------------------------------------------
// The model of a store
// ---------------------------------------------------------------------------

/// What a store holds: the users and the three ledgers, each as the sequence of
/// its rows.
pub struct Store {
    pub users: Seq<UserRecord>,
    pub schedule: Seq<ScheduleData>,
    pub revenue: Seq<RevenueData>,
    pub payouts: Seq<PayoutData>,
}

impl Store {
    /// The store that holds nothing.
    pub open spec fn empty() -> Store {
        Store {
            users: Seq::empty(),
            schedule: Seq::empty(),
            revenue: Seq::empty(),
            payouts: Seq::empty(),
        }
    }

    /// Each record has its key to itself: no two users share an identifier or
    /// a login, no schedule row is repeated, no two revenue rows are of the
    /// same day, and no two payout rows of the same day and worker.
    pub open spec fn wf(self) -> bool {
        &&& users_keyed(self.users)
        &&& self.schedule.no_duplicates()
        &&& revenue_keyed(self.revenue)
        &&& payouts_keyed(self.payouts)
    }
}

/// No two users share an identifier or a login.
pub open spec fn users_keyed(users: Seq<UserRecord>) -> bool {
    forall|i: int, j: int|
        0 <= i < j < users.len() ==> users[i].id != users[j].id && users[i].login
            != users[j].login
}

/// No two revenue rows are of the same day.
pub open spec fn revenue_keyed(rows: Seq<RevenueData>) -> bool {
    forall|i: int, j: int| 0 <= i < j < rows.len() ==> !same_day(rows[i], rows[j])
}

/// No two payout rows are of the same day and worker.
pub open spec fn payouts_keyed(rows: Seq<PayoutData>) -> bool {
    forall|i: int, j: int| 0 <= i < j < rows.len() ==> !same_payout(rows[i], rows[j])
}

/// The first user that the key picks.
pub open spec fn find_user(users: Seq<UserRecord>, key: UserKey) -> Option<UserRecord>
    decreases users.len(),
{
    if users.len() == 0 {
        None
    } else if key.selects(users.first()) {
        Some(users.first())
    } else {
        find_user(users.drop_first(), key)
    }
}

/// All users, or those whose identifier is in `ids`, in the order of the store.
pub open spec fn pick_users(users: Seq<UserRecord>, ids: Option<Seq<i32>>) -> Seq<UserRecord> {
    match ids {
        None => users,
        Some(ids) => users.filter(|u: UserRecord| ids.contains(u.id)),
    }
}

/// The largest identifier in use, 0 if there is none above 0.
pub open spec fn max_id(users: Seq<UserRecord>) -> int
    decreases users.len(),
{
    if users.len() == 0 {
        0
    } else {
        let rest = max_id(users.drop_last());
        if users.last().id > rest {
            users.last().id as int
        } else {
            rest
        }
    }
}

/// Whether no user holds the login.
pub open spec fn login_free(users: Seq<UserRecord>, login: Seq<char>) -> bool {
    forall|i: int| 0 <= i < users.len() ==> (#[trigger] users[i]).login != login
}

/// Whether no user has the identifier.
pub open spec fn id_free(users: Seq<UserRecord>, id: i32) -> bool {
    forall|i: int| 0 <= i < users.len() ==> (#[trigger] users[i]).id != id
}

/// The identifier that a reliable store allots to a new user: the one after the
/// largest in use, as long as there is one.
pub open spec fn next_id(users: Seq<UserRecord>) -> Option<i32> {
    if max_id(users) < i32::MAX {
        Some((max_id(users) + 1) as i32)
    } else {
        None
    }
}

/// Whether a new user can be added under the identifier that the store allots:
/// the login is free, and there is an identifier, which no user has.
pub open spec fn can_add_user(users: Seq<UserRecord>, user: UserRecord, id: Option<i32>) -> bool {
    &&& login_free(users, user.login)
    &&& id matches Some(id) && id_free(users, id)
}

/// The record that is stored for a new user: the one given, under the
/// identifier allotted.
pub open spec fn added_user(user: UserRecord, id: i32) -> UserRecord {
    UserRecord { id, ..user }
}

/// The store after a new user was asked for: the user's record stands last, or
/// the store is as it was.
pub open spec fn after_add_user(s: Store, user: UserRecord, id: Option<i32>) -> Store {
    if can_add_user(s.users, user, id) {
        Store { users: s.users.push(added_user(user, id->0)), ..s }
    } else {
        s
    }
}

/// Whether a user can be replaced: the identifier is in use, and no other user
/// holds the login.
pub open spec fn can_update_user(users: Seq<UserRecord>, user: UserRecord) -> bool {
    &&& exists|i: int| 0 <= i < users.len() && (#[trigger] users[i]).id == user.id
    &&& forall|i: int|
        0 <= i < users.len() && (#[trigger] users[i]).id != user.id ==> users[i].login
            != user.login
}

/// The users with each record under the identifier of `user` replaced by it.
pub open spec fn replace_user(users: Seq<UserRecord>, user: UserRecord) -> Seq<UserRecord> {
    users.map_values(
        |u: UserRecord|
            if u.id == user.id {
                user
            } else {
                u
            },
    )
}

/// The store after a user was to be replaced.
pub open spec fn after_update_user(s: Store, user: UserRecord) -> Store {
    if can_update_user(s.users, user) {
        Store { users: replace_user(s.users, user), ..s }
    } else {
        s
    }
}

/// The schedule rows of a month.
pub open spec fn schedule_of(rows: Seq<ScheduleData>, month: u8, year: u16) -> Seq<ScheduleData> {
    rows.filter(|r: ScheduleData| r.month == month && r.year == year)
}

/// The rows other than `entry`.
pub open spec fn other_than(entry: ScheduleData) -> spec_fn(ScheduleData) -> bool {
    |r: ScheduleData| r != entry
}

/// The schedule after a day was marked as worked or as not worked: a row that is
/// missing is appended, every copy of a row that is to go is taken out.
pub open spec fn toggled(rows: Seq<ScheduleData>, entry: ScheduleData, working: bool) -> Seq<
    ScheduleData,
> {
    if working {
        if rows.contains(entry) {
            rows
        } else {
            rows.push(entry)
        }
    } else {
        rows.filter(other_than(entry))
    }
}

/// The revenue rows of a month.
pub open spec fn revenue_of(rows: Seq<RevenueData>, month: u8, year: u16) -> Seq<RevenueData> {
    rows.filter(|r: RevenueData| r.month == month && r.year == year)
}

/// Whether two revenue rows are of the same day.
pub open spec fn same_day(a: RevenueData, b: RevenueData) -> bool {
    a.day == b.day && a.month == b.month && a.year == b.year
}

/// The revenue ledger after a day's revenue was set: each row of that day is
/// replaced, and where there is none the row is appended.
pub open spec fn with_revenue(rows: Seq<RevenueData>, entry: RevenueData) -> Seq<RevenueData> {
    if exists|i: int| 0 <= i < rows.len() && same_day(#[trigger] rows[i], entry) {
        rows.map_values(
            |r: RevenueData|
                if same_day(r, entry) {
                    entry
                } else {
                    r
                },
        )
    } else {
        rows.push(entry)
    }
}

/// The payout rows of a month.
pub open spec fn payouts_of(rows: Seq<PayoutData>, month: u8, year: u16) -> Seq<PayoutData> {
    rows.filter(|r: PayoutData| r.month == month && r.year == year)
}

/// Whether two payout rows are of the same day and worker.
pub open spec fn same_payout(a: PayoutData, b: PayoutData) -> bool {
    a.day == b.day && a.month == b.month && a.year == b.year && a.user_id == b.user_id
}

/// The payout ledger after a payout was entered: each row of that day and worker
/// is replaced, and where there is none the row is appended.
pub open spec fn with_payout(rows: Seq<PayoutData>, entry: PayoutData) -> Seq<PayoutData> {
    if exists|i: int| 0 <= i < rows.len() && same_payout(#[trigger] rows[i], entry) {
        rows.map_values(
            |r: PayoutData|
                if same_payout(r, entry) {
                    entry
                } else {
                    r
                },
        )
    } else {
        rows.push(entry)
    }
}

// ---------------------------------------------------------------------------
// Laws of the model
// ---------------------------------------------------------------------------

/// What `find_user` finds: the first user that the key picks, and nothing only
/// if the key picks no user.
pub proof fn lemma_find_user(users: Seq<UserRecord>, key: UserKey)
    ensures
        match find_user(users, key) {
            Some(user) => exists|i: int|
                {
                    &&& 0 <= i < users.len()
                    &&& #[trigger] users[i] == user
                    &&& key.selects(user)
                    &&& forall|j: int| 0 <= j < i ==> !key.selects(#[trigger] users[j])
                },
            None => forall|i: int| 0 <= i < users.len() ==> !key.selects(#[trigger] users[i]),
        },
    decreases users.len(),
{
    if users.len() > 0 {
        if key.selects(users.first()) {
            assert(users[0] == users.first());
        } else {
            let rest = users.drop_first();
            lemma_find_user(rest, key);
            match find_user(rest, key) {
                Some(user) => {
                    let i = choose|i: int|
                        {
                            &&& 0 <= i < rest.len()
                            &&& #[trigger] rest[i] == user
                            &&& key.selects(user)
                            &&& forall|j: int| 0 <= j < i ==> !key.selects(#[trigger] rest[j])
                        };
                    assert(users[i + 1] == user);
                    assert forall|j: int| 0 <= j < i + 1 implies !key.selects(
                        #[trigger] users[j],
                    ) by {
                        if j > 0 {
                            assert(rest[j - 1] == users[j]);
                        }
                    }
                },
                None => {
                    assert forall|i: int| 0 <= i < users.len() implies !key.selects(
                        #[trigger] users[i],
                    ) by {
                        if i > 0 {
                            assert(rest[i - 1] == users[i]);
                        }
                    }
                },
            }
        }
    }
}

/// A key that picks the user at `at` and no other user finds that user.
pub proof fn lemma_find_the_only(users: Seq<UserRecord>, key: UserKey, at: int)
    requires
        0 <= at < users.len(),
        key.selects(users[at]),
        forall|j: int| 0 <= j < users.len() && j != at ==> !key.selects(#[trigger] users[j]),
    ensures
        find_user(users, key) == Some(users[at]),
{
    lemma_find_user(users, key);
}

/// In a store without shared logins and identifiers, a user is found by login
/// and by identifier.
pub proof fn lemma_find_in_wf(s: Store, at: int)
    requires
        s.wf(),
        0 <= at < s.users.len(),
    ensures
        find_user(s.users, UserKey::Login(s.users[at].login)) == Some(s.users[at]),
        find_user(s.users, UserKey::Id(s.users[at].id)) == Some(s.users[at]),
{
    lemma_find_the_only(s.users, UserKey::Login(s.users[at].login), at);
    lemma_find_the_only(s.users, UserKey::Id(s.users[at].id), at);
}

/// Every identifier in use is at most the largest.
pub proof fn lemma_max_id(users: Seq<UserRecord>)
    ensures
        0 <= max_id(users),
        forall|i: int| 0 <= i < users.len() ==> (#[trigger] users[i]).id <= max_id(users),
    decreases users.len(),
{
    if users.len() > 0 {
        lemma_max_id(users.drop_last());
        assert forall|i: int| 0 <= i < users.len() implies (#[trigger] users[i]).id <= max_id(
            users,
        ) by {
            if i < users.len() - 1 {
                assert(users.drop_last()[i] == users[i]);
            }
        }
    }
}

/// The identifier after the largest in use is one that no user has.
pub proof fn lemma_next_id_is_free(users: Seq<UserRecord>)
    ensures
        next_id(users) matches Some(id) ==> id_free(users, id),
{
    lemma_max_id(users);
}

/// Adding a user keeps logins and identifiers unshared. A user that is added
/// stands last, and the users before stay as they were.
pub proof fn lemma_add_user_keeps_wf(s: Store, user: UserRecord, id: Option<i32>)
    requires
        s.wf(),
    ensures
        after_add_user(s, user, id).wf(),
        can_add_user(s.users, user, id) ==> {
            let after = after_add_user(s, user, id);
            &&& after.users.len() == s.users.len() + 1
            &&& after.users.last() == added_user(user, id->0)
            &&& forall|i: int| 0 <= i < s.users.len() ==> #[trigger] after.users[i] == s.users[i]
        },
{
}

/// Replacing a user keeps logins and identifiers unshared, and changes the one
/// record under the identifier.
pub proof fn lemma_update_user_keeps_wf(s: Store, user: UserRecord, at: int)
    requires
        s.wf(),
        0 <= at < s.users.len(),
        s.users[at].id == user.id,
        can_update_user(s.users, user),
    ensures
        after_update_user(s, user).wf(),
        after_update_user(s, user).users == s.users.update(at, user),
{
    let after = after_update_user(s, user).users;
    assert forall|i: int| 0 <= i < s.users.len() implies #[trigger] after[i] == s.users.update(
        at,
        user,
    )[i] by {
        if i != at {
            if i < at {
                assert(s.users[i].id != s.users[at].id);
            } else {
                assert(s.users[at].id != s.users[i].id);
            }
        }
    }
    assert(after =~= s.users.update(at, user));
    assert forall|i: int, j: int| 0 <= i < j < after.len() implies after[i].id != after[j].id
        && after[i].login != after[j].login by {
        assert(s.users[i].id != s.users[j].id);
    }
}

/// In a store without shared logins and identifiers, a user can be replaced by
/// a record with the same identifier and login.
pub proof fn lemma_can_update_in_wf(s: Store, user: UserRecord, at: int)
    requires
        s.wf(),
        0 <= at < s.users.len(),
        s.users[at].id == user.id,
        s.users[at].login == user.login,
    ensures
        can_update_user(s.users, user),
{
    assert forall|i: int|
        0 <= i < s.users.len() && (#[trigger] s.users[i]).id != user.id implies s.users[i].login
        != user.login by {
        if i < at {
            assert(s.users[i].login != s.users[at].login);
        } else if i > at {
            assert(s.users[at].login != s.users[i].login);
        }
    }
}

/// Marking a day as worked and then as not worked leaves the schedule without
/// the row, as marking it as not worked at once does. Where the row was not
/// there, the schedule is as it was.
pub proof fn lemma_toggle_on_then_off(rows: Seq<ScheduleData>, entry: ScheduleData)
    ensures
        toggled(toggled(rows, entry, true), entry, false) == toggled(rows, entry, false),
        !toggled(rows, entry, false).contains(entry),
        !rows.contains(entry) ==> toggled(toggled(rows, entry, true), entry, false) == rows,
{
    rows.lemma_filter_push(entry, other_than(entry));
    lemma_filter_others(rows, entry);
}

/// Taking out a row leaves no copy of it, and changes nothing where there was
/// none.
proof fn lemma_filter_others(rows: Seq<ScheduleData>, entry: ScheduleData)
    ensures
        !rows.filter(other_than(entry)).contains(entry),
        !rows.contains(entry) ==> rows.filter(other_than(entry)) == rows,
    decreases rows.len(),
{
    reveal(Seq::filter);
    if rows.len() > 0 {
        let rest = rows.drop_last();
        lemma_filter_others(rest, entry);
        let kept = rest.filter(other_than(entry));
        if rows.last() != entry {
            let all = kept.push(rows.last());
            if all.contains(entry) {
                let i = choose|i: int| 0 <= i < all.len() && all[i] == entry;
                if i < kept.len() {
                    assert(kept[i] == entry);
                }
            }
        }
        if !rows.contains(entry) {
            if rest.contains(entry) {
                let i = choose|i: int| 0 <= i < rest.len() && rest[i] == entry;
                assert(rows[i] == entry);
            }
            assert(rows[rows.len() - 1] != entry);
            assert(rest.push(rows.last()) =~= rows);
        }
    }
}

/// Taking rows out of a list without repeated rows leaves none repeated.
proof fn lemma_filter_keeps_distinct(rows: Seq<ScheduleData>, pred: spec_fn(ScheduleData) -> bool)
    requires
        rows.no_duplicates(),
    ensures
        rows.filter(pred).no_duplicates(),
    decreases rows.len(),
{
    reveal(Seq::filter);
    if rows.len() > 0 {
        let rest = rows.drop_last();
        lemma_filter_keeps_distinct(rest, pred);
        let kept = rest.filter(pred);
        if pred(rows.last()) {
            if kept.contains(rows.last()) {
                rest.lemma_filter_contains_rev(pred, rows.last());
                let i = choose|i: int| 0 <= i < rest.len() && rest[i] == rows.last();
                assert(rows[i] == rows[rows.len() - 1]);
            }
            let all = kept.push(rows.last());
            assert forall|i: int, j: int|
                0 <= i < all.len() && 0 <= j < all.len() && i != j implies all[i] != all[j] by {
                if i == kept.len() {
                    assert(kept[j] == all[j]);
                } else if j == kept.len() {
                    assert(kept[i] == all[i]);
                }
            }
        }
    }
}

/// Marking a day leaves no schedule row repeated.
pub proof fn lemma_toggled_keeps_distinct(
    rows: Seq<ScheduleData>,
    entry: ScheduleData,
    working: bool,
)
    requires
        rows.no_duplicates(),
    ensures
        toggled(rows, entry, working).no_duplicates(),
{
    if working {
        if !rows.contains(entry) {
            let all = rows.push(entry);
            assert forall|i: int, j: int|
                0 <= i < all.len() && 0 <= j < all.len() && i != j implies all[i] != all[j] by {
                if i == rows.len() {
                    assert(rows[j] == all[j]);
                } else if j == rows.len() {
                    assert(rows[i] == all[i]);
                }
            }
        }
    } else {
        lemma_filter_keeps_distinct(rows, other_than(entry));
    }
}

/// Setting the revenue of a day leaves one row for each day, and the row of
/// that day is the one set.
pub proof fn lemma_with_revenue_keeps_keyed(rows: Seq<RevenueData>, entry: RevenueData)
    requires
        revenue_keyed(rows),
    ensures
        revenue_keyed(with_revenue(rows, entry)),
        with_revenue(rows, entry).contains(entry),
{
    let after = with_revenue(rows, entry);
    if exists|i: int| 0 <= i < rows.len() && same_day(#[trigger] rows[i], entry) {
        let at = choose|i: int| 0 <= i < rows.len() && same_day(#[trigger] rows[i], entry);
        assert(after[at] == entry);
        assert forall|i: int, j: int| 0 <= i < j < after.len() implies !same_day(
            after[i],
            after[j],
        ) by {
            assert(!same_day(rows[i], rows[j]));
        }
    } else {
        assert(after[rows.len() as int] == entry);
        assert forall|i: int, j: int| 0 <= i < j < after.len() implies !same_day(
            after[i],
            after[j],
        ) by {
            if j < rows.len() {
                assert(!same_day(rows[i], rows[j]));
            } else {
                assert(!same_day(rows[i], entry));
            }
        }
    }
}

/// Entering a payout leaves one row for each day and worker, and the row of
/// that day and worker is the one entered.
pub proof fn lemma_with_payout_keeps_keyed(rows: Seq<PayoutData>, entry: PayoutData)
    requires
        payouts_keyed(rows),
    ensures
        payouts_keyed(with_payout(rows, entry)),
        with_payout(rows, entry).contains(entry),
{
    let after = with_payout(rows, entry);
    if exists|i: int| 0 <= i < rows.len() && same_payout(#[trigger] rows[i], entry) {
        let at = choose|i: int| 0 <= i < rows.len() && same_payout(#[trigger] rows[i], entry);
        assert(after[at] == entry);
        assert forall|i: int, j: int| 0 <= i < j < after.len() implies !same_payout(
            after[i],
            after[j],
        ) by {
            assert(!same_payout(rows[i], rows[j]));
        }
    } else {
        assert(after[rows.len() as int] == entry);
        assert forall|i: int, j: int| 0 <= i < j < after.len() implies !same_payout(
            after[i],
            after[j],
        ) by {
            if j < rows.len() {
                assert(!same_payout(rows[i], rows[j]));
            } else {
                assert(!same_payout(rows[i], entry));
            }
        }
    }
}

// ---------------------------------------------------------------------------
// The capabilities of a store
// ---------------------------------------------------------------------------

/// The store behind the handler: the users and the schedule, revenue and payout
/// ledgers.
///
/// `state` is what the store holds. Every store is held to this: what it
/// answers with `Ok` is right, a call that it answers with `Ok` has changed the
/// state as the call says, and a call that it answers with `Err` has changed
/// nothing. A store may fail for reasons of its own, such as a lost connection.
/// A store is `reliable` when it never does: it fails only where its contract
/// names the reason, and it allots to a new user the identifier after the
/// largest in use.
pub trait Database: Sized {
    /// What the store holds. A store that does not say what it holds is taken
    /// to hold something.
    open spec fn state(&self) -> Store {
        arbitrary()
    }

    /// Whether the store is reliable. A store that does not say so is not.
    open spec fn reliable(&self) -> bool {
        false
    }

    /// Stores a new user under an identifier that no user has and returns the
    /// stored record. A reliable store fails only if the login is taken or no
    /// identifier is left.
    fn add_user(&mut self, user: &UserData) -> (r: Result<UserData, StoreError>)
        ensures
            final(self).reliable() == old(self).reliable(),
            match r {
                Ok(stored) => {
                    &&& can_add_user(old(self).state().users, user@, Some(stored.id))
                    &&& stored@ == added_user(user@, stored.id)
                    &&& final(self).state() == after_add_user(
                        old(self).state(),
                        user@,
                        Some(stored.id),
                    )
                    &&& old(self).reliable() ==> Some(stored.id) == next_id(
                        old(self).state().users,
                    )
                },
                Err(_) => {
                    &&& final(self).state() == old(self).state()
                    &&& old(self).reliable() ==> !can_add_user(
                        old(self).state().users,
                        user@,
                        next_id(old(self).state().users),
                    )
                },
            },
    ;

    /// Looks a user up by identifier, login or token: the first user that has
    /// it. A reliable store does not fail.
    fn get_user(&self, user_search: &UserSearch) -> (r: Result<Option<UserData>, StoreError>)
        ensures
            match r {
                Ok(Some(user)) => find_user(self.state().users, user_search@) == Some(user@),
                Ok(None) => find_user(self.state().users, user_search@) is None,
                Err(_) => !self.reliable(),
            },
    ;

    /// All users, or those with one of the given identifiers, in the order of
    /// the store. A reliable store does not fail.
    fn get_users(&self, ids: Option<&Vec<i32>>) -> (r: Result<Vec<UserData>, StoreError>)
        ensures
            match r {
                Ok(users) => records(users@) == pick_users(
                    self.state().users,
                    match ids {
                        Some(ids) => Some(ids@),
                        None => None,
                    },
                ),
                Err(_) => !self.reliable(),
            },
    ;

    /// Replaces the user that has the identifier of `user`, and returns the stored
    /// record. A reliable store fails only if there is no such user, or if
    /// another user holds the login.
    fn update_user(&mut self, user: &UserData) -> (r: Result<UserData, StoreError>)
        ensures
            final(self).reliable() == old(self).reliable(),
            match r {
                Ok(stored) => {
                    &&& can_update_user(old(self).state().users, user@)
                    &&& stored@ == user@
                    &&& final(self).state() == after_update_user(old(self).state(), user@)
                },
                Err(_) => {
                    &&& final(self).state() == old(self).state()
                    &&& old(self).reliable() ==> !can_update_user(old(self).state().users, user@)
                },
            },
    ;

    /// The schedule rows of a month, in the order of the store. A reliable store
    /// does not fail.
    fn get_schedule(&self, month: u8, year: u16) -> (r: Result<Vec<ScheduleData>, StoreError>)
        ensures
            match r {
                Ok(rows) => rows@ == schedule_of(self.state().schedule, month, year),
                Err(_) => !self.reliable(),
            },
    ;

    /// Marks a day as worked or as not worked. A reliable store does not fail.
    fn set_schedule(&mut self, schedule: &ScheduleData, working: bool) -> (r: Result<
        (),
        StoreError,
    >)
        ensures
            final(self).reliable() == old(self).reliable(),
            match r {
                Ok(_) => final(self).state() == Store {
                    schedule: toggled(old(self).state().schedule, *schedule, working),
                    ..old(self).state()
                },
                Err(_) => final(self).state() == old(self).state() && !old(self).reliable(),
            },
    ;

    /// The revenue rows of a month, in the order of the store. A reliable store
    /// does not fail.
    fn get_revenue(&self, month: u8, year: u16) -> (r: Result<Vec<RevenueData>, StoreError>)
        ensures
            match r {
                Ok(rows) => rows@ == revenue_of(self.state().revenue, month, year),
                Err(_) => !self.reliable(),
            },
    ;

    /// Sets the revenue of a day, replacing what was there. A reliable store
    /// does not fail.
    fn set_revenue(&mut self, revenue: &RevenueData) -> (r: Result<(), StoreError>)
        ensures
            final(self).reliable() == old(self).reliable(),
            match r {
                Ok(_) => final(self).state() == Store {
                    revenue: with_revenue(old(self).state().revenue, *revenue),
                    ..old(self).state()
                },
                Err(_) => final(self).state() == old(self).state() && !old(self).reliable(),
            },
    ;

    /// The payout rows of a month, in the order of the store. A reliable store
    /// does not fail.
    fn get_payouts(&self, month: u8, year: u16) -> (r: Result<Vec<PayoutData>, StoreError>)
        ensures
            match r {
                Ok(rows) => rows@ == payouts_of(self.state().payouts, month, year),
                Err(_) => !self.reliable(),
            },
    ;

    /// Enters the payout to a worker on a day, replacing what was there. A
    /// reliable store does not fail.
    fn add_payout(&mut self, payout: &PayoutData) -> (r: Result<(), StoreError>)
        ensures
            final(self).reliable() == old(self).reliable(),
            match r {
                Ok(_) => final(self).state() == Store {
                    payouts: with_payout(old(self).state().payouts, *payout),
                    ..old(self).state()
                },
                Err(_) => final(self).state() == old(self).state() && !old(self).reliable(),
            },
    ;

    /// The statement of every worker for a month. A reliable store fails only
    /// if an amount of a statement does not fit in 64 bits.
    fn get_salaries(&self, month: u8, year: u16) -> (r: Result<Vec<SalaryData>, StoreError>)
        ensures
            ({
                let s = self.state();
                match r {
                    Ok(rows) => {
                        &&& salaries_fit(s.users, s.schedule, s.revenue, s.payouts, month, year)
                        &&& rows@ == statements(
                            s.users,
                            s.schedule,
                            s.revenue,
                            s.payouts,
                            month,
                            year,
                        )
                    },
                    Err(_) => self.reliable() ==> !salaries_fit(
                        s.users,
                        s.schedule,
                        s.revenue,
                        s.payouts,
                        month,
                        year,
                    ),
                }
            }),
    ;
}

} // verus!

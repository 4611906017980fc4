use crate::database::{
    can_update_user, find_user, lemma_next_id_is_free, login_free, max_id, other_than, records,
    replace_user, same_day, same_payout, with_payout, with_revenue, Database, PayoutData,
    RevenueData, SalaryData, ScheduleData, Store, StoreError, UserData, UserRecord, UserSearch,
};
use crate::salary::calculate_salaries;
use vstd::prelude::*;
use vstd::string::*;

verus! {

/// A store that keeps the users and the ledgers in memory, each as the list of
/// its rows in the order in which they were entered. It is reliable: it answers
/// every call from what it holds.
#[derive(Clone, Debug)]
pub struct MemoryDatabase {
    pub users: Vec<UserData>,
    pub schedule: Vec<ScheduleData>,
    pub revenue: Vec<RevenueData>,
    pub payouts: Vec<PayoutData>,
}

/// A refusal with the given detail.
fn refusal(detail: &str) -> (e: StoreError)
    ensures
        e.detail@ == detail@,
{
    StoreError { detail: String::from_str(detail) }
}

/// Whether the search picks the user.
fn picks(user_search: &UserSearch, user: &UserData) -> (r: bool)
    ensures
        r == user_search@.selects(user@),
{
    match user_search {
        UserSearch::Id(id) => user.id == *id,
        UserSearch::Login(login) => user.login == *login,
        UserSearch::Token(token) => user.token == *token,
    }
}

/// Whether the list holds the identifier.
fn holds_id(ids: &Vec<i32>, id: i32) -> (r: bool)
    ensures
        r == ids@.contains(id),
{
    let mut i: usize = 0;
    while i < ids.len()
        invariant
            i <= ids.len(),
            forall|k: int| 0 <= k < i ==> ids@[k] != id,
        decreases ids.len() - i,
    {
        if ids[i] == id {
            return true;
        }
        i += 1;
    }
    false
}

impl MemoryDatabase {
    /// A store that holds nothing.
    pub fn new() -> (r: Self)
        ensures
            r.state() == Store::empty(),
            r.state().wf(),
    {
        let r = MemoryDatabase {
            users: Vec::new(),
            schedule: Vec::new(),
            revenue: Vec::new(),
            payouts: Vec::new(),
        };
        assert(records(r.users@) =~= Seq::<UserRecord>::empty());
        r
    }

    /// Whether no user holds the login.
    fn is_login_free(&self, login: &String) -> (r: bool)
        ensures
            r == login_free(records(self.users@), login@),
    {
        let mut i: usize = 0;
        while i < self.users.len()
            invariant
                i <= self.users.len(),
                forall|k: int| 0 <= k < i ==> (#[trigger] records(self.users@)[k]).login != login@,
            decreases self.users.len() - i,
        {
            if self.users[i].login == *login {
                assert(records(self.users@)[i as int].login == login@);
                return false;
            }
            i += 1;
        }
        true
    }

    /// The largest identifier in use, 0 if there is none above 0.
    fn largest_id(&self) -> (r: i32)
        ensures
            r == max_id(records(self.users@)),
    {
        let mut largest: i32 = 0;
        let mut i: usize = 0;
        let ghost all = records(self.users@);
        while i < self.users.len()
            invariant
                i <= self.users.len(),
                all == records(self.users@),
                largest == max_id(all.take(i as int)),
            decreases self.users.len() - i,
        {
            proof {
                let upto = all.take(i + 1);
                assert(upto.drop_last() =~= all.take(i as int));
                assert(upto.last() == self.users@[i as int]@);
            }
            if self.users[i].id > largest {
                largest = self.users[i].id;
            }
            i += 1;
        }
        assert(all.take(i as int) =~= all);
        largest
    }

    /// Whether the user can be replaced: the identifier is in use and no other
    /// user holds the login.
    fn is_replaceable(&self, user: &UserData) -> (r: bool)
        ensures
            r == can_update_user(records(self.users@), user@),
    {
        let mut found = false;
        let mut i: usize = 0;
        let ghost all = records(self.users@);
        while i < self.users.len()
            invariant
                i <= self.users.len(),
                all == records(self.users@),
                found <==> exists|k: int| 0 <= k < i && (#[trigger] all[k]).id == user.id,
                forall|k: int|
                    0 <= k < i && (#[trigger] all[k]).id != user.id ==> all[k].login
                        != user.login@,
            decreases self.users.len() - i,
        {
            let other = &self.users[i];
            assert(all[i as int] == other@);
            if other.id == user.id {
                found = true;
            } else if other.login == user.login {
                return false;
            }
            i += 1;
        }
        found
    }
}

impl Database for MemoryDatabase {
    open spec fn state(&self) -> Store {
        Store {
            users: records(self.users@),
            schedule: self.schedule@,
            revenue: self.revenue@,
            payouts: self.payouts@,
        }
    }

    open spec fn reliable(&self) -> bool {
        true
    }

    fn add_user(&mut self, user: &UserData) -> (r: Result<UserData, StoreError>) {
        proof {
            lemma_next_id_is_free(records(self.users@));
        }
        if !self.is_login_free(&user.login) {
            return Err(refusal("the login is taken"));
        }
        let largest = self.largest_id();
        if largest == i32::MAX {
            return Err(refusal("no identifier is left"));
        }
        let mut stored = user.clone();
        stored.id = largest + 1;
        let answer = stored.clone();
        proof {
            old(self).users@.lemma_push_map_commute(|u: UserData| u@, stored);
        }
        self.users.push(stored);
        Ok(answer)
    }

    fn get_user(&self, user_search: &UserSearch) -> (r: Result<Option<UserData>, StoreError>) {
        let mut i: usize = 0;
        let ghost all = records(self.users@);
        assert(all.skip(0) =~= all);
        while i < self.users.len()
            invariant
                i <= self.users.len(),
                all == records(self.users@),
                find_user(all, user_search@) == find_user(all.skip(i as int), user_search@),
            decreases self.users.len() - i,
        {
            proof {
                let rest = all.skip(i as int);
                assert(rest.first() == self.users@[i as int]@);
                assert(rest.drop_first() =~= all.skip(i + 1));
            }
            if picks(user_search, &self.users[i]) {
                return Ok(Some(self.users[i].clone()));
            }
            i += 1;
        }
        Ok(None)
    }

    fn get_users(&self, ids: Option<&Vec<i32>>) -> (r: Result<Vec<UserData>, StoreError>) {
        let mut picked: Vec<UserData> = Vec::new();
        let mut i: usize = 0;
        let ghost all = records(self.users@);
        let ghost wanted = |u: UserRecord|
            match ids {
                Some(ids) => ids@.contains(u.id),
                None => true,
            };
        proof {
            reveal(Seq::filter);
            assert(all.take(0).filter(wanted) =~= Seq::<UserRecord>::empty());
            assert(records(picked@) =~= Seq::<UserRecord>::empty());
        }
        while i < self.users.len()
            invariant
                i <= self.users.len(),
                all == records(self.users@),
                wanted == |u: UserRecord|
                    match ids {
                        Some(ids) => ids@.contains(u.id),
                        None => true,
                    },
                records(picked@) == all.take(i as int).filter(wanted),
            decreases self.users.len() - i,
        {
            let user = &self.users[i];
            let take = match ids {
                Some(ids) => holds_id(ids, user.id),
                None => true,
            };
            proof {
                assert(all.take(i + 1) =~= all.take(i as int).push(user@));
                all.take(i as int).lemma_filter_push(user@, wanted);
            }
            if take {
                let copy = user.clone();
                proof {
                    picked@.lemma_push_map_commute(|u: UserData| u@, copy);
                }
                picked.push(copy);
            }
            i += 1;
        }
        proof {
            assert(all.take(i as int) =~= all);
            match ids {
                Some(ids) => {
                    assert(wanted == |u: UserRecord| ids@.contains(u.id));
                },
                None => {
                    lemma_filter_all(all, wanted);
                },
            }
        }
        Ok(picked)
    }

    fn update_user(&mut self, user: &UserData) -> (r: Result<UserData, StoreError>) {
        if !self.is_replaceable(user) {
            return Err(refusal("no such user, or the login is taken"));
        }
        let mut i: usize = 0;
        let ghost before = records(self.users@);
        while i < self.users.len()
            invariant
                i <= self.users.len(),
                before == records(old(self).users@),
                self.users@.len() == before.len(),
                self.schedule == old(self).schedule,
                self.revenue == old(self).revenue,
                self.payouts == old(self).payouts,
                forall|k: int|
                    0 <= k < i ==> (#[trigger] self.users@[k])@ == if before[k].id == user.id {
                        user@
                    } else {
                        before[k]
                    },
                forall|k: int| i <= k < before.len() ==> (#[trigger] self.users@[k])@ == before[k],
            decreases self.users.len() - i,
        {
            if self.users[i].id == user.id {
                self.users.set(i, user.clone());
            }
            i += 1;
        }
        assert(records(self.users@) =~= replace_user(before, user@));
        Ok(user.clone())
    }

    fn get_schedule(&self, month: u8, year: u16) -> (r: Result<Vec<ScheduleData>, StoreError>) {
        let mut rows: Vec<ScheduleData> = Vec::new();
        let mut i: usize = 0;
        let ghost wanted = |r: ScheduleData| r.month == month && r.year == year;
        proof {
            reveal(Seq::filter);
            assert(self.schedule@.take(0).filter(wanted) =~= Seq::<ScheduleData>::empty());
        }
        while i < self.schedule.len()
            invariant
                i <= self.schedule.len(),
                wanted == |r: ScheduleData| r.month == month && r.year == year,
                rows@ == self.schedule@.take(i as int).filter(wanted),
            decreases self.schedule.len() - i,
        {
            let row = self.schedule[i];
            proof {
                assert(self.schedule@.take(i + 1) =~= self.schedule@.take(i as int).push(row));
                self.schedule@.take(i as int).lemma_filter_push(row, wanted);
            }
            if row.month == month && row.year == year {
                rows.push(row);
            }
            i += 1;
        }
        assert(self.schedule@.take(i as int) =~= self.schedule@);
        Ok(rows)
    }

    fn set_schedule(&mut self, schedule: &ScheduleData, working: bool) -> (r: Result<
        (),
        StoreError,
    >) {
        let entry = *schedule;
        let mut kept: Vec<ScheduleData> = Vec::new();
        let mut present = false;
        let mut i: usize = 0;
        let ghost others = other_than(entry);
        proof {
            reveal(Seq::filter);
            assert(self.schedule@.take(0).filter(others) =~= Seq::<ScheduleData>::empty());
        }
        while i < self.schedule.len()
            invariant
                i <= self.schedule.len(),
                *self == *old(self),
                others == other_than(entry),
                kept@ == self.schedule@.take(i as int).filter(others),
                present == self.schedule@.take(i as int).contains(entry),
            decreases self.schedule.len() - i,
        {
            let row = self.schedule[i];
            proof {
                let upto = self.schedule@.take(i as int);
                assert(self.schedule@.take(i + 1) =~= upto.push(row));
                upto.lemma_filter_push(row, others);
                if upto.push(row).contains(entry) {
                    let k = choose|k: int|
                        0 <= k < upto.push(row).len() && upto.push(row)[k] == entry;
                    if k < upto.len() {
                        assert(upto[k] == entry);
                    }
                }
                if upto.contains(entry) {
                    let k = choose|k: int| 0 <= k < upto.len() && upto[k] == entry;
                    assert(upto.push(row)[k] == entry);
                }
                if row == entry {
                    assert(upto.push(row)[upto.len() as int] == entry);
                }
            }
            if row == entry {
                present = true;
            } else {
                kept.push(row);
            }
            i += 1;
        }
        assert(self.schedule@.take(i as int) =~= self.schedule@);
        if working {
            if !present {
                self.schedule.push(entry);
            }
        } else {
            self.schedule = kept;
        }
        Ok(())
    }

    fn get_revenue(&self, month: u8, year: u16) -> (r: Result<Vec<RevenueData>, StoreError>) {
        let mut rows: Vec<RevenueData> = Vec::new();
        let mut i: usize = 0;
        let ghost wanted = |r: RevenueData| r.month == month && r.year == year;
        proof {
            reveal(Seq::filter);
            assert(self.revenue@.take(0).filter(wanted) =~= Seq::<RevenueData>::empty());
        }
        while i < self.revenue.len()
            invariant
                i <= self.revenue.len(),
                wanted == |r: RevenueData| r.month == month && r.year == year,
                rows@ == self.revenue@.take(i as int).filter(wanted),
            decreases self.revenue.len() - i,
        {
            let row = self.revenue[i];
            proof {
                assert(self.revenue@.take(i + 1) =~= self.revenue@.take(i as int).push(row));
                self.revenue@.take(i as int).lemma_filter_push(row, wanted);
            }
            if row.month == month && row.year == year {
                rows.push(row);
            }
            i += 1;
        }
        assert(self.revenue@.take(i as int) =~= self.revenue@);
        Ok(rows)
    }

    fn set_revenue(&mut self, revenue: &RevenueData) -> (r: Result<(), StoreError>) {
        let entry = *revenue;
        let mut found = false;
        let mut i: usize = 0;
        let ghost before = self.revenue@;
        while i < self.revenue.len()
            invariant
                i <= self.revenue.len(),
                before == old(self).revenue@,
                self.revenue@.len() == before.len(),
                self.users == old(self).users,
                self.schedule == old(self).schedule,
                self.payouts == old(self).payouts,
                found <==> exists|k: int| 0 <= k < i && same_day(#[trigger] before[k], entry),
                forall|k: int|
                    0 <= k < i ==> #[trigger] self.revenue@[k] == if same_day(before[k], entry) {
                        entry
                    } else {
                        before[k]
                    },
                forall|k: int| i <= k < before.len() ==> #[trigger] self.revenue@[k] == before[k],
            decreases self.revenue.len() - i,
        {
            let row = self.revenue[i];
            if row.day == entry.day && row.month == entry.month && row.year == entry.year {
                self.revenue.set(i, entry);
                found = true;
            }
            i += 1;
        }
        if !found {
            self.revenue.push(entry);
            assert(self.revenue@ =~= before.push(entry));
        } else {
            assert(self.revenue@ =~= with_revenue(before, entry));
        }
        Ok(())
    }

    fn get_payouts(&self, month: u8, year: u16) -> (r: Result<Vec<PayoutData>, StoreError>) {
        let mut rows: Vec<PayoutData> = Vec::new();
        let mut i: usize = 0;
        let ghost wanted = |r: PayoutData| r.month == month && r.year == year;
        proof {
            reveal(Seq::filter);
            assert(self.payouts@.take(0).filter(wanted) =~= Seq::<PayoutData>::empty());
        }
        while i < self.payouts.len()
            invariant
                i <= self.payouts.len(),
                wanted == |r: PayoutData| r.month == month && r.year == year,
                rows@ == self.payouts@.take(i as int).filter(wanted),
            decreases self.payouts.len() - i,
        {
            let row = self.payouts[i];
            proof {
                assert(self.payouts@.take(i + 1) =~= self.payouts@.take(i as int).push(row));
                self.payouts@.take(i as int).lemma_filter_push(row, wanted);
            }
            if row.month == month && row.year == year {
                rows.push(row);
            }
            i += 1;
        }
        assert(self.payouts@.take(i as int) =~= self.payouts@);
        Ok(rows)
    }

    fn add_payout(&mut self, payout: &PayoutData) -> (r: Result<(), StoreError>) {
        let entry = *payout;
        let mut found = false;
        let mut i: usize = 0;
        let ghost before = self.payouts@;
        while i < self.payouts.len()
            invariant
                i <= self.payouts.len(),
                before == old(self).payouts@,
                self.payouts@.len() == before.len(),
                self.users == old(self).users,
                self.schedule == old(self).schedule,
                self.revenue == old(self).revenue,
                found <==> exists|k: int| 0 <= k < i && same_payout(#[trigger] before[k], entry),
                forall|k: int|
                    0 <= k < i ==> #[trigger] self.payouts@[k] == if same_payout(before[k], entry) {
                        entry
                    } else {
                        before[k]
                    },
                forall|k: int| i <= k < before.len() ==> #[trigger] self.payouts@[k] == before[k],
            decreases self.payouts.len() - i,
        {
            let row = self.payouts[i];
            if row.day == entry.day && row.month == entry.month && row.year == entry.year
                && row.user_id == entry.user_id {
                self.payouts.set(i, entry);
                found = true;
            }
            i += 1;
        }
        if !found {
            self.payouts.push(entry);
            assert(self.payouts@ =~= before.push(entry));
        } else {
            assert(self.payouts@ =~= with_payout(before, entry));
        }
        Ok(())
    }

    fn get_salaries(&self, month: u8, year: u16) -> (r: Result<Vec<SalaryData>, StoreError>) {
        match calculate_salaries(
            &self.users,
            &self.schedule,
            &self.revenue,
            &self.payouts,
            month,
            year,
        ) {
            Some(rows) => Ok(rows),
            None => Err(refusal("an amount does not fit in 64 bits")),
        }
    }
}

/// A filter that every element passes keeps the sequence.
proof fn lemma_filter_all<A>(s: Seq<A>, pred: spec_fn(A) -> bool)
    requires
        forall|i: int| 0 <= i < s.len() ==> pred(#[trigger] s[i]),
    ensures
        s.filter(pred) == s,
    decreases s.len(),
{
    reveal(Seq::filter);
    if s.len() > 0 {
        lemma_filter_all(s.drop_last(), pred);
        assert(s.drop_last().push(s.last()) =~= s);
    }
}

} // verus!

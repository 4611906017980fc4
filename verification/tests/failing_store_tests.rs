use pravda::database::{
    Database, PayoutData, RevenueData, SalaryData, ScheduleData, StoreError, UserData, UserSearch,
};
use pravda::database_memory::MemoryDatabase;
use pravda::pravda_handler::PravdaHandler;
use pravda::protocol::{AdminRequest, ProtocolError, Request, ResponseData, User, UserRequest};

/// A store that answers from memory until `calls_left` calls were made, and
/// fails every call after that.
#[derive(Clone)]
struct FailingStore {
    inner: MemoryDatabase,
    calls_left: usize,
}

impl FailingStore {
    fn tick(&mut self) -> Result<(), StoreError> {
        if self.calls_left == 0 {
            Err(StoreError { detail: "connection lost".to_string() })
        } else {
            self.calls_left -= 1;
            Ok(())
        }
    }

    fn peek(&self) -> Result<(), StoreError> {
        if self.calls_left == 0 {
            Err(StoreError { detail: "connection lost".to_string() })
        } else {
            Ok(())
        }
    }
}

impl Database for FailingStore {
    fn add_user(&mut self, user: &UserData) -> Result<UserData, StoreError> {
        self.tick()?;
        self.inner.add_user(user)
    }

    fn get_user(&self, user_search: &UserSearch) -> Result<Option<UserData>, StoreError> {
        self.peek()?;
        self.inner.get_user(user_search)
    }

    fn get_users(&self, ids: Option<&Vec<i32>>) -> Result<Vec<UserData>, StoreError> {
        self.peek()?;
        self.inner.get_users(ids)
    }

    fn update_user(&mut self, user: &UserData) -> Result<UserData, StoreError> {
        self.tick()?;
        self.inner.update_user(user)
    }

    fn get_schedule(&self, month: u8, year: u16) -> Result<Vec<ScheduleData>, StoreError> {
        self.peek()?;
        self.inner.get_schedule(month, year)
    }

    fn set_schedule(&mut self, schedule: &ScheduleData, working: bool) -> Result<(), StoreError> {
        self.tick()?;
        self.inner.set_schedule(schedule, working)
    }

    fn get_revenue(&self, month: u8, year: u16) -> Result<Vec<RevenueData>, StoreError> {
        self.peek()?;
        self.inner.get_revenue(month, year)
    }

    fn set_revenue(&mut self, revenue: &RevenueData) -> Result<(), StoreError> {
        self.tick()?;
        self.inner.set_revenue(revenue)
    }

    fn get_payouts(&self, month: u8, year: u16) -> Result<Vec<PayoutData>, StoreError> {
        self.peek()?;
        self.inner.get_payouts(month, year)
    }

    fn add_payout(&mut self, payout: &PayoutData) -> Result<(), StoreError> {
        self.tick()?;
        self.inner.add_payout(payout)
    }

    fn get_salaries(&self, month: u8, year: u16) -> Result<Vec<SalaryData>, StoreError> {
        self.peek()?;
        self.inner.get_salaries(month, year)
    }
}

fn stored_user(login: &str, password: &str, is_admin: bool, token: &str) -> UserData {
    let mut user = UserData {
        id: 0,
        login: login.to_string(),
        name: format!("Name of {}", login),
        is_admin,
        is_worker: !is_admin,
        pay: 1000,
        percent: 50,
        pwd_hash: String::new(),
        pwd_salt: format!("salt-of-{}", login),
        token: token.to_string(),
    };
    user.pwd_hash = user.get_pwd_hash(password);
    user
}

fn handler(calls_left: usize) -> PravdaHandler<FailingStore> {
    let mut inner = MemoryDatabase::new();
    inner.add_user(&stored_user("root", "root-password", true, "root-token")).unwrap();
    inner.add_user(&stored_user("ann", "ann-password", false, "ann-token")).unwrap();
    PravdaHandler::new(FailingStore { inner, calls_left })
}

fn login(login: &str, password: &str) -> Request {
    Request::User(UserRequest::Login { login: login.to_string(), password: password.to_string() })
}

#[test]
fn a_store_that_works_answers_as_the_memory_store() {
    let mut h = handler(10);
    assert!(matches!(
        h.process(login("ann", "ann-password"), None),
        Ok(ResponseData::Login { id: 2, .. })
    ));
}

#[test]
fn login_fails_when_the_store_cannot_be_read() {
    let mut h = handler(0);
    let before = h.database().inner.users.clone();
    assert_eq!(h.process(login("ann", "ann-password"), None), Err(ProtocolError::LoginFailed));
    assert_eq!(h.process(login("ann", "wrong"), None), Err(ProtocolError::LoginFailed));
    assert_eq!(h.database().inner.users, before);
}

#[test]
fn a_failing_store_shows_as_an_internal_error() {
    let mut h = handler(0);
    let before = h.database().inner.clone();
    let answer = h.process(Request::User(UserRequest::GetUserInfo), Some("ann-token".to_string()));
    assert_eq!(answer, Err(ProtocolError::Unknown("connection lost".to_string())));
    let answer = h.process(Request::Admin(AdminRequest::GetUsers), Some("root-token".to_string()));
    assert!(matches!(answer, Err(ProtocolError::Unknown(_))));
    assert_eq!(h.database().inner.users, before.users);
    assert_eq!(h.database().inner.schedule, before.schedule);
}

#[test]
fn a_request_without_token_is_forbidden_without_asking_the_store() {
    let mut h = handler(0);
    assert_eq!(
        h.process(Request::User(UserRequest::GetUserInfo), None),
        Err(ProtocolError::Forbidden)
    );
}

#[test]
fn a_write_that_went_through_stays_when_the_answer_cannot_be_read() {
    let mut h = handler(1);
    let answer = h.process(
        Request::User(UserRequest::SetWorkday { year: 2024, month: 3, day: 5, is_working: true }),
        Some("ann-token".to_string()),
    );
    assert!(matches!(answer, Err(ProtocolError::Unknown(_))));
    assert_eq!(
        h.database().inner.schedule,
        vec![ScheduleData { day: 5, month: 3, year: 2024, user_id: 2 }]
    );
}

#[test]
fn add_user_with_a_taken_login_makes_no_record_even_when_the_store_fails() {
    let mut h = handler(0);
    let profile = User {
        id: 0,
        login: "ann".to_string(),
        name: "Another Ann".to_string(),
        is_admin: false,
        is_worker: true,
        pay: 1,
        percent: 1,
    };
    let before = h.database().inner.users.clone();
    let answer =
        h.process(Request::Admin(AdminRequest::AddUser(profile)), Some("root-token".to_string()));
    assert!(matches!(answer, Err(ProtocolError::Unknown(_))));
    assert_eq!(h.database().inner.users, before);
}

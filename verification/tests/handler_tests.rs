use pravda::database::{Database, PayoutData, ScheduleData, UserData, UserSearch};
use pravda::database_memory::MemoryDatabase;
use pravda::pravda_handler::{initial_password, schedule_table, PravdaHandler};
use pravda::protocol::{
    AdminRequest, ProtocolError, Request, ResponseData, Revenue, Salary, User, UserRequest,
};
use std::collections::HashMap;

fn stored_user(login: &str, password: &str, is_admin: bool, token: &str) -> UserData {
    let mut user = UserData {
        id: 0,
        login: login.to_string(),
        name: format!("Name of {}", login),
        is_admin,
        is_worker: !is_admin,
        pay: 1000,
        percent: 50,
        pwd_hash: String::new(),
        pwd_salt: format!("salt-of-{}", login),
        token: token.to_string(),
    };
    user.pwd_hash = user.get_pwd_hash(password);
    user
}

/// An administrator `root` (id 1, token `root-token`) and a worker `ann` (id 2,
/// token `ann-token`).
fn handler() -> PravdaHandler<MemoryDatabase> {
    let mut db = MemoryDatabase::new();
    db.add_user(&stored_user("root", "root-password", true, "root-token")).unwrap();
    db.add_user(&stored_user("ann", "ann-password", false, "ann-token")).unwrap();
    PravdaHandler::new(db)
}

fn login(login: &str, password: &str) -> Request {
    Request::User(UserRequest::Login { login: login.to_string(), password: password.to_string() })
}

fn token(text: &str) -> Option<String> {
    Some(text.to_string())
}

fn profile(id: i32, login: &str) -> User {
    User {
        id,
        login: login.to_string(),
        name: format!("Name of {}", login),
        is_admin: false,
        is_worker: true,
        pay: 700,
        percent: 20,
    }
}

fn user_of(h: &PravdaHandler<MemoryDatabase>, id: i32) -> UserData {
    h.database().get_user(&UserSearch::Id(id)).unwrap().unwrap()
}

#[test]
fn login_with_correct_credentials_issues_a_token_that_resolves() {
    let mut h = handler();
    let answer = h.process(login("ann", "ann-password"), None);
    let issued = match answer {
        Ok(ResponseData::Login { token, id }) => {
            assert_eq!(id, 2);
            token
        }
        other => panic!("unexpected answer: {:?}", other),
    };
    assert_ne!(issued, "ann-token");
    assert_eq!(issued.len(), 36);
    assert_eq!(user_of(&h, 2).token, issued);
    let info = h.process(Request::User(UserRequest::GetUserInfo), Some(issued));
    assert_eq!(
        info,
        Ok(ResponseData::UserInfo(User {
            id: 2,
            login: "ann".to_string(),
            name: "Name of ann".to_string(),
            is_admin: false,
            is_worker: true,
            pay: 1000,
            percent: 50,
        }))
    );
    assert_eq!(
        h.process(Request::User(UserRequest::GetUserInfo), token("ann-token")),
        Err(ProtocolError::UnknownToken)
    );
}

#[test]
fn login_with_the_given_token() {
    let mut h = handler();
    let answer = h.process_with(
        login("ann", "ann-password"),
        None,
        "unused-salt".to_string(),
        "fresh-token".to_string(),
    );
    assert_eq!(answer, Ok(ResponseData::Login { token: "fresh-token".to_string(), id: 2 }));
    let ann = user_of(&h, 2);
    assert_eq!(ann.token, "fresh-token");
    assert_eq!(ann.pwd_salt, "salt-of-ann");
    assert_eq!(user_of(&h, 1), stored_user_with_id(1, "root", "root-password", true, "root-token"));
}

fn stored_user_with_id(id: i32, login: &str, password: &str, is_admin: bool, t: &str) -> UserData {
    let mut user = stored_user(login, password, is_admin, t);
    user.id = id;
    user
}

#[test]
fn login_with_wrong_password_fails_and_keeps_the_token() {
    let mut h = handler();
    let before = h.database().clone();
    assert_eq!(h.process(login("ann", "Ann-password"), None), Err(ProtocolError::LoginFailed));
    assert_eq!(h.process(login("ann", ""), None), Err(ProtocolError::LoginFailed));
    assert_eq!(h.process(login("ann", "root-password"), None), Err(ProtocolError::LoginFailed));
    assert_eq!(h.database().users, before.users);
    assert_eq!(user_of(&h, 2).token, "ann-token");
    assert!(h.process(Request::User(UserRequest::GetUserInfo), token("ann-token")).is_ok());
}

#[test]
fn login_with_unknown_login_fails() {
    let mut h = handler();
    let before = h.database().clone();
    assert_eq!(h.process(login("bob", "ann-password"), None), Err(ProtocolError::LoginFailed));
    assert_eq!(h.database().users, before.users);
}

#[test]
fn login_ignores_the_token_that_comes_with_it() {
    let mut h = handler();
    let answer = h.process_with(
        login("ann", "ann-password"),
        token("no-such-token"),
        String::new(),
        "t".to_string(),
    );
    assert_eq!(answer, Ok(ResponseData::Login { token: "t".to_string(), id: 2 }));
}

#[test]
fn request_without_token_is_forbidden() {
    let mut h = handler();
    let before = h.database().clone();
    assert_eq!(
        h.process(Request::User(UserRequest::GetUserInfo), None),
        Err(ProtocolError::Forbidden)
    );
    assert_eq!(h.process(Request::Admin(AdminRequest::GetUsers), None), Err(ProtocolError::Forbidden));
    assert_eq!(
        h.process(
            Request::User(UserRequest::SetWorkday { year: 2024, month: 3, day: 5, is_working: true }),
            None
        ),
        Err(ProtocolError::Forbidden)
    );
    assert_eq!(h.database().schedule, before.schedule);
}

#[test]
fn request_with_unknown_token_is_refused() {
    let mut h = handler();
    assert_eq!(
        h.process(Request::User(UserRequest::GetUserInfo), token("nobody")),
        Err(ProtocolError::UnknownToken)
    );
    assert_eq!(
        h.process(Request::Admin(AdminRequest::GetUsers), token("")),
        Err(ProtocolError::UnknownToken)
    );
}

#[test]
fn admin_requests_are_forbidden_to_others() {
    let mut h = handler();
    let before = h.database().clone();
    let requests = vec![
        AdminRequest::GetUsers,
        AdminRequest::AddUser(profile(0, "bob")),
        AdminRequest::ResetPassword { id: 1 },
        AdminRequest::UpdateUser(profile(2, "ann")),
        AdminRequest::GetRevenue { year: 2024, month: 3 },
        AdminRequest::SetRevenue {
            year: 2024,
            month: 3,
            revenue: Revenue { day: 1, with_percent: 1, without_percent: 1 },
        },
        AdminRequest::GetSalaryCalculation { year: 2024, month: 3 },
    ];
    for request in requests {
        assert_eq!(
            h.process(Request::Admin(request), token("ann-token")),
            Err(ProtocolError::Forbidden)
        );
    }
    assert_eq!(h.database().users, before.users);
    assert_eq!(h.database().revenue, before.revenue);
}

#[test]
fn change_password_with_wrong_old_password_changes_nothing() {
    let mut h = handler();
    let before = user_of(&h, 2);
    let answer = h.process(
        Request::User(UserRequest::ChangePassword {
            old_password: "wrong".to_string(),
            new_password: "new-password".to_string(),
        }),
        token("ann-token"),
    );
    assert_eq!(answer, Err(ProtocolError::LoginFailed));
    let after = user_of(&h, 2);
    assert_eq!(after, before);
    assert_eq!(after.pwd_hash, before.pwd_hash);
    assert_eq!(after.pwd_salt, before.pwd_salt);
    assert_eq!(after.token, before.token);
    assert!(h.process(login("ann", "new-password"), None).is_err());
}

#[test]
fn change_password_then_only_the_new_password_signs_in() {
    let mut h = handler();
    let before = user_of(&h, 2);
    let answer = h.process(
        Request::User(UserRequest::ChangePassword {
            old_password: "ann-password".to_string(),
            new_password: "new-password".to_string(),
        }),
        token("ann-token"),
    );
    assert_eq!(answer, Ok(ResponseData::PasswordChanged));
    let after = user_of(&h, 2);
    assert_eq!(after.token, "ann-token");
    assert_ne!(after.pwd_salt, before.pwd_salt);
    assert_ne!(after.pwd_hash, before.pwd_hash);
    assert_eq!(after.pwd_hash, after.get_pwd_hash("new-password"));
    assert_eq!(h.process(login("ann", "ann-password"), None), Err(ProtocolError::LoginFailed));
    assert!(matches!(
        h.process(login("ann", "new-password"), None),
        Ok(ResponseData::Login { id: 2, .. })
    ));
}

#[test]
fn change_password_uses_the_given_salt() {
    let mut h = handler();
    let answer = h.process_with(
        Request::User(UserRequest::ChangePassword {
            old_password: "ann-password".to_string(),
            new_password: "new-password".to_string(),
        }),
        token("ann-token"),
        "fresh-salt".to_string(),
        "unused-token".to_string(),
    );
    assert_eq!(answer, Ok(ResponseData::PasswordChanged));
    let after = user_of(&h, 2);
    assert_eq!(after.pwd_salt, "fresh-salt");
    assert_eq!(after.pwd_hash, pravda::utils::sha3("new-password#fresh-salt"));
    assert_eq!(after.token, "ann-token");
}

#[test]
fn add_user_with_a_taken_login_is_refused() {
    let mut h = handler();
    let before = h.database().clone();
    let answer = h.process(Request::Admin(AdminRequest::AddUser(profile(0, "ann"))), token("root-token"));
    assert_eq!(answer, Err(ProtocolError::UserExist));
    assert_eq!(h.database().users, before.users);
    assert_eq!(h.database().users.len(), 2);
}

#[test]
fn add_user_gives_the_default_password() {
    let mut h = handler();
    let answer = h.process_with(
        Request::Admin(AdminRequest::AddUser(profile(77, "bob"))),
        token("root-token"),
        "bob-salt".to_string(),
        "bob-token".to_string(),
    );
    let users = match answer {
        Ok(ResponseData::Users(users)) => users,
        other => panic!("unexpected answer: {:?}", other),
    };
    assert_eq!(users.len(), 3);
    assert_eq!(users[2], profile(3, "bob"));
    assert_eq!(users[0].login, "root");
    let bob = user_of(&h, 3);
    assert_eq!(bob.pwd_salt, "bob-salt");
    assert_eq!(bob.token, "bob-token");
    assert_eq!(bob.pwd_hash, pravda::utils::sha3("Qwer4321#bob-salt"));
    assert_eq!(initial_password(), "Qwer4321");
    assert!(matches!(
        h.process(login("bob", "Qwer4321"), None),
        Ok(ResponseData::Login { id: 3, .. })
    ));
}

#[test]
fn add_user_draws_distinct_salt_and_token() {
    let mut h = handler();
    h.process(Request::Admin(AdminRequest::AddUser(profile(0, "bob"))), token("root-token")).unwrap();
    let bob = user_of(&h, 3);
    assert_eq!(bob.pwd_salt.len(), 36);
    assert_eq!(bob.token.len(), 36);
    assert_ne!(bob.pwd_salt, bob.token);
}

#[test]
fn reset_password_ends_the_session_and_gives_the_default_password() {
    let mut h = handler();
    let answer = h.process(Request::Admin(AdminRequest::ResetPassword { id: 2 }), token("root-token"));
    assert_eq!(answer, Ok(ResponseData::PasswordReset));
    let ann = user_of(&h, 2);
    assert_ne!(ann.token, "ann-token");
    assert_ne!(ann.pwd_salt, "salt-of-ann");
    assert_eq!(
        h.process(Request::User(UserRequest::GetUserInfo), token("ann-token")),
        Err(ProtocolError::UnknownToken)
    );
    assert_eq!(h.process(login("ann", "ann-password"), None), Err(ProtocolError::LoginFailed));
    assert!(h.process(login("ann", "Qwer4321"), None).is_ok());
}

#[test]
fn reset_password_of_an_unknown_user_fails() {
    let mut h = handler();
    let before = h.database().clone();
    let answer = h.process(Request::Admin(AdminRequest::ResetPassword { id: 9 }), token("root-token"));
    assert!(matches!(answer, Err(ProtocolError::Unknown(_))));
    assert_eq!(h.database().users, before.users);
}

#[test]
fn update_user_changes_the_profile_and_keeps_login_and_credentials() {
    let mut h = handler();
    let before = user_of(&h, 2);
    let mut changed = profile(2, "renamed");
    changed.name = "Ann B.".to_string();
    changed.is_admin = true;
    changed.is_worker = false;
    let answer = h.process(Request::Admin(AdminRequest::UpdateUser(changed)), token("root-token"));
    let users = match answer {
        Ok(ResponseData::Users(users)) => users,
        other => panic!("unexpected answer: {:?}", other),
    };
    assert_eq!(
        users[1],
        User {
            id: 2,
            login: "ann".to_string(),
            name: "Ann B.".to_string(),
            is_admin: true,
            is_worker: false,
            pay: 700,
            percent: 20,
        }
    );
    let after = user_of(&h, 2);
    assert_eq!(after.login, "ann");
    assert_eq!(after.pwd_hash, before.pwd_hash);
    assert_eq!(after.pwd_salt, before.pwd_salt);
    assert_eq!(after.token, before.token);
}

#[test]
fn update_user_of_an_unknown_user_fails() {
    let mut h = handler();
    let answer =
        h.process(Request::Admin(AdminRequest::UpdateUser(profile(9, "x"))), token("root-token"));
    assert!(matches!(answer, Err(ProtocolError::Unknown(_))));
}

#[test]
fn get_users_lists_all_profiles() {
    let mut h = handler();
    let answer = h.process(Request::Admin(AdminRequest::GetUsers), token("root-token"));
    let users = match answer {
        Ok(ResponseData::Users(users)) => users,
        other => panic!("unexpected answer: {:?}", other),
    };
    assert_eq!(users.len(), 2);
    assert_eq!(users[0].id, 1);
    assert!(users[0].is_admin);
    assert_eq!(users[1].login, "ann");
}

#[test]
fn get_user_names_maps_ids_to_names() {
    let mut h = handler();
    let answer =
        h.process(Request::User(UserRequest::GetUserNames { ids: vec![2, 5, 1] }), token("ann-token"));
    let mut names = HashMap::new();
    names.insert(1, "Name of root".to_string());
    names.insert(2, "Name of ann".to_string());
    assert_eq!(answer, Ok(ResponseData::UserNames { names }));
    let answer = h.process(Request::User(UserRequest::GetUserNames { ids: vec![] }), token("ann-token"));
    assert_eq!(answer, Ok(ResponseData::UserNames { names: HashMap::new() }));
}

#[test]
fn set_workday_answers_the_schedule_of_the_month() {
    let mut h = handler();
    let answer = h.process(
        Request::User(UserRequest::SetWorkday { year: 2024, month: 2, day: 29, is_working: true }),
        token("ann-token"),
    );
    let mut days = vec![false; 30];
    days[29] = true;
    let mut schedule = HashMap::new();
    schedule.insert(2, days.clone());
    assert_eq!(answer, Ok(ResponseData::Schedule { year: 2024, month: 2, schedule: schedule.clone() }));

    h.process(
        Request::User(UserRequest::SetWorkday { year: 2024, month: 2, day: 1, is_working: true }),
        token("root-token"),
    )
    .unwrap();
    let answer =
        h.process(Request::User(UserRequest::GetSchedule { year: 2024, month: 2 }), token("ann-token"));
    let mut root_days = vec![false; 30];
    root_days[1] = true;
    schedule.insert(1, root_days);
    assert_eq!(answer, Ok(ResponseData::Schedule { year: 2024, month: 2, schedule }));

    let answer =
        h.process(Request::User(UserRequest::GetSchedule { year: 2024, month: 3 }), token("ann-token"));
    assert_eq!(
        answer,
        Ok(ResponseData::Schedule { year: 2024, month: 3, schedule: HashMap::new() })
    );
}

#[test]
fn set_workday_on_then_off_is_as_never_set() {
    let mut h = handler();
    h.process(
        Request::User(UserRequest::SetWorkday { year: 2024, month: 3, day: 4, is_working: true }),
        token("root-token"),
    )
    .unwrap();
    let before = h.database().clone();
    h.process(
        Request::User(UserRequest::SetWorkday { year: 2024, month: 3, day: 5, is_working: true }),
        token("ann-token"),
    )
    .unwrap();
    assert_eq!(h.database().schedule.len(), 2);
    let answer = h.process(
        Request::User(UserRequest::SetWorkday { year: 2024, month: 3, day: 5, is_working: false }),
        token("ann-token"),
    );
    assert_eq!(h.database().schedule, before.schedule);
    assert_eq!(h.database().users, before.users);
    let mut days = vec![false; 32];
    days[4] = true;
    let mut schedule = HashMap::new();
    schedule.insert(1, days);
    assert_eq!(answer, Ok(ResponseData::Schedule { year: 2024, month: 3, schedule }));
}

#[test]
fn a_day_beyond_the_month_does_not_show_in_the_table() {
    let mut h = handler();
    let answer = h.process(
        Request::User(UserRequest::SetWorkday { year: 2023, month: 2, day: 29, is_working: true }),
        token("ann-token"),
    );
    let mut schedule = HashMap::new();
    schedule.insert(2, vec![false; 29]);
    assert_eq!(answer, Ok(ResponseData::Schedule { year: 2023, month: 2, schedule }));
    assert_eq!(h.database().schedule.len(), 1);
}

#[test]
fn schedule_table_has_one_entry_per_day_from_zero() {
    let rows = vec![
        ScheduleData { day: 0, month: 4, year: 2024, user_id: 7 },
        ScheduleData { day: 30, month: 4, year: 2024, user_id: 7 },
        ScheduleData { day: 31, month: 4, year: 2024, user_id: 8 },
        ScheduleData { day: 2, month: 5, year: 2024, user_id: 9 },
    ];
    let table = schedule_table(&rows, 2024, 4);
    let mut seven = vec![false; 31];
    seven[0] = true;
    seven[30] = true;
    let mut expected = HashMap::new();
    expected.insert(7, seven);
    expected.insert(8, vec![false; 31]);
    assert_eq!(table, expected);
}

#[test]
fn set_revenue_answers_the_revenue_of_the_month() {
    let mut h = handler();
    let first = Revenue { day: 5, with_percent: 100, without_percent: 10 };
    let answer = h.process(
        Request::Admin(AdminRequest::SetRevenue { year: 2024, month: 3, revenue: first }),
        token("root-token"),
    );
    assert_eq!(answer, Ok(ResponseData::Revenue { year: 2024, month: 3, revenue: vec![first] }));
    let second = Revenue { day: 6, with_percent: 200, without_percent: 20 };
    h.process(
        Request::Admin(AdminRequest::SetRevenue { year: 2024, month: 3, revenue: second }),
        token("root-token"),
    )
    .unwrap();
    let replaced = Revenue { day: 5, with_percent: 300, without_percent: 30 };
    let answer = h.process(
        Request::Admin(AdminRequest::SetRevenue { year: 2024, month: 3, revenue: replaced }),
        token("root-token"),
    );
    assert_eq!(
        answer,
        Ok(ResponseData::Revenue { year: 2024, month: 3, revenue: vec![replaced, second] })
    );
    let answer =
        h.process(Request::Admin(AdminRequest::GetRevenue { year: 2024, month: 4 }), token("root-token"));
    assert_eq!(answer, Ok(ResponseData::Revenue { year: 2024, month: 4, revenue: vec![] }));
}

#[test]
fn salary_calculation_gives_total_and_paid() {
    let mut db = MemoryDatabase::new();
    db.add_user(&stored_user("root", "root-password", true, "root-token")).unwrap();
    db.add_user(&stored_user("ann", "ann-password", false, "ann-token")).unwrap();
    db.add_user(&stored_user("bob", "bob-password", false, "bob-token")).unwrap();
    db.add_payout(&PayoutData { day: 5, month: 3, year: 2024, user_id: 2, amount: 40 }).unwrap();
    let mut h = PravdaHandler::new(db);
    for t in ["ann-token", "bob-token"] {
        h.process(
            Request::User(UserRequest::SetWorkday { year: 2024, month: 3, day: 5, is_working: true }),
            token(t),
        )
        .unwrap();
    }
    h.process(
        Request::Admin(AdminRequest::SetRevenue {
            year: 2024,
            month: 3,
            revenue: Revenue { day: 5, with_percent: 100, without_percent: 0 },
        }),
        token("root-token"),
    )
    .unwrap();
    let answer = h.process(
        Request::Admin(AdminRequest::GetSalaryCalculation { year: 2024, month: 3 }),
        token("root-token"),
    );
    // owed: 1000 + 100 / 2 * 50 / 100 = 1025; total is owed plus paid
    assert_eq!(
        answer,
        Ok(ResponseData::SalaryCalculation {
            salaries: vec![
                Salary { id: 2, total: 1065, paid: 40 },
                Salary { id: 3, total: 1025, paid: 0 },
            ]
        })
    );
}

#[test]
fn salary_calculation_fails_when_a_total_does_not_fit() {
    let mut db = MemoryDatabase::new();
    db.add_user(&stored_user("root", "root-password", true, "root-token")).unwrap();
    let mut ann = stored_user("ann", "ann-password", false, "ann-token");
    ann.pay = u64::MAX;
    ann.percent = 0;
    db.add_user(&ann).unwrap();
    db.add_payout(&PayoutData { day: 5, month: 3, year: 2024, user_id: 2, amount: 1 }).unwrap();
    let mut h = PravdaHandler::new(db);
    let request = Request::Admin(AdminRequest::GetSalaryCalculation { year: 2024, month: 3 });
    assert_eq!(
        h.process(request.clone(), token("root-token")),
        Ok(ResponseData::SalaryCalculation { salaries: vec![Salary { id: 2, total: 1, paid: 1 }] })
    );
    h.process(
        Request::User(UserRequest::SetWorkday { year: 2024, month: 3, day: 5, is_working: true }),
        token("ann-token"),
    )
    .unwrap();
    assert!(matches!(h.process(request, token("root-token")), Err(ProtocolError::Unknown(_))));
}

#[test]
fn internal_errors_are_told_from_refusals() {
    assert!(ProtocolError::Unknown("detail".to_string()).is_internal());
    assert!(!ProtocolError::LoginFailed.is_internal());
    assert!(!ProtocolError::UnknownToken.is_internal());
    assert!(!ProtocolError::Forbidden.is_internal());
    assert!(!ProtocolError::UserExist.is_internal());
}

#[test]
fn status_is_by_the_kind_of_response() {
    use_status(Ok(ResponseData::PasswordChanged), 200);
    use_status(Ok(ResponseData::Users(vec![])), 200);
    use_status(Err(ProtocolError::Unknown("detail".to_string())), 500);
    use_status(Err(ProtocolError::LoginFailed), 400);
    use_status(Err(ProtocolError::UnknownToken), 400);
    use_status(Err(ProtocolError::Forbidden), 400);
    use_status(Err(ProtocolError::UserExist), 400);
}

fn use_status(response: Result<ResponseData, ProtocolError>, expected: u16) {
    assert_eq!(pravda::protocol::status_code(&response), expected);
}

#[test]
fn only_some_requests_draw_identifiers() {
    assert!(pravda::pravda_handler::draws(&login("a", "b")));
    assert!(pravda::pravda_handler::draws(&Request::User(UserRequest::ChangePassword {
        old_password: String::new(),
        new_password: String::new(),
    })));
    assert!(pravda::pravda_handler::draws(&Request::Admin(AdminRequest::AddUser(profile(0, "x")))));
    assert!(pravda::pravda_handler::draws(&Request::Admin(AdminRequest::ResetPassword { id: 1 })));
    assert!(!pravda::pravda_handler::draws(&Request::User(UserRequest::GetUserInfo)));
    assert!(!pravda::pravda_handler::draws(&Request::Admin(AdminRequest::GetUsers)));
    assert!(!pravda::pravda_handler::draws(&Request::Admin(AdminRequest::UpdateUser(profile(
        1, "x"
    )))));
}

#[test]
fn requests_that_draw_nothing_leave_credentials_alone() {
    let mut h = handler();
    let before = h.database().users.clone();
    h.process(Request::User(UserRequest::GetUserInfo), token("ann-token")).unwrap();
    h.process(Request::User(UserRequest::GetSchedule { year: 2024, month: 1 }), token("ann-token"))
        .unwrap();
    h.process(Request::Admin(AdminRequest::GetUsers), token("root-token")).unwrap();
    assert_eq!(h.database().users, before);
}

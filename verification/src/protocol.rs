use std::collections::HashMap;
use vstd::prelude::*;

verus! {

pub type UserId = i32;

/// The profile of a user, as callers see it: no credentials.
#[derive(Clone, Debug, PartialEq, Eq)]
pub struct User {
    pub id: UserId,
    pub login: String,
    pub name: String,
    pub is_admin: bool,
    pub is_worker: bool,
    pub pay: u64,
    pub percent: u64,
}

/// The mathematical value of a `User`.
pub struct Profile {
    pub id: UserId,
    pub login: Seq<char>,
    pub name: Seq<char>,
    pub is_admin: bool,
    pub is_worker: bool,
    pub pay: u64,
    pub percent: u64,
}

impl View for User {
    type V = Profile;

    open spec fn view(&self) -> Profile {
        Profile {
            id: self.id,
            login: self.login@,
            name: self.name@,
            is_admin: self.is_admin,
            is_worker: self.is_worker,
            pay: self.pay,
            percent: self.percent,
        }
    }
}

/// The revenue of one day of the month that the request names.
#[derive(Clone, Copy, PartialEq, Eq, Structural, Debug)]
pub struct Revenue {
    pub day: u8,
    pub with_percent: u64,
    pub without_percent: u64,
}

/// What a worker earned over a month and how much of it was handed out.
#[derive(Clone, Copy, PartialEq, Eq, Structural, Debug)]
pub struct Salary {
    pub id: UserId,
    pub total: u64,
    pub paid: u64,
}

/// What any signed-in user may ask, and the sign-in itself.
#[derive(Clone, Debug, PartialEq, Eq)]
pub enum UserRequest {
    Login { login: String, password: String },
    GetUserInfo,
    GetSchedule { year: u16, month: u8 },
    SetWorkday { year: u16, month: u8, day: u8, is_working: bool },
    ChangePassword { old_password: String, new_password: String },
    GetUserNames { ids: Vec<UserId> },
}

/// What only an administrator may ask.
#[derive(Clone, Debug, PartialEq, Eq)]
pub enum AdminRequest {
    GetUsers,
    AddUser(User),
    ResetPassword { id: UserId },
    UpdateUser(User),
    GetRevenue { year: u16, month: u8 },
    SetRevenue { year: u16, month: u8, revenue: Revenue },
    GetSalaryCalculation { year: u16, month: u8 },
}

#[derive(Clone, Debug, PartialEq, Eq)]
pub enum Request {
    User(UserRequest),
    Admin(AdminRequest),
}

/// The answer to a request that was carried out.
#[derive(Clone, Debug, PartialEq, Eq)]
pub enum ResponseData {
    Login { token: String, id: UserId },
    UserInfo(User),
    /// For each worker with a day in the month, whether each day was worked:
    /// the entry at index `d` is for day `d`, up to the last day of the month.
    Schedule { year: u16, month: u8, schedule: HashMap<UserId, Vec<bool>> },
    PasswordChanged,
    UserNames { names: HashMap<UserId, String> },
    Users(Vec<User>),
    PasswordReset,
    Revenue { year: u16, month: u8, revenue: Vec<Revenue> },
    SalaryCalculation { salaries: Vec<Salary> },
}

/// Why a request was not carried out.
#[derive(Clone, Debug, PartialEq, Eq)]
pub enum ProtocolError {
    /// No such login, or the password is wrong.
    LoginFailed,
    /// No user holds the token.
    UnknownToken,
    /// No token was given, or the user is no administrator.
    Forbidden,
    /// The login is taken.
    UserExist,
    /// Anything else. The detail is for the log.
    Unknown(String),
}

pub type Response = Result<ResponseData, ProtocolError>;

/// The mathematical value of a `ResponseData`.
pub enum ResponseView {
    Login { token: Seq<char>, id: UserId },
    UserInfo(Profile),
    Schedule { year: u16, month: u8, schedule: Map<UserId, Seq<bool>> },
    PasswordChanged,
    UserNames { names: Map<UserId, Seq<char>> },
    Users(Seq<Profile>),
    PasswordReset,
    Revenue { year: u16, month: u8, revenue: Seq<Revenue> },
    SalaryCalculation { salaries: Seq<Salary> },
}

/// The mathematical value of a `ProtocolError`: its kind. The detail of
/// `Unknown` is not part of it.
pub enum ErrorView {
    LoginFailed,
    UnknownToken,
    Forbidden,
    UserExist,
    Unknown,
}

/// The values of a table of days.
pub open spec fn day_flags(table: Map<UserId, Vec<bool>>) -> Map<UserId, Seq<bool>> {
    table.map_values(|days: Vec<bool>| days@)
}

/// The values of a table of names.
pub open spec fn name_texts(names: Map<UserId, String>) -> Map<UserId, Seq<char>> {
    names.map_values(|name: String| name@)
}

/// The values of a list of profiles.
pub open spec fn profiles(users: Seq<User>) -> Seq<Profile> {
    users.map_values(|u: User| u@)
}

impl View for ResponseData {
    type V = ResponseView;

    open spec fn view(&self) -> ResponseView {
        match *self {
            ResponseData::Login { token, id } => ResponseView::Login { token: token@, id },
            ResponseData::UserInfo(user) => ResponseView::UserInfo(user@),
            ResponseData::Schedule { year, month, schedule } => ResponseView::Schedule {
                year,
                month,
                schedule: day_flags(schedule@),
            },
            ResponseData::PasswordChanged => ResponseView::PasswordChanged,
            ResponseData::UserNames { names } => ResponseView::UserNames {
                names: name_texts(names@),
            },
            ResponseData::Users(users) => ResponseView::Users(profiles(users@)),
            ResponseData::PasswordReset => ResponseView::PasswordReset,
            ResponseData::Revenue { year, month, revenue } => ResponseView::Revenue {
                year,
                month,
                revenue: revenue@,
            },
            ResponseData::SalaryCalculation { salaries } => ResponseView::SalaryCalculation {
                salaries: salaries@,
            },
        }
    }
}

impl View for ProtocolError {
    type V = ErrorView;

    open spec fn view(&self) -> ErrorView {
        match *self {
            ProtocolError::LoginFailed => ErrorView::LoginFailed,
            ProtocolError::UnknownToken => ErrorView::UnknownToken,
            ProtocolError::Forbidden => ErrorView::Forbidden,
            ProtocolError::UserExist => ErrorView::UserExist,
            ProtocolError::Unknown(_) => ErrorView::Unknown,
        }
    }
}

/// The mathematical value of a response.
pub open spec fn response_view(response: Response) -> Result<ResponseView, ErrorView> {
    match response {
        Ok(data) => Ok(data@),
        Err(error) => Err(error@),
    }
}

/// The status under which a response goes out: 200 for an answer, 500 for an
/// internal failure, 400 for a request that was refused.
pub open spec fn status_of(response: Result<ResponseView, ErrorView>) -> u16 {
    match response {
        Ok(_) => 200,
        Err(ErrorView::Unknown) => 500,
        Err(_) => 400,
    }
}

/// The status under which a response goes out.
pub fn status_code(response: &Response) -> (code: u16)
    ensures
        code == status_of(response_view(*response)),
{
    match response {
        Ok(_) => 200,
        Err(error) => if error.is_internal() {
            500
        } else {
            400
        },
    }
}

impl ProtocolError {
    /// Whether the error stands for a failure inside the service rather than a
    /// request that was refused.
    pub fn is_internal(&self) -> (r: bool)
        ensures
            r == (self@ == ErrorView::Unknown),
    {
        match self {
            ProtocolError::Unknown(_) => true,
            _ => false,
        }
    }
}

} // verus!

//! Shift pay for a small team: who worked on which day, what each day brought
//! in, what was handed out, and what every worker is owed for a month.
//!
//! - `salary` joins the schedule, the revenue and the payouts of a month into
//!   one statement for each worker.
//! - `database` says what a store of users and ledgers holds and what each of
//!   its calls does; `database_memory` is a store in memory.
//! - `pravda_handler` answers requests from a store: it signs users in, keeps
//!   the administrator's requests to administrators, and changes the store as
//!   the request says.
//! - `protocol` holds the requests and the responses.
//! - `utils` holds the calendar, the random identifiers and the digest.

pub mod database;
pub mod database_memory;
pub mod pravda_handler;
pub mod protocol;
pub mod salary;
pub mod utils;

use vstd::prelude::*;
use vstd::string::*;

verus! {

// ---------------------------------------------------------------------------
// Calendar
// ---------------------------------------------------------------------------

/// Whether `year` is a leap year of the proleptic Gregorian calendar.
pub open spec fn is_leap_year(year: int) -> bool {
    year % 4 == 0 && (year % 100 != 0 || year % 400 == 0)
}

/// Number of days of month `month` (1 to 12) of `year`; 0 for any other month.
pub open spec fn month_length(year: int, month: int) -> int {
    if month == 2 {
        if is_leap_year(year) {
            29
        } else {
            28
        }
    } else if month == 4 || month == 6 || month == 9 || month == 11 {
        30
    } else if 1 <= month <= 12 {
        31
    } else {
        0
    }
}

/// Whether (year, month, day) is a calendar date that `chrono::NaiveDate` can hold.
pub open spec fn is_calendar_date(year: int, month: int, day: int) -> bool {
    -262143 <= year <= 262142 && 1 <= month <= 12 && 1 <= day <= month_length(year, month)
}

/// The calendar date just before (year, month, day).
pub open spec fn day_before(date: (int, int, int)) -> (int, int, int) {
    if date.2 > 1 {
        (date.0, date.1, date.2 - 1)
    } else if date.1 > 1 {
        (date.0, date.1 - 1, month_length(date.0, date.1 - 1))
    } else {
        (date.0 - 1, 12, 31)
    }
}

/// What `get_days_in_month` answers: the length of a month from 1 to 12, and 31 for
/// every other month number.
pub open spec fn days_in_month(year: int, month: int) -> int {
    if 1 <= month <= 12 {
        month_length(year, month)
    } else {
        31
    }
}

/// `chrono::NaiveDate`, a calendar date. Nothing of its inside is seen here: a
/// date is made, handed on and asked for its day.
#[verifier::external_type_specification]
#[verifier::external_body]
pub struct ExNaiveDate(chrono::NaiveDate);

/// The (year, month, day) that a `chrono::NaiveDate` stands for. Trusted: a date
/// stands for the same calendar date wherever it is asked.
pub uninterp spec fn calendar_date(date: chrono::NaiveDate) -> (int, int, int);

/// `chrono::NaiveDate::from_ymd_opt`. Trusted: it answers `Some` exactly for the
/// calendar dates that exist within chrono's range of years, and the date it
/// returns is the one asked for.
#[verifier::external_body]
fn date_from_ymd(year: i32, month: u32, day: u32) -> (r: Option<chrono::NaiveDate>)
    ensures
        r is Some <==> is_calendar_date(year as int, month as int, day as int),
        r matches Some(d) ==> calendar_date(d) == (year as int, month as int, day as int),
{
    chrono::NaiveDate::from_ymd_opt(year, month, day)
}

/// `chrono::NaiveDate::pred_opt`. Trusted: it answers the previous calendar date,
/// and `None` only for the first date that chrono can hold, the first of January
/// of the year -262143.
#[verifier::external_body]
fn date_pred(date: &chrono::NaiveDate) -> (r: Option<chrono::NaiveDate>)
    ensures
        r is Some <==> calendar_date(*date) != (-262143int, 1int, 1int),
        r matches Some(d) ==> calendar_date(d) == day_before(calendar_date(*date)),
{
    date.pred_opt()
}

/// `chrono::Datelike::day` of a `NaiveDate`. Trusted: it answers the day of the
/// month, counted from 1.
#[verifier::external_body]
fn date_day(date: &chrono::NaiveDate) -> (r: u32)
    ensures
        r as int == calendar_date(*date).2,
{
    chrono::Datelike::day(date)
}

/// The number of days of the given month.
///
/// The month is found as the day before the first of the following month, so a
/// month number outside 1 to 11 has no following month in the same year and is
/// answered with 31: right for December, and the fixed answer for 0 and for
/// numbers above 12.
pub fn get_days_in_month(year: u16, month: u8) -> (r: u32)
    ensures
        r as int == days_in_month(year as int, month as int),
{
    let next_month = date_from_ymd(year as i32, (month as u32) + 1, 1);
    match next_month {
        Some(first) => {
            match date_pred(&first) {
                Some(last) => date_day(&last),
                None => 31,
            }
        },
        None => 31,
    }
}

// ---------------------------------------------------------------------------
// Random identifiers
// ---------------------------------------------------------------------------

/// Whether `c` is a lower-case hexadecimal digit.
pub open spec fn is_lower_hex(c: char) -> bool {
    ('0' <= c && c <= '9') || ('a' <= c && c <= 'f')
}

/// The shape of a hyphenated UUID: 36 characters, hyphens at positions 8, 13, 18
/// and 23, lower-case hexadecimal digits elsewhere.
pub open spec fn is_uuid_text(s: Seq<char>) -> bool {
    &&& s.len() == 36
    &&& forall|i: int|
        0 <= i < 36 ==> if i == 8 || i == 13 || i == 18 || i == 23 {
            #[trigger] s[i] == '-'
        } else {
            is_lower_hex(s[i])
        }
}

/// `uuid::Uuid::new_v4` followed by its `Display`. Trusted: whatever random
/// value is drawn, its text is the hyphenated lower-case form. Nothing is said of
/// which value is drawn: two calls may or may not differ. The call aborts if the
/// operating system cannot supply randomness.
#[verifier::external_body]
fn uuid_v4_text() -> (r: String)
    ensures
        is_uuid_text(r@),
{
    uuid::Uuid::new_v4().to_string()
}

/// A fresh random identifier, as text. Used for salts and session tokens.
pub fn make_uuid() -> (r: String)
    ensures
        is_uuid_text(r@),
{
    uuid_v4_text()
}

// ---------------------------------------------------------------------------
// Digests
// ---------------------------------------------------------------------------

/// The SHA3-256 digest of a byte string.
pub uninterp spec fn sha3_256_digest(data: Seq<u8>) -> Seq<u8>;

/// `sha3::Sha3_256` through `Digest::new`, `update` and `finalize`. Trusted: the
/// result is the SHA3-256 digest of `data`, which is 32 bytes long.
#[verifier::external_body]
fn sha3_256(data: &[u8]) -> (r: Vec<u8>)
    ensures
        r@ == sha3_256_digest(data@),
        r@.len() == 32,
{
    let mut hasher = <sha3::Sha3_256 as sha3::Digest>::new();
    sha3::Digest::update(&mut hasher, data);
    sha3::Digest::finalize(hasher).to_vec()
}

/// The sixteen lower-case hexadecimal digits, in order.
pub open spec fn hex_digits() -> Seq<char> {
    seq!['0', '1', '2', '3', '4', '5', '6', '7', '8', '9', 'a', 'b', 'c', 'd', 'e', 'f']
}

/// A byte in lower-case hexadecimal without padding: one digit below 16, two from
/// 16 on.
pub open spec fn hex_byte(b: u8) -> Seq<char> {
    if b < 16 {
        seq![hex_digits()[b as int]]
    } else {
        seq![hex_digits()[b as int / 16], hex_digits()[b as int % 16]]
    }
}

/// The bytes in hexadecimal, separated by a comma and a space.
pub open spec fn hex_items(bytes: Seq<u8>) -> Seq<char>
    decreases bytes.len(),
{
    if bytes.len() == 0 {
        Seq::empty()
    } else if bytes.len() == 1 {
        hex_byte(bytes[0])
    } else {
        hex_items(bytes.drop_last()) + seq![',', ' '] + hex_byte(bytes.last())
    }
}

/// The bytes as a bracketed list of hexadecimal numbers, such as `[a7, ff, 0]`.
/// This is the text under which digests are stored.
pub open spec fn hex_list(bytes: Seq<u8>) -> Seq<char> {
    seq!['['] + hex_items(bytes) + seq![']']
}

/// The stored text of the SHA3-256 digest of `text`.
pub open spec fn sha3_text(text: Seq<char>) -> Seq<char> {
    hex_list(sha3_256_digest(vstd::utf8::encode_utf8(text)))
}

fn hex_digit_str(n: u8) -> (r: &'static str)
    requires
        n < 16,
    ensures
        r@ == seq![hex_digits()[n as int]],
{
    proof {
        reveal_strlit("0");
        reveal_strlit("1");
        reveal_strlit("2");
        reveal_strlit("3");
        reveal_strlit("4");
        reveal_strlit("5");
        reveal_strlit("6");
        reveal_strlit("7");
        reveal_strlit("8");
        reveal_strlit("9");
        reveal_strlit("a");
        reveal_strlit("b");
        reveal_strlit("c");
        reveal_strlit("d");
        reveal_strlit("e");
        reveal_strlit("f");
    }
    let r = match n {
        0 => "0",
        1 => "1",
        2 => "2",
        3 => "3",
        4 => "4",
        5 => "5",
        6 => "6",
        7 => "7",
        8 => "8",
        9 => "9",
        10 => "a",
        11 => "b",
        12 => "c",
        13 => "d",
        14 => "e",
        _ => "f",
    };
    assert(r@ =~= seq![hex_digits()[n as int]]);
    r
}

fn push_hex_byte(out: &mut String, b: u8)
    ensures
        final(out)@ == old(out)@ + hex_byte(b),
{
    if b >= 16 {
        out.append(hex_digit_str(b / 16));
        out.append(hex_digit_str(b % 16));
    } else {
        out.append(hex_digit_str(b));
    }
    assert(out@ =~= old(out)@ + hex_byte(b));
}

/// Renders bytes as a bracketed list of unpadded lower-case hexadecimal numbers.
pub fn hex_list_text(bytes: &Vec<u8>) -> (r: String)
    ensures
        r@ == hex_list(bytes@),
{
    let mut out = String::from_str("[");
    proof {
        reveal_strlit("[");
        assert(out@ =~= seq!['['] + hex_items(bytes@.take(0)));
    }
    let mut i: usize = 0;
    while i < bytes.len()
        invariant
            i <= bytes.len(),
            out@ == seq!['['] + hex_items(bytes@.take(i as int)),
        decreases bytes.len() - i,
    {
        let ghost before = out@;
        if i > 0 {
            out.append(", ");
        }
        push_hex_byte(&mut out, bytes[i]);
        proof {
            let next = bytes@.take(i + 1);
            assert(next.drop_last() =~= bytes@.take(i as int));
            assert(next.last() == bytes@[i as int]);
            if i > 0 {
                reveal_strlit(", ");
                assert(", "@ =~= seq![',', ' ']);
            } else {
                assert(next.len() == 1);
                assert(hex_items(bytes@.take(0)) =~= Seq::<char>::empty());
            }
            assert(out@ =~= seq!['['] + hex_items(next));
        }
        i += 1;
    }
    assert(bytes@.take(i as int) =~= bytes@);
    out.append("]");
    proof {
        reveal_strlit("]");
        assert(out@ =~= hex_list(bytes@));
    }
    out
}

/// The SHA3-256 digest of `text`, as the bracketed hexadecimal list under which
/// digests are stored.
pub fn sha3(text: &str) -> (r: String)
    ensures
        r@ == sha3_text(text@),
{
    let digest = sha3_256(text.as_bytes());
    hex_list_text(&digest)
}

} // verus!

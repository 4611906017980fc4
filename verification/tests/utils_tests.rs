use pravda::utils::{get_days_in_month, hex_list_text, make_uuid, sha3};

#[test]
fn test_get_days_in_month() {
    assert_eq!(get_days_in_month(2023, 1), 31);
    assert_eq!(get_days_in_month(2024, 2), 29);
    assert_eq!(get_days_in_month(2023, 2), 28);
    assert_eq!(get_days_in_month(2023, 3), 31);
    assert_eq!(get_days_in_month(2023, 4), 30);
    assert_eq!(get_days_in_month(2023, 12), 31);
}

#[test]
fn test_make_uuid_uniqueness() {
    assert_ne!(make_uuid(), make_uuid());
}

#[test]
fn test_sha3() {
    assert_ne!(sha3("Qwer4321"), sha3("qwer4321"));
    assert_eq!(sha3("Qwer4321"), sha3("Qwer4321"));
}

#[test]
fn days_in_month_outside_the_calendar() {
    assert_eq!(get_days_in_month(2023, 0), 31);
    assert_eq!(get_days_in_month(2023, 13), 31);
    assert_eq!(get_days_in_month(2023, 255), 31);
    assert_eq!(get_days_in_month(0, 2), 29);
    assert_eq!(get_days_in_month(1900, 2), 28);
    assert_eq!(get_days_in_month(2000, 2), 29);
    assert_eq!(get_days_in_month(65535, 11), 30);
}

#[test]
fn uuid_has_the_hyphenated_shape() {
    let id = make_uuid();
    assert_eq!(id.len(), 36);
    for (i, c) in id.chars().enumerate() {
        if i == 8 || i == 13 || i == 18 || i == 23 {
            assert_eq!(c, '-');
        } else {
            assert!(c.is_ascii_digit() || ('a'..='f').contains(&c));
        }
    }
}

#[test]
fn hex_list_is_unpadded_and_comma_separated() {
    assert_eq!(hex_list_text(&vec![]), "[]");
    assert_eq!(hex_list_text(&vec![0]), "[0]");
    assert_eq!(hex_list_text(&vec![167, 255, 0, 15, 16]), "[a7, ff, 0, f, 10]");
    assert_eq!(hex_list_text(&vec![1, 2]), format!("{:x?}", [1u8, 2u8]));
}

#[test]
fn sha3_of_known_inputs() {
    assert_eq!(
        sha3(""),
        "[a7, ff, c6, f8, bf, 1e, d7, 66, 51, c1, 47, 56, a0, 61, d6, 62, f5, 80, ff, 4d, e4, 3b, 49, fa, 82, d8, a, 4b, 80, f8, 43, 4a]"
    );
    assert_eq!(
        sha3("abc"),
        "[3a, 98, 5d, a7, 4f, e2, 25, b2, 4, 5c, 17, 2d, 6b, d3, 90, bd, 85, 5f, 8, 6e, 3e, 9d, 52, 5b, 46, bf, e2, 45, 11, 43, 15, 32]"
    );
}

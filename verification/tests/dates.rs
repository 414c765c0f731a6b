use pomodoro_tui::date::{date_digits, format_date_csv, format_date_display, unix_to_date};

#[test]
fn epoch_is_first_of_january_1970() {
    assert_eq!(unix_to_date(0), "1970-01-01");
    assert_eq!(unix_to_date(86399), "1970-01-01");
    assert_eq!(unix_to_date(86400), "1970-01-02");
}

#[test]
fn year_and_leap_day_boundaries() {
    assert_eq!(unix_to_date(365 * 86400), "1971-01-01");
    assert_eq!(unix_to_date(951782400), "2000-02-29");
    assert_eq!(unix_to_date(951868800), "2000-03-01");
    assert_eq!(unix_to_date(1709164800), "2024-02-29");
    assert_eq!(unix_to_date(1735603200), "2024-12-31");
    assert_eq!(unix_to_date(1735689600), "2025-01-01");
}

#[test]
fn a_known_date() {
    assert_eq!(unix_to_date(1700000000), "2023-11-14");
    assert_eq!(unix_to_date(4102444800), "2100-01-01");
    assert_eq!(unix_to_date(4107542400), "2100-03-01");
}

#[test]
fn dashes_are_taken_out() {
    assert_eq!(date_digits("2024-03-05"), "20240305");
    assert_eq!(date_digits(""), "");
    assert_eq!(date_digits("--"), "");
}

#[test]
fn form_shows_typed_digits() {
    assert_eq!(format_date_display(""), "____-__-__");
    assert_eq!(format_date_display("2024"), "2024-__-__");
    assert_eq!(format_date_display("202403"), "2024-03-__");
    assert_eq!(format_date_display("20240305"), "2024-03-05");
}

#[test]
fn history_file_date() {
    assert_eq!(format_date_csv("20240305"), "2024-03-05");
    assert_eq!(format_date_csv("2024"), "2024-__-__");
    assert_eq!(format_date_csv("2024030"), "2024-03-0_");
}

#[test]
fn history_file_date_counts_bytes() {
    // "éé" takes four bytes, so eight bytes are cut after the second "é".
    assert_eq!(format_date_csv("\u{e9}\u{e9}\u{e9}12"), "\u{e9}\u{e9}-\u{e9}-12");
}

#[test]
fn today_survives_the_form() {
    let today = unix_to_date(1700000000);
    let digits = date_digits(&today);
    assert_eq!(format_date_csv(&digits), today);
}

#[test]
fn last_four_digit_day_and_order() {
    let last = unix_to_date(253402300799);
    assert_eq!(last, "9999-12-31");
    assert_eq!(last.len(), 10);
    let times = [0u64, 86399, 86400, 951782400, 951868800, 1709596800, 253402300799];
    for w in times.windows(2) {
        assert!(unix_to_date(w[0]) <= unix_to_date(w[1]));
        assert_eq!(unix_to_date(w[0]) == unix_to_date(w[1]), w[0] / 86400 == w[1] / 86400);
    }
}

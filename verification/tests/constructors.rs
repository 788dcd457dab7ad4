use chrono::NaiveDate;
use trivial_sql_builder::SQL;

fn built(sql: SQL) -> String {
    sql.build().unwrap()
}

#[test]
fn new_is_empty() {
    let sql = SQL::new(16);
    assert_eq!(sql.raw_text(), "");
    assert_eq!(built(sql), "");
    assert_eq!(built(SQL::new(0)), "");
}

#[test]
fn sql_is_taken_as_it_is() {
    assert_eq!(built(SQL::sql("SELECT 'x' FROM \"T\"")), "SELECT 'x' FROM \"T\"");
    assert_eq!(built(SQL::sql("")), "");
    assert_eq!(built(SQL::sql("a\0b\n")), "a\0b\n");
}

#[test]
fn varchar_that_fits_is_a_literal() {
    assert_eq!(built(SQL::varchar(&"dog".to_string(), 4)), "'dog'");
    assert_eq!(built(SQL::varchar(&"it's".to_string(), 4)), "E'it\\'s'");
}

#[test]
fn varchar_of_exactly_the_limit_passes() {
    assert_eq!(built(SQL::varchar(&"pupp".to_string(), 4)), "'pupp'");
    assert_eq!(built(SQL::varchar(&"".to_string(), 0)), "''");
}

#[test]
fn varchar_too_long_fails_with_both_lengths() {
    let sql = SQL::varchar(&"puppy".to_string(), 4);
    assert_eq!(sql.raw_text(), "<<<FAILURE ");
    assert_eq!(sql.build().unwrap_err().to_string(), "varchar too long: 5 vs 4");
}

#[test]
fn varchar_too_long_shows_lengths_of_several_digits() {
    let value = "x".repeat(1234);
    let sql = SQL::varchar(&value, 100);
    assert_eq!(sql.build().unwrap_err().to_string(), "varchar too long: 1234 vs 100");
    let sql = SQL::varchar(&"a".to_string(), 0);
    assert_eq!(sql.build().unwrap_err().to_string(), "varchar too long: 1 vs 0");
}

#[test]
fn varchar_counts_characters_not_bytes() {
    let value = "\u{e9}\u{e9}\u{e9}\u{e9}".to_string();
    assert_eq!(value.len(), 8);
    assert_eq!(built(SQL::varchar(&value, 4)), "'\u{e9}\u{e9}\u{e9}\u{e9}'");
    let sql = SQL::varchar(&value, 3);
    assert_eq!(sql.build().unwrap_err().to_string(), "varchar too long: 4 vs 3");
}

#[test]
fn varchar_with_nul_fails_even_where_it_fits() {
    let sql = SQL::varchar(&"a\0".to_string(), 10);
    assert_eq!(sql.build().unwrap_err().to_string(), "Zero character in string");
}

#[test]
fn varchar_too_long_is_not_escaped() {
    let sql = SQL::varchar(&"a\0bcdef".to_string(), 2);
    assert_eq!(sql.raw_text(), "<<<FAILURE ");
    assert_eq!(sql.build().unwrap_err().to_string(), "varchar too long: 7 vs 2");
}

#[test]
fn smallint_is_decimal() {
    assert_eq!(built(SQL::smallint(0)), "0");
    assert_eq!(built(SQL::smallint(7)), "7");
    assert_eq!(built(SQL::smallint(-1)), "-1");
    assert_eq!(built(SQL::smallint(i16::MAX)), "32767");
    assert_eq!(built(SQL::smallint(i16::MIN)), "-32768");
}

#[test]
fn int4_is_decimal() {
    assert_eq!(built(SQL::int4(-22)), "-22");
    assert_eq!(built(SQL::int4(10)), "10");
    assert_eq!(built(SQL::int4(1000)), "1000");
    assert_eq!(built(SQL::int4(i32::MAX)), "2147483647");
    assert_eq!(built(SQL::int4(i32::MIN)), "-2147483648");
}

#[test]
fn integer_is_decimal() {
    assert_eq!(built(SQL::integer(0)), "0");
    assert_eq!(built(SQL::integer(42)), "42");
    assert_eq!(built(SQL::integer(-100)), "-100");
    assert_eq!(built(SQL::integer(i32::MIN)), "-2147483648");
}

#[test]
fn bigint_is_decimal() {
    assert_eq!(built(SQL::bigint(0)), "0");
    assert_eq!(built(SQL::bigint(9)), "9");
    assert_eq!(built(SQL::bigint(1234567890123)), "1234567890123");
    assert_eq!(built(SQL::bigint(i64::MAX)), "9223372036854775807");
    assert_eq!(built(SQL::bigint(i64::MIN)), "-9223372036854775808");
}

#[test]
fn numbers_agree_with_the_standard_conversion() {
    for value in [0i64, 1, -1, 9, 10, 11, 99, 100, 101, -999, 1_000_000, -4_294_967_296] {
        assert_eq!(built(SQL::bigint(value)), value.to_string());
    }
    for value in [i16::MIN, -10, 0, 10, 255, i16::MAX] {
        assert_eq!(built(SQL::smallint(value)), value.to_string());
    }
}

#[test]
fn boolean_is_spelled_in_capitals() {
    assert_eq!(built(SQL::boolean(true)), "TRUE");
    assert_eq!(built(SQL::boolean(false)), "FALSE");
}

#[test]
fn naive_date_time_is_a_literal_of_its_text() {
    let value = NaiveDate::from_ymd_opt(2021, 12, 25).unwrap().and_hms_opt(10, 30, 0).unwrap();
    assert_eq!(built(SQL::naive_date_time(&value)), "'2021-12-25 10:30:00'");
}

#[test]
fn naive_date_time_shows_fractions_of_a_second() {
    let value =
        NaiveDate::from_ymd_opt(1999, 1, 2).unwrap().and_hms_milli_opt(3, 4, 5, 250).unwrap();
    assert_eq!(built(SQL::naive_date_time(&value)), "'1999-01-02 03:04:05.250'");
}

#[test]
fn naive_date_time_agrees_with_text_of_its_display() {
    let value = NaiveDate::from_ymd_opt(2016, 11, 15).unwrap().and_hms_opt(7, 39, 24).unwrap();
    assert_eq!(
        built(SQL::naive_date_time(&value)),
        built(SQL::text(&value.to_string()))
    );
}

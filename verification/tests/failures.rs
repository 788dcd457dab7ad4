use trivial_sql_builder::{BuildError, SQL};

fn failure(sql: SQL) -> String {
    sql.build().unwrap_err().to_string()
}

#[test]
fn fail_records_the_reason_and_poisons_the_text() {
    let mut sql = SQL::sql("SELECT ");
    sql.fail("no table");
    assert_eq!(sql.raw_text(), "SELECT <<<FAILURE ");
    assert_eq!(failure(sql), "no table");
}

#[test]
fn fail_twice_appends_the_second_reason() {
    let mut sql = SQL::new(0);
    sql.fail("first");
    sql.fail("second");
    assert_eq!(sql.raw_text(), "<<<FAILURE <<<FAILURE ");
    assert_eq!(failure(sql), "first, second");
}

#[test]
fn fail_three_times_keeps_the_order() {
    let mut sql = SQL::new(0);
    sql.fail("c");
    sql.fail("a");
    sql.fail("b");
    assert_eq!(failure(sql), "c, a, b");
}

#[test]
fn build_of_a_sound_fragment_is_its_text() {
    assert_eq!(SQL::sql("SELECT 1").build().unwrap(), "SELECT 1");
}

#[test]
fn build_borrowed_agrees_with_build() {
    let sound = SQL::text("x");
    assert_eq!(sound.build_borrowed().unwrap(), "'x'");
    assert_eq!(sound.build_borrowed().unwrap(), "'x'");
    assert_eq!(sound.build().unwrap(), "'x'");

    let broken = SQL::identifier("");
    assert_eq!(broken.build_borrowed().unwrap_err().to_string(), "empty identifier");
    assert_eq!(broken.build_borrowed().unwrap_err().message(), "empty identifier");
    assert_eq!(broken.build().unwrap_err().to_string(), "empty identifier");
}

#[test]
fn build_error_carries_its_message() {
    let error = BuildError::new("a, b".to_string());
    assert_eq!(error.message(), "a, b");
    assert_eq!(error.to_string(), "a, b");
}

#[test]
fn push_sql_takes_over_a_failure() {
    let sql = SQL::sql("x = ").push_sql(&SQL::text("a\0"));
    assert_eq!(sql.raw_text(), "x = <<<FAILURE E'a'");
    assert_eq!(failure(sql), "Zero character in string");
}

#[test]
fn push_sql_appends_a_failure_to_an_earlier_one() {
    let sql = SQL::identifier("").push_sql(&SQL::text("\0")).push_sql(&SQL::sql("ok"));
    assert_eq!(failure(sql), "empty identifier, Zero character in string");
}

#[test]
fn an_earlier_failure_survives_sound_fragments() {
    let sql = SQL::identifier("")
        .push_sql(&SQL::sql("a"))
        .append_join(&SQL::sql(","), &vec![SQL::int4(1), SQL::int4(2)]);
    assert_eq!(sql.raw_text(), "a1,2");
    assert_eq!(failure(sql), "empty identifier");
}

#[test]
fn append_join_reports_every_failure_in_order() {
    let items = vec![
        SQL::text("fine"),
        SQL::varchar(&"puppy".to_string(), 4),
        SQL::identifier("a\0"),
        SQL::identifier(""),
    ];
    let sql = SQL::join(&SQL::sql(", "), &items);
    assert_eq!(
        failure(sql),
        "varchar too long: 5 vs 4, string contains the null character, empty identifier"
    );
}

#[test]
fn append_join_goes_on_after_a_failure() {
    let items = vec![SQL::identifier(""), SQL::int4(1), SQL::int4(2)];
    let sql = SQL::join(&SQL::sql(", "), &items);
    assert_eq!(sql.raw_text(), "<<<FAILURE , 1, 2");
    assert!(sql.build().is_err());
}

#[test]
fn a_failed_delimiter_is_reported_each_time_it_is_used() {
    let items = vec![SQL::int4(1), SQL::int4(2), SQL::int4(3)];
    let sql = SQL::join(&SQL::identifier(""), &items);
    assert_eq!(failure(sql), "empty identifier, empty identifier");
}

#[test]
fn a_failure_deep_in_a_composition_reaches_the_top() {
    let inner = SQL::and(&vec![SQL::sql("a"), SQL::text("b\0")], true);
    let middle = SQL::in_vec(&SQL::identifier("col"), &vec![inner, SQL::int4(1)], false);
    let outer = SQL::sql("SELECT * FROM t WHERE ").push_sql(&middle);
    assert_eq!(failure(outer), "Zero character in string");
}

#[test]
fn failures_of_nested_compositions_are_flattened_in_order() {
    let left = SQL::join(&SQL::sql(","), &vec![SQL::identifier(""), SQL::text("\0")]);
    let right = SQL::or(&vec![SQL::varchar(&"abc".to_string(), 1)], false);
    let mut all = SQL::new(0);
    all.fail("zero");
    let all = all.push_sql(&left).push_sql(&right);
    assert_eq!(
        failure(all),
        "zero, empty identifier, Zero character in string, varchar too long: 3 vs 1"
    );
}

#[test]
fn clause_and_in_vec_take_over_failures() {
    let sql = SQL::and(&vec![SQL::identifier(""), SQL::sql("b")], true);
    assert_eq!(sql.raw_text(), "(\n<<<FAILURE  AND\nb\n)");
    assert_eq!(failure(sql), "empty identifier");

    let sql = SQL::in_vec(&SQL::identifier("x\0"), &vec![SQL::text("\0")], true);
    assert_eq!(
        failure(sql),
        "string contains the null character, Zero character in string"
    );
}
